use rustcli::models::Headers;

fn pairs(headers: &Headers) -> Vec<(&str, &str)> {
    headers.entries().iter().map(|(name, value)| (name.as_str(), value.as_str())).collect()
}

#[test]
fn new_headers_are_empty() {
    let headers = Headers::new();
    assert!(headers.is_empty());
    assert_eq!(headers.len(), 0);
    assert_eq!(headers.get("any"), None);
    assert!(!headers.contains_key("any"));
    assert!(headers.entries().is_empty());
}

#[test]
fn inserted_names_are_found() {
    let mut headers = Headers::new();
    headers.insert("Accept".to_string(), "*/*".to_string());
    headers.insert("Host".to_string(), "h".to_string());
    assert!(!headers.is_empty());
    assert_eq!(headers.len(), 2);
    assert_eq!(headers.get("Accept").map(|v| v.as_str()), Some("*/*"));
    assert_eq!(headers.get("Host").map(|v| v.as_str()), Some("h"));
    assert!(headers.contains_key("Host"));
    assert_eq!(headers.get("host"), None);
    assert!(!headers.contains_key("Hos"));
}

#[test]
fn inserting_a_name_again_replaces_its_value() {
    let mut headers = Headers::new();
    headers.insert("a".to_string(), "1".to_string());
    headers.insert("b".to_string(), "2".to_string());
    headers.insert("a".to_string(), "3".to_string());
    assert_eq!(headers.len(), 2);
    assert_eq!(headers.get("a").map(|v| v.as_str()), Some("3"));
    assert_eq!(headers.get("b").map(|v| v.as_str()), Some("2"));
    assert_eq!(pairs(&headers), vec![("a", "3"), ("b", "2")]);
}

#[test]
fn entries_list_each_name_once() {
    let mut headers = Headers::new();
    for (name, value) in [("x", "1"), ("y", "2"), ("x", "3"), ("z", "4"), ("y", "5"), ("", "6")] {
        headers.insert(name.to_string(), value.to_string());
    }
    assert_eq!(pairs(&headers), vec![("x", "3"), ("y", "5"), ("z", "4"), ("", "6")]);
    assert_eq!(headers.len(), 4);
    assert_eq!(headers.get("").map(|v| v.as_str()), Some("6"));
}
