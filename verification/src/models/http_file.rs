//! The text that describes one request, and what it is read as.
//!
//! ```text
//! <url> <METHOD> [--key=value ...]
//! ...any lines...
//! --body
//! <single body line>
//! ```

use crate::models::headers::{map_of, Field, Headers};
use crate::text::{
    chars_of, lead, lemma_lead, lemma_lead_is, lines_of, scan, slice, split_lines, split_words,
    starts_with, trim, trimmed, words_of, CharClass,
};
use vstd::prelude::*;
use vstd::string::*;

verus! {

/// Why a text describes no request.
#[derive(Debug, Clone, Copy, PartialEq, Eq, Structural)]
pub enum FormatError {
    /// The text holds no line at all.
    EmptyInput,
}

/// What a descriptor text says: the mathematical content of an `HttpFile`.
pub struct Descriptor {
    pub url: Seq<char>,
    pub method: Seq<char>,
    pub headers: Map<Seq<char>, Seq<char>>,
    pub body: Option<Seq<char>>,
}

/// One request as described by a text.
#[derive(Debug)]
pub struct HttpFile {
    pub url: String,
    pub method: String,
    pub headers: Headers,
    pub body: Option<String>,
}

impl View for HttpFile {
    type V = Descriptor;

    open spec fn view(&self) -> Descriptor {
        Descriptor {
            url: self.url@,
            method: self.method@,
            headers: self.headers@,
            body: self.body.deep_view(),
        }
    }
}

/// The two characters that open an inline header.
pub open spec fn header_prefix() -> Seq<char> {
    "--"@
}

/// The marker that announces the body.
pub open spec fn body_marker() -> Seq<char> {
    "--body"@
}

/// Whether `line` switches to reading the body: it is the marker, or
/// begins with it.
pub open spec fn is_marker(line: Seq<char>) -> bool {
    body_marker().is_prefix_of(line)
}

/// The header that `word` declares. A word declares one where it begins
/// with `--` and holds exactly one `=` behind that: the name stands before
/// the `=`, the value behind it.
pub open spec fn inline_header(word: Seq<char>) -> Option<Field> {
    let rest = word.skip(header_prefix().len() as int);
    let at = lead(rest, CharClass::Only('='), false) as int;
    let value = rest.skip(at + 1);
    if header_prefix().is_prefix_of(word) && at < rest.len() && lead(
        value,
        CharClass::Only('='),
        false,
    ) == value.len() {
        Some((rest.take(at), value))
    } else {
        None
    }
}

/// The headers that `words` declare, in the order of the words.
pub open spec fn header_fields(words: Seq<Seq<char>>) -> Seq<Field>
    decreases words.len(),
{
    if words.len() == 0 {
        Seq::empty()
    } else {
        let front = header_fields(words.drop_last());
        match inline_header(words.last()) {
            Some(field) => front.push(field),
            None => front,
        }
    }
}

/// The number of empty lines before the first line that holds a character.
pub open spec fn empty_lines(lines: Seq<Seq<char>>) -> nat
    decreases lines.len(),
{
    if lines.len() > 0 && lines[0].len() == 0 {
        1 + empty_lines(lines.skip(1))
    } else {
        0
    }
}

/// The body, once the marker has been met: the first line that is not a
/// marker itself, without the white space at its ends.
pub open spec fn body_after_marker(lines: Seq<Seq<char>>) -> Option<Seq<char>>
    decreases lines.len(),
{
    if lines.len() == 0 {
        None
    } else if is_marker(lines[0]) {
        body_after_marker(lines.skip(1))
    } else {
        Some(trimmed(lines[0]))
    }
}

/// The body that the lines behind the header line declare: what follows
/// the first marker among them.
pub open spec fn body_of(lines: Seq<Seq<char>>) -> Option<Seq<char>>
    decreases lines.len(),
{
    if lines.len() == 0 {
        None
    } else if is_marker(lines[0]) {
        body_after_marker(lines.skip(1))
    } else {
        body_of(lines.skip(1))
    }
}

/// The words of the header line of `text`: of its first line that is not
/// empty. A text without such a line has no header words.
pub open spec fn header_words(text: Seq<char>) -> Seq<Seq<char>> {
    let lines = lines_of(text);
    let at = empty_lines(lines) as int;
    if at < lines.len() {
        words_of(lines[at])
    } else {
        Seq::empty()
    }
}

/// The lines of `text` behind its header line.
pub open spec fn body_lines(text: Seq<char>) -> Seq<Seq<char>> {
    let lines = lines_of(text);
    let at = empty_lines(lines) as int;
    if at < lines.len() {
        lines.skip(at + 1)
    } else {
        Seq::empty()
    }
}

/// What a text that holds at least one line describes.
///
/// The header line is the first line that is not empty. Its first word is
/// the URL, its second the method, and each further word may declare a
/// header; with fewer than two words, URL and method are empty and there
/// are no headers. The lines behind the header line may declare a body.
pub open spec fn descriptor_of(text: Seq<char>) -> Descriptor {
    let words = header_words(text);
    if words.len() >= 2 {
        Descriptor {
            url: words[0],
            method: words[1],
            headers: map_of(header_fields(words.skip(2))),
            body: body_of(body_lines(text)),
        }
    } else {
        Descriptor {
            url: Seq::empty(),
            method: Seq::empty(),
            headers: Map::empty(),
            body: body_of(body_lines(text)),
        }
    }
}

/// The URL and the method of a description are the first and the second
/// word of the header line, wherever that line has two words.
pub proof fn lemma_url_and_method(text: Seq<char>)
    requires
        header_words(text).len() >= 2,
    ensures
        descriptor_of(text).url == header_words(text)[0],
        descriptor_of(text).method == header_words(text)[1],
{
}

/// A header line with fewer than two words gives an empty URL, an empty
/// method and no headers.
pub proof fn lemma_short_header_line(text: Seq<char>)
    requires
        header_words(text).len() < 2,
    ensures
        descriptor_of(text).url == Seq::<char>::empty(),
        descriptor_of(text).method == Seq::<char>::empty(),
        descriptor_of(text).headers == Map::<Seq<char>, Seq<char>>::empty(),
{
}

/// A word of the form `--name=value`, with no `=` in the name nor in the
/// value, declares the header that maps the name to the value.
pub proof fn lemma_inline_header_form(name: Seq<char>, value: Seq<char>)
    requires
        !name.contains('='),
        !value.contains('='),
    ensures
        inline_header(header_prefix() + name + seq!['='] + value) == Some((name, value)),
{
    reveal_strlit("--");
    let word = header_prefix() + name + seq!['='] + value;
    let rest = word.skip(2);
    lemma_lead_is(rest, CharClass::Only('='), false, name.len() as int);
    let tail = rest.skip(name.len() as int + 1);
    assert(tail =~= value);
    lemma_lead_is(value, CharClass::Only('='), false, value.len() as int);
}

/// A word declares a header only where it has the form `--name=value`, with
/// no `=` in the name nor in the value: a word that does not begin with
/// `--`, or holds no `=` behind it or more than one, declares none.
pub proof fn lemma_inline_header_shape(word: Seq<char>)
    ensures
        inline_header(word) matches Some((name, value)) ==> word == header_prefix() + name
            + seq!['='] + value && !name.contains('=') && !value.contains('='),
{
    reveal_strlit("--");
    if let Some((name, value)) = inline_header(word) {
        let rest = word.skip(2);
        lemma_lead(rest, CharClass::Only('='), false);
        lemma_lead(value, CharClass::Only('='), false);
    }
}

/// Whether the word at `at` is the last of `words` that declares a header
/// of the name `name`.
pub open spec fn declares_last(words: Seq<Seq<char>>, at: int, name: Seq<char>) -> bool {
    &&& 0 <= at < words.len()
    &&& inline_header(words[at]) matches Some(field) && field.0 == name
    &&& forall|j: int|
        at < j < words.len() ==> !(inline_header(#[trigger] words[j]) matches Some(field)
            && field.0 == name)
}

/// The headers that words declare hold, for each name, the value of the
/// last word that declares the name.
pub proof fn lemma_declared_header(
    words: Seq<Seq<char>>,
    at: int,
    name: Seq<char>,
    value: Seq<char>,
)
    requires
        declares_last(words, at, name),
        inline_header(words[at]) == Some((name, value)),
    ensures
        map_of(header_fields(words)).contains_key(name),
        map_of(header_fields(words))[name] == value,
    decreases words.len(),
{
    let front = words.drop_last();
    let before = header_fields(front);
    if at < words.len() - 1 {
        lemma_declared_header(front, at, name, value);
    }
    if let Some(field) = inline_header(words.last()) {
        assert(before.push(field).drop_last() == before);
    }
}

/// The headers that words declare hold no name but those that some word
/// declares.
pub proof fn lemma_header_is_declared(words: Seq<Seq<char>>, name: Seq<char>)
    requires
        map_of(header_fields(words)).contains_key(name),
    ensures
        exists|at: int| declares_last(words, at, name),
    decreases words.len(),
{
    if words.len() > 0 {
        let front = words.drop_last();
        let before = header_fields(front);
        if let Some(field) = inline_header(words.last()) {
            assert(before.push(field).drop_last() == before);
        }
        if inline_header(words.last()) matches Some(field) && field.0 == name {
            assert(declares_last(words, words.len() - 1, name));
        } else {
            lemma_header_is_declared(front, name);
            let at = choose|at: int| declares_last(front, at, name);
            assert forall|j: int| at < j < words.len() implies !(inline_header(
                #[trigger] words[j],
            ) matches Some(field) && field.0 == name) by {
                if j < words.len() - 1 {
                    assert(front[j] == words[j]);
                }
            }
            assert(declares_last(words, at, name));
        }
    }
}

/// Lines without a marker among them declare no body.
pub proof fn lemma_no_marker_no_body(lines: Seq<Seq<char>>)
    requires
        forall|i: int| 0 <= i < lines.len() ==> !is_marker(#[trigger] lines[i]),
    ensures
        body_of(lines) is None,
    decreases lines.len(),
{
    if lines.len() > 0 {
        let rest = lines.skip(1);
        lemma_no_marker_no_body(rest);
    }
}

/// Once the marker has been met, the body is the line at `at`, trimmed,
/// where every line before it is a marker too and that line is none; with
/// markers only, there is no body.
pub proof fn lemma_body_after_marker(lines: Seq<Seq<char>>, at: int)
    requires
        0 <= at <= lines.len(),
        forall|i: int| 0 <= i < at ==> is_marker(#[trigger] lines[i]),
        at < lines.len() ==> !is_marker(lines[at]),
    ensures
        body_after_marker(lines) == if at < lines.len() {
            Some(trimmed(lines[at]))
        } else {
            None
        },
    decreases lines.len(),
{
    if at > 0 {
        let rest = lines.skip(1);
        lemma_body_after_marker(rest, at - 1);
    }
}

/// Where the first marker stands at `marker`, and the first line behind it
/// that is no marker stands at `at`, the body is that line, trimmed, whatever
/// lines follow it; where only markers follow the first one, there is no
/// body.
pub proof fn lemma_body_follows_marker(lines: Seq<Seq<char>>, marker: int, at: int)
    requires
        0 <= marker < at <= lines.len(),
        forall|i: int| 0 <= i < marker ==> !is_marker(#[trigger] lines[i]),
        forall|i: int| marker <= i < at ==> is_marker(#[trigger] lines[i]),
        at < lines.len() ==> !is_marker(lines[at]),
    ensures
        body_of(lines) == if at < lines.len() {
            Some(trimmed(lines[at]))
        } else {
            None
        },
    decreases lines.len(),
{
    let rest = lines.skip(1);
    if marker > 0 {
        lemma_body_follows_marker(rest, marker - 1, at - 1);
    } else {
        lemma_body_after_marker(rest, at - 1);
    }
}

/// A word of the header line behind the first two that declares a header,
/// with no later word that declares the same name, puts its name and its
/// value into the headers of the description.
pub proof fn lemma_descriptor_header(text: Seq<char>, at: int, name: Seq<char>, value: Seq<char>)
    requires
        2 <= at < header_words(text).len(),
        inline_header(header_words(text)[at]) == Some((name, value)),
        forall|j: int|
            at < j < header_words(text).len() ==> !(inline_header(
                #[trigger] header_words(text)[j],
            ) matches Some(field) && field.0 == name),
    ensures
        descriptor_of(text).headers.contains_key(name),
        descriptor_of(text).headers[name] == value,
{
    let words = header_words(text);
    let declaring = words.skip(2);
    lemma_declared_header(declaring, at - 2, name, value);
}

/// Every name in the headers of a description is declared by a word of the
/// header line behind the first two, and is mapped to the value that the
/// last such word gives it. A word that declares no header, for want of the
/// `--` or of a single `=`, therefore leaves nothing in the headers.
pub proof fn lemma_descriptor_header_source(text: Seq<char>, name: Seq<char>)
    requires
        descriptor_of(text).headers.contains_key(name),
    ensures
        exists|at: int|
            2 <= at < header_words(text).len() && #[trigger] declares_last(
                header_words(text).skip(2),
                at - 2,
                name,
            ) && inline_header(header_words(text)[at]) == Some(
                (name, descriptor_of(text).headers[name]),
            ),
{
    let words = header_words(text);
    let declaring = words.skip(2);
    lemma_header_is_declared(declaring, name);
    let k = choose|k: int| declares_last(declaring, k, name);
    let field = inline_header(declaring[k])->0;
    lemma_declared_header(declaring, k, name, field.1);
    assert(declares_last(words.skip(2), (k + 2) - 2, name));
}

/// A text without a marker behind its header line describes no body.
pub proof fn lemma_descriptor_without_body(text: Seq<char>)
    requires
        forall|i: int| 0 <= i < body_lines(text).len() ==> !is_marker(#[trigger] body_lines(text)[i]),
    ensures
        descriptor_of(text).body is None,
{
    lemma_no_marker_no_body(body_lines(text));
}

/// A text with a marker behind its header line, and a line that is no
/// marker directly behind the first marker, describes that line, without the
/// white space at its ends, as the body, whatever follows it.
pub proof fn lemma_descriptor_body(text: Seq<char>, marker: int)
    requires
        0 <= marker,
        marker + 1 < body_lines(text).len(),
        forall|i: int| 0 <= i < marker ==> !is_marker(#[trigger] body_lines(text)[i]),
        is_marker(body_lines(text)[marker]),
        !is_marker(body_lines(text)[marker + 1]),
    ensures
        descriptor_of(text).body == Some(trimmed(body_lines(text)[marker + 1])),
{
    lemma_body_follows_marker(body_lines(text), marker, marker + 1);
}

/// A run of empty lines that is followed by a line with a character in
/// it, or by nothing, is the run that `empty_lines` counts.
proof fn lemma_empty_lines_is(lines: Seq<Seq<char>>, n: int)
    requires
        0 <= n <= lines.len(),
        forall|j: int| 0 <= j < n ==> (#[trigger] lines[j]).len() == 0,
        n < lines.len() ==> lines[n].len() > 0,
    ensures
        empty_lines(lines) == n,
    decreases lines.len(),
{
    if n > 0 {
        let rest = lines.skip(1);
        lemma_empty_lines_is(rest, n - 1);
    }
}

impl FormatError {
    /// The error in words.
    pub fn message(&self) -> (r: String)
        ensures
            r@ == "Empty file"@,
    {
        match self {
            FormatError::EmptyInput => String::from_str("Empty file"),
        }
    }
}

/// Reads `word` as an inline header.
pub fn read_inline_header(word: &str) -> (r: Option<(String, String)>)
    ensures
        match r {
            Some((name, value)) => inline_header(word@) == Some((name@, value@)),
            None => inline_header(word@) is None,
        },
{
    proof {
        reveal_strlit("--");
    }
    if !starts_with(word, "--") {
        return None;
    }
    let chars = chars_of(word);
    let n: usize = chars.len();
    let ghost rest = word@.skip(2);
    let at = scan(&chars, 2, n, CharClass::Only('='), false);
    if at == n {
        return None;
    }
    let ghost tail = rest.skip(at - 2 + 1);
    assert(chars@.subrange(at + 1, n as int) == tail);
    let end = scan(&chars, at + 1, n, CharClass::Only('='), false);
    if end != n {
        return None;
    }
    let name = slice(word, 2, at);
    let value = slice(word, at + 1, n);
    Some((name, value))
}

/// Looks for the body among the lines from position `from` on.
pub fn find_body(lines: &Vec<String>, from: usize) -> (r: Option<String>)
    requires
        from <= lines.len(),
    ensures
        match r {
            Some(body) => body_of(lines.deep_view().skip(from as int)) == Some(body@),
            None => body_of(lines.deep_view().skip(from as int)) is None,
        },
{
    let ghost all = lines.deep_view();
    let n: usize = lines.len();
    let mut reading: bool = false;
    let mut i: usize = from;
    while i < n
        invariant
            all == lines.deep_view(),
            n == lines.len(),
            from <= i <= n,
            body_of(all.skip(from as int)) == if reading {
                body_after_marker(all.skip(i as int))
            } else {
                body_of(all.skip(i as int))
            },
        decreases n - i,
    {
        let ghost here = all.skip(i as int);
        assert(here.skip(1) == all.skip(i + 1));
        if starts_with(lines[i].as_str(), "--body") {
            reading = true;
        } else if reading {
            return Some(trim(lines[i].as_str()));
        }
        i = i + 1;
    }
    None
}

impl HttpFile {
    /// Reads `content` as the description of one request.
    ///
    /// A text without any line is refused; every other text describes a
    /// request, the one that `descriptor_of` gives.
    pub fn parse(content: &str) -> (r: Result<HttpFile, FormatError>)
        ensures
            content@.len() == 0 ==> r == Err::<HttpFile, FormatError>(FormatError::EmptyInput),
            content@.len() > 0 ==> r is Ok && r->Ok_0@ == descriptor_of(content@),
    {
        if content.is_empty() {
            return Err(FormatError::EmptyInput);
        }
        let lines = split_lines(content);
        let ghost all = lines.deep_view();
        let count: usize = lines.len();
        let mut at: usize = 0;
        while at < count && lines[at].as_str().is_empty()
            invariant
                all == lines.deep_view(),
                count == lines.len(),
                at <= count,
                forall|j: int| 0 <= j < at ==> (#[trigger] all[j]).len() == 0,
            decreases count - at,
        {
            at = at + 1;
        }
        proof {
            lemma_empty_lines_is(all, at as int);
        }
        let mut url = String::new();
        let mut method = String::new();
        let mut headers = Headers::new();
        let mut body: Option<String> = None;
        if at < count {
            let words = split_words(lines[at].as_str());
            let ghost spoken = words.deep_view();
            let total: usize = words.len();
            if total >= 2 {
                url = words[0].clone();
                method = words[1].clone();
                let mut i: usize = 2;
                while i < total
                    invariant
                        spoken == words.deep_view(),
                        total == words.len(),
                        2 <= i <= total,
                        headers@ == map_of(header_fields(spoken.subrange(2, i as int))),
                    decreases total - i,
                {
                    let ghost seen = spoken.subrange(2, i as int);
                    let ghost next = spoken.subrange(2, i + 1);
                    assert(next.drop_last() == seen);
                    match read_inline_header(words[i].as_str()) {
                        Some((name, value)) => {
                            assert(header_fields(next).drop_last() == header_fields(seen));
                            headers.insert(name, value);
                        },
                        None => {},
                    }
                    i = i + 1;
                }
            }
            body = find_body(&lines, at + 1);
        }
        Ok(HttpFile { url, method, headers, body })
    }
}

} // verus!
