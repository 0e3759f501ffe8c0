//! Header fields: a finite mapping from names to values.

use vstd::prelude::*;
use vstd::string::*;

verus! {

/// One field as text: its name, then its value.
pub type Field = (Seq<char>, Seq<char>);

/// The mapping that a sequence of fields denotes: every name is mapped to
/// the value of the last field that carries it.
pub open spec fn map_of(fields: Seq<Field>) -> Map<Seq<char>, Seq<char>>
    decreases fields.len(),
{
    if fields.len() == 0 {
        Map::empty()
    } else {
        map_of(fields.drop_last()).insert(fields.last().0, fields.last().1)
    }
}

/// Whether no two fields carry the same name.
pub open spec fn distinct_names(fields: Seq<Field>) -> bool {
    forall|i: int, j: int| 0 <= i < j < fields.len() ==> fields[i].0 != fields[j].0
}

/// The mapping of a sequence of fields has the names of the fields as its
/// keys, so it is finite. Where the names are distinct it has one key a
/// field and maps each name to the value that stands beside it.
pub proof fn lemma_map_of(fields: Seq<Field>)
    ensures
        map_of(fields).dom().finite(),
        forall|k: Seq<char>| #[trigger]
            map_of(fields).contains_key(k) <==> exists|i: int|
                0 <= i < fields.len() && #[trigger] fields[i].0 == k,
        distinct_names(fields) ==> map_of(fields).len() == fields.len(),
        distinct_names(fields) ==> forall|i: int|
            0 <= i < fields.len() ==> map_of(fields)[#[trigger] fields[i].0] == fields[i].1,
    decreases fields.len(),
{
    if fields.len() > 0 {
        let front = fields.drop_last();
        lemma_map_of(front);
        assert forall|k: Seq<char>| #[trigger]
            map_of(fields).contains_key(k) <==> exists|i: int|
                0 <= i < fields.len() && #[trigger] fields[i].0 == k by {
            if exists|i: int| 0 <= i < fields.len() && #[trigger] fields[i].0 == k {
                let i = choose|i: int| 0 <= i < fields.len() && #[trigger] fields[i].0 == k;
                if i < fields.len() - 1 {
                    assert(front[i].0 == k);
                }
            }
        }
        if distinct_names(fields) {
            assert forall|i: int| 0 <= i < fields.len() implies map_of(fields)[#[trigger] fields[i].0]
                == fields[i].1 by {
                if i < fields.len() - 1 {
                    assert(front[i].0 == fields[i].0);
                }
            }
        }
    }
}

/// Giving the field at `at` another value, where the names are distinct,
/// maps its name to that value and leaves the other names as they were.
pub proof fn lemma_map_of_update(fields: Seq<Field>, at: int, value: Seq<char>)
    requires
        distinct_names(fields),
        0 <= at < fields.len(),
    ensures
        map_of(fields.update(at, (fields[at].0, value))) == map_of(fields).insert(
            fields[at].0,
            value,
        ),
        distinct_names(fields.update(at, (fields[at].0, value))),
    decreases fields.len(),
{
    let name = fields[at].0;
    let changed = fields.update(at, (name, value));
    let front = fields.drop_last();
    if at == fields.len() - 1 {
        assert(changed.drop_last() == front);
    } else {
        lemma_map_of_update(front, at, value);
        assert(changed.drop_last() == front.update(at, (name, value)));
    }
}

/// The position of the field that carries `name`.
fn position(entries: &Vec<(String, String)>, name: &String) -> (r: Option<usize>)
    ensures
        match r {
            Some(i) => i < entries.len() && entries.deep_view()[i as int].0 == name@,
            None => forall|j: int| 0 <= j < entries.len() ==> entries.deep_view()[j].0 != name@,
        },
{
    let n: usize = entries.len();
    let mut i: usize = 0;
    while i < n
        invariant
            n == entries.len(),
            i <= n,
            forall|j: int| 0 <= j < i ==> entries.deep_view()[j].0 != name@,
        decreases n - i,
    {
        if entries[i].0 == *name {
            return Some(i);
        }
        i = i + 1;
    }
    None
}

/// A finite mapping from header names to header values. A name occurs at
/// most once; giving a name a value again replaces the value it had.
#[derive(Debug)]
pub struct Headers {
    entries: Vec<(String, String)>,
}

impl View for Headers {
    type V = Map<Seq<char>, Seq<char>>;

    /// The mapping from each name to its value.
    open spec fn view(&self) -> Map<Seq<char>, Seq<char>> {
        map_of(self.fields())
    }
}

impl Headers {
    #[verifier::type_invariant]
    spec fn names_are_distinct(self) -> bool {
        distinct_names(self.entries.deep_view())
    }

    /// The fields in the order in which their names first came in.
    pub closed spec fn fields(self) -> Seq<Field> {
        self.entries.deep_view()
    }

    /// The mapping without any name.
    pub fn new() -> (r: Headers)
        ensures
            r@ == Map::<Seq<char>, Seq<char>>::empty(),
            r.fields() == Seq::<Field>::empty(),
    {
        let r = Headers { entries: Vec::new() };
        r
    }

    /// Maps `name` to `value`, in place of the value that `name` had, if
    /// it had one. A name that is new comes last among the fields; one that
    /// was there keeps its place.
    pub fn insert(&mut self, name: String, value: String)
        ensures
            final(self)@ == old(self)@.insert(name@, value@),
            !old(self)@.contains_key(name@) ==> final(self).fields() == old(self).fields().push(
                (name@, value@),
            ),
            forall|i: int|
                0 <= i < old(self).fields().len() && (#[trigger] old(self).fields()[i]).0 == name@
                    ==> final(self).fields() == old(self).fields().update(i, (name@, value@)),
    {
        let ghost before = self.entries.deep_view();
        proof {
            use_type_invariant(&*self);
            lemma_map_of(before);
        }
        let mut entries: Vec<(String, String)> = Vec::new();
        std::mem::swap(&mut self.entries, &mut entries);
        match position(&entries, &name) {
            Some(i) => {
                entries[i] = (name, value);
                proof {
                    lemma_map_of_update(before, i as int, value@);
                    assert(entries.deep_view() == before.update(i as int, (name@, value@)));
                }
            },
            None => {
                entries.push((name, value));
                proof {
                    let after = entries.deep_view();
                    assert(after == before.push((name@, value@)));
                    assert(after.drop_last() == before);
                }
            },
        }
        self.entries = entries;
    }

    /// The value that `name` is mapped to.
    pub fn get(&self, name: &str) -> (r: Option<&String>)
        ensures
            match r {
                Some(value) => self@.contains_key(name@) && value@ == self@[name@],
                None => !self@.contains_key(name@),
            },
    {
        proof {
            use_type_invariant(self);
            lemma_map_of(self.entries.deep_view());
        }
        let key = String::from_str(name);
        match position(&self.entries, &key) {
            Some(i) => Some(&self.entries[i].1),
            None => None,
        }
    }

    /// Tells whether `name` is mapped to a value.
    pub fn contains_key(&self, name: &str) -> (r: bool)
        ensures
            r == self@.contains_key(name@),
    {
        self.get(name).is_some()
    }

    /// The number of names.
    pub fn len(&self) -> (r: usize)
        ensures
            r == self@.len(),
            r == self.fields().len(),
            self@.dom().finite(),
    {
        proof {
            use_type_invariant(self);
            lemma_map_of(self.entries.deep_view());
        }
        self.entries.len()
    }

    /// Tells whether there is no name at all.
    pub fn is_empty(&self) -> (r: bool)
        ensures
            r == (self@.len() == 0),
            r == (self@ == Map::<Seq<char>, Seq<char>>::empty()),
    {
        proof {
            use_type_invariant(self);
            lemma_map_of(self.entries.deep_view());
        }
        self.entries.len() == 0
    }

    /// The fields, each name once, in the order in which the names first
    /// came in.
    pub fn entries(&self) -> (r: &Vec<(String, String)>)
        ensures
            r.deep_view() == self.fields(),
            distinct_names(r.deep_view()),
            map_of(r.deep_view()) == self@,
    {
        proof {
            use_type_invariant(self);
        }
        &self.entries
    }
}

} // verus!
