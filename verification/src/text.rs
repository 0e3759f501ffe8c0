//! Character-level scanning: white space, lines, words and trimming.

use vstd::prelude::*;
use vstd::string::*;

verus! {

/// Whether `c` carries the Unicode property `White_Space`.
pub open spec fn whitespace(c: char) -> bool {
    let n = c as u32;
    ||| 0x09 <= n <= 0x0D
    ||| n == 0x20
    ||| n == 0x85
    ||| n == 0xA0
    ||| n == 0x1680
    ||| 0x2000 <= n <= 0x200A
    ||| n == 0x2028
    ||| n == 0x2029
    ||| n == 0x202F
    ||| n == 0x205F
    ||| n == 0x3000
}

/// Tells whether `c` is white space.
pub fn is_whitespace(c: char) -> (r: bool)
    ensures
        r == whitespace(c),
{
    let n: u32 = c as u32;
    (0x09 <= n && n <= 0x0D) || n == 0x20 || n == 0x85 || n == 0xA0 || n == 0x1680 || (0x2000 <= n
        && n <= 0x200A) || n == 0x2028 || n == 0x2029 || n == 0x202F || n == 0x205F || n == 0x3000
}

/// A set of characters that a scan looks for.
#[derive(Clone, Copy, Debug)]
pub enum CharClass {
    /// Every white-space character.
    Whitespace,
    /// The one character given.
    Only(char),
}

impl CharClass {
    /// Whether `c` belongs to the class.
    pub open spec fn has(self, c: char) -> bool {
        match self {
            CharClass::Whitespace => whitespace(c),
            CharClass::Only(d) => c == d,
        }
    }

    /// Tells whether `c` belongs to the class.
    pub fn contains(self, c: char) -> (r: bool)
        ensures
            r == self.has(c),
    {
        match self {
            CharClass::Whitespace => is_whitespace(c),
            CharClass::Only(d) => c == d,
        }
    }
}

/// The length of the longest prefix of `s` whose characters all belong to
/// `class` (when `inside` holds) or all lie outside it (when it does not).
pub open spec fn lead(s: Seq<char>, class: CharClass, inside: bool) -> nat
    decreases s.len(),
{
    if s.len() > 0 && class.has(s[0]) == inside {
        1 + lead(s.skip(1), class, inside)
    } else {
        0
    }
}

/// The length of the longest suffix of `s` whose characters all belong to
/// `class` (when `inside` holds) or all lie outside it (when it does not).
pub open spec fn trail(s: Seq<char>, class: CharClass, inside: bool) -> nat
    decreases s.len(),
{
    if s.len() > 0 && class.has(s.last()) == inside {
        1 + trail(s.drop_last(), class, inside)
    } else {
        0
    }
}

/// `lead` stays within the sequence, covers only characters of the wanted
/// kind, and stops at the first character of the other kind.
pub proof fn lemma_lead(s: Seq<char>, class: CharClass, inside: bool)
    ensures
        lead(s, class, inside) <= s.len(),
        forall|j: int| 0 <= j < lead(s, class, inside) ==> class.has(#[trigger] s[j]) == inside,
        lead(s, class, inside) < s.len() ==> class.has(s[lead(s, class, inside) as int]) != inside,
    decreases s.len(),
{
    if s.len() > 0 && class.has(s[0]) == inside {
        let t = s.skip(1);
        lemma_lead(t, class, inside);
        assert forall|j: int| 0 <= j < lead(s, class, inside) implies class.has(#[trigger] s[j])
            == inside by {
            if j > 0 {
                assert(s[j] == t[j - 1]);
            }
        }
    }
}

/// A prefix of wanted characters that ends the sequence, or is followed by a
/// character of the other kind, is the one that `lead` measures.
pub proof fn lemma_lead_is(s: Seq<char>, class: CharClass, inside: bool, n: int)
    requires
        0 <= n <= s.len(),
        forall|j: int| 0 <= j < n ==> class.has(#[trigger] s[j]) == inside,
        n < s.len() ==> class.has(s[n]) != inside,
    ensures
        lead(s, class, inside) == n,
    decreases s.len(),
{
    if n > 0 {
        let t = s.skip(1);
        lemma_lead_is(t, class, inside, n - 1);
    }
}

/// `trail` stays within the sequence, covers only characters of the wanted
/// kind, and stops at the last character of the other kind.
pub proof fn lemma_trail(s: Seq<char>, class: CharClass, inside: bool)
    ensures
        trail(s, class, inside) <= s.len(),
        forall|j: int|
            s.len() - trail(s, class, inside) <= j < s.len() ==> class.has(#[trigger] s[j])
                == inside,
        trail(s, class, inside) < s.len() ==> class.has(
            s[s.len() - trail(s, class, inside) - 1],
        ) != inside,
    decreases s.len(),
{
    if s.len() > 0 && class.has(s.last()) == inside {
        let t = s.drop_last();
        lemma_trail(t, class, inside);
        assert forall|j: int|
            s.len() - trail(s, class, inside) <= j < s.len() implies class.has(#[trigger] s[j])
            == inside by {
            if j < s.len() - 1 {
                assert(s[j] == t[j]);
            }
        }
    }
}

/// A suffix of wanted characters that begins the sequence, or is preceded by
/// a character of the other kind, is the one that `trail` measures.
pub proof fn lemma_trail_is(s: Seq<char>, class: CharClass, inside: bool, n: int)
    requires
        0 <= n <= s.len(),
        forall|j: int| s.len() - n <= j < s.len() ==> class.has(#[trigger] s[j]) == inside,
        n < s.len() ==> class.has(s[s.len() - n - 1]) != inside,
    ensures
        trail(s, class, inside) == n,
    decreases s.len(),
{
    if n > 0 {
        let t = s.drop_last();
        lemma_trail_is(t, class, inside, n - 1);
    }
}

/// Scans `chars` forward from `from` and stops at `to` or at the first
/// character whose membership in `class` is not `inside`.
pub fn scan(chars: &Vec<char>, from: usize, to: usize, class: CharClass, inside: bool) -> (stop:
    usize)
    requires
        from <= to <= chars.len(),
    ensures
        from <= stop <= to,
        stop - from == lead(chars@.subrange(from as int, to as int), class, inside),
{
    let mut i: usize = from;
    while i < to && class.contains(chars[i]) == inside
        invariant
            from <= i <= to <= chars.len(),
            forall|j: int| from <= j < i ==> class.has(#[trigger] chars@[j]) == inside,
        decreases to - i,
    {
        i = i + 1;
    }
    proof {
        lemma_lead_is(chars@.subrange(from as int, to as int), class, inside, i - from);
    }
    i
}

/// Scans `chars` backward from `to` and stops at `from` or just behind the
/// last character whose membership in `class` is not `inside`.
pub fn scan_back(chars: &Vec<char>, from: usize, to: usize, class: CharClass, inside: bool) -> (stop:
    usize)
    requires
        from <= to <= chars.len(),
    ensures
        from <= stop <= to,
        to - stop == trail(chars@.subrange(from as int, to as int), class, inside),
{
    let mut i: usize = to;
    while i > from && class.contains(chars[i - 1]) == inside
        invariant
            from <= i <= to <= chars.len(),
            forall|j: int| i <= j < to ==> class.has(#[trigger] chars@[j]) == inside,
        decreases i - from,
    {
        i = i - 1;
    }
    proof {
        lemma_trail_is(chars@.subrange(from as int, to as int), class, inside, to - i);
    }
    i
}

/// The characters of `text`, in order.
pub fn chars_of(text: &str) -> (r: Vec<char>)
    ensures
        r@ == text@,
{
    let mut out: Vec<char> = Vec::new();
    for c in it: text.chars()
        invariant
            it.seq() == text@,
            out@ == text@.take(it.index()),
    {
        out.push(c);
    }
    out
}

/// A line without the carriage return that may end it.
pub open spec fn without_return(line: Seq<char>) -> Seq<char> {
    if line.len() > 0 && line.last() == '\r' {
        line.drop_last()
    } else {
        line
    }
}

/// The lines of `text`. A line ends at a line feed, or at a carriage return
/// directly followed by a line feed; neither belongs to the line. The last
/// line needs no ending, and an ending that closes the text opens no further
/// line, so the empty text has no lines at all.
pub open spec fn lines_of(text: Seq<char>) -> Seq<Seq<char>>
    decreases text.len(),
{
    let n = lead(text, CharClass::Only('\n'), false) as int;
    if text.len() == 0 {
        Seq::empty()
    } else if n >= text.len() {
        seq![text]
    } else {
        seq![without_return(text.take(n))] + lines_of(text.skip(n + 1))
    }
}

/// The words of `s`: its maximal runs of characters that are not white
/// space, in order.
pub open spec fn words_of(s: Seq<char>) -> Seq<Seq<char>>
    decreases s.len(),
{
    let rest = s.skip(lead(s, CharClass::Whitespace, true) as int);
    let n = lead(rest, CharClass::Whitespace, false) as int;
    if n == 0 {
        Seq::empty()
    } else {
        proof {
            lemma_lead(s, CharClass::Whitespace, true);
            lemma_lead(rest, CharClass::Whitespace, false);
        }
        seq![rest.take(n)] + words_of(rest.skip(n))
    }
}

/// `s` without the white space at its two ends.
pub open spec fn trimmed(s: Seq<char>) -> Seq<char> {
    let rest = s.skip(lead(s, CharClass::Whitespace, true) as int);
    rest.take(rest.len() - trail(rest, CharClass::Whitespace, true))
}

/// Only the empty text has no line, and no line holds a line feed.
pub proof fn lemma_lines(text: Seq<char>)
    ensures
        lines_of(text).len() == 0 <==> text.len() == 0,
        forall|i: int, j: int|
            0 <= i < lines_of(text).len() && 0 <= j < lines_of(text)[i].len() ==> (
            #[trigger] lines_of(text)[i][j]) != '\n',
    decreases text.len(),
{
    let feed = CharClass::Only('\n');
    let n = lead(text, feed, false) as int;
    lemma_lead(text, feed, false);
    if text.len() > 0 && n < text.len() {
        lemma_lines(text.skip(n + 1));
    }
}

/// A line, a line feed behind it, and then more text: the lines are that
/// line and the lines of the rest.
pub proof fn lemma_lines_first(line: Seq<char>, rest: Seq<char>)
    requires
        !line.contains('\n'),
        line.len() > 0 ==> line.last() != '\r',
    ensures
        lines_of(line + seq!['\n'] + rest) == seq![line] + lines_of(rest),
{
    let feed = CharClass::Only('\n');
    let text = line + seq!['\n'] + rest;
    lemma_lead_is(text, feed, false, line.len() as int);
    assert(text.take(line.len() as int) == line);
    assert(text.skip(line.len() as int + 1) == rest);
}

/// A text without a line feed that holds a character is its own single
/// line.
pub proof fn lemma_lines_single(line: Seq<char>)
    requires
        !line.contains('\n'),
        line.len() > 0,
    ensures
        lines_of(line) == seq![line],
{
    let feed = CharClass::Only('\n');
    lemma_lead_is(line, feed, false, line.len() as int);
}

/// Every word holds a character, and none holds white space.
pub proof fn lemma_words(s: Seq<char>)
    ensures
        forall|i: int| 0 <= i < words_of(s).len() ==> (#[trigger] words_of(s)[i]).len() > 0,
        forall|i: int, j: int|
            0 <= i < words_of(s).len() && 0 <= j < words_of(s)[i].len() ==> !whitespace(
                #[trigger] words_of(s)[i][j],
            ),
    decreases s.len(),
{
    let blank = CharClass::Whitespace;
    lemma_lead(s, blank, true);
    let rest = s.skip(lead(s, blank, true) as int);
    let n = lead(rest, blank, false) as int;
    lemma_lead(rest, blank, false);
    if n > 0 {
        lemma_words(rest.skip(n));
        assert(words_of(s) == seq![rest.take(n)] + words_of(rest.skip(n)));
    }
}

/// A word, white space behind it, and then more text: the words are that
/// word and the words of the rest.
pub proof fn lemma_words_first(word: Seq<char>, gap: char, rest: Seq<char>)
    requires
        word.len() > 0,
        forall|j: int| 0 <= j < word.len() ==> !whitespace(#[trigger] word[j]),
        whitespace(gap),
    ensures
        words_of(word + seq![gap] + rest) == seq![word] + words_of(rest),
{
    let blank = CharClass::Whitespace;
    let s = word + seq![gap] + rest;
    lemma_lead_is(s, blank, true, 0);
    assert(s.skip(0) == s);
    lemma_lead_is(s, blank, false, word.len() as int);
    assert(s.take(word.len() as int) == word);
    let tail = s.skip(word.len() as int);
    // The gap in front of the rest changes none of its words.
    lemma_lead(rest, blank, true);
    let k = lead(rest, blank, true) as int;
    lemma_lead_is(tail, blank, true, k + 1);
    assert(tail.skip(k + 1) == rest.skip(k));
    assert(words_of(tail) == words_of(rest));
}

/// A text without white space that holds a character is its own single
/// word.
pub proof fn lemma_words_single(word: Seq<char>)
    requires
        word.len() > 0,
        forall|j: int| 0 <= j < word.len() ==> !whitespace(#[trigger] word[j]),
    ensures
        words_of(word) == seq![word],
{
    let blank = CharClass::Whitespace;
    lemma_lead_is(word, blank, true, 0);
    assert(word.skip(0) == word);
    lemma_lead_is(word, blank, false, word.len() as int);
    let tail = word.skip(word.len() as int);
    lemma_lead_is(tail, blank, true, 0);
    lemma_lead_is(tail, blank, false, 0);
    assert(words_of(tail) == Seq::<Seq<char>>::empty());
}

/// What is left of a text after trimming is a stretch of the text that
/// neither begins nor ends with white space, with nothing but white space
/// before and behind it.
pub proof fn lemma_trimmed(s: Seq<char>)
    ensures
        ({
            let from = lead(s, CharClass::Whitespace, true) as int;
            let to = from + trimmed(s).len();
            &&& 0 <= from <= to <= s.len()
            &&& trimmed(s) == s.subrange(from, to)
            &&& forall|j: int| 0 <= j < from ==> whitespace(#[trigger] s[j])
            &&& forall|j: int| to <= j < s.len() ==> whitespace(#[trigger] s[j])
            &&& trimmed(s).len() > 0 ==> !whitespace(trimmed(s).first()) && !whitespace(
                trimmed(s).last(),
            )
        }),
{
    let blank = CharClass::Whitespace;
    lemma_lead(s, blank, true);
    let from = lead(s, blank, true) as int;
    let rest = s.skip(from);
    lemma_trail(rest, blank, true);
    let to = from + trimmed(s).len();
    assert forall|j: int| to <= j < s.len() implies whitespace(#[trigger] s[j]) by {
        assert(s[j] == rest[j - from]);
    }
}

/// A text that neither begins nor ends with white space is left as it is.
pub proof fn lemma_trimmed_keeps(s: Seq<char>)
    requires
        s.len() > 0 ==> !whitespace(s.first()) && !whitespace(s.last()),
    ensures
        trimmed(s) == s,
{
    let blank = CharClass::Whitespace;
    lemma_lead_is(s, blank, true, 0);
    lemma_trail_is(s, blank, true, 0);
}

/// The characters of `text` from position `from` up to, not including,
/// position `to`, as a string of their own. Positions count characters, not
/// bytes, so the call takes time in proportion to `to`.
pub fn slice(text: &str, from: usize, to: usize) -> (r: String)
    requires
        from <= to <= text@.len(),
    ensures
        r@ == text@.subrange(from as int, to as int),
{
    String::from_str(text.substring_char(from, to))
}

/// Tells whether `text` begins with `prefix`.
pub fn starts_with(text: &str, prefix: &str) -> (r: bool)
    ensures
        r == prefix@.is_prefix_of(text@),
{
    let whole = chars_of(text);
    let part = chars_of(prefix);
    if part.len() > whole.len() {
        return false;
    }
    let n: usize = part.len();
    let mut i: usize = 0;
    while i < n
        invariant
            whole@ == text@,
            part@ == prefix@,
            n == part.len(),
            n <= whole.len(),
            i <= n,
            forall|j: int| 0 <= j < i ==> whole@[j] == part@[j],
        decreases n - i,
    {
        if whole[i] != part[i] {
            return false;
        }
        i = i + 1;
    }
    true
}

/// Tells whether `a` and `b` hold the same characters.
pub fn same(a: &str, b: &str) -> (r: bool)
    ensures
        r == (a@ == b@),
{
    let r = starts_with(a, b) && starts_with(b, a);
    assert(r ==> a@ =~= b@);
    r
}

/// Splits `text` into its lines.
pub fn split_lines(text: &str) -> (r: Vec<String>)
    ensures
        r.deep_view() == lines_of(text@),
{
    let chars = chars_of(text);
    let n: usize = chars.len();
    let mut out: Vec<String> = Vec::new();
    let mut pos: usize = 0;
    assert(text@.skip(0) == text@);
    while pos < n
        invariant
            chars@ == text@,
            n == chars.len(),
            pos <= n,
            lines_of(text@) == out.deep_view() + lines_of(text@.skip(pos as int)),
        decreases n - pos,
    {
        let ghost rest = text@.skip(pos as int);
        let ghost before = out.deep_view();
        let stop = scan(&chars, pos, n, CharClass::Only('\n'), false);
        if stop == n {
            let line = slice(text, pos, n);
            out.push(line);
            pos = n;
        } else {
            let end: usize = if stop > pos && chars[stop - 1] == '\r' {
                stop - 1
            } else {
                stop
            };
            let line = slice(text, pos, end);
            out.push(line);
            proof {
                let raw = rest.take(stop - pos);
                assert(line@ == without_return(raw));
                assert(rest.skip(stop - pos + 1) == text@.skip(stop + 1));
                assert(before + (seq![line@] + lines_of(text@.skip(stop + 1))) == before.push(
                    line@,
                ) + lines_of(text@.skip(stop + 1)));
            }
            pos = stop + 1;
        }
    }
    out
}

/// Splits `text` into its words.
pub fn split_words(text: &str) -> (r: Vec<String>)
    ensures
        r.deep_view() == words_of(text@),
{
    let chars = chars_of(text);
    let n: usize = chars.len();
    let mut out: Vec<String> = Vec::new();
    let mut pos: usize = 0;
    assert(text@.skip(0) == text@);
    loop
        invariant
            chars@ == text@,
            n == chars.len(),
            pos <= n,
            words_of(text@) == out.deep_view() + words_of(text@.skip(pos as int)),
        ensures
            out.deep_view() == words_of(text@),
        decreases n - pos,
    {
        let ghost s = text@.skip(pos as int);
        let ghost before = out.deep_view();
        let start = scan(&chars, pos, n, CharClass::Whitespace, true);
        let ghost rest = s.skip(start - pos);
        assert(rest == text@.skip(start as int));
        let stop = scan(&chars, start, n, CharClass::Whitespace, false);
        if stop == start {
            break ;
        }
        let word = slice(text, start, stop);
        out.push(word);
        proof {
            assert(word@ == rest.take(stop - start));
            assert(rest.skip(stop - start) == text@.skip(stop as int));
            assert(before + (seq![word@] + words_of(text@.skip(stop as int))) == before.push(
                word@,
            ) + words_of(text@.skip(stop as int)));
        }
        pos = stop;
    }
    out
}

/// `text` without the white space at its two ends.
pub fn trim(text: &str) -> (r: String)
    ensures
        r@ == trimmed(text@),
{
    let chars = chars_of(text);
    let n: usize = chars.len();
    let start = scan(&chars, 0, n, CharClass::Whitespace, true);
    assert(chars@.subrange(0, n as int) == text@);
    let stop = scan_back(&chars, start, n, CharClass::Whitespace, true);
    slice(text, start, stop)
}

} // verus!
