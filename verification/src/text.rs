//! Character-level building blocks: turning strings into character slices and
//! back, trimming, splitting and case folding, each with its mathematical
//! counterpart on `Seq<char>`.

use vstd::prelude::*;
use vstd::slice::slice_subrange;

verus! {

/// Whether `c` has the Unicode `White_Space` property.
pub uninterp spec fn unicode_white_space(c: char) -> bool;

/// The Unicode lowercase form of `s`.
pub uninterp spec fn unicode_lowercase(s: Seq<char>) -> Seq<char>;

/// `char::is_whitespace` reports the Unicode `White_Space` property of a
/// character; it depends on the character alone.
pub assume_specification[ char::is_whitespace ](c: char) -> (b: bool)
    ensures
        b == unicode_white_space(c),
;

/// `String::push` appends one character to the end of the string.
pub assume_specification[ String::push ](s: &mut String, ch: char)
    ensures
        final(s)@ == old(s)@.push(ch),
;

/// `str::to_lowercase` returns the Unicode lowercase form of a string, which
/// depends on its characters alone.
#[verifier::external_body]
pub(crate) fn to_lowercase(s: &str) -> (lower: String)
    ensures
        lower@ == unicode_lowercase(s@),
{
    s.to_lowercase()
}

/// `core::str::from_utf8` succeeds exactly on well-formed UTF-8, and the string
/// it returns is encoded by the bytes it was given.
#[verifier::external_body]
pub(crate) fn utf8_text(bytes: &[u8]) -> (text: Option<&str>)
    ensures
        text is Some <==> vstd::utf8::valid_utf8(bytes@),
        text matches Some(s) ==> vstd::utf8::encode_utf8(s@) == bytes@,
{
    core::str::from_utf8(bytes).ok()
}

/// What `strip` takes away from the two ends of a text.
#[derive(Clone, Copy)]
pub enum Trim {
    /// Unicode white space.
    WhiteSpace,
    /// The double quote `"`.
    Quotes,
}

impl Trim {
    /// Whether `c` is among the characters that are taken away.
    pub open spec fn removes(self, c: char) -> bool {
        match self {
            Trim::WhiteSpace => unicode_white_space(c),
            Trim::Quotes => c == '"',
        }
    }

    fn test(self, c: char) -> (removed: bool)
        ensures
            removed == self.removes(c),
    {
        match self {
            Trim::WhiteSpace => c.is_whitespace(),
            Trim::Quotes => c == '"',
        }
    }
}

/// `s` without its longest prefix of removed characters.
pub open spec fn without_leading(s: Seq<char>, what: Trim) -> Seq<char>
    decreases s.len(),
{
    if s.len() > 0 && what.removes(s[0]) {
        without_leading(s.drop_first(), what)
    } else {
        s
    }
}

/// `s` without its longest suffix of removed characters.
pub open spec fn without_trailing(s: Seq<char>, what: Trim) -> Seq<char>
    decreases s.len(),
{
    if s.len() > 0 && what.removes(s.last()) {
        without_trailing(s.drop_last(), what)
    } else {
        s
    }
}

/// `s` with the removed characters taken from both ends.
pub open spec fn stripped(s: Seq<char>, what: Trim) -> Seq<char> {
    without_trailing(without_leading(s, what), what)
}

/// `s` without surrounding white space.
pub open spec fn trimmed(s: Seq<char>) -> Seq<char> {
    stripped(s, Trim::WhiteSpace)
}

/// `s` without surrounding white space and, inside that, without surrounding
/// double quotes.
pub open spec fn unquoted(s: Seq<char>) -> Seq<char> {
    stripped(trimmed(s), Trim::Quotes)
}

/// The index of the first `c` in `s`, or `s.len()` where `s` holds none.
pub open spec fn position(s: Seq<char>, c: char) -> int
    decreases s.len(),
{
    if s.len() == 0 || s[0] == c {
        0
    } else {
        1 + position(s.drop_first(), c)
    }
}

/// The parts of `s` between occurrences of `sep`: one more than there are
/// separators, empty parts included.
pub open spec fn pieces(s: Seq<char>, sep: char) -> Seq<Seq<char>>
    decreases s.len(),
{
    let i = position(s, sep);
    if 0 <= i < s.len() {
        seq![s.take(i)] + pieces(s.skip(i + 1), sep)
    } else {
        seq![s]
    }
}

/// The lowercase form of an ASCII capital letter; any other character itself.
pub open spec fn ascii_lower(c: char) -> char {
    if 'A' <= c <= 'Z' {
        ((c as u8) + 32) as char
    } else {
        c
    }
}

/// `s` with every ASCII capital letter replaced by its lowercase form.
pub open spec fn ascii_lowercase(s: Seq<char>) -> Seq<char> {
    s.map_values(|c: char| ascii_lower(c))
}

/// Whether `a` and `b` are equal up to the case of ASCII letters.
pub open spec fn same_ignoring_ascii_case(a: Seq<char>, b: Seq<char>) -> bool {
    ascii_lowercase(a) == ascii_lowercase(b)
}

/// The texts that a sequence of character slices holds.
pub open spec fn texts(parts: Seq<&[char]>) -> Seq<Seq<char>> {
    parts.map_values(|part: &[char]| part@)
}

/// The texts of a sequence of strings.
pub open spec fn string_texts(strings: Seq<String>) -> Seq<Seq<char>> {
    strings.map_values(|s: String| s@)
}

/// The byte strings that a sequence of byte slices holds.
pub open spec fn byte_texts(values: Seq<&[u8]>) -> Seq<Seq<u8>> {
    values.map_values(|value: &[u8]| value@)
}

/// The text of an optional string.
pub open spec fn text_of(s: Option<String>) -> Option<Seq<char>> {
    match s {
        Some(s) => Some(s@),
        None => None,
    }
}

/// `position` is the least index that holds `c`, and stays within `s`.
pub proof fn lemma_position(s: Seq<char>, c: char)
    ensures
        0 <= position(s, c) <= s.len(),
        position(s, c) < s.len() ==> s[position(s, c)] == c,
        forall|j: int| 0 <= j < position(s, c) ==> s[j] != c,
    decreases s.len(),
{
    if s.len() == 0 || s[0] == c {
    } else {
        lemma_position(s.drop_first(), c);
        assert forall|j: int| 0 <= j < position(s, c) implies s[j] != c by {
            if j > 0 {
                assert(s[j] == s.drop_first()[j - 1]);
            }
        }
    }
}

/// An index that holds `c`, or the length, with no `c` before it is `position`.
pub proof fn lemma_position_is(s: Seq<char>, c: char, k: int)
    requires
        0 <= k <= s.len(),
        k < s.len() ==> s[k] == c,
        forall|j: int| 0 <= j < k ==> s[j] != c,
    ensures
        position(s, c) == k,
{
    lemma_position(s, c);
    let p = position(s, c);
    if p < k {
        assert(s[p] == c);
    }
}

/// Lowercasing keeps the length, and acts on each character by itself.
pub proof fn lemma_ascii_lowercase_twice(s: Seq<char>)
    ensures
        ascii_lowercase(ascii_lowercase(s)) == ascii_lowercase(s),
{
    assert forall|c: char| ascii_lower(ascii_lower(c)) == #[trigger] ascii_lower(c) by {
        lemma_ascii_lower(c);
    }
    assert(ascii_lowercase(ascii_lowercase(s)) =~= ascii_lowercase(s));
}

/// `ascii_lower` maps capitals onto `a..=z` and leaves the rest alone.
pub proof fn lemma_ascii_lower(c: char)
    ensures
        'A' <= c <= 'Z' ==> 'a' <= ascii_lower(c) <= 'z' && ascii_lower(c) as u32 == c as u32 + 32,
        !('A' <= c <= 'Z') ==> ascii_lower(c) == c,
        ascii_lower(ascii_lower(c)) == ascii_lower(c),
{
}

/// The characters of `s`, in order.
pub fn chars_of(s: &str) -> (chars: Vec<char>)
    ensures
        chars@ == s@,
{
    let mut chars: Vec<char> = Vec::new();
    for c in it: s.chars()
        invariant
            chars@ == it.seq().take(it.index() as int),
    {
        chars.push(c);
    }
    chars
}

/// The string made of the characters of `chars`, in order.
pub fn string_of(chars: &[char]) -> (s: String)
    ensures
        s@ == chars@,
{
    let mut s = String::new();
    let mut i: usize = 0;
    while i < chars.len()
        invariant
            i <= chars.len(),
            s@ == chars@.take(i as int),
        decreases chars.len() - i,
    {
        s.push(chars[i]);
        i += 1;
    }
    s
}

/// Whether two strings hold the same characters.
pub fn str_eq(a: &str, b: &str) -> (same: bool)
    ensures
        same == (a@ == b@),
{
    let x = a.as_bytes();
    let y = b.as_bytes();
    proof {
        vstd::utf8::encode_utf8_decode_utf8(a@);
        vstd::utf8::encode_utf8_decode_utf8(b@);
    }
    assert((a@ == b@) == (x@ == y@));
    if x.len() != y.len() {
        return false;
    }
    let mut i: usize = 0;
    while i < x.len()
        invariant
            i <= x.len(),
            x.len() == y.len(),
            (a@ == b@) == (x@ == y@),
            x@.take(i as int) == y@.take(i as int),
        decreases x.len() - i,
    {
        if x[i] != y[i] {
            return false;
        }
        assert(x@.take(i + 1) == x@.take(i as int).push(x@[i as int]));
        assert(y@.take(i + 1) == y@.take(i as int).push(y@[i as int]));
        i += 1;
    }
    assert(x@ == x@.take(i as int));
    assert(y@ == y@.take(i as int));
    true
}

/// Takes the characters that `what` removes from both ends of `s`.
pub fn strip(s: &[char], what: Trim) -> (inner: &[char])
    ensures
        inner@ == stripped(s@, what),
{
    let mut start: usize = 0;
    assert(s@.skip(0) == s@);
    while start < s.len() && what.test(s[start])
        invariant
            start <= s.len(),
            without_leading(s@, what) == without_leading(s@.skip(start as int), what),
        decreases s.len() - start,
    {
        assert(s@.skip(start as int).drop_first() == s@.skip(start + 1));
        start += 1;
    }
    let ghost rest = s@.skip(start as int);
    assert(without_leading(s@, what) == rest);
    let mut end: usize = s.len();
    assert(rest == s@.subrange(start as int, end as int));
    while start < end && what.test(s[end - 1])
        invariant
            start <= end <= s.len(),
            without_trailing(rest, what) == without_trailing(
                s@.subrange(start as int, end as int),
                what,
            ),
        decreases end - start,
    {
        assert(s@.subrange(start as int, end as int).drop_last() == s@.subrange(
            start as int,
            end - 1,
        ));
        end -= 1;
    }
    slice_subrange(s, start, end)
}

/// Finds the first `c` in `s`.
pub fn find(s: &[char], c: char) -> (at: usize)
    ensures
        at == position(s@, c),
        at <= s.len(),
{
    let mut at: usize = 0;
    while at < s.len() && s[at] != c
        invariant
            at <= s.len(),
            forall|j: int| 0 <= j < at ==> s@[j] != c,
        decreases s.len() - at,
    {
        at += 1;
    }
    proof {
        lemma_position_is(s@, c, at as int);
    }
    at
}

/// Cuts `s` at every `sep`.
pub fn split(s: &[char], sep: char) -> (parts: Vec<&[char]>)
    ensures
        texts(parts@) == pieces(s@, sep),
{
    let mut parts: Vec<&[char]> = Vec::new();
    let mut rest: &[char] = s;
    loop
        invariant_except_break
            pieces(s@, sep) == texts(parts@) + pieces(rest@, sep),
        ensures
            texts(parts@) == pieces(s@, sep),
        decreases rest.len(),
    {
        let at = find(rest, sep);
        let ghost before = parts@;
        if at < rest.len() {
            let head = slice_subrange(rest, 0, at);
            let tail = slice_subrange(rest, at + 1, rest.len());
            parts.push(head);
            assert(head@ == rest@.take(at as int));
            assert(tail@ == rest@.skip(at + 1));
            assert(texts(parts@) == texts(before) + seq![head@]);
            rest = tail;
        } else {
            parts.push(rest);
            assert(texts(parts@) == texts(before) + seq![rest@]);
            break ;
        }
    }
    parts
}

/// The lowercase form of `c` where it is an ASCII capital, else `c`.
pub fn lower(c: char) -> (l: char)
    ensures
        l == ascii_lower(c),
{
    if 'A' <= c && c <= 'Z' {
        ((c as u8) + 32) as char
    } else {
        c
    }
}

/// The string of `s` with ASCII capitals in lowercase.
pub fn to_ascii_lowercase(s: &[char]) -> (lowered: String)
    ensures
        lowered@ == ascii_lowercase(s@),
{
    let mut lowered = String::new();
    let mut i: usize = 0;
    while i < s.len()
        invariant
            i <= s.len(),
            lowered@ == ascii_lowercase(s@.take(i as int)),
        decreases s.len() - i,
    {
        assert(s@.take(i + 1) == s@.take(i as int).push(s@[i as int]));
        lowered.push(lower(s[i]));
        assert(ascii_lowercase(s@.take(i + 1)) == ascii_lowercase(s@.take(i as int)).push(
            ascii_lower(s@[i as int]),
        ));
        i += 1;
    }
    assert(s@.take(i as int) == s@);
    lowered
}

/// Whether `a` and `b` differ at most in the case of ASCII letters.
pub fn eq_ignore_ascii_case(a: &[char], b: &[char]) -> (same: bool)
    ensures
        same == same_ignoring_ascii_case(a@, b@),
{
    if a.len() != b.len() {
        assert(ascii_lowercase(a@).len() != ascii_lowercase(b@).len());
        return false;
    }
    let mut i: usize = 0;
    while i < a.len()
        invariant
            i <= a.len(),
            a.len() == b.len(),
            forall|j: int| 0 <= j < i ==> ascii_lower(a@[j]) == ascii_lower(b@[j]),
        decreases a.len() - i,
    {
        if lower(a[i]) != lower(b[i]) {
            assert(ascii_lowercase(a@)[i as int] != ascii_lowercase(b@)[i as int]);
            return false;
        }
        i += 1;
    }
    assert(ascii_lowercase(a@) =~= ascii_lowercase(b@));
    true
}

} // verus!
