//! What counts as an authority (`host` or `host:port`), and its normal form.

use vstd::prelude::*;
use crate::error::Error;
use crate::text::{ascii_lower, ascii_lowercase, chars_of, find, lower, position};
use crate::text::{lemma_ascii_lower, lemma_ascii_lowercase_twice, lemma_position};

verus! {

/// `0` to `9`.
pub open spec fn is_digit(c: char) -> bool {
    '0' <= c <= '9'
}

/// A digit, or a letter from `a` to `f` in either case.
pub open spec fn is_hex_digit(c: char) -> bool {
    is_digit(c) || 'a' <= c <= 'f' || 'A' <= c <= 'F'
}

/// An ASCII letter or digit, or one of `-._~`.
pub open spec fn is_unreserved(c: char) -> bool {
    'a' <= c <= 'z' || 'A' <= c <= 'Z' || is_digit(c) || c == '-' || c == '.' || c == '_' || c
        == '~'
}

/// One of `!$&'()*+,;=`.
pub open spec fn is_sub_delim(c: char) -> bool {
    c == '!' || c == '$' || c == '&' || c == '\'' || c == '(' || c == ')' || c == '*' || c == '+'
        || c == ',' || c == ';' || c == '='
}

/// Whether the character at `i` may stand in a registered name: an unreserved
/// character, a sub-delimiter, or a `%` that two hexadecimal digits follow.
pub open spec fn is_name_char(s: Seq<char>, i: int) -> bool {
    is_unreserved(s[i]) || is_sub_delim(s[i]) || (s[i] == '%' && i + 2 < s.len() && is_hex_digit(
        s[i + 1],
    ) && is_hex_digit(s[i + 2]))
}

/// A registered name or an IPv4 address: not empty, of name characters only.
pub open spec fn is_reg_name(s: Seq<char>) -> bool {
    s.len() > 0 && forall|i: int| 0 <= i < s.len() ==> is_name_char(s, i)
}

/// What may stand between the brackets of an IP literal.
pub open spec fn is_literal_char(c: char) -> bool {
    is_hex_digit(c) || c == ':' || c == '.'
}

/// A bracketed IP literal: `[`, at least one of hexadecimal digits, `:` and
/// `.`, then `]`.
pub open spec fn is_ip_literal(s: Seq<char>) -> bool {
    &&& s.len() >= 3
    &&& s[0] == '['
    &&& s[s.len() - 1] == ']'
    &&& forall|i: int| 0 < i < s.len() - 1 ==> is_literal_char(s[i])
}

/// A host: a registered name or a bracketed IP literal.
pub open spec fn is_host(s: Seq<char>) -> bool {
    is_reg_name(s) || is_ip_literal(s)
}

/// A port: digits, or nothing.
pub open spec fn is_port(s: Seq<char>) -> bool {
    forall|i: int| 0 <= i < s.len() ==> is_digit(s[i])
}

/// Whether `s` splits after `k` characters into a host and, if anything is
/// left, a colon and a port.
pub open spec fn splits_at(s: Seq<char>, k: int) -> bool {
    &&& 0 < k <= s.len()
    &&& is_host(s.take(k))
    &&& k < s.len() ==> s[k] == ':' && is_port(s.skip(k + 1))
}

/// Whether `s` is an authority: a host, or a host, a colon and a port. Such a
/// text holds no scheme, user information, path, query or fragment.
pub open spec fn is_authority(s: Seq<char>) -> bool {
    exists|k: int| splits_at(s, k)
}

/// `A` to `Z`.
pub open spec fn is_capital(c: char) -> bool {
    'A' <= c <= 'Z'
}

/// Whether `s` holds no ASCII capital letter.
pub open spec fn is_lowercase(s: Seq<char>) -> bool {
    forall|i: int| 0 <= i < s.len() ==> !is_capital(#[trigger] s[i])
}

/// The normal form of a candidate: the candidate in lowercase if it is an
/// authority, `InvalidHost` if it is not.
pub open spec fn normalized(candidate: Seq<char>) -> Result<Seq<char>, Error> {
    if is_authority(candidate) {
        Ok(ascii_lowercase(candidate))
    } else {
        Err(Error::InvalidHost)
    }
}

/// The only place at which `s` can split into host and port: behind the first
/// `]` where `s` starts with `[`, else before the first `:`.
pub open spec fn host_end(s: Seq<char>) -> int {
    if s.len() > 0 && s[0] == '[' {
        position(s, ']') + 1
    } else {
        position(s, ':')
    }
}

/// A text splits into host and port nowhere but at `host_end`.
pub proof fn lemma_splits_at_host_end(s: Seq<char>, k: int)
    requires
        splits_at(s, k),
    ensures
        k == host_end(s),
{
    let host = s.take(k);
    if s[0] == '[' {
        assert(host[0] == '[');
        assert(!is_name_char(host, 0));
        assert(is_ip_literal(host));
        lemma_position(s, ']');
        let p = position(s, ']');
        assert(s[k - 1] == host[k - 1]);
        if p < k - 1 {
            assert(host[p] == s[p]);
            assert(is_literal_char(host[p]));
        }
    } else {
        assert(host[0] == s[0]);
        assert(is_reg_name(host));
        lemma_position(s, ':');
        let p = position(s, ':');
        if p < k {
            assert(host[p] == s[p]);
            assert(is_name_char(host, p));
        }
    }
}

/// An authority holds none of the characters that would start or separate
/// another part of a URI, and no white space.
pub proof fn lemma_authority_is_bare(s: Seq<char>, i: int)
    requires
        is_authority(s),
        0 <= i < s.len(),
    ensures
        s[i] != '@',
        s[i] != '/',
        s[i] != '?',
        s[i] != '#',
        s[i] != ' ',
        s.len() > 0,
{
    let k = choose|k: int| splits_at(s, k);
    let host = s.take(k);
    if i < k {
        assert(host[i] == s[i]);
        if is_reg_name(host) {
            assert(is_name_char(host, i));
        } else {
            if 0 < i < k - 1 {
                assert(is_literal_char(host[i]));
            }
        }
    } else if i > k {
        assert(s.skip(k + 1)[i - k - 1] == s[i]);
    }
}

/// Lowercasing keeps an authority an authority.
pub proof fn lemma_lowercase_keeps_authority(s: Seq<char>)
    requires
        is_authority(s),
    ensures
        is_authority(ascii_lowercase(s)),
{
    let k = choose|k: int| splits_at(s, k);
    let low = ascii_lowercase(s);
    let host = s.take(k);
    let low_host = low.take(k);
    assert forall|i: int| 0 <= i < s.len() implies low[i] == ascii_lower(s[i]) by {}
    assert forall|c: char|
        (is_digit(c) ==> ascii_lower(c) == c) && (is_hex_digit(c) ==> is_hex_digit(ascii_lower(c)))
            && (is_unreserved(c) ==> is_unreserved(ascii_lower(c))) && (is_sub_delim(c)
            ==> ascii_lower(c) == c) && (is_literal_char(c) ==> is_literal_char(ascii_lower(c)))
            && (c == '%' || c == '[' || c == ']' || c == ':' ==> #[trigger] ascii_lower(c)
            == c) by {
        lemma_ascii_lower(c);
    }
    if is_reg_name(host) {
        assert forall|i: int| 0 <= i < low_host.len() implies is_name_char(low_host, i) by {
            assert(is_name_char(host, i));
            assert(low_host[i] == ascii_lower(host[i]));
            if host[i] == '%' && i + 2 < host.len() {
                assert(low_host[i + 1] == ascii_lower(host[i + 1]));
                assert(low_host[i + 2] == ascii_lower(host[i + 2]));
            }
        }
        assert(is_reg_name(low_host));
    } else {
        assert(low_host[0] == ascii_lower(host[0]));
        assert(low_host[k - 1] == ascii_lower(host[k - 1]));
        assert forall|i: int| 0 < i < low_host.len() - 1 implies is_literal_char(low_host[i]) by {
            assert(is_literal_char(host[i]));
            assert(low_host[i] == ascii_lower(host[i]));
        }
        assert(is_ip_literal(low_host));
    }
    if k < s.len() {
        assert(low[k] == ascii_lower(s[k]));
        let port = s.skip(k + 1);
        let low_port = low.skip(k + 1);
        assert forall|i: int| 0 <= i < low_port.len() implies is_digit(#[trigger] low_port[i]) by {
            assert(is_digit(port[i]));
            assert(low_port[i] == ascii_lower(port[i]));
        }
    }
    assert(splits_at(low, k));
}

/// Normalizing an authority that is in lowercase already changes nothing.
pub proof fn lemma_normalized_fixed(authority: Seq<char>)
    requires
        is_authority(authority),
        is_lowercase(authority),
    ensures
        normalized(authority) == Ok::<Seq<char>, Error>(authority),
{
    assert(ascii_lowercase(authority) =~= authority);
}

/// What normalizing gives is an authority in lowercase, and normalizing it
/// again gives the same.
pub proof fn lemma_normalized_idempotent(candidate: Seq<char>)
    requires
        normalized(candidate) is Ok,
    ensures
        is_authority(normalized(candidate)->Ok_0),
        is_lowercase(normalized(candidate)->Ok_0),
        normalized(normalized(candidate)->Ok_0) == normalized(candidate),
{
    lemma_lowercase_keeps_authority(candidate);
    lemma_ascii_lowercase_twice(candidate);
    let low = ascii_lowercase(candidate);
    assert forall|i: int| 0 <= i < low.len() implies !is_capital(#[trigger] low[i]) by {
        lemma_ascii_lower(candidate[i]);
    }
}

fn digit(c: char) -> (b: bool)
    ensures
        b == is_digit(c),
{
    '0' <= c && c <= '9'
}

fn hex_digit(c: char) -> (b: bool)
    ensures
        b == is_hex_digit(c),
{
    digit(c) || ('a' <= c && c <= 'f') || ('A' <= c && c <= 'F')
}

fn unreserved(c: char) -> (b: bool)
    ensures
        b == is_unreserved(c),
{
    ('a' <= c && c <= 'z') || ('A' <= c && c <= 'Z') || digit(c) || c == '-' || c == '.' || c
        == '_' || c == '~'
}

fn sub_delim(c: char) -> (b: bool)
    ensures
        b == is_sub_delim(c),
{
    c == '!' || c == '$' || c == '&' || c == '\'' || c == '(' || c == ')' || c == '*' || c == '+'
        || c == ',' || c == ';' || c == '='
}

/// Whether the first `end` characters of `s` are a registered name.
fn reg_name(s: &[char], end: usize) -> (b: bool)
    requires
        end <= s.len(),
    ensures
        b == is_reg_name(s@.take(end as int)),
{
    let ghost host = s@.take(end as int);
    if end == 0 {
        return false;
    }
    let mut i: usize = 0;
    while i < end
        invariant
            i <= end <= s.len(),
            host == s@.take(end as int),
            forall|j: int| 0 <= j < i ==> is_name_char(host, j),
        decreases end - i,
    {
        let c = s[i];
        assert(host[i as int] == c);
        let escaped = c == '%' && end - i > 2 && hex_digit(s[i + 1]) && hex_digit(s[i + 2]);
        proof {
            if end - i > 2 {
                assert(host[i + 1] == s@[i + 1]);
                assert(host[i + 2] == s@[i + 2]);
            }
        }
        if !(unreserved(c) || sub_delim(c) || escaped) {
            assert(!is_name_char(host, i as int));
            return false;
        }
        i += 1;
    }
    true
}

/// Whether the first `end` characters of `s` are a bracketed IP literal.
fn ip_literal(s: &[char], end: usize) -> (b: bool)
    requires
        end <= s.len(),
    ensures
        b == is_ip_literal(s@.take(end as int)),
{
    let ghost host = s@.take(end as int);
    if end < 3 || s[0] != '[' || s[end - 1] != ']' {
        proof {
            if end >= 3 {
                assert(host[0] == s@[0]);
                assert(host[end - 1] == s@[end - 1]);
            }
        }
        return false;
    }
    assert(host[0] == s@[0]);
    assert(host[end - 1] == s@[end - 1]);
    let mut i: usize = 1;
    while i < end - 1
        invariant
            1 <= i <= end - 1,
            end <= s.len(),
            host == s@.take(end as int),
            forall|j: int| 0 < j < i ==> is_literal_char(host[j]),
        decreases end - i,
    {
        let c = s[i];
        assert(host[i as int] == c);
        if !(hex_digit(c) || c == ':' || c == '.') {
            return false;
        }
        i += 1;
    }
    true
}

/// Whether what follows index `from` in `s` is a port.
fn port(s: &[char], from: usize) -> (b: bool)
    requires
        from <= s.len(),
    ensures
        b == is_port(s@.skip(from as int)),
{
    let ghost rest = s@.skip(from as int);
    let mut i: usize = from;
    while i < s.len()
        invariant
            from <= i <= s.len(),
            rest == s@.skip(from as int),
            forall|j: int| 0 <= j < i - from ==> is_digit(rest[j]),
        decreases s.len() - i,
    {
        assert(rest[i - from] == s@[i as int]);
        if !digit(s[i]) {
            return false;
        }
        i += 1;
    }
    true
}

/// Tells whether `s` is an authority.
pub fn is_valid_authority(s: &[char]) -> (valid: bool)
    ensures
        valid == is_authority(s@),
{
    if s.len() == 0 {
        return false;
    }
    let bracketed = s[0] == '[';
    let close = if bracketed {
        find(s, ']')
    } else {
        find(s, ':')
    };
    proof {
        assert forall|k: int| splits_at(s@, k) implies k == host_end(s@) by {
            lemma_splits_at_host_end(s@, k);
        }
    }
    if bracketed && close == s.len() {
        return false;
    }
    let end = if bracketed {
        close + 1
    } else {
        close
    };
    assert(end == host_end(s@));
    let host_ok = if bracketed {
        ip_literal(s, end)
    } else {
        reg_name(s, end)
    };
    proof {
        let host = s@.take(end as int);
        if bracketed {
            assert(end > 0 ==> host[0] == s@[0]);
            assert(!is_reg_name(host)) by {
                if host.len() > 0 {
                    assert(!is_name_char(host, 0));
                }
            }
        } else {
            assert(!is_ip_literal(host)) by {
                if host.len() > 0 {
                    assert(host[0] == s@[0]);
                }
            }
        }
    }
    if !host_ok {
        return false;
    }
    if end == s.len() {
        assert(splits_at(s@, end as int));
        return true;
    }
    if s[end] != ':' {
        return false;
    }
    let port_ok = port(s, end + 1);
    proof {
        if port_ok {
            assert(splits_at(s@, end as int));
        }
    }
    port_ok
}

/// Checks that `candidate` is an authority and puts it in lowercase.
pub fn normalize(candidate: &str) -> (result: Result<String, Error>)
    ensures
        match normalized(candidate@) {
            Ok(authority) => result matches Ok(host) && host@ == authority,
            Err(error) => result == Err::<String, Error>(error),
        },
{
    let chars = chars_of(candidate);
    if is_valid_authority(chars.as_slice()) {
        Ok(crate::text::to_ascii_lowercase(chars.as_slice()))
    } else {
        Err(Error::InvalidHost)
    }
}

} // verus!
