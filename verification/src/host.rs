//! Hosts named by the `Host` and `X-Forwarded-Host` headers.

use vstd::prelude::*;
use crate::error::Error;
use crate::text::{byte_texts, string_texts, text_of, texts};
use crate::text::{pieces, split, string_of, strip, unquoted, Trim};

verus! {

/// A byte that may stand in header text: printable ASCII, a space or a tab.
pub open spec fn is_visible_ascii(b: u8) -> bool {
    32 <= b < 127 || b == 9
}

/// Whether every byte of `value` may stand in header text.
pub open spec fn is_header_text(value: Seq<u8>) -> bool {
    forall|i: int| 0 <= i < value.len() ==> is_visible_ascii(#[trigger] value[i])
}

/// The characters of a value of ASCII bytes.
pub open spec fn header_text(value: Seq<u8>) -> Seq<char> {
    value.map_values(|b: u8| b as char)
}

/// The hosts that one header value lists: its parts between commas, each
/// trimmed and without quotes.
pub open spec fn hosts_in(text: Seq<char>) -> Seq<Seq<char>> {
    cleaned(pieces(text, ','))
}

/// The parts, each trimmed and without quotes.
pub open spec fn cleaned(parts: Seq<Seq<char>>) -> Seq<Seq<char>> {
    parts.map_values(|part: Seq<char>| unquoted(part))
}

/// For each header value, the hosts that it lists.
pub open spec fn listings(values: Seq<Seq<u8>>) -> Seq<Seq<Seq<char>>> {
    values.map_values(|value: Seq<u8>| hosts_in(header_text(value)))
}

/// The hosts that the header values list, in order; `InvalidHost` where a
/// value is not header text.
pub open spec fn host_values(values: Seq<Seq<u8>>) -> Result<Seq<Seq<char>>, Error> {
    if forall|i: int| 0 <= i < values.len() ==> is_header_text(#[trigger] values[i]) {
        Ok(listings(values).flatten())
    } else {
        Err(Error::InvalidHost)
    }
}

/// The one host among those found: none where none was found, the first where
/// several are tolerated, `MultipleHostHeader` where they are not.
pub open spec fn select(found: Seq<Seq<char>>, reject_multiple: bool) -> Result<
    Option<Seq<char>>,
    Error,
> {
    if found.len() == 0 {
        Ok(None)
    } else if reject_multiple && found.len() > 1 {
        Err(Error::MultipleHostHeader)
    } else {
        Ok(Some(found[0]))
    }
}

/// The candidate that the values of a host header give.
pub open spec fn host_candidate(values: Seq<Seq<u8>>, reject_multiple: bool) -> Result<
    Option<Seq<char>>,
    Error,
> {
    match host_values(values) {
        Err(error) => Err(error),
        Ok(found) => select(found, reject_multiple),
    }
}

/// The host that the `Host` header values name, which has to be there.
pub open spec fn host_header(values: Seq<Seq<u8>>, reject_multiple: bool) -> Result<
    Seq<char>,
    Error,
> {
    match host_candidate(values, reject_multiple) {
        Err(error) => Err(error),
        Ok(None) => Err(Error::MissingHost),
        Ok(Some(host)) => Ok(host),
    }
}

/// Every header value lists at least one host, so there are at least as many
/// hosts as values.
pub proof fn lemma_host_values_len(values: Seq<Seq<u8>>)
    requires
        host_values(values) is Ok,
    ensures
        host_values(values)->Ok_0.len() >= values.len(),
    decreases values.len(),
{
    let listed = listings(values);
    assert forall|i: int| 0 <= i < listed.len() implies (#[trigger] listed[i]).len() >= 1 by {
        lemma_pieces_len(header_text(values[i]), ',');
    }
    lemma_flatten_len(listed);
}

/// A flattened sequence of non-empty sequences is at least as long as the
/// sequence itself.
pub proof fn lemma_flatten_len(lists: Seq<Seq<Seq<char>>>)
    requires
        forall|i: int| 0 <= i < lists.len() ==> (#[trigger] lists[i]).len() >= 1,
    ensures
        lists.flatten().len() >= lists.len(),
    decreases lists.len(),
{
    if lists.len() > 0 {
        lemma_flatten_len(lists.drop_first());
    }
}

/// Splitting gives at least one part.
pub proof fn lemma_pieces_len(s: Seq<char>, sep: char)
    ensures
        pieces(s, sep).len() >= 1,
    decreases s.len(),
{
    let i = crate::text::position(s, sep);
    if 0 <= i < s.len() {
        lemma_pieces_len(s.skip(i + 1), sep);
    }
}

/// A text that holds the separator splits into at least two parts.
pub proof fn lemma_pieces_of_separated(s: Seq<char>, sep: char)
    requires
        s.contains(sep),
    ensures
        pieces(s, sep).len() >= 2,
{
    crate::text::lemma_position(s, sep);
    let i = crate::text::position(s, sep);
    let at = choose|k: int| 0 <= k < s.len() && s[k] == sep;
    assert(i < s.len()) by {
        if i >= s.len() {
            assert(s[at] != sep);
        }
    }
    lemma_pieces_len(s.skip(i + 1), sep);
}

/// Where several hosts are not tolerated, header values that are text and
/// name more than one host, be it in two header lines or in one line with a
/// comma, are refused with `MultipleHostHeader`, alike or not.
pub proof fn lemma_multiple_hosts_rejected(values: Seq<Seq<u8>>)
    requires
        forall|i: int| 0 <= i < values.len() ==> is_header_text(#[trigger] values[i]),
        values.len() >= 2 || (values.len() == 1 && header_text(values[0]).contains(',')),
    ensures
        host_candidate(values, true) == Err::<Option<Seq<char>>, Error>(Error::MultipleHostHeader),
        host_header(values, true) == Err::<Seq<char>, Error>(Error::MultipleHostHeader),
{
    if values.len() >= 2 {
        lemma_host_values_len(values);
    } else {
        let listed = listings(values);
        lemma_pieces_of_separated(header_text(values[0]), ',');
        listed.lemma_flatten_one_element();
        assert(listed.first() == hosts_in(header_text(values[0])));
    }
}

/// Without header values there is no host, and no error.
pub proof fn lemma_no_values_no_host(reject_multiple: bool)
    ensures
        host_candidate(Seq::<Seq<u8>>::empty(), reject_multiple) == Ok::<Option<Seq<char>>, Error>(
            None,
        ),
{
    assert(listings(Seq::<Seq<u8>>::empty()) == Seq::<Seq<Seq<char>>>::empty());
}

/// The characters of a header value, if it is header text.
fn header_chars(value: &[u8]) -> (chars: Option<Vec<char>>)
    ensures
        chars is Some <==> is_header_text(value@),
        chars matches Some(c) ==> c@ == header_text(value@),
{
    let mut chars: Vec<char> = Vec::new();
    let mut i: usize = 0;
    while i < value.len()
        invariant
            i <= value.len(),
            chars@ == header_text(value@.take(i as int)),
            is_header_text(value@.take(i as int)),
        decreases value.len() - i,
    {
        let b = value[i];
        if !((32 <= b && b < 127) || b == 9) {
            return None;
        }
        assert(value@.take(i + 1) == value@.take(i as int).push(b));
        chars.push(b as char);
        i += 1;
    }
    assert(value@.take(i as int) == value@);
    Some(chars)
}

/// Collects the hosts that the header values list.
pub fn collect_hosts(values: &[&[u8]]) -> (result: Result<Vec<String>, Error>)
    ensures
        match host_values(byte_texts(values@)) {
            Ok(found) => result matches Ok(hosts) && string_texts(hosts@) == found,
            Err(error) => result == Err::<Vec<String>, Error>(error),
        },
{
    let ghost all = byte_texts(values@);
    let mut hosts: Vec<String> = Vec::new();
    let mut i: usize = 0;
    assert(listings(all.take(0)) == Seq::<Seq<Seq<char>>>::empty());
    while i < values.len()
        invariant
            i <= values.len(),
            all == byte_texts(values@),
            forall|k: int| 0 <= k < i ==> is_header_text(#[trigger] all[k]),
            string_texts(hosts@) == listings(all.take(i as int)).flatten(),
        decreases values.len() - i,
    {
        assert(all[i as int] == values@[i as int]@);
        let chars = match header_chars(values[i]) {
            Some(chars) => chars,
            None => {
                return Err(Error::InvalidHost);
            },
        };
        let parts = split(chars.as_slice(), ',');
        let ghost before = string_texts(hosts@);
        let ghost listed = pieces(chars@, ',');
        let mut j: usize = 0;
        assert(cleaned(listed.take(0)) == Seq::<Seq<char>>::empty());
        while j < parts.len()
            invariant
                j <= parts.len(),
                texts(parts@) == listed,
                string_texts(hosts@) == before + cleaned(listed.take(j as int)),
            decreases parts.len() - j,
        {
            let ghost so_far = string_texts(hosts@);
            assert(listed[j as int] == parts@[j as int]@);
            let host = string_of(strip(strip(parts[j], Trim::WhiteSpace), Trim::Quotes));
            hosts.push(host);
            assert(string_texts(hosts@) == so_far.push(host@));
            assert(listed.take(j + 1) == listed.take(j as int).push(listed[j as int]));
            assert(cleaned(listed.take(j + 1)) == cleaned(listed.take(j as int)).push(host@));
            j += 1;
        }
        proof {
            assert(listed.take(j as int) == listed);
            assert(cleaned(listed) == hosts_in(header_text(all[i as int])));
            assert(all.take(i + 1) == all.take(i as int).push(all[i as int]));
            let lists = listings(all.take(i as int));
            assert(listings(all.take(i + 1)) == lists.push(hosts_in(header_text(all[i as int]))));
            Seq::lemma_flatten_push(lists, hosts_in(header_text(all[i as int])));
        }
        i += 1;
    }
    assert(all.take(i as int) == all);
    Ok(hosts)
}

/// Picks the one host among those found.
pub fn pick(mut found: Vec<String>, reject_multiple: bool) -> (result: Result<
    Option<String>,
    Error,
>)
    ensures
        match select(string_texts(found@), reject_multiple) {
            Ok(host) => result matches Ok(h) && text_of(h) == host,
            Err(error) => result == Err::<Option<String>, Error>(error),
        },
{
    if found.len() == 0 {
        Ok(None)
    } else if reject_multiple && found.len() > 1 {
        Err(Error::MultipleHostHeader)
    } else {
        let ghost first = found@[0];
        let host = found.swap_remove(0);
        assert(host == first);
        Ok(Some(host))
    }
}

/// Takes the host that the `Host` header values name: the only one, or the
/// first where several are tolerated.
pub fn extract_from_host(values: &[&[u8]], reject_multiple: bool) -> (result: Result<String, Error>)
    ensures
        match host_header(byte_texts(values@), reject_multiple) {
            Ok(host) => result matches Ok(h) && h@ == host,
            Err(error) => result == Err::<String, Error>(error),
        },
{
    match extract_listed(values, reject_multiple) {
        Ok(Some(host)) => Ok(host),
        Ok(None) => Err(Error::MissingHost),
        Err(error) => Err(error),
    }
}

/// Takes the host that the values of a host header name, if they name one.
pub fn extract_listed(values: &[&[u8]], reject_multiple: bool) -> (result: Result<
    Option<String>,
    Error,
>)
    ensures
        match host_candidate(byte_texts(values@), reject_multiple) {
            Ok(host) => result matches Ok(h) && text_of(h) == host,
            Err(error) => result == Err::<Option<String>, Error>(error),
        },
{
    match collect_hosts(values) {
        Ok(found) => pick(found, reject_multiple),
        Err(error) => Err(error),
    }
}

} // verus!
