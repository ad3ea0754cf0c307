//! The `Forwarded` header: its entries, their parameters, and the hosts that
//! trusted entries name.

use vstd::prelude::*;
use crate::error::Error;
use crate::matcher::KeyValueMatcher;
use crate::params::ForwardedParams;
use crate::host::{pick, select};
use crate::text::{byte_texts, string_texts, text_of, texts};
use crate::text::{chars_of, find, split, str_eq, string_of, strip, to_lowercase, utf8_text};
use crate::text::{pieces, position, trimmed, unicode_lowercase, unquoted, Trim};

verus! {

/// The name of the parameter that carries the host.
pub open spec fn host_name() -> Seq<char> {
    "host"@
}

/// The name and the value that a `name=value` item stands for: the name
/// trimmed and in lowercase, the value trimmed and without quotes. `None`
/// where the item holds no `=`.
pub open spec fn pair_of(item: Seq<char>) -> Option<(Seq<char>, Seq<char>)> {
    let at = position(item, '=');
    if 0 <= at < item.len() {
        Some((unicode_lowercase(trimmed(item.take(at))), unquoted(item.skip(at + 1))))
    } else {
        None
    }
}

/// What a run of items adds to the host and the parameters read so far: a
/// blank item adds nothing, a later item replaces an earlier one of the same
/// name, and an item without `=` spoils the entry (`None`).
pub open spec fn record(
    items: Seq<Seq<char>>,
    host: Option<Seq<char>>,
    params: Map<Seq<char>, Seq<char>>,
) -> Option<(Option<Seq<char>>, Map<Seq<char>, Seq<char>>)>
    decreases items.len(),
{
    if items.len() == 0 {
        Some((host, params))
    } else {
        let item = trimmed(items[0]);
        if item.len() == 0 {
            record(items.drop_first(), host, params)
        } else {
            match pair_of(item) {
                None => None,
                Some((name, value)) => record(
                    items.drop_first(),
                    if name == host_name() {
                        Some(value)
                    } else {
                        host
                    },
                    params.insert(name, value),
                ),
            }
        }
    }
}

/// The host and the parameters of one entry, whose items `;` separates, or
/// `None` where the entry is malformed.
pub open spec fn parsed_entry(entry: Seq<char>) -> Option<
    (Option<Seq<char>>, Map<Seq<char>, Seq<char>>),
> {
    record(pieces(entry, ';'), None, Map::empty())
}

/// Whether an entry with the parameters `params` is believed: by the judgement
/// of the trust matcher where there is one; else only as long as no host has
/// been taken yet.
pub open spec fn accepts<F: KeyValueMatcher>(
    trust: Option<F>,
    params: Map<Seq<char>, Seq<char>>,
    found: Seq<Seq<char>>,
) -> bool {
    match trust {
        Some(matcher) => matcher.matches_pairs(params),
        None => found.len() == 0,
    }
}

/// The hosts found so far, extended by those of the believed entries among
/// `entries`; the first malformed entry fails the whole.
pub open spec fn scan_entries<F: KeyValueMatcher>(
    entries: Seq<Seq<char>>,
    trust: Option<F>,
    found: Seq<Seq<char>>,
) -> Result<Seq<Seq<char>>, Error>
    decreases entries.len(),
{
    if entries.len() == 0 {
        Ok(found)
    } else {
        match parsed_entry(entries[0]) {
            None => Err(Error::InvalidForwardedHeader),
            Some((host, params)) => scan_entries(
                entries.drop_first(),
                trust,
                if host is Some && accepts(trust, params, found) {
                    found.push(host->Some_0)
                } else {
                    found
                },
            ),
        }
    }
}

/// The hosts found so far, extended by those of the header values `values`,
/// each of which is UTF-8 text whose entries `,` separates.
pub open spec fn scan_values<F: KeyValueMatcher>(
    values: Seq<Seq<u8>>,
    trust: Option<F>,
    found: Seq<Seq<char>>,
) -> Result<Seq<Seq<char>>, Error>
    decreases values.len(),
{
    if values.len() == 0 {
        Ok(found)
    } else if !vstd::utf8::valid_utf8(values[0]) {
        Err(Error::InvalidForwardedHeader)
    } else {
        match scan_entries(pieces(vstd::utf8::decode_utf8(values[0]), ','), trust, found) {
            Err(error) => Err(error),
            Ok(more) => scan_values(values.drop_first(), trust, more),
        }
    }
}

/// The hosts that the `Forwarded` header values name in believed entries, in
/// the order of the entries.
pub open spec fn forwarded_hosts<F: KeyValueMatcher>(
    values: Seq<Seq<u8>>,
    trust: Option<F>,
) -> Result<Seq<Seq<char>>, Error> {
    scan_values(values, trust, Seq::empty())
}

/// The candidate that the `Forwarded` header values give.
pub open spec fn forwarded_candidate<F: KeyValueMatcher>(
    values: Seq<Seq<u8>>,
    trust: Option<F>,
    reject_multiple: bool,
) -> Result<Option<Seq<char>>, Error> {
    match forwarded_hosts(values, trust) {
        Err(error) => Err(error),
        Ok(found) => select(found, reject_multiple),
    }
}

/// Reads the items of one entry.
fn parse_entry(entry: &[char]) -> (result: Option<(Option<String>, ForwardedParams)>)
    ensures
        match parsed_entry(entry@) {
            Some((host, params)) => result matches Some((h, p)) && text_of(h) == host && p@
                == params,
            None => result is None,
        },
{
    let items = split(entry, ';');
    let ghost all = pieces(entry@, ';');
    let mut host: Option<String> = None;
    let mut params = ForwardedParams::new();
    let mut i: usize = 0;
    assert(all.skip(0) == all);
    while i < items.len()
        invariant
            i <= items.len(),
            texts(items@) == all,
            parsed_entry(entry@) == record(all.skip(i as int), text_of(host), params@),
        decreases items.len() - i,
    {
        let ghost rest = all.skip(i as int);
        assert(rest[0] == items@[i as int]@);
        assert(rest.drop_first() == all.skip(i + 1));
        let item = strip(items[i], Trim::WhiteSpace);
        if item.len() > 0 {
            let at = find(item, '=');
            if at == item.len() {
                return None;
            }
            let name_part = strip(vstd::slice::slice_subrange(item, 0, at), Trim::WhiteSpace);
            let value_part = strip(
                strip(vstd::slice::slice_subrange(item, at + 1, item.len()), Trim::WhiteSpace),
                Trim::Quotes,
            );
            assert(item@.subrange(0, at as int) == item@.take(at as int));
            assert(item@.subrange(at + 1, item@.len() as int) == item@.skip(at + 1));
            let name = to_lowercase(string_of(name_part).as_str());
            let value = string_of(value_part);
            if str_eq(name.as_str(), "host") {
                host = Some(value.clone());
            }
            params.insert(name, value);
        }
        i += 1;
    }
    Some((host, params))
}

/// Reads one entry of a `Forwarded` header: its `host` parameter, if it has
/// one, and all of its parameters.
pub fn parse_forwarded_entry(entry: &str) -> (result: Result<
    (Option<String>, ForwardedParams),
    Error,
>)
    ensures
        match parsed_entry(entry@) {
            Some((host, params)) => result matches Ok((h, p)) && text_of(h) == host && p@
                == params,
            None => result matches Err(Error::InvalidForwardedHeader),
        },
{
    let chars = chars_of(entry);
    match parse_entry(chars.as_slice()) {
        Some(parsed) => Ok(parsed),
        None => Err(Error::InvalidForwardedHeader),
    }
}

/// Whether `trust` believes an entry with the parameters `params`, `taken`
/// hosts having been taken before it.
fn believes<F: KeyValueMatcher>(
    trust: &Option<F>,
    params: &ForwardedParams,
    taken: usize,
) -> (believed: bool)
    ensures
        forall|found: Seq<Seq<char>>|
            found.len() == taken ==> believed == #[trigger] accepts(*trust, params@, found),
{
    match trust {
        Some(matcher) => matcher.matches_key_value(params),
        None => taken == 0,
    }
}

/// Collects the hosts of the believed entries of all `Forwarded` header
/// values, in order.
pub fn collect_forwarded<F: KeyValueMatcher>(
    values: &[&[u8]],
    trust: &Option<F>,
) -> (result: Result<Vec<String>, Error>)
    ensures
        match forwarded_hosts(byte_texts(values@), *trust) {
            Ok(found) => result matches Ok(hosts) && string_texts(hosts@) == found,
            Err(error) => result == Err::<Vec<String>, Error>(error),
        },
{
    let ghost all = byte_texts(values@);
    let mut hosts: Vec<String> = Vec::new();
    let mut i: usize = 0;
    assert(all.skip(0) == all);
    assert(string_texts(hosts@) == Seq::<Seq<char>>::empty());
    while i < values.len()
        invariant
            i <= values.len(),
            all == byte_texts(values@),
            forwarded_hosts(all, *trust) == scan_values(
                all.skip(i as int),
                *trust,
                string_texts(hosts@),
            ),
        decreases values.len() - i,
    {
        let ghost rest = all.skip(i as int);
        assert(rest[0] == values@[i as int]@);
        assert(rest.drop_first() == all.skip(i + 1));
        let text = match utf8_text(values[i]) {
            Some(text) => text,
            None => {
                return Err(Error::InvalidForwardedHeader);
            },
        };
        proof {
            vstd::utf8::encode_utf8_decode_utf8(text@);
        }
        let chars = chars_of(text);
        let entries = split(chars.as_slice(), ',');
        let ghost listed = pieces(chars@, ',');
        let ghost after = all.skip(i + 1);
        let mut j: usize = 0;
        assert(listed.skip(0) == listed);
        assert(listed == pieces(vstd::utf8::decode_utf8(rest[0]), ','));
        while j < entries.len()
            invariant
                j <= entries.len(),
                i < values.len(),
                all == byte_texts(values@),
                after == all.skip(i + 1),
                texts(entries@) == listed,
                forwarded_hosts(all, *trust) == (match scan_entries(
                    listed.skip(j as int),
                    *trust,
                    string_texts(hosts@),
                ) {
                    Err(error) => Err(error),
                    Ok(more) => scan_values(after, *trust, more),
                }),
            decreases entries.len() - j,
        {
            let ghost left = listed.skip(j as int);
            assert(left[0] == entries@[j as int]@);
            assert(left.drop_first() == listed.skip(j + 1));
            match parse_entry(entries[j]) {
                None => {
                    return Err(Error::InvalidForwardedHeader);
                },
                Some((host, params)) => {
                    if let Some(host) = host {
                        if believes(trust, &params, hosts.len()) {
                            let ghost taken = string_texts(hosts@);
                            assert(accepts(*trust, params@, taken));
                            hosts.push(host);
                            assert(string_texts(hosts@) == taken.push(host@));
                        } else {
                            assert(!accepts(*trust, params@, string_texts(hosts@)));
                        }
                    }
                },
            }
            j += 1;
        }
        i += 1;
    }
    Ok(hosts)
}

/// Takes the host that the `Forwarded` header values give: that of the first
/// believed entry that has one, or none.
pub fn extract_from_forwarded<F: KeyValueMatcher>(
    values: &[&[u8]],
    trust: &Option<F>,
    reject_multiple: bool,
) -> (result: Result<Option<String>, Error>)
    ensures
        match forwarded_candidate(byte_texts(values@), *trust, reject_multiple) {
            Ok(host) => result matches Ok(h) && text_of(h) == host,
            Err(error) => result == Err::<Option<String>, Error>(error),
        },
{
    match collect_forwarded(values, trust) {
        Ok(found) => pick(found, reject_multiple),
        Err(error) => Err(error),
    }
}

} // verus!
