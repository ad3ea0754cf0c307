//! What the engine reads of a request: its protocol version, its target
//! authority and its headers, as plain values.

use vstd::prelude::*;
use crate::text::{byte_texts, chars_of, eq_ignore_ascii_case, same_ignoring_ascii_case};

verus! {

/// The protocol version that was negotiated for a request.
#[derive(Clone, Copy, Debug, PartialEq, Eq, Structural)]
pub enum HttpVersion {
    /// HTTP/0.9
    Http09,
    /// HTTP/1.0
    Http10,
    /// HTTP/1.1
    Http11,
    /// HTTP/2
    Http2,
    /// HTTP/3
    Http3,
    /// A version that this library does not know.
    Other,
}

/// One header line: a name, and the bytes of its value.
pub struct Header {
    /// The name; its case does not matter.
    pub name: String,
    /// The value as it was received.
    pub value: Vec<u8>,
}

/// The part of a request that decides which host it is for.
pub struct RequestHead {
    /// The negotiated protocol version.
    pub version: HttpVersion,
    /// The authority of the request target (`:authority` in HTTP/2 and
    /// HTTP/3), if the target has one.
    pub authority: Option<String>,
    /// The header lines in the order in which they were received. A name may
    /// occur several times.
    pub headers: Vec<Header>,
}

/// A request as the contracts see it.
pub struct RequestView {
    /// The negotiated protocol version.
    pub version: HttpVersion,
    /// The authority of the request target.
    pub authority: Option<Seq<char>>,
    /// The header lines: names and values, in order.
    pub headers: Seq<(Seq<char>, Seq<u8>)>,
}

/// The header lines as pairs of name and value.
pub open spec fn lines(headers: Seq<Header>) -> Seq<(Seq<char>, Seq<u8>)> {
    headers.map_values(|h: Header| (h.name@, h.value@))
}

/// The values of the lines of `headers` whose name is `name` up to the case of
/// ASCII letters, in order.
pub open spec fn values_named(headers: Seq<(Seq<char>, Seq<u8>)>, name: Seq<char>) -> Seq<Seq<u8>> {
    headers.filter(|line: (Seq<char>, Seq<u8>)| same_ignoring_ascii_case(line.0, name)).map_values(
        |line: (Seq<char>, Seq<u8>)| line.1,
    )
}

impl View for RequestHead {
    type V = RequestView;

    open spec fn view(&self) -> RequestView {
        RequestView {
            version: self.version,
            authority: match self.authority {
                Some(authority) => Some(authority@),
                None => None,
            },
            headers: lines(self.headers@),
        }
    }
}

impl RequestHead {
    /// A request without headers.
    pub fn new(version: HttpVersion, authority: Option<String>) -> (head: Self)
        ensures
            head.version == version,
            head.authority == authority,
            head.headers@.len() == 0,
    {
        RequestHead { version, authority, headers: Vec::new() }
    }

    /// Adds a header line after those that are there.
    pub fn push_header(&mut self, name: String, value: Vec<u8>)
        ensures
            final(self).version == old(self).version,
            final(self).authority == old(self).authority,
            final(self)@.headers == old(self)@.headers.push((name@, value@)),
    {
        let ghost before = self.headers@;
        self.headers.push(Header { name, value });
        assert(lines(self.headers@) == lines(before).push((name@, value@)));
    }

    /// All values of the header `name`, whatever the case of its letters, in
    /// the order of the header lines.
    pub fn values(&self, name: &str) -> (values: Vec<&[u8]>)
        ensures
            byte_texts(values@) == values_named(self@.headers, name@),
    {
        let wanted = chars_of(name);
        let ghost all = lines(self.headers@);
        let ghost same = |line: (Seq<char>, Seq<u8>)| same_ignoring_ascii_case(line.0, name@);
        let ghost value_of = |line: (Seq<char>, Seq<u8>)| line.1;
        let mut values: Vec<&[u8]> = Vec::new();
        let mut i: usize = 0;
        assert(all.take(0).filter(same) == Seq::<(Seq<char>, Seq<u8>)>::empty());
        while i < self.headers.len()
            invariant
                i <= self.headers.len(),
                wanted@ == name@,
                all == lines(self.headers@),
                same == |line: (Seq<char>, Seq<u8>)| same_ignoring_ascii_case(line.0, name@),
                value_of == |line: (Seq<char>, Seq<u8>)| line.1,
                byte_texts(values@) == all.take(i as int).filter(same).map_values(value_of),
            decreases self.headers.len() - i,
        {
            let header = &self.headers[i];
            let here = chars_of(header.name.as_str());
            let ghost before = values@;
            proof {
                assert(all.take(i + 1) == all.take(i as int).push(all[i as int]));
                Seq::lemma_filter_push(all.take(i as int), all[i as int], same);
            }
            if eq_ignore_ascii_case(here.as_slice(), wanted.as_slice()) {
                values.push(header.value.as_slice());
                assert(byte_texts(values@) == byte_texts(before).push(header.value@));
                assert(all.take(i + 1).filter(same).map_values(value_of) == all.take(
                    i as int,
                ).filter(same).map_values(value_of).push(header.value@));
            }
            i += 1;
        }
        assert(all.take(i as int) == all);
        values
    }
}

} // verus!
