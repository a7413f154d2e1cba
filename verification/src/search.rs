//! The discovery engine's logic: assembling a [`SearchResponse`] from one
//! received datagram, formatting the outgoing M-SEARCH request, and deciding
//! what the response stream does after each receive attempt.
//!
//! The engine itself owns no socket. The caller binds a UDP socket, sends
//! [`format_search_request`] to the SSDP multicast group, and then races each
//! receive against its overall timeout, feeding every outcome as a
//! [`RecvEvent`] into [`stream_step`]: the returned [`StreamStep`] says
//! whether to emit an item, skip, or complete the stream. Timeout expiry is
//! normal termination, not an error, and no single bad datagram ever ends the
//! stream.

use crate::error::Error;
use crate::error::ErrorV;
use crate::header::parse_headers;
use crate::header::spec_parse_headers;
use crate::search_target::spec_parse_st;
use crate::search_target::spec_st_string;
use crate::search_target::SearchTarget;
use crate::search_target::SearchTargetV;
use crate::text::dec_chars;
use crate::text::eq_ignore_case;
use crate::text::eq_ignore_case_str;
use crate::text::u64_to_dec;
use vstd::prelude::*;
use vstd::string::StringExecFns;
use vstd::utf8::decode_utf8;
use vstd::utf8::valid_utf8;

verus! {

/// Size in bytes of the receive buffer for one datagram. A datagram that
/// fills it completely may have been truncated by the kernel and is skipped.
pub const SSDP_BUFFER_LEN: usize = 2048;

/// Response given by an SSDP control point: an immutable record assembled
/// from the headers of one inbound datagram.
#[derive(Debug)]
pub struct SearchResponse {
    location: String,
    st: SearchTarget,
    usn: String,
    server: String,
    extra_headers: Vec<(String, String)>,
}

/// Mathematical view of a [`SearchResponse`].
pub struct SearchResponseV {
    pub location: Seq<char>,
    pub search_target: SearchTargetV,
    pub usn: Seq<char>,
    pub server: Seq<char>,
    pub extra_headers: Seq<(Seq<char>, Seq<char>)>,
}

impl View for SearchResponse {
    type V = SearchResponseV;

    closed spec fn view(&self) -> SearchResponseV {
        SearchResponseV {
            location: self.location@,
            search_target: self.st@,
            usn: self.usn@,
            server: self.server@,
            extra_headers: self.extra_headers.deep_view(),
        }
    }
}

/// The view of a decoded item: the response's view on success, the error's
/// view on failure.
pub open spec fn item_view(r: Result<SearchResponse, Error>) -> Result<SearchResponseV, ErrorV> {
    match r {
        Ok(resp) => Ok(resp@),
        Err(e) => Err(e@),
    }
}

// ---------------------------------------------------------------------------
// Selecting headers
// ---------------------------------------------------------------------------

/// The value of the last pair whose name equals `key` up to ASCII case, if
/// any: a later occurrence of a header overwrites an earlier one.
pub open spec fn spec_last_match(pairs: Seq<(Seq<char>, Seq<char>)>, key: Seq<char>) -> Option<
    Seq<char>,
>
    decreases pairs.len(),
{
    if pairs.len() == 0 {
        None
    } else if eq_ignore_case(pairs.last().0, key) {
        Some(pairs.last().1)
    } else {
        spec_last_match(pairs.drop_last(), key)
    }
}

/// Whether `name` is one of the four headers stored in the record itself.
pub open spec fn known_header(name: Seq<char>) -> bool {
    eq_ignore_case(name, "location"@) || eq_ignore_case(name, "st"@) || eq_ignore_case(
        name,
        "usn"@,
    ) || eq_ignore_case(name, "server"@)
}

/// The pairs whose names are not among the four known headers, in arrival
/// order.
pub open spec fn spec_extra_pairs(pairs: Seq<(Seq<char>, Seq<char>)>) -> Seq<
    (Seq<char>, Seq<char>),
>
    decreases pairs.len(),
{
    if pairs.len() == 0 {
        Seq::<(Seq<char>, Seq<char>)>::empty()
    } else {
        spec_extra_pairs(pairs.drop_last()) + (if known_header(pairs.last().0) {
            Seq::<(Seq<char>, Seq<char>)>::empty()
        } else {
            seq![pairs.last()]
        })
    }
}

/// What decoding the text of one datagram yields: the record of its headers,
/// or the first error in the fixed order of checks — the header parse, then
/// `LOCATION`, then `ST` presence, then `ST` parse, then `USN`, then
/// `SERVER`.
pub open spec fn spec_decode_response(s: Seq<char>) -> Result<SearchResponseV, ErrorV> {
    match spec_parse_headers(s) {
        Err(e) => Err(e),
        Ok(pairs) => {
            let loc = spec_last_match(pairs, "location"@);
            let st_text = spec_last_match(pairs, "st"@);
            let usn = spec_last_match(pairs, "usn"@);
            let server = spec_last_match(pairs, "server"@);
            if loc is None {
                Err(ErrorV::MissingHeader("location"@))
            } else if st_text is None {
                Err(ErrorV::MissingHeader("st"@))
            } else {
                match spec_parse_st(st_text.unwrap()) {
                    Err(e) => Err(ErrorV::ParseSearchTargetError(e)),
                    Ok(stv) => if usn is None {
                        Err(ErrorV::MissingHeader("urn"@))
                    } else if server is None {
                        Err(ErrorV::MissingHeader("server"@))
                    } else {
                        Ok(
                            SearchResponseV {
                                location: loc.unwrap(),
                                search_target: stv,
                                usn: usn.unwrap(),
                                server: server.unwrap(),
                                extra_headers: spec_extra_pairs(pairs),
                            },
                        )
                    },
                }
            }
        },
    }
}

/// What decoding the bytes of one datagram yields: UTF-8 decoding first, a
/// failure of which is the item-level `Utf8` error.
pub open spec fn spec_decode_datagram(b: Seq<u8>) -> Result<SearchResponseV, ErrorV> {
    if valid_utf8(b) {
        spec_decode_response(decode_utf8(b))
    } else {
        Err(ErrorV::Utf8)
    }
}

/// View of an optionally-selected header value.
pub open spec fn opt_view(o: Option<String>) -> Option<Seq<char>> {
    match o {
        None => None,
        Some(s) => Some(s@),
    }
}

// ---------------------------------------------------------------------------
// The response record
// ---------------------------------------------------------------------------

impl SearchResponse {
    /// URL of the control point's description document.
    pub fn location(&self) -> (r: &str)
        ensures
            r@ == self@.location,
    {
        self.location.as_str()
    }

    /// Search target returned by the control point.
    pub fn search_target(&self) -> (r: &SearchTarget)
        ensures
            r@ == self@.search_target,
    {
        &self.st
    }

    /// Unique Service Name of the responder.
    pub fn usn(&self) -> (r: &str)
        ensures
            r@ == self@.usn,
    {
        self.usn.as_str()
    }

    /// Server (user-agent) string of the responder.
    pub fn server(&self) -> (r: &str)
        ensures
            r@ == self@.server,
    {
        self.server.as_str()
    }

    /// Any other header of the response, looked up by name without regard to
    /// ASCII case; the last occurrence wins.
    pub fn extra_header(&self, key: &str) -> (r: Option<&str>)
        ensures
            match r {
                Some(v) => spec_last_match(self@.extra_headers, key@) == Some(v@),
                None => spec_last_match(self@.extra_headers, key@) is None,
            },
    {
        let ghost pv = self@.extra_headers;
        let mut i: usize = self.extra_headers.len();
        proof {
            assert(pv.take(i as int) =~= pv);
        }
        while i > 0
            invariant
                i <= self.extra_headers.len(),
                pv == self@.extra_headers,
                self.extra_headers.deep_view() == pv,
                spec_last_match(pv, key@) == spec_last_match(pv.take(i as int), key@),
            decreases i,
        {
            proof {
                assert(pv[i - 1] == (self.extra_headers@[i - 1].0@, self.extra_headers@[i - 1].1@));
                assert(pv.take(i as int).last() == pv[i - 1]);
                assert(pv.take(i as int).drop_last() =~= pv.take(i - 1));
            }
            if eq_ignore_case_str(self.extra_headers[i - 1].0.as_str(), key) {
                return Some(self.extra_headers[i - 1].1.as_str());
            }
            i -= 1;
        }
        proof {
            assert(pv.take(0) =~= Seq::<(Seq<char>, Seq<char>)>::empty());
        }
        None
    }
}

// ---------------------------------------------------------------------------
// Decoding one datagram
// ---------------------------------------------------------------------------

/// Decodes the text of one datagram into a response record: parse the
/// headers, take the last occurrence of each required header, parse the `ST`
/// value, and keep every unrecognized header.
pub fn decode_response(text: &str) -> (r: Result<SearchResponse, Error>)
    ensures
        item_view(r) == spec_decode_response(text@),
{
    let pairs = match parse_headers(text) {
        Ok(p) => p,
        Err(e) => {
            return Err(e);
        },
    };
    let ghost pv = pairs.deep_view();
    let mut location: Option<String> = None;
    let mut st_text: Option<String> = None;
    let mut usn: Option<String> = None;
    let mut server: Option<String> = None;
    let mut extra: Vec<(String, String)> = Vec::new();
    let mut i: usize = 0;
    proof {
        assert(pv.take(0) =~= Seq::<(Seq<char>, Seq<char>)>::empty());
        assert(extra.deep_view() =~= Seq::<(Seq<char>, Seq<char>)>::empty());
    }
    while i < pairs.len()
        invariant
            i <= pairs.len(),
            pairs.deep_view() == pv,
            opt_view(location) == spec_last_match(pv.take(i as int), "location"@),
            opt_view(st_text) == spec_last_match(pv.take(i as int), "st"@),
            opt_view(usn) == spec_last_match(pv.take(i as int), "usn"@),
            opt_view(server) == spec_last_match(pv.take(i as int), "server"@),
            extra.deep_view() == spec_extra_pairs(pv.take(i as int)),
        decreases pairs.len() - i,
    {
        let ghost p = pv[i as int];
        let ghost oextra = extra.deep_view();
        proof {
            reveal_strlit("location");
            reveal_strlit("st");
            reveal_strlit("usn");
            reveal_strlit("server");
            assert(p == (pairs@[i as int].0@, pairs@[i as int].1@));
            assert(pv.take(i + 1).last() == p);
            assert(pv.take(i + 1).drop_last() =~= pv.take(i as int));
        }
        if eq_ignore_case_str(pairs[i].0.as_str(), "location") {
            location = Some(pairs[i].1.clone());
        } else if eq_ignore_case_str(pairs[i].0.as_str(), "st") {
            st_text = Some(pairs[i].1.clone());
        } else if eq_ignore_case_str(pairs[i].0.as_str(), "usn") {
            usn = Some(pairs[i].1.clone());
        } else if eq_ignore_case_str(pairs[i].0.as_str(), "server") {
            server = Some(pairs[i].1.clone());
        } else {
            extra.push((pairs[i].0.clone(), pairs[i].1.clone()));
            proof {
                assert(extra.deep_view() =~= oextra + seq![p]);
            }
        }
        proof {
            assert(known_header(p.0) ==> extra.deep_view() == oextra + Seq::<
                (Seq<char>, Seq<char>),
            >::empty());
            assert(oextra + Seq::<(Seq<char>, Seq<char>)>::empty() =~= oextra);
        }
        i += 1;
    }
    proof {
        assert(pv.take(pairs.deep_view().len() as int) =~= pv);
    }
    let location = match location {
        Some(l) => l,
        None => {
            return Err(Error::MissingHeader(String::from_str("location")));
        },
    };
    let st_text = match st_text {
        Some(s) => s,
        None => {
            return Err(Error::MissingHeader(String::from_str("st")));
        },
    };
    let st = match SearchTarget::parse(st_text.as_str()) {
        Ok(st) => st,
        Err(e) => {
            return Err(Error::ParseSearchTargetError(e));
        },
    };
    let usn = match usn {
        Some(u) => u,
        None => {
            return Err(Error::MissingHeader(String::from_str("urn")));
        },
    };
    let server = match server {
        Some(s) => s,
        None => {
            return Err(Error::MissingHeader(String::from_str("server")));
        },
    };
    Ok(SearchResponse { location, st, usn, server, extra_headers: extra })
}

/// Relies on `core::str::from_utf8`: it succeeds exactly on valid UTF-8
/// input, and on success returns the string slice of exactly those bytes.
#[verifier::external_body]
fn utf8_str(bytes: &[u8]) -> (r: Option<&str>)
    ensures
        r is Some <==> valid_utf8(bytes@),
        r matches Some(s) ==> s@ == decode_utf8(bytes@),
{
    core::str::from_utf8(bytes).ok()
}

/// Decodes the bytes of one datagram: UTF-8 first, then the header and
/// search-target grammars; every failure is the item-level error of the
/// taxonomy.
pub fn decode_datagram(buf: &[u8]) -> (r: Result<SearchResponse, Error>)
    ensures
        item_view(r) == spec_decode_datagram(buf@),
{
    match utf8_str(buf) {
        Some(text) => decode_response(text),
        None => Err(Error::Utf8),
    }
}

// ---------------------------------------------------------------------------
// The outgoing request and the stream's decisions
// ---------------------------------------------------------------------------

/// The exact M-SEARCH message for a search target and response-delay window.
pub open spec fn spec_search_request(st: SearchTargetV, mx: nat) -> Seq<char> {
    "M-SEARCH * HTTP/1.1\r\nHost:239.255.255.250:1900\r\nMan:\"ssdp:discover\"\r\nST: "@
        + spec_st_string(st) + "\r\nMX: "@ + dec_chars(mx) + "\r\n\r\n"@
}

/// Formats the multicast M-SEARCH request sent once at the start of a
/// search: the fixed template with the encoded search target and the `MX`
/// response-delay window in seconds.
pub fn format_search_request(search_target: &SearchTarget, mx: usize) -> (r: String)
    ensures
        r@ == spec_search_request(search_target@, mx as nat),
{
    let mut r = String::from_str(
        "M-SEARCH * HTTP/1.1\r\nHost:239.255.255.250:1900\r\nMan:\"ssdp:discover\"\r\nST: ",
    );
    let st = search_target.to_string();
    r.append(st.as_str());
    r.append("\r\nMX: ");
    let num = u64_to_dec(mx as u64);
    r.append(num.as_str());
    r.append("\r\n\r\n");
    r
}

/// One receive attempt's outcome, as the caller's socket loop reports it.
#[derive(Debug)]
pub enum RecvEvent {
    /// A datagram arrived; carries exactly the bytes received.
    Datagram(Vec<u8>),
    /// The receive itself failed; carries the reported failure text.
    Failure(String),
    /// The caller's overall timeout elapsed with no further datagram.
    TimedOut,
}

/// What the response stream does after one receive attempt.
#[derive(Debug)]
pub enum StreamStep {
    /// Emit this item to the caller, then keep listening.
    Emit(Result<SearchResponse, Error>),
    /// Emit nothing, but keep listening.
    Skip,
    /// The stream is complete: emit nothing further and release the socket.
    Complete,
}

/// Decides the response stream's reaction to one receive attempt. Timeout
/// expiry is normal completion, never an error. A receive failure and every
/// malformed datagram are emitted as one item each and never terminate the
/// stream. A datagram that fills the whole receive buffer may have been
/// truncated and is skipped.
pub fn stream_step(event: RecvEvent) -> (r: StreamStep)
    ensures
        match event {
            RecvEvent::TimedOut => r is Complete,
            RecvEvent::Datagram(b) => if b@.len() == SSDP_BUFFER_LEN {
                r is Skip
            } else {
                r matches StreamStep::Emit(item) && item_view(item) == spec_decode_datagram(b@)
            },
            RecvEvent::Failure(m) => r matches StreamStep::Emit(item) && item_view(item) == Err::<
                SearchResponseV,
                ErrorV,
            >(ErrorV::IO(m@)),
        },
{
    match event {
        RecvEvent::TimedOut => StreamStep::Complete,
        RecvEvent::Datagram(b) => {
            if b.len() == SSDP_BUFFER_LEN {
                StreamStep::Skip
            } else {
                StreamStep::Emit(decode_datagram(b.as_slice()))
            }
        },
        RecvEvent::Failure(m) => StreamStep::Emit(Err(Error::IO(m))),
    }
}

} // verus!
