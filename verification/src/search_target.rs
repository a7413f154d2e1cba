//! The search-target / URN model: a closed set of discovery-target variants
//! with a canonical textual encoding and a strict parser, used both to build
//! the outgoing request and to interpret the `ST` header of each response.
//!
//! The parser and the encoder are exact inverses on every encodable value;
//! [`lemma_search_target_roundtrip`] and [`lemma_urn_roundtrip`] state and
//! prove that law.

use crate::error::ParseSearchTargetError;
use crate::error::ParseURNError;
use crate::text::dec_chars;
use crate::text::eq_ignore_case;
use crate::text::has_prefix;
use crate::text::has_prefix_str;
use crate::text::is_digit;
use crate::text::lemma_dec_chars_digits;
use crate::text::lemma_parse_of_dec_chars;
use crate::text::lemma_split_concat;
use crate::text::lemma_split_no_sep;
use crate::text::spec_parse_u32;
use crate::text::spec_split;
use crate::text::split_str;
use crate::text::str_eq;
use crate::text::u64_to_dec;
use crate::text::eq_ignore_case_str;
use crate::text::parse_u32_str;
use vstd::prelude::*;
use vstd::string::StrSliceExecFns;
use vstd::string::StringExecFns;

verus! {

/// Uniform Resource Name identifying a device or service type and version,
/// e.g. `urn:schemas-upnp-org:service:RenderingControl:1`.
#[derive(Debug, Clone, PartialEq, Eq, PartialOrd, Ord)]
pub enum URN {
    /// A device type: `urn:{domain}:device:{type}:{version}`.
    Device(String, String, u32),
    /// A service type: `urn:{domain}:service:{type}:{version}`.
    Service(String, String, u32),
}

/// Mathematical view of a [`URN`].
pub enum URNV {
    Device(Seq<char>, Seq<char>, u32),
    Service(Seq<char>, Seq<char>, u32),
}

impl View for URN {
    type V = URNV;

    open spec fn view(&self) -> URNV {
        match self {
            URN::Device(d, t, v) => URNV::Device(d@, t@, *v),
            URN::Service(d, t, v) => URNV::Service(d@, t@, *v),
        }
    }
}

/// What SSDP control points to search for.
#[derive(Debug, Clone, PartialEq, Eq)]
pub enum SearchTarget {
    /// Search for all devices and services: `ssdp:all`.
    All,
    /// Search for root devices only: `upnp:rootdevice`.
    RootDevice,
    /// Search for a particular device by its vendor-assigned UUID:
    /// `uuid:{id}`.
    UUID(String),
    /// Search for a device or service type: the URN's own encoding.
    URN(URN),
    /// An unrecognized two-segment target such as `roku:ecp`, preserved
    /// verbatim for forward compatibility.
    Custom(String, String),
}

/// Mathematical view of a [`SearchTarget`].
pub enum SearchTargetV {
    All,
    RootDevice,
    UUID(Seq<char>),
    URN(URNV),
    Custom(Seq<char>, Seq<char>),
}

impl View for SearchTarget {
    type V = SearchTargetV;

    open spec fn view(&self) -> SearchTargetV {
        match self {
            SearchTarget::All => SearchTargetV::All,
            SearchTarget::RootDevice => SearchTargetV::RootDevice,
            SearchTarget::UUID(id) => SearchTargetV::UUID(id@),
            SearchTarget::URN(u) => SearchTargetV::URN(u@),
            SearchTarget::Custom(k, v) => SearchTargetV::Custom(k@, v@),
        }
    }
}

// ---------------------------------------------------------------------------
// Spec-level grammar
// ---------------------------------------------------------------------------

/// Domain of a URN view.
pub open spec fn spec_urn_domain(u: URNV) -> Seq<char> {
    match u {
        URNV::Device(d, _, _) => d,
        URNV::Service(d, _, _) => d,
    }
}

/// Type token of a URN view.
pub open spec fn spec_urn_typ(u: URNV) -> Seq<char> {
    match u {
        URNV::Device(_, t, _) => t,
        URNV::Service(_, t, _) => t,
    }
}

/// Version of a URN view.
pub open spec fn spec_urn_version(u: URNV) -> u32 {
    match u {
        URNV::Device(_, _, v) => v,
        URNV::Service(_, _, v) => v,
    }
}

/// Canonical textual encoding of a URN.
pub open spec fn spec_urn_string(u: URNV) -> Seq<char> {
    match u {
        URNV::Device(d, t, v) => "urn:"@ + d + ":device:"@ + t + ":"@ + dec_chars(v as nat),
        URNV::Service(d, t, v) => "urn:"@ + d + ":service:"@ + t + ":"@ + dec_chars(v as nat),
    }
}

/// Canonical textual encoding of a search target.
pub open spec fn spec_st_string(st: SearchTargetV) -> Seq<char> {
    match st {
        SearchTargetV::All => "ssdp:all"@,
        SearchTargetV::RootDevice => "upnp:rootdevice"@,
        SearchTargetV::UUID(id) => "uuid:"@ + id,
        SearchTargetV::URN(u) => spec_urn_string(u),
        SearchTargetV::Custom(k, v) => k + ":"@ + v,
    }
}

/// The strict URN grammar: exactly five colon-delimited segments, the first
/// the literal `urn` (case-sensitive), the third `device` or `service`
/// (case-insensitive), the fifth a non-negative integer that fits in `u32`.
pub open spec fn spec_parse_urn(s: Seq<char>) -> Result<URNV, ParseURNError> {
    let segs = spec_split(s, seq![':']);
    if segs.len() == 5 && segs[0] == "urn"@ && spec_parse_u32(segs[4]) is Some {
        if eq_ignore_case(segs[2], "service"@) {
            Ok(URNV::Service(segs[1], segs[3], spec_parse_u32(segs[4]).unwrap()))
        } else if eq_ignore_case(segs[2], "device"@) {
            Ok(URNV::Device(segs[1], segs[3], spec_parse_u32(segs[4]).unwrap()))
        } else {
            Err(ParseURNError)
        }
    } else {
        Err(ParseURNError)
    }
}

/// The search-target grammar: the two fixed forms, then `uuid`-prefixed
/// targets (one `uuid:` prefix removed, the remainder kept verbatim), then
/// `urn`-prefixed targets delegated to the URN grammar, then any other target
/// of exactly two colon-delimited segments.
pub open spec fn spec_parse_st(s: Seq<char>) -> Result<SearchTargetV, ParseSearchTargetError> {
    if s == "ssdp:all"@ {
        Ok(SearchTargetV::All)
    } else if s == "upnp:rootdevice"@ {
        Ok(SearchTargetV::RootDevice)
    } else if has_prefix(s, "uuid"@) {
        Ok(
            SearchTargetV::UUID(
                if has_prefix(s, "uuid:"@) {
                    s.skip(5)
                } else {
                    s
                },
            ),
        )
    } else if has_prefix(s, "urn"@) {
        match spec_parse_urn(s) {
            Ok(u) => Ok(SearchTargetV::URN(u)),
            Err(e) => Err(ParseSearchTargetError::URN(e)),
        }
    } else {
        let segs = spec_split(s, seq![':']);
        if segs.len() == 2 {
            Ok(SearchTargetV::Custom(segs[0], segs[1]))
        } else {
            Err(ParseSearchTargetError::ST)
        }
    }
}

// ---------------------------------------------------------------------------
// Executable parser and encoder
// ---------------------------------------------------------------------------

impl URN {
    /// Creates a device URN from its components.
    pub fn device(domain: &str, typ: &str, version: u32) -> (r: URN)
        ensures
            r@ == URNV::Device(domain@, typ@, version),
    {
        URN::Device(String::from_str(domain), String::from_str(typ), version)
    }

    /// Creates a service URN from its components.
    pub fn service(domain: &str, typ: &str, version: u32) -> (r: URN)
        ensures
            r@ == URNV::Service(domain@, typ@, version),
    {
        URN::Service(String::from_str(domain), String::from_str(typ), version)
    }

    /// The `schemas-upnp-org` part of
    /// `urn:schemas-upnp-org:service:RenderingControl:1`.
    pub fn domain_name(&self) -> (r: &str)
        ensures
            r@ == spec_urn_domain(self@),
    {
        match self {
            URN::Device(d, _, _) => d.as_str(),
            URN::Service(d, _, _) => d.as_str(),
        }
    }

    /// The `RenderingControl` part of
    /// `urn:schemas-upnp-org:service:RenderingControl:1`.
    pub fn typ(&self) -> (r: &str)
        ensures
            r@ == spec_urn_typ(self@),
    {
        match self {
            URN::Device(_, t, _) => t.as_str(),
            URN::Service(_, t, _) => t.as_str(),
        }
    }

    /// The `1` part of `urn:schemas-upnp-org:service:RenderingControl:1`.
    pub fn version(&self) -> (r: u32)
        ensures
            r == spec_urn_version(self@),
    {
        match self {
            URN::Device(_, _, v) => *v,
            URN::Service(_, _, v) => *v,
        }
    }

    /// Canonical textual encoding of the URN.
    pub fn to_string(&self) -> (r: String)
        ensures
            r@ == spec_urn_string(self@),
    {
        match self {
            URN::Device(d, t, v) => {
                let mut r = String::from_str("urn:");
                r.append(d.as_str());
                r.append(":device:");
                r.append(t.as_str());
                r.append(":");
                let num = u64_to_dec(*v as u64);
                r.append(num.as_str());
                r
            },
            URN::Service(d, t, v) => {
                let mut r = String::from_str("urn:");
                r.append(d.as_str());
                r.append(":service:");
                r.append(t.as_str());
                r.append(":");
                let num = u64_to_dec(*v as u64);
                r.append(num.as_str());
                r
            },
        }
    }

    /// Parses the strict URN grammar; any violation yields the single
    /// [`ParseURNError`] value.
    pub fn parse(s: &str) -> (r: Result<URN, ParseURNError>)
        ensures
            match r {
                Ok(u) => spec_parse_urn(s@) == Ok::<URNV, ParseURNError>(u@),
                Err(e) => spec_parse_urn(s@) == Err::<URNV, ParseURNError>(e),
            },
    {
        proof {
            reveal_strlit(":");
            assert(":"@ =~= seq![':']);
        }
        let segs = split_str(s, ":");
        proof {
            assert(segs.deep_view() == spec_split(s@, seq![':']));
        }
        let ghost sv = spec_split(s@, seq![':']);
        if segs.len() != 5 {
            return Err(ParseURNError);
        }
        proof {
            assert(segs@[0]@ == sv[0]);
            assert(segs@[1]@ == sv[1]);
            assert(segs@[2]@ == sv[2]);
            assert(segs@[3]@ == sv[3]);
            assert(segs@[4]@ == sv[4]);
        }
        if !str_eq(segs[0].as_str(), "urn") {
            return Err(ParseURNError);
        }
        let version = match parse_u32_str(segs[4].as_str()) {
            Some(v) => v,
            None => {
                return Err(ParseURNError);
            },
        };
        if eq_ignore_case_str(segs[2].as_str(), "service") {
            Ok(URN::Service(segs[1].clone(), segs[3].clone(), version))
        } else if eq_ignore_case_str(segs[2].as_str(), "device") {
            Ok(URN::Device(segs[1].clone(), segs[3].clone(), version))
        } else {
            Err(ParseURNError)
        }
    }
}

impl SearchTarget {
    /// Canonical textual encoding of the search target.
    pub fn to_string(&self) -> (r: String)
        ensures
            r@ == spec_st_string(self@),
    {
        match self {
            SearchTarget::All => String::from_str("ssdp:all"),
            SearchTarget::RootDevice => String::from_str("upnp:rootdevice"),
            SearchTarget::UUID(id) => String::from_str("uuid:").concat(id.as_str()),
            SearchTarget::URN(u) => u.to_string(),
            SearchTarget::Custom(k, v) => {
                let mut r = String::from_str(k.as_str());
                r.append(":");
                r.append(v.as_str());
                r
            },
        }
    }

    /// Parses a search target; a target that begins like a URN delegates to
    /// the URN grammar, whose failure is wrapped, and anything else must have
    /// exactly two colon-delimited segments.
    pub fn parse(s: &str) -> (r: Result<SearchTarget, ParseSearchTargetError>)
        ensures
            match r {
                Ok(st) => spec_parse_st(s@) == Ok::<SearchTargetV, ParseSearchTargetError>(st@),
                Err(e) => spec_parse_st(s@) == Err::<SearchTargetV, ParseSearchTargetError>(e),
            },
    {
        if str_eq(s, "ssdp:all") {
            return Ok(SearchTarget::All);
        }
        if str_eq(s, "upnp:rootdevice") {
            return Ok(SearchTarget::RootDevice);
        }
        if has_prefix_str(s, "uuid") {
            let id = if has_prefix_str(s, "uuid:") {
                let n = s.unicode_len();
                proof {
                    reveal_strlit("uuid:");
                }
                let rest = s.substring_char(5, n);
                proof {
                    assert(rest@ =~= s@.skip(5));
                }
                rest
            } else {
                s
            };
            return Ok(SearchTarget::UUID(String::from_str(id)));
        }
        if has_prefix_str(s, "urn") {
            return match URN::parse(s) {
                Ok(u) => Ok(SearchTarget::URN(u)),
                Err(e) => Err(ParseSearchTargetError::URN(e)),
            };
        }
        proof {
            reveal_strlit(":");
            assert(":"@ =~= seq![':']);
        }
        let segs = split_str(s, ":");
        proof {
            assert(segs.deep_view() == spec_split(s@, seq![':']));
        }
        if segs.len() == 2 {
            proof {
                assert(segs@[0]@ == spec_split(s@, seq![':'])[0]);
                assert(segs@[1]@ == spec_split(s@, seq![':'])[1]);
            }
            Ok(SearchTarget::Custom(segs[0].clone(), segs[1].clone()))
        } else {
            Err(ParseSearchTargetError::ST)
        }
    }
}

impl From<URN> for SearchTarget {
    /// A URN is the search target for that device or service type.
    fn from(urn: URN) -> (r: SearchTarget) {
        SearchTarget::URN(urn)
    }
}

impl vstd::std_specs::convert::FromSpecImpl<URN> for SearchTarget {
    open spec fn obeys_from_spec() -> bool {
        true
    }

    open spec fn from_spec(urn: URN) -> SearchTarget {
        SearchTarget::URN(urn)
    }
}

// ---------------------------------------------------------------------------
// The round-trip law
// ---------------------------------------------------------------------------

/// No colon occurs in `s`.
pub open spec fn no_colon(s: Seq<char>) -> bool {
    forall|i: int| 0 <= i < s.len() ==> s[i] != ':'
}

/// URN values whose components respect the grammar: the domain and type
/// tokens are free of `:`, which the five-segment encoding cannot represent.
pub open spec fn urn_encodable(u: URNV) -> bool {
    no_colon(spec_urn_domain(u)) && no_colon(spec_urn_typ(u))
}

/// Search-target values whose canonical encoding parses back to the same
/// value: URN components free of `:`, and custom targets that are two
/// colon-free segments not colliding with one of the recognized forms.
pub open spec fn st_encodable(st: SearchTargetV) -> bool {
    match st {
        SearchTargetV::All => true,
        SearchTargetV::RootDevice => true,
        SearchTargetV::UUID(_) => true,
        SearchTargetV::URN(u) => urn_encodable(u),
        SearchTargetV::Custom(k, v) => no_colon(k) && no_colon(v) && (k + ":"@ + v)
            != "ssdp:all"@ && (k + ":"@ + v) != "upnp:rootdevice"@ && !has_prefix(k, "uuid"@)
            && !has_prefix(k, "urn"@),
    }
}

/// The round-trip law for URNs: parsing the canonical encoding of any
/// encodable URN yields that URN back.
pub proof fn lemma_urn_roundtrip(u: URNV)
    requires
        urn_encodable(u),
    ensures
        spec_parse_urn(spec_urn_string(u)) == Ok::<URNV, ParseURNError>(u),
{
    reveal_strlit("urn:");
    reveal_strlit(":device:");
    reveal_strlit(":service:");
    reveal_strlit(":");
    reveal_strlit("urn");
    reveal_strlit("device");
    reveal_strlit("service");
    let full = spec_urn_string(u);
    let d = spec_urn_domain(u);
    let t = spec_urn_typ(u);
    let v = spec_urn_version(u);
    let num = dec_chars(v as nat);
    let kind = if u is Service {
        "service"@
    } else {
        "device"@
    };
    lemma_dec_chars_digits(v as nat);
    assert(no_colon(num)) by {
        assert(forall|i: int|
            0 <= i < num.len() ==> is_digit(num[i]) && (':' as u32 == 58) && num[i] != ':');
    }
    assert(no_colon("urn"@));
    assert(no_colon("device"@));
    assert(no_colon("service"@));
    let tail3 = t + seq![':'] + num;
    let tail2 = kind + seq![':'] + tail3;
    let tail1 = d + seq![':'] + tail2;
    assert(full =~= "urn"@ + seq![':'] + tail1);
    lemma_split_no_sep(num, ':');
    lemma_split_concat(t, ':', num);
    lemma_split_concat(kind, ':', tail3);
    lemma_split_concat(d, ':', tail2);
    lemma_split_concat("urn"@, ':', tail1);
    let segs = spec_split(full, seq![':']);
    assert(segs =~= seq!["urn"@, d, kind, t, num]);
    lemma_parse_of_dec_chars(v as nat);
    assert(spec_parse_u32(segs[4]) == Some(v));
    assert(eq_ignore_case(kind, kind));
    assert("service"@.len() != "device"@.len());
    if u is Service {
        assert(spec_parse_urn(full) == Ok::<URNV, ParseURNError>(URNV::Service(d, t, v)));
    } else {
        assert(!eq_ignore_case(segs[2], "service"@));
        assert(spec_parse_urn(full) == Ok::<URNV, ParseURNError>(URNV::Device(d, t, v)));
    }
}

/// The round-trip law for search targets: parsing the canonical encoding of
/// any encodable search target yields that search target back.
pub proof fn lemma_search_target_roundtrip(st: SearchTargetV)
    requires
        st_encodable(st),
    ensures
        spec_parse_st(spec_st_string(st)) == Ok::<SearchTargetV, ParseSearchTargetError>(st),
{
    reveal_strlit("ssdp:all");
    reveal_strlit("upnp:rootdevice");
    reveal_strlit("uuid:");
    reveal_strlit("uuid");
    reveal_strlit("urn:");
    reveal_strlit("urn");
    reveal_strlit(":");
    match st {
        SearchTargetV::All => {
        },
        SearchTargetV::RootDevice => {
            assert("upnp:rootdevice"@ != "ssdp:all"@) by {
                assert("upnp:rootdevice"@[0] == 'u' && "ssdp:all"@[0] == 's');
            }
        },
        SearchTargetV::UUID(id) => {
            let full = "uuid:"@ + id;
            assert(full[0] == 'u' && full[1] == 'u' && full[2] == 'i' && full[3] == 'd' && full[4]
                == ':');
            assert(full != "ssdp:all"@) by {
                assert("ssdp:all"@[0] == 's');
            }
            assert(full != "upnp:rootdevice"@) by {
                assert("upnp:rootdevice"@[1] == 'p');
            }
            assert(has_prefix(full, "uuid"@)) by {
                assert(full.take(4) =~= "uuid"@);
            }
            assert(has_prefix(full, "uuid:"@)) by {
                assert(full.take(5) =~= "uuid:"@);
            }
            assert(full.skip(5) =~= id);
        },
        SearchTargetV::URN(u) => {
            lemma_urn_roundtrip(u);
            let full = spec_urn_string(u);
            assert(full[0] == 'u' && full[1] == 'r' && full[2] == 'n' && full[3] == ':') by {
                assert("urn:"@.len() == 4);
                assert(full[0] == "urn:"@[0] && full[1] == "urn:"@[1] && full[2] == "urn:"@[2]
                    && full[3] == "urn:"@[3]);
            }
            assert(full != "ssdp:all"@) by {
                assert("ssdp:all"@[0] == 's');
            }
            assert(full != "upnp:rootdevice"@) by {
                assert("upnp:rootdevice"@[1] == 'p');
            }
            assert(!has_prefix(full, "uuid"@)) by {
                if has_prefix(full, "uuid"@) {
                    assert(full.take(4)[1] == full[1]);
                    assert("uuid"@[1] == 'u');
                }
            }
            assert(has_prefix(full, "urn"@)) by {
                assert(full.take(3) =~= "urn"@);
            }
        },
        SearchTargetV::Custom(k, v) => {
            let full = k + ":"@ + v;
            assert(full =~= k + seq![':'] + v);
            assert(full[k.len() as int] == ':');
            assert(!has_prefix(full, "uuid"@)) by {
                if has_prefix(full, "uuid"@) {
                    if k.len() >= 4 {
                        assert(k.take(4) =~= full.take(4));
                        assert(has_prefix(k, "uuid"@));
                    } else {
                        assert(full.take(4)[k.len() as int] == full[k.len() as int]);
                        assert("uuid"@[0] == 'u' && "uuid"@[1] == 'u' && "uuid"@[2] == 'i'
                            && "uuid"@[3] == 'd');
                    }
                }
            }
            assert(!has_prefix(full, "urn"@)) by {
                if has_prefix(full, "urn"@) {
                    if k.len() >= 3 {
                        assert(k.take(3) =~= full.take(3));
                        assert(has_prefix(k, "urn"@));
                    } else {
                        assert(full.take(3)[k.len() as int] == full[k.len() as int]);
                        assert("urn"@[0] == 'u' && "urn"@[1] == 'r' && "urn"@[2] == 'n');
                    }
                }
            }
            lemma_split_no_sep(v, ':');
            lemma_split_concat(k, ':', v);
            let segs = spec_split(full, seq![':']);
            assert(segs =~= seq![k, v]);
            assert(spec_parse_st(full) == Ok::<SearchTargetV, ParseSearchTargetError>(
                SearchTargetV::Custom(k, v),
            ));
        },
    }
}

} // verus!
