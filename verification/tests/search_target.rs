//! Tests of the search-target / URN grammar: parsing, encoding, and the
//! round-trip between them.

use ssdp_client::{ParseSearchTargetError, ParseURNError, SearchTarget, URN};

#[test]
fn parse_search_target() {
    assert_eq!(SearchTarget::parse("ssdp:all"), Ok(SearchTarget::All));
    assert_eq!(SearchTarget::parse("upnp:rootdevice"), Ok(SearchTarget::RootDevice));

    assert_eq!(
        SearchTarget::parse("uuid:some-uuid"),
        Ok(SearchTarget::UUID("some-uuid".to_string()))
    );

    assert_eq!(
        SearchTarget::parse("urn:schemas-upnp-org:device:ZonePlayer:1"),
        Ok(SearchTarget::URN(URN::Device(
            "schemas-upnp-org".to_string(),
            "ZonePlayer".to_string(),
            1
        )))
    );
    assert_eq!(
        SearchTarget::parse("urn:schemas-sonos-com:service:Queue:2"),
        Ok(SearchTarget::URN(URN::Service(
            "schemas-sonos-com".to_string(),
            "Queue".to_string(),
            2
        )))
    );
}

#[test]
fn search_target_parse_search_target() {
    assert_eq!(SearchTarget::parse("ssdp:all"), Ok(SearchTarget::All));
    assert_eq!(SearchTarget::parse("upnp:rootdevice"), Ok(SearchTarget::RootDevice));

    assert_eq!(
        SearchTarget::parse("uuid:some-uuid"),
        Ok(SearchTarget::UUID("some-uuid".to_string()))
    );

    assert_eq!(
        SearchTarget::parse("urn:schemas-upnp-org:device:ZonePlayer:1"),
        Ok(SearchTarget::URN(URN::Device(
            "schemas-upnp-org".to_string(),
            "ZonePlayer".to_string(),
            1
        )))
    );
    assert_eq!(
        SearchTarget::parse("urn:schemas-sonos-com:service:Queue:2"),
        Ok(SearchTarget::URN(URN::Service(
            "schemas-sonos-com".to_string(),
            "Queue".to_string(),
            2
        )))
    );
    assert_eq!(
        SearchTarget::parse("roku:ecp"),
        Ok(SearchTarget::Custom("roku".to_string(), "ecp".to_string()))
    );
}

#[test]
fn urn_grammar() {
    assert_eq!(
        URN::parse("urn:schemas-upnp-org:device:ZonePlayer:1"),
        Ok(URN::Device(
            "schemas-upnp-org".to_string(),
            "ZonePlayer".to_string(),
            1
        ))
    );
    assert_eq!(
        URN::parse("urn:schemas-sonos-com:service:Queue:2"),
        Ok(URN::Service(
            "schemas-sonos-com".to_string(),
            "Queue".to_string(),
            2
        ))
    );
    // Too few segments.
    assert_eq!(URN::parse("urn:a:b:c"), Err(ParseURNError));
    // Too many segments.
    assert_eq!(URN::parse("urn:a:device:b:1:extra"), Err(ParseURNError));
}

#[test]
fn urn_grammar_details() {
    // The kind is matched without regard to ASCII case.
    assert_eq!(
        URN::parse("urn:a:DEVICE:b:10"),
        Ok(URN::Device("a".to_string(), "b".to_string(), 10))
    );
    assert_eq!(
        URN::parse("urn:a:Service:b:0"),
        Ok(URN::Service("a".to_string(), "b".to_string(), 0))
    );
    // The first segment is matched case-sensitively.
    assert_eq!(URN::parse("URN:a:device:b:1"), Err(ParseURNError));
    // The version accepts a leading plus sign, as Rust's u32 parser does.
    assert_eq!(
        URN::parse("urn:a:device:b:+7"),
        Ok(URN::Device("a".to_string(), "b".to_string(), 7))
    );
    // An empty or non-numeric version fails.
    assert_eq!(URN::parse("urn:a:device:b:"), Err(ParseURNError));
    assert_eq!(URN::parse("urn:a:device:b:x1"), Err(ParseURNError));
    // A version beyond u32 fails.
    assert_eq!(URN::parse("urn:a:device:b:4294967296"), Err(ParseURNError));
    // The largest representable version parses.
    assert_eq!(
        URN::parse("urn:a:device:b:4294967295"),
        Ok(URN::Device("a".to_string(), "b".to_string(), 4294967295))
    );
    // An unknown kind fails.
    assert_eq!(URN::parse("urn:a:gadget:b:1"), Err(ParseURNError));
}

#[test]
fn search_target_parse_failures() {
    // A target that begins like a URN delegates to the URN grammar, and its
    // failure is wrapped.
    assert_eq!(
        SearchTarget::parse("urn:a:b:c"),
        Err(ParseSearchTargetError::URN(ParseURNError))
    );
    assert_eq!(
        SearchTarget::parse("urnx:y"),
        Err(ParseSearchTargetError::URN(ParseURNError))
    );
    // Anything else must be exactly two colon-delimited segments.
    assert_eq!(SearchTarget::parse("a:b:c"), Err(ParseSearchTargetError::ST));
    assert_eq!(SearchTarget::parse("abc"), Err(ParseSearchTargetError::ST));
    assert_eq!(SearchTarget::parse(""), Err(ParseSearchTargetError::ST));
}

#[test]
fn uuid_edge_cases() {
    // The remainder after `uuid:` is kept verbatim, even when empty.
    assert_eq!(
        SearchTarget::parse("uuid:"),
        Ok(SearchTarget::UUID("".to_string()))
    );
    assert_eq!(
        SearchTarget::parse("uuid:uuid:abc"),
        Ok(SearchTarget::UUID("uuid:abc".to_string()))
    );
    // A target that merely begins with `uuid` without the colon keeps the
    // whole text.
    assert_eq!(
        SearchTarget::parse("uuidfoo"),
        Ok(SearchTarget::UUID("uuidfoo".to_string()))
    );
}

#[test]
fn encode_exact() {
    assert_eq!(
        URN::device("schemas-upnp-org", "ZonePlayer", 1).to_string(),
        "urn:schemas-upnp-org:device:ZonePlayer:1"
    );
    assert_eq!(
        URN::service("schemas-sonos-com", "Queue", 2).to_string(),
        "urn:schemas-sonos-com:service:Queue:2"
    );
    assert_eq!(SearchTarget::All.to_string(), "ssdp:all");
    assert_eq!(SearchTarget::RootDevice.to_string(), "upnp:rootdevice");
    assert_eq!(
        SearchTarget::UUID("abc-123".to_string()).to_string(),
        "uuid:abc-123"
    );
    assert_eq!(
        SearchTarget::Custom("roku".to_string(), "ecp".to_string()).to_string(),
        "roku:ecp"
    );
    assert_eq!(
        SearchTarget::URN(URN::device("a", "b", 4294967295)).to_string(),
        "urn:a:device:b:4294967295"
    );
}

#[test]
fn roundtrip_examples() {
    let values = vec![
        SearchTarget::All,
        SearchTarget::RootDevice,
        SearchTarget::UUID("".to_string()),
        SearchTarget::UUID("abc-123".to_string()),
        SearchTarget::URN(URN::device("schemas-upnp-org", "ZonePlayer", 1)),
        SearchTarget::URN(URN::service("schemas-sonos-com", "Queue", 2)),
        SearchTarget::Custom("roku".to_string(), "ecp".to_string()),
    ];
    for value in values {
        assert_eq!(
            SearchTarget::parse(value.to_string().as_str()),
            Ok(value.clone())
        );
    }
}

#[test]
fn urn_accessors() {
    let urn = URN::service("schemas-upnp-org", "RenderingControl", 1);
    assert_eq!(urn.domain_name(), "schemas-upnp-org");
    assert_eq!(urn.typ(), "RenderingControl");
    assert_eq!(urn.version(), 1);
    let target: SearchTarget = urn.clone().into();
    assert_eq!(target, SearchTarget::URN(urn));
}

#[test]
fn parse_error_messages() {
    assert_eq!(ParseURNError.message(), "failed to parse URN");
    assert_eq!(
        ParseSearchTargetError::URN(ParseURNError).message(),
        "invalid urn supplied"
    );
    assert_eq!(
        ParseSearchTargetError::ST.message(),
        "invalid search target format"
    );
}
