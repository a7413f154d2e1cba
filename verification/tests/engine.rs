//! Tests of the discovery engine's pure core: the outgoing request and the
//! per-event decisions of the response stream.

use ssdp_client::{
    format_search_request, stream_step, Error, RecvEvent, SearchTarget, StreamStep, URN,
    SSDP_BUFFER_LEN,
};

#[test]
fn request_format_exact() {
    let msg = format_search_request(&SearchTarget::RootDevice, 2);
    assert_eq!(
        msg,
        "M-SEARCH * HTTP/1.1\r\nHost:239.255.255.250:1900\r\nMan:\"ssdp:discover\"\r\nST: upnp:rootdevice\r\nMX: 2\r\n\r\n"
    );
}

#[test]
fn request_format_with_urn() {
    let target = SearchTarget::URN(URN::device("schemas-upnp-org", "ZonePlayer", 1));
    let msg = format_search_request(&target, 10);
    assert_eq!(
        msg,
        "M-SEARCH * HTTP/1.1\r\nHost:239.255.255.250:1900\r\nMan:\"ssdp:discover\"\r\nST: urn:schemas-upnp-org:device:ZonePlayer:1\r\nMX: 10\r\n\r\n"
    );
}

/// Drives the stream's decisions over a fixed sequence of receive outcomes,
/// as the caller's socket loop would, collecting the emitted items.
fn run_events(events: Vec<RecvEvent>) -> (Vec<Result<ssdp_client::SearchResponse, Error>>, bool) {
    let mut items = Vec::new();
    let mut complete = false;
    for event in events {
        match stream_step(event) {
            StreamStep::Emit(item) => items.push(item),
            StreamStep::Skip => {}
            StreamStep::Complete => {
                complete = true;
                break;
            }
        }
    }
    (items, complete)
}

#[test]
fn two_datagrams_then_timeout() {
    let valid =
        b"HTTP/1.1 200 OK\r\nLOCATION: http://x\r\nST: ssdp:all\r\nUSN: u\r\nSERVER: s\r\n\r\n"
            .to_vec();
    let missing_usn =
        b"HTTP/1.1 200 OK\r\nLOCATION: http://x\r\nST: ssdp:all\r\nSERVER: s\r\n\r\n".to_vec();
    let (items, complete) = run_events(vec![
        RecvEvent::Datagram(valid),
        RecvEvent::Datagram(missing_usn),
        RecvEvent::TimedOut,
    ]);
    assert!(complete);
    assert_eq!(items.len(), 2);
    let ok = items[0].as_ref().unwrap();
    assert_eq!(ok.location(), "http://x");
    assert_eq!(ok.search_target(), &SearchTarget::All);
    assert_eq!(ok.usn(), "u");
    assert_eq!(ok.server(), "s");
    assert_eq!(
        items[1].as_ref().unwrap_err(),
        &Error::MissingHeader("urn".to_string())
    );
}

#[test]
fn timeout_without_datagrams_completes() {
    let (items, complete) = run_events(vec![RecvEvent::TimedOut]);
    assert!(complete);
    assert!(items.is_empty());
}

#[test]
fn full_buffer_is_skipped() {
    let truncated = vec![b'x'; SSDP_BUFFER_LEN];
    assert!(matches!(
        stream_step(RecvEvent::Datagram(truncated)),
        StreamStep::Skip
    ));
}

#[test]
fn receive_failure_is_one_item() {
    let step = stream_step(RecvEvent::Failure("connection reset".to_string()));
    match step {
        StreamStep::Emit(item) => {
            assert_eq!(
                item.unwrap_err(),
                Error::IO("connection reset".to_string())
            );
        }
        _ => panic!("a receive failure must be emitted as one item"),
    }
}

#[test]
fn bad_status_is_one_item() {
    let not_found = b"HTTP/1.1 404 Not Found\r\n\r\n".to_vec();
    let step = stream_step(RecvEvent::Datagram(not_found));
    match step {
        StreamStep::Emit(item) => {
            assert_eq!(item.unwrap_err(), Error::HTTPError(404));
        }
        _ => panic!("a mis-statused datagram must be emitted as one item"),
    }
}
