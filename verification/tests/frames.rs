use nix_relay::error::Error;
use nix_relay::frame::{
    encode_completion, encode_job, encode_report, encode_request, parse_completion, parse_request,
};

#[test]
fn job_frame_carries_key_and_payload_verbatim() {
    let frame = encode_job("/nix/store/abc.drv", &b"{\"x\":1}".to_vec());
    assert_eq!(frame, b"job /nix/store/abc.drv {\"x\":1}".to_vec());
}

#[test]
fn job_frame_keeps_bytes_that_are_not_text() {
    let payload = vec![0xffu8, 0x00, 0x20, 0x80];
    let frame = encode_job("k", &payload);
    assert_eq!(&frame[..6], b"job k ");
    assert_eq!(&frame[6..], &payload[..]);
}

#[test]
fn job_frame_encodes_a_key_outside_ascii() {
    let frame = encode_job("clé", &Vec::new());
    assert_eq!(frame, "job clé ".as_bytes().to_vec());
}

#[test]
fn completion_frame_reads_back() {
    let frame = encode_completion("/nix/store/abc.drv", false);
    assert_eq!(frame, "/nix/store/abc.drv false");
    let (key, success) = parse_completion(&frame).unwrap();
    assert_eq!(key, "/nix/store/abc.drv");
    assert!(!success);
    assert_eq!(parse_completion("k true").unwrap(), ("k".to_string(), true));
}

#[test]
fn completion_splits_at_the_first_space() {
    assert_eq!(parse_completion("a b true"), Err(Error::Protocol));
    assert_eq!(parse_completion(" true").unwrap(), (String::new(), true));
}

#[test]
fn completion_without_space_or_flag_is_a_protocol_error() {
    assert_eq!(parse_completion(""), Err(Error::Protocol));
    assert_eq!(parse_completion("key"), Err(Error::Protocol));
    assert_eq!(parse_completion("key "), Err(Error::Protocol));
    assert_eq!(parse_completion("key yes"), Err(Error::Protocol));
    assert_eq!(parse_completion("key True"), Err(Error::Protocol));
    assert_eq!(parse_completion("key true "), Err(Error::Protocol));
    assert_eq!(parse_completion("key  true"), Err(Error::Protocol));
}

#[test]
fn completion_with_a_key_outside_ascii() {
    assert_eq!(parse_completion("clé false").unwrap(), ("clé".to_string(), false));
}

#[test]
fn report_frame_has_flag_before_key() {
    assert_eq!(encode_report("k", true), "complete true k");
    assert_eq!(encode_report("k", false), "complete false k");
}

#[test]
fn request_frame_splits_at_first_space_after_key() {
    let (key, payload) =
        parse_request("request-build /nix/store/a.drv {\"a\": {\"b\": 1}}").unwrap();
    assert_eq!(key, "/nix/store/a.drv");
    assert_eq!(payload, "{\"a\": {\"b\": 1}}");
}

#[test]
fn request_frame_reads_back() {
    let frame = encode_request("/nix/store/a.drv", "{}");
    assert_eq!(frame, "request-build /nix/store/a.drv {}");
    assert_eq!(
        parse_request(&frame),
        Some(("/nix/store/a.drv".to_string(), "{}".to_string()))
    );
}

#[test]
fn what_is_no_request_is_not_read() {
    assert!(parse_request("request-build nokey").is_none());
    assert!(parse_request("register").is_none());
    assert!(parse_request("").is_none());
    assert!(parse_request("request-build").is_none());
    assert!(parse_request("please request-build k {}").is_none());
    assert!(parse_request("request-buildk {}").is_none());
}

#[test]
fn request_with_empty_key_or_payload() {
    assert_eq!(parse_request("request-build  {}"), Some((String::new(), "{}".to_string())));
    assert_eq!(parse_request("request-build k "), Some(("k".to_string(), String::new())));
}
