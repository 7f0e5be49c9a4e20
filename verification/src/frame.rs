//! The frames of the wire protocol between client, relay and worker.
//!
//! Fields are separated by a single space. A key holds no space, so the first
//! space after the key ends it; what follows is taken whole.

use crate::error::Error;
use crate::search::{lemma_position, lemma_position_bounds, position};
use crate::text::{find_char, same_text};
use vstd::prelude::*;
use vstd::string::*;
use vstd::utf8::encode_utf8;

verus! {

/// The text of a success flag.
pub open spec fn flag_text(success: bool) -> Seq<char> {
    if success {
        "true"@
    } else {
        "false"@
    }
}

/// Client to relay: `job <key> <payload>`, the payload byte for byte.
pub open spec fn job_frame(key: Seq<char>, payload: Seq<u8>) -> Seq<u8> {
    encode_utf8("job "@) + encode_utf8(key) + encode_utf8(" "@) + payload
}

/// Relay to client: `<key> <true|false>`.
pub open spec fn completion_frame(key: Seq<char>, success: bool) -> Seq<char> {
    key + " "@ + flag_text(success)
}

/// Worker to relay: `complete <true|false> <key>`.
pub open spec fn report_frame(key: Seq<char>, success: bool) -> Seq<char> {
    "complete "@ + flag_text(success) + " "@ + key
}

/// Relay to worker: `request-build <key> <payload>`.
pub open spec fn request_frame(key: Seq<char>, payload: Seq<char>) -> Seq<char> {
    "request-build "@ + key + " "@ + payload
}

/// What a frame from the relay tells the client: the key in front of the
/// first space and the flag behind it, where the flag is `true` or `false`.
pub open spec fn parsed_completion(frame: Seq<char>) -> Option<(Seq<char>, bool)> {
    let at = position(frame, ' ');
    if at >= frame.len() {
        None
    } else if frame.skip(at + 1) == "true"@ {
        Some((frame.take(at), true))
    } else if frame.skip(at + 1) == "false"@ {
        Some((frame.take(at), false))
    } else {
        None
    }
}

/// What a frame from the relay asks of the worker: behind the words
/// `request-build` and a space, the key up to the next space, and the payload
/// behind that space.
pub open spec fn parsed_request(frame: Seq<char>) -> Option<(Seq<char>, Seq<char>)> {
    let head = "request-build "@;
    if frame.len() < head.len() || frame.take(head.len() as int) != head {
        None
    } else {
        let rest = frame.skip(head.len() as int);
        let at = position(rest, ' ');
        if at >= rest.len() {
            None
        } else {
            Some((rest.take(at), rest.skip(at + 1)))
        }
    }
}

/// The frame that submits one build job.
pub fn encode_job(key: &str, payload: &Vec<u8>) -> (frame: Vec<u8>)
    ensures
        frame@ == job_frame(key@, payload@),
{
    let mut frame: Vec<u8> = Vec::new();
    frame.extend_from_slice("job ".as_bytes());
    frame.extend_from_slice(key.as_bytes());
    frame.extend_from_slice(" ".as_bytes());
    frame.extend_from_slice(payload.as_slice());
    assert(frame@ =~= job_frame(key@, payload@));
    frame
}

/// The frame by which the relay tells a client how the build of `key` ended.
pub fn encode_completion(key: &str, success: bool) -> (frame: String)
    ensures
        frame@ == completion_frame(key@, success),
{
    let mut frame = String::from_str(key);
    frame.append(" ");
    if success {
        frame.append("true");
    } else {
        frame.append("false");
    }
    frame
}

/// The frame by which a worker reports how the build of `key` ended.
pub fn encode_report(key: &str, success: bool) -> (frame: String)
    ensures
        frame@ == report_frame(key@, success),
{
    let mut frame = String::from_str("complete ");
    if success {
        frame.append("true");
    } else {
        frame.append("false");
    }
    frame.append(" ");
    frame.append(key);
    frame
}

/// The frame by which the relay hands a job to a worker.
pub fn encode_request(key: &str, payload: &str) -> (frame: String)
    ensures
        frame@ == request_frame(key@, payload@),
{
    let mut frame = String::from_str("request-build ");
    frame.append(key);
    frame.append(" ");
    frame.append(payload);
    frame
}

/// Reads a completion frame. A frame without a space, or whose flag is
/// neither `true` nor `false`, is a protocol error.
pub fn parse_completion(frame: &str) -> (parsed: Result<(String, bool), Error>)
    ensures
        match parsed {
            Ok((key, success)) => parsed_completion(frame@) == Some((key@, success)),
            Err(e) => parsed_completion(frame@) is None && e@ == crate::error::ErrorView::Protocol,
        },
{
    let len = frame.unicode_len();
    let at = find_char(frame, ' ');
    if at >= len {
        return Err(Error::Protocol);
    }
    let key = frame.substring_char(0, at);
    let flag = frame.substring_char(at + 1, len);
    if same_text(flag, "true") {
        Ok((String::from_str(key), true))
    } else if same_text(flag, "false") {
        Ok((String::from_str(key), false))
    } else {
        Err(Error::Protocol)
    }
}

/// Reads a frame sent to a worker. `None` where the frame is no build
/// request: it does not begin with `request-build` and a space, or no space
/// ends the key.
pub fn parse_request(frame: &str) -> (parsed: Option<(String, String)>)
    ensures
        match parsed {
            Some((key, payload)) => parsed_request(frame@) == Some((key@, payload@)),
            None => parsed_request(frame@) is None,
        },
{
    proof {
        reveal_strlit("request-build ");
    }
    let len = frame.unicode_len();
    if len < 14 {
        return None;
    }
    if !same_text(frame.substring_char(0, 14), "request-build ") {
        return None;
    }
    let rest = frame.substring_char(14, len);
    let rest_len = len - 14;
    let at = find_char(rest, ' ');
    if at >= rest_len {
        return None;
    }
    let key = rest.substring_char(0, at);
    let payload = rest.substring_char(at + 1, rest_len);
    Some((String::from_str(key), String::from_str(payload)))
}

/// A completion frame written for a key without a space reads back as that
/// key and that flag.
pub proof fn law_completion_round_trip(key: Seq<char>, success: bool)
    requires
        !key.contains(' '),
    ensures
        parsed_completion(completion_frame(key, success)) == Some((key, success)),
{
    reveal_strlit(" ");
    reveal_strlit("true");
    reveal_strlit("false");
    let frame = completion_frame(key, success);
    assert(frame[key.len() as int] == ' ');
    assert forall|j: int| 0 <= j < key.len() implies frame[j] != ' ' by {
        assert(frame[j] == key[j]);
        assert(key.contains(key[j]));
    }
    lemma_position(frame, ' ', key.len() as int);
    assert(frame.take(key.len() as int) =~= key);
    assert(frame.skip(key.len() as int + 1) =~= flag_text(success));
    assert("true"@.len() != "false"@.len());
}

/// A build request written for a key without a space reads back as that key
/// and that payload, whatever the payload holds.
pub proof fn law_request_round_trip(key: Seq<char>, payload: Seq<char>)
    requires
        !key.contains(' '),
    ensures
        parsed_request(request_frame(key, payload)) == Some((key, payload)),
{
    reveal_strlit(" ");
    reveal_strlit("request-build ");
    let head = "request-build "@;
    let frame = request_frame(key, payload);
    assert(frame.take(head.len() as int) =~= head);
    let rest = frame.skip(head.len() as int);
    assert(rest =~= key + " "@ + payload);
    assert(rest[key.len() as int] == ' ');
    assert forall|j: int| 0 <= j < key.len() implies rest[j] != ' ' by {
        assert(rest[j] == key[j]);
        assert(key.contains(key[j]));
    }
    lemma_position(rest, ' ', key.len() as int);
    assert(rest.take(key.len() as int) =~= key);
    assert(rest.skip(key.len() as int + 1) =~= payload);
}

/// A frame that reads as a completion is the frame written for what was
/// read: nothing of it is lost.
pub proof fn law_completion_exact(frame: Seq<char>, key: Seq<char>, success: bool)
    requires
        parsed_completion(frame) == Some((key, success)),
    ensures
        frame == completion_frame(key, success),
        !key.contains(' '),
{
    reveal_strlit(" ");
    lemma_position_bounds(frame, ' ');
    let at = position(frame, ' ');
    assert(frame =~= key + " "@ + frame.skip(at + 1));
    assert forall|j: int| 0 <= j < key.len() implies key[j] != ' ' by {
        assert(key[j] == frame[j]);
    }
}

} // verus!
