//! WebRTC signaling a viewer relays to a broadcaster: `serde_json` reads the JSON,
//! and the library picks out an SDP answer or an ICE candidate.
//!
//! An answer reads `{"cmd":"answer","args":{"answer":…}}`; a candidate reads
//! `{"cmd":"iceCandidate","args":{"mLine":…,"mid":…,"sdp":…}}`. Anything else is
//! ignored.

use vstd::prelude::*;
use crate::text::str_eq;

verus! {

#[verifier::external_type_specification]
#[verifier::external_body]
pub struct ExJsonValue(serde_json::Value);

/// The JSON document `serde_json::from_str` reads from a text, if the text is one.
pub uninterp spec fn json_document(text: Seq<char>) -> Option<serde_json::Value>;

/// The member `serde_json::Value::get` finds under a key: some only for an
/// object that has the key.
pub uninterp spec fn json_member(value: serde_json::Value, key: Seq<char>) -> Option<serde_json::Value>;

/// The text `serde_json::Value::as_str` gives: some only for a JSON string.
pub uninterp spec fn json_text(value: serde_json::Value) -> Option<Seq<char>>;

/// The number `serde_json::Value::as_u64` gives: some only for a JSON number that
/// is a non-negative integer fitting in 64 bits.
pub uninterp spec fn json_unsigned(value: serde_json::Value) -> Option<u64>;

/// `serde_json::from_str::<serde_json::Value>`: the JSON document in `text`, or
/// none where the text is not valid JSON.
#[verifier::external_body]
fn parse_json(text: &str) -> (r: Option<serde_json::Value>)
    ensures
        r == json_document(text@),
{
    serde_json::from_str::<serde_json::Value>(text).ok()
}

/// `serde_json::Value::get` with a text key: the member under `key` of an object.
#[verifier::external_body]
fn json_get<'a>(value: &'a serde_json::Value, key: &str) -> (r: Option<&'a serde_json::Value>)
    ensures
        match r {
            Some(m) => json_member(*value, key@) == Some(*m),
            None => json_member(*value, key@) is None,
        },
{
    value.get(key)
}

/// `serde_json::Value::as_str`: the text of a JSON string.
#[verifier::external_body]
fn json_as_text(value: &serde_json::Value) -> (r: Option<String>)
    ensures
        match r {
            Some(s) => json_text(*value) == Some(s@),
            None => json_text(*value) is None,
        },
{
    value.as_str().map(|s| s.to_string())
}

/// `serde_json::Value::as_u64`: the value of a non-negative integer.
#[verifier::external_body]
fn json_as_u64(value: &serde_json::Value) -> (r: Option<u64>)
    ensures
        r == json_unsigned(*value),
{
    value.as_u64()
}

/// An ICE candidate a viewer sent.
#[derive(Debug, Clone, PartialEq, Eq)]
pub struct IceCandidate {
    /// The candidate line
    pub candidate: String,
    /// The media stream it belongs to
    pub sdp_mid: Option<String>,
    /// The index of that media line
    pub sdp_mline_index: Option<u16>,
}

/// What a viewer's signaling message carries.
#[derive(Debug, Clone, PartialEq, Eq)]
pub enum ViewerMessage {
    /// The viewer's SDP answer to our offer
    Answer(String),
    /// One of the viewer's ICE candidates
    Candidate(IceCandidate),
}

/// The content of a viewer message: an answer's SDP, or a candidate's line, media
/// stream and media line index.
pub enum ViewerContent {
    Answer(Seq<char>),
    Candidate(Seq<char>, Option<Seq<char>>, Option<u16>),
}

impl ViewerMessage {
    /// The message's content.
    pub open spec fn content(&self) -> ViewerContent {
        match self {
            ViewerMessage::Answer(sdp) => ViewerContent::Answer(sdp@),
            ViewerMessage::Candidate(c) => ViewerContent::Candidate(
                c.candidate@,
                match c.sdp_mid {
                    Some(m) => Some(m@),
                    None => None,
                },
                c.sdp_mline_index,
            ),
        }
    }
}

/// The text of the member under `key`, where there is one and it is a string.
pub open spec fn member_text(value: serde_json::Value, key: Seq<char>) -> Option<Seq<char>> {
    match json_member(value, key) {
        Some(m) => json_text(m),
        None => None,
    }
}

/// The media line index under `mLine`, where it is a number that fits in 16 bits.
pub open spec fn member_line(args: serde_json::Value) -> Option<u16> {
    match json_member(args, "mLine"@) {
        Some(m) => match json_unsigned(m) {
            Some(n) => if n <= u16::MAX {
                Some(n as u16)
            } else {
                None
            },
            None => None,
        },
        None => None,
    }
}

/// What a signaling text says: a document with `args` and a string `cmd`;
/// `answer` takes the text under `args.answer`, `iceCandidate` the text under
/// `args.sdp` with `args.mid` and `args.mLine` where they are usable.
pub open spec fn signaling_content(text: Seq<char>) -> Option<ViewerContent> {
    match json_document(text) {
        Some(doc) => match json_member(doc, "args"@) {
            Some(args) => match member_text(doc, "cmd"@) {
                Some(cmd) => if cmd == "answer"@ {
                    match member_text(args, "answer"@) {
                        Some(sdp) => Some(ViewerContent::Answer(sdp)),
                        None => None,
                    }
                } else if cmd == "iceCandidate"@ {
                    match member_text(args, "sdp"@) {
                        Some(line) => Some(
                            ViewerContent::Candidate(line, member_text(args, "mid"@), member_line(args)),
                        ),
                        None => None,
                    }
                } else {
                    None
                },
                None => None,
            },
            None => None,
        },
        None => None,
    }
}

fn member_text_of(value: &serde_json::Value, key: &str) -> (r: Option<String>)
    ensures
        match r {
            Some(s) => member_text(*value, key@) == Some(s@),
            None => member_text(*value, key@) is None,
        },
{
    match json_get(value, key) {
        Some(m) => json_as_text(m),
        None => None,
    }
}

/// Reads a viewer's signaling message; none for anything that is not valid JSON,
/// lacks `args` or a string `cmd`, names another command, or misses the answer
/// or candidate text.
pub fn parse_signaling(json: &str) -> (r: Option<ViewerMessage>)
    ensures
        match r {
            Some(m) => signaling_content(json@) == Some(m.content()),
            None => signaling_content(json@) is None,
        },
{
    proof {
        reveal_strlit("args");
        reveal_strlit("cmd");
        reveal_strlit("answer");
        reveal_strlit("iceCandidate");
        reveal_strlit("sdp");
        reveal_strlit("mid");
        reveal_strlit("mLine");
    }
    let doc = parse_json(json)?;
    let args = json_get(&doc, "args")?;
    let cmd = member_text_of(&doc, "cmd")?;
    if str_eq(cmd.as_str(), "answer") {
        let sdp = member_text_of(args, "answer")?;
        Some(ViewerMessage::Answer(sdp))
    } else if str_eq(cmd.as_str(), "iceCandidate") {
        let candidate = member_text_of(args, "sdp")?;
        let sdp_mid = member_text_of(args, "mid");
        let sdp_mline_index = match json_get(args, "mLine") {
            Some(m) => match json_as_u64(m) {
                Some(n) => if n <= 65535 {
                    Some(n as u16)
                } else {
                    None
                },
                None => None,
            },
            None => None,
        };
        Some(ViewerMessage::Candidate(IceCandidate { candidate, sdp_mid, sdp_mline_index }))
    } else {
        None
    }
}

} // verus!
