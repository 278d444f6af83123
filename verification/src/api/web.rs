//! Decisions of the HTTP and WebSocket handlers: which camera the status
//! proxy asks and what it answers, and what each WebSocket event does to the
//! shared command.
use vstd::prelude::*;

use crate::app::controller::{frame_text, lemma_empty_frame_stops, parse_cmd, remote_cmd, RemoteCmd};
use vstd::string::{StrSliceExecFns, StringSliceAdditionalSpecFns};

use crate::app::text::{
    before_first, chars_of, find, is_whitespace, lemma_split_once_at, lemma_split_once_none,
    lemma_trim_keeps, split_once, trim, trim_window, Trim,
};

verus! {

/// The camera address in a `/camerastatus` request URI: the text after the
/// first `ip=`, up to the next `&`, without surrounding whitespace; empty
/// when the URI has no `ip=`.
pub open spec fn camera_ip(uri: Seq<char>) -> Seq<char> {
    match split_once(uri, "ip="@) {
        Some(parts) => trim(before_first(parts.1, seq!['&']), Trim::Whitespace),
        None => Seq::empty(),
    }
}

/// The status URL of the camera at `ip`.
pub open spec fn camera_status_url(ip: Seq<char>) -> Seq<char> {
    "http://"@ + ip + ":8080/videostatus"@
}

/// The URL the `/camerastatus` proxy asks for `uri`, or `None` when the
/// request names no camera (and the proxy answers at once that it is down).
pub fn camera_probe_url(uri: &str) -> (res: Option<String>)
    ensures
        match res {
            Some(url) => camera_ip(uri@).len() > 0 && url@ == camera_status_url(camera_ip(uri@)),
            None => camera_ip(uri@).len() == 0,
        },
{
    proof {
        reveal_strlit("ip=");
    }
    let v = chars_of(uri);
    assert(v@.subrange(0, v@.len() as int) =~= uri@);
    let key: Vec<char> = vec!['i', 'p', '='];
    assert(key@ =~= "ip="@);
    let found = find(&v, 0, v.len(), &key);
    let start: usize = match found {
        Some(k) => k + 3,
        None => {
            return None;
        },
    };
    let amp: Vec<char> = vec!['&'];
    assert(amp@ =~= seq!['&']);
    let end: usize = match find(&v, start, v.len(), &amp) {
        Some(k) => k,
        None => v.len(),
    };
    let (a, b) = trim_window(&v, start, end, Trim::Whitespace);
    assert(v@.subrange(a as int, b as int) == camera_ip(uri@));
    if a == b {
        return None;
    }
    let mut url = String::from_str("http://");
    url.append(uri.substring_char(a, b));
    url.append(":8080/videostatus");
    Some(url)
}

/// The status code and body the proxy answers: 200 "ok" when the camera
/// answered 200, else 502 "error".
pub fn camera_status_reply(camera_ok: bool) -> (res: (u16, &'static str))
    ensures
        res.0 == (if camera_ok { 200u16 } else { 502u16 }),
        res.1@ == (if camera_ok { "ok"@ } else { "error"@ }),
{
    if camera_ok {
        (200, "ok")
    } else {
        (502, "error")
    }
}

/// The largest WebSocket frame the command channel reads, in bytes.
pub const MAX_FRAME_LEN: usize = 32;

/// What happens on the command WebSocket.
pub enum WsEvent {
    /// A client connected.
    Opened,
    /// The client disconnected.
    Closed,
    /// A frame of this many bytes is waiting.
    Pending(usize),
    /// The bytes of a waiting frame.
    Payload(Vec<u8>),
}

/// What the handler does in answer.
#[derive(Debug, Clone, Copy, PartialEq, Eq, Structural)]
pub enum WsAction {
    /// Nothing: the shared command stays as it is.
    Nothing,
    /// Read the waiting frame, of this many bytes.
    Receive(usize),
    /// Replace the shared command.
    Command(RemoteCmd),
}

/// The text of a frame: its bytes read as UTF-8, or empty when they are not
/// valid UTF-8.
pub open spec fn frame_payload_text(bytes: Seq<u8>) -> Seq<char> {
    if vstd::utf8::valid_utf8(bytes) {
        vstd::utf8::decode_utf8(bytes)
    } else {
        Seq::empty()
    }
}

/// The handler's answer to an event.
pub open spec fn ws_reaction(event: WsEvent) -> WsAction {
    match event {
        WsEvent::Opened => WsAction::Nothing,
        WsEvent::Closed => WsAction::Command(RemoteCmd::Stop),
        WsEvent::Pending(len) => if 0 < len <= MAX_FRAME_LEN {
            WsAction::Receive(len)
        } else {
            WsAction::Nothing
        },
        WsEvent::Payload(bytes) => WsAction::Command(remote_cmd(frame_payload_text(bytes@))),
    }
}

/// `std::str::from_utf8`, which accepts exactly the valid UTF-8 byte
/// sequences and returns a text whose bytes are the input. The contract claims
/// just that: `Some` iff the bytes are valid UTF-8 (as vstd's `valid_utf8`
/// defines it), with the same bytes.
#[verifier::external_body]
fn utf8_text(bytes: &[u8]) -> (res: Option<&str>)
    ensures
        res is Some <==> vstd::utf8::valid_utf8(bytes@),
        res matches Some(text) ==> text.spec_bytes() == bytes@,
{
    match std::str::from_utf8(bytes) {
        Ok(text) => Some(text),
        Err(_) => None,
    }
}

/// The handler's answer to `event`.
pub fn on_ws_event(event: &WsEvent) -> (res: WsAction)
    ensures
        res == ws_reaction(*event),
{
    match event {
        WsEvent::Opened => WsAction::Nothing,
        WsEvent::Closed => WsAction::Command(RemoteCmd::Stop),
        WsEvent::Pending(len) => {
            if *len == 0 || *len > MAX_FRAME_LEN {
                WsAction::Nothing
            } else {
                WsAction::Receive(*len)
            }
        },
        WsEvent::Payload(bytes) => {
            let text: &str = match utf8_text(bytes.as_slice()) {
                Some(t) => {
                    proof {
                        vstd::utf8::encode_utf8_decode_utf8(t@);
                    }
                    t
                },
                None => {
                    proof {
                        reveal_strlit("");
                    }
                    ""
                },
            };
            assert(text@ == frame_payload_text(bytes@));
            WsAction::Command(parse_cmd(text))
        },
    }
}


/// The address after the first `ip=` of a request URI, up to the next `&` (or
/// the end), is the camera address, whatever its length, once it neither
/// starts nor ends with whitespace; the proxy then asks that camera.
pub proof fn lemma_camera_ip_of_query(pre: Seq<char>, addr: Seq<char>, post: Seq<char>)
    requires
        forall|i: int|
            0 <= i < pre.len() ==> #[trigger] (pre + "ip="@ + addr + post).subrange(i, i + 3)
                != "ip="@,
        addr.len() > 0,
        !is_whitespace(addr[0]),
        !is_whitespace(addr.last()),
        forall|i: int| 0 <= i < addr.len() ==> #[trigger] addr[i] != '&',
        post.len() == 0 || post[0] == '&',
    ensures
        camera_ip(pre + "ip="@ + addr + post) == addr,
        camera_status_url(camera_ip(pre + "ip="@ + addr + post)) == "http://"@ + addr
            + ":8080/videostatus"@,
{
    reveal_strlit("ip=");
    let key = "ip="@;
    let uri = pre + key + addr + post;
    let k = pre.len() as int;
    assert(uri.subrange(k, k + 3) =~= key);
    assert forall|i: int| 0 <= i < k implies #[trigger] uri.subrange(i, i + key.len()) != key by {
        assert(uri.subrange(i, i + 3) != key);
    }
    lemma_split_once_at(uri, key, k);
    assert(uri.take(k) =~= pre);
    let rest = addr + post;
    assert(uri.skip(k + 3) =~= rest);
    let amp = seq!['&'];
    if post.len() == 0 {
        assert(rest =~= addr);
        assert forall|i: int| 0 <= i <= addr.len() - 1 implies #[trigger] addr.subrange(i, i + 1)
            != amp by {
            assert(addr.subrange(i, i + 1)[0] == addr[i]);
        }
        lemma_split_once_none(addr, amp);
    } else {
        let m = addr.len() as int;
        assert(rest.subrange(m, m + 1) =~= amp);
        assert forall|i: int| 0 <= i < m implies #[trigger] rest.subrange(i, i + 1) != amp by {
            assert(rest.subrange(i, i + 1)[0] == addr[i]);
        }
        lemma_split_once_at(rest, amp, m);
        assert(rest.take(m) =~= addr);
    }
    lemma_trim_keeps(addr, Trim::Whitespace);
}

/// Every received payload replaces the shared command with the command its
/// text stands for; a payload that is not valid UTF-8 stops the car, and so
/// does any valid payload whose text, trimmed of control characters and
/// whitespace, is "S".
pub proof fn lemma_payload_sets_command(bytes: Vec<u8>)
    ensures
        ws_reaction(WsEvent::Payload(bytes)) is Command,
        ws_reaction(WsEvent::Payload(bytes)) == WsAction::Command(
            remote_cmd(frame_payload_text(bytes@)),
        ),
        !vstd::utf8::valid_utf8(bytes@) ==> ws_reaction(WsEvent::Payload(bytes))
            == WsAction::Command(RemoteCmd::Stop),
        vstd::utf8::valid_utf8(bytes@) && frame_text(vstd::utf8::decode_utf8(bytes@)) == seq!['S']
            ==> ws_reaction(WsEvent::Payload(bytes)) == WsAction::Command(RemoteCmd::Stop),
{
    lemma_empty_frame_stops();
}

} // verus!
