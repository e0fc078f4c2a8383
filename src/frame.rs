//! Frames exchanged with a client over the real-time connection.
use vstd::prelude::*;
use vstd::string::StringExecFns;

verus! {

/// The lower-case hexadecimal digit for `d` in `0..16`.
pub open spec fn hex_digit(d: u32) -> char {
    seq!['0', '1', '2', '3', '4', '5', '6', '7', '8', '9', 'a', 'b', 'c', 'd', 'e', 'f'][d as int]
}

/// How serde_json writes one character inside a string literal: `"` and
/// `\` behind a backslash, the control characters below 0x20 as `\b`,
/// `\t`, `\n`, `\f`, `\r` or `\u00XX`, any other character as itself.
pub open spec fn json_escape_char(c: char) -> Seq<char> {
    if c == '"' {
        seq!['\\', '"']
    } else if c == '\\' {
        seq!['\\', '\\']
    } else if c == '\u{8}' {
        seq!['\\', 'b']
    } else if c == '\t' {
        seq!['\\', 't']
    } else if c == '\n' {
        seq!['\\', 'n']
    } else if c == '\u{c}' {
        seq!['\\', 'f']
    } else if c == '\r' {
        seq!['\\', 'r']
    } else if (c as u32) < 0x20 {
        seq!['\\', 'u', '0', '0', hex_digit((c as u32) / 16), hex_digit((c as u32) % 16)]
    } else {
        seq![c]
    }
}

/// The characters of `s`, each escaped as serde_json writes it.
pub open spec fn json_escape(s: Seq<char>) -> Seq<char>
    decreases s.len(),
{
    if s.len() == 0 {
        Seq::empty()
    } else {
        json_escape(s.drop_last()) + json_escape_char(s.last())
    }
}

/// The JSON string literal that serde_json writes for `s`: the
/// characters of `s`, escaped, between double quotes.
pub open spec fn json_string_literal(s: Seq<char>) -> Seq<char> {
    seq!['"'] + json_escape(s) + seq!['"']
}

/// The `key` member of `text` when `text` is a JSON object whose `key`
/// member is a string; `None` otherwise.
pub uninterp spec fn frame_key(text: Seq<char>) -> Option<Seq<char>>;

/// Relies on `serde_json::to_string` on a `str`: it writes the string
/// between double quotes, escaping `"`, `\` and the control characters
/// below 0x20 (`format_escaped_str_contents`), and cannot fail on a `str`.
#[verifier::external_body]
fn json_quote(s: &str) -> (r: String)
    ensures
        r@ == json_string_literal(s@),
{
    match serde_json::to_string(s) {
        Ok(t) => t,
        Err(_) => String::new(),
    }
}

/// Relies on `serde_json::from_str` into a `serde_json::Value`, then
/// `Value::get("key")` and `Value::as_str`: the string member `key` of a
/// JSON object, if the text is one and has it.
#[verifier::external_body]
fn decode_key(text: &str) -> (r: Option<String>)
    ensures
        match r {
            Some(k) => frame_key(text@) == Some(k@),
            None => frame_key(text@) is None,
        },
{
    let v: serde_json::Value = match serde_json::from_str(text) {
        Ok(v) => v,
        Err(_) => return None,
    };
    v.get("key").and_then(|k| k.as_str()).map(|k| k.to_string())
}

/// The key that a client's verification frame carries, if the frame is a
/// JSON object with a string member `key`.
pub fn client_key(text: &str) -> (r: Option<String>)
    ensures
        match r {
            Some(k) => frame_key(text@) == Some(k@),
            None => frame_key(text@) is None,
        },
{
    decode_key(text)
}

/// A frame sent from the server to a client.
#[derive(Debug, Clone, PartialEq, Eq)]
pub enum ServerFrame {
    /// Verification succeeded; carries the display name of the key's owner.
    Verified(String),
    /// The key has no entry in the credential store.
    UnknownKey,
    /// The key is bound to another live connection.
    DuplicateKey,
    /// A payload routed to this connection.
    Notification(String),
    /// The verification frame could not be read.
    Invalid,
}

pub ghost enum FrameView {
    Verified(Seq<char>),
    UnknownKey,
    DuplicateKey,
    Notification(Seq<char>),
    Invalid,
}

impl View for ServerFrame {
    type V = FrameView;

    open spec fn view(&self) -> FrameView {
        match self {
            ServerFrame::Verified(n) => FrameView::Verified(n@),
            ServerFrame::UnknownKey => FrameView::UnknownKey,
            ServerFrame::DuplicateKey => FrameView::DuplicateKey,
            ServerFrame::Notification(m) => FrameView::Notification(m@),
            ServerFrame::Invalid => FrameView::Invalid,
        }
    }
}

/// The text of a frame on the wire.
pub open spec fn frame_text(f: FrameView) -> Seq<char> {
    match f {
        FrameView::Verified(n) => "{\"code\":1,\"server_name\":"@ + json_string_literal(n) + "}"@,
        FrameView::UnknownKey => "{\"code\":-1}"@,
        FrameView::DuplicateKey => "{\"code\":-2}"@,
        FrameView::Notification(m) => "{\"code\":2,\"msg\":"@ + json_string_literal(m) + "}"@,
        FrameView::Invalid => "Invalid message"@,
    }
}

impl ServerFrame {
    /// The text of this frame on the wire.
    pub fn to_text(&self) -> (r: String)
        ensures
            r@ == frame_text(self@),
    {
        match self {
            ServerFrame::Verified(n) => {
                let mut t = String::from_str("{\"code\":1,\"server_name\":");
                let q = json_quote(n.as_str());
                t.append(q.as_str());
                t.append("}");
                t
            },
            ServerFrame::UnknownKey => String::from_str("{\"code\":-1}"),
            ServerFrame::DuplicateKey => String::from_str("{\"code\":-2}"),
            ServerFrame::Notification(m) => {
                let mut t = String::from_str("{\"code\":2,\"msg\":");
                let q = json_quote(m.as_str());
                t.append(q.as_str());
                t.append("}");
                t
            },
            ServerFrame::Invalid => String::from_str("Invalid message"),
        }
    }
}

} // verus!
