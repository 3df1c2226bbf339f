//! Errors that can occur while parsing profiles, share links, or building
//! sing-box configs. The library performs no I/O, so these only cover
//! data/format errors.

use vstd::prelude::*;
use crate::text::{chars_of, push_str, string_of};

verus! {

#[derive(Debug)]
pub enum WispError {
    Parse(String),
    UnsupportedProtocol(String),
    /// The JSON parser's message.
    Json(String),
    /// The URL parser's message.
    Url(String),
    Base64(String),
    Other(String),
}

/// The view of an error: its variant and its message.
pub enum ErrV {
    Parse(Seq<char>),
    UnsupportedProtocol(Seq<char>),
    Json(Seq<char>),
    Url(Seq<char>),
    Base64(Seq<char>),
    Other(Seq<char>),
}

impl View for WispError {
    type V = ErrV;

    open spec fn view(&self) -> ErrV {
        match self {
            WispError::Parse(m) => ErrV::Parse(m@),
            WispError::UnsupportedProtocol(m) => ErrV::UnsupportedProtocol(m@),
            WispError::Json(m) => ErrV::Json(m@),
            WispError::Url(m) => ErrV::Url(m@),
            WispError::Base64(m) => ErrV::Base64(m@),
            WispError::Other(m) => ErrV::Other(m@),
        }
    }
}

/// The display text of an error.
pub open spec fn message_spec(e: ErrV) -> Seq<char> {
    match e {
        ErrV::Parse(m) => "parse error: "@ + m,
        ErrV::UnsupportedProtocol(m) => "unsupported protocol: "@ + m,
        ErrV::Json(m) => "json error: "@ + m,
        ErrV::Url(m) => "url error: "@ + m,
        ErrV::Base64(m) => "base64 error: "@ + m,
        ErrV::Other(m) => m,
    }
}

impl WispError {
    /// The error's display text, e.g. `"parse error: input is empty"`.
    pub fn message(&self) -> (r: String)
        ensures
            r@ == message_spec(self@),
    {
        let (prefix, m) = match self {
            WispError::Parse(m) => ("parse error: ", m),
            WispError::UnsupportedProtocol(m) => ("unsupported protocol: ", m),
            WispError::Json(m) => ("json error: ", m),
            WispError::Url(m) => ("url error: ", m),
            WispError::Base64(m) => ("base64 error: ", m),
            WispError::Other(m) => ("", m),
        };
        let mut out = chars_of(prefix);
        push_str(&mut out, m.as_str());
        proof {
            reveal_strlit("");
        }
        string_of(&out)
    }
}

} // verus!
