//! What the websocket servers have in common: who may connect, and the frames of a
//! connection.

use crate::auth::AuthMessage;
use crate::collections::texts;
use crate::state::holds_text;
use crate::text::same;
use crate::wire::{auth_error, auth_error_text};
use vstd::prelude::*;
use vstd::string::*;

verus! {

/// A frame of a websocket.
#[derive(Debug)]
pub enum Frame {
    Text(String),
    Binary(Vec<u8>),
    Ping(Vec<u8>),
    Pong,
    Close,
    Other,
}

/// What came of waiting for a frame.
#[derive(Debug)]
pub enum Incoming {
    Frame(Frame),
    /// Receiving failed.
    Failed,
    /// The stream has ended.
    Ended,
}

/// Why a request to connect is turned down: the status and the text of the answer.
#[derive(Debug)]
pub struct OriginRefusal {
    pub status: u16,
    pub body: String,
}

/// What is answered to a request to connect; nothing where it may go on. Where no origins
/// are named, every request may.
pub open spec fn origin_answer(allowed: Seq<Seq<char>>, origin: Option<Seq<char>>) -> Option<
    (u16, Seq<char>),
> {
    if allowed.len() == 0 {
        None
    } else {
        match origin {
            Some(origin) => if allowed.contains(origin) {
                None
            } else {
                Some((403, "origin_not_allowed: "@ + origin))
            },
            None => Some((400, "missing_origin"@)),
        }
    }
}

/// Checks the origin of a request to connect.
pub fn check_origin(allowed: &Vec<String>, origin: Option<&str>) -> (r: Result<(), OriginRefusal>)
    ensures
        match origin_answer(
            texts(allowed@),
            match origin {
                Some(origin) => Some(origin@),
                None => None,
            },
        ) {
            Some((status, body)) => match r {
                Ok(_) => false,
                Err(refusal) => refusal.status == status && refusal.body@ == body,
            },
            None => r is Ok,
        },
{
    if allowed.len() == 0 {
        return Ok(());
    }
    match origin {
        Some(origin) => {
            if holds_text(allowed, origin) {
                Ok(())
            } else {
                let mut body: String = "origin_not_allowed: ".to_string();
                body.append(origin);
                Err(OriginRefusal { status: 403, body })
            }
        },
        None => Err(OriginRefusal { status: 400, body: "missing_origin".to_string() }),
    }
}

/// The first frame of a client.
#[derive(Debug)]
pub enum FirstFrame {
    /// It is not text.
    NotText,
    /// It is text, but not the JSON of a message.
    NotJson,
    Message(AuthMessage),
}

/// What is wrong with a first frame, if anything is.
pub open spec fn first_fault(first: FirstFrame) -> Option<Seq<char>> {
    match first {
        FirstFrame::NotText => Some("invalid_auth_message"@),
        FirstFrame::NotJson => Some("invalid_json"@),
        FirstFrame::Message(message) => if message.typ@ != "auth"@ {
            Some("missing_auth"@)
        } else {
            None
        },
    }
}

/// The token in a first frame, or the answer to what is wrong with it.
pub fn first_message(first: FirstFrame) -> (r: Result<String, String>)
    ensures
        match first_fault(first) {
            Some(reason) => match r {
                Ok(_) => false,
                Err(reply) => reply@ == auth_error_text(reason),
            },
            None => match r {
                Ok(jwt) => first matches FirstFrame::Message(message) && jwt == message.jwt,
                Err(_) => false,
            },
        },
{
    match first {
        FirstFrame::NotText => Err(auth_error("invalid_auth_message")),
        FirstFrame::NotJson => Err(auth_error("invalid_json")),
        FirstFrame::Message(message) => {
            if same(message.typ.as_str(), "auth") {
                Ok(message.jwt)
            } else {
                Err(auth_error("missing_auth"))
            }
        },
    }
}

/// A number one higher, as far as numbers go.
pub open spec fn one_more(n: int, max: int) -> int {
    if n < max {
        n + 1
    } else {
        n
    }
}

/// A number one lower, but not below zero.
pub open spec fn one_less(n: int) -> int {
    if n > 0 {
        n - 1
    } else {
        n
    }
}

} // verus!
