//! The client of the line protocol: what it writes, and how it keeps its connection up.

use crate::protocol::{command_line, format_command, Command};
use vstd::prelude::*;
use vstd::string::*;

verus! {

/// How often a failed attempt to connect is followed by another one before the client pauses.
pub const CONNECT_RETRIES: usize = 3;

/// What is written first on a connection: the key in a line of its own.
pub fn auth_line(api_key: &str) -> (r: String)
    ensures
        r@ == api_key@ + "\n"@,
{
    let mut out: String = api_key.to_string();
    out.append("\n");
    out
}

/// What is written for a command: the command in a line of its own.
pub fn send_line(cmd: &Command) -> (r: String)
    ensures
        r@ == command_line(cmd@) + "\n"@,
{
    let mut out: String = format_command(cmd);
    out.append("\n");
    out
}

// ---------------------------------------------------------------------------
// Connecting
// ---------------------------------------------------------------------------

/// What comes after an attempt to connect.
#[derive(Debug, Clone, Copy, PartialEq, Eq, Structural)]
pub enum AfterAttempt {
    Connected,
    /// Wait, and then make the attempt with the given number.
    Retry(usize),
    GiveUp,
}

/// Decides what comes after an attempt to connect. The attempts are numbered from zero; the
/// first may be followed by as many others as there are retries.
pub fn after_attempt(attempt: usize, retries: usize, connected: bool) -> (r: AfterAttempt)
    requires
        attempt <= retries,
    ensures
        r == (if connected {
            AfterAttempt::Connected
        } else if attempt == retries {
            AfterAttempt::GiveUp
        } else {
            AfterAttempt::Retry((attempt + 1) as usize)
        }),
{
    if connected {
        AfterAttempt::Connected
    } else if attempt == retries {
        AfterAttempt::GiveUp
    } else {
        AfterAttempt::Retry(attempt + 1)
    }
}

// ---------------------------------------------------------------------------
// Staying connected
// ---------------------------------------------------------------------------

/// Where the client is with its connection.
#[derive(Debug, Clone, Copy, PartialEq, Eq, Structural)]
pub enum Link {
    /// About to make an attempt to connect.
    Connecting { attempt: usize },
    /// Waiting before the attempt with the given number.
    Retrying { attempt: usize },
    /// Waiting after the attempts have all failed.
    Pausing,
    Connected,
    Stopped,
}

/// What happens to the client.
#[derive(Debug, Clone, Copy, PartialEq, Eq, Structural)]
pub enum LinkEvent {
    ConnectSucceeded,
    ConnectFailed,
    /// The time to wait is over.
    WaitOver,
    /// A line was read and handed on.
    LineDelivered,
    /// A line was read, but nobody takes it.
    LineUnwanted,
    /// The server has closed the connection.
    PeerClosed,
    ReadFailed,
    /// A command was written.
    CommandWritten,
    WriteFailed,
    /// Nobody can give any more commands.
    SendersGone,
    ShutdownRequested,
}

/// Where the client is after an event. An event that cannot happen where it is changes
/// nothing; a request to shut down waits while an attempt to connect is being repeated.
pub open spec fn next_link(link: Link, event: LinkEvent) -> Link {
    match (link, event) {
        (Link::Connecting { attempt }, LinkEvent::ConnectSucceeded) => Link::Connected,
        (Link::Connecting { attempt }, LinkEvent::ConnectFailed) => if attempt < CONNECT_RETRIES {
            Link::Retrying { attempt: (attempt + 1) as usize }
        } else {
            Link::Pausing
        },
        (Link::Connecting { attempt }, LinkEvent::ShutdownRequested) => if attempt == 0 {
            Link::Stopped
        } else {
            link
        },
        (Link::Retrying { attempt }, LinkEvent::WaitOver) => Link::Connecting { attempt },
        (Link::Pausing, LinkEvent::WaitOver) => Link::Connecting { attempt: 0 },
        (Link::Pausing, LinkEvent::ShutdownRequested) => Link::Stopped,
        (Link::Connected, LinkEvent::LineUnwanted) => Link::Stopped,
        (Link::Connected, LinkEvent::SendersGone) => Link::Stopped,
        (Link::Connected, LinkEvent::ShutdownRequested) => Link::Stopped,
        (Link::Connected, LinkEvent::PeerClosed) => Link::Connecting { attempt: 0 },
        (Link::Connected, LinkEvent::ReadFailed) => Link::Connecting { attempt: 0 },
        (Link::Connected, LinkEvent::WriteFailed) => Link::Connecting { attempt: 0 },
        _ => link,
    }
}

impl Link {
    /// Where a client begins.
    pub fn new() -> (r: Link)
        ensures
            r == (Link::Connecting { attempt: 0 }),
    {
        Link::Connecting { attempt: 0 }
    }

    /// Takes an event into account.
    pub fn step(self, event: LinkEvent) -> (r: Link)
        ensures
            r == next_link(self, event),
    {
        match (self, event) {
            (Link::Connecting { .. }, LinkEvent::ConnectSucceeded) => Link::Connected,
            (Link::Connecting { attempt }, LinkEvent::ConnectFailed) => if attempt
                < CONNECT_RETRIES {
                Link::Retrying { attempt: attempt + 1 }
            } else {
                Link::Pausing
            },
            (Link::Connecting { attempt }, LinkEvent::ShutdownRequested) => if attempt == 0 {
                Link::Stopped
            } else {
                self
            },
            (Link::Retrying { attempt }, LinkEvent::WaitOver) => Link::Connecting { attempt },
            (Link::Pausing, LinkEvent::WaitOver) => Link::Connecting { attempt: 0 },
            (Link::Pausing, LinkEvent::ShutdownRequested) => Link::Stopped,
            (Link::Connected, LinkEvent::LineUnwanted) | (
                Link::Connected,
                LinkEvent::SendersGone,
            ) | (Link::Connected, LinkEvent::ShutdownRequested) => Link::Stopped,
            (Link::Connected, LinkEvent::PeerClosed) | (Link::Connected, LinkEvent::ReadFailed) | (
                Link::Connected,
                LinkEvent::WriteFailed,
            ) => Link::Connecting { attempt: 0 },
            _ => self,
        }
    }
}

// ---------------------------------------------------------------------------
// Laws
// ---------------------------------------------------------------------------

/// Where the client is after a row of events.
pub open spec fn link_after(link: Link, events: Seq<LinkEvent>) -> Link
    decreases events.len(),
{
    if events.len() == 0 {
        link
    } else {
        next_link(link_after(link, events.drop_last()), events.last())
    }
}

/// Whether no more attempts were made in a row than there may be.
pub open spec fn within_retries(link: Link) -> bool {
    match link {
        Link::Connecting { attempt } => attempt <= CONNECT_RETRIES,
        Link::Retrying { attempt } => 0 < attempt <= CONNECT_RETRIES,
        _ => true,
    }
}

/// Whatever happens, no more attempts are made in a row than there may be.
pub proof fn law_attempts_are_bounded(events: Seq<LinkEvent>)
    ensures
        within_retries(link_after(Link::Connecting { attempt: 0 }, events)),
    decreases events.len(),
{
    if events.len() > 0 {
        law_attempts_are_bounded(events.drop_last());
    }
}

/// A client that has stopped stays stopped.
pub proof fn law_stopped_is_final(events: Seq<LinkEvent>)
    ensures
        link_after(Link::Stopped, events) == Link::Stopped,
    decreases events.len(),
{
    if events.len() > 0 {
        law_stopped_is_final(events.drop_last());
    }
}

/// A lost connection is always made anew: only a request to shut down, or that nobody gives
/// commands or takes lines any more, stops the client.
pub proof fn law_losses_never_stop(link: Link, event: LinkEvent)
    requires
        link != Link::Stopped,
        next_link(link, event) == Link::Stopped,
    ensures
        event is ShutdownRequested || event is SendersGone || event is LineUnwanted,
{
}

/// A client stops as soon as it is asked to, unless it is repeating an attempt to connect.
pub proof fn law_shutdown_stops(link: Link)
    requires
        match link {
            Link::Connecting { attempt } => attempt == 0,
            Link::Retrying { .. } => false,
            _ => true,
        },
    ensures
        next_link(link, LinkEvent::ShutdownRequested) == Link::Stopped,
{
}

} // verus!
