//! Reconnect policy of the outbound estimate stream.
use vstd::prelude::*;

verus! {

/// Pause before the next connection attempt, in milliseconds.
pub const RECONNECT_BACKOFF_MS: u64 = 1000;

/// What became of the last attempt on the outbound stream.
#[derive(Clone, Copy, Debug, PartialEq, Eq)]
pub enum LinkEvent {
    Connected,
    ConnectFailed,
    Sent,
    SendFailed,
}

/// What to do next.
#[derive(Clone, Copy, Debug, PartialEq, Eq)]
pub enum LinkAction {
    /// Go on: publish the next estimate, or connect if the stream is down.
    Proceed,
    /// Wait this many milliseconds, then connect again. Nothing is kept
    /// for later: an estimate that was not delivered is dropped.
    RetryAfter(u64),
}

/// The state after `e` on a stream that is up (`true`) or down, and what
/// to do next.
pub open spec fn link_next(up: bool, e: LinkEvent) -> (bool, LinkAction) {
    match e {
        LinkEvent::Connected => (true, LinkAction::Proceed),
        LinkEvent::Sent => (up, LinkAction::Proceed),
        LinkEvent::ConnectFailed => (false, LinkAction::RetryAfter(RECONNECT_BACKOFF_MS)),
        LinkEvent::SendFailed => (false, LinkAction::RetryAfter(RECONNECT_BACKOFF_MS)),
    }
}

/// The outbound stream, up or down.
pub struct Link {
    up: bool,
}

impl View for Link {
    type V = bool;

    closed spec fn view(&self) -> bool {
        self.up
    }
}

impl Link {
    /// A stream not yet connected.
    pub fn new() -> (r: Self)
        ensures
            !r@,
    {
        Link { up: false }
    }

    pub fn is_up(&self) -> (r: bool)
        ensures
            r == self@,
    {
        self.up
    }

    pub fn on_event(&mut self, e: LinkEvent) -> (a: LinkAction)
        ensures
            (final(self)@, a) == link_next(old(self)@, e),
    {
        match e {
            LinkEvent::Connected => {
                self.up = true;
                LinkAction::Proceed
            },
            LinkEvent::Sent => LinkAction::Proceed,
            LinkEvent::ConnectFailed | LinkEvent::SendFailed => {
                self.up = false;
                LinkAction::RetryAfter(RECONNECT_BACKOFF_MS)
            },
        }
    }
}

} // verus!
