//! The per-connection session: liveness bookkeeping and the adapter
//! between raw transport frames and the authority's message protocol.
//!
//! The hosting task owns the transport and the timers; every decision —
//! what a frame means, when the connection is stale, what to tell the
//! authority — is taken here.

use vstd::prelude::*;
use crate::codec;
use crate::message::{Disconnect, WrappedConversation};
use crate::vector::Vector2f;
use crate::{ext, CLIENT_TIMEOUT_MS};

verus! {

/// The session lifecycle.
#[derive(Clone, Copy, Debug, PartialEq, Eq, Structural)]
pub enum SessionState {
    Connecting,
    Active,
    Closing,
    Closed,
}

/// What a liveness check asks the hosting task to do.
#[derive(Clone, Copy, Debug, PartialEq, Eq, Structural)]
pub enum LivenessAction {
    /// Send a ping probe on the transport.
    Probe,
    /// Tear the connection down.
    Stop,
}

/// One inbound transport frame, as the hosting task saw it.
pub enum Frame {
    Ping(Vec<u8>),
    Pong(Vec<u8>),
    Close,
    Text(Vec<u8>),
    Other,
}

/// What the session asks the hosting task to do with a frame.
pub enum FrameAction {
    /// Answer the ping with this pong payload.
    ReplyPong(Vec<u8>),
    /// Echo the close and tear the connection down.
    CloseEcho,
    /// Forward this command to the authority.
    Forward(WrappedConversation<Vector2f>),
    /// Nothing; the frame was noise or malformed.
    Nothing,
}

/// One client connection's state.
pub struct Session {
    pub id: u128,
    pub last_activity_ms: i64,
    pub state: SessionState,
    pub notified: bool,
}

/// A liveness check at `now`: past the timeout the session starts
/// closing; otherwise it asks for a probe and nothing changes.
pub open spec fn spec_liveness(s: Session, now: int) -> (Session, LivenessAction) {
    if now - s.last_activity_ms > CLIENT_TIMEOUT_MS {
        (Session { state: SessionState::Closing, ..s }, LivenessAction::Stop)
    } else {
        (s, LivenessAction::Probe)
    }
}

/// Teardown: the session ends `Closed`, and hands the authority one
/// `Disconnect` the first time and never again.
pub open spec fn spec_stopped(s: Session) -> (Session, Option<Disconnect>) {
    if s.notified {
        (Session { state: SessionState::Closed, ..s }, None)
    } else {
        (
            Session { state: SessionState::Closed, notified: true, ..s },
            Some(Disconnect { id: s.id }),
        )
    }
}

impl Session {
    /// Teardown has been announced only once the session is closed.
    pub open spec fn wf(self) -> bool {
        self.notified ==> self.state == SessionState::Closed
    }

    /// A fresh session with a random identifier, stamped as active now.
    pub fn new(now_ms: i64) -> (s: Session)
        ensures
            s.state == SessionState::Connecting,
            s.last_activity_ms == now_ms,
            !s.notified,
            s.wf(),
    {
        Session {
            id: ext::fresh_uuid(),
            last_activity_ms: now_ms,
            state: SessionState::Connecting,
            notified: false,
        }
    }

    /// The registration outcome: joined the authority, or failed and
    /// started closing.
    pub fn on_registered(&mut self, ok: bool)
        requires
            old(self).state == SessionState::Connecting,
        ensures
            *final(self) == (Session {
                state: if ok {
                    SessionState::Active
                } else {
                    SessionState::Closing
                },
                ..*old(self)
            }),
    {
        self.state = if ok {
            SessionState::Active
        } else {
            SessionState::Closing
        };
    }

    /// The recurring liveness check.
    pub fn liveness_check(&mut self, now_ms: i64) -> (a: LivenessAction)
        requires
            old(self).state == SessionState::Active,
        ensures
            (*final(self), a) == spec_liveness(*old(self), now_ms as int),
            old(self).wf() ==> final(self).wf(),
    {
        let gap: i128 = now_ms as i128 - self.last_activity_ms as i128;
        if gap > CLIENT_TIMEOUT_MS as i128 {
            self.state = SessionState::Closing;
            LivenessAction::Stop
        } else {
            LivenessAction::Probe
        }
    }

    /// Teardown, on every exit path; at most one `Disconnect` ever.
    pub fn on_stopped(&mut self) -> (d: Option<Disconnect>)
        ensures
            (*final(self), d) == spec_stopped(*old(self)),
            final(self).wf(),
    {
        self.state = SessionState::Closed;
        if self.notified {
            None
        } else {
            self.notified = true;
            Some(Disconnect { id: self.id })
        }
    }

    /// Translate one inbound transport frame: pings are answered and
    /// refresh liveness, pongs refresh it, a close starts closing, and
    /// a text frame is parsed as a command envelope — malformed text is
    /// discarded without any state change.
    pub fn handle_frame(&mut self, frame: Frame, now_ms: i64) -> (a: FrameAction)
        requires
            !old(self).notified,
        ensures
            match frame {
                Frame::Ping(p) => {
                    &&& *final(self) == (Session { last_activity_ms: now_ms, ..*old(self) })
                    &&& a matches FrameAction::ReplyPong(q) && q@ == p@
                },
                Frame::Pong(_) => {
                    &&& *final(self) == (Session { last_activity_ms: now_ms, ..*old(self) })
                    &&& a == FrameAction::Nothing
                },
                Frame::Close => {
                    &&& *final(self) == (Session { state: SessionState::Closing, ..*old(self) })
                    &&& a == FrameAction::CloseEcho
                },
                Frame::Text(t) => {
                    &&& *final(self) == (Session { last_activity_ms: now_ms, ..*old(self) })
                    &&& match codec::spec_parse(t@) {
                        Some(tr) => a matches FrameAction::Forward(w) && w.0 == old(self).id
                            && w.1.kind@ == codec::chars_of_bytes(tr.0) && w.1.data.x as int == tr.1
                            && w.1.data.y as int == tr.2,
                        None => a == FrameAction::Nothing,
                    }
                },
                Frame::Other => {
                    &&& *final(self) == *old(self)
                    &&& a == FrameAction::Nothing
                },
            },
            final(self).wf(),
    {
        match frame {
            Frame::Ping(p) => {
                self.last_activity_ms = now_ms;
                FrameAction::ReplyPong(p)
            },
            Frame::Pong(_) => {
                self.last_activity_ms = now_ms;
                FrameAction::Nothing
            },
            Frame::Close => {
                self.state = SessionState::Closing;
                FrameAction::CloseEcho
            },
            Frame::Text(t) => {
                self.last_activity_ms = now_ms;
                match codec::parse_conversation(&t) {
                    Some(c) => FrameAction::Forward(WrappedConversation(self.id, c)),
                    None => FrameAction::Nothing,
                }
            },
            Frame::Other => FrameAction::Nothing,
        }
    }
}

/// Liveness law: a session silent for longer than the timeout stops on
/// its next check, closes, and the teardown hands the authority exactly
/// one `Disconnect` — a second teardown hands it nothing.
pub proof fn lemma_timeout_disconnects_once(s: Session, now: int)
    requires
        s.wf(),
        s.state == SessionState::Active,
        now - s.last_activity_ms > CLIENT_TIMEOUT_MS,
    ensures
        ({
            let (s1, a) = spec_liveness(s, now);
            let (s2, d1) = spec_stopped(s1);
            let (s3, d2) = spec_stopped(s2);
            &&& a == LivenessAction::Stop
            &&& s1.state == SessionState::Closing
            &&& d1 matches Some(x) && x.id == s.id
            &&& s2.state == SessionState::Closed
            &&& d2 is None
        }),
{
}

} // verus!
