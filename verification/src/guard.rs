//! A response that is passed on, and what becomes of its session afterwards.
use crate::error::CoreError;
use crate::request::SessionText;
use crate::sessions::{cleanup_of, cleanup_session, ActiveSessions, Cleanup};
use vstd::prelude::*;

verus! {

/// What polling a stream gives.
#[derive(Debug, PartialEq, Eq)]
pub enum Polled<B, E> {
    /// Nothing yet.
    Pending,
    /// The next item.
    Item(B),
    /// An error.
    Failed(E),
    /// The end of the stream.
    End,
}

/// A response stream together with what it holds on to: the account, the client that the session
/// was created with, and the list of sessions under way. The session is cleaned up when the
/// response is given up.
#[derive(Debug)]
pub struct GuardedStream<S, G, C, R> {
    pub stream: S,
    pub guard: G,
    pub client: C,
    pub token: String,
    pub session_id: String,
    pub message_id: i64,
    pub finished: bool,
    pub sessions: R,
}

impl<S, G, C, R> GuardedStream<S, G, C, R> {
    /// The session that the response belongs to.
    pub open spec fn session(&self) -> SessionText {
        SessionText {
            token: self.token@,
            session_id: self.session_id@,
            message_id: self.message_id,
        }
    }

    /// Guards a stream that has not come to its end.
    pub fn new(
        stream: S,
        guard: G,
        client: C,
        token: String,
        session_id: String,
        message_id: i64,
        sessions: R,
    ) -> (r: Self)
        ensures
            r.stream == stream,
            r.guard == guard,
            r.client == client,
            r.sessions == sessions,
            r.session() == (SessionText {
                token: token@,
                session_id: session_id@,
                message_id,
            }),
            !r.finished,
    {
        GuardedStream {
            stream,
            guard,
            client,
            token,
            session_id,
            message_id,
            finished: false,
            sessions,
        }
    }

    /// Takes what polling the stream gave and says what polling the response gives: items pass
    /// unchanged, an error becomes `Stream` with its message, and the end is noted.
    pub fn poll_next<B>(&mut self, polled: Polled<B, String>) -> (r: Polled<B, CoreError>)
        ensures
            match polled {
                Polled::Pending => r == Polled::<B, CoreError>::Pending,
                Polled::Item(item) => r == Polled::<B, CoreError>::Item(item),
                Polled::Failed(message) => r == Polled::<B, CoreError>::Failed(
                    CoreError::Stream(message),
                ),
                Polled::End => r == Polled::<B, CoreError>::End,
            },
            final(self).finished == (old(self).finished || polled is End),
            final(self).session() == old(self).session(),
            final(self).stream == old(self).stream,
            final(self).guard == old(self).guard,
            final(self).client == old(self).client,
            final(self).sessions == old(self).sessions,
    {
        match polled {
            Polled::Pending => Polled::Pending,
            Polled::Item(item) => Polled::Item(item),
            Polled::Failed(message) => Polled::Failed(CoreError::Stream(message)),
            Polled::End => {
                self.finished = true;
                Polled::End
            },
        }
    }

    /// Gives the response up: takes its session off the list and says how it is cleaned up. It is
    /// deleted in any case; a response that has not come to its end is stopped before that.
    pub fn release(&self, sessions: &mut ActiveSessions) -> (r: Cleanup)
        requires
            old(sessions).wf(),
        ensures
            final(sessions).wf(),
            final(sessions)@ == old(sessions)@.remove(self.session().session_id),
            r@ == cleanup_of(self.session(), self.finished),
    {
        sessions.remove(self.session_id.as_str());
        cleanup_session(
            self.token.as_str(),
            self.session_id.as_str(),
            self.message_id,
            self.finished,
        )
    }
}

} // verus!
