//! The sessions that have a response under way.
use crate::request::{ActiveSession, SessionText, StopStreamPayload};
use crate::text::{chars_of, same_text};
use vstd::prelude::*;

verus! {

/// Whether no two of the sessions have the same id.
pub open spec fn distinct_ids(entries: Seq<ActiveSession>) -> bool {
    forall|i: int, j: int|
        0 <= i < j < entries.len() ==> (#[trigger] entries[i]).session_id@ != (
        #[trigger] entries[j]).session_id@
}

/// Whether one of the sessions has this id.
pub open spec fn lists(entries: Seq<ActiveSession>, id: Seq<char>) -> bool {
    exists|i: int| 0 <= i < entries.len() && (#[trigger] entries[i]).session_id@ == id
}

/// The session of a list that has this id.
pub open spec fn listed(entries: Seq<ActiveSession>, id: Seq<char>) -> SessionText {
    let i = choose|i: int| 0 <= i < entries.len() && (#[trigger] entries[i]).session_id@ == id;
    entries[i]@
}

/// The sessions of a list by their ids.
pub open spec fn by_id(entries: Seq<ActiveSession>) -> Map<Seq<char>, SessionText> {
    Map::new(|id: Seq<char>| lists(entries, id), |id: Seq<char>| listed(entries, id))
}

/// In a list without equal ids every session is found by its id.
pub proof fn lemma_found_by_id(entries: Seq<ActiveSession>, i: int)
    requires
        distinct_ids(entries),
        0 <= i < entries.len(),
    ensures
        by_id(entries).dom().contains(entries[i].session_id@),
        by_id(entries)[entries[i].session_id@] == entries[i]@,
{
    let id = entries[i].session_id@;
    assert(lists(entries, id));
    let j = choose|j: int| 0 <= j < entries.len() && (#[trigger] entries[j]).session_id@ == id;
    assert(j == i);
}

/// What is to be done to be rid of a session: stop its response, if a payload for that is given,
/// and then delete it.
#[derive(Debug, PartialEq, Eq)]
pub struct Cleanup {
    pub token: String,
    pub session_id: String,
    pub stop: Option<StopStreamPayload>,
}

/// What a cleanup says.
pub struct CleanupText {
    pub token: Seq<char>,
    pub session_id: Seq<char>,
    /// The session and the message of the response to stop.
    pub stop: Option<(Seq<char>, i64)>,
}

impl View for Cleanup {
    type V = CleanupText;

    open spec fn view(&self) -> CleanupText {
        CleanupText {
            token: self.token@,
            session_id: self.session_id@,
            stop: match self.stop {
                Some(payload) => Some((payload.chat_session_id@, payload.message_id)),
                None => None,
            },
        }
    }
}

/// How a session is cleaned up whose response has or has not come to its end: one that has not is
/// stopped first.
pub open spec fn cleanup_of(s: SessionText, finished: bool) -> CleanupText {
    CleanupText {
        token: s.token,
        session_id: s.session_id,
        stop: if finished {
            None
        } else {
            Some((s.session_id, s.message_id))
        },
    }
}

/// How a session is cleaned up.
pub fn cleanup_session(token: &str, session_id: &str, message_id: i64, finished: bool) -> (r: Cleanup)
    ensures
        r@ == cleanup_of(
            SessionText { token: token@, session_id: session_id@, message_id },
            finished,
        ),
{
    let stop = if finished {
        None
    } else {
        Some(StopStreamPayload { chat_session_id: session_id.to_owned(), message_id })
    };
    Cleanup { token: token.to_owned(), session_id: session_id.to_owned(), stop }
}

/// The sessions that have a response under way, at most one with the same id.
#[derive(Debug)]
pub struct ActiveSessions {
    entries: Vec<ActiveSession>,
}

impl View for ActiveSessions {
    type V = Map<Seq<char>, SessionText>;

    closed spec fn view(&self) -> Map<Seq<char>, SessionText> {
        by_id(self.entries@)
    }
}

impl ActiveSessions {
    /// No two sessions have the same id.
    pub closed spec fn wf(&self) -> bool {
        distinct_ids(self.entries@)
    }

    /// No session.
    pub fn new() -> (r: ActiveSessions)
        ensures
            r.wf(),
            r@ == Map::<Seq<char>, SessionText>::empty(),
    {
        let r = ActiveSessions { entries: Vec::new() };
        proof {
            assert(r@ =~= Map::<Seq<char>, SessionText>::empty());
        }
        r
    }

    fn position(&self, session_id: &str) -> (r: Option<usize>)
        ensures
            r matches Some(i) ==> i < self.entries@.len() && self.entries@[i as int].session_id@
                == session_id@,
            r is None ==> !lists(self.entries@, session_id@),
    {
        let wanted = chars_of(session_id);
        for i in 0..self.entries.len()
            invariant
                wanted@ == session_id@,
                forall|j: int|
                    0 <= j < i ==> (#[trigger] self.entries@[j]).session_id@ != session_id@,
        {
            let id = chars_of(self.entries[i].session_id.as_str());
            if same_text(id.as_slice(), wanted.as_slice()) {
                return Some(i);
            }
        }
        None
    }

    /// Adds a session, in place of one with the same id.
    pub fn insert(&mut self, session: ActiveSession)
        requires
            old(self).wf(),
        ensures
            final(self).wf(),
            final(self)@ == old(self)@.insert(session@.session_id, session@),
    {
        let ghost before = self.entries@;
        let ghost id = session.session_id@;
        match self.position(session.session_id.as_str()) {
            Some(i) => {
                self.entries.set(i, session);
                proof {
                    assert(self.entries@ =~= before.update(i as int, session));
                }
            },
            None => {
                self.entries.push(session);
                proof {
                    assert(self.entries@ =~= before.push(session));
                    assert forall|j: int| 0 <= j < before.len() implies (
                    #[trigger] before[j]).session_id@ != id by {
                        if before[j].session_id@ == id {
                            assert(lists(before, id));
                        }
                    }
                }
            },
        }
        proof {
            let after = self.entries@;
            let k = if lists(before, id) {
                choose|k: int| 0 <= k < before.len() && (#[trigger] before[k]).session_id@ == id
            } else {
                before.len() as int
            };
            assert(after[k] == session);
            assert(forall|j: int| 0 <= j < before.len() && j != k ==> after[j] == before[j]);
            assert(distinct_ids(after));
            lemma_found_by_id(after, k);
            assert forall|x: Seq<char>| #[trigger]
                by_id(after).dom().contains(x) == by_id(before).insert(id, session@).dom().contains(
                    x,
                ) by {
                if lists(before, x) {
                    let j = choose|j: int|
                        0 <= j < before.len() && (#[trigger] before[j]).session_id@ == x;
                    if j != k {
                        assert(after[j].session_id@ == x);
                    }
                }
                if lists(after, x) {
                    let j = choose|j: int|
                        0 <= j < after.len() && (#[trigger] after[j]).session_id@ == x;
                    if j != k {
                        assert(before[j].session_id@ == x);
                    }
                }
            }
            assert forall|x: Seq<char>| #[trigger]
                by_id(after).dom().contains(x) implies by_id(after)[x] == by_id(before).insert(
                id,
                session@,
            )[x] by {
                let j = choose|j: int|
                    0 <= j < after.len() && (#[trigger] after[j]).session_id@ == x;
                lemma_found_by_id(after, j);
                if j != k {
                    lemma_found_by_id(before, j);
                    assert(after[j].session_id@ != after[k].session_id@);
                }
            }
            assert(by_id(after) =~= by_id(before).insert(id, session@));
        }
    }

    /// Removes the session with this id, if there is one.
    pub fn remove(&mut self, session_id: &str)
        requires
            old(self).wf(),
        ensures
            final(self).wf(),
            final(self)@ == old(self)@.remove(session_id@),
    {
        let ghost before = self.entries@;
        let ghost id = session_id@;
        if let Some(i) = self.position(session_id) {
            let removed = self.entries.remove(i);
            proof {
                let after = self.entries@;
                let k = i as int;
                assert(after =~= before.remove(k));
                assert forall|a: int, b: int| 0 <= a < b < after.len() implies (
                #[trigger] after[a]).session_id@ != (#[trigger] after[b]).session_id@ by {
                    let a0 = if a < k { a } else { a + 1 };
                    let b0 = if b < k { b } else { b + 1 };
                    assert(after[a] == before[a0]);
                    assert(after[b] == before[b0]);
                }
                assert forall|x: Seq<char>| #[trigger]
                    by_id(after).dom().contains(x) == by_id(before).remove(id).dom().contains(
                        x,
                    ) by {
                    if lists(after, x) {
                        let j = choose|j: int|
                            0 <= j < after.len() && (#[trigger] after[j]).session_id@ == x;
                        let j0 = if j < k { j } else { j + 1 };
                        assert(before[j0].session_id@ == x);
                        assert(before[k].session_id@ == id);
                    }
                    if lists(before, x) && x != id {
                        let j = choose|j: int|
                            0 <= j < before.len() && (#[trigger] before[j]).session_id@ == x;
                        let j0 = if j < k { j } else { j - 1 };
                        assert(after[j0].session_id@ == x);
                    }
                }
                assert forall|x: Seq<char>| #[trigger]
                    by_id(after).dom().contains(x) implies by_id(after)[x] == by_id(before).remove(
                    id,
                )[x] by {
                    let j = choose|j: int|
                        0 <= j < after.len() && (#[trigger] after[j]).session_id@ == x;
                    let j0 = if j < k { j } else { j + 1 };
                    lemma_found_by_id(after, j);
                    lemma_found_by_id(before, j0);
                }
            }
        }
        proof {
            assert(by_id(self.entries@) =~= by_id(before).remove(id));
        }
    }

    /// Takes all sessions out and gives, for each of them, how it is cleaned up: its response is
    /// stopped and it is deleted. The order is of no account.
    pub fn drain(&mut self) -> (r: Vec<Cleanup>)
        requires
            old(self).wf(),
        ensures
            final(self).wf(),
            final(self)@ == Map::<Seq<char>, SessionText>::empty(),
            forall|i: int|
                0 <= i < r@.len() ==> old(self)@.dom().contains((#[trigger] r@[i])@.session_id)
                    && r@[i]@ == cleanup_of(old(self)@[r@[i]@.session_id], false),
            forall|i: int, j: int|
                0 <= i < j < r@.len() ==> (#[trigger] r@[i])@.session_id != (
                #[trigger] r@[j])@.session_id,
            forall|id: Seq<char>| #[trigger]
                old(self)@.dom().contains(id) ==> exists|i: int|
                    0 <= i < r@.len() && (#[trigger] r@[i])@.session_id == id,
    {
        let ghost before = self.entries@;
        let mut r: Vec<Cleanup> = Vec::new();
        for i in 0..self.entries.len()
            invariant
                self.entries@ == before,
                r@.len() == i,
                forall|j: int|
                    0 <= j < i ==> (#[trigger] r@[j])@ == cleanup_of(before[j]@, false),
        {
            let session = &self.entries[i];
            r.push(
                cleanup_session(
                    session.token.as_str(),
                    session.session_id.as_str(),
                    session.message_id,
                    false,
                ),
            );
        }
        self.entries = Vec::new();
        proof {
            assert(self@ =~= Map::<Seq<char>, SessionText>::empty());
            assert forall|i: int| 0 <= i < r@.len() implies by_id(before).dom().contains(
                (#[trigger] r@[i])@.session_id,
            ) && r@[i]@ == cleanup_of(by_id(before)[r@[i]@.session_id], false) by {
                lemma_found_by_id(before, i);
            }
            assert forall|i: int, j: int| 0 <= i < j < r@.len() implies (
            #[trigger] r@[i])@.session_id != (#[trigger] r@[j])@.session_id by {
                assert(before[i].session_id@ != before[j].session_id@);
            }
            assert forall|id: Seq<char>| #[trigger]
                by_id(before).dom().contains(id) implies exists|i: int|
                0 <= i < r@.len() && (#[trigger] r@[i])@.session_id == id by {
                let i = choose|i: int|
                    0 <= i < before.len() && (#[trigger] before[i]).session_id@ == id;
                assert(r@[i]@.session_id == id);
            }
        }
        r
    }
}

} // verus!
