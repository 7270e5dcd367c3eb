use vstd::prelude::*;

use crate::game_engine::types::{GameId, GameSession, PlayerId};

verus! {

/// Two sessions belong to the same (game, player) key.
pub open spec fn same_key(a: GameSession, b: GameSession) -> bool {
    &&& a.game_id == b.game_id
    &&& a.player_id.channel_id@ == b.player_id.channel_id@
    &&& a.player_id.id@ == b.player_id.id@
}

/// The session carries the given key.
pub open spec fn has_key(s: GameSession, game_id: GameId, player_id: PlayerId) -> bool {
    &&& s.game_id == game_id
    &&& s.player_id.channel_id@ == player_id.channel_id@
    &&& s.player_id.id@ == player_id.id@
}

/// The two sessions hold the same data.
pub open spec fn session_equiv(a: GameSession, b: GameSession) -> bool {
    &&& a.game_id == b.game_id
    &&& a.player_id.channel_id@ == b.player_id.channel_id@
    &&& a.player_id.id@ == b.player_id.id@
    &&& a.state == b.state
    &&& a.results@ == b.results@
    &&& a.score == b.score
}

/// A process-local session store holding at most one session per
/// (game, player) key.
pub struct InMemorySessionRepository {
    store: Vec<GameSession>,
}

impl Default for InMemorySessionRepository {
    fn default() -> (r: Self)
        ensures
            r.wf(),
            r@.len() == 0,
    {
        InMemorySessionRepository { store: Vec::new() }
    }
}

impl View for InMemorySessionRepository {
    type V = Seq<GameSession>;

    closed spec fn view(&self) -> Seq<GameSession> {
        self.store@
    }
}

impl InMemorySessionRepository {
    /// At most one session per key.
    pub open spec fn wf(self) -> bool {
        forall|i: int, j: int|
            0 <= i < j < self@.len() ==> !same_key(#[trigger] self@[i], #[trigger] self@[j])
    }

    /// Returns the stored session for the key, if there is one.
    pub fn get_by_id(&self, game_id: GameId, player_id: &PlayerId) -> (r: Option<GameSession>)
        ensures
            match r {
                Some(s) => exists|i: int|
                    0 <= i < self@.len() && has_key(#[trigger] self@[i], game_id, *player_id)
                        && session_equiv(s, self@[i]),
                None => forall|i: int|
                    0 <= i < self@.len() ==> !has_key(#[trigger] self@[i], game_id, *player_id),
            },
    {
        let n = self.store.len();
        for i in 0..n
            invariant
                n == self@.len(),
                forall|j: int| 0 <= j < i ==> !has_key(#[trigger] self@[j], game_id, *player_id),
        {
            let candidate = &self.store[i];
            if candidate.game_id == game_id && candidate.player_id == *player_id {
                return Some(candidate.clone());
            }
        }
        None
    }

    /// Stores the session under its own key, replacing any session already
    /// stored for that key and leaving every other key untouched.
    pub fn store(&mut self, session: &GameSession)
        requires
            old(self).wf(),
        ensures
            final(self).wf(),
            exists|i: int|
                0 <= i < final(self)@.len() && session_equiv(#[trigger] final(self)@[i], *session),
            forall|i: int|
                0 <= i < final(self)@.len() && !same_key(#[trigger] final(self)@[i], *session)
                    ==> exists|j: int| 0 <= j < old(self)@.len() && final(self)@[i] == old(
                    self,
                )@[j],
            forall|j: int|
                0 <= j < old(self)@.len() && !same_key(#[trigger] old(self)@[j], *session)
                    ==> exists|i: int| 0 <= i < final(self)@.len() && final(self)@[i] == old(
                    self,
                )@[j],
    {
        let n = self.store.len();
        let mut i: usize = 0;
        while i < n
            invariant
                n == self@.len(),
                i <= n,
                self == old(self),
                old(self).wf(),
                forall|j: int| 0 <= j < i ==> !same_key(#[trigger] self@[j], *session),
            decreases n - i,
        {
            let candidate = &self.store[i];
            if candidate.game_id == session.game_id && candidate.player_id == session.player_id {
                let ghost before = self@;
                self.store.remove(i);
                self.store.push(session.clone());
                proof {
                    assert(session_equiv(self@[self@.len() - 1], *session));
                    lemma_store_replaced(before, self@, i as int, *session);
                }
                return ;
            }
            i += 1;
        }
        self.store.push(session.clone());
        proof {
            assert(session_equiv(self@[self@.len() - 1], *session));
            assert(forall|j: int| 0 <= j < old(self)@.len() ==> self@[j] == old(self)@[j]);
        }
    }
}

proof fn lemma_store_replaced(
    before: Seq<GameSession>,
    after: Seq<GameSession>,
    i: int,
    session: GameSession,
)
    requires
        0 <= i < before.len(),
        forall|a: int, b: int|
            0 <= a < b < before.len() ==> !same_key(#[trigger] before[a], #[trigger] before[b]),
        forall|j: int| 0 <= j < i ==> !same_key(#[trigger] before[j], session),
        same_key(before[i], session),
        session_equiv(after[after.len() - 1], session),
        after == before.remove(i).push(after[after.len() - 1]),
    ensures
        forall|a: int, b: int|
            0 <= a < b < after.len() ==> !same_key(#[trigger] after[a], #[trigger] after[b]),
        forall|k: int|
            0 <= k < after.len() && !same_key(#[trigger] after[k], session) ==> exists|j: int|
                0 <= j < before.len() && after[k] == before[j],
        forall|j: int|
            0 <= j < before.len() && !same_key(#[trigger] before[j], session) ==> exists|k: int|
                0 <= k < after.len() && after[k] == before[j],
{
    let removed = before.remove(i);
    assert forall|k: int| 0 <= k < after.len() - 1 implies (after[k] == if k < i {
        before[k]
    } else {
        before[k + 1]
    }) by {
        assert(after[k] == removed[k]);
    }
    assert forall|a: int, b: int| 0 <= a < b < after.len() implies !same_key(
        #[trigger] after[a],
        #[trigger] after[b],
    ) by {
        if b < after.len() - 1 {
        } else {
            // b is the freshly stored session; a maps to an element of
            // `before` other than index i, which has a different key.
            if a < i {
                assert(after[a] == before[a]);
                assert(!same_key(before[a], before[i]));
            } else {
                assert(after[a] == before[a + 1]);
                assert(!same_key(before[i], before[a + 1]));
            }
        }
    }
    assert forall|k: int|
        0 <= k < after.len() && !same_key(#[trigger] after[k], session) implies exists|j: int|
        0 <= j < before.len() && after[k] == before[j] by {
        if k < i {
            assert(after[k] == before[k]);
        } else if k < after.len() - 1 {
            assert(after[k] == before[k + 1]);
        } else {
            assert(same_key(after[k], session));
        }
    }
    assert forall|j: int|
        0 <= j < before.len() && !same_key(#[trigger] before[j], session) implies exists|k: int|
        0 <= k < after.len() && after[k] == before[j] by {
        if j < i {
            assert(after[j] == before[j]);
        } else if j > i {
            assert(after[j - 1] == before[j]);
        } else {
            assert(same_key(before[j], session));
        }
    }
}

} // verus!
