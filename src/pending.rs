//! The table of calls waiting for their reply: each correlation token maps to
//! the one-shot slot through which the caller gets its outcome. A slot is
//! handed out of the table at most once, to whichever of the reply or the
//! timeout claims it first.
use crate::message::Key;
use vstd::prelude::*;

verus! {

pub struct PendingCalls<S> {
    entries: Vec<(Key, S)>,
    model: Ghost<Map<Seq<u8>, S>>,
}

impl<S> PendingCalls<S> {
    /// The pending calls, by token.
    pub closed spec fn view(&self) -> Map<Seq<u8>, S> {
        self.model@
    }

    /// Tokens are distinct, and the entries hold exactly the map of the view.
    pub closed spec fn wf(&self) -> bool {
        &&& forall|i: int, j: int|
            0 <= i < j < self.entries@.len() ==> self.entries@[i].0@ != self.entries@[j].0@
        &&& forall|i: int|
            0 <= i < self.entries@.len() ==> #[trigger] self.model@.contains_key(
                self.entries@[i].0@,
            ) && self.model@[self.entries@[i].0@] == self.entries@[i].1
        &&& forall|k: Seq<u8>|
            #[trigger] self.model@.contains_key(k) ==> exists|i: int|
                0 <= i < self.entries@.len() && self.entries@[i].0@ == k
    }

    pub fn new() -> (r: PendingCalls<S>)
        ensures
            r.wf(),
            r@ == Map::<Seq<u8>, S>::empty(),
    {
        PendingCalls { entries: Vec::new(), model: Ghost(Map::empty()) }
    }

    fn find(&self, token: &Key) -> (r: Option<usize>)
        requires
            self.wf(),
        ensures
            r matches Some(i) ==> i < self.entries@.len() && self.entries@[i as int].0@ == token@,
            r is None ==> !self@.contains_key(token@),
    {
        let mut i: usize = 0;
        while i < self.entries.len()
            invariant
                i <= self.entries@.len(),
                forall|j: int| 0 <= j < i ==> self.entries@[j].0@ != token@,
            decreases self.entries@.len() - i,
        {
            if self.entries[i].0.same(token) {
                return Some(i);
            }
            i = i + 1;
        }
        None
    }

    /// Whether a call with this token is waiting.
    pub fn contains(&self, token: &Key) -> (r: bool)
        requires
            self.wf(),
        ensures
            r == self@.contains_key(token@),
    {
        self.find(token).is_some()
    }

    /// Adds a waiting call; refuses (handing the slot back) a token that is
    /// already waiting, so that no two outstanding calls share a token.
    pub fn register(&mut self, token: Key, slot: S) -> (r: Result<(), S>)
        requires
            old(self).wf(),
        ensures
            final(self).wf(),
            r is Ok <==> !old(self)@.contains_key(token@),
            r is Ok ==> final(self)@ == old(self)@.insert(token@, slot),
            r is Err ==> final(self)@ == old(self)@,
            r matches Err(s) ==> s == slot,
    {
        if self.find(&token).is_some() {
            return Err(slot);
        }
        let ghost k = token@;
        let ghost old_entries = self.entries@;
        self.model = Ghost(self.model@.insert(k, slot));
        self.entries.push((token, slot));
        assert forall|i: int| 0 <= i < self.entries@.len() implies #[trigger] self.model@.contains_key(
            self.entries@[i].0@,
        ) && self.model@[self.entries@[i].0@] == self.entries@[i].1 by {
            if i < old_entries.len() {
                assert(self.entries@[i] == old_entries[i]);
            }
        }
        assert forall|kk: Seq<u8>| #[trigger] self.model@.contains_key(kk) implies exists|i: int|
            0 <= i < self.entries@.len() && self.entries@[i].0@ == kk by {
            if kk == k {
                assert(self.entries@[old_entries.len() as int].0@ == kk);
            } else {
                let i = choose|i: int| 0 <= i < old_entries.len() && old_entries[i].0@ == kk;
                assert(self.entries@[i] == old_entries[i]);
            }
        }
        Ok(())
    }

    /// Takes the slot of a waiting call out of the table, if it is still
    /// there. Whoever gets `Some` is the one who delivers the outcome.
    pub fn claim(&mut self, token: &Key) -> (r: Option<S>)
        requires
            old(self).wf(),
        ensures
            final(self).wf(),
            (final(self)@, r is Some) == claim_outcome(old(self)@, token@),
            r matches Some(s) ==> s == old(self)@[token@],
    {
        match self.find(token) {
            None => None,
            Some(i) => {
                let ghost k = token@;
                let ghost old_entries = self.entries@;
                let ghost old_model = self.model@;
                assert(old_model.contains_key(old_entries[i as int].0@));
                let (_, slot) = self.entries.remove(i);
                assert(slot == old_model[k]);
                self.model = Ghost(self.model@.remove(k));
                assert forall|a: int, b: int|
                    0 <= a < b < self.entries@.len() implies self.entries@[a].0@
                    != self.entries@[b].0@ by {
                    let oa = if a < i { a } else { a + 1 };
                    let ob = if b < i { b } else { b + 1 };
                    assert(self.entries@[a] == old_entries[oa]);
                    assert(self.entries@[b] == old_entries[ob]);
                }
                assert forall|a: int| 0 <= a < self.entries@.len() implies #[trigger] self.model@.contains_key(
                    self.entries@[a].0@,
                ) && self.model@[self.entries@[a].0@] == self.entries@[a].1 by {
                    let oa = if a < i { a } else { a + 1 };
                    assert(self.entries@[a] == old_entries[oa]);
                    assert(old_model.contains_key(old_entries[oa].0@));
                }
                assert forall|kk: Seq<u8>| #[trigger] self.model@.contains_key(kk) implies exists|
                    a: int,
                |
                    0 <= a < self.entries@.len() && self.entries@[a].0@ == kk by {
                    assert(old_model.contains_key(kk));
                    let j = choose|j: int| 0 <= j < old_entries.len() && old_entries[j].0@ == kk;
                    assert(j != i);
                    if j < i {
                        assert(self.entries@[j] == old_entries[j]);
                    } else {
                        assert(self.entries@[j - 1] == old_entries[j]);
                    }
                }
                Some(slot)
            },
        }
    }
}

/// The table after a claim of `t`, and whether that claim got the slot.
pub open spec fn claim_outcome<S>(m: Map<Seq<u8>, S>, t: Seq<u8>) -> (Map<Seq<u8>, S>, bool) {
    if m.contains_key(t) {
        (m.remove(t), true)
    } else {
        (m, false)
    }
}

/// The table after a run of claims, each by a reply or a timeout.
pub open spec fn after_claims<S>(m: Map<Seq<u8>, S>, claims: Seq<Seq<u8>>) -> Map<Seq<u8>, S>
    decreases claims.len(),
{
    if claims.len() == 0 {
        m
    } else {
        after_claims(claim_outcome(m, claims[0]).0, claims.drop_first())
    }
}

/// How many claims of the run hand out the slot of `t`.
pub open spec fn deliveries<S>(m: Map<Seq<u8>, S>, claims: Seq<Seq<u8>>, t: Seq<u8>) -> nat
    decreases claims.len(),
{
    if claims.len() == 0 {
        0
    } else {
        (if claims[0] == t && m.contains_key(t) {
            1nat
        } else {
            0nat
        }) + deliveries(claim_outcome(m, claims[0]).0, claims.drop_first(), t)
    }
}

/// Whatever the order in which replies and timeouts claim calls, the slot of
/// a call is handed out at most once; exactly once if the call was waiting and
/// its token is claimed at all (its timeout always claims it), and never if it
/// was not waiting (an unsolicited, late or duplicate reply). Once its token
/// has been claimed, the call is no longer in the table.
pub proof fn lemma_exactly_once<S>(m: Map<Seq<u8>, S>, claims: Seq<Seq<u8>>, t: Seq<u8>)
    ensures
        deliveries(m, claims, t) <= 1,
        deliveries(m, claims, t) == 1 <==> (m.contains_key(t) && claims.contains(t)),
        claims.contains(t) ==> !after_claims(m, claims).contains_key(t),
        !m.contains_key(t) ==> !after_claims(m, claims).contains_key(t),
    decreases claims.len(),
{
    if claims.len() > 0 {
        let next = claim_outcome(m, claims[0]).0;
        let rest = claims.drop_first();
        lemma_exactly_once(next, rest, t);
        if claims[0] == t {
            assert(!next.contains_key(t));
            assert(claims.contains(t));
        } else {
            assert(next.contains_key(t) == m.contains_key(t));
            if claims.contains(t) {
                let j = choose|j: int| 0 <= j < claims.len() && claims[j] == t;
                assert(rest[j - 1] == t);
            }
            if rest.contains(t) {
                let j = choose|j: int| 0 <= j < rest.len() && rest[j] == t;
                assert(claims[j + 1] == t);
            }
        }
    }
}

} // verus!
