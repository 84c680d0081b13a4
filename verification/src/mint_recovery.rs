//! Recovery after a failed mint operation: at most one recovery per mint at
//! a time, proofs of later failures queued for the recovery under way, and
//! what the recovery does with each proof by the state the mint reports.
use vstd::prelude::*;
use crate::keyset::string_views;
use crate::proof_recovery::{CheckedProof, MintProofState, secrets_in};
use crate::strmap::StrMap;
use crate::types::{ProofData, normalize_mint_url, normalized_mint};

verus! {

/// Recovery state of one mint.
pub struct MintRecoveryState {
    /// A recovery for the mint is under way.
    pub in_recovery: bool,
    /// Proofs of later failures, waiting for that recovery.
    pub pending_proofs: Vec<ProofData>,
}

/// A mint's recovery state as plain values.
pub open spec fn recovery_view(s: MintRecoveryState) -> (bool, Seq<ProofData>) {
    (s.in_recovery, s.pending_proofs@)
}

/// The state of mint `k`, or that of a mint with no recovery.
pub open spec fn state_or_idle(m: Map<Seq<char>, (bool, Seq<ProofData>)>, k: Seq<char>) -> (bool, Seq<ProofData>) {
    if m.contains_key(k) {
        m[k]
    } else {
        (false, Seq::empty())
    }
}

/// The states after a failed operation of mint `k` hands over `proofs`:
/// queued behind a recovery under way, else the mint enters recovery.
pub open spec fn after_failure(m: Map<Seq<char>, (bool, Seq<ProofData>)>, k: Seq<char>, proofs: Seq<ProofData>) -> Map<Seq<char>, (bool, Seq<ProofData>)> {
    let s = state_or_idle(m, k);
    if s.0 {
        m.insert(k, (true, s.1 + proofs))
    } else {
        m.insert(k, (true, s.1))
    }
}

/// The proofs a failed operation gets back to recover itself: none while a
/// recovery of the mint is under way.
pub open spec fn failure_handback(m: Map<Seq<char>, (bool, Seq<ProofData>)>, k: Seq<char>, proofs: Seq<ProofData>) -> Option<Seq<ProofData>> {
    if state_or_idle(m, k).0 {
        None
    } else {
        Some(proofs)
    }
}

/// The states after the recovery of mint `k` takes its queue: emptied, or,
/// when it was empty, the mint's state dropped.
pub open spec fn after_take(m: Map<Seq<char>, (bool, Seq<ProofData>)>, k: Seq<char>) -> Map<Seq<char>, (bool, Seq<ProofData>)> {
    let s = state_or_idle(m, k);
    if s.1.len() == 0 {
        m.remove(k)
    } else {
        m.insert(k, (s.0, Seq::empty()))
    }
}

/// The queued proofs a take hands back, none when the queue was empty.
pub open spec fn take_handback(m: Map<Seq<char>, (bool, Seq<ProofData>)>, k: Seq<char>) -> Option<Seq<ProofData>> {
    let s = state_or_idle(m, k);
    if s.1.len() == 0 {
        None
    } else {
        Some(s.1)
    }
}

/// The recovery states of all mints, keyed by normalized mint URL.
pub struct MintRecoveryQueue {
    states: StrMap<MintRecoveryState>,
}

impl MintRecoveryQueue {
    /// Each mint's state.
    pub closed spec fn view(&self) -> Map<Seq<char>, (bool, Seq<ProofData>)> {
        self.states.view().map_values(|s: MintRecoveryState| recovery_view(s))
    }

    /// Well-formed.
    pub closed spec fn wf(&self) -> bool {
        self.states.wf()
    }

    /// No recovery anywhere.
    pub fn new() -> (r: Self)
        ensures
            r.wf(),
            r@ == Map::<Seq<char>, (bool, Seq<ProofData>)>::empty(),
    {
        let r = MintRecoveryQueue { states: StrMap::new() };
        assert(r@ =~= Map::<Seq<char>, (bool, Seq<ProofData>)>::empty());
        r
    }

    /// Takes a mint's state out, leaving the idle state's values.
    fn take_state(&mut self, key: &String) -> (r: (bool, Vec<ProofData>))
        requires
            old(self).wf(),
        ensures
            final(self).wf(),
            final(self)@ == old(self)@.remove(key@),
            (r.0, r.1@) == state_or_idle(old(self)@, key@),
    {
        let taken = self.states.take(key.as_str());
        assert(self@ =~= old(self)@.remove(key@));
        match taken {
            Some(s) => (s.in_recovery, s.pending_proofs),
            None => (false, Vec::new()),
        }
    }

    /// Puts a mint's state back.
    fn put_state(&mut self, key: &String, in_recovery: bool, pending_proofs: Vec<ProofData>)
        requires
            old(self).wf(),
        ensures
            final(self).wf(),
            final(self)@ == old(self)@.insert(key@, (in_recovery, pending_proofs@)),
    {
        let ghost p = pending_proofs@;
        self.states.insert(key.as_str(), MintRecoveryState { in_recovery, pending_proofs });
        assert(self@ =~= old(self)@.insert(key@, (in_recovery, p)));
    }

    /// A failed operation hands over its proofs. While a recovery for the
    /// mint is under way they join its queue and nothing comes back;
    /// otherwise the mint is marked in recovery and the proofs come back for
    /// the caller to recover.
    pub fn begin_or_queue(&mut self, mint_url: &str, proofs: Vec<ProofData>) -> (r: Option<Vec<ProofData>>)
        requires
            old(self).wf(),
        ensures
            final(self).wf(),
            final(self)@ == after_failure(old(self)@, normalized_mint(mint_url@), proofs@),
            failure_handback(old(self)@, normalized_mint(mint_url@), proofs@) matches Some(p) ==> r matches Some(v) && v@ == p,
            failure_handback(old(self)@, normalized_mint(mint_url@), proofs@) is None ==> r is None,
    {
        let key = normalize_mint_url(mint_url);
        let (busy, mut queued) = self.take_state(&key);
        if busy {
            let mut more = proofs;
            queued.append(&mut more);
            self.put_state(&key, true, queued);
            assert(self@ =~= old(self)@.insert(key@, (true, state_or_idle(old(self)@, key@).1 + proofs@)));
            None
        } else {
            self.put_state(&key, true, queued);
            assert(self@ =~= old(self)@.insert(key@, (true, state_or_idle(old(self)@, key@).1)));
            Some(proofs)
        }
    }

    /// The recovery under way takes the proofs queued since it began. When
    /// none are queued the recovery ends: the mint's state is dropped and
    /// nothing comes back.
    pub fn take_queued(&mut self, mint_url: &str) -> (r: Option<Vec<ProofData>>)
        requires
            old(self).wf(),
        ensures
            final(self).wf(),
            final(self)@ == after_take(old(self)@, normalized_mint(mint_url@)),
            take_handback(old(self)@, normalized_mint(mint_url@)) matches Some(p) ==> r matches Some(v) && v@ == p,
            take_handback(old(self)@, normalized_mint(mint_url@)) is None ==> r is None,
    {
        let key = normalize_mint_url(mint_url);
        let (busy, queued) = self.take_state(&key);
        if queued.len() == 0 {
            None
        } else {
            self.put_state(&key, busy, Vec::new());
            assert(self@ =~= old(self)@.insert(key@, (busy, Seq::<ProofData>::empty())));
            Some(queued)
        }
    }

    /// Whether a recovery for the mint is under way.
    pub fn is_recovering(&self, mint_url: &str) -> (r: bool)
        requires
            self.wf(),
        ensures
            r == state_or_idle(self@, normalized_mint(mint_url@)).0,
    {
        let key = normalize_mint_url(mint_url);
        match self.states.get(key.as_str()) {
            Some(s) => s.in_recovery,
            None => false,
        }
    }
}

/// The mint holds the proof back: pending or reserved.
pub open spec fn held_at_mint(st: MintProofState) -> bool {
    st == MintProofState::Pending || st == MintProofState::Reserved
}

/// Secrets of the checked proofs that the mint holds back, in order.
pub open spec fn secrets_held(checked: Seq<CheckedProof>) -> Seq<Seq<char>>
    decreases checked.len(),
{
    if checked.len() == 0 {
        Seq::empty()
    } else {
        let rest = secrets_held(checked.drop_last());
        if held_at_mint(checked.last().2) { rest.push(checked.last().0@) } else { rest }
    }
}

/// What recovering proofs does, by the state the mint reports for each:
/// the secrets to mark spent, to record as pending at the mint (pending or
/// reserved there) and to return to spendable, each in order. Proofs in
/// any other state are left alone.
pub fn recovery_actions(checked: &Vec<CheckedProof>) -> (r: (Vec<String>, Vec<String>, Vec<String>))
    ensures
        string_views(r.0@) == secrets_in(checked@, MintProofState::Spent),
        string_views(r.1@) == secrets_held(checked@),
        string_views(r.2@) == secrets_in(checked@, MintProofState::Unspent),
{
    let mut spent: Vec<String> = Vec::new();
    let mut held: Vec<String> = Vec::new();
    let mut unspent: Vec<String> = Vec::new();
    for i in 0..checked.len()
        invariant
            string_views(spent@) == secrets_in(checked@.take(i as int), MintProofState::Spent),
            string_views(held@) == secrets_held(checked@.take(i as int)),
            string_views(unspent@) == secrets_in(checked@.take(i as int), MintProofState::Unspent),
    {
        assert(checked@.take(i + 1).drop_last() =~= checked@.take(i as int));
        let ghost s0 = spent@;
        let ghost h0 = held@;
        let ghost u0 = unspent@;
        let st = checked[i].2;
        match st {
            MintProofState::Spent => {
                spent.push(checked[i].0.clone());
                assert(string_views(spent@) =~= string_views(s0).push(checked@[i as int].0@));
            },
            MintProofState::Pending | MintProofState::Reserved => {
                held.push(checked[i].0.clone());
                assert(string_views(held@) =~= string_views(h0).push(checked@[i as int].0@));
            },
            MintProofState::Unspent => {
                unspent.push(checked[i].0.clone());
                assert(string_views(unspent@) =~= string_views(u0).push(checked@[i as int].0@));
            },
            MintProofState::PendingSpent => {},
        }
    }
    assert(checked@.take(checked.len() as int) =~= checked@);
    (spent, held, unspent)
}

} // verus!
