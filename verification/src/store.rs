//! The wallet's token list: proof state transitions, queries by mint, and
//! replacement of token events.
use vstd::prelude::*;
use vstd::string::*;
use crate::keyset::{contains_string, mint_proofs, proofs_of_mint, string_views};
use crate::proof_recovery::token_fields;
use crate::proofs::spendable;
use crate::text::{chars_of, has_prefix, starts_with};
use crate::types::{ProofData, ProofState, TokenData, clone_proofs};

verus! {

/// A change of local state applied to selected proofs.
#[derive(Debug, Clone, Copy, PartialEq, Eq, Structural)]
pub enum ProofTransition {
    /// Reserved for transaction `tx_id` at time `now`.
    Reserve { tx_id: u64, now: u64 },
    /// Spent: out of any transaction, no timestamp.
    Spend,
    /// Back to spendable: out of any transaction, no timestamp.
    Revert,
}

/// A proof after a transition.
pub open spec fn transitioned(p: ProofData, t: ProofTransition) -> ProofData {
    match t {
        ProofTransition::Reserve { tx_id, now } => ProofData {
            state: ProofState::Reserved,
            transaction_id: Some(tx_id),
            state_set_at: Some(now),
            ..p
        },
        ProofTransition::Spend => ProofData { state: ProofState::Spent, transaction_id: None, state_set_at: None, ..p },
        ProofTransition::Revert => ProofData {
            state: ProofState::Unspent,
            transaction_id: None,
            state_set_at: None,
            ..p
        },
    }
}

/// A proof after a transition of the proofs whose secret is in `secrets`.
pub open spec fn marked(p: ProofData, secrets: Seq<Seq<char>>, t: ProofTransition) -> ProofData {
    if secrets.contains(p.secret@) { transitioned(p, t) } else { p }
}

/// The tokens after a transition of the proofs whose secret is in `secrets`:
/// every token stays, in place, with its proofs marked one by one.
pub open spec fn marked_tokens(tokens: Seq<TokenData>, secrets: Seq<Seq<char>>, t: ProofTransition) -> Seq<(String, String, String, Seq<ProofData>, u64)> {
    tokens.map_values(
        |tk: TokenData|
            (tk.event_id, tk.mint, tk.unit, tk.proofs@.map_values(|p: ProofData| marked(p, secrets, t)), tk.created_at),
    )
}

/// A proof after the transition, computed.
fn apply_to_proof(p: &ProofData, t: ProofTransition) -> (r: ProofData)
    ensures
        r == transitioned(*p, t),
{
    let mut q = p.clone();
    match t {
        ProofTransition::Reserve { tx_id, now } => {
            q.state = ProofState::Reserved;
            q.transaction_id = Some(tx_id);
            q.state_set_at = Some(now);
        },
        ProofTransition::Spend => {
            q.state = ProofState::Spent;
            q.transaction_id = None;
            q.state_set_at = None;
        },
        ProofTransition::Revert => {
            q.state = ProofState::Unspent;
            q.transaction_id = None;
            q.state_set_at = None;
        },
    }
    q
}

/// Applies a transition to every proof, of any token, whose secret is listed.
fn apply_transition(tokens: &mut Vec<TokenData>, proof_secrets: &Vec<String>, t: ProofTransition)
    ensures
        final(tokens)@.map_values(|tk: TokenData| token_fields(tk)) == marked_tokens(
            old(tokens)@,
            string_views(proof_secrets@),
            t,
        ),
{
    let ghost sv = string_views(proof_secrets@);
    let ghost old_tokens = tokens@;
    let mut out: Vec<TokenData> = Vec::new();
    for i in 0..tokens.len()
        invariant
            tokens@ == old_tokens,
            sv == string_views(proof_secrets@),
            out@.len() == i,
            out@.map_values(|tk: TokenData| token_fields(tk)) == marked_tokens(old_tokens.take(i as int), sv, t),
    {
        let tk = &tokens[i];
        let mut ps: Vec<ProofData> = Vec::new();
        for k in 0..tk.proofs.len()
            invariant
                sv == string_views(proof_secrets@),
                ps@ == tk.proofs@.take(k as int).map_values(|p: ProofData| marked(p, sv, t)),
        {
            let q = if contains_string(proof_secrets, &tk.proofs[k].secret) {
                apply_to_proof(&tk.proofs[k], t)
            } else {
                tk.proofs[k].clone()
            };
            ps.push(q);
            assert(ps@ =~= tk.proofs@.take(k + 1).map_values(|p: ProofData| marked(p, sv, t)));
        }
        assert(tk.proofs@.take(tk.proofs.len() as int) =~= tk.proofs@);
        let ghost before = out@;
        out.push(
            TokenData {
                event_id: tk.event_id.clone(),
                mint: tk.mint.clone(),
                unit: tk.unit.clone(),
                proofs: ps,
                created_at: tk.created_at,
            },
        );
        proof {
            let a = out@.map_values(|tk: TokenData| token_fields(tk));
            let b = marked_tokens(old_tokens.take(i + 1), sv, t);
            let c = marked_tokens(old_tokens.take(i as int), sv, t);
            assert forall|k: int| 0 <= k < a.len() implies a[k] == b[k] by {
                if k < i {
                    assert(a[k] == token_fields(before[k]));
                    assert(before.map_values(|tk: TokenData| token_fields(tk))[k] == c[k]);
                    assert(old_tokens.take(i + 1)[k] == old_tokens.take(i as int)[k]);
                } else {
                    assert(old_tokens.take(i + 1)[k] == old_tokens[i as int]);
                }
            }
            assert(a =~= b);
        }
    }
    assert(old_tokens.take(old_tokens.len() as int) =~= old_tokens);
    *tokens = out;
}

/// Marks the listed proofs Reserved for transaction `tx_id`, stamped `now`
/// (before sending ecash).
pub fn move_proofs_to_reserved(tokens: &mut Vec<TokenData>, proof_secrets: &Vec<String>, tx_id: u64, now: u64)
    ensures
        final(tokens)@.map_values(|tk: TokenData| token_fields(tk)) == marked_tokens(
            old(tokens)@,
            string_views(proof_secrets@),
            ProofTransition::Reserve { tx_id, now },
        ),
{
    apply_transition(tokens, proof_secrets, ProofTransition::Reserve { tx_id, now });
}

/// Marks the listed proofs Spent, clearing their transaction and timestamp.
pub fn move_proofs_to_spent(tokens: &mut Vec<TokenData>, proof_secrets: &Vec<String>)
    ensures
        final(tokens)@.map_values(|tk: TokenData| token_fields(tk)) == marked_tokens(
            old(tokens)@,
            string_views(proof_secrets@),
            ProofTransition::Spend,
        ),
{
    apply_transition(tokens, proof_secrets, ProofTransition::Spend);
}

/// Returns the listed proofs to Unspent, clearing their transaction and
/// timestamp (recovery of a failed transaction).
pub fn revert_proofs_to_spendable(tokens: &mut Vec<TokenData>, proof_secrets: &Vec<String>)
    ensures
        final(tokens)@.map_values(|tk: TokenData| token_fields(tk)) == marked_tokens(
            old(tokens)@,
            string_views(proof_secrets@),
            ProofTransition::Revert,
        ),
{
    apply_transition(tokens, proof_secrets, ProofTransition::Revert);
}

/// The proofs of `ps` whose secret is in `secrets`, in order.
pub open spec fn with_secret_in(ps: Seq<ProofData>, secrets: Seq<Seq<char>>) -> Seq<ProofData>
    decreases ps.len(),
{
    if ps.len() == 0 {
        Seq::empty()
    } else {
        let rest = with_secret_in(ps.drop_last(), secrets);
        if secrets.contains(ps.last().secret@) { rest.push(ps.last()) } else { rest }
    }
}

/// The pending proofs of `ps` (reserved or pending spent), in order.
pub open spec fn pending_of(ps: Seq<ProofData>) -> Seq<ProofData>
    decreases ps.len(),
{
    if ps.len() == 0 {
        Seq::empty()
    } else {
        let rest = pending_of(ps.drop_last());
        if ps.last().state.pending() { rest.push(ps.last()) } else { rest }
    }
}

/// The proofs of a mint whose secret is listed, in token order.
pub fn get_proofs_by_secrets(tokens: &Vec<TokenData>, mint_url: &str, proof_secrets: &Vec<String>) -> (r: Vec<ProofData>)
    ensures
        r@ == with_secret_in(mint_proofs(tokens@, mint_url@), string_views(proof_secrets@)),
{
    let all = proofs_of_mint(tokens, mint_url);
    let ghost sv = string_views(proof_secrets@);
    let mut r: Vec<ProofData> = Vec::new();
    for i in 0..all.len()
        invariant
            sv == string_views(proof_secrets@),
            r@ == with_secret_in(all@.take(i as int), sv),
    {
        assert(all@.take(i + 1).drop_last() =~= all@.take(i as int));
        if contains_string(proof_secrets, &all[i].secret) {
            r.push(all[i].clone());
        }
    }
    assert(all@.take(all.len() as int) =~= all@);
    r
}

/// The spendable proofs of a mint (neither pending nor spent), in token order.
pub fn get_spendable_proofs_for_mint(tokens: &Vec<TokenData>, mint_url: &str) -> (r: Vec<ProofData>)
    ensures
        r@ == spendable(mint_proofs(tokens@, mint_url@)),
{
    let all = proofs_of_mint(tokens, mint_url);
    let mut r: Vec<ProofData> = Vec::new();
    for i in 0..all.len()
        invariant
            r@ == spendable(all@.take(i as int)),
    {
        assert(all@.take(i + 1).drop_last() =~= all@.take(i as int));
        if all[i].state.is_spendable() {
            r.push(all[i].clone());
        }
    }
    assert(all@.take(all.len() as int) =~= all@);
    r
}

/// The pending proofs of a mint, in token order.
pub fn get_pending_proofs_for_mint(tokens: &Vec<TokenData>, mint_url: &str) -> (r: Vec<ProofData>)
    ensures
        r@ == pending_of(mint_proofs(tokens@, mint_url@)),
{
    let all = proofs_of_mint(tokens, mint_url);
    let mut r: Vec<ProofData> = Vec::new();
    for i in 0..all.len()
        invariant
            r@ == pending_of(all@.take(i as int)),
    {
        assert(all@.take(i + 1).drop_last() =~= all@.take(i as int));
        if all[i].state.is_pending() {
            r.push(all[i].clone());
        }
    }
    assert(all@.take(all.len() as int) =~= all@);
    r
}

/// Every proof of a mint, whatever its state, in token order.
pub fn get_all_proofs_for_mint(tokens: &Vec<TokenData>, mint_url: &str) -> (r: Vec<ProofData>)
    ensures
        r@ == mint_proofs(tokens@, mint_url@),
{
    proofs_of_mint(tokens, mint_url)
}

/// The tokens whose event id is not in `ids`, in order.
pub open spec fn tokens_not_in(tokens: Seq<TokenData>, ids: Seq<Seq<char>>) -> Seq<TokenData>
    decreases tokens.len(),
{
    if tokens.len() == 0 {
        Seq::empty()
    } else {
        let rest = tokens_not_in(tokens.drop_last(), ids);
        if ids.contains(tokens.last().event_id@) { rest } else { rest.push(tokens.last()) }
    }
}

/// Replaces token events at once: removes the tokens whose event id is in
/// `delete_event_ids`, then appends `new_tokens`.
pub fn replace_tokens(tokens: &mut Vec<TokenData>, new_tokens: Vec<TokenData>, delete_event_ids: &Vec<String>)
    ensures
        final(tokens)@.map_values(|tk: TokenData| token_fields(tk)) == (tokens_not_in(
            old(tokens)@,
            string_views(delete_event_ids@),
        ) + new_tokens@).map_values(|tk: TokenData| token_fields(tk)),
{
    let ghost dv = string_views(delete_event_ids@);
    let ghost old_tokens = tokens@;
    let mut out: Vec<TokenData> = Vec::new();
    for i in 0..tokens.len()
        invariant
            tokens@ == old_tokens,
            dv == string_views(delete_event_ids@),
            out@.len() == tokens_not_in(old_tokens.take(i as int), dv).len(),
            out@.map_values(|tk: TokenData| token_fields(tk)) == tokens_not_in(old_tokens.take(i as int), dv).map_values(
                |tk: TokenData| token_fields(tk),
            ),
    {
        assert(old_tokens.take(i + 1).drop_last() =~= old_tokens.take(i as int));
        if !contains_string(delete_event_ids, &tokens[i].event_id) {
            let ghost before = out@;
            out.push(tokens[i].clone());
            proof {
                let a = out@.map_values(|tk: TokenData| token_fields(tk));
                let nb = tokens_not_in(old_tokens.take(i + 1), dv);
                let nc = tokens_not_in(old_tokens.take(i as int), dv);
                assert(nb == nc.push(old_tokens[i as int]));
                let b = nb.map_values(|tk: TokenData| token_fields(tk));
                let c = nc.map_values(|tk: TokenData| token_fields(tk));
                assert forall|k: int| 0 <= k < a.len() implies a[k] == b[k] by {
                    if k < before.len() {
                        assert(a[k] == token_fields(before[k]));
                        assert(before.map_values(|tk: TokenData| token_fields(tk))[k] == c[k]);
                        assert(nb[k] == nc[k]);
                    }
                }
                assert(a =~= b);
            }
        }
    }
    assert(old_tokens.take(old_tokens.len() as int) =~= old_tokens);
    let ghost kept = out@;
    let mut rest = new_tokens;
    let ghost added = rest@;
    out.append(&mut rest);
    assert(out@ == kept + added);
    assert(out@.map_values(|tk: TokenData| token_fields(tk)) =~= (tokens_not_in(old_tokens, dv) + added).map_values(
        |tk: TokenData| token_fields(tk),
    )) by {
        let kn = tokens_not_in(old_tokens, dv);
        assert(kept.len() == kn.len()) by {
            assert(kept.map_values(|tk: TokenData| token_fields(tk)).len() == kn.map_values(|tk: TokenData| token_fields(tk)).len());
        }
        assert forall|k: int| 0 <= k < out@.len() implies #[trigger] token_fields(out@[k]) == token_fields(
            (kn + added)[k],
        ) by {
            if k < kept.len() {
                assert(token_fields(kept[k]) == kept.map_values(|tk: TokenData| token_fields(tk))[k]);
                assert(token_fields(tokens_not_in(old_tokens, dv)[k]) == tokens_not_in(old_tokens, dv).map_values(
                    |tk: TokenData| token_fields(tk),
                )[k]);
            }
        }
    }
    *tokens = out;
}

/// Position of the first token with an event id.
pub open spec fn first_token_with_id(tokens: Seq<TokenData>, id: Seq<char>) -> Option<int> {
    if exists|i: int| 0 <= i < tokens.len() && tokens[i].event_id@ == id {
        Some(choose|i: int| 0 <= i < tokens.len() && tokens[i].event_id@ == id && forall|j: int| 0 <= j < i ==> tokens[j].event_id@ != id)
    } else {
        None
    }
}

/// Gives the token published under a pending id its real event id.
pub fn update_token_event_id(tokens: &mut Vec<TokenData>, pending_id: &str, real_event_id: &str) -> (r: Result<(), String>)
    ensures
        match first_token_with_id(old(tokens)@, pending_id@) {
            None => r matches Err(e) && e@ == "Token with pending_id "@ + pending_id@ + " not found"@
                && final(tokens)@ == old(tokens)@,
            Some(i) => r is Ok && final(tokens)@.len() == old(tokens)@.len() && (forall|j: int| 0 <= j < old(tokens)@.len() && j != i
                ==> #[trigger] final(tokens)@[j] == old(tokens)@[j]) && final(tokens)@[i].event_id@ == real_event_id@
                && final(tokens)@[i].mint == old(tokens)@[i].mint && final(tokens)@[i].unit == old(tokens)@[i].unit
                && final(tokens)@[i].proofs@ == old(tokens)@[i].proofs@ && final(tokens)@[i].created_at == old(tokens)@[i].created_at,
        },
{
    let target = String::from_str(pending_id);
    let mut i: usize = 0;
    while i < tokens.len()
        invariant
            i <= tokens@.len(),
            tokens@ == old(tokens)@,
            target@ == pending_id@,
            forall|j: int| 0 <= j < i ==> tokens@[j].event_id@ != pending_id@,
        decreases tokens.len() - i,
    {
        if tokens[i].event_id == target {
            proof {
                assert(tokens@[i as int].event_id@ == pending_id@);
                let c = choose|c: int| 0 <= c < tokens@.len() && tokens@[c].event_id@ == pending_id@ && forall|j: int| 0 <= j < c ==> tokens@[j].event_id@ != pending_id@;
                assert(0 <= c < tokens@.len() && tokens@[c].event_id@ == pending_id@);
                if c > i {
                    assert(tokens@[i as int].event_id@ != pending_id@);
                }
                if c < i {
                    assert(tokens@[c].event_id@ != pending_id@);
                }
                assert(c == i);
                assert(first_token_with_id(tokens@, pending_id@) == Some(i as int));
            }
            let old_tk = &tokens[i];
            let updated = TokenData {
                event_id: String::from_str(real_event_id),
                mint: old_tk.mint.clone(),
                unit: old_tk.unit.clone(),
                proofs: clone_proofs(&old_tk.proofs),
                created_at: old_tk.created_at,
            };
            tokens.set(i, updated);
            return Ok(());
        }
        i = i + 1;
    }
    assert(!(exists|k: int| 0 <= k < tokens@.len() && tokens@[k].event_id@ == pending_id@));
    let mut e = String::from_str("Token with pending_id ");
    e.append(pending_id);
    e.append(" not found");
    Err(e)
}

/// Some proof of `b` has the secret `x`.
pub open spec fn has_secret(b: Seq<ProofData>, x: Seq<char>) -> bool {
    exists|j: int| 0 <= j < b.len() && b[j].secret@ == x
}

/// Every secret of `a` is a secret of `b`.
pub open spec fn secrets_among(a: Seq<ProofData>, b: Seq<ProofData>) -> bool {
    forall|i: int| 0 <= i < a.len() ==> #[trigger] has_secret(b, a[i].secret@)
}

/// The secrets of `a` and of `b` are the same set.
pub open spec fn same_secrets(a: Seq<ProofData>, b: Seq<ProofData>) -> bool {
    secrets_among(a, b) && secrets_among(b, a)
}

/// Every secret of `a` is a secret of `b`.
fn secrets_within(a: &Vec<ProofData>, b: &Vec<ProofData>) -> (r: bool)
    ensures
        r == secrets_among(a@, b@),
{
    for i in 0..a.len()
        invariant
            forall|k: int| 0 <= k < i ==> #[trigger] has_secret(b@, a@[k].secret@),
    {
        let mut found = false;
        let mut j: usize = 0;
        while j < b.len() && !found
            invariant
                j <= b@.len(),
                i < a@.len(),
                found ==> has_secret(b@, a@[i as int].secret@),
                !found ==> forall|m: int| 0 <= m < j ==> b@[m].secret@ != a@[i as int].secret@,
            decreases b.len() - j + (if found { 0int } else { 1int }),
        {
            if b[j].secret == a[i].secret {
                assert(b@[j as int].secret@ == a@[i as int].secret@);
                found = true;
            } else {
                j = j + 1;
            }
        }
        if !found {
            proof {
                assert(!has_secret(b@, a@[i as int].secret@));
            }
            return false;
        }
    }
    true
}

/// Whether an event id is a placeholder of an event still waiting to be
/// published.
pub open spec fn is_pending_id(id: Seq<char>) -> bool {
    has_prefix(id, "pending_"@)
}

/// The first published token holding exactly the same (non-empty) set of
/// secrets as `proofs`: the event a pending token was in fact published as.
pub open spec fn matching_real_event(tokens: Seq<TokenData>, proofs: Seq<ProofData>) -> Option<Seq<char>>
    decreases tokens.len(),
{
    if tokens.len() == 0 || proofs.len() == 0 {
        None
    } else if !is_pending_id(tokens[0].event_id@) && same_secrets(proofs, tokens[0].proofs@) {
        Some(tokens[0].event_id@)
    } else {
        matching_real_event(tokens.drop_first(), proofs)
    }
}

/// Finds the published event a pending token's proofs already belong to.
pub fn find_matching_real_event(tokens: &Vec<TokenData>, proofs: &Vec<ProofData>) -> (r: Option<String>)
    ensures
        match matching_real_event(tokens@, proofs@) {
            None => r is None,
            Some(id) => r matches Some(s) && s@ == id,
        },
{
    if proofs.len() == 0 {
        return None;
    }
    let prefix = chars_of("pending_");
    let mut i: usize = 0;
    let ghost ts = tokens@;
    assert(ts.skip(0) =~= ts);
    while i < tokens.len()
        invariant
            i <= ts.len(),
            ts == tokens@,
            proofs@.len() > 0,
            prefix@ == "pending_"@,
            matching_real_event(ts, proofs@) == matching_real_event(ts.skip(i as int), proofs@),
        decreases tokens.len() - i,
    {
        assert(ts.skip(i as int)[0] == ts[i as int]);
        let id_chars = chars_of(tokens[i].event_id.as_str());
        if !starts_with(&id_chars, &prefix) && secrets_within(proofs, &tokens[i].proofs) && secrets_within(
            &tokens[i].proofs,
            proofs,
        ) {
            return Some(tokens[i].event_id.clone());
        }
        assert(ts.skip(i as int).drop_first() =~= ts.skip(i + 1));
        i = i + 1;
    }
    assert(ts.skip(i as int).len() == 0);
    None
}

} // verus!
