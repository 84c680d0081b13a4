//! Proof selection for payments and proof state transitions.
use vstd::prelude::*;
use vstd::string::*;
use crate::fees::{proof_fee, calculate_proof_fee, sat_u64};
use crate::keyset::{amount_sum, contains_string, lemma_amount_sum_prefix, string_views};
use crate::sorting::{lemma_insert_pos_by, sort_desc_by};
use crate::text::{append_decimal, decimal};
use crate::types::{ProofData, ProofState, TokenData, mint_matches, same_mint};

verus! {

/// The spendable proofs of `ps`, in order.
pub open spec fn spendable(ps: Seq<ProofData>) -> Seq<ProofData>
    decreases ps.len(),
{
    if ps.len() == 0 {
        Seq::empty()
    } else {
        let rest = spendable(ps.drop_last());
        if ps.last().state is Unspent { rest.push(ps.last()) } else { rest }
    }
}

/// Sort key of proofs: their amount.
pub open spec fn amount_key() -> spec_fn(ProofData) -> int {
    |p: ProofData| p.amount as int
}

/// The spendable proofs of a list.
fn spendable_proofs(ps: &Vec<ProofData>) -> (r: Vec<ProofData>)
    ensures
        r@ == spendable(ps@),
{
    let mut r: Vec<ProofData> = Vec::new();
    for i in 0..ps.len()
        invariant
            r@ == spendable(ps@.take(i as int)),
    {
        assert(ps@.take(i + 1).drop_last() =~= ps@.take(i as int));
        if ps[i].state.is_spendable() {
            r.push(ps[i].clone());
        }
    }
    assert(ps@.take(ps.len() as int) =~= ps@);
    r
}

/// Sorts proofs by decreasing amount, keeping the order of equal amounts.
pub fn sort_by_amount_desc(v: &Vec<ProofData>) -> (r: Vec<ProofData>)
    ensures
        r@ == sort_desc_by(v@, amount_key()),
{
    let mut r: Vec<ProofData> = Vec::new();
    for i in 0..v.len()
        invariant
            r@ == sort_desc_by(v@.take(i as int), amount_key()),
    {
        let x = v[i].clone();
        let mut j: usize = 0;
        let mut found = false;
        while j < r.len() && !found
            invariant
                j <= r.len(),
                forall|k: int| 0 <= k < j ==> r@[k].amount >= x.amount,
                found ==> j < r.len() && r@[j as int].amount < x.amount,
            decreases r.len() - j + (if found { 0int } else { 1int }),
        {
            if r[j].amount < x.amount {
                found = true;
            } else {
                j = j + 1;
            }
        }
        proof {
            lemma_insert_pos_by(r@, x, amount_key(), j as int);
            assert(v@.take(i + 1).drop_last() =~= v@.take(i as int));
        }
        r.insert(j, x);
    }
    assert(v@.take(v.len() as int) =~= v@);
    r
}

/// The sum of a concatenation is the sum of the parts.
proof fn lemma_amount_sum_concat(a: Seq<ProofData>, b: Seq<ProofData>)
    ensures
        amount_sum(a + b) == amount_sum(a) + amount_sum(b),
    decreases b.len(),
{
    if b.len() > 0 {
        lemma_amount_sum_concat(a, b.drop_last());
        assert((a + b).drop_last() =~= a + b.drop_last());
    } else {
        assert(a + b =~= a);
    }
}

/// Sorting keeps the sum of amounts.
proof fn lemma_sort_keeps_sum(s: Seq<ProofData>)
    ensures
        amount_sum(sort_desc_by(s, amount_key())) == amount_sum(s),
        sort_desc_by(s, amount_key()).len() == s.len(),
    decreases s.len(),
{
    if s.len() > 0 {
        lemma_sort_keeps_sum(s.drop_last());
        let t = sort_desc_by(s.drop_last(), amount_key());
        crate::sorting::lemma_insert_pos_by_props(t, s.last(), amount_key());
        let j = crate::sorting::insert_pos_by(t, s.last(), amount_key());
        assert(t.insert(j, s.last()) =~= t.take(j) + seq![s.last()] + t.skip(j));
        assert(t =~= t.take(j) + t.skip(j));
        lemma_amount_sum_concat(t.take(j) + seq![s.last()], t.skip(j));
        lemma_amount_sum_concat(t.take(j), seq![s.last()]);
        lemma_amount_sum_concat(t.take(j), t.skip(j));
        assert(seq![s.last()].drop_last() =~= Seq::<ProofData>::empty());
        assert(amount_sum(Seq::<ProofData>::empty()) == 0);
        assert(amount_sum(seq![s.last()]) == s.last().amount);
        assert(amount_sum(s) == amount_sum(s.drop_last()) + s.last().amount);
        assert(sort_desc_by(s, amount_key()) == t.insert(j, s.last()));
    }
}

/// The fee that proof selection adds for `n` proofs.
pub open spec fn selection_fee(n: nat, include_fee: bool, fee_ppk: u64) -> u64 {
    if !include_fee || fee_ppk == 0 { 0 } else { proof_fee(n, fee_ppk as nat) }
}

/// The fee never decreases with more proofs.
pub proof fn lemma_proof_fee_monotonic(n: nat, m: nat, fee_ppk: nat)
    requires
        n <= m,
    ensures
        proof_fee(n, fee_ppk) <= proof_fee(m, fee_ppk),
{
    assert(n * fee_ppk <= m * fee_ppk) by (nonlinear_arith)
        requires
            n <= m,
    ;
    let a = sat_u64(sat_u64((n * fee_ppk) as int) + 999);
    let b = sat_u64(sat_u64((m * fee_ppk) as int) + 999);
    assert(a <= b);
    assert(a / 1000 <= b / 1000) by (nonlinear_arith)
        requires
            a <= b,
    ;
}

/// What a payment needs when `n` proofs are taken.
pub open spec fn needed_for(target: u64, n: nat, include_fee: bool, fee_ppk: u64) -> int {
    if include_fee { target + selection_fee(n, include_fee, fee_ppk) } else { target as int }
}

/// How many of the sorted proofs the greedy phase takes, looking from
/// position `i`: it stops before proof `i` as soon as the first `i` cover
/// what `i + 1` proofs would need.
pub open spec fn greedy_count(s: Seq<ProofData>, target: u64, include_fee: bool, fee_ppk: u64, i: nat) -> nat
    decreases s.len() - i,
{
    if i >= s.len() {
        s.len()
    } else if amount_sum(s.take(i as int)) >= needed_for(target, i + 1, include_fee, fee_ppk) {
        i
    } else {
        greedy_count(s, target, include_fee, fee_ppk, i + 1)
    }
}

/// The first proof with exactly the given amount.
pub open spec fn first_exact(s: Seq<ProofData>, target: u64) -> Option<ProofData>
    decreases s.len(),
{
    if s.len() == 0 {
        None
    } else if s[0].amount == target {
        Some(s[0])
    } else {
        first_exact(s.drop_first(), target)
    }
}

/// Selects spendable proofs for a payment of `target_amount`, largest first.
/// A single proof of exactly the amount is taken alone; otherwise proofs are
/// taken until they cover the amount and, with `include_fee`, the input fee
/// of the proofs taken.
pub fn select_proofs_for_amount(
    proofs: &Vec<ProofData>,
    target_amount: u64,
    include_fee: bool,
    fee_ppk: u64,
) -> (r: Result<(Vec<ProofData>, u64), String>)
    requires
        include_fee && amount_sum(spendable(proofs@)) <= u64::MAX && amount_sum(spendable(proofs@)) >= target_amount
            && first_exact(sort_desc_by(spendable(proofs@), amount_key()), target_amount) is None ==> target_amount
            + selection_fee(spendable(proofs@).len(), include_fee, fee_ppk) <= u64::MAX,
    ensures
        ({
            let sp = spendable(proofs@);
            let total = amount_sum(sp);
            let sorted = sort_desc_by(sp, amount_key());
            let j = greedy_count(sorted, target_amount, include_fee, fee_ppk, 0);
            let sel = sorted.take(j as int);
            let fee = selection_fee(j, include_fee, fee_ppk);
            let needed = needed_for(target_amount, j, include_fee, fee_ppk);
            if proofs@.len() == 0 {
                r matches Err(e) && e@ == "No proofs available"@
            } else if total > u64::MAX {
                r matches Err(e) && e@ == "Total available balance overflow"@
            } else if total < target_amount {
                r matches Err(e) && e@ == "Insufficient funds: available="@ + decimal(total as nat)
                    + ", required="@ + decimal(target_amount as nat)
            } else if first_exact(sorted, target_amount) is Some {
                r matches Ok((v, f)) && v@ == seq![first_exact(sorted, target_amount)->0]
                    && f == selection_fee(1, include_fee, fee_ppk)
            } else if amount_sum(sel) < needed {
                r matches Err(e) && e@ == "Could not select enough proofs: selected="@ + decimal(amount_sum(sel) as nat)
                    + ", needed="@ + decimal(needed as nat)
            } else {
                r matches Ok((v, f)) && v@ == sel && f == fee
            }
        }),
{
    if proofs.len() == 0 {
        return Err(String::from_str("No proofs available"));
    }
    let sp = spendable_proofs(proofs);
    let mut total: u64 = 0;
    for i in 0..sp.len()
        invariant
            proofs@.len() > 0,
            sp@ == spendable(proofs@),
            total == amount_sum(sp@.take(i as int)),
    {
        assert(sp@.take(i + 1).drop_last() =~= sp@.take(i as int));
        match total.checked_add(sp[i].amount) {
            Some(t) => {
                total = t;
            },
            None => {
                proof {
                    lemma_amount_sum_prefix(sp@, i + 1);
                    assert(sp@.take(i + 1).last() == sp@[i as int]);
                    assert(amount_sum(sp@.take(i + 1)) == total + sp@[i as int].amount);
                }
                return Err(String::from_str("Total available balance overflow"));
            },
        }
    }
    assert(sp@.take(sp.len() as int) =~= sp@);
    if total < target_amount {
        let mut e = String::from_str("Insufficient funds: available=");
        append_decimal(&mut e, total);
        e.append(", required=");
        append_decimal(&mut e, target_amount);
        return Err(e);
    }
    let sorted = sort_by_amount_desc(&sp);
    proof {
        lemma_sort_keeps_sum(sp@);
    }
    let ghost s = sorted@;
    // an exact match is taken alone
    let mut k: usize = 0;
    assert(s.skip(0) =~= s);
    while k < sorted.len()
        invariant
            k <= sorted.len(),
            s == sorted@,
            proofs@.len() > 0,
            s == sort_desc_by(spendable(proofs@), amount_key()),
            amount_sum(s) == total,
            amount_sum(spendable(proofs@)) == total,
            total >= target_amount,
            first_exact(s, target_amount) == first_exact(s.skip(k as int), target_amount),
        decreases sorted.len() - k,
    {
        assert(s.skip(k as int)[0] == s[k as int]);
        if sorted[k].amount == target_amount {
            let fee = if !include_fee || fee_ppk == 0 { 0 } else { calculate_proof_fee(1, fee_ppk) };
            let mut v: Vec<ProofData> = Vec::new();
            v.push(sorted[k].clone());
            proof {
                assert(first_exact(s.skip(k as int), target_amount) == Some(s[k as int]));
                assert(v@ =~= seq![s[k as int]]);
            }
            return Ok((v, fee));
        }
        assert(s.skip(k as int).drop_first() =~= s.skip(k + 1));
        k = k + 1;
    }
    // greedy: largest first, until the amount and its fee are covered
    let ghost sp_len = sp@.len();
    assert(s.skip(k as int) =~= Seq::<ProofData>::empty());
    assert(first_exact(s, target_amount) is None);
    let mut selected: Vec<ProofData> = Vec::new();
    let mut selected_amount: u64 = 0;
    let mut i: usize = 0;
    let mut done = false;
    while i < sorted.len() && !done
        invariant
            i <= sorted.len(),
            s == sorted@,
            sorted.len() == sp_len,
            amount_sum(s) == total,
            include_fee ==> target_amount + selection_fee(sp_len, include_fee, fee_ppk) <= u64::MAX,
            selected@ == s.take(i as int),
            selected_amount == amount_sum(s.take(i as int)),
            !done ==> greedy_count(s, target_amount, include_fee, fee_ppk, 0) == greedy_count(s, target_amount, include_fee, fee_ppk, i as nat),
            done ==> greedy_count(s, target_amount, include_fee, fee_ppk, 0) == i,
        decreases sorted.len() - i + (if done { 0int } else { 1int }),
    {
        let current_fee = if !include_fee || fee_ppk == 0 { 0 } else { calculate_proof_fee(i + 1, fee_ppk) };
        proof {
            if include_fee && fee_ppk != 0 {
                lemma_proof_fee_monotonic((i + 1) as nat, sp_len, fee_ppk as nat);
            }
        }
        let needed = if include_fee { target_amount + current_fee } else { target_amount };
        if selected_amount >= needed {
            done = true;
        } else {
            proof {
                lemma_amount_sum_prefix(s, i + 1);
                assert(s.take(i + 1).drop_last() =~= s.take(i as int));
            }
            selected.push(sorted[i].clone());
            selected_amount = selected_amount + sorted[i].amount;
            assert(selected@ =~= s.take(i + 1));
            i = i + 1;
        }
    }
    let n = selected.len();
    let final_fee = if !include_fee || fee_ppk == 0 { 0 } else { calculate_proof_fee(n, fee_ppk) };
    proof {
        if include_fee && fee_ppk != 0 {
            lemma_proof_fee_monotonic(n as nat, sp_len, fee_ppk as nat);
        }
    }
    let total_needed = if include_fee { target_amount + final_fee } else { target_amount };
    if selected_amount < total_needed {
        let mut e = String::from_str("Could not select enough proofs: selected=");
        append_decimal(&mut e, selected_amount);
        e.append(", needed=");
        append_decimal(&mut e, total_needed);
        return Err(e);
    }
    Ok((selected, final_fee))
}

/// The spendable proofs of `ps` whose keyset activity (membership of their
/// id in `active`) is `want`, in order.
pub open spec fn spendable_by_activity(ps: Seq<ProofData>, active: Seq<Seq<char>>, want: bool) -> Seq<ProofData>
    decreases ps.len(),
{
    if ps.len() == 0 {
        Seq::empty()
    } else {
        let rest = spendable_by_activity(ps.drop_last(), active, want);
        let p = ps.last();
        if p.state is Unspent && active.contains(p.id@) == want { rest.push(p) } else { rest }
    }
}

/// How many proofs of `s` are taken, looking from position `i`, to reach `target`.
pub open spec fn take_until(s: Seq<ProofData>, target: u64, i: nat) -> nat
    decreases s.len() - i,
{
    if i >= s.len() {
        s.len()
    } else if amount_sum(s.take(i as int)) >= target {
        i
    } else {
        take_until(s, target, i + 1)
    }
}

/// The order in which inactive-first selection considers proofs: spendable
/// proofs of inactive keysets, largest first, then those of active keysets.
pub open spec fn inactive_first(ps: Seq<ProofData>, active: Seq<Seq<char>>) -> Seq<ProofData> {
    sort_desc_by(spendable_by_activity(ps, active, false), amount_key()) + sort_desc_by(
        spendable_by_activity(ps, active, true),
        amount_key(),
    )
}

/// The spendable proofs in keysets of the given activity.
fn spendable_with_activity(proofs: &Vec<ProofData>, active: &Vec<String>, want: bool) -> (r: Vec<ProofData>)
    ensures
        r@ == spendable_by_activity(proofs@, string_views(active@), want),
{
    let mut r: Vec<ProofData> = Vec::new();
    for i in 0..proofs.len()
        invariant
            r@ == spendable_by_activity(proofs@.take(i as int), string_views(active@), want),
    {
        assert(proofs@.take(i + 1).drop_last() =~= proofs@.take(i as int));
        if proofs[i].state.is_spendable() && contains_string(active, &proofs[i].id) == want {
            r.push(proofs[i].clone());
        }
    }
    assert(proofs@.take(proofs.len() as int) =~= proofs@);
    r
}

/// The sum of `n` amounts is below `n * 2^64`.
proof fn lemma_amount_sum_bound(s: Seq<ProofData>)
    ensures
        amount_sum(s) <= s.len() * 0x1_0000_0000_0000_0000,
        amount_sum(s) >= 0,
    decreases s.len(),
{
    if s.len() > 0 {
        lemma_amount_sum_bound(s.drop_last());
    }
}

/// Selects spendable proofs for `target_amount`, spending proofs of
/// inactive keysets first (largest first), then those of active keysets.
pub fn select_proofs_prefer_inactive(
    proofs: &Vec<ProofData>,
    target_amount: u64,
    active_keyset_ids: &Vec<String>,
) -> (r: Result<Vec<ProofData>, String>)
    ensures
        ({
            let c = inactive_first(proofs@, string_views(active_keyset_ids@));
            let j = take_until(c, target_amount, 0);
            let sel = c.take(j as int);
            if amount_sum(sel) < target_amount {
                r matches Err(e) && e@ == "Insufficient funds: selected="@ + decimal(amount_sum(sel) as nat)
                    + ", required="@ + decimal(target_amount as nat)
            } else {
                r matches Ok(v) && v@ == sel
            }
        }),
{
    let inactive = sort_by_amount_desc(&spendable_with_activity(proofs, active_keyset_ids, false));
    let active = sort_by_amount_desc(&spendable_with_activity(proofs, active_keyset_ids, true));
    let mut all: Vec<ProofData> = Vec::new();
    for i in 0..inactive.len()
        invariant
            all@ == inactive@.take(i as int),
    {
        all.push(inactive[i].clone());
        assert(all@ =~= inactive@.take(i + 1));
    }
    assert(inactive@.take(inactive.len() as int) =~= inactive@);
    for i in 0..active.len()
        invariant
            all@ == inactive@ + active@.take(i as int),
    {
        all.push(active[i].clone());
        assert(all@ =~= inactive@ + active@.take(i + 1));
    }
    assert(active@.take(active.len() as int) =~= active@);
    let ghost c = all@;
    assert(c == inactive_first(proofs@, string_views(active_keyset_ids@)));
    let mut selected: Vec<ProofData> = Vec::new();
    let mut selected_amount: u128 = 0;
    let mut i: usize = 0;
    let mut done = false;
    while i < all.len() && !done
        invariant
            i <= all.len(),
            c == all@,
            selected@ == c.take(i as int),
            selected_amount == amount_sum(c.take(i as int)),
            !done ==> take_until(c, target_amount, 0) == take_until(c, target_amount, i as nat),
            done ==> take_until(c, target_amount, 0) == i,
        decreases all.len() - i + (if done { 0int } else { 1int }),
    {
        if selected_amount >= target_amount as u128 {
            done = true;
        } else {
            proof {
                lemma_amount_sum_bound(c.take(i + 1));
                assert(c.take(i + 1).drop_last() =~= c.take(i as int));
                assert((i + 1) * 0x1_0000_0000_0000_0000 <= 0x1_0000_0000_0000_0000 * 0x1_0000_0000_0000_0000) by (nonlinear_arith)
                    requires
                        i + 1 <= 0x1_0000_0000_0000_0000,
                ;
            }
            selected.push(all[i].clone());
            selected_amount = selected_amount + all[i].amount as u128;
            assert(selected@ =~= c.take(i + 1));
            i = i + 1;
        }
    }
    if selected_amount < target_amount as u128 {
        let mut e = String::from_str("Insufficient funds: selected=");
        append_decimal(&mut e, selected_amount as u64);
        e.append(", required=");
        append_decimal(&mut e, target_amount);
        return Err(e);
    }
    Ok(selected)
}


/// An ecash proof of the Cashu Development Kit.
#[verifier::external_type_specification]
#[verifier::external_body]
pub struct ExProof(cdk::nuts::Proof);

/// A proof's keyset id as text (its `Id`'s `Display`): a function of the
/// proof alone.
pub uninterp spec fn proof_keyset_of(p: cdk::nuts::Proof) -> Seq<char>;

/// A proof's secret as text (its `Secret`'s `Display`).
pub uninterp spec fn proof_secret_of(p: cdk::nuts::Proof) -> Seq<char>;

/// A proof's signature point `C` in hex (`PublicKey::to_hex`).
pub uninterp spec fn proof_c_of(p: cdk::nuts::Proof) -> Seq<char>;

/// A proof's amount (`u64::from` its `Amount`).
pub uninterp spec fn proof_amount_of(p: cdk::nuts::Proof) -> u64;

/// The keyset id of a proof as text (its `Id`'s `Display`).
#[verifier::external_body]
fn proof_keyset_text(p: &cdk::nuts::Proof) -> (r: String)
    ensures
        r@ == proof_keyset_of(*p),
{
    p.keyset_id.to_string()
}

/// The secret of a proof as text (its `Secret`'s `Display`).
#[verifier::external_body]
fn proof_secret_text(p: &cdk::nuts::Proof) -> (r: String)
    ensures
        r@ == proof_secret_of(*p),
{
    p.secret.to_string()
}

/// The signature point `C` of a proof in hex (`PublicKey::to_hex`): the
/// compressed point, 33 bytes, so 66 hex characters.
#[verifier::external_body]
fn proof_c_hex(p: &cdk::nuts::Proof) -> (r: String)
    ensures
        r@ == proof_c_of(*p),
        r@.len() == 66,
{
    p.c.to_hex()
}

/// The amount of a proof (`u64::from` its `Amount`).
#[verifier::external_body]
fn proof_amount(p: &cdk::nuts::Proof) -> (r: u64)
    ensures
        r == proof_amount_of(*p),
{
    u64::from(p.amount)
}

/// What is wrong with a proof's fields, checked in this order: a keyset id
/// of other than 16 characters, an empty secret, a `C` of other than 66
/// hex characters, a zero amount.
pub open spec fn proof_format_error(keyset_id: Seq<char>, secret: Seq<char>, c_hex: Seq<char>, amount: u64) -> Option<
    Seq<char>,
> {
    if keyset_id.len() != 16 {
        Some("Invalid keyset_id length: expected 16, got "@ + decimal(keyset_id.len()))
    } else if secret.len() == 0 {
        Some("Empty proof secret"@)
    } else if c_hex.len() != 66 {
        Some("Invalid C point length: expected 66, got "@ + decimal(c_hex.len()))
    } else if amount == 0 {
        Some("Proof amount is zero"@)
    } else {
        None
    }
}

/// Checks the fields of a proof before it is handed to the wallet.
pub fn check_proof_fields(keyset_id: &str, secret: &str, c_hex: &str, amount: u64) -> (r: Result<(), String>)
    ensures
        match proof_format_error(keyset_id@, secret@, c_hex@, amount) {
            Some(m) => r matches Err(e) && e@ == m,
            None => r is Ok,
        },
{
    let klen = keyset_id.unicode_len();
    if klen != 16 {
        let mut m = String::from_str("Invalid keyset_id length: expected 16, got ");
        append_decimal(&mut m, klen as u64);
        return Err(m);
    }
    if secret.unicode_len() == 0 {
        return Err(String::from_str("Empty proof secret"));
    }
    let clen = c_hex.unicode_len();
    if clen != 66 {
        let mut m = String::from_str("Invalid C point length: expected 66, got ");
        append_decimal(&mut m, clen as u64);
        return Err(m);
    }
    if amount == 0 {
        return Err(String::from_str("Proof amount is zero"));
    }
    Ok(())
}

/// Checks a proof's format before it is handed to the wallet, so that a
/// malformed proof cannot fail a multi-step operation half way: its keyset
/// id, secret, `C` and amount, as `check_proof_fields` states.
pub fn validate_proof_format(proof: &cdk::nuts::Proof) -> (r: Result<(), String>)
    ensures
        match proof_format_error(proof_keyset_of(*proof), proof_secret_of(*proof), proof_c_of(*proof), proof_amount_of(*proof)) {
            Some(m) => r matches Err(e) && e@ == m,
            None => r is Ok,
        },
{
    let keyset = proof_keyset_text(proof);
    let secret = proof_secret_text(proof);
    let c = proof_c_hex(proof);
    let amount = proof_amount(proof);
    check_proof_fields(keyset.as_str(), secret.as_str(), c.as_str(), amount)
}

} // verus!
