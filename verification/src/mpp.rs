//! Multi-path payments (NUT-15): splitting an amount across mints, the
//! totals of the per-mint quotes, and the outcome of the per-mint melts.
use vstd::prelude::*;
use vstd::string::*;
use crate::keyset::{contains_string, string_views};
use crate::sorting::{lemma_insert_pos_by, sort_desc_by};
use crate::text::{append_decimal, decimal};
use crate::types::TokenData;

verus! {

/// Balance of one mint.
#[derive(Debug)]
pub struct MintBalance {
    pub mint_url: String,
    pub balance: u64,
}

impl Clone for MintBalance {
    fn clone(&self) -> (c: Self)
        ensures
            c == *self,
    {
        MintBalance { mint_url: self.mint_url.clone(), balance: self.balance }
    }
}

/// The share of one mint in a multi-path payment, with its quote.
#[derive(Debug)]
pub struct MppQuoteContribution {
    pub mint_url: String,
    pub quote_id: String,
    pub amount: u64,
    pub fee_reserve: u64,
}

/// The quotes of all mints of a multi-path payment.
#[derive(Debug)]
pub struct MppQuoteInfo {
    pub contributions: Vec<MppQuoteContribution>,
    pub total_amount: u64,
    pub total_fee_reserve: u64,
}

/// Outcome of a multi-path melt.
#[derive(Debug)]
pub struct MppMeltResult {
    /// Every mint reported its part paid.
    pub paid: bool,
    /// The first payment proof (preimage) reported.
    pub preimage: Option<String>,
    pub total_amount_paid: u64,
    pub total_fee_paid: u64,
    /// Number of mints that melted.
    pub contributions: usize,
}

/// What one mint's melt reported.
#[derive(Debug)]
pub struct MeltContribution {
    pub amount: u64,
    pub fee_paid: u64,
    pub payment_proof: Option<String>,
    pub paid: bool,
}

/// Sort key of balances: the balance.
pub open spec fn balance_key() -> spec_fn(MintBalance) -> int {
    |b: MintBalance| b.balance as int
}

/// A mint takes part: it is among `allowed` (when given) and has a balance.
pub open spec fn takes_part(b: MintBalance, allowed: Option<Seq<Seq<char>>>) -> bool {
    &&& b.balance > 0
    &&& match allowed {
        Some(ids) => ids.contains(b.mint_url@),
        None => true,
    }
}

/// The mints that take part, in order.
pub open spec fn available_mints(bs: Seq<MintBalance>, allowed: Option<Seq<Seq<char>>>) -> Seq<MintBalance>
    decreases bs.len(),
{
    if bs.len() == 0 {
        Seq::empty()
    } else {
        let rest = available_mints(bs.drop_last(), allowed);
        if takes_part(bs.last(), allowed) { rest.push(bs.last()) } else { rest }
    }
}

/// Sum of balances.
pub open spec fn balance_sum(bs: Seq<MintBalance>) -> int
    decreases bs.len(),
{
    if bs.len() == 0 { 0 } else { balance_sum(bs.drop_last()) + bs.last().balance }
}

/// Greedy allocation of `remaining` over the mints in order: each gives as
/// much as it has, up to what is still missing.
pub open spec fn allocate(bs: Seq<MintBalance>, remaining: int) -> Seq<(Seq<char>, u64)>
    decreases bs.len(),
{
    if bs.len() == 0 || remaining <= 0 {
        Seq::empty()
    } else {
        let c = if bs[0].balance < remaining { bs[0].balance as int } else { remaining };
        if c > 0 {
            seq![(bs[0].mint_url@, c as u64)] + allocate(bs.drop_first(), remaining - c)
        } else {
            allocate(bs.drop_first(), remaining)
        }
    }
}

/// What the greedy allocation leaves unallocated.
pub open spec fn unallocated(bs: Seq<MintBalance>, remaining: int) -> int
    decreases bs.len(),
{
    if bs.len() == 0 || remaining <= 0 {
        if remaining <= 0 { 0 } else { remaining }
    } else {
        let c = if bs[0].balance < remaining { bs[0].balance as int } else { remaining };
        unallocated(bs.drop_first(), remaining - c)
    }
}

/// Sum of the amounts of an allocation.
pub open spec fn allocated_sum(a: Seq<(Seq<char>, u64)>) -> int
    decreases a.len(),
{
    if a.len() == 0 { 0 } else { allocated_sum(a.drop_last()) + a.last().1 }
}

/// The order in which the split considers mints: those taking part, by
/// decreasing balance (ties keep their order).
pub open spec fn split_order(bs: Seq<MintBalance>, allowed: Option<Seq<Seq<char>>>) -> Seq<MintBalance> {
    sort_desc_by(available_mints(bs, allowed), balance_key())
}

/// The view of an optional list of mint URLs.
pub open spec fn allowed_view(allowed: Option<Vec<String>>) -> Option<Seq<Seq<char>>> {
    match allowed {
        Some(v) => Some(string_views(v@)),
        None => None,
    }
}

/// The view of a split.
pub open spec fn split_view(v: Seq<(String, u64)>) -> Seq<(Seq<char>, u64)> {
    v.map_values(|p: (String, u64)| (p.0@, p.1))
}

/// Sorts balances by decreasing balance, keeping the order of equal ones.
fn sort_by_balance_desc(v: &Vec<MintBalance>) -> (r: Vec<MintBalance>)
    ensures
        r@ == sort_desc_by(v@, balance_key()),
{
    let mut r: Vec<MintBalance> = Vec::new();
    for i in 0..v.len()
        invariant
            r@ == sort_desc_by(v@.take(i as int), balance_key()),
    {
        let x = v[i].clone();
        let mut j: usize = 0;
        let mut found = false;
        while j < r.len() && !found
            invariant
                j <= r.len(),
                forall|k: int| 0 <= k < j ==> r@[k].balance >= x.balance,
                found ==> j < r.len() && r@[j as int].balance < x.balance,
            decreases r.len() - j + (if found { 0int } else { 1int }),
        {
            if r[j].balance < x.balance {
                found = true;
            } else {
                j = j + 1;
            }
        }
        proof {
            lemma_insert_pos_by(r@, x, balance_key(), j as int);
            assert(v@.take(i + 1).drop_last() =~= v@.take(i as int));
        }
        r.insert(j, x);
    }
    assert(v@.take(v.len() as int) =~= v@);
    r
}

/// Sorting keeps the sum of balances and the length.
pub proof fn lemma_sort_keeps_balance(s: Seq<MintBalance>)
    ensures
        balance_sum(sort_desc_by(s, balance_key())) == balance_sum(s),
        sort_desc_by(s, balance_key()).len() == s.len(),
    decreases s.len(),
{
    if s.len() > 0 {
        lemma_sort_keeps_balance(s.drop_last());
        let t = sort_desc_by(s.drop_last(), balance_key());
        crate::sorting::lemma_insert_pos_by_props(t, s.last(), balance_key());
        let j = crate::sorting::insert_pos_by(t, s.last(), balance_key());
        let u = t.insert(j, s.last());
        assert(u == sort_desc_by(s, balance_key()));
        lemma_balance_sum_insert(t, j, s.last());
        assert(s.drop_last().len() == s.len() - 1);
        assert(balance_sum(s) == balance_sum(s.drop_last()) + s.last().balance);
    }
}

/// Inserting an element adds its balance to the sum.
proof fn lemma_balance_sum_insert(t: Seq<MintBalance>, j: int, x: MintBalance)
    requires
        0 <= j <= t.len(),
    ensures
        balance_sum(t.insert(j, x)) == balance_sum(t) + x.balance,
    decreases t.len(),
{
    if j == t.len() {
        assert(t.insert(j, x) =~= t.push(x));
        assert(t.push(x).drop_last() =~= t);
    } else {
        lemma_balance_sum_insert(t.drop_last(), j, x);
        assert(t.insert(j, x).drop_last() =~= t.drop_last().insert(j, x));
        assert(t.insert(j, x).last() == t.last());
    }
}

/// A greedy allocation over mints holding at least the amount allocates
/// all of it; its parts sum to what was asked less what is left, each part
/// is positive and within the balance of the mint it comes from.
pub proof fn lemma_allocate(bs: Seq<MintBalance>, remaining: int)
    requires
        remaining >= 0,
    ensures
        allocated_sum(allocate(bs, remaining)) + unallocated(bs, remaining) == remaining,
        balance_sum(bs) >= remaining ==> unallocated(bs, remaining) == 0,
        forall|k: int| 0 <= k < allocate(bs, remaining).len() ==> #[trigger] allocate(bs, remaining)[k].1 > 0,
        0 <= unallocated(bs, remaining) <= remaining,
    decreases bs.len(),
{
    if bs.len() > 0 && remaining > 0 {
        let c = if bs[0].balance < remaining { bs[0].balance as int } else { remaining };
        lemma_allocate(bs.drop_first(), remaining - c);
        lemma_balance_sum_first(bs);
        let rest = allocate(bs.drop_first(), remaining - c);
        if c > 0 {
            lemma_allocated_sum_prepend((bs[0].mint_url@, c as u64), rest);
            assert forall|k: int| 0 <= k < allocate(bs, remaining).len() implies #[trigger] allocate(bs, remaining)[k].1 > 0 by {
                if k > 0 {
                    assert(allocate(bs, remaining)[k] == rest[k - 1]);
                }
            }
        }
    }
}

/// The sum of a list of balances is its first plus the rest.
proof fn lemma_balance_sum_first(bs: Seq<MintBalance>)
    requires
        bs.len() > 0,
    ensures
        balance_sum(bs) == bs[0].balance + balance_sum(bs.drop_first()),
    decreases bs.len(),
{
    if bs.len() > 1 {
        lemma_balance_sum_first(bs.drop_last());
        assert(bs.drop_last().drop_first() =~= bs.drop_first().drop_last());
        assert(bs.drop_first().last() == bs.last());
        assert(bs.drop_last()[0] == bs[0]);
    } else {
        assert(balance_sum(bs.drop_first()) == 0);
        assert(balance_sum(bs.drop_last()) == 0);
        assert(bs.last() == bs[0]);
    }
}

/// Prepending a part adds its amount.
proof fn lemma_allocated_sum_prepend(x: (Seq<char>, u64), a: Seq<(Seq<char>, u64)>)
    ensures
        allocated_sum(seq![x] + a) == x.1 + allocated_sum(a),
    decreases a.len(),
{
    if a.len() > 0 {
        lemma_allocated_sum_prepend(x, a.drop_last());
        assert((seq![x] + a).drop_last() =~= seq![x] + a.drop_last());
        assert((seq![x] + a).last() == a.last());
    } else {
        assert(seq![x] + a =~= seq![x]);
        assert(seq![x].drop_last() =~= Seq::<(Seq<char>, u64)>::empty());
        assert(allocated_sum(Seq::<(Seq<char>, u64)>::empty()) == 0);
        assert(allocated_sum(a) == 0);
    }
}

/// Splits `target_amount` across mints for a multi-path payment: mints
/// with a balance (among `include_mints` when given) are taken by
/// decreasing balance, each giving as much as it has up to what is still
/// needed.
pub fn calculate_mpp_split(balances: &Vec<MintBalance>, target_amount: u64, include_mints: &Option<Vec<String>>) -> (r: Result<Vec<(String, u64)>, String>)
    ensures
        ({
            let av = available_mints(balances@, allowed_view(*include_mints));
            let total = balance_sum(av);
            let order = split_order(balances@, allowed_view(*include_mints));
            if av.len() == 0 {
                r matches Err(e) && e@ == "No mints with available balance"@
            } else if total > u64::MAX {
                r matches Err(e) && e@ == "Balance sum overflow in MPP split calculation"@
            } else if total < target_amount {
                r matches Err(e) && e@ == "Insufficient total balance: "@ + decimal(total as nat) + " sats available, "@
                    + decimal(target_amount as nat) + " sats needed"@
            } else {
                r matches Ok(v) && split_view(v@) == allocate(order, target_amount as int)
                    && allocated_sum(split_view(v@)) == target_amount
            }
        }),
{
    let ghost inc = allowed_view(*include_mints);
    let mut available: Vec<MintBalance> = Vec::new();
    for i in 0..balances.len()
        invariant
            inc == allowed_view(*include_mints),
            available@ == available_mints(balances@.take(i as int), inc),
    {
        assert(balances@.take(i + 1).drop_last() =~= balances@.take(i as int));
        let b = &balances[i];
        let included = match include_mints {
            Some(ids) => contains_string(ids, &b.mint_url),
            None => true,
        };
        if included && b.balance > 0 {
            available.push(b.clone());
        }
    }
    assert(balances@.take(balances.len() as int) =~= balances@);
    if available.len() == 0 {
        return Err(String::from_str("No mints with available balance"));
    }
    let mut total: u64 = 0;
    for i in 0..available.len()
        invariant
            available@ == available_mints(balances@, inc),
            inc == allowed_view(*include_mints),
            available@.len() > 0,
            total == balance_sum(available@.take(i as int)),
    {
        assert(available@.take(i + 1).drop_last() =~= available@.take(i as int));
        match total.checked_add(available[i].balance) {
            Some(t) => {
                total = t;
            },
            None => {
                proof {
                    lemma_balance_sum_prefix(available@, i + 1);
                }
                return Err(String::from_str("Balance sum overflow in MPP split calculation"));
            },
        }
    }
    assert(available@.take(available.len() as int) =~= available@);
    if total < target_amount {
        let mut e = String::from_str("Insufficient total balance: ");
        append_decimal(&mut e, total);
        e.append(" sats available, ");
        append_decimal(&mut e, target_amount);
        e.append(" sats needed");
        return Err(e);
    }
    let sorted = sort_by_balance_desc(&available);
    proof {
        lemma_sort_keeps_balance(available@);
        lemma_allocate(sorted@, target_amount as int);
    }
    let ghost s = sorted@;
    let mut remaining: u64 = target_amount;
    let mut allocations: Vec<(String, u64)> = Vec::new();
    let mut i: usize = 0;
    assert(s.skip(0) =~= s);
    while i < sorted.len() && remaining != 0
        invariant
            i <= sorted.len(),
            s == sorted@,
            remaining <= target_amount,
            split_view(allocations@) + allocate(s.skip(i as int), remaining as int) == allocate(s, target_amount as int),
            unallocated(s.skip(i as int), remaining as int) == unallocated(s, target_amount as int),
        decreases sorted.len() - i,
    {
        let b = &sorted[i];
        let contribution = if b.balance < remaining { b.balance } else { remaining };
        assert(s.skip(i as int)[0] == s[i as int]);
        assert(s.skip(i as int).drop_first() =~= s.skip(i + 1));
        if contribution > 0 {
            let ghost before = split_view(allocations@);
            allocations.push((b.mint_url.clone(), contribution));
            assert(split_view(allocations@) =~= before.push((s[i as int].mint_url@, contribution)));
            assert(before.push((s[i as int].mint_url@, contribution)) + allocate(s.skip(i + 1), remaining - contribution)
                =~= before + allocate(s.skip(i as int), remaining as int));
            remaining = remaining - contribution;
        }
        i = i + 1;
    }
    proof {
        assert(allocate(s.skip(i as int), remaining as int) =~= Seq::<(Seq<char>, u64)>::empty());
        assert(split_view(allocations@) =~= allocate(s, target_amount as int));
        if i == sorted.len() {
            assert(s.skip(i as int).len() == 0);
        }
        assert(unallocated(s, target_amount as int) == remaining);
    }
    if remaining > 0 {
        return Err(String::from_str("Could not allocate enough balance across mints"));
    }
    Ok(allocations)
}

/// The sum of a prefix is at most the sum of the whole.
proof fn lemma_balance_sum_prefix(bs: Seq<MintBalance>, i: int)
    requires
        0 <= i <= bs.len(),
    ensures
        balance_sum(bs.take(i)) <= balance_sum(bs),
    decreases bs.len() - i,
{
    if i < bs.len() {
        lemma_balance_sum_prefix(bs, i + 1);
        assert(bs.take(i + 1).drop_last() =~= bs.take(i));
    } else {
        assert(bs.take(i) =~= bs);
    }
}

/// Sum of the amounts of the contributions.
pub open spec fn contribution_amounts(cs: Seq<MppQuoteContribution>) -> int
    decreases cs.len(),
{
    if cs.len() == 0 { 0 } else { contribution_amounts(cs.drop_last()) + cs.last().amount }
}

/// Sum of the fee reserves of the contributions.
pub open spec fn contribution_fees(cs: Seq<MppQuoteContribution>) -> int
    decreases cs.len(),
{
    if cs.len() == 0 { 0 } else { contribution_fees(cs.drop_last()) + cs.last().fee_reserve }
}

/// The quotes of a multi-path payment with their totals; fails when a total
/// does not fit in 64 bits (the amounts first).
pub fn mpp_quote_info(contributions: Vec<MppQuoteContribution>) -> (r: Result<MppQuoteInfo, String>)
    ensures
        contribution_amounts(contributions@) > u64::MAX ==> (r matches Err(e) && e@ == "MPP quote total amount overflow"@),
        contribution_amounts(contributions@) <= u64::MAX && contribution_fees(contributions@) > u64::MAX ==> (r matches Err(e)
            && e@ == "MPP quote fee reserve overflow"@),
        contribution_amounts(contributions@) <= u64::MAX && contribution_fees(contributions@) <= u64::MAX ==> (r matches Ok(info)
            && info.contributions@ == contributions@ && info.total_amount == contribution_amounts(contributions@)
            && info.total_fee_reserve == contribution_fees(contributions@)),
{
    let mut total_amount: u64 = 0;
    for i in 0..contributions.len()
        invariant
            total_amount == contribution_amounts(contributions@.take(i as int)),
    {
        assert(contributions@.take(i + 1).drop_last() =~= contributions@.take(i as int));
        match total_amount.checked_add(contributions[i].amount) {
            Some(t) => {
                total_amount = t;
            },
            None => {
                proof {
                    lemma_contribution_prefix(contributions@, i + 1);
                }
                return Err(String::from_str("MPP quote total amount overflow"));
            },
        }
    }
    assert(contributions@.take(contributions.len() as int) =~= contributions@);
    let mut total_fee: u64 = 0;
    for i in 0..contributions.len()
        invariant
            total_amount == contribution_amounts(contributions@),
            total_fee == contribution_fees(contributions@.take(i as int)),
    {
        assert(contributions@.take(i + 1).drop_last() =~= contributions@.take(i as int));
        match total_fee.checked_add(contributions[i].fee_reserve) {
            Some(t) => {
                total_fee = t;
            },
            None => {
                proof {
                    lemma_contribution_prefix(contributions@, i + 1);
                }
                return Err(String::from_str("MPP quote fee reserve overflow"));
            },
        }
    }
    assert(contributions@.take(contributions.len() as int) =~= contributions@);
    Ok(MppQuoteInfo { contributions, total_amount, total_fee_reserve: total_fee })
}

/// The sums of a prefix are at most those of the whole.
proof fn lemma_contribution_prefix(cs: Seq<MppQuoteContribution>, i: int)
    requires
        0 <= i <= cs.len(),
    ensures
        contribution_amounts(cs.take(i)) <= contribution_amounts(cs),
        contribution_fees(cs.take(i)) <= contribution_fees(cs),
    decreases cs.len() - i,
{
    if i < cs.len() {
        lemma_contribution_prefix(cs, i + 1);
        assert(cs.take(i + 1).drop_last() =~= cs.take(i));
    } else {
        assert(cs.take(i) =~= cs);
    }
}

/// The totals of the melts, adding amount then fee of each in turn, or the
/// error of the first addition that overflows.
pub open spec fn melt_totals(rs: Seq<MeltContribution>) -> Result<(int, int), Seq<char>>
    decreases rs.len(),
{
    if rs.len() == 0 {
        Ok((0, 0))
    } else {
        match melt_totals(rs.drop_last()) {
            Err(e) => Err(e),
            Ok((a, f)) => {
                if a + rs.last().amount > u64::MAX {
                    Err("MPP total amount overflow"@)
                } else if f + rs.last().fee_paid > u64::MAX {
                    Err("MPP total fee overflow"@)
                } else {
                    Ok((a + rs.last().amount, f + rs.last().fee_paid))
                }
            },
        }
    }
}

/// The first payment proof reported, if any.
pub open spec fn first_payment_proof(rs: Seq<MeltContribution>) -> Option<String>
    decreases rs.len(),
{
    if rs.len() == 0 {
        None
    } else if rs[0].payment_proof is Some {
        rs[0].payment_proof
    } else {
        first_payment_proof(rs.drop_first())
    }
}

/// Every mint reported its part paid.
pub open spec fn all_paid(rs: Seq<MeltContribution>) -> bool {
    forall|i: int| 0 <= i < rs.len() ==> #[trigger] rs[i].paid
}

/// Combines the melts of a multi-path payment: total paid and fees, the
/// first payment proof, and whether every part was paid.
pub fn aggregate_mpp_melt(results: &Vec<MeltContribution>) -> (r: Result<MppMeltResult, String>)
    ensures
        melt_totals(results@) matches Err(e) ==> (r matches Err(m) && m@ == e),
        melt_totals(results@) matches Ok((a, f)) ==> (r matches Ok(res) && res.total_amount_paid == a
            && res.total_fee_paid == f && res.preimage == first_payment_proof(results@)
            && res.paid == all_paid(results@) && res.contributions == results@.len()),
{
    let mut total_paid: u64 = 0;
    let mut total_fee: u64 = 0;
    let mut preimage: Option<String> = None;
    let mut paid = true;
    let ghost s = results@;
    assert(s.skip(0) =~= s);
    for i in 0..results.len()
        invariant
            s == results@,
            melt_totals(s.take(i as int)) == Ok::<(int, int), Seq<char>>((total_paid as int, total_fee as int)),
            first_payment_proof(s) == (if preimage is Some { preimage } else { first_payment_proof(s.skip(i as int)) }),
            paid == all_paid(s.take(i as int)),
    {
        assert(s.take(i + 1).drop_last() =~= s.take(i as int));
        let rr = &results[i];
        let ghost before = s.take(i as int);
        let a = match total_paid.checked_add(rr.amount) {
            Some(t) => t,
            None => {
                proof {
                    lemma_melt_totals_err(s, i + 1);
                }
                return Err(String::from_str("MPP total amount overflow"));
            },
        };
        let f = match total_fee.checked_add(rr.fee_paid) {
            Some(t) => t,
            None => {
                proof {
                    lemma_melt_totals_err(s, i + 1);
                }
                return Err(String::from_str("MPP total fee overflow"));
            },
        };
        total_paid = a;
        total_fee = f;
        proof {
            assert(s.skip(i as int)[0] == s[i as int]);
            assert(s.skip(i as int).drop_first() =~= s.skip(i + 1));
        }
        if preimage.is_none() {
            match &rr.payment_proof {
                Some(p) => {
                    preimage = Some(p.clone());
                },
                None => {},
            }
        }
        if !rr.paid {
            paid = false;
        }
        proof {
            assert forall|k: int| 0 <= k < s.take(i + 1).len() implies #[trigger] s.take(i + 1)[k].paid == (if k < i {
                s.take(i as int)[k].paid
            } else {
                s[i as int].paid
            }) by {}
            if paid {
                assert forall|k: int| 0 <= k < s.take(i + 1).len() implies #[trigger] s.take(i + 1)[k].paid by {
                    if k < i {
                        assert(s.take(i as int)[k].paid);
                    }
                }
            } else {
                if !s[i as int].paid {
                    assert(!s.take(i + 1)[i as int].paid);
                } else {
                    let k = choose|k: int| 0 <= k < s.take(i as int).len() && !#[trigger] s.take(i as int)[k].paid;
                    assert(!s.take(i + 1)[k].paid);
                }
            }
        }
    }
    assert(s.take(s.len() as int) =~= s);
    proof {
        if preimage is None {
            assert(s.skip(s.len() as int).len() == 0);
        }
    }
    Ok(MppMeltResult { paid, preimage, total_amount_paid: total_paid, total_fee_paid: total_fee, contributions: results.len() })
}

/// Once a prefix of the melts overflows, the whole does with the same error.
proof fn lemma_melt_totals_err(rs: Seq<MeltContribution>, i: int)
    requires
        0 <= i <= rs.len(),
        melt_totals(rs.take(i)) is Err,
    ensures
        melt_totals(rs) == melt_totals(rs.take(i)),
    decreases rs.len() - i,
{
    if i < rs.len() {
        assert(rs.take(i + 1).drop_last() =~= rs.take(i));
        lemma_melt_totals_err(rs, i + 1);
    } else {
        assert(rs.take(i) =~= rs);
    }
}

/// Event ids of the tokens held at each affected mint (mint URLs compared
/// exactly), mint after mint: the token events a multi-path melt replaces.
pub open spec fn event_ids_at(tokens: Seq<TokenData>, mint: Seq<char>) -> Seq<Seq<char>>
    decreases tokens.len(),
{
    if tokens.len() == 0 {
        Seq::empty()
    } else {
        let rest = event_ids_at(tokens.drop_last(), mint);
        if tokens.last().mint@ == mint { rest.push(tokens.last().event_id@) } else { rest }
    }
}

/// The event ids of all affected mints, in the order of the mints.
pub open spec fn event_ids_for_mints(tokens: Seq<TokenData>, mints: Seq<Seq<char>>) -> Seq<Seq<char>>
    decreases mints.len(),
{
    if mints.len() == 0 {
        Seq::empty()
    } else {
        event_ids_for_mints(tokens, mints.drop_last()) + event_ids_at(tokens, mints.last())
    }
}

/// The token events that a multi-path melt over `affected_mints` replaces.
pub fn mpp_event_ids_to_delete(tokens: &Vec<TokenData>, affected_mints: &Vec<String>) -> (r: Vec<String>)
    ensures
        string_views(r@) == event_ids_for_mints(tokens@, string_views(affected_mints@)),
{
    let mut r: Vec<String> = Vec::new();
    for m in 0..affected_mints.len()
        invariant
            string_views(r@) == event_ids_for_mints(tokens@, string_views(affected_mints@.take(m as int))),
    {
        assert(string_views(affected_mints@.take(m + 1)).drop_last() =~= string_views(affected_mints@.take(m as int)));
        let ghost start = string_views(r@);
        let mint = &affected_mints[m];
        for i in 0..tokens.len()
            invariant
                m < affected_mints@.len(),
                mint@ == affected_mints@[m as int]@,
                string_views(r@) == start + event_ids_at(tokens@.take(i as int), mint@),
        {
            assert(tokens@.take(i + 1).drop_last() =~= tokens@.take(i as int));
            if tokens[i].mint == *mint {
                let ghost before = r@;
                r.push(tokens[i].event_id.clone());
                assert(string_views(r@) =~= string_views(before).push(tokens@[i as int].event_id@));
                assert(string_views(r@) =~= start + event_ids_at(tokens@.take(i + 1), mint@));
            }
        }
        assert(tokens@.take(tokens.len() as int) =~= tokens@);
    }
    assert(affected_mints@.take(affected_mints.len() as int) =~= affected_mints@);
    r
}

} // verus!
