//! Dust: small proofs that cost more to keep than they are worth, and when
//! to consolidate them.
use vstd::prelude::*;
use vstd::string::*;
use crate::fees::sat_u64;
use crate::text::{append_decimal, decimal};
use crate::types::{
    ProofData, TokenData, mint_matches, normalize_mint_url, normalized_mint, same_mint,
};

verus! {

/// Default threshold for considering a proof as dust (in sats).
pub const DEFAULT_DUST_THRESHOLD: u64 = 4;

/// Minimum number of dust proofs before consolidation is recommended.
pub const MIN_DUST_COUNT: usize = 10;

/// Maximum dust value to consider for consolidation (in sats).
pub const MAX_DUST_TOTAL: u64 = 100;

/// Dust statistics for a mint.
#[derive(Debug, Clone, Copy, PartialEq, Eq, Structural)]
pub struct DustStats {
    /// Number of dust proofs.
    pub count: usize,
    /// Total value of dust proofs.
    pub total_value: u64,
    /// Average dust proof size.
    pub avg_value: u64,
    /// Whether consolidation is recommended.
    pub should_consolidate: bool,
    /// Estimated fee for consolidation.
    pub estimated_fee: u64,
}

/// All-zero statistics.
pub open spec fn empty_stats() -> DustStats {
    DustStats { count: 0, total_value: 0, avg_value: 0, should_consolidate: false, estimated_fee: 0 }
}

impl Default for DustStats {
    fn default() -> (r: Self)
        ensures
            r == empty_stats(),
    {
        DustStats { count: 0, total_value: 0, avg_value: 0, should_consolidate: false, estimated_fee: 0 }
    }
}

/// Proofs of `ps` worth at most `threshold`, in order.
pub open spec fn small_proofs(ps: Seq<ProofData>, threshold: u64) -> Seq<ProofData>
    decreases ps.len(),
{
    if ps.len() == 0 {
        Seq::empty()
    } else {
        let rest = small_proofs(ps.drop_last(), threshold);
        if ps.last().amount <= threshold { rest.push(ps.last()) } else { rest }
    }
}

/// Dust proofs of the tokens of a mint, token by token, in order.
pub open spec fn dust_of(tokens: Seq<TokenData>, mint: Seq<char>, threshold: u64) -> Seq<ProofData>
    decreases tokens.len(),
{
    if tokens.len() == 0 {
        Seq::empty()
    } else {
        let rest = dust_of(tokens.drop_last(), mint, threshold);
        if same_mint(tokens.last().mint@, mint) {
            rest + small_proofs(tokens.last().proofs@, threshold)
        } else {
            rest
        }
    }
}

/// Sum of proof amounts, saturating at `u64::MAX` at every step.
pub open spec fn sat_sum(ps: Seq<ProofData>) -> u64
    decreases ps.len(),
{
    if ps.len() == 0 {
        0
    } else {
        sat_u64(sat_sum(ps.drop_last()) + ps.last().amount)
    }
}

/// Proofs of `ps` worth at most `threshold`.
fn collect_small(ps: &Vec<ProofData>, threshold: u64, out: &mut Vec<ProofData>)
    ensures
        final(out)@ == old(out)@ + small_proofs(ps@, threshold),
{
    let ghost start = out@;
    for i in 0..ps.len()
        invariant
            out@ == start + small_proofs(ps@.take(i as int), threshold),
    {
        assert(ps@.take(i + 1).drop_last() =~= ps@.take(i as int));
        if ps[i].amount <= threshold {
            out.push(ps[i].clone());
        }
        assert(out@ =~= start + small_proofs(ps@.take(i + 1), threshold));
    }
    assert(ps@.take(ps.len() as int) =~= ps@);
}

/// Dust proofs of a mint: proofs worth at most `threshold` in the tokens
/// whose mint matches the normalized `mint_url`.
pub fn find_dust_proofs(tokens: &Vec<TokenData>, mint_url: &str, threshold: u64) -> (r: Vec<ProofData>)
    ensures
        r@ == dust_of(tokens@, normalized_mint(mint_url@), threshold),
{
    let normalized = normalize_mint_url(mint_url);
    let mut out: Vec<ProofData> = Vec::new();
    for i in 0..tokens.len()
        invariant
            normalized@ == normalized_mint(mint_url@),
            out@ == dust_of(tokens@.take(i as int), normalized@, threshold),
    {
        assert(tokens@.take(i + 1).drop_last() =~= tokens@.take(i as int));
        if mint_matches(tokens[i].mint.as_str(), normalized.as_str()) {
            collect_small(&tokens[i].proofs, threshold, &mut out);
        }
    }
    assert(tokens@.take(tokens.len() as int) =~= tokens@);
    out
}

/// Saturating sum of proof amounts.
pub fn sum_amounts(ps: &Vec<ProofData>) -> (r: u64)
    ensures
        r == sat_sum(ps@),
{
    let mut total: u64 = 0;
    for i in 0..ps.len()
        invariant
            total == sat_sum(ps@.take(i as int)),
    {
        assert(ps@.take(i + 1).drop_last() =~= ps@.take(i as int));
        total = total.saturating_add(ps[i].amount);
    }
    assert(ps@.take(ps.len() as int) =~= ps@);
    total
}

/// The consolidation recommendation for a count and a total: enough dust,
/// worth more than the fee (one sat per proof), and not too much of it.
pub open spec fn recommend_consolidation(count: usize, total: u64, fee: u64) -> bool {
    count >= 10 && total > fee && total <= 100
}

/// Statistics of a list of dust proofs.
pub open spec fn stats_of(dust: Seq<ProofData>) -> DustStats {
    if dust.len() == 0 {
        empty_stats()
    } else {
        let count = dust.len() as usize;
        let total = sat_sum(dust);
        DustStats {
            count,
            total_value: total,
            avg_value: (total / (count as u64)) as u64,
            should_consolidate: recommend_consolidation(count, total, count as u64),
            estimated_fee: count as u64,
        }
    }
}

/// Dust statistics of a mint.
pub open spec fn dust_stats_of(tokens: Seq<TokenData>, mint: Seq<char>, threshold: u64) -> DustStats {
    stats_of(dust_of(tokens, normalized_mint(mint), threshold))
}

/// Statistics of a list of dust proofs.
fn stats_of_dust(dust: &Vec<ProofData>) -> (r: DustStats)
    ensures
        r == stats_of(dust@),
{
    if dust.len() == 0 {
        return DustStats::default();
    }
    let count = dust.len();
    let total_value = sum_amounts(dust);
    let c = count as u64;
    let estimated_fee = c;
    let should_consolidate = count >= MIN_DUST_COUNT && total_value > estimated_fee
        && total_value <= MAX_DUST_TOTAL;
    DustStats { count, total_value, avg_value: total_value / c, should_consolidate, estimated_fee }
}

/// Dust statistics for a mint.
pub fn get_dust_stats(tokens: &Vec<TokenData>, mint_url: &str, threshold: u64) -> (r: DustStats)
    ensures
        r == dust_stats_of(tokens@, mint_url@, threshold),
{
    let dust = find_dust_proofs(tokens, mint_url, threshold);
    stats_of_dust(&dust)
}

/// The mint URLs of the tokens, each once, in order of first appearance.
pub open spec fn distinct_mints(tokens: Seq<TokenData>) -> Seq<Seq<char>>
    decreases tokens.len(),
{
    if tokens.len() == 0 {
        Seq::empty()
    } else {
        let d = distinct_mints(tokens.drop_last());
        if d.contains(tokens.last().mint@) { d } else { d.push(tokens.last().mint@) }
    }
}

/// The dust statistics of each mint of `mints` that has dust, in order.
pub open spec fn stats_entries(mints: Seq<Seq<char>>, tokens: Seq<TokenData>, threshold: u64) -> Seq<(Seq<char>, DustStats)>
    decreases mints.len(),
{
    if mints.len() == 0 {
        Seq::empty()
    } else {
        let rest = stats_entries(mints.drop_last(), tokens, threshold);
        let s = dust_stats_of(tokens, mints.last(), threshold);
        if s.count > 0 { rest.push((mints.last(), s)) } else { rest }
    }
}

/// The view of a list of (mint, statistics) entries.
pub open spec fn entries_view(v: Seq<(String, DustStats)>) -> Seq<(Seq<char>, DustStats)> {
    v.map_values(|e: (String, DustStats)| (e.0@, e.1))
}

/// The distinct mint URLs of the tokens.
fn collect_distinct_mints(tokens: &Vec<TokenData>) -> (r: Vec<String>)
    ensures
        r@.map_values(|s: String| s@) == distinct_mints(tokens@),
{
    let mut r: Vec<String> = Vec::new();
    for i in 0..tokens.len()
        invariant
            r@.map_values(|s: String| s@) == distinct_mints(tokens@.take(i as int)),
    {
        assert(tokens@.take(i + 1).drop_last() =~= tokens@.take(i as int));
        let m = &tokens[i].mint;
        let mut found = false;
        let mut j: usize = 0;
        while j < r.len()
            invariant
                j <= r.len(),
                found == exists|k: int| 0 <= k < j && r@[k]@ == m@,
            decreases r.len() - j,
        {
            if r[j] == *m {
                found = true;
            }
            j = j + 1;
        }
        let ghost views = r@.map_values(|s: String| s@);
        proof {
            if found {
                let k = choose|k: int| 0 <= k < r.len() && r@[k]@ == m@;
                assert(views[k] == m@);
            } else {
                assert forall|k: int| 0 <= k < views.len() implies views[k] != m@ by {
                    assert(views[k] == r@[k]@);
                }
            }
        }
        if !found {
            r.push(m.clone());
            assert(r@.map_values(|s: String| s@) =~= views.push(m@));
        }
    }
    assert(tokens@.take(tokens.len() as int) =~= tokens@);
    r
}

/// Dust statistics for every mint that has dust, one entry per distinct mint
/// URL, in order of first appearance among the tokens.
pub fn get_all_dust_stats(tokens: &Vec<TokenData>, threshold: u64) -> (r: Vec<(String, DustStats)>)
    ensures
        entries_view(r@) == stats_entries(distinct_mints(tokens@), tokens@, threshold),
{
    let mints = collect_distinct_mints(tokens);
    let ghost mv = mints@.map_values(|s: String| s@);
    let mut r: Vec<(String, DustStats)> = Vec::new();
    for i in 0..mints.len()
        invariant
            mv == mints@.map_values(|s: String| s@),
            entries_view(r@) == stats_entries(mv.take(i as int), tokens@, threshold),
    {
        assert(mv.take(i + 1).drop_last() =~= mv.take(i as int));
        assert(mv.take(i + 1).last() == mints@[i as int]@);
        let stats = get_dust_stats(tokens, mints[i].as_str(), threshold);
        if stats.count > 0 {
            let ghost before = r@;
            r.push((mints[i].clone(), stats));
            assert(entries_view(r@) =~= entries_view(before).push((mints@[i as int]@, stats)));
        }
    }
    assert(mv.take(mints.len() as int) =~= mv);
    r
}

/// The entries whose statistics recommend consolidation, in order.
pub open spec fn recommended(entries: Seq<(Seq<char>, DustStats)>) -> Seq<(Seq<char>, DustStats)>
    decreases entries.len(),
{
    if entries.len() == 0 {
        Seq::empty()
    } else {
        let rest = recommended(entries.drop_last());
        if entries.last().1.should_consolidate { rest.push(entries.last()) } else { rest }
    }
}

/// Mints for which consolidation is recommended, at the default threshold.
pub fn should_consolidate_dust(tokens: &Vec<TokenData>) -> (r: Vec<(String, DustStats)>)
    ensures
        entries_view(r@) == recommended(stats_entries(distinct_mints(tokens@), tokens@, DEFAULT_DUST_THRESHOLD)),
{
    let all = get_all_dust_stats(tokens, DEFAULT_DUST_THRESHOLD);
    let ghost av = entries_view(all@);
    let mut r: Vec<(String, DustStats)> = Vec::new();
    for i in 0..all.len()
        invariant
            av == entries_view(all@),
            entries_view(r@) == recommended(av.take(i as int)),
    {
        assert(av.take(i + 1).drop_last() =~= av.take(i as int));
        if all[i].1.should_consolidate {
            let ghost before = r@;
            r.push((all[i].0.clone(), all[i].1));
            assert(entries_view(r@) =~= entries_view(before).push(av[i as int]));
        }
    }
    assert(av.take(all.len() as int) =~= av);
    r
}

/// Saturating sums of counts, totals and fees over statistics entries.
pub open spec fn summed(entries: Seq<(Seq<char>, DustStats)>) -> (usize, u64, u64)
    decreases entries.len(),
{
    if entries.len() == 0 {
        (0, 0, 0)
    } else {
        let (c, t, f) = summed(entries.drop_last());
        let s = entries.last().1;
        (
            if c + s.count > usize::MAX { usize::MAX } else { (c + s.count) as usize },
            sat_u64(t + s.total_value),
            sat_u64(f + s.estimated_fee),
        )
    }
}

/// The statistics of all dust together, from the per-mint sums.
pub open spec fn total_stats_of(sums: (usize, u64, u64)) -> DustStats {
    let (count, total, fee) = sums;
    if count > 0 {
        DustStats {
            count,
            total_value: total,
            avg_value: (total / (count as u64)) as u64,
            should_consolidate: recommend_consolidation(count, total, fee),
            estimated_fee: fee,
        }
    } else {
        DustStats { count, total_value: total, avg_value: 0, should_consolidate: false, estimated_fee: fee }
    }
}

/// Total dust across all mints, at the default threshold.
pub fn get_total_dust_stats(tokens: &Vec<TokenData>) -> (r: DustStats)
    ensures
        r == total_stats_of(summed(stats_entries(distinct_mints(tokens@), tokens@, DEFAULT_DUST_THRESHOLD))),
{
    let all = get_all_dust_stats(tokens, DEFAULT_DUST_THRESHOLD);
    let ghost av = entries_view(all@);
    let mut count: usize = 0;
    let mut total: u64 = 0;
    let mut fee: u64 = 0;
    for i in 0..all.len()
        invariant
            av == entries_view(all@),
            (count, total, fee) == summed(av.take(i as int)),
    {
        assert(av.take(i + 1).drop_last() =~= av.take(i as int));
        let s = all[i].1;
        count = count.saturating_add(s.count);
        total = total.saturating_add(s.total_value);
        fee = fee.saturating_add(s.estimated_fee);
    }
    assert(av.take(all.len() as int) =~= av);
    let mut r = DustStats { count, total_value: total, avg_value: 0, should_consolidate: false, estimated_fee: fee };
    if count > 0 {
        r.avg_value = total / (count as u64);
        r.should_consolidate = count >= MIN_DUST_COUNT && total > fee && total <= MAX_DUST_TOTAL;
    }
    r
}

/// Result of a dust consolidation.
#[derive(Debug, Clone, Copy, PartialEq, Eq, Structural, Default)]
pub struct DustConsolidationResult {
    /// Number of dust proofs consolidated.
    pub proofs_consolidated: usize,
    /// Value before consolidation.
    pub input_value: u64,
    /// Value after consolidation.
    pub output_value: u64,
    /// Fee paid.
    pub fee_paid: u64,
    /// Number of output proofs.
    pub output_proofs: usize,
}

/// Decides whether dust is worth swapping: `Ok(None)` when there is no
/// dust, an error when the value does not exceed the estimated fee (one
/// sat per proof), and otherwise the proof count and the input value.
pub fn plan_dust_consolidation(dust: &Vec<ProofData>) -> (r: Result<Option<(usize, u64)>, String>)
    ensures
        dust@.len() == 0 ==> r matches Ok(None),
        dust@.len() > 0 && sat_sum(dust@) <= dust@.len() ==> (r matches Err(e)
            && e@ == "Dust consolidation not worthwhile: "@ + decimal(sat_sum(dust@) as nat) + " sats value, "@
            + decimal(dust@.len()) + " sats estimated fee"@),
        dust@.len() > 0 && sat_sum(dust@) > dust@.len() ==> r == Ok::<Option<(usize, u64)>, String>(
            Some((dust@.len() as usize, sat_sum(dust@))),
        ),
{
    if dust.len() == 0 {
        return Ok(None);
    }
    let count = dust.len();
    let input_value = sum_amounts(dust);
    let estimated_fee = count as u64;
    if input_value <= estimated_fee {
        let mut e = String::from_str("Dust consolidation not worthwhile: ");
        append_decimal(&mut e, input_value);
        e.append(" sats value, ");
        append_decimal(&mut e, estimated_fee);
        e.append(" sats estimated fee");
        return Err(e);
    }
    Ok(Some((count, input_value)))
}

/// Saturating sum of amounts.
pub open spec fn sat_sum_u64(xs: Seq<u64>) -> u64
    decreases xs.len(),
{
    if xs.len() == 0 { 0 } else { sat_u64(sat_sum_u64(xs.drop_last()) + xs.last()) }
}

/// The result of a consolidation swap from its inputs and the amounts of
/// the proofs that came back; the fee is what the swap did not return.
pub fn dust_consolidation_result(count: usize, input_value: u64, output_amounts: &Vec<u64>) -> (r: DustConsolidationResult)
    ensures
        r.proofs_consolidated == count,
        r.input_value == input_value,
        r.output_value == sat_sum_u64(output_amounts@),
        r.fee_paid == (if input_value >= r.output_value { input_value - r.output_value } else { 0 }),
        r.output_proofs == output_amounts@.len(),
{
    let mut output_value: u64 = 0;
    for i in 0..output_amounts.len()
        invariant
            output_value == sat_sum_u64(output_amounts@.take(i as int)),
    {
        assert(output_amounts@.take(i + 1).drop_last() =~= output_amounts@.take(i as int));
        output_value = output_value.saturating_add(output_amounts[i]);
    }
    assert(output_amounts@.take(output_amounts.len() as int) =~= output_amounts@);
    DustConsolidationResult {
        proofs_consolidated: count,
        input_value,
        output_value,
        fee_paid: input_value.saturating_sub(output_value),
        output_proofs: output_amounts.len(),
    }
}

} // verus!
