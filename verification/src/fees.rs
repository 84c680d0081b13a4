//! Fee estimation, including witness overhead for spending conditions.
use vstd::prelude::*;
use vstd::string::*;
use crate::denomination::{estimate_proof_count, popcount};
use crate::sorting::{lemma_insert_pos_by, sort_desc_by};
use crate::types::{ProofData, TokenData, mint_matches, same_mint};

verus! {

/// Estimated witness overhead for P2PK proofs (bytes).
pub const P2PK_WITNESS_OVERHEAD: usize = 128;

/// Estimated witness overhead for HTLC proofs (bytes).
pub const HTLC_WITNESS_OVERHEAD: usize = 160;

/// Estimated witness overhead per extra multisig signature (bytes).
pub const MULTISIG_SIGNATURE_OVERHEAD: usize = 64;

/// Base proof size without witness (bytes).
pub const BASE_PROOF_SIZE: usize = 200;

/// A fee estimate.
#[derive(Debug, Clone, Copy, PartialEq, Eq, Structural, Default)]
pub struct FeeEstimate {
    /// Input fee from the mint.
    pub base_fee: u64,
    /// Witness overhead fee.
    pub witness_fee: u64,
    /// Total estimated fee.
    pub total_fee: u64,
    /// Number of proofs involved.
    pub proof_count: usize,
    /// Fee per proof, in parts per thousand.
    pub fee_ppk: u64,
}

/// `x` capped at `u64::MAX`.
pub open spec fn sat_u64(x: int) -> u64 {
    if x > u64::MAX { u64::MAX } else { x as u64 }
}

impl FeeEstimate {
    /// Builds an estimate; the total is the saturating sum of the parts.
    pub fn new(base_fee: u64, witness_fee: u64, proof_count: usize, fee_ppk: u64) -> (r: Self)
        ensures
            r.base_fee == base_fee,
            r.witness_fee == witness_fee,
            r.total_fee == sat_u64(base_fee + witness_fee),
            r.proof_count == proof_count,
            r.fee_ppk == fee_ppk,
    {
        FeeEstimate {
            base_fee,
            witness_fee,
            total_fee: base_fee.saturating_add(witness_fee),
            proof_count,
            fee_ppk,
        }
    }
}

/// Spending-condition complexity of proofs, for fee estimation.
#[derive(Debug, Clone, Copy, PartialEq, Eq, Structural, Default)]
pub enum P2pkComplexity {
    /// No P2PK (standard proof).
    #[default]
    Standard,
    /// Single signature P2PK.
    SingleSig,
    /// Multi-signature P2PK.
    MultiSig { required: u8, total: u8 },
    /// Hash time locked.
    Htlc,
    /// HTLC with P2PK.
    HtlcP2pk,
}

/// Estimated witness size in bytes.
pub open spec fn witness_size_of(c: P2pkComplexity) -> nat {
    match c {
        P2pkComplexity::Standard => 0,
        P2pkComplexity::SingleSig => 128,
        P2pkComplexity::MultiSig { required, .. } => {
            let extra: nat = if required >= 1 { (required - 1) as nat } else { 0 };
            128 + extra * 64
        },
        P2pkComplexity::Htlc => 160,
        P2pkComplexity::HtlcP2pk => 288,
    }
}

impl P2pkComplexity {
    /// Estimated witness size in bytes.
    pub fn witness_size(&self) -> (r: usize)
        ensures
            r == witness_size_of(*self),
    {
        match self {
            P2pkComplexity::Standard => 0,
            P2pkComplexity::SingleSig => P2PK_WITNESS_OVERHEAD,
            P2pkComplexity::MultiSig { required, .. } => {
                let extra_sigs = (*required as usize).saturating_sub(1);
                P2PK_WITNESS_OVERHEAD + extra_sigs * MULTISIG_SIGNATURE_OVERHEAD
            },
            P2pkComplexity::Htlc => HTLC_WITNESS_OVERHEAD,
            P2pkComplexity::HtlcP2pk => HTLC_WITNESS_OVERHEAD + P2PK_WITNESS_OVERHEAD,
        }
    }
}

/// The input fee for `count` proofs at `fee_ppk`: `count * fee_ppk / 1000`
/// rounded up, computed with saturating arithmetic.
pub open spec fn proof_fee(count: nat, fee_ppk: nat) -> u64 {
    (sat_u64(sat_u64((count * fee_ppk) as int) + 999) / 1000) as u64
}

/// Input fee for a number of proofs.
pub fn calculate_proof_fee(proof_count: usize, fee_ppk: u64) -> (r: u64)
    ensures
        r == proof_fee(proof_count as nat, fee_ppk as nat),
        proof_count * fee_ppk + 999 <= u64::MAX ==> r == (proof_count * fee_ppk + 999) / 1000,
{
    let count = proof_count as u64;
    let base = match count.checked_mul(fee_ppk) {
        Some(v) => v,
        None => u64::MAX,
    };
    proof {
        assert(count * fee_ppk == proof_count * fee_ppk);
    }
    base.saturating_add(999) / 1000
}

/// Witness fee per proof: one sat per started 100 bytes, at least one.
pub open spec fn witness_fee_per_proof(size: nat) -> nat {
    let per = (size + 99) / 100;
    if per < 1 { 1 } else { per }
}

/// Estimate for a plain send of `amount` with power-of-two denominations.
pub fn simple_send_fee_estimate(amount: u64, fee_ppk: u64) -> (r: FeeEstimate)
    ensures
        r.proof_count == popcount(amount as nat),
        r.base_fee == proof_fee(popcount(amount as nat), fee_ppk as nat),
        r.witness_fee == 0,
        r.total_fee == r.base_fee,
        r.fee_ppk == fee_ppk,
{
    let proof_count = estimate_proof_count(amount);
    let base_fee = calculate_proof_fee(proof_count, fee_ppk);
    FeeEstimate::new(base_fee, 0, proof_count, fee_ppk)
}

/// Estimate for a send locked with spending conditions.
pub fn p2pk_send_fee_estimate(amount: u64, complexity: P2pkComplexity, fee_ppk: u64) -> (r: FeeEstimate)
    ensures
        r.proof_count == popcount(amount as nat),
        r.base_fee == proof_fee(popcount(amount as nat), fee_ppk as nat),
        r.witness_fee == (if witness_size_of(complexity) > 0 {
            witness_fee_per_proof(witness_size_of(complexity)) * popcount(amount as nat)
        } else {
            0
        }),
        r.total_fee == sat_u64(r.base_fee + r.witness_fee),
        r.fee_ppk == fee_ppk,
{
    let proof_count = estimate_proof_count(amount);
    let base_fee = calculate_proof_fee(proof_count, fee_ppk);
    let witness_size = complexity.witness_size();
    let witness_fee: u64 = if witness_size > 0 {
        let per = (witness_size + 99) / 100;
        let per = if per < 1 { 1 } else { per };
        assert(per <= 200);
        assert(proof_count <= 64) by {
            vstd::arithmetic::power2::lemma2_to64();
            crate::denomination::lemma_popcount_bound(amount as nat, 64);
        }
        assert((per as u64) * (proof_count as u64) <= 200 * 64) by (nonlinear_arith)
            requires
                per <= 200,
                proof_count <= 64,
        ;
        (per as u64) * (proof_count as u64)
    } else {
        0
    };
    FeeEstimate::new(base_fee, witness_fee, proof_count, fee_ppk)
}

/// Whether any proof carries a witness.
pub open spec fn any_witness(proofs: Seq<ProofData>) -> bool {
    exists|i: int| 0 <= i < proofs.len() && proofs[i].witness is Some
}

/// Estimate for swapping received locked proofs.
pub fn p2pk_receive_fee_estimate(proofs: &Vec<ProofData>, fee_ppk: u64) -> (r: FeeEstimate)
    requires
        proofs.len() * 2 <= u64::MAX,
    ensures
        r.proof_count == proofs.len(),
        r.base_fee == proof_fee(proofs.len() as nat, fee_ppk as nat),
        r.witness_fee == (if any_witness(proofs@) { 2 * proofs.len() } else { 0 }),
        r.total_fee == sat_u64(r.base_fee + r.witness_fee),
        r.fee_ppk == fee_ppk,
{
    let proof_count = proofs.len();
    let base_fee = calculate_proof_fee(proof_count, fee_ppk);
    let mut has_witness = false;
    let mut i: usize = 0;
    while i < proofs.len()
        invariant
            i <= proofs.len(),
            has_witness == exists|j: int| 0 <= j < i && proofs@[j].witness is Some,
        decreases proofs.len() - i,
    {
        if proofs[i].witness.is_some() {
            has_witness = true;
        }
        i = i + 1;
    }
    let witness_fee: u64 = if has_witness { 2 * (proof_count as u64) } else { 0 };
    FeeEstimate::new(base_fee, witness_fee, proof_count, fee_ppk)
}

/// Estimate for a swap of `input_proof_count` proofs.
pub fn swap_fee_estimate(input_proof_count: usize, fee_ppk: u64) -> (r: FeeEstimate)
    ensures
        r.base_fee == proof_fee(input_proof_count as nat, fee_ppk as nat),
        r.witness_fee == 0,
        r.total_fee == r.base_fee,
        r.proof_count == input_proof_count,
        r.fee_ppk == fee_ppk,
{
    let base_fee = calculate_proof_fee(input_proof_count, fee_ppk);
    FeeEstimate { base_fee, witness_fee: 0, total_fee: base_fee, proof_count: input_proof_count, fee_ppk }
}

/// Fee summary of a mint.
#[derive(Debug)]
pub struct MintFeeSummary {
    pub mint_url: String,
    pub fee_ppk: u64,
    pub current_proofs: usize,
    pub estimated_spend_all_fee: u64,
}

/// `x` capped at `usize::MAX`.
pub open spec fn sat_usize(x: int) -> usize {
    if x > usize::MAX { usize::MAX } else { x as usize }
}

/// Number of proofs the tokens of a mint hold (saturating at `usize::MAX`).
pub open spec fn mint_proof_count(tokens: Seq<TokenData>, mint: Seq<char>) -> usize
    decreases tokens.len(),
{
    if tokens.len() == 0 {
        0
    } else {
        let rest = mint_proof_count(tokens.drop_last(), mint);
        if same_mint(tokens.last().mint@, mint) {
            sat_usize(rest + tokens.last().proofs@.len())
        } else {
            rest
        }
    }
}

/// Fee summary of a mint from the wallet's tokens and the mint's fee rate.
pub fn mint_fee_summary(tokens: &Vec<TokenData>, mint_url: &str, fee_ppk: u64) -> (r: MintFeeSummary)
    ensures
        r.mint_url@ == mint_url@,
        r.fee_ppk == fee_ppk,
        r.current_proofs == mint_proof_count(tokens@, mint_url@),
        r.estimated_spend_all_fee == proof_fee(r.current_proofs as nat, fee_ppk as nat),
{
    let mut count: usize = 0;
    for i in 0..tokens.len()
        invariant
            count == mint_proof_count(tokens@.take(i as int), mint_url@),
    {
        assert(tokens@.take(i + 1).drop_last() =~= tokens@.take(i as int));
        if mint_matches(tokens[i].mint.as_str(), mint_url) {
            count = count.saturating_add(tokens[i].proofs.len());
        }
    }
    assert(tokens@.take(tokens.len() as int) =~= tokens@);
    MintFeeSummary {
        mint_url: String::from_str(mint_url),
        fee_ppk,
        current_proofs: count,
        estimated_spend_all_fee: calculate_proof_fee(count, fee_ppk),
    }
}


/// The mints whose fee estimate succeeded, with their estimates, in order.
pub open spec fn successful_estimates(v: Seq<(String, Option<FeeEstimate>)>) -> Seq<(String, FeeEstimate)>
    decreases v.len(),
{
    if v.len() == 0 {
        Seq::empty()
    } else {
        let rest = successful_estimates(v.drop_last());
        match v.last().1 {
            Some(e) => rest.push((v.last().0, e)),
            None => rest,
        }
    }
}

/// Order key that puts cheaper estimates first.
pub open spec fn cheaper_first() -> spec_fn((String, FeeEstimate)) -> int {
    |e: (String, FeeEstimate)| -(e.1.total_fee as int)
}

/// The mints whose fee estimate succeeded, cheapest total fee first; mints
/// with equal fees keep their order.
pub fn compare_mint_fees(estimates: Vec<(String, Option<FeeEstimate>)>) -> (r: Vec<(String, FeeEstimate)>)
    ensures
        r@ == sort_desc_by(successful_estimates(estimates@), cheaper_first()),
{
    let ghost all = estimates@;
    let mut rest = estimates;
    let mut ok: Vec<(String, FeeEstimate)> = Vec::new();
    let mut i: usize = 0;
    assert(all.len() == rest.len());
    assert(all.take(0) =~= Seq::<(String, Option<FeeEstimate>)>::empty());
    while rest.len() > 0
        invariant
            all.len() <= usize::MAX,
            i <= all.len(),
            rest@ == all.skip(i as int),
            ok@ == successful_estimates(all.take(i as int)),
        decreases rest.len(),
    {
        assert(rest@.len() == all.len() - i);
        let (mint, est) = rest.remove(0);
        proof {
            assert((mint, est) == all[i as int]);
            assert(rest@ =~= all.skip(i + 1));
            assert(all.take(i + 1).drop_last() =~= all.take(i as int));
        }
        match est {
            Some(e) => {
                ok.push((mint, e));
            },
            None => {},
        }
        i = i + 1;
    }
    assert(all.take(i as int) =~= all);
    sort_cheapest_first(ok)
}

/// Stable sort by increasing total fee.
fn sort_cheapest_first(v: Vec<(String, FeeEstimate)>) -> (r: Vec<(String, FeeEstimate)>)
    ensures
        r@ == sort_desc_by(v@, cheaper_first()),
{
    let ghost orig = v@;
    assert(orig.len() == v.len());
    let mut rest = v;
    let mut r: Vec<(String, FeeEstimate)> = Vec::new();
    let mut i: usize = 0;
    while rest.len() > 0
        invariant
            i <= orig.len(),
            orig.len() <= usize::MAX,
            rest@ == orig.skip(i as int),
            r@ == sort_desc_by(orig.take(i as int), cheaper_first()),
        decreases rest.len(),
    {
        assert(rest@.len() == orig.len() - i);
        let x = rest.remove(0);
        assert(x == orig[i as int]);
        assert(rest@ =~= orig.skip(i + 1));
        let mut j: usize = 0;
        let mut found = false;
        while j < r.len() && !found
            invariant
                j <= r.len(),
                forall|k: int| 0 <= k < j ==> r@[k].1.total_fee <= x.1.total_fee,
                found ==> j < r.len() && r@[j as int].1.total_fee > x.1.total_fee,
            decreases r.len() - j + (if found { 0int } else { 1int }),
        {
            if r[j].1.total_fee > x.1.total_fee {
                found = true;
            } else {
                j = j + 1;
            }
        }
        proof {
            lemma_insert_pos_by(r@, x, cheaper_first(), j as int);
            assert(orig.take(i + 1).drop_last() =~= orig.take(i as int));
        }
        r.insert(j, x);
        i = i + 1;
    }
    assert(orig.take(orig.len() as int) =~= orig);
    r
}

/// The mint with the lowest fee estimate, if any estimate succeeded.
pub fn find_cheapest_mint(estimates: Vec<(String, Option<FeeEstimate>)>) -> (r: Option<(String, FeeEstimate)>)
    ensures
        ({
            let sorted = sort_desc_by(successful_estimates(estimates@), cheaper_first());
            r == if sorted.len() > 0 {
                Some(sorted[0])
            } else {
                None::<(String, FeeEstimate)>
            }
        }),
{
    let mut sorted = compare_mint_fees(estimates);
    if sorted.len() > 0 {
        Some(sorted.remove(0))
    } else {
        None
    }
}

} // verus!
