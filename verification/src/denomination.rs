//! Denomination splitting strategies and proof-count estimates.
use vstd::prelude::*;
use vstd::string::*;
use crate::text::{lowercase_of, to_lowercase};

verus! {

/// Strategy for splitting amounts into denominations.
#[derive(Debug, Clone, Copy, PartialEq, Eq, Structural, Default)]
pub enum DenominationStrategy {
    /// Power of two denominations: fewest proofs for any amount.
    #[default]
    PowerOfTwo,
    /// Prefer larger denominations.
    Large,
    /// Prefer smaller denominations (many small proofs).
    Small,
    /// Balanced denomination spread.
    Balanced,
    /// Denominations chosen from usage patterns.
    Adaptive,
}

/// The strategy a (lowercased) preference name selects.
pub open spec fn strategy_named(name: Seq<char>) -> DenominationStrategy {
    if name == "large"@ || name == "minimal"@ {
        DenominationStrategy::Large
    } else if name == "small"@ || name == "privacy"@ {
        DenominationStrategy::Small
    } else if name == "balanced"@ || name == "mixed"@ {
        DenominationStrategy::Balanced
    } else if name == "adaptive"@ || name == "smart"@ {
        DenominationStrategy::Adaptive
    } else {
        DenominationStrategy::PowerOfTwo
    }
}

/// Human-readable description of each strategy.
pub open spec fn strategy_description(s: DenominationStrategy) -> Seq<char> {
    match s {
        DenominationStrategy::PowerOfTwo => "Optimal proof count (power of 2 denominations)"@,
        DenominationStrategy::Large => "Fewer, larger proofs"@,
        DenominationStrategy::Small => "Many small proofs (better privacy)"@,
        DenominationStrategy::Balanced => "Mix of denominations for flexibility"@,
        DenominationStrategy::Adaptive => "Smart selection based on usage patterns"@,
    }
}

impl DenominationStrategy {
    /// The strategy for a preference name (case-insensitive); unknown names
    /// give `PowerOfTwo`.
    pub fn from_str(s: &str) -> (r: Self)
        ensures
            r == strategy_named(lowercase_of(s@)),
    {
        let name = to_lowercase(s);
        if name == String::from_str("large") || name == String::from_str("minimal") {
            DenominationStrategy::Large
        } else if name == String::from_str("small") || name == String::from_str("privacy") {
            DenominationStrategy::Small
        } else if name == String::from_str("balanced") || name == String::from_str("mixed") {
            DenominationStrategy::Balanced
        } else if name == String::from_str("adaptive") || name == String::from_str("smart") {
            DenominationStrategy::Adaptive
        } else {
            DenominationStrategy::PowerOfTwo
        }
    }

    /// Human-readable description.
    pub fn description(&self) -> (r: &'static str)
        ensures
            r@ == strategy_description(*self),
    {
        match self {
            DenominationStrategy::PowerOfTwo => "Optimal proof count (power of 2 denominations)",
            DenominationStrategy::Large => "Fewer, larger proofs",
            DenominationStrategy::Small => "Many small proofs (better privacy)",
            DenominationStrategy::Balanced => "Mix of denominations for flexibility",
            DenominationStrategy::Adaptive => "Smart selection based on usage patterns",
        }
    }
}

/// Operation types for denomination selection.
#[derive(Debug, Clone, Copy, PartialEq, Eq, Structural)]
pub enum OperationType {
    Mint,
    Send,
    Swap,
    Consolidate,
    Receive,
}

/// Suggested maximum proof count per mint before consolidation.
pub const CONSOLIDATION_THRESHOLD: usize = 50;

/// Suggested maximum proofs per transaction.
pub const MAX_PROOFS_PER_TX: usize = 20;

/// The strategy chosen for an operation, its amount and the wallet's proof count.
pub open spec fn strategy_for(op: OperationType, amount: u64, proof_count: usize) -> DenominationStrategy {
    match op {
        OperationType::Mint => if proof_count > 50 {
            DenominationStrategy::Large
        } else {
            DenominationStrategy::Balanced
        },
        OperationType::Send => DenominationStrategy::PowerOfTwo,
        OperationType::Swap => if amount > 100_000 {
            DenominationStrategy::Large
        } else {
            DenominationStrategy::PowerOfTwo
        },
        OperationType::Consolidate => DenominationStrategy::Large,
        OperationType::Receive => DenominationStrategy::PowerOfTwo,
    }
}

/// Selects a denomination strategy for an operation.
pub fn select_strategy_for_operation(
    operation: OperationType,
    amount: u64,
    current_proof_count: usize,
) -> (r: DenominationStrategy)
    ensures
        r == strategy_for(operation, amount, current_proof_count),
{
    match operation {
        OperationType::Mint => {
            if current_proof_count > 50 {
                DenominationStrategy::Large
            } else {
                DenominationStrategy::Balanced
            }
        },
        OperationType::Send => DenominationStrategy::PowerOfTwo,
        OperationType::Swap => {
            if amount > 100_000 {
                DenominationStrategy::Large
            } else {
                DenominationStrategy::PowerOfTwo
            }
        },
        OperationType::Consolidate => DenominationStrategy::Large,
        OperationType::Receive => DenominationStrategy::PowerOfTwo,
    }
}

/// Number of one bits in the binary representation of `n`.
pub open spec fn popcount(n: nat) -> nat
    decreases n,
{
    if n == 0 {
        0
    } else {
        (n % 2) + popcount(n / 2)
    }
}

/// The popcount of a `u64` is at most 64.
pub proof fn lemma_popcount_bound(n: nat, bits: nat)
    requires
        n < vstd::arithmetic::power2::pow2(bits),
    ensures
        popcount(n) <= bits,
    decreases bits,
{
    if bits == 0 {
        vstd::arithmetic::power2::lemma2_to64();
    } else {
        vstd::arithmetic::power2::lemma_pow2_unfold(bits);
        lemma_popcount_bound(n / 2, (bits - 1) as nat);
    }
}

/// Number of proofs needed for an amount with power-of-two denominations:
/// the number of one bits of the amount.
pub fn estimate_proof_count(amount: u64) -> (r: usize)
    ensures
        r == popcount(amount as nat),
{
    let mut n = amount;
    let mut count: usize = 0;
    proof {
        vstd::arithmetic::power2::lemma2_to64();
        lemma_popcount_bound(amount as nat, 64);
    }
    while n > 0
        invariant
            count + popcount(n as nat) == popcount(amount as nat),
            popcount(amount as nat) <= 64,
        decreases n,
    {
        count = count + (n % 2) as usize;
        n = n / 2;
    }
    count
}

/// Whether a proof count stays within a threshold.
pub fn is_proof_count_acceptable(count: usize, threshold: usize) -> (r: bool)
    ensures
        r == (count <= threshold),
{
    count <= threshold
}

} // verus!
