//! Mint capability checking: NUT support detection, operation gating and
//! amount limits.
use vstd::prelude::*;
use vstd::string::*;
use crate::keyset::string_views;
use crate::text::{append_decimal, decimal};

verus! {

/// Known NUT numbers for capability checking.
#[derive(Debug, Clone, Copy, PartialEq, Eq, Structural, Hash)]
pub enum Nut {
    /// NUT-04: Minting (Lightning receive)
    Minting,
    /// NUT-05: Melting (Lightning send)
    Melting,
    /// NUT-07: Proof state check
    ProofState,
    /// NUT-08: Swap operations
    Swap,
    /// NUT-09: Restore (recovery)
    Restore,
    /// NUT-10: Spending conditions (P2PK base)
    SpendingConditions,
    /// NUT-11: P2PK support
    P2pk,
    /// NUT-12: DLEQ proofs
    Dleq,
    /// NUT-14: HTLC
    Htlc,
    /// NUT-15: Multi-path payments
    Mpp,
    /// NUT-17: WebSocket subscriptions
    WebSocket,
    /// NUT-19: Cached responses
    CachedResponses,
    /// NUT-20: Quote signatures
    QuoteSignatures,
    /// NUT-21: Clear auth
    ClearAuth,
    /// NUT-22: Blind auth
    BlindAuth,
}

/// The NUT number of each `Nut`.
pub open spec fn nut_number(n: Nut) -> u8 {
    match n {
        Nut::Minting => 4,
        Nut::Melting => 5,
        Nut::ProofState => 7,
        Nut::Swap => 8,
        Nut::Restore => 9,
        Nut::SpendingConditions => 10,
        Nut::P2pk => 11,
        Nut::Dleq => 12,
        Nut::Htlc => 14,
        Nut::Mpp => 15,
        Nut::WebSocket => 17,
        Nut::CachedResponses => 19,
        Nut::QuoteSignatures => 20,
        Nut::ClearAuth => 21,
        Nut::BlindAuth => 22,
    }
}

impl Nut {
    /// The NUT number.
    pub fn number(&self) -> (r: u8)
        ensures
            r == nut_number(*self),
    {
        match self {
            Nut::Minting => 4,
            Nut::Melting => 5,
            Nut::ProofState => 7,
            Nut::Swap => 8,
            Nut::Restore => 9,
            Nut::SpendingConditions => 10,
            Nut::P2pk => 11,
            Nut::Dleq => 12,
            Nut::Htlc => 14,
            Nut::Mpp => 15,
            Nut::WebSocket => 17,
            Nut::CachedResponses => 19,
            Nut::QuoteSignatures => 20,
            Nut::ClearAuth => 21,
            Nut::BlindAuth => 22,
        }
    }
}

/// Distinct NUTs have distinct numbers.
pub proof fn lemma_nut_number_injective(a: Nut, b: Nut)
    ensures
        nut_number(a) == nut_number(b) ==> a == b,
{
}

/// Mint capabilities derived from mint info.
#[derive(Debug)]
pub struct MintCapabilities {
    /// Supported NUT numbers.
    pub supported_nuts: Vec<u8>,
    /// Whether minting is enabled.
    pub minting_enabled: bool,
    /// Whether melting is enabled.
    pub melting_enabled: bool,
    /// Payment methods for minting.
    pub mint_methods: Vec<String>,
    /// Payment methods for melting.
    pub melt_methods: Vec<String>,
    /// Maximum mint amount (if limited).
    pub max_mint_amount: Option<u64>,
    /// Minimum mint amount.
    pub min_mint_amount: Option<u64>,
    /// Maximum melt amount (if limited).
    pub max_melt_amount: Option<u64>,
    /// Minimum melt amount.
    pub min_melt_amount: Option<u64>,
    /// Maximum number of inputs per request.
    pub max_inputs: Option<usize>,
    /// Maximum number of outputs per request.
    pub max_outputs: Option<usize>,
    /// Input fee in ppk (per proof, per thousand).
    pub input_fee_ppk: u64,
    /// Whether auth is required.
    pub auth_required: bool,
    /// Auth type if required.
    pub auth_type: Option<String>,
}

impl Default for MintCapabilities {
    fn default() -> (r: Self)
        ensures
            r.supported_nuts@ == Seq::<u8>::empty(),
            !r.minting_enabled,
            !r.melting_enabled,
            r.mint_methods@ == Seq::<String>::empty(),
            r.melt_methods@ == Seq::<String>::empty(),
            r.max_mint_amount is None,
            r.min_mint_amount is None,
            r.max_melt_amount is None,
            r.min_melt_amount is None,
            r.max_inputs is None,
            r.max_outputs is None,
            r.input_fee_ppk == 0,
            !r.auth_required,
            r.auth_type is None,
    {
        MintCapabilities {
            supported_nuts: Vec::new(),
            minting_enabled: false,
            melting_enabled: false,
            mint_methods: Vec::new(),
            melt_methods: Vec::new(),
            max_mint_amount: None,
            min_mint_amount: None,
            max_melt_amount: None,
            min_melt_amount: None,
            max_inputs: None,
            max_outputs: None,
            input_fee_ppk: 0,
            auth_required: false,
            auth_type: None,
        }
    }
}

/// Operation kinds for capability checking.
#[derive(Debug, Clone, Copy, PartialEq, Eq, Structural)]
pub enum OperationKind {
    /// Basic minting (lightning receive)
    Mint,
    /// Basic melting (lightning send)
    Melt,
    /// P2PK send
    P2pkSend,
    /// HTLC send
    HtlcSend,
    /// Multi-path payment
    MppMelt,
    /// Token swap
    Swap,
    /// Proof state check
    CheckProofs,
    /// Wallet restore
    Restore,
}

/// The NUTs that each operation needs, in the order they are listed.
pub open spec fn required_nuts_of(op: OperationKind) -> Seq<Nut> {
    match op {
        OperationKind::Mint => seq![Nut::Minting],
        OperationKind::Melt => seq![Nut::Melting],
        OperationKind::P2pkSend => seq![Nut::SpendingConditions, Nut::P2pk],
        OperationKind::HtlcSend => seq![Nut::SpendingConditions, Nut::Htlc],
        OperationKind::MppMelt => seq![Nut::Melting, Nut::Mpp],
        OperationKind::Swap => seq![Nut::Swap],
        OperationKind::CheckProofs => seq![Nut::ProofState],
        OperationKind::Restore => seq![Nut::Restore],
    }
}

impl OperationKind {
    /// Required NUTs for this operation.
    pub fn required_nuts(&self) -> (r: Vec<Nut>)
        ensures
            r@ == required_nuts_of(*self),
    {
        let r = match self {
            OperationKind::Mint => vec![Nut::Minting],
            OperationKind::Melt => vec![Nut::Melting],
            OperationKind::P2pkSend => vec![Nut::SpendingConditions, Nut::P2pk],
            OperationKind::HtlcSend => vec![Nut::SpendingConditions, Nut::Htlc],
            OperationKind::MppMelt => vec![Nut::Melting, Nut::Mpp],
            OperationKind::Swap => vec![Nut::Swap],
            OperationKind::CheckProofs => vec![Nut::ProofState],
            OperationKind::Restore => vec![Nut::Restore],
        };
        assert(r@ =~= required_nuts_of(*self));
        r
    }
}

/// The NUT `n` is among the supported NUT numbers.
pub open spec fn supports(supported: Seq<u8>, n: Nut) -> bool {
    supported.contains(nut_number(n))
}

/// The NUTs of `required` that `supported` lacks, in order.
pub open spec fn missing_nuts(supported: Seq<u8>, required: Seq<Nut>) -> Seq<Nut>
    decreases required.len(),
{
    if required.len() == 0 {
        Seq::empty()
    } else {
        let rest = missing_nuts(supported, required.drop_last());
        if supports(supported, required.last()) {
            rest
        } else {
            rest.push(required.last())
        }
    }
}

impl MintCapabilities {
    /// Whether a specific NUT is supported.
    pub fn supports_nut(&self, nut: Nut) -> (r: bool)
        ensures
            r == supports(self.supported_nuts@, nut),
    {
        let code = nut.number();
        let mut i: usize = 0;
        while i < self.supported_nuts.len()
            invariant
                i <= self.supported_nuts.len(),
                code == nut_number(nut),
                forall|j: int| 0 <= j < i ==> self.supported_nuts@[j] != code,
            decreases self.supported_nuts.len() - i,
        {
            if self.supported_nuts[i] == code {
                return true;
            }
            i = i + 1;
        }
        false
    }

    /// Whether P2PK is supported (NUT-11 and NUT-10).
    pub fn supports_p2pk(&self) -> (r: bool)
        ensures
            r == (supports(self.supported_nuts@, Nut::P2pk) && supports(
                self.supported_nuts@,
                Nut::SpendingConditions,
            )),
    {
        self.supports_nut(Nut::P2pk) && self.supports_nut(Nut::SpendingConditions)
    }

    /// Whether HTLC is supported (NUT-14 and NUT-10).
    pub fn supports_htlc(&self) -> (r: bool)
        ensures
            r == (supports(self.supported_nuts@, Nut::Htlc) && supports(
                self.supported_nuts@,
                Nut::SpendingConditions,
            )),
    {
        self.supports_nut(Nut::Htlc) && self.supports_nut(Nut::SpendingConditions)
    }

    /// Whether MPP is supported (NUT-15).
    pub fn supports_mpp(&self) -> (r: bool)
        ensures
            r == supports(self.supported_nuts@, Nut::Mpp),
    {
        self.supports_nut(Nut::Mpp)
    }

    /// Whether WebSocket subscriptions are supported (NUT-17).
    pub fn supports_websocket(&self) -> (r: bool)
        ensures
            r == supports(self.supported_nuts@, Nut::WebSocket),
    {
        self.supports_nut(Nut::WebSocket)
    }

    /// Whether DLEQ verification is available (NUT-12).
    pub fn supports_dleq(&self) -> (r: bool)
        ensures
            r == supports(self.supported_nuts@, Nut::Dleq),
    {
        self.supports_nut(Nut::Dleq)
    }

    /// Whether restore is available (NUT-09).
    pub fn supports_restore(&self) -> (r: bool)
        ensures
            r == supports(self.supported_nuts@, Nut::Restore),
    {
        self.supports_nut(Nut::Restore)
    }

    /// Whether the mint can perform basic operations.
    pub fn is_operational(&self) -> (r: bool)
        ensures
            r == (self.minting_enabled || self.melting_enabled),
    {
        self.minting_enabled || self.melting_enabled
    }

    /// The NUTs an operation requires that this mint lacks, in the order the
    /// operation lists them.
    pub fn missing_nuts_for(&self, operation: OperationKind) -> (r: Vec<Nut>)
        ensures
            r@ == missing_nuts(self.supported_nuts@, required_nuts_of(operation)),
    {
        let required = operation.required_nuts();
        let mut missing: Vec<Nut> = Vec::new();
        for i in 0..required.len()
            invariant
                required@ == required_nuts_of(operation),
                missing@ == missing_nuts(self.supported_nuts@, required@.take(i as int)),
        {
            let nut = required[i];
            assert(required@.take(i + 1).drop_last() =~= required@.take(i as int));
            if !self.supports_nut(nut) {
                missing.push(nut);
            }
        }
        assert(required@.take(required.len() as int) =~= required@);
        missing
    }
}

/// Error text listing the missing NUTs, as `NUT-<n>` joined by `, `.
pub open spec fn nut_list_text(nuts: Seq<Nut>) -> Seq<char>
    decreases nuts.len(),
{
    if nuts.len() == 0 {
        Seq::empty()
    } else if nuts.len() == 1 {
        "NUT-"@ + decimal(nut_number(nuts[0]) as nat)
    } else {
        nut_list_text(nuts.drop_last()) + ", "@ + "NUT-"@ + decimal(nut_number(nuts.last()) as nat)
    }
}

/// Checks whether an operation is supported; the error names the missing NUTs.
pub fn check_operation_capabilities(caps: &MintCapabilities, operation: OperationKind) -> (r: Result<(), String>)
    ensures
        missing_nuts(caps.supported_nuts@, required_nuts_of(operation)).len() == 0 <==> r is Ok,
        r matches Err(e) ==> e@ == "Mint does not support required features: "@ + nut_list_text(
            missing_nuts(caps.supported_nuts@, required_nuts_of(operation)),
        ),
{
    let missing = caps.missing_nuts_for(operation);
    if missing.len() == 0 {
        return Ok(());
    }
    let mut e = String::from_str("Mint does not support required features: ");
    let ghost prefix = e@;
    for i in 0..missing.len()
        invariant
            prefix == "Mint does not support required features: "@,
            e@ == prefix + nut_list_text(missing@.take(i as int)),
    {
        assert(missing@.take(i + 1).drop_last() =~= missing@.take(i as int));
        if i > 0 {
            e.append(", ");
        }
        e.append("NUT-");
        append_decimal(&mut e, missing[i].number() as u64);
        proof {
            if i == 0 {
                assert(missing@.take(0) =~= Seq::<Nut>::empty());
            }
            assert(e@ =~= prefix + nut_list_text(missing@.take(i + 1)));
        }
    }
    assert(missing@.take(missing.len() as int) =~= missing@);
    Err(e)
}

/// The error, if any, of an amount against optional maximum and minimum
/// limits; `kind` names the operation in the message ("mint" or "melt").
pub open spec fn limit_error(amount: u64, max: Option<u64>, min: Option<u64>, kind: Seq<char>) -> Option<Seq<char>> {
    if max is Some && amount > max->0 {
        Some("Amount "@ + decimal(amount as nat) + " exceeds "@ + kind + " maximum of "@ + decimal(max->0 as nat) + " sats"@)
    } else if min is Some && amount < min->0 {
        Some("Amount "@ + decimal(amount as nat) + " is below "@ + kind + " minimum of "@ + decimal(min->0 as nat) + " sats"@)
    } else {
        None
    }
}

/// Checks an amount against a maximum and a minimum.
fn check_limits(amount: u64, max: Option<u64>, min: Option<u64>, kind: &str) -> (r: Result<(), String>)
    ensures
        limit_error(amount, max, min, kind@) is None <==> r is Ok,
        r matches Err(e) ==> Some(e@) == limit_error(amount, max, min, kind@),
{
    if let Some(m) = max {
        if amount > m {
            let mut e = String::from_str("Amount ");
            append_decimal(&mut e, amount);
            e.append(" exceeds ");
            e.append(kind);
            e.append(" maximum of ");
            append_decimal(&mut e, m);
            e.append(" sats");
            return Err(e);
        }
    }
    if let Some(m) = min {
        if amount < m {
            let mut e = String::from_str("Amount ");
            append_decimal(&mut e, amount);
            e.append(" is below ");
            e.append(kind);
            e.append(" minimum of ");
            append_decimal(&mut e, m);
            e.append(" sats");
            return Err(e);
        }
    }
    Ok(())
}

/// Checks an amount against the mint's limits for minting.
pub fn check_mint_amount(caps: &MintCapabilities, amount: u64) -> (r: Result<(), String>)
    ensures
        limit_error(amount, caps.max_mint_amount, caps.min_mint_amount, "mint"@) is None <==> r is Ok,
        r matches Err(e) ==> Some(e@) == limit_error(amount, caps.max_mint_amount, caps.min_mint_amount, "mint"@),
{
    check_limits(amount, caps.max_mint_amount, caps.min_mint_amount, "mint")
}

/// Checks an amount against the mint's limits for melting.
pub fn check_melt_amount(caps: &MintCapabilities, amount: u64) -> (r: Result<(), String>)
    ensures
        limit_error(amount, caps.max_melt_amount, caps.min_melt_amount, "melt"@) is None <==> r is Ok,
        r matches Err(e) ==> Some(e@) == limit_error(amount, caps.max_melt_amount, caps.min_melt_amount, "melt"@),
{
    check_limits(amount, caps.max_melt_amount, caps.min_melt_amount, "melt")
}


/// A payment method of a mint with its amount limits (NUT-04/05 settings).
#[derive(Debug, Clone)]
pub struct MethodSettings {
    pub method: String,
    pub min_amount: Option<u64>,
    pub max_amount: Option<u64>,
}

/// What a mint's info says of the NUTs it supports.
#[derive(Debug, Clone)]
pub struct NutSettings {
    /// Minting methods (NUT-04) and whether minting is disabled.
    pub mint_methods: Vec<MethodSettings>,
    pub minting_disabled: bool,
    /// Melting methods (NUT-05) and whether melting is disabled.
    pub melt_methods: Vec<MethodSettings>,
    pub melting_disabled: bool,
    pub nut07: bool,
    pub nut08: bool,
    pub nut09: bool,
    pub nut10: bool,
    pub nut11: bool,
    pub nut12: bool,
    pub nut14: bool,
    /// NUT-15 lists at least one method.
    pub nut15: bool,
    /// NUT-17 lists at least one supported subscription.
    pub nut17: bool,
    /// NUT-19 lists cached endpoints or a TTL.
    pub nut19: bool,
    pub nut20: bool,
    /// NUT-21 (clear auth) settings are present.
    pub nut21: bool,
    /// NUT-22 (blind auth) settings are present.
    pub nut22: bool,
}

/// Each NUT number that a mint may support, in increasing order, with
/// whether the settings support it.
pub open spec fn nut_flags(n: NutSettings) -> Seq<(bool, u8)> {
    seq![
        (n.mint_methods@.len() > 0, 4u8),
        (n.melt_methods@.len() > 0, 5u8),
        (n.nut07, 7u8),
        (n.nut08, 8u8),
        (n.nut09, 9u8),
        (n.nut10, 10u8),
        (n.nut11, 11u8),
        (n.nut12, 12u8),
        (n.nut14, 14u8),
        (n.nut15, 15u8),
        (n.nut17, 17u8),
        (n.nut19, 19u8),
        (n.nut20, 20u8),
        (n.nut21, 21u8),
        (n.nut22, 22u8),
    ]
}

/// The numbers whose flag is set, in order.
pub open spec fn selected(flags: Seq<(bool, u8)>) -> Seq<u8>
    decreases flags.len(),
{
    if flags.len() == 0 {
        Seq::empty()
    } else {
        let rest = selected(flags.drop_last());
        if flags.last().0 { rest.push(flags.last().1) } else { rest }
    }
}

/// The NUT numbers that the settings support, in increasing order.
pub open spec fn supported_numbers(n: NutSettings) -> Seq<u8> {
    selected(nut_flags(n))
}

/// The numbers whose flag is set.
fn select_flags(flags: &Vec<(bool, u8)>) -> (r: Vec<u8>)
    ensures
        r@ == selected(flags@),
{
    let mut r: Vec<u8> = Vec::new();
    for i in 0..flags.len()
        invariant
            r@ == selected(flags@.take(i as int)),
    {
        assert(flags@.take(i + 1).drop_last() =~= flags@.take(i as int));
        if flags[i].0 {
            r.push(flags[i].1);
        }
    }
    assert(flags@.take(flags.len() as int) =~= flags@);
    r
}

/// The NUT numbers that the settings support.
fn supported_nuts_of(n: &NutSettings) -> (r: Vec<u8>)
    ensures
        r@ == supported_numbers(*n),
{
    let flags = vec![
        (n.mint_methods.len() > 0, 4u8),
        (n.melt_methods.len() > 0, 5u8),
        (n.nut07, 7u8),
        (n.nut08, 8u8),
        (n.nut09, 9u8),
        (n.nut10, 10u8),
        (n.nut11, 11u8),
        (n.nut12, 12u8),
        (n.nut14, 14u8),
        (n.nut15, 15u8),
        (n.nut17, 17u8),
        (n.nut19, 19u8),
        (n.nut20, 20u8),
        (n.nut21, 21u8),
        (n.nut22, 22u8),
    ];
    assert(flags@ =~= nut_flags(*n));
    select_flags(&flags)
}

/// The last limit that a list of methods sets, where one does.
pub open spec fn last_limit(methods: Seq<MethodSettings>, max: bool) -> Option<u64>
    decreases methods.len(),
{
    if methods.len() == 0 {
        None
    } else {
        let l = if max { methods.last().max_amount } else { methods.last().min_amount };
        match l {
            Some(v) => Some(v),
            None => last_limit(methods.drop_last(), max),
        }
    }
}

/// The names of a list of methods.
pub open spec fn method_names(methods: Seq<MethodSettings>) -> Seq<Seq<char>> {
    methods.map_values(|m: MethodSettings| m.method@)
}

/// The names and the last maximum and minimum of a list of methods.
fn method_summary(methods: &Vec<MethodSettings>) -> (r: (Vec<String>, Option<u64>, Option<u64>))
    ensures
        string_views(r.0@) == method_names(methods@),
        r.1 == last_limit(methods@, true),
        r.2 == last_limit(methods@, false),
{
    let mut names: Vec<String> = Vec::new();
    let mut max: Option<u64> = None;
    let mut min: Option<u64> = None;
    for i in 0..methods.len()
        invariant
            names@.len() == i,
            string_views(names@) == method_names(methods@.take(i as int)),
            max == last_limit(methods@.take(i as int), true),
            min == last_limit(methods@.take(i as int), false),
    {
        let ghost before = names@;
        names.push(methods[i].method.clone());
        assert forall|a: int| 0 <= a < i + 1 implies #[trigger] string_views(names@)[a] == method_names(
            methods@.take(i + 1),
        )[a] by {
            if a < i {
                assert(names@[a] == before[a]);
                assert(string_views(before)[a] == method_names(methods@.take(i as int))[a]);
            }
        }
        assert(string_views(names@) =~= method_names(methods@.take(i + 1)));
        assert(methods@.take(i + 1).drop_last() =~= methods@.take(i as int));
        if methods[i].max_amount.is_some() {
            max = methods[i].max_amount;
        }
        if methods[i].min_amount.is_some() {
            min = methods[i].min_amount;
        }
    }
    assert(methods@.take(methods.len() as int) =~= methods@);
    (names, max, min)
}

/// A mint's capabilities from its NUT settings: the NUTs it supports (in
/// increasing order), whether minting and melting are enabled, their
/// methods and the last limits those set, and its authentication, clear
/// auth named before blind auth.
pub fn capabilities_from_nuts(n: &NutSettings) -> (r: MintCapabilities)
    ensures
        r.supported_nuts@ == supported_numbers(*n),
        r.minting_enabled == (n.mint_methods@.len() > 0 && !n.minting_disabled),
        r.melting_enabled == (n.melt_methods@.len() > 0 && !n.melting_disabled),
        n.mint_methods@.len() > 0 ==> string_views(r.mint_methods@) == method_names(n.mint_methods@),
        n.mint_methods@.len() == 0 ==> r.mint_methods@.len() == 0,
        n.melt_methods@.len() > 0 ==> string_views(r.melt_methods@) == method_names(n.melt_methods@),
        n.melt_methods@.len() == 0 ==> r.melt_methods@.len() == 0,
        r.max_mint_amount == last_limit(n.mint_methods@, true),
        r.min_mint_amount == last_limit(n.mint_methods@, false),
        r.max_melt_amount == last_limit(n.melt_methods@, true),
        r.min_melt_amount == last_limit(n.melt_methods@, false),
        r.max_inputs is None,
        r.max_outputs is None,
        r.input_fee_ppk == 0,
        r.auth_required == (n.nut21 || n.nut22),
        if n.nut21 {
            r.auth_type matches Some(t) && t@ == "clear"@
        } else if n.nut22 {
            r.auth_type matches Some(t) && t@ == "blind"@
        } else {
            r.auth_type is None
        },
{
    let mut caps = MintCapabilities::default();
    let nuts = supported_nuts_of(n);
    if n.mint_methods.len() > 0 {
        caps.minting_enabled = !n.minting_disabled;
        let (names, max, min) = method_summary(&n.mint_methods);
        caps.mint_methods = names;
        caps.max_mint_amount = max;
        caps.min_mint_amount = min;
    } else {
        assert(last_limit(n.mint_methods@, true) is None && last_limit(n.mint_methods@, false) is None);
    }
    if n.melt_methods.len() > 0 {
        caps.melting_enabled = !n.melting_disabled;
        let (names, max, min) = method_summary(&n.melt_methods);
        caps.melt_methods = names;
        caps.max_melt_amount = max;
        caps.min_melt_amount = min;
    } else {
        assert(last_limit(n.melt_methods@, true) is None && last_limit(n.melt_methods@, false) is None);
    }
    if n.nut21 {
        caps.auth_required = true;
        caps.auth_type = Some(String::from_str("clear"));
    }
    if n.nut22 {
        caps.auth_required = true;
        if caps.auth_type.is_none() {
            caps.auth_type = Some(String::from_str("blind"));
        }
    }
    caps.supported_nuts = nuts;
    caps
}

/// The NUTs that a mint's info page lists, in increasing order: minting,
/// melting, and NUTs 7 to 12, 14 and 20 where supported.
pub open spec fn displayed_numbers(n: NutSettings) -> Seq<u8> {
    selected(
        seq![
            (n.mint_methods@.len() > 0, 4u8),
            (n.melt_methods@.len() > 0, 5u8),
            (n.nut07, 7u8),
            (n.nut08, 8u8),
            (n.nut09, 9u8),
            (n.nut10, 10u8),
            (n.nut11, 11u8),
            (n.nut12, 12u8),
            (n.nut14, 14u8),
            (n.nut20, 20u8),
        ],
    )
}

/// The NUTs that a mint's info page lists.
pub fn displayed_nuts(n: &NutSettings) -> (r: Vec<u8>)
    ensures
        r@ == displayed_numbers(*n),
{
    let flags = vec![
        (n.mint_methods.len() > 0, 4u8),
        (n.melt_methods.len() > 0, 5u8),
        (n.nut07, 7u8),
        (n.nut08, 8u8),
        (n.nut09, 9u8),
        (n.nut10, 10u8),
        (n.nut11, 11u8),
        (n.nut12, 12u8),
        (n.nut14, 14u8),
        (n.nut20, 20u8),
    ];
    select_flags(&flags)
}

} // verus!
