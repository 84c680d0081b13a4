//! Properties of the wallet store that relate several operations.
use vstd::prelude::*;
use vstd::multiset::Multiset;
use crate::auth::{AuthRequired, BlindAuthSettings, ClearAuthSettings, HttpMethod, endpoint_keys, settings_requirement};
use crate::auth_cache::{CachedAuthToken, cleaned_entry, live_tokens, next_token, token_live};
use crate::cache::{CachedResponse, fresh_at, fresh_responses};
use crate::capabilities::{NutSettings, nut_flags, selected, supported_numbers};
use crate::cleanup::secret_not_in;
use crate::discovery::{
    MintAnnouncement, MintView, RecommendationEvent, all_recommended, announced, by_recommendations, discovered,
    distinct_urls, event_recommended, lemma_put_distinct, lemma_recommend_distinct,
};
use crate::nutzap::{
    PendingNutzap, nutzap_ids,
    all_contents, declared_mints, info_tags, last_content, lemma_mint_tags, lemma_relay_tags, lemma_tags_concat,
    normalized_mints,
};
use crate::denomination::popcount;
use crate::fees::{FeeEstimate, cheaper_first, successful_estimates};
use crate::history::{
    all_digits, digits_value, event_refs, history_content_rows, history_fields, optional_row, parsed_u64, redeemed_of,
    ref_rows, typed_history_rows,
};
use crate::enriched_history::Direction;
use crate::keyset::{CachedKeyset, amount_sum, fee_ppk_of, proofs_fee};
use crate::dust::{DEFAULT_DUST_THRESHOLD, MAX_DUST_TOTAL, MIN_DUST_COUNT, distinct_mints, dust_of, dust_stats_of, sat_sum, summed, total_stats_of, small_proofs, stats_entries};
use crate::fees::{HTLC_WITNESS_OVERHEAD, MULTISIG_SIGNATURE_OVERHEAD, P2PK_WITNESS_OVERHEAD, P2pkComplexity, proof_fee, sat_u64, witness_fee_per_proof, witness_size_of};
use crate::mint_mgmt::tokens_not_of_mint;
use crate::counters::{CounterBackup, backup_of, first_backup_at, has_backup, lemma_first_backup, with_backup, without_backup};
use crate::recovery::{paired, sync_fold, sync_step, unknown_by_y, unspent_ones};
use crate::proof_recovery::{MintProofState, is_stuck, stuck_pairs, token_pairs, tracked_of};
use crate::mint_recovery::{after_failure, after_take, failure_handback, take_handback};
use crate::wallet_init::{content_pairs, pair_scan, parsed_hrefs, parsed_url, parses_of, read_wallet_pairs};
use crate::mpp::{MintBalance, allocate, takes_part, allocated_sum, available_mints, balance_key, split_order, unallocated};
use crate::pagination::{MintLimits, amount_batches, batch_end, run_batches, cached_limits_of, chunks, default_limits, flatten, lemma_chunks_partition};
use crate::lightning::u64_sum;
use crate::proofs::{amount_key, first_exact, greedy_count, inactive_first, needed_for, selection_fee, spendable, spendable_by_activity, take_until};
use crate::receive::{base64_part, padded_token, utf8_len};
use crate::sorting::{lemma_sort_desc_by, sort_desc_by, sorted_desc_by};
use crate::store::{ProofTransition, marked, tokens_not_in};
use crate::strmap::recent_entries;
use crate::sync::{FetchedTokenEvent, token_events};
use crate::text::{decimal, digit_char, has_prefix};
use crate::tracking::{MAX_PENDING_AGE_SECS, with_keys_set, with_secrets_mapped, without_keys};
use crate::types::{ProofData, ProofState, TokenData, normalized_mint, same_mint};

verus! {

/// Reading a mint's limits right after caching them gives them back;
/// after they are cleared, the defaults.
pub proof fn law_limits_read_after_write(cache: Map<Seq<char>, MintLimits>, mint_url: Seq<char>, limits: MintLimits)
    ensures
        cached_limits_of(cache.insert(mint_url, limits), mint_url) == limits,
        cached_limits_of(cache.remove(mint_url), mint_url) == default_limits(),
{
}

/// Reverting the proofs a transaction reserved gives back the proofs as
/// they were, for proofs that were spendable and in no transaction.
pub proof fn law_revert_undoes_reserve(p: ProofData, secrets: Seq<Seq<char>>, tx_id: u64, now: u64)
    requires
        p.state == ProofState::Unspent,
        p.transaction_id is None,
        p.state_set_at is None,
    ensures
        marked(marked(p, secrets, ProofTransition::Reserve { tx_id, now }), secrets, ProofTransition::Revert) == p,
{
}

/// A reserved proof is held by its transaction, stamped with the time.
pub proof fn law_reserve_marks_listed(p: ProofData, secrets: Seq<Seq<char>>, tx_id: u64, now: u64)
    requires
        secrets.contains(p.secret@),
    ensures
        marked(p, secrets, ProofTransition::Reserve { tx_id, now }).state == ProofState::Reserved,
        marked(p, secrets, ProofTransition::Reserve { tx_id, now }).transaction_id == Some(tx_id),
        marked(p, secrets, ProofTransition::Reserve { tx_id, now }).state_set_at == Some(now),
        marked(p, secrets, ProofTransition::Reserve { tx_id, now }).secret == p.secret,
        marked(p, secrets, ProofTransition::Reserve { tx_id, now }).amount == p.amount,
{
}

/// After token events are replaced, none of the deleted events is left
/// among the old tokens, and every old token that was not deleted is.
pub proof fn law_replaced_tokens_gone(tokens: Seq<TokenData>, ids: Seq<Seq<char>>)
    ensures
        forall|k: int| 0 <= k < tokens_not_in(tokens, ids).len() ==> !ids.contains(
            #[trigger] tokens_not_in(tokens, ids)[k].event_id@,
        ),
        forall|k: int| 0 <= k < tokens.len() && !ids.contains(#[trigger] tokens[k].event_id@) ==> tokens_not_in(
            tokens,
            ids,
        ).contains(tokens[k]),
    decreases tokens.len(),
{
    if tokens.len() > 0 {
        law_replaced_tokens_gone(tokens.drop_last(), ids);
        let rest = tokens_not_in(tokens.drop_last(), ids);
        let t = tokens_not_in(tokens, ids);
        assert forall|k: int| 0 <= k < t.len() implies !ids.contains(#[trigger] t[k].event_id@) by {
            if k < rest.len() {
                assert(t[k] == rest[k]);
                assert(!ids.contains(rest[k].event_id@));
            }
        }
        assert forall|k: int| 0 <= k < tokens.len() && !ids.contains(#[trigger] tokens[k].event_id@) implies tokens_not_in(
            tokens,
            ids,
        ).contains(tokens[k]) by {
            if k < tokens.len() - 1 {
                assert(tokens.drop_last()[k] == tokens[k]);
                assert(!ids.contains(tokens.drop_last()[k].event_id@));
                assert(rest.contains(tokens.drop_last()[k]));
                let j = choose|j: int| 0 <= j < rest.len() && rest[j] == tokens[k];
                assert(tokens_not_in(tokens, ids)[j] == tokens[k]);
            } else {
                assert(tokens_not_in(tokens, ids) == rest.push(tokens.last()));
                assert(tokens_not_in(tokens, ids)[rest.len() as int] == tokens[k]);
            }
        }
    }
}

/// After proofs are registered under an event, each of their secrets maps
/// to that event.
pub proof fn law_registered_secrets_map_to_event(m: Map<Seq<char>, String>, proofs: Seq<ProofData>, event_id: String)
    ensures
        forall|k: int| 0 <= k < proofs.len() ==> #[trigger] with_secrets_mapped(m, proofs, event_id).contains_key(
            proofs[k].secret@,
        ) && with_secrets_mapped(m, proofs, event_id)[proofs[k].secret@] == event_id,
    decreases proofs.len(),
{
    if proofs.len() > 0 {
        law_registered_secrets_map_to_event(m, proofs.drop_last(), event_id);
        assert forall|k: int| 0 <= k < proofs.len() implies #[trigger] with_secrets_mapped(m, proofs, event_id).contains_key(
            proofs[k].secret@,
        ) && with_secrets_mapped(m, proofs, event_id)[proofs[k].secret@] == event_id by {
            if k < proofs.len() - 1 {
                assert(proofs.drop_last()[k] == proofs[k]);
                assert(with_secrets_mapped(m, proofs.drop_last(), event_id).contains_key(proofs.drop_last()[k].secret@));
            }
        }
    }
}

/// After secrets are unregistered, none of them is mapped any more, and
/// every other entry stays as it was.
pub proof fn law_unregistered_secrets_absent<V>(m: Map<Seq<char>, V>, keys: Seq<Seq<char>>)
    ensures
        forall|k: int| 0 <= k < keys.len() ==> !#[trigger] without_keys(m, keys).contains_key(keys[k]),
        forall|q: Seq<char>| !keys.contains(q) ==> (#[trigger] without_keys(m, keys).contains_key(q) == m.contains_key(q)),
        forall|q: Seq<char>| !keys.contains(q) && m.contains_key(q) ==> #[trigger] without_keys(m, keys)[q] == m[q],
    decreases keys.len(),
{
    if keys.len() > 0 {
        law_unregistered_secrets_absent(m, keys.drop_last());
        let prev = without_keys(m, keys.drop_last());
        assert(without_keys(m, keys) == prev.remove(keys.last()));
        assert forall|k: int| 0 <= k < keys.len() implies !#[trigger] without_keys(m, keys).contains_key(keys[k]) by {
            if k < keys.len() - 1 {
                assert(keys.drop_last()[k] == keys[k]);
                assert(!prev.contains_key(keys.drop_last()[k]));
            } else {
                assert(keys[k] == keys.last());
            }
        }
        assert forall|q: Seq<char>| !keys.contains(q) implies (#[trigger] without_keys(m, keys).contains_key(q)
            == m.contains_key(q)) by {
            assert(!keys.drop_last().contains(q)) by {
                if keys.drop_last().contains(q) {
                    let j = choose|j: int| 0 <= j < keys.drop_last().len() && keys.drop_last()[j] == q;
                    assert(keys[j] == q);
                }
            }
            assert(keys.last() != q) by {
                if keys.last() == q {
                    assert(keys[keys.len() - 1] == q);
                }
            }
            assert(prev.contains_key(q) == m.contains_key(q));
        }
        assert forall|q: Seq<char>| !keys.contains(q) && m.contains_key(q) implies #[trigger] without_keys(m, keys)[q]
            == m[q] by {
            assert(!keys.drop_last().contains(q)) by {
                if keys.drop_last().contains(q) {
                    let j = choose|j: int| 0 <= j < keys.drop_last().len() && keys.drop_last()[j] == q;
                    assert(keys[j] == q);
                }
            }
            assert(keys.last() != q) by {
                if keys.last() == q {
                    assert(keys[keys.len() - 1] == q);
                }
            }
            assert(prev[q] == m[q]);
        }
    }
}

/// Keys set to a value are all present with it.
proof fn lemma_with_keys_set(m: Map<Seq<char>, u64>, keys: Seq<Seq<char>>, v: u64)
    ensures
        forall|k: int| 0 <= k < keys.len() ==> #[trigger] with_keys_set(m, keys, v).contains_key(keys[k])
            && with_keys_set(m, keys, v)[keys[k]] == v,
    decreases keys.len(),
{
    if keys.len() > 0 {
        lemma_with_keys_set(m, keys.drop_last(), v);
        assert forall|k: int| 0 <= k < keys.len() implies #[trigger] with_keys_set(m, keys, v).contains_key(keys[k])
            && with_keys_set(m, keys, v)[keys[k]] == v by {
            if k < keys.len() - 1 {
                assert(keys.drop_last()[k] == keys[k]);
                assert(with_keys_set(m, keys.drop_last(), v).contains_key(keys.drop_last()[k]));
            }
        }
    }
}

/// Proofs just registered as pending at the mint survive a cleanup at the
/// same time; a cleanup keeps no entry older than the maximum age.
pub proof fn law_fresh_pending_survives_cleanup(m: Map<Seq<char>, u64>, secrets: Seq<Seq<char>>, now: u64)
    ensures
        forall|k: int| 0 <= k < secrets.len() ==> #[trigger] recent_entries(with_keys_set(m, secrets, now), now, MAX_PENDING_AGE_SECS).contains_key(
            secrets[k],
        ),
        forall|q: Seq<char>| #[trigger] recent_entries(m, now, MAX_PENDING_AGE_SECS).contains_key(q) ==> m[q] + MAX_PENDING_AGE_SECS >= now,
{
    lemma_with_keys_set(m, secrets, now);
    assert forall|k: int| 0 <= k < secrets.len() implies #[trigger] recent_entries(with_keys_set(m, secrets, now), now, MAX_PENDING_AGE_SECS).contains_key(
        secrets[k],
    ) by {
        assert(with_keys_set(m, secrets, now).contains_key(secrets[k]));
    }
}

/// The first proof of exactly the amount has that amount and is among the
/// proofs searched.
proof fn lemma_first_exact(s: Seq<ProofData>, target: u64)
    ensures
        first_exact(s, target) matches Some(p) ==> p.amount == target && s.contains(p),
    decreases s.len(),
{
    if s.len() > 0 && s[0].amount != target {
        lemma_first_exact(s.drop_first(), target);
        if first_exact(s, target) is Some {
            let p = first_exact(s, target)->0;
            let j = choose|j: int| 0 <= j < s.drop_first().len() && s.drop_first()[j] == p;
            assert(s[j + 1] == p);
        }
    } else if s.len() > 0 {
        assert(s[0] == s[0]);
    }
}

/// A proof of exactly the amount among those searched is always found.
proof fn lemma_exact_found(s: Seq<ProofData>, target: u64, p: ProofData)
    requires
        s.contains(p),
        p.amount == target,
    ensures
        first_exact(s, target) is Some,
    decreases s.len(),
{
    if s[0].amount != target {
        let k = choose|k: int| 0 <= k < s.len() && s[k] == p;
        assert(k > 0);
        assert(s.drop_first()[k - 1] == p);
        lemma_exact_found(s.drop_first(), target, p);
    }
}

/// The greedy count never exceeds the number of proofs.
proof fn lemma_greedy_count_bound(s: Seq<ProofData>, target: u64, include_fee: bool, fee_ppk: u64, i: nat)
    ensures
        greedy_count(s, target, include_fee, fee_ppk, i) <= s.len(),
    decreases s.len() - i,
{
    if i < s.len() && !(amount_sum(s.take(i as int)) >= needed_for(target, i + 1, include_fee, fee_ppk)) {
        lemma_greedy_count_bound(s, target, include_fee, fee_ppk, i + 1);
    }
}

/// What proof selection takes comes from the wallet's spendable proofs,
/// none more often than it is held, and pays for the payment: a spendable
/// proof of exactly the amount is always found, and the exact match has the
/// amount; otherwise, when the greedy selection is enough, it covers the
/// amount and, with fees included, the input fee of the proofs taken.
pub proof fn law_selection_covers(proofs: Seq<ProofData>, target_amount: u64, include_fee: bool, fee_ppk: u64)
    ensures
        ({
            let sp = spendable(proofs);
            let sorted = sort_desc_by(sp, amount_key());
            let j = greedy_count(sorted, target_amount, include_fee, fee_ppk, 0);
            let sel = sorted.take(j as int);
            &&& first_exact(sorted, target_amount) matches Some(p) ==> p.amount == target_amount && sp.contains(p)
            &&& (exists|k: int| 0 <= k < sp.len() && (#[trigger] sp[k]).amount == target_amount) ==> first_exact(
                sorted,
                target_amount,
            ) is Some
            &&& forall|k: int| 0 <= k < sel.len() ==> sp.contains(#[trigger] sel[k])
            &&& sel.to_multiset().subset_of(sp.to_multiset())
            &&& amount_sum(sel) >= needed_for(target_amount, j, include_fee, fee_ppk) ==> amount_sum(sel) >= target_amount
                + (if include_fee { selection_fee(j, include_fee, fee_ppk) as int } else { 0int })
        }),
{
    broadcast use vstd::seq_lib::group_to_multiset_ensures;
    let sp = spendable(proofs);
    let sorted = sort_desc_by(sp, amount_key());
    lemma_sort_desc_by(sp, amount_key());
    lemma_first_exact(sorted, target_amount);
    let j = greedy_count(sorted, target_amount, include_fee, fee_ppk, 0);
    lemma_greedy_count_bound(sorted, target_amount, include_fee, fee_ppk, 0);
    let sel = sorted.take(j as int);
    if exists|k: int| 0 <= k < sp.len() && (#[trigger] sp[k]).amount == target_amount {
        let k = choose|k: int| 0 <= k < sp.len() && (#[trigger] sp[k]).amount == target_amount;
        assert(sp.contains(sp[k]));
        assert(sp.to_multiset().count(sp[k]) > 0);
        assert(sorted.to_multiset().count(sp[k]) > 0);
        lemma_exact_found(sorted, target_amount, sp[k]);
    }
    assert(sel.to_multiset().subset_of(sp.to_multiset())) by {
        assert(sorted =~= sel + sorted.skip(j as int));
        vstd::seq_lib::lemma_multiset_commutative(sel, sorted.skip(j as int));
        assert forall|v: ProofData| sel.to_multiset().count(v) <= sp.to_multiset().count(v) by {
            assert(sorted.to_multiset().count(v) == sel.to_multiset().count(v) + sorted.skip(j as int).to_multiset().count(v));
        }
    }
    if first_exact(sorted, target_amount) is Some {
        let p = first_exact(sorted, target_amount)->0;
        assert(sorted.to_multiset().count(p) > 0);
        assert(sp.to_multiset().count(p) > 0);
    }
    assert forall|k: int| 0 <= k < sel.len() implies sp.contains(#[trigger] sel[k]) by {
        assert(sorted[k] == sel[k]);
        assert(sorted.contains(sel[k]));
        assert(sorted.to_multiset().count(sel[k]) > 0);
        assert(sp.to_multiset().count(sel[k]) > 0);
    }
}

/// With every balance positive, the greedy allocation's parts follow the
/// mints in order: part `k` names mint `k` and takes at least one sat and at
/// most that mint's balance.
proof fn lemma_allocation_parts(bs: Seq<MintBalance>, remaining: int)
    requires
        forall|i: int| 0 <= i < bs.len() ==> #[trigger] bs[i].balance > 0,
    ensures
        allocate(bs, remaining).len() <= bs.len(),
        forall|k: int| 0 <= k < allocate(bs, remaining).len() ==> (#[trigger] allocate(bs, remaining)[k]).0 == bs[k].mint_url@
            && 0 < allocate(bs, remaining)[k].1 <= bs[k].balance,
        forall|k: int| 0 <= k < allocate(bs, remaining).len() - 1 ==> (#[trigger] allocate(bs, remaining)[k]).1
            == bs[k].balance,
    decreases bs.len(),
{
    if bs.len() > 0 && remaining > 0 {
        let c = if bs[0].balance < remaining { bs[0].balance as int } else { remaining };
        assert forall|i: int| 0 <= i < bs.drop_first().len() implies #[trigger] bs.drop_first()[i].balance > 0 by {
            assert(bs.drop_first()[i] == bs[i + 1]);
        }
        lemma_allocation_parts(bs.drop_first(), remaining - c);
        let rest = allocate(bs.drop_first(), remaining - c);
        assert(allocate(bs, remaining) == seq![(bs[0].mint_url@, c as u64)] + rest);
        assert forall|k: int| 0 <= k < allocate(bs, remaining).len() implies (#[trigger] allocate(bs, remaining)[k]).0
            == bs[k].mint_url@ && 0 < allocate(bs, remaining)[k].1 <= bs[k].balance by {
            if k > 0 {
                assert(allocate(bs, remaining)[k] == rest[k - 1]);
                assert(bs.drop_first()[k - 1] == bs[k]);
            }
        }
        if c == remaining {
            assert(rest.len() == 0);
        }
        assert forall|k: int| 0 <= k < allocate(bs, remaining).len() - 1 implies (#[trigger] allocate(bs, remaining)[k]).1
            == bs[k].balance by {
            if k > 0 {
                assert(allocate(bs, remaining)[k] == rest[k - 1]);
                assert(bs.drop_first()[k - 1] == bs[k]);
            }
        }
    }
}

/// Sorting keeps every element's balance positive when all were.
proof fn lemma_sorted_balances_positive(s: Seq<MintBalance>)
    requires
        forall|i: int| 0 <= i < s.len() ==> #[trigger] s[i].balance > 0,
    ensures
        forall|i: int| 0 <= i < sort_desc_by(s, balance_key()).len() ==> #[trigger] sort_desc_by(s, balance_key())[i].balance > 0,
{
    broadcast use vstd::seq_lib::group_to_multiset_ensures;
    lemma_sort_desc_by(s, balance_key());
    let t = sort_desc_by(s, balance_key());
    assert forall|i: int| 0 <= i < t.len() implies #[trigger] t[i].balance > 0 by {
        assert(t.contains(t[i]));
        assert(t.to_multiset().count(t[i]) > 0);
        assert(s.to_multiset().count(t[i]) > 0);
        assert(s.contains(t[i]));
        let j = choose|j: int| 0 <= j < s.len() && s[j] == t[i];
        assert(s[j].balance > 0);
    }
}

/// Mints that take part have a balance.
proof fn lemma_available_positive(bs: Seq<MintBalance>, allowed: Option<Seq<Seq<char>>>)
    ensures
        forall|i: int| 0 <= i < available_mints(bs, allowed).len() ==> #[trigger] available_mints(bs, allowed)[i].balance > 0,
    decreases bs.len(),
{
    if bs.len() > 0 {
        lemma_available_positive(bs.drop_last(), allowed);
        let rest = available_mints(bs.drop_last(), allowed);
        assert forall|i: int| 0 <= i < available_mints(bs, allowed).len() implies #[trigger] available_mints(bs, allowed)[i].balance
            > 0 by {
            if i < rest.len() {
                assert(available_mints(bs, allowed)[i] == rest[i]);
            }
        }
    }
}

/// A multi-path split over mints holding enough pays exactly the amount:
/// its parts sum to it, and part `k` comes from the `k`-th mint in the
/// split's order (largest balance first), with at least one sat and at
/// most that mint's balance; every part but the last takes its mint's
/// whole balance.
pub proof fn law_mpp_split_pays_exactly(balances: Seq<MintBalance>, target_amount: u64, allowed: Option<Seq<Seq<char>>>)
    requires
        crate::mpp::balance_sum(available_mints(balances, allowed)) >= target_amount,
    ensures
        ({
            let order = split_order(balances, allowed);
            let parts = allocate(order, target_amount as int);
            &&& allocated_sum(parts) == target_amount
            &&& parts.len() <= order.len()
            &&& forall|k: int| 0 <= k < parts.len() ==> (#[trigger] parts[k]).0 == order[k].mint_url@ && 0 < parts[k].1
                <= order[k].balance
            &&& forall|k: int| 0 <= k < parts.len() - 1 ==> (#[trigger] parts[k]).1 == order[k].balance
        }),
{
    let av = available_mints(balances, allowed);
    let order = split_order(balances, allowed);
    lemma_available_positive(balances, allowed);
    lemma_sorted_balances_positive(av);
    crate::mpp::lemma_sort_keeps_balance(av);
    crate::mpp::lemma_allocate(order, target_amount as int);
    lemma_allocation_parts(order, target_amount as int);
}

/// No two balances are of the same mint.
pub open spec fn one_per_mint(bs: Seq<MintBalance>) -> bool {
    forall|i: int, j: int| 0 <= i < j < bs.len() ==> (#[trigger] bs[i]).mint_url@ != (#[trigger] bs[j]).mint_url@
}

/// A multiset of balances with no two of the same mint.
spec fn unique_mints_in(m: Multiset<MintBalance>) -> bool {
    forall|x: MintBalance, y: MintBalance|
        #![trigger m.count(x), m.count(y)]
        m.count(x) > 0 && m.count(y) > 0 && x.mint_url@ == y.mint_url@ ==> x == y && m.count(x) == 1
}

proof fn lemma_unique_to_multiset(s: Seq<MintBalance>)
    requires
        one_per_mint(s),
    ensures
        unique_mints_in(s.to_multiset()),
    decreases s.len(),
{
    broadcast use vstd::seq_lib::group_to_multiset_ensures;
    if s.len() == 0 {
        assert(s.to_multiset() =~= Multiset::empty());
    } else {
        let p = s.drop_last();
        let a = s.last();
        assert(p.push(a) =~= s);
        assert(one_per_mint(p)) by {
            assert forall|i: int, j: int| 0 <= i < j < p.len() implies (#[trigger] p[i]).mint_url@ != (#[trigger] p[j]).mint_url@ by {
                assert(p[i] == s[i] && p[j] == s[j]);
            }
        }
        lemma_unique_to_multiset(p);
        let m = s.to_multiset();
        let pm = p.to_multiset();
        assert(m =~= pm.insert(a));
        assert forall|x: MintBalance| pm.count(x) > 0 implies x.mint_url@ != a.mint_url@ by {
            assert(p.contains(x));
            let k = choose|k: int| 0 <= k < p.len() && p[k] == x;
            assert(s[k] == x && s[s.len() - 1] == a);
        }
        assert forall|x: MintBalance, y: MintBalance|
            #![trigger m.count(x), m.count(y)]
            m.count(x) > 0 && m.count(y) > 0 && x.mint_url@ == y.mint_url@ implies x == y && m.count(x) == 1 by {
            if x == a {
                if y != a {
                    assert(pm.count(y) > 0);
                }
                assert(pm.count(a) == 0);
            } else if y == a {
                assert(pm.count(x) > 0);
            } else {
                assert(pm.count(x) > 0 && pm.count(y) > 0);
            }
        }
    }
}

proof fn lemma_unique_from_multiset(t: Seq<MintBalance>)
    requires
        unique_mints_in(t.to_multiset()),
    ensures
        one_per_mint(t),
    decreases t.len(),
{
    broadcast use vstd::seq_lib::group_to_multiset_ensures;
    if t.len() > 0 {
        let p = t.drop_last();
        let a = t.last();
        assert(p.push(a) =~= t);
        let m = t.to_multiset();
        let pm = p.to_multiset();
        assert(m =~= pm.insert(a));
        assert forall|x: MintBalance, y: MintBalance|
            #![trigger pm.count(x), pm.count(y)]
            pm.count(x) > 0 && pm.count(y) > 0 && x.mint_url@ == y.mint_url@ implies x == y && pm.count(x) == 1 by {
            assert(m.count(x) >= pm.count(x) && m.count(y) >= pm.count(y));
            assert(m.count(x) > 0 && m.count(y) > 0);
        }
        lemma_unique_from_multiset(p);
        assert forall|i: int, j: int| 0 <= i < j < t.len() implies (#[trigger] t[i]).mint_url@ != (#[trigger] t[j]).mint_url@ by {
            if j < t.len() - 1 {
                assert(t[i] == p[i] && t[j] == p[j]);
            } else {
                assert(t[i] == p[i]);
                assert(p.contains(p[i]));
                assert(pm.count(p[i]) > 0);
                assert(m.count(t[i]) > 0 && m.count(a) > 0);
                if t[i].mint_url@ == a.mint_url@ {
                    assert(t[i] == a);
                    assert(m.count(a) == pm.count(a) + 1);
                }
            }
        }
    }
}

/// Each mint taking part in a split is one of the balances.
proof fn lemma_available_from(bs: Seq<MintBalance>, allowed: Option<Seq<Seq<char>>>)
    ensures
        forall|i: int| 0 <= i < available_mints(bs, allowed).len() ==> exists|j: int|
            0 <= j < bs.len() && bs[j] == #[trigger] available_mints(bs, allowed)[i],
    decreases bs.len(),
{
    if bs.len() > 0 {
        lemma_available_from(bs.drop_last(), allowed);
        let rest = available_mints(bs.drop_last(), allowed);
        assert forall|i: int| 0 <= i < available_mints(bs, allowed).len() implies exists|j: int|
            0 <= j < bs.len() && bs[j] == #[trigger] available_mints(bs, allowed)[i] by {
            if i < rest.len() {
                assert(available_mints(bs, allowed)[i] == rest[i]);
                let j = choose|j: int| 0 <= j < bs.drop_last().len() && bs.drop_last()[j] == rest[i];
                assert(bs[j] == rest[i]);
            } else {
                assert(available_mints(bs, allowed)[i] == bs[bs.len() - 1]);
            }
        }
    }
}

/// Keeping some of the balances keeps one per mint.
proof fn lemma_available_one_per_mint(bs: Seq<MintBalance>, allowed: Option<Seq<Seq<char>>>)
    requires
        one_per_mint(bs),
    ensures
        one_per_mint(available_mints(bs, allowed)),
    decreases bs.len(),
{
    if bs.len() > 0 {
        let p = bs.drop_last();
        assert(one_per_mint(p)) by {
            assert forall|i: int, j: int| 0 <= i < j < p.len() implies (#[trigger] p[i]).mint_url@ != (#[trigger] p[j]).mint_url@ by {
                assert(p[i] == bs[i] && p[j] == bs[j]);
            }
        }
        lemma_available_one_per_mint(p, allowed);
        lemma_available_from(p, allowed);
        let rest = available_mints(p, allowed);
        let av = available_mints(bs, allowed);
        if takes_part(bs.last(), allowed) {
            assert forall|i: int, j: int| 0 <= i < j < av.len() implies (#[trigger] av[i]).mint_url@ != (#[trigger] av[j]).mint_url@ by {
                assert(av[i] == rest[i]);
                if j < rest.len() {
                    assert(av[j] == rest[j]);
                } else {
                    assert(av[j] == bs[bs.len() - 1]);
                    let k = choose|k: int| 0 <= k < p.len() && p[k] == #[trigger] rest[i];
                    assert(bs[k] == rest[i]);
                }
            }
        }
    }
}

/// With one balance per mint, a multi-path split names each mint at most
/// once.
pub proof fn law_mpp_split_one_part_per_mint(balances: Seq<MintBalance>, target_amount: u64, allowed: Option<Seq<Seq<char>>>)
    requires
        one_per_mint(balances),
    ensures
        ({
            let parts = allocate(split_order(balances, allowed), target_amount as int);
            forall|i: int, j: int| 0 <= i < j < parts.len() ==> (#[trigger] parts[i]).0 != (#[trigger] parts[j]).0
        }),
{
    let av = available_mints(balances, allowed);
    let order = split_order(balances, allowed);
    lemma_available_one_per_mint(balances, allowed);
    lemma_unique_to_multiset(av);
    lemma_sort_desc_by(av, balance_key());
    lemma_unique_from_multiset(order);
    lemma_available_positive(balances, allowed);
    lemma_sorted_balances_positive(av);
    lemma_allocation_parts(order, target_amount as int);
    let parts = allocate(order, target_amount as int);
    assert forall|i: int, j: int| 0 <= i < j < parts.len() implies (#[trigger] parts[i]).0 != (#[trigger] parts[j]).0 by {
        assert(parts[i].0 == order[i].mint_url@ && parts[j].0 == order[j].mint_url@);
    }
}

/// The history is kept newest first, and an incremental fetch keeps every
/// known item.
pub proof fn law_history_newest_first(existing: Seq<crate::enriched_history::HistoryItemData>, fetched: Seq<crate::enriched_history::HistoryItemData>, incremental: bool)
    ensures
        ({
            let all = if incremental {
                existing + crate::history::new_items(fetched, crate::history::item_ids(existing))
            } else {
                fetched
            };
            let r = sort_desc_by(all, crate::history::created_key());
            &&& sorted_desc_by(r, crate::history::created_key())
            &&& incremental ==> forall|k: int| 0 <= k < existing.len() ==> r.contains(#[trigger] existing[k])
        }),
{
    broadcast use vstd::seq_lib::group_to_multiset_ensures;
    let all = if incremental {
        existing + crate::history::new_items(fetched, crate::history::item_ids(existing))
    } else {
        fetched
    };
    lemma_sort_desc_by(all, crate::history::created_key());
    let r = sort_desc_by(all, crate::history::created_key());
    if incremental {
        assert forall|k: int| 0 <= k < existing.len() implies r.contains(#[trigger] existing[k]) by {
            assert(all[k] == existing[k]);
            assert(all.contains(existing[k]));
            assert(all.to_multiset().count(existing[k]) > 0);
            assert(r.to_multiset().count(existing[k]) > 0);
        }
    }
}

/// A digit char stands for its digit.
proof fn lemma_digit_char(d: nat)
    requires
        d < 10,
    ensures
        digit_char(d) as int == '0' as int + d,
        '0' <= digit_char(d) <= '9',
        digit_char(d) != '+',
{
    if d == 0 {
    } else if d == 1 {
    } else if d == 2 {
    } else if d == 3 {
    } else if d == 4 {
    } else if d == 5 {
    } else if d == 6 {
    } else if d == 7 {
    } else if d == 8 {
    } else {
    }
}

/// Digits of a decimal representation are digits, and their value is the
/// number.
proof fn lemma_decimal_digits(n: nat)
    ensures
        decimal(n).len() > 0,
        all_digits(decimal(n)),
        digits_value(decimal(n)) == n,
        decimal(n)[0] != '+',
    decreases n,
{
    if n < 10 {
        lemma_digit_char(n);
        let d = decimal(n);
        assert(d.drop_last() =~= Seq::<char>::empty());
        assert(digits_value(Seq::<char>::empty()) == 0);
    } else {
        lemma_decimal_digits(n / 10);
        lemma_digit_char(n % 10);
        let d = decimal(n);
        assert(d.drop_last() =~= decimal(n / 10));
        assert(d.last() == digit_char(n % 10));
        assert forall|i: int| 0 <= i < d.len() implies '0' <= #[trigger] d[i] <= '9' by {
            if i < d.len() - 1 {
                assert(d[i] == decimal(n / 10)[i]);
            }
        }
        assert(d[0] == decimal(n / 10)[0]);
    }
}

/// Parsing a number's decimal text gives the number back.
pub proof fn law_decimal_round_trip(n: u64)
    ensures
        parsed_u64(decimal(n as nat)) == Some(n),
{
    lemma_decimal_digits(n as nat);
}

/// After the padding is restored, the base64 part of a token is a whole
/// number of four-byte blocks, or one byte over (a length no padding can
/// mend).
pub proof fn law_padding_restores_blocks(t: Seq<char>)
    ensures
        utf8_len(base64_part(padded_token(t))) % 4 == 0 || utf8_len(base64_part(padded_token(t))) % 4 == 1,
{
    let part = base64_part(t);
    let rem = utf8_len(part) % 4;
    if has_prefix(t, "cashuA"@) || has_prefix(t, "cashuB"@) {
        let p = padded_token(t);
        if rem == 2 || rem == 3 {
            let pad = if rem == 2 { "=="@ } else { "="@ };
            assert(p == t + pad);
            reveal_strlit("==");
            reveal_strlit("=");
            reveal_strlit("cashuA");
            reveal_strlit("cashuB");
            assert(has_prefix(p, "cashuA"@) || has_prefix(p, "cashuB"@)) by {
                assert(p.subrange(0, 6) =~= t.subrange(0, 6));
            }
            assert(base64_part(p) =~= part + pad);
            crate::receive::lemma_utf8_len_concat(part, pad);
            assert(utf8_len(Seq::<char>::empty()) == 0);
            assert(crate::receive::char_utf8_len('=') == 1);
            assert(utf8_len(seq!['=']) == 1) by {
                assert(seq!['='].drop_last() =~= Seq::<char>::empty());
            }
            assert(utf8_len(seq!['=', '=']) == 2) by {
                assert(seq!['=', '='].drop_last() =~= seq!['=']);
            }
            assert("=="@ =~= seq!['=', '=']);
            assert("="@ =~= seq!['=']);
            assert(utf8_len(pad) == 4 - rem);
            crate::receive::lemma_utf8_len_nonneg(part);
        }
    } else {
        assert(part.len() == 0);
        assert(padded_token(t) == t);
    }
}

/// Once a mint is removed, none of the remaining tokens is of that mint.
pub proof fn law_removed_mint_has_no_tokens(tokens: Seq<TokenData>, mint: Seq<char>)
    ensures
        forall|k: int| 0 <= k < tokens_not_of_mint(tokens, mint).len() ==> !same_mint(
            #[trigger] tokens_not_of_mint(tokens, mint)[k].mint@,
            mint,
        ),
    decreases tokens.len(),
{
    if tokens.len() > 0 {
        law_removed_mint_has_no_tokens(tokens.drop_last(), mint);
        let rest = tokens_not_of_mint(tokens.drop_last(), mint);
        assert forall|k: int| 0 <= k < tokens_not_of_mint(tokens, mint).len() implies !same_mint(
            #[trigger] tokens_not_of_mint(tokens, mint)[k].mint@,
            mint,
        ) by {
            if k < rest.len() {
                assert(tokens_not_of_mint(tokens, mint)[k] == rest[k]);
            }
        }
    }
}

/// Tokens rebuilt from fetched events come from distinct events that were
/// neither deleted nor unreadable, in the order of the events.
pub proof fn law_assembled_tokens_not_deleted(events: Seq<FetchedTokenEvent>, deleted: Seq<Seq<char>>)
    ensures
        token_events(events, deleted) matches Ok((idx, total)) ==> (forall|k: int| 0 <= k < idx.len() ==> 0 <= #[trigger] idx[k]
            < events.len() && !deleted.contains(events[idx[k]].event_id@) && events[idx[k]].content is Some) && (forall|
            a: int,
            b: int,
        | 0 <= a < b < idx.len() ==> idx[a] < idx[b]),
    decreases events.len(),
{
    if events.len() > 0 {
        law_assembled_tokens_not_deleted(events.drop_last(), deleted);
        if token_events(events, deleted) is Ok && token_events(events.drop_last(), deleted) is Ok {
            let (idx0, t0) = token_events(events.drop_last(), deleted)->Ok_0;
            let (idx, total) = token_events(events, deleted)->Ok_0;
            assert forall|k: int| 0 <= k < idx.len() implies 0 <= #[trigger] idx[k] < events.len() && !deleted.contains(
                events[idx[k]].event_id@,
            ) && events[idx[k]].content is Some by {
                if k < idx0.len() {
                    assert(idx[k] == idx0[k]);
                    assert(events.drop_last()[idx0[k]] == events[idx0[k]]);
                }
            }
        }
    }
}

/// After a cleanup, no proof that stays available has an unavailable
/// secret.
pub proof fn law_cleanup_keeps_only_available(ps: Seq<ProofData>, gone: Seq<Seq<char>>)
    ensures
        forall|k: int| 0 <= k < secret_not_in(ps, gone).len() ==> !gone.contains(#[trigger] secret_not_in(ps, gone)[k].secret@),
    decreases ps.len(),
{
    if ps.len() > 0 {
        law_cleanup_keeps_only_available(ps.drop_last(), gone);
        let rest = secret_not_in(ps.drop_last(), gone);
        assert forall|k: int| 0 <= k < secret_not_in(ps, gone).len() implies !gone.contains(
            #[trigger] secret_not_in(ps, gone)[k].secret@,
        ) by {
            if k < rest.len() {
                assert(secret_not_in(ps, gone)[k] == rest[k]);
            }
        }
    }
}


/// A mint with no live blind auth token hands out, on the next request,
/// the live token cached for it last.
pub proof fn law_cached_token_is_taken(s: Seq<CachedAuthToken>, c: CachedAuthToken, now: u64)
    requires
        live_tokens(s, now).len() == 0,
        token_live(c, now),
    ensures
        next_token(Some(s.push(c)), now) == Some(c.token),
{
    lemma_none_live(s, now);
    let t = s.push(c);
    crate::auth_cache::lemma_first_live(t, now);
    match crate::auth_cache::first_live(t, now) {
        Some(i) => {
            if i < s.len() {
                assert(t[i] == s[i]);
            }
        },
        None => {
            assert(t[s.len() as int] == c);
        },
    }
}

/// A list without live tokens has no live token at any position.
proof fn lemma_none_live(s: Seq<CachedAuthToken>, now: u64)
    requires
        live_tokens(s, now).len() == 0,
    ensures
        forall|j: int| 0 <= j < s.len() ==> !token_live(#[trigger] s[j], now),
    decreases s.len(),
{
    if s.len() > 0 {
        let q = s.drop_last();
        if token_live(s.last(), now) {
            assert(live_tokens(s, now).len() == live_tokens(q, now).len() + 1);
        } else {
            lemma_none_live(q, now);
            assert forall|j: int| 0 <= j < s.len() implies !token_live(#[trigger] s[j], now) by {
                if j < q.len() {
                    assert(s[j] == q[j]);
                }
            }
        }
    }
}

/// Keeping only the live tokens twice keeps the same tokens.
proof fn lemma_live_idempotent(s: Seq<CachedAuthToken>, now: u64)
    ensures
        live_tokens(live_tokens(s, now), now) == live_tokens(s, now),
    decreases s.len(),
{
    if s.len() > 0 {
        let q = s.drop_last();
        lemma_live_idempotent(q, now);
        let l = live_tokens(q, now);
        if token_live(s.last(), now) {
            assert(l.push(s.last()).drop_last() =~= l);
        }
    }
}

/// Dropping expired tokens leaves every mint's live tokens as they were.
pub proof fn law_cleanup_keeps_live_tokens(t: Option<Seq<CachedAuthToken>>, now: u64)
    ensures
        live_tokens(
            match cleaned_entry(t, now) {
                Some(s) => s,
                None => Seq::empty(),
            },
            now,
        ) == live_tokens(
            match t {
                Some(s) => s,
                None => Seq::empty(),
            },
            now,
        ),
{
    if let Some(s) = t {
        lemma_live_idempotent(s, now);
        if live_tokens(s, now).len() == 0 {
            assert(live_tokens(s, now) =~= Seq::<CachedAuthToken>::empty());
        }
    }
}

/// An endpoint that the blind auth settings protect asks for blind auth,
/// whatever the clear auth settings say of it.
pub proof fn law_blind_auth_wins(
    clear: Option<ClearAuthSettings>,
    b: BlindAuthSettings,
    k: (HttpMethod, Seq<char>),
)
    requires
        endpoint_keys(b.protected_endpoints@).contains(k),
    ensures
        settings_requirement(clear, Some(b), k) == Some(AuthRequired::Blind),
{
}


/// The sum of a list with one more amount in front.
proof fn lemma_u64_sum_front(a: u64, s: Seq<u64>)
    ensures
        u64_sum(seq![a] + s) == a + u64_sum(s),
    decreases s.len(),
{
    if s.len() > 0 {
        lemma_u64_sum_front(a, s.drop_last());
        assert((seq![a] + s).drop_last() =~= seq![a] + s.drop_last());
        assert((seq![a] + s).last() == s.last());
    } else {
        assert(seq![a] + s =~= seq![a]);
        assert(seq![a].drop_last() =~= Seq::<u64>::empty());
        assert(u64_sum(seq![a]) == u64_sum(seq![a].drop_last()) + a);
    }
}

/// Splitting an amount by a mint's maximum loses nothing, and no piece goes
/// over the maximum.
pub proof fn law_amount_batches_cover(total: u64, max: u64)
    requires
        max > 0,
    ensures
        u64_sum(amount_batches(total, max)) == total,
        forall|i: int| 0 <= i < amount_batches(total, max).len() ==> #[trigger] amount_batches(total, max)[i] <= max,
        total > 0 ==> forall|i: int| 0 <= i < amount_batches(total, max).len() ==> #[trigger] amount_batches(total, max)[i] > 0,
    decreases total,
{
    if total <= max {
        assert(seq![total].drop_last() =~= Seq::<u64>::empty());
        assert(u64_sum(seq![total]) == u64_sum(seq![total].drop_last()) + total);
    } else {
        let rest = amount_batches((total - max) as u64, max);
        assert(amount_batches(total, max) == seq![max] + rest);
        law_amount_batches_cover((total - max) as u64, max);
        lemma_u64_sum_front(max, rest);
        assert forall|i: int| 0 <= i < amount_batches(total, max).len() implies #[trigger] amount_batches(total, max)[i]
            <= max by {
            if i > 0 {
                assert(amount_batches(total, max)[i] == rest[i - 1]);
            }
        }
        assert forall|i: int| 0 <= i < amount_batches(total, max).len() implies #[trigger] amount_batches(total, max)[i]
            > 0 by {
            if i > 0 {
                assert(amount_batches(total, max)[i] == rest[i - 1]);
            }
        }
    }
}


/// The mint that comparing fees ranks first has a total fee no higher than
/// any mint whose estimate succeeded, and no such mint is lost.
pub proof fn law_cheapest_mint_is_cheapest(estimates: Seq<(String, Option<FeeEstimate>)>)
    ensures
        sort_desc_by(successful_estimates(estimates), cheaper_first()).len() == successful_estimates(estimates).len(),
        forall|i: int| 0 <= i < successful_estimates(estimates).len() ==> sort_desc_by(
            successful_estimates(estimates),
            cheaper_first(),
        )[0].1.total_fee <= #[trigger] successful_estimates(estimates)[i].1.total_fee,
{
    broadcast use vstd::seq_lib::group_to_multiset_ensures;
    let ok = successful_estimates(estimates);
    let sorted = sort_desc_by(ok, cheaper_first());
    lemma_sort_desc_by(ok, cheaper_first());
    assert forall|i: int| 0 <= i < ok.len() implies sorted[0].1.total_fee <= #[trigger] ok[i].1.total_fee by {
        assert(ok.to_multiset().count(ok[i]) > 0);
        assert(sorted.to_multiset().count(ok[i]) > 0);
        assert(sorted.contains(ok[i]));
        let j = choose|j: int| 0 <= j < sorted.len() && sorted[j] == ok[i];
        if j > 0 {
            assert(cheaper_first()(sorted[0]) >= cheaper_first()(sorted[j]));
        }
    }
}


/// A response stored at a time when it is fresh is what a read of its URL
/// finds, before and after expired responses are cleaned up.
pub proof fn law_response_read_after_store(
    m: Map<Seq<char>, CachedResponse>,
    url: Seq<char>,
    c: CachedResponse,
    now: u64,
)
    requires
        fresh_at(c.cached_at, now, c.ttl_secs),
    ensures
        m.insert(url, c).contains_key(url) && m.insert(url, c)[url] == c,
        fresh_responses(m.insert(url, c), now).contains_key(url),
        fresh_responses(m.insert(url, c), now)[url] == c,
{
}

/// Cleaning up expired responses changes no read: a URL has a fresh
/// response after the cleanup exactly when it had one before, and the same.
pub proof fn law_cleanup_keeps_fresh_responses(m: Map<Seq<char>, CachedResponse>, now: u64, url: Seq<char>)
    ensures
        (fresh_responses(m, now).contains_key(url) && fresh_at(
            fresh_responses(m, now)[url].cached_at,
            now,
            fresh_responses(m, now)[url].ttl_secs,
        )) <==> (m.contains_key(url) && fresh_at(m[url].cached_at, now, m[url].ttl_secs)),
        fresh_responses(m, now).contains_key(url) ==> fresh_responses(m, now)[url] == m[url],
{
}


/// The kind of a `pubkey` tag is neither `mint` nor `relay`.
proof fn lemma_pubkey_tag_kind(p2pk: Seq<char>)
    ensures
        crate::nutzap::tag_kind(seq!["pubkey"@, p2pk]) != "mint"@,
        crate::nutzap::tag_kind(seq!["pubkey"@, p2pk]) != "relay"@,
{
    reveal_strlit("pubkey");
    reveal_strlit("relay");
    reveal_strlit("mint");
    assert("pubkey"@.len() == 6 && "relay"@.len() == 5 && "mint"@.len() == 4);
}

/// The nutzap configuration read from the tags written for it gives back
/// the P2PK key, the relays, and the mints with their URLs normalized.
pub proof fn law_nutzap_info_round_trip(
    mints: Seq<(Seq<char>, Seq<char>)>,
    relays: Seq<Seq<char>>,
    p2pk: Seq<char>,
)
    ensures
        last_content(info_tags(mints, relays, p2pk), "pubkey"@) == Some(p2pk),
        declared_mints(info_tags(mints, relays, p2pk)) == normalized_mints(mints),
        all_contents(info_tags(mints, relays, p2pk), "relay"@) == relays,
{
    reveal_strlit("pubkey");
    reveal_strlit("relay");
    reveal_strlit("mint");
    let rt = crate::nutzap::relay_tags(relays);
    let mt = crate::nutzap::mint_tags(mints);
    let pt = seq![seq!["pubkey"@, p2pk]];
    lemma_relay_tags(relays);
    lemma_mint_tags(mints);
    lemma_tags_concat(rt, mt, "relay"@);
    lemma_tags_concat(rt + mt, pt, "relay"@);
    assert(pt.drop_last() =~= Seq::<Seq<Seq<char>>>::empty());
    lemma_pubkey_tag_kind(p2pk);
    assert(pt.last() == seq!["pubkey"@, p2pk]);
    assert(declared_mints(pt.drop_last()) =~= Seq::<(Seq<char>, Seq<char>)>::empty());
    assert(all_contents(pt.drop_last(), "relay"@) =~= Seq::<Seq<char>>::empty());
    assert(declared_mints(pt) =~= Seq::<(Seq<char>, Seq<char>)>::empty());
    assert(all_contents(pt, "relay"@) =~= Seq::<Seq<char>>::empty());
    assert(declared_mints(rt + mt + pt) =~= normalized_mints(mints));
    assert(all_contents(rt + mt + pt, "relay"@) =~= relays);
    assert((rt + mt + pt).last() == seq!["pubkey"@, p2pk]);
}


/// Adding received nutzaps only where their event id is new keeps every
/// pending nutzap's event id unique.
pub proof fn law_pending_nutzaps_stay_distinct(v: Seq<PendingNutzap>, n: PendingNutzap)
    requires
        nutzap_ids(v).no_duplicates(),
    ensures
        !nutzap_ids(v).contains(n.event_id@) ==> nutzap_ids(v.push(n)).no_duplicates(),
{
    if !nutzap_ids(v).contains(n.event_id@) {
        let w = nutzap_ids(v.push(n));
        assert forall|a: int, b: int| 0 <= a < w.len() && 0 <= b < w.len() && a != b implies w[a] != w[b] by {
            if a < v.len() && b < v.len() {
                assert(w[a] == nutzap_ids(v)[a] && w[b] == nutzap_ids(v)[b]);
            } else if a < v.len() {
                assert(w[a] == nutzap_ids(v)[a]);
            } else if b < v.len() {
                assert(w[b] == nutzap_ids(v)[b]);
            }
        }
    }
}


/// The selected numbers of flags with increasing numbers increase, and
/// each is below any number that comes after the flags.
proof fn lemma_selected_increasing(flags: Seq<(bool, u8)>)
    requires
        forall|i: int, j: int| 0 <= i < j < flags.len() ==> flags[i].1 < flags[j].1,
    ensures
        forall|i: int, j: int| 0 <= i < j < selected(flags).len() ==> selected(flags)[i] < selected(flags)[j],
        forall|k: int| 0 <= k < selected(flags).len() ==> exists|m: int| 0 <= m < flags.len() && flags[m].1 == #[trigger] selected(flags)[k],
    decreases flags.len(),
{
    if flags.len() > 0 {
        let q = flags.drop_last();
        lemma_selected_increasing(q);
        let sq = selected(q);
        if flags.last().0 {
            let s = sq.push(flags.last().1);
            assert forall|k: int| 0 <= k < s.len() implies exists|m: int| 0 <= m < flags.len() && flags[m].1 == #[trigger] s[k] by {
                if k < sq.len() {
                    let m = choose|m: int| 0 <= m < q.len() && q[m].1 == sq[k];
                    assert(flags[m].1 == s[k]);
                } else {
                    assert(flags[flags.len() - 1].1 == s[k]);
                }
            }
            assert forall|i: int, j: int| 0 <= i < j < s.len() implies s[i] < s[j] by {
                if j == sq.len() {
                    let m = choose|m: int| 0 <= m < q.len() && q[m].1 == sq[i];
                    assert(flags[m].1 < flags[flags.len() - 1].1);
                }
            }
        } else {
            assert forall|k: int| 0 <= k < sq.len() implies exists|m: int| 0 <= m < flags.len() && flags[m].1 == #[trigger] sq[k] by {
                let m = choose|m: int| 0 <= m < q.len() && q[m].1 == sq[k];
                assert(flags[m].1 == sq[k]);
            }
        }
    }
}

/// The NUTs a mint supports come out in increasing order, each once.
pub proof fn law_supported_nuts_increase(n: NutSettings)
    ensures
        forall|i: int, j: int| 0 <= i < j < supported_numbers(n).len() ==> supported_numbers(n)[i] < supported_numbers(n)[j],
{
    lemma_selected_increasing(nut_flags(n));
}


/// Announced mints have distinct URLs.
proof fn lemma_announced_distinct(anns: Seq<MintAnnouncement>)
    ensures
        distinct_urls(announced(anns)),
    decreases anns.len(),
{
    if anns.len() > 0 {
        lemma_announced_distinct(anns.drop_last());
        if let Some(v) = crate::discovery::announced_view(anns.last()) {
            lemma_put_distinct(announced(anns.drop_last()), v);
        }
    }
}

/// Recommendations keep the URLs distinct.
proof fn lemma_recommended_distinct(ms: Seq<MintView>, recs: Seq<RecommendationEvent>)
    requires
        distinct_urls(ms),
    ensures
        distinct_urls(all_recommended(ms, recs)),
    decreases recs.len(),
{
    if recs.len() > 0 {
        lemma_recommended_distinct(ms, recs.drop_last());
        let e = recs.last();
        lemma_event_distinct(
            all_recommended(ms, recs.drop_last()),
            crate::nutzap::tag_views(e.tags@),
            e.author_pubkey@,
            e.content@,
        );
    }
}

/// One event's recommendations keep the URLs distinct.
proof fn lemma_event_distinct(ms: Seq<MintView>, ts: Seq<Seq<Seq<char>>>, author: Seq<char>, content: Seq<char>)
    requires
        distinct_urls(ms),
    ensures
        distinct_urls(event_recommended(ms, ts, author, content)),
    decreases ts.len(),
{
    if ts.len() > 0 {
        lemma_event_distinct(ms, ts.drop_last(), author, content);
        if crate::discovery::recommends_cashu(ts.last()) {
            lemma_recommend_distinct(event_recommended(ms, ts.drop_last(), author, content), ts.last()[1], author, content);
        }
    }
}

/// In a list with distinct URLs no mint occurs twice.
proof fn lemma_count_at_most_one(s: Seq<MintView>, x: MintView)
    requires
        distinct_urls(s),
    ensures
        s.to_multiset().count(x) <= 1,
    decreases s.len(),
{
    broadcast use vstd::seq_lib::group_to_multiset_ensures;
    if s.len() > 0 {
        let q = s.drop_last();
        assert(distinct_urls(q));
        lemma_count_at_most_one(q, x);
        assert(s =~= q.push(s.last()));
        if x == s.last() && q.to_multiset().count(x) > 0 {
            assert(q.contains(x));
            let k = choose|k: int| 0 <= k < q.len() && q[k] == x;
            assert(s[k].url == s[s.len() - 1].url);
        }
    }
}

/// A value at two positions is counted at least twice.
proof fn lemma_count_two(t: Seq<MintView>, i: int, j: int)
    requires
        0 <= i < j < t.len(),
        t[i] == t[j],
    ensures
        t.to_multiset().count(t[i]) >= 2,
    decreases t.len(),
{
    broadcast use vstd::seq_lib::group_to_multiset_ensures;
    let q = t.drop_last();
    assert(t =~= q.push(t.last()));
    if j == t.len() - 1 {
        assert(q[i] == t[i]);
        assert(q.contains(t[i]));
    } else {
        assert(q[i] == t[i] && q[j] == t[j]);
        lemma_count_two(q, i, j);
    }
}

/// Reordering a list with distinct URLs keeps them distinct.
proof fn lemma_permutation_distinct(s: Seq<MintView>, t: Seq<MintView>)
    requires
        distinct_urls(s),
        t.to_multiset() == s.to_multiset(),
    ensures
        distinct_urls(t),
{
    broadcast use vstd::seq_lib::group_to_multiset_ensures;
    assert forall|i: int, j: int| 0 <= i < t.len() && 0 <= j < t.len() && i != j implies t[i].url != t[j].url by {
        if t[i].url == t[j].url {
            if t[i] == t[j] {
                if i < j {
                    lemma_count_two(t, i, j);
                } else {
                    lemma_count_two(t, j, i);
                }
                lemma_count_at_most_one(s, t[i]);
            } else {
                assert(t.to_multiset().count(t[i]) > 0);
                assert(t.to_multiset().count(t[j]) > 0);
                assert(s.contains(t[i]));
                assert(s.contains(t[j]));
                let a = choose|a: int| 0 <= a < s.len() && s[a] == t[i];
                let b = choose|b: int| 0 <= b < s.len() && s[b] == t[j];
                assert(s[a].url == s[b].url);
            }
        }
    }
}

/// Discovery lists each mint URL once.
pub proof fn law_discovered_mints_distinct(anns: Seq<MintAnnouncement>, recs: Seq<RecommendationEvent>)
    ensures
        distinct_urls(discovered(anns, recs)),
{
    lemma_announced_distinct(anns);
    lemma_recommended_distinct(announced(anns), recs);
    let m = all_recommended(announced(anns), recs);
    lemma_sort_desc_by(m, by_recommendations());
    lemma_permutation_distinct(m, discovered(anns, recs));
}

/// One recovery per mint: the first failure gets its proofs back to
/// recover, a failure during that recovery queues its proofs, the next take
/// hands exactly those back, and the take after that ends the recovery,
/// leaving the states as they were before.
pub proof fn law_recovery_queue_hands_back(
    m: Map<Seq<char>, (bool, Seq<ProofData>)>,
    k: Seq<char>,
    first: Seq<ProofData>,
    second: Seq<ProofData>,
)
    requires
        !m.contains_key(k),
        second.len() > 0,
    ensures
        failure_handback(m, k, first) == Some(first),
        failure_handback(after_failure(m, k, first), k, second) is None,
        take_handback(after_failure(after_failure(m, k, first), k, second), k) == Some(second),
        take_handback(after_take(after_failure(after_failure(m, k, first), k, second), k), k) is None,
        after_take(after_take(after_failure(after_failure(m, k, first), k, second), k), k) == m,
{
    let m1 = after_failure(m, k, first);
    let m2 = after_failure(m1, k, second);
    assert(Seq::<ProofData>::empty() + second =~= second);
    let m3 = after_take(m2, k);
    assert(after_take(m3, k) =~= m);
}

/// Scanning a wallet event's content finds its private key and its mint
/// URLs.
proof fn lemma_scan_content(privkey: Seq<char>, mints: Seq<Seq<char>>)
    requires
        privkey.len() > 0,
    ensures
        pair_scan(content_pairs(privkey, mints)) == (privkey, false, mints),
    decreases mints.len(),
{
    reveal_strlit("privkey");
    reveal_strlit("mint");
    assert("mint"@ != "privkey"@) by {
        assert("mint"@.len() != "privkey"@.len());
    }
    let c = content_pairs(privkey, mints);
    if mints.len() == 0 {
        assert(c =~= seq![seq!["privkey"@, privkey]]);
        assert(c.drop_last() =~= Seq::<Seq<Seq<char>>>::empty());
        assert(c.last() == seq!["privkey"@, privkey]);
        assert(pair_scan(c.drop_last()) == (Seq::<char>::empty(), false, Seq::<Seq<char>>::empty()));
    } else {
        lemma_scan_content(privkey, mints.drop_last());
        assert(c.drop_last() =~= content_pairs(privkey, mints.drop_last()));
        assert(c.last() == seq!["mint"@, mints.last()]);
        assert(pair_scan(c.drop_last()) == (privkey, false, mints.drop_last()));
        assert(mints.drop_last().push(mints.last()) =~= mints);
    }
}

/// URLs that parse to themselves are kept as they are.
proof fn lemma_hrefs_of_serialized(mints: Seq<Seq<char>>)
    requires
        forall|i: int| 0 <= i < mints.len() ==> (#[trigger] parsed_url(mints[i]) matches Ok(u) && u.0 == mints[i]),
    ensures
        parsed_hrefs(parses_of(mints)) == mints,
    decreases mints.len(),
{
    if mints.len() > 0 {
        lemma_hrefs_of_serialized(mints.drop_last());
        assert(parses_of(mints).drop_last() =~= parses_of(mints.drop_last()));
        assert(parsed_url(mints[mints.len() - 1]) matches Ok(u) && u.0 == mints.last());
        assert(mints.drop_last().push(mints.last()) =~= mints);
    } else {
        assert(parses_of(mints) =~= Seq::empty());
    }
}

/// Reading the content of a new wallet's event gives back its private key
/// and mints, when the key is not empty, there is a mint, and each mint URL
/// is a URL's serialization (it parses to itself), as a new wallet's are.
pub proof fn law_wallet_content_reads_back(privkey: Seq<char>, mints: Seq<Seq<char>>)
    requires
        privkey.len() > 0,
        mints.len() > 0,
        forall|i: int| 0 <= i < mints.len() ==> (#[trigger] parsed_url(mints[i]) matches Ok(u) && u.0 == mints[i]),
    ensures
        read_wallet_pairs(content_pairs(privkey, mints)) == Ok::<(Seq<char>, Seq<Seq<char>>), Seq<char>>((privkey, mints)),
{
    lemma_scan_content(privkey, mints);
    lemma_hrefs_of_serialized(mints);
}

/// A stored counter backup is what reading the mint's backup gives back;
/// other mints' backups stay as they were; once a mint's backups are
/// dropped, reading gives none.
pub proof fn law_counter_backup_read_after_write(bs: Seq<CounterBackup>, b: CounterBackup, other: Seq<char>)
    requires
        other != b.mint_url@,
    ensures
        backup_of(with_backup(bs, b), b.mint_url@) == Some(b),
        backup_of(with_backup(bs, b), other) == backup_of(bs, other),
        backup_of(without_backup(bs, b.mint_url@), b.mint_url@) is None,
{
    let u = b.mint_url@;
    let w = with_backup(bs, b);
    if has_backup(bs, u) {
        lemma_first_backup(bs, u);
        let i = choose|i: int| first_backup_at(bs, u, i);
        assert(first_backup_at(w, u, i));
        lemma_first_backup(w, u);
        if has_backup(bs, other) {
            lemma_first_backup(bs, other);
            let j = choose|j: int| first_backup_at(bs, other, j);
            assert(j != i);
            assert(first_backup_at(w, other, j));
            lemma_first_backup(w, other);
        } else {
            assert(!has_backup(w, other)) by {
                if has_backup(w, other) {
                    let k = choose|k: int| 0 <= k < w.len() && w[k].mint_url@ == other;
                    assert(bs[k].mint_url@ == other);
                }
            }
        }
    } else {
        assert(first_backup_at(w, u, bs.len() as int));
        lemma_first_backup(w, u);
        if has_backup(bs, other) {
            lemma_first_backup(bs, other);
            let j = choose|j: int| first_backup_at(bs, other, j);
            assert(first_backup_at(w, other, j));
            lemma_first_backup(w, other);
        } else {
            assert(!has_backup(w, other)) by {
                if has_backup(w, other) {
                    let k = choose|k: int| 0 <= k < w.len() && w[k].mint_url@ == other;
                    assert(bs[k].mint_url@ == other);
                }
            }
        }
    }
    let f = |x: CounterBackup| x.mint_url@ != u;
    let r = without_backup(bs, u);
    bs.filter_lemma(f);
    assert(!has_backup(r, u)) by {
        if has_backup(r, u) {
            let k = choose|k: int| 0 <= k < r.len() && r[k].mint_url@ == u;
            assert(f(r[k]));
        }
    }
}

/// Among the first `n` proofs, one with secret `s` is reported spent.
pub open spec fn reported_spent(batch: Seq<ProofData>, states: Seq<MintProofState>, n: nat, s: Seq<char>) -> bool {
    exists|i: int| 0 <= i < n && batch[i].secret@ == s && states[i] == MintProofState::Spent
}

/// Among the first `n` proofs, one with secret `s` is reported unspent, or
/// is a reserved one no transaction holds.
pub open spec fn reported_reclaimable(batch: Seq<ProofData>, states: Seq<MintProofState>, n: nat, s: Seq<char>) -> bool {
    exists|i: int|
        0 <= i < n && batch[i].secret@ == s && (states[i] == MintProofState::Unspent || (states[i]
            == MintProofState::Reserved && batch[i].transaction_id is None))
}

/// Every secret a state check marks spent is that of a proof the mint
/// reports spent; every secret it returns to spendable, that of a proof it
/// reports unspent or a reserved one no transaction holds.
proof fn lemma_sync_follow(pending: Map<Seq<char>, u64>, batch: Seq<ProofData>, states: Seq<MintProofState>, n: nat, now: u64)
    requires
        n <= batch.len(),
        n <= states.len(),
    ensures
        forall|k: int| 0 <= k < sync_fold(pending, batch, states, n, now).spent.len() ==> reported_spent(
            batch, states, n, #[trigger] sync_fold(pending, batch, states, n, now).spent[k]),
        forall|k: int| 0 <= k < sync_fold(pending, batch, states, n, now).revert.len() ==> reported_reclaimable(
            batch, states, n, #[trigger] sync_fold(pending, batch, states, n, now).revert[k]),
    decreases n,
{
    if n > 0 {
        let m = (n - 1) as nat;
        lemma_sync_follow(pending, batch, states, m, now);
        let f0 = sync_fold(pending, batch, states, m, now);
        let f = sync_fold(pending, batch, states, n, now);
        assert(f == sync_step(f0, batch[m as int], states[m as int], now));
        assert forall|k: int| 0 <= k < f.spent.len() implies reported_spent(batch, states, n, #[trigger] f.spent[k]) by {
            if k < f0.spent.len() {
                assert(f.spent[k] == f0.spent[k]);
                assert(reported_spent(batch, states, m, f0.spent[k]));
                let i = choose|i: int| 0 <= i < m && batch[i].secret@ == f0.spent[k] && states[i] == MintProofState::Spent;
                assert(0 <= i < n && batch[i].secret@ == f.spent[k] && states[i] == MintProofState::Spent);
            } else {
                assert(states[m as int] == MintProofState::Spent);
                assert(batch[m as int].secret@ == f.spent[k]);
            }
        }
        assert forall|k: int| 0 <= k < f.revert.len() implies reported_reclaimable(
            batch,
            states,
            n,
            #[trigger] f.revert[k],
        ) by {
            if k < f0.revert.len() {
                assert(f.revert[k] == f0.revert[k]);
                assert(reported_reclaimable(batch, states, m, f0.revert[k]));
                let i = choose|i: int|
                    0 <= i < m && batch[i].secret@ == f0.revert[k] && (states[i] == MintProofState::Unspent || (
                    states[i] == MintProofState::Reserved && batch[i].transaction_id is None));
                assert(0 <= i < n);
            } else {
                assert(batch[m as int].secret@ == f.revert[k]);
            }
        }
    }
}

/// A state check with a mint marks spent only proofs the mint reports
/// spent, and returns to spendable only proofs it reports unspent, or
/// reserved ones that no transaction holds: never a proof it reports spent
/// or pending.
pub proof fn law_sync_changes_follow_mint(
    pending: Map<Seq<char>, u64>,
    batch: Seq<ProofData>,
    states: Seq<MintProofState>,
    now: u64,
)
    ensures
        forall|k: int| 0 <= k < sync_fold(pending, batch, states, paired(batch, states), now).spent.len() ==> reported_spent(
            batch, states, paired(batch, states), #[trigger] sync_fold(pending, batch, states, paired(batch, states), now).spent[k]),
        forall|k: int| 0 <= k < sync_fold(pending, batch, states, paired(batch, states), now).revert.len() ==> reported_reclaimable(
            batch, states, paired(batch, states), #[trigger] sync_fold(pending, batch, states, paired(batch, states), now).revert[k]),
{
    lemma_sync_follow(pending, batch, states, paired(batch, states), now);
}

/// Proofs are only ever taken as orphaned when the mint reports them
/// unspent.
pub proof fn law_orphans_confirmed_unspent(cands: Seq<ProofData>, states: Seq<MintProofState>)
    ensures
        forall|k: int| 0 <= k < unspent_ones(cands, states).len() ==> exists|i: int|
            0 <= i < cands.len() && i < states.len() && cands[i] == #[trigger] unspent_ones(cands, states)[k]
                && states[i] == MintProofState::Unspent,
    decreases cands.len(),
{
    if cands.len() == 0 || states.len() == 0 {
    } else if cands.len() <= states.len() {
        let c0 = cands.drop_last();
        let s0 = states.take(cands.len() - 1);
        law_orphans_confirmed_unspent(c0, s0);
        let u0 = unspent_ones(c0, s0);
        let u = unspent_ones(cands, states);
        assert forall|k: int| 0 <= k < u.len() implies exists|i: int|
            0 <= i < cands.len() && i < states.len() && cands[i] == #[trigger] u[k]
                && states[i] == MintProofState::Unspent by {
            if k < u0.len() {
                assert(u[k] == u0[k]);
                let i = choose|i: int|
                    0 <= i < c0.len() && i < s0.len() && c0[i] == u0[k] && s0[i] == MintProofState::Unspent;
                assert(cands[i] == c0[i]);
                assert(states[i] == s0[i]);
            } else {
                assert(u[k] == cands.last());
                assert(cands[cands.len() - 1] == cands.last());
            }
        }
    } else {
        let c1 = cands.take(states.len() as int);
        law_orphans_confirmed_unspent(c1, states);
        let u = unspent_ones(cands, states);
        assert(u == unspent_ones(c1, states));
        assert forall|k: int| 0 <= k < u.len() implies exists|i: int|
            0 <= i < cands.len() && i < states.len() && cands[i] == #[trigger] u[k]
                && states[i] == MintProofState::Unspent by {
            let i = choose|i: int|
                0 <= i < c1.len() && i < states.len() && c1[i] == u[k] && states[i] == MintProofState::Unspent;
            assert(cands[i] == c1[i]);
        }
    }
}

/// A proof is added from the Cashu library's store only when its `Y` was
/// computed and the wallet does not know it, so no value is counted twice.
pub proof fn law_added_proofs_are_unknown(known: Seq<Seq<char>>, held: Seq<ProofData>, ys: Seq<Option<Seq<char>>>)
    requires
        held.len() == ys.len(),
    ensures
        forall|k: int| 0 <= k < unknown_by_y(known, held, ys).len() ==> exists|i: int|
            0 <= i < held.len() && held[i] == #[trigger] unknown_by_y(known, held, ys)[k] && (ys[i] matches Some(
                y,
            ) && !known.contains(y)),
    decreases held.len(),
{
    if held.len() > 0 {
        let h0 = held.drop_last();
        let y0 = ys.drop_last();
        law_added_proofs_are_unknown(known, h0, y0);
        let u0 = unknown_by_y(known, h0, y0);
        let u = unknown_by_y(known, held, ys);
        assert forall|k: int| 0 <= k < u.len() implies exists|i: int|
            0 <= i < held.len() && held[i] == #[trigger] u[k] && (ys[i] matches Some(y) && !known.contains(y)) by {
            if k < u0.len() {
                assert(u[k] == u0[k]);
                let i = choose|i: int| 0 <= i < h0.len() && h0[i] == u0[k] && (y0[i] matches Some(y) && !known.contains(y));
                assert(held[i] == h0[i]);
                assert(ys[i] == y0[i]);
            } else {
                assert(u[k] == held.last());
                assert(held[held.len() - 1] == held.last());
                assert(ys[ys.len() - 1] == ys.last());
            }
        }
    }
}

/// Rows of references marked `created` (or `destroyed`) are read back as
/// created (or destroyed) events, after those read before them.
proof fn lemma_fields_of_ref_rows(base: Seq<Seq<Seq<char>>>, ids: Seq<Seq<char>>, created: bool)
    ensures
        ({
            let h = history_fields(base);
            let marker = if created { "created"@ } else { "destroyed"@ };
            let all = history_fields(base + ref_rows(ids, marker));
            if created { all == (h.0, h.1, h.2 + ids, h.3) } else { all == (h.0, h.1, h.2, h.3 + ids) }
        }),
    decreases ids.len(),
{
    reveal_strlit("e");
    reveal_strlit("created");
    reveal_strlit("destroyed");
    reveal_strlit("direction");
    reveal_strlit("amount");
    let marker = if created { "created"@ } else { "destroyed"@ };
    let h = history_fields(base);
    if ids.len() == 0 {
        assert(base + ref_rows(ids, marker) =~= base);
        assert(h.2 + ids =~= h.2);
        assert(h.3 + ids =~= h.3);
    } else {
        lemma_fields_of_ref_rows(base, ids.drop_last(), created);
        let all = base + ref_rows(ids, marker);
        assert(all.drop_last() =~= base + ref_rows(ids.drop_last(), marker));
        assert(all.last() == seq!["e"@, ids.last(), Seq::<char>::empty(), marker]);
        assert("e"@ != "direction"@) by {
            assert("e"@.len() != "direction"@.len());
        }
        assert("e"@ != "amount"@) by {
            assert("e"@.len() != "amount"@.len());
        }
        assert("destroyed"@ != "created"@) by {
            assert("destroyed"@.len() != "created"@.len());
        }
        assert(h.2 + ids =~= (h.2 + ids.drop_last()).push(ids.last()));
        assert(h.3 + ids =~= (h.3 + ids.drop_last()).push(ids.last()));
    }
}

/// The events marked redeemed are read back from their tags.
proof fn lemma_redeemed_rows(ids: Seq<Seq<char>>)
    ensures
        redeemed_of(ref_rows(ids, "redeemed"@)) == ids,
    decreases ids.len(),
{
    reveal_strlit("e");
    reveal_strlit("redeemed");
    if ids.len() > 0 {
        lemma_redeemed_rows(ids.drop_last());
        assert(ref_rows(ids, "redeemed"@).drop_last() =~= ref_rows(ids.drop_last(), "redeemed"@));
        assert(ids.drop_last().push(ids.last()) =~= ids);
    } else {
        assert(ref_rows(ids, "redeemed"@) =~= Seq::<Seq<Seq<char>>>::empty());
    }
}

/// Reading a history event gives back what writing it was given: its
/// direction and amount, and the event ids (as written, in lower case) of
/// the tokens created, destroyed and redeemed.
pub proof fn law_history_event_reads_back(
    direction: Seq<char>,
    amount: u64,
    created: Seq<Seq<char>>,
    destroyed: Seq<Seq<char>>,
    redeemed: Seq<Seq<char>>,
)
    requires
        direction == "in"@ || direction == "out"@,
    ensures
        history_fields(history_content_rows(direction, amount, created, destroyed)) == (
            if direction == "in"@ { Direction::In } else { Direction::Out },
            Some(amount),
            event_refs(created),
            event_refs(destroyed),
        ),
        redeemed_of(ref_rows(event_refs(redeemed), "redeemed"@)) == event_refs(redeemed),
{
    let head = seq![seq!["direction"@, direction], seq!["amount"@, decimal(amount as nat)], seq!["unit"@, "sat"@]];
    lemma_history_head(direction, amount);
    let c = event_refs(created);
    let d = event_refs(destroyed);
    lemma_fields_of_ref_rows(head, c, true);
    assert(Seq::<Seq<char>>::empty() + c =~= c);
    lemma_fields_of_ref_rows(head + ref_rows(c, "created"@), d, false);
    assert(Seq::<Seq<char>>::empty() + d =~= d);
    assert(history_content_rows(direction, amount, created, destroyed) =~= head + ref_rows(c, "created"@) + ref_rows(
        d,
        "destroyed"@,
    ));
    lemma_redeemed_rows(event_refs(redeemed));
}

/// The three leading rows of a history event (direction, amount, unit)
/// are read as its direction and amount.
proof fn lemma_history_head(direction: Seq<char>, amount: u64)
    ensures
        history_fields(seq![seq!["direction"@, direction], seq!["amount"@, decimal(amount as nat)], seq!["unit"@, "sat"@]])
            == (if direction == "in"@ { Direction::In } else { Direction::Out }, Some(amount), Seq::<Seq<char>>::empty(),
            Seq::<Seq<char>>::empty()),
{
    reveal_strlit("direction");
    reveal_strlit("amount");
    reveal_strlit("unit");
    reveal_strlit("in");
    reveal_strlit("e");
    law_decimal_round_trip(amount);
    let dir = if direction == "in"@ { Direction::In } else { Direction::Out };
    let r0 = seq!["direction"@, direction];
    let r1 = seq!["amount"@, decimal(amount as nat)];
    let r2 = seq!["unit"@, "sat"@];
    let head = seq![r0, r1, r2];
    assert("amount"@ != "direction"@) by {
        assert("amount"@.len() != "direction"@.len());
    }
    assert("unit"@ != "direction"@ && "unit"@ != "amount"@ && "unit"@ != "e"@) by {
        assert("unit"@.len() != "direction"@.len());
        assert("unit"@.len() != "amount"@.len());
        assert("unit"@.len() != "e"@.len());
    }
    assert(head.take(1).drop_last() =~= Seq::<Seq<Seq<char>>>::empty());
    assert(history_fields(Seq::<Seq<Seq<char>>>::empty()) == (Direction::In, None::<u64>, Seq::<Seq<char>>::empty(), Seq::<Seq<char>>::empty()));
    assert(head.take(1).last() == r0);
    assert(head.take(2).last() == r1);
    assert(head.last() == r2);
    assert(history_fields(head.take(1)) == (dir, None::<u64>, Seq::<Seq<char>>::empty(), Seq::<Seq<char>>::empty()));
    assert(head.take(2).drop_last() =~= head.take(1));
    assert(history_fields(head.take(2)) == (dir, Some(amount), Seq::<Seq<char>>::empty(), Seq::<Seq<char>>::empty()));
    assert(head.drop_last() =~= head.take(2));
}

/// An optional row named other than a field a reader takes changes
/// nothing read.
proof fn lemma_history_skips_row(base: Seq<Seq<Seq<char>>>, name: Seq<char>, value: Option<Seq<char>>)
    requires
        name != "direction"@,
        name != "amount"@,
        name != "e"@,
    ensures
        history_fields(base + optional_row(name, value)) == history_fields(base),
{
    match value {
        Some(v) => {
            assert((base + optional_row(name, value)).drop_last() =~= base);
            assert((base + optional_row(name, value)).last() == seq![name, v]);
        },
        None => {
            assert(base + optional_row(name, value) =~= base);
        },
    }
}

/// Reading a history event written with its operation type and invoice
/// gives back its direction (`in`, else out), amount, and the token events
/// created and destroyed, as written.
pub proof fn law_typed_history_reads_back(
    direction: Seq<char>,
    amount: u64,
    created: Seq<Seq<char>>,
    destroyed: Seq<Seq<char>>,
    operation_type: Option<Seq<char>>,
    invoice: Option<Seq<char>>,
)
    ensures
        history_fields(typed_history_rows(direction, amount, created, destroyed, operation_type, invoice)) == (
            if direction == "in"@ { Direction::In } else { Direction::Out },
            Some(amount),
            created,
            destroyed,
        ),
{
    reveal_strlit("direction");
    reveal_strlit("amount");
    reveal_strlit("e");
    reveal_strlit("type");
    reveal_strlit("invoice");
    let head = seq![seq!["direction"@, direction], seq!["amount"@, decimal(amount as nat)], seq!["unit"@, "sat"@]];
    lemma_history_head(direction, amount);
    assert("type"@ != "direction"@ && "type"@ != "amount"@ && "type"@ != "e"@) by {
        assert("type"@.len() != "direction"@.len());
        assert("type"@.len() != "amount"@.len());
        assert("type"@.len() != "e"@.len());
    }
    assert("invoice"@ != "direction"@ && "invoice"@ != "amount"@ && "invoice"@ != "e"@) by {
        assert("invoice"@.len() != "direction"@.len());
        assert("invoice"@.len() != "amount"@.len());
        assert("invoice"@.len() != "e"@.len());
    }
    let h1 = head + optional_row("type"@, operation_type);
    lemma_history_skips_row(head, "type"@, operation_type);
    let h2 = h1 + optional_row("invoice"@, invoice);
    lemma_history_skips_row(h1, "invoice"@, invoice);
    lemma_fields_of_ref_rows(h2, created, true);
    assert(Seq::<Seq<char>>::empty() + created =~= created);
    lemma_fields_of_ref_rows(h2 + ref_rows(created, "created"@), destroyed, false);
    assert(Seq::<Seq<char>>::empty() + destroyed =~= destroyed);
}

/// A power-of-two split needs no proof only for a zero amount, and never
/// more than 64 proofs.
pub proof fn law_proof_count_zero_only_for_zero(amount: u64)
    ensures
        popcount(amount as nat) == 0 <==> amount == 0,
        popcount(amount as nat) <= 64,
    decreases amount,
{
    vstd::arithmetic::power2::lemma2_to64();
    crate::denomination::lemma_popcount_bound(amount as nat, 64);
    if amount != 0 {
        assert(popcount(amount as nat) == (amount as nat) % 2 + popcount((amount as nat) / 2));
        if amount % 2 == 0 {
            law_proof_count_zero_only_for_zero(amount / 2);
        }
    }
}

/// Doubling an amount (a shift left by one) needs as many proofs.
pub proof fn law_proof_count_shift(amount: u64)
    requires
        amount < 0x8000_0000_0000_0000,
    ensures
        popcount((amount << 1u64) as nat) == popcount(amount as nat),
{
    assert(amount << 1u64 == 2 * amount) by (bit_vector)
        requires
            amount < 0x8000_0000_0000_0000u64,
    ;
    let d = (2 * amount) as nat;
    if amount > 0 {
        assert(d % 2 == 0);
        assert(d / 2 == amount as nat);
        assert(popcount(d) == d % 2 + popcount(d / 2));
    }
}

/// Amounts with no common bit need, together, the proofs of both.
pub proof fn law_proof_count_disjoint_bits(a: u64, b: u64)
    requires
        a & b == 0,
    ensures
        popcount((a | b) as nat) == popcount(a as nat) + popcount(b as nat),
    decreases a as int + b as int,
{
    if a == 0 && b == 0 {
        assert(a | b == 0) by (bit_vector)
            requires
                a == 0 && b == 0,
        ;
    } else {
        assert((a | b) % 2 == a % 2 + b % 2) by (bit_vector)
            requires
                a & b == 0,
        ;
        assert((a | b) / 2 == (a / 2) | (b / 2)) by (bit_vector);
        assert((a / 2) & (b / 2) == 0) by (bit_vector)
            requires
                a & b == 0,
        ;
        assert(a | b != 0) by (bit_vector)
            requires
                !(a == 0 && b == 0),
        ;
        law_proof_count_disjoint_bits(a / 2, b / 2);
        assert(popcount((a | b) as nat) == ((a | b) as nat) % 2 + popcount(((a | b) as nat) / 2));
        if a != 0 {
            assert(popcount(a as nat) == (a as nat) % 2 + popcount((a as nat) / 2));
        }
        if b != 0 {
            assert(popcount(b as nat) == (b as nat) % 2 + popcount((b as nat) / 2));
        }
    }
}

/// The small proofs of two lists are those of each, in order.
proof fn lemma_small_concat(a: Seq<ProofData>, b: Seq<ProofData>, t: u64)
    ensures
        small_proofs(a + b, t) == small_proofs(a, t) + small_proofs(b, t),
    decreases b.len(),
{
    if b.len() == 0 {
        assert(a + b =~= a);
        assert(small_proofs(a, t) + small_proofs(b, t) =~= small_proofs(a, t));
    } else {
        lemma_small_concat(a, b.drop_last(), t);
        assert((a + b).drop_last() =~= a + b.drop_last());
        assert((a + b).last() == b.last());
        if b.last().amount <= t {
            assert(small_proofs(a, t) + small_proofs(b, t) =~= (small_proofs(a, t) + small_proofs(b.drop_last(), t)).push(
                b.last(),
            ));
        }
    }
}

/// The proofs at most `t1` among those at most `t2` (with `t1 <= t2`) are
/// the proofs at most `t1`.
proof fn lemma_small_twice(ps: Seq<ProofData>, t1: u64, t2: u64)
    requires
        t1 <= t2,
    ensures
        small_proofs(small_proofs(ps, t2), t1) == small_proofs(ps, t1),
    decreases ps.len(),
{
    if ps.len() > 0 {
        lemma_small_twice(ps.drop_last(), t1, t2);
        let r = small_proofs(ps.drop_last(), t2);
        if ps.last().amount <= t2 {
            assert(r.push(ps.last()).drop_last() =~= r);
        }
    }
}

/// Raising the dust threshold only adds dust: the dust at a threshold is
/// the dust at any higher threshold with the proofs above the lower one
/// left out, in the same order (so it is a subsequence of it).
pub proof fn law_dust_grows_with_threshold(tokens: Seq<TokenData>, mint: Seq<char>, t1: u64, t2: u64)
    requires
        t1 <= t2,
    ensures
        dust_of(tokens, mint, t1) == small_proofs(dust_of(tokens, mint, t2), t1),
    decreases tokens.len(),
{
    if tokens.len() > 0 {
        law_dust_grows_with_threshold(tokens.drop_last(), mint, t1, t2);
        if same_mint(tokens.last().mint@, mint) {
            let r2 = dust_of(tokens.drop_last(), mint, t2);
            lemma_small_concat(r2, small_proofs(tokens.last().proofs@, t2), t1);
            lemma_small_twice(tokens.last().proofs@, t1, t2);
        }
    }
}

/// Each mint of the tokens is listed once.
proof fn lemma_distinct_mints(tokens: Seq<TokenData>)
    ensures
        distinct_mints(tokens).no_duplicates(),
    decreases tokens.len(),
{
    if tokens.len() > 0 {
        lemma_distinct_mints(tokens.drop_last());
        let d = distinct_mints(tokens.drop_last());
        if !d.contains(tokens.last().mint@) {
            assert forall|i: int, j: int| 0 <= i < j < d.push(tokens.last().mint@).len() implies d.push(
                tokens.last().mint@,
            )[i] != d.push(tokens.last().mint@)[j] by {
                if j == d.len() {
                    assert(d.contains(d[i]));
                }
            }
        }
    }
}

/// The entries of mints with dust name distinct mints among `mints`, each
/// with a positive count.
proof fn lemma_stats_entries(mints: Seq<Seq<char>>, tokens: Seq<TokenData>, threshold: u64)
    requires
        mints.no_duplicates(),
    ensures
        forall|i: int| 0 <= i < stats_entries(mints, tokens, threshold).len() ==> (#[trigger] stats_entries(
            mints,
            tokens,
            threshold,
        )[i]).1.count > 0 && mints.contains(stats_entries(mints, tokens, threshold)[i].0),
        forall|i: int, j: int|
            0 <= i < j < stats_entries(mints, tokens, threshold).len() ==> (#[trigger] stats_entries(
                mints,
                tokens,
                threshold,
            )[i]).0 != (#[trigger] stats_entries(mints, tokens, threshold)[j]).0,
    decreases mints.len(),
{
    if mints.len() > 0 {
        let m0 = mints.drop_last();
        assert(m0.no_duplicates());
        lemma_stats_entries(m0, tokens, threshold);
        let e0 = stats_entries(m0, tokens, threshold);
        let e = stats_entries(mints, tokens, threshold);
        assert forall|i: int| 0 <= i < e.len() implies (#[trigger] e[i]).1.count > 0 && mints.contains(e[i].0) by {
            if i < e0.len() {
                assert(e[i] == e0[i]);
                let k = choose|k: int| 0 <= k < m0.len() && m0[k] == e0[i].0;
                assert(mints[k] == m0[k]);
            } else {
                assert(mints[mints.len() - 1] == mints.last());
            }
        }
        assert forall|i: int, j: int| 0 <= i < j < e.len() implies (#[trigger] e[i]).0 != (#[trigger] e[j]).0 by {
            if j < e0.len() {
                assert(e[i] == e0[i]);
                assert(e[j] == e0[j]);
            } else {
                assert(e[i] == e0[i]);
                let k = choose|k: int| 0 <= k < m0.len() && m0[k] == e0[i].0;
                assert(mints[k] == m0[k]);
                assert(e[j].0 == mints[mints.len() - 1]);
            }
        }
    }
}

/// The dust table lists each mint of the tokens at most once, each with a
/// positive count of dust proofs.
pub proof fn law_dust_table_distinct_positive(tokens: Seq<TokenData>, threshold: u64)
    ensures
        forall|i: int| 0 <= i < stats_entries(distinct_mints(tokens), tokens, threshold).len() ==> (
        #[trigger] stats_entries(distinct_mints(tokens), tokens, threshold)[i]).1.count > 0,
        forall|i: int, j: int|
            0 <= i < j < stats_entries(distinct_mints(tokens), tokens, threshold).len() ==> (
            #[trigger] stats_entries(distinct_mints(tokens), tokens, threshold)[i]).0 != (
            #[trigger] stats_entries(distinct_mints(tokens), tokens, threshold)[j]).0,
{
    lemma_distinct_mints(tokens);
    lemma_stats_entries(distinct_mints(tokens), tokens, threshold);
}

/// The distinct mints are exactly the tokens' mints.
proof fn lemma_distinct_mints_cover(tokens: Seq<TokenData>)
    ensures
        forall|k: int| 0 <= k < tokens.len() ==> distinct_mints(tokens).contains(#[trigger] tokens[k].mint@),
        forall|i: int| 0 <= i < distinct_mints(tokens).len() ==> exists|k: int|
            0 <= k < tokens.len() && #[trigger] distinct_mints(tokens)[i] == tokens[k].mint@,
    decreases tokens.len(),
{
    if tokens.len() > 0 {
        let p = tokens.drop_last();
        lemma_distinct_mints_cover(p);
        let d = distinct_mints(p);
        let last = tokens.last().mint@;
        assert forall|k: int| 0 <= k < tokens.len() implies distinct_mints(tokens).contains(#[trigger] tokens[k].mint@) by {
            if k < tokens.len() - 1 {
                assert(p[k] == tokens[k]);
                let j = choose|j: int| 0 <= j < d.len() && d[j] == p[k].mint@;
                if !d.contains(last) {
                    assert(d.push(last)[j] == d[j]);
                }
            } else if !d.contains(last) {
                assert(d.push(last)[d.len() as int] == last);
            }
        }
        assert forall|i: int| 0 <= i < distinct_mints(tokens).len() implies exists|k: int|
            0 <= k < tokens.len() && #[trigger] distinct_mints(tokens)[i] == tokens[k].mint@ by {
            if i < d.len() {
                assert(distinct_mints(tokens)[i] == d[i]);
                let k = choose|k: int| 0 <= k < p.len() && d[i] == p[k].mint@;
                assert(tokens[k] == p[k]);
            } else {
                assert(distinct_mints(tokens)[i] == tokens[tokens.len() - 1].mint@);
            }
        }
    }
}

/// Every listed mint with dust has an entry, and each entry holds its
/// mint's statistics.
proof fn lemma_stats_entries_complete(mints: Seq<Seq<char>>, tokens: Seq<TokenData>, threshold: u64)
    ensures
        forall|j: int| 0 <= j < mints.len() && (#[trigger] dust_stats_of(tokens, mints[j], threshold)).count > 0 ==> exists|i: int|
            0 <= i < stats_entries(mints, tokens, threshold).len() && (#[trigger] stats_entries(mints, tokens, threshold)[i]).0
                == mints[j],
        forall|i: int| 0 <= i < stats_entries(mints, tokens, threshold).len() ==> (#[trigger] stats_entries(
            mints,
            tokens,
            threshold,
        )[i]).1 == dust_stats_of(tokens, stats_entries(mints, tokens, threshold)[i].0, threshold),
    decreases mints.len(),
{
    if mints.len() > 0 {
        let p = mints.drop_last();
        lemma_stats_entries_complete(p, tokens, threshold);
        let rest = stats_entries(p, tokens, threshold);
        let e = stats_entries(mints, tokens, threshold);
        assert forall|j: int| 0 <= j < mints.len() && (#[trigger] dust_stats_of(tokens, mints[j], threshold)).count > 0 implies exists|i: int|
            0 <= i < e.len() && (#[trigger] e[i]).0 == mints[j] by {
            if j < mints.len() - 1 {
                assert(p[j] == mints[j]);
                assert(dust_stats_of(tokens, p[j], threshold).count > 0);
                let i = choose|i: int| 0 <= i < rest.len() && (#[trigger] rest[i]).0 == p[j];
                assert(e[i] == rest[i]);
            } else {
                assert(e[rest.len() as int].0 == mints[j]);
            }
        }
        assert forall|i: int| 0 <= i < e.len() implies (#[trigger] e[i]).1 == dust_stats_of(tokens, e[i].0, threshold) by {
            if i < rest.len() {
                assert(e[i] == rest[i]);
            }
        }
    }
}

/// The dust table is keyed by exactly the tokens' mints that have dust:
/// each mint of the tokens with dust has an entry, every entry's key is a
/// token's mint, and each entry holds that mint's dust statistics.
pub proof fn law_dust_table_keys(tokens: Seq<TokenData>, threshold: u64)
    ensures
        ({
            let e = stats_entries(distinct_mints(tokens), tokens, threshold);
            &&& forall|k: int| 0 <= k < tokens.len() && (#[trigger] dust_stats_of(tokens, tokens[k].mint@, threshold)).count
                > 0 ==> exists|i: int| 0 <= i < e.len() && (#[trigger] e[i]).0 == tokens[k].mint@
            &&& forall|i: int| 0 <= i < e.len() ==> (exists|k: int| 0 <= k < tokens.len() && (#[trigger] e[i]).0
                == tokens[k].mint@) && e[i].1 == dust_stats_of(tokens, e[i].0, threshold) && e[i].1.count > 0
        }),
{
    let d = distinct_mints(tokens);
    let e = stats_entries(d, tokens, threshold);
    lemma_distinct_mints(tokens);
    lemma_distinct_mints_cover(tokens);
    lemma_stats_entries(d, tokens, threshold);
    lemma_stats_entries_complete(d, tokens, threshold);
    assert forall|k: int| 0 <= k < tokens.len() && (#[trigger] dust_stats_of(tokens, tokens[k].mint@, threshold)).count > 0 implies exists|i: int|
        0 <= i < e.len() && (#[trigger] e[i]).0 == tokens[k].mint@ by {
        let j = choose|j: int| 0 <= j < d.len() && d[j] == tokens[k].mint@;
        assert(dust_stats_of(tokens, d[j], threshold).count > 0);
    }
    assert forall|i: int| 0 <= i < e.len() implies (exists|k: int| 0 <= k < tokens.len() && (#[trigger] e[i]).0
        == tokens[k].mint@) && e[i].1 == dust_stats_of(tokens, e[i].0, threshold) && e[i].1.count > 0 by {
        assert(d.contains(e[i].0));
        let j = choose|j: int| 0 <= j < d.len() && d[j] == e[i].0;
        assert(exists|k: int| 0 <= k < tokens.len() && #[trigger] d[j] == tokens[k].mint@);
    }
}

/// The fee of proofs all at one rate, each rounded up alone, is the count
/// times the per-proof fee (saturating).
proof fn lemma_uniform_fee(ks: Seq<CachedKeyset>, ps: Seq<ProofData>, f: u64)
    requires
        forall|i: int| 0 <= i < ps.len() ==> fee_ppk_of(ks, #[trigger] ps[i].id@) == Some(f),
    ensures
        proofs_fee(ks, ps) == sat_u64(ps.len() * (sat_u64(f + 999) / 1000)),
    decreases ps.len(),
{
    let c = sat_u64(f + 999) / 1000;
    if ps.len() == 0 {
    } else {
        let n = ps.len();
        lemma_uniform_fee(ks, ps.drop_last(), f);
        assert(fee_ppk_of(ks, ps[n - 1].id@) == Some(f));
        assert((n - 1) * c + c == n * c) by (nonlinear_arith);
        assert((n - 1) * c >= 0) by (nonlinear_arith)
            requires
                n >= 1,
                c >= 0,
        ;
    }
}

/// Rounding the fee up proof by proof costs at least as much as rounding
/// the total once: with every proof at the same rate, the fee of the
/// proofs is at least the fee for that many proofs at that rate.
pub proof fn law_per_proof_fee_at_least_total(ks: Seq<CachedKeyset>, ps: Seq<ProofData>, f: u64)
    requires
        forall|i: int| 0 <= i < ps.len() ==> fee_ppk_of(ks, #[trigger] ps[i].id@) == Some(f),
    ensures
        proofs_fee(ks, ps) >= proof_fee(ps.len(), f as nat),
{
    lemma_uniform_fee(ks, ps, f);
    let n = ps.len();
    let c = sat_u64(f + 999) / 1000;
    let base = sat_u64((n * f) as int);
    let pf = sat_u64(base + 999) / 1000;
    assert(pf <= sat_u64(base + 999));
    if n * c >= u64::MAX {
    } else if n == 0 {
        assert(n * f == 0);
        assert(pf == 0);
    } else if f + 999 <= u64::MAX {
        assert(1000 * c + 999 >= f + 999);
        assert(1000 * (n * c) >= n * f) by (nonlinear_arith)
            requires
                1000 * c >= f,
                n >= 0,
        ;
        assert(base <= n * f) by (nonlinear_arith)
            requires
                base == sat_u64((n * f) as int),
                n * f >= 0,
        ;
        assert((base + 999) / 1000 <= n * c) by (nonlinear_arith)
            requires
                base <= 1000 * (n * c),
                base >= 0,
        ;
    } else {
        assert(c == u64::MAX as int / 1000);
        assert(pf <= u64::MAX as int / 1000);
        assert(n * c >= c) by (nonlinear_arith)
            requires
                n >= 1,
                c >= 0,
        ;
    }
}

/// The batches of a run of `next_batch` calls from a position are the
/// chunks of what is left from there.
proof fn lemma_run_is_chunks(items: Seq<ProofData>, size: nat, pos: nat)
    requires
        size > 0,
        pos <= items.len(),
    ensures
        run_batches(items, size, pos) == chunks(items.skip(pos as int), size),
    decreases items.len() - pos,
{
    let rest = items.skip(pos as int);
    if pos < items.len() {
        let end = batch_end(pos, size, items.len());
        if rest.len() <= size {
            assert(rest =~= items.subrange(pos as int, end as int));
            assert(run_batches(items, size, end) =~= Seq::<Seq<ProofData>>::empty());
            assert(run_batches(items, size, pos) =~= seq![rest]);
        } else {
            assert(rest.take(size as int) =~= items.subrange(pos as int, end as int));
            assert(rest.skip(size as int) =~= items.skip(end as int));
            lemma_run_is_chunks(items, size, end);
        }
    } else {
        assert(rest.len() == 0);
    }
}

/// Paginating hands out everything: from the start (a new paginator, or
/// one just reset), calling `next_batch` until it gives none hands out
/// the chunks of the list; there are `(len + size - 1) / size` of them,
/// each non-empty and at most `size` long, together the whole list; and
/// no chunk is left exactly when the position has reached the end (when
/// `next_batch` gives none).
pub proof fn law_paginator_yields_all(items: Seq<ProofData>, size: nat, pos: nat)
    requires
        size > 0,
        pos <= items.len(),
    ensures
        run_batches(items, size, 0) == chunks(items.skip(0), size),
        run_batches(items, size, pos) == chunks(items.skip(pos as int), size),
        flatten(run_batches(items, size, 0)) == items,
        run_batches(items, size, 0).len() == (items.len() + size - 1) / (size as int),
        forall|i: int| 0 <= i < run_batches(items, size, 0).len() ==> 0 < #[trigger] run_batches(items, size, 0)[i].len()
            <= size,
        flatten(chunks(items.skip(0), size)) == items,
        chunks(items.skip(0), size).len() == (items.len() + size - 1) / (size as int),
        forall|i: int| 0 <= i < chunks(items.skip(0), size).len() ==> 0 < #[trigger] chunks(items.skip(0), size)[i].len() <= size,
        chunks(items.skip(pos as int), size).len() == 0 <==> pos >= items.len(),
{
    lemma_run_is_chunks(items, size, 0);
    lemma_run_is_chunks(items, size, pos);
    assert(items.skip(0) =~= items);
    lemma_chunks_partition(items, size);
    if pos < items.len() {
        assert(items.skip(pos as int).len() > 0);
    } else {
        assert(items.skip(pos as int).len() == 0);
    }
}

/// The saturating sum of proof amounts is their sum when that fits.
proof fn lemma_sat_sum_exact(ps: Seq<ProofData>)
    requires
        amount_sum(ps) <= u64::MAX,
    ensures
        sat_sum(ps) == amount_sum(ps),
    decreases ps.len(),
{
    if ps.len() > 0 {
        crate::keyset::lemma_amount_sum_prefix(ps, ps.len() - 1);
        assert(ps.take(ps.len() - 1) =~= ps.drop_last());
        lemma_sat_sum_exact(ps.drop_last());
    }
}

/// Dust statistics of a mint describe its dust proofs: as many as there
/// are, worth their sum (when it fits in 64 bits), with an estimated
/// consolidation fee of one sat per proof; consolidation is recommended
/// exactly when there are at least `MIN_DUST_COUNT` dust proofs, worth
/// more than the fee and no more than `MAX_DUST_TOTAL`, so a recommended
/// consolidation never costs all the dust is worth.
pub proof fn law_dust_stats_recommend_worthwhile(tokens: Seq<TokenData>, mint: Seq<char>, threshold: u64)
    requires
        dust_of(tokens, normalized_mint(mint), threshold).len() <= usize::MAX,
    ensures
        ({
            let d = dust_of(tokens, normalized_mint(mint), threshold);
            let st = dust_stats_of(tokens, mint, threshold);
            &&& st.count == d.len()
            &&& st.estimated_fee == st.count
            &&& amount_sum(d) <= u64::MAX ==> st.total_value == amount_sum(d)
            &&& st.should_consolidate <==> (st.count >= MIN_DUST_COUNT && st.total_value > st.estimated_fee
                && st.total_value <= MAX_DUST_TOTAL)
            &&& st.should_consolidate ==> st.total_value > st.estimated_fee
        }),
{
    let d = dust_of(tokens, normalized_mint(mint), threshold);
    if amount_sum(d) <= u64::MAX {
        lemma_sat_sum_exact(d);
    }
}

/// The dust statistics over all mints recommend consolidating only when
/// the dust is worth more than the fee: at least `MIN_DUST_COUNT` proofs,
/// worth more than their estimated fee and no more than `MAX_DUST_TOTAL`.
pub proof fn law_total_dust_recommend_worthwhile(tokens: Seq<TokenData>)
    ensures
        ({
            let st = total_stats_of(summed(stats_entries(distinct_mints(tokens), tokens, DEFAULT_DUST_THRESHOLD)));
            st.should_consolidate <==> (st.count >= MIN_DUST_COUNT && st.total_value > st.estimated_fee
                && st.total_value <= MAX_DUST_TOTAL)
        }),
{
}

/// Witness sizes: a standard proof carries no witness, every locked one
/// does; a single signature takes `P2PK_WITNESS_OVERHEAD` (128) bytes, an
/// HTLC `HTLC_WITNESS_OVERHEAD` (160), an HTLC with P2PK both, and a
/// multisig one `MULTISIG_SIGNATURE_OVERHEAD` (64) more per required
/// signature beyond the first.
pub proof fn law_witness_sizes(c: P2pkComplexity)
    ensures
        witness_size_of(P2pkComplexity::Standard) == 0,
        !(c is Standard) ==> witness_size_of(c) > 0,
        witness_size_of(P2pkComplexity::SingleSig) == P2PK_WITNESS_OVERHEAD,
        P2PK_WITNESS_OVERHEAD == 128,
        witness_size_of(P2pkComplexity::Htlc) == HTLC_WITNESS_OVERHEAD,
        HTLC_WITNESS_OVERHEAD == 160,
        witness_size_of(P2pkComplexity::HtlcP2pk) == HTLC_WITNESS_OVERHEAD + P2PK_WITNESS_OVERHEAD,
        c matches P2pkComplexity::MultiSig { required, .. } ==> witness_size_of(c) == P2PK_WITNESS_OVERHEAD
            + (if required >= 1 { required - 1 } else { 0 }) * MULTISIG_SIGNATURE_OVERHEAD,
        MULTISIG_SIGNATURE_OVERHEAD == 64,
{
}

/// A locked send pays a witness fee of at least one sat per proof, and an
/// HTLC one two sats per proof (160 bytes, one sat per started 100).
pub proof fn law_locked_send_pays_witness(c: P2pkComplexity, proof_count: nat)
    requires
        !(c is Standard),
    ensures
        witness_size_of(c) > 0,
        witness_fee_per_proof(witness_size_of(c)) * proof_count >= proof_count,
        witness_fee_per_proof(witness_size_of(P2pkComplexity::Htlc)) == 2,
{
    assert(witness_fee_per_proof(witness_size_of(c)) >= 1);
    assert(witness_fee_per_proof(witness_size_of(c)) * proof_count >= proof_count) by (nonlinear_arith)
        requires
            witness_fee_per_proof(witness_size_of(c)) >= 1,
    ;
}

/// Where the pair of proof `j` of token `k` stands among the pairs.
proof fn lemma_pair_of(tokens: Seq<TokenData>, k: int, j: int) -> (i: int)
    requires
        0 <= k < tokens.len(),
        0 <= j < tokens[k].proofs@.len(),
    ensures
        0 <= i < token_pairs(tokens).len(),
        token_pairs(tokens)[i] == (tokens[k].mint, tokens[k].proofs@[j]),
    decreases tokens.len(),
{
    let p = tokens.drop_last();
    let t = tokens.last();
    let a = token_pairs(p);
    let b = t.proofs@.map_values(|q: ProofData| (t.mint, q));
    assert(token_pairs(tokens) == a + b);
    if k < tokens.len() - 1 {
        assert(p[k] == tokens[k]);
        let i = lemma_pair_of(p, k, j);
        assert((a + b)[i] == a[i]);
        i
    } else {
        assert((a + b)[a.len() + j] == b[j]);
        a.len() + j
    }
}

/// The token and proof that pair `i` comes from.
proof fn lemma_pair_source(tokens: Seq<TokenData>, i: int) -> (kj: (int, int))
    requires
        0 <= i < token_pairs(tokens).len(),
    ensures
        0 <= kj.0 < tokens.len(),
        0 <= kj.1 < tokens[kj.0].proofs@.len(),
        token_pairs(tokens)[i] == (tokens[kj.0].mint, tokens[kj.0].proofs@[kj.1]),
    decreases tokens.len(),
{
    let p = tokens.drop_last();
    let t = tokens.last();
    let a = token_pairs(p);
    let b = t.proofs@.map_values(|q: ProofData| (t.mint, q));
    assert(token_pairs(tokens) == a + b);
    if i < a.len() {
        assert((a + b)[i] == a[i]);
        let (k, j) = lemma_pair_source(p, i);
        assert(p[k] == tokens[k]);
        (k, j)
    } else {
        let j = i - a.len();
        assert((a + b)[i] == b[j]);
        (tokens.len() - 1, j)
    }
}

/// The stuck pairs are exactly the pairs whose proof is stuck.
proof fn lemma_stuck_pairs(pairs: Seq<(String, ProofData)>, now: u64, timeout: u64)
    ensures
        forall|i: int| 0 <= i < pairs.len() && is_stuck(#[trigger] pairs[i].1, now, timeout) ==> exists|m: int|
            0 <= m < stuck_pairs(pairs, now, timeout).len() && #[trigger] stuck_pairs(pairs, now, timeout)[m] == pairs[i],
        forall|m: int| 0 <= m < stuck_pairs(pairs, now, timeout).len() ==> is_stuck(
            (#[trigger] stuck_pairs(pairs, now, timeout)[m]).1,
            now,
            timeout,
        ) && pairs.contains(stuck_pairs(pairs, now, timeout)[m]),
    decreases pairs.len(),
{
    if pairs.len() > 0 {
        let p = pairs.drop_last();
        lemma_stuck_pairs(p, now, timeout);
        let rest = stuck_pairs(p, now, timeout);
        let sp = stuck_pairs(pairs, now, timeout);
        assert forall|i: int| 0 <= i < pairs.len() && is_stuck(#[trigger] pairs[i].1, now, timeout) implies exists|m: int|
            0 <= m < sp.len() && #[trigger] sp[m] == pairs[i] by {
            if i < pairs.len() - 1 {
                assert(p[i] == pairs[i]);
                let m = choose|m: int| 0 <= m < rest.len() && #[trigger] rest[m] == p[i];
                assert(sp[m] == rest[m]);
            } else {
                assert(sp[rest.len() as int] == pairs[i]);
            }
        }
        assert forall|m: int| 0 <= m < sp.len() implies is_stuck((#[trigger] sp[m]).1, now, timeout) && pairs.contains(sp[m]) by {
            if m < rest.len() {
                assert(sp[m] == rest[m]);
                let i = choose|i: int| 0 <= i < p.len() && p[i] == rest[m];
                assert(pairs[i] == p[i]);
            } else {
                assert(pairs[pairs.len() - 1] == sp[m]);
            }
        }
    }
}

/// Stuck-proof detection reports exactly the proofs held in a transient
/// state (reserved, or pending as spent) whose state was recorded more
/// than `timeout` seconds before `now`: each such proof of each token is
/// reported, with its secret, state and time and its token's mint, and
/// every report is of such a proof.
pub proof fn law_stuck_proofs_reported(tokens: Seq<TokenData>, now: u64, timeout: u64)
    ensures
        ({
            let r = stuck_pairs(token_pairs(tokens), now, timeout).map_values(|p: (String, ProofData)| tracked_of(p));
            &&& forall|k: int, j: int|
                0 <= k < tokens.len() && 0 <= j < tokens[k].proofs@.len() && (#[trigger] tokens[k].proofs@[j].state is Reserved
                    || tokens[k].proofs@[j].state is PendingSpent) && tokens[k].proofs@[j].state_set_at is Some
                    && now > tokens[k].proofs@[j].state_set_at->0 && now - tokens[k].proofs@[j].state_set_at->0 > timeout ==> exists|m: int|
                    0 <= m < r.len() && (#[trigger] r[m]).secret == tokens[k].proofs@[j].secret && r[m].state
                        == tokens[k].proofs@[j].state && r[m].state_set_at == tokens[k].proofs@[j].state_set_at->0 && r[m].mint_url == tokens[k].mint
            &&& forall|m: int| 0 <= m < r.len() ==> ((#[trigger] r[m]).state is Reserved || r[m].state is PendingSpent)
                && now > r[m].state_set_at && now - r[m].state_set_at > timeout && exists|k: int, j: int|
                0 <= k < tokens.len() && 0 <= j < tokens[k].proofs@.len() && tokens[k].proofs@[j].secret == r[m].secret
                    && tokens[k].mint == r[m].mint_url
        }),
{
    let pairs = token_pairs(tokens);
    let sp = stuck_pairs(pairs, now, timeout);
    let r = sp.map_values(|p: (String, ProofData)| tracked_of(p));
    lemma_stuck_pairs(pairs, now, timeout);
    assert forall|k: int, j: int|
        0 <= k < tokens.len() && 0 <= j < tokens[k].proofs@.len() && (#[trigger] tokens[k].proofs@[j].state is Reserved
            || tokens[k].proofs@[j].state is PendingSpent) && tokens[k].proofs@[j].state_set_at is Some
            && now > tokens[k].proofs@[j].state_set_at->0 && now - tokens[k].proofs@[j].state_set_at->0 > timeout implies exists|m: int|
            0 <= m < r.len() && (#[trigger] r[m]).secret == tokens[k].proofs@[j].secret && r[m].state
                == tokens[k].proofs@[j].state && r[m].state_set_at == tokens[k].proofs@[j].state_set_at->0 && r[m].mint_url == tokens[k].mint by {
        let i = lemma_pair_of(tokens, k, j);
        assert(is_stuck(pairs[i].1, now, timeout));
        let m = choose|m: int| 0 <= m < sp.len() && #[trigger] sp[m] == pairs[i];
        assert(r[m] == tracked_of(sp[m]));
    }
    assert forall|m: int| 0 <= m < r.len() implies ((#[trigger] r[m]).state is Reserved || r[m].state is PendingSpent)
        && now > r[m].state_set_at && now - r[m].state_set_at > timeout && exists|k: int, j: int|
        0 <= k < tokens.len() && 0 <= j < tokens[k].proofs@.len() && tokens[k].proofs@[j].secret == r[m].secret
            && tokens[k].mint == r[m].mint_url by {
        assert(r[m] == tracked_of(sp[m]));
        assert(is_stuck(sp[m].1, now, timeout));
        let i = choose|i: int| 0 <= i < pairs.len() && pairs[i] == sp[m];
        let (k, j) = lemma_pair_source(tokens, i);
        assert(tokens[k].proofs@[j].secret == r[m].secret && tokens[k].mint == r[m].mint_url);
    }
}

/// The spendable proofs are unspent proofs of the list.
proof fn lemma_spendable_members(ps: Seq<ProofData>)
    ensures
        forall|i: int| 0 <= i < spendable(ps).len() ==> (#[trigger] spendable(ps)[i]).state is Unspent && ps.contains(
            spendable(ps)[i],
        ),
    decreases ps.len(),
{
    if ps.len() > 0 {
        let p = ps.drop_last();
        lemma_spendable_members(p);
        let rest = spendable(p);
        assert forall|i: int| 0 <= i < spendable(ps).len() implies (#[trigger] spendable(ps)[i]).state is Unspent
            && ps.contains(spendable(ps)[i]) by {
            if i < rest.len() {
                assert(spendable(ps)[i] == rest[i]);
                let k = choose|k: int| 0 <= k < p.len() && p[k] == rest[i];
                assert(ps[k] == p[k]);
            } else {
                assert(spendable(ps)[i] == ps[ps.len() - 1]);
            }
        }
    }
}

/// The spendable proofs of keysets of one activity are unspent proofs of
/// the list in keysets of that activity.
proof fn lemma_activity_members(ps: Seq<ProofData>, active: Seq<Seq<char>>, want: bool)
    ensures
        forall|i: int| 0 <= i < spendable_by_activity(ps, active, want).len() ==> {
            let q = #[trigger] spendable_by_activity(ps, active, want)[i];
            &&& q.state is Unspent
            &&& ps.contains(q)
            &&& active.contains(q.id@) == want
        },
    decreases ps.len(),
{
    if ps.len() > 0 {
        let p = ps.drop_last();
        lemma_activity_members(p, active, want);
        let rest = spendable_by_activity(p, active, want);
        let s2 = spendable_by_activity(ps, active, want);
        assert forall|i: int| 0 <= i < s2.len() implies {
            let q = #[trigger] s2[i];
            &&& q.state is Unspent
            &&& ps.contains(q)
            &&& active.contains(q.id@) == want
        } by {
            if i < rest.len() {
                assert(s2[i] == rest[i]);
                let k = choose|k: int| 0 <= k < p.len() && p[k] == rest[i];
                assert(ps[k] == p[k]);
            } else {
                assert(s2[i] == ps[ps.len() - 1]);
            }
        }
    }
}

/// Sorting by amount keeps the proofs it is given.
proof fn lemma_sorted_members(s: Seq<ProofData>)
    ensures
        forall|i: int| 0 <= i < sort_desc_by(s, amount_key()).len() ==> s.contains(
            #[trigger] sort_desc_by(s, amount_key())[i],
        ),
{
    broadcast use vstd::seq_lib::group_to_multiset_ensures;
    lemma_sort_desc_by(s, amount_key());
    let t = sort_desc_by(s, amount_key());
    assert forall|i: int| 0 <= i < t.len() implies s.contains(#[trigger] t[i]) by {
        assert(t.contains(t[i]));
        assert(t.to_multiset().count(t[i]) > 0);
    }
}

/// Selection up to an amount takes at most all the proofs.
proof fn lemma_take_until_bound(s: Seq<ProofData>, target: u64, i: nat)
    ensures
        take_until(s, target, i) <= s.len(),
    decreases s.len() - i,
{
    if i < s.len() && amount_sum(s.take(i as int)) < target {
        lemma_take_until_bound(s, target, i + 1);
    }
}

/// Inactive-first selection spends only unspent proofs that the wallet
/// holds, and it spends every proof of an inactive keyset it takes before
/// any proof of an active one.
pub proof fn law_inactive_first_selection(ps: Seq<ProofData>, active: Seq<Seq<char>>, target_amount: u64)
    ensures
        ({
            let c = inactive_first(ps, active);
            let sel = c.take(take_until(c, target_amount, 0) as int);
            &&& forall|k: int| 0 <= k < sel.len() ==> (#[trigger] sel[k]).state is Unspent && ps.contains(sel[k])
            &&& forall|k1: int, k2: int| 0 <= k1 < k2 < c.len() && active.contains((#[trigger] c[k1]).id@) ==> active.contains(
                (#[trigger] c[k2]).id@,
            )
        }),
{
    let i0 = spendable_by_activity(ps, active, false);
    let i1 = spendable_by_activity(ps, active, true);
    let a = sort_desc_by(i0, amount_key());
    let b = sort_desc_by(i1, amount_key());
    let c = inactive_first(ps, active);
    assert(c == a + b);
    lemma_activity_members(ps, active, false);
    lemma_activity_members(ps, active, true);
    lemma_sorted_members(i0);
    lemma_sorted_members(i1);
    lemma_sort_desc_by(i0, amount_key());
    lemma_sort_desc_by(i1, amount_key());
    assert forall|k: int| 0 <= k < c.len() implies (#[trigger] c[k]).state is Unspent && ps.contains(c[k]) && active.contains(
        c[k].id@,
    ) == (k >= a.len()) by {
        if k < a.len() {
            assert(c[k] == a[k]);
            let m = choose|m: int| 0 <= m < i0.len() && i0[m] == a[k];
        } else {
            assert(c[k] == b[k - a.len()]);
            let m = choose|m: int| 0 <= m < i1.len() && i1[m] == b[k - a.len()];
        }
    }
    lemma_take_until_bound(c, target_amount, 0);
    let sel = c.take(take_until(c, target_amount, 0) as int);
    assert forall|k: int| 0 <= k < sel.len() implies (#[trigger] sel[k]).state is Unspent && ps.contains(sel[k]) by {
        assert(sel[k] == c[k]);
    }
}

/// Amount-targeted selection spends only unspent proofs that the wallet
/// holds: the exact match and every proof of the greedy selection.
pub proof fn law_selection_takes_unspent_held(proofs: Seq<ProofData>, target_amount: u64, include_fee: bool, fee_ppk: u64)
    ensures
        ({
            let sorted = sort_desc_by(spendable(proofs), amount_key());
            let sel = sorted.take(greedy_count(sorted, target_amount, include_fee, fee_ppk, 0) as int);
            &&& first_exact(sorted, target_amount) matches Some(p) ==> p.state is Unspent && proofs.contains(p)
            &&& forall|k: int| 0 <= k < sel.len() ==> (#[trigger] sel[k]).state is Unspent && proofs.contains(sel[k])
        }),
{
    let sp = spendable(proofs);
    let sorted = sort_desc_by(sp, amount_key());
    lemma_spendable_members(proofs);
    lemma_sorted_members(sp);
    lemma_sort_desc_by(sp, amount_key());
    lemma_first_exact(sorted, target_amount);
    lemma_greedy_count_bound(sorted, target_amount, include_fee, fee_ppk, 0);
    if first_exact(sorted, target_amount) is Some {
        let p = first_exact(sorted, target_amount)->0;
        let k = choose|k: int| 0 <= k < sorted.len() && sorted[k] == p;
        let m = choose|m: int| 0 <= m < sp.len() && sp[m] == sorted[k];
    }
    let sel = sorted.take(greedy_count(sorted, target_amount, include_fee, fee_ppk, 0) as int);
    assert forall|k: int| 0 <= k < sel.len() implies (#[trigger] sel[k]).state is Unspent && proofs.contains(sel[k]) by {
        assert(sel[k] == sorted[k]);
        let m = choose|m: int| 0 <= m < sp.len() && sp[m] == sorted[k];
    }
}

} // verus!
