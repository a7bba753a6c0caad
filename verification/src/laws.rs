//! The routing laws: what the dispatch policies guarantee, proved once
//! over the registry model and usable by any caller.

use vstd::prelude::*;

use crate::registry::{
    f_keys_unique, hash_targets, id_matches, last_valid_upto, req_targets, target_of,
    FilteredPipe, PlainPipe,
};

verus! {

/// Every delivered key belongs to a valid, matching entry.
proof fn lemma_req_targets_members(es: Seq<FilteredPipe>, ids: Seq<Seq<u8>>)
    ensures
        forall|t: int|
            0 <= t < req_targets(es, ids).len() ==> exists|j: int|
                0 <= j < es.len() && (#[trigger] req_targets(es, ids)[t]) == es[j].key
                    && es[j].valid && id_matches(ids, es[j].filter.bytes@),
    decreases es.len(),
{
    if es.len() > 0 {
        let tail = es.skip(1);
        lemma_req_targets_members(tail, ids);
        let full = req_targets(es, ids);
        let head_len: int = if es[0].valid && id_matches(ids, es[0].filter.bytes@) {
            1
        } else {
            0
        };
        assert forall|t: int| 0 <= t < full.len() implies exists|j: int|
            0 <= j < es.len() && (#[trigger] full[t]) == es[j].key && es[j].valid && id_matches(
                ids,
                es[j].filter.bytes@,
            ) by {
            if t < head_len {
                assert(full[t] == es[0].key && es[0].valid && id_matches(
                    ids,
                    es[0].filter.bytes@,
                ));
            } else {
                let tt = t - head_len;
                assert(full[t] == req_targets(tail, ids)[tt]);
                let j0 = choose|j0: int|
                    0 <= j0 < tail.len() && req_targets(tail, ids)[tt] == tail[j0].key
                        && tail[j0].valid && id_matches(ids, tail[j0].filter.bytes@);
                assert(tail[j0] == es[j0 + 1]);
                assert(0 <= j0 + 1 < es.len() && full[t] == es[j0 + 1].key && es[j0 + 1].valid
                    && id_matches(ids, es[j0 + 1].filter.bytes@));
            }
        }
    }
}

/// Prefix fan-out: for an inbound packet with identifier list `ids`, the
/// entry at position `i` receives the packet exactly when it is valid and
/// some identifier begins with its filter.
pub proof fn lemma_prefix_fanout(es: Seq<FilteredPipe>, ids: Seq<Seq<u8>>, i: int)
    requires
        0 <= i < es.len(),
        f_keys_unique(es),
    ensures
        req_targets(es, ids).contains(es[i].key) <==> (es[i].valid && id_matches(
            ids,
            es[i].filter.bytes@,
        )),
    decreases es.len(),
{
    let full = req_targets(es, ids);
    let tail = es.skip(1);
    if es[i].valid && id_matches(ids, es[i].filter.bytes@) {
        if i == 0 {
            assert(full[0] == es[0].key);
            assert(full.contains(es[0].key));
        } else {
            assert(forall|a: int, b: int|
                0 <= a < b < tail.len() ==> (#[trigger] tail[a]).key != (#[trigger] tail[b]).key)
                by {
                assert(forall|a: int| 0 <= a < tail.len() ==> tail[a] == es[a + 1]);
            }
            lemma_prefix_fanout(tail, ids, i - 1);
            assert(tail[i - 1] == es[i]);
            let t = choose|t: int|
                0 <= t < req_targets(tail, ids).len() && req_targets(tail, ids)[t] == es[i].key;
            let head_len: int = if es[0].valid && id_matches(ids, es[0].filter.bytes@) {
                1
            } else {
                0
            };
            assert(full[t + head_len] == es[i].key);
            assert(full.contains(es[i].key));
        }
    }
    if full.contains(es[i].key) {
        lemma_req_targets_members(es, ids);
        let t = choose|t: int| 0 <= t < full.len() && full[t] == es[i].key;
        let j = choose|j: int|
            0 <= j < es.len() && full[t] == es[j].key && es[j].valid && id_matches(
                ids,
                es[j].filter.bytes@,
            );
        if j != i {
            if j < i {
                assert(es[j].key != es[i].key);
            } else {
                assert(es[i].key != es[j].key);
            }
        }
        assert(j == i);
    }
}

/// Backpressure isolation: a slow or vanished peer flips only its own
/// entry to invalid, and that changes no other entry's deliveries — the
/// packet still reaches every other matching valid handle.
pub proof fn lemma_dispatch_isolation(
    es: Seq<FilteredPipe>,
    es2: Seq<FilteredPipe>,
    ids: Seq<Seq<u8>>,
    j: int,
    i: int,
)
    requires
        0 <= j < es.len(),
        0 <= i < es.len(),
        i != j,
        es2.len() == es.len(),
        es2[j] == (FilteredPipe { key: es[j].key, filter: es[j].filter, valid: false }),
        forall|t: int| 0 <= t < es.len() && t != j ==> es2[t] == es[t],
        f_keys_unique(es),
    ensures
        req_targets(es2, ids).contains(es[i].key) <==> req_targets(es, ids).contains(es[i].key),
{
    assert(forall|t: int| 0 <= t < es2.len() ==> (#[trigger] es2[t]).key == es[t].key);
    assert(forall|a: int, b: int|
        0 <= a < b < es2.len() ==> (#[trigger] es2[a]).key != (#[trigger] es2[b]).key);
    lemma_prefix_fanout(es, ids, i);
    lemma_prefix_fanout(es2, ids, i);
    assert(es2[i] == es[i]);
}

/// Hash routing: every identifier a packet carries is delivered to the
/// entry at index `hash(id) mod N` whenever that entry is valid.
pub proof fn lemma_hash_routing(es: Seq<PlainPipe>, ids: Seq<Seq<u8>>, i: int)
    requires
        0 <= i < ids.len(),
        es.len() > 0,
    ensures
        (match target_of(es, ids[i]) {
            Some(key) => hash_targets(es, ids).contains(key),
            None => true,
        }),
    decreases ids.len(),
{
    let full = hash_targets(es, ids);
    if i == 0 {
        match target_of(es, ids[0]) {
            Some(key) => {
                assert(full[0] == key);
                assert(full.contains(key));
            },
            None => {},
        }
    } else {
        let tail = ids.skip(1);
        lemma_hash_routing(es, tail, i - 1);
        assert(tail[i - 1] == ids[i]);
        match target_of(es, ids[i]) {
            Some(key) => {
                let t = choose|t: int|
                    0 <= t < hash_targets(es, tail).len() && hash_targets(es, tail)[t] == key;
                let head_len: int = if target_of(es, ids[0]) is Some {
                    1
                } else {
                    0
                };
                assert(full[t + head_len] == key);
                assert(full.contains(key));
            },
            None => {},
        }
    }
}

/// Hash stability: routing depends on the identifier and the frozen entry
/// count alone, so any two frames carrying the same identifier are routed
/// to the same entry for as long as the registry does not change.
pub proof fn lemma_hash_stability(
    es: Seq<PlainPipe>,
    a: Seq<Seq<u8>>,
    b: Seq<Seq<u8>>,
    i: int,
    j: int,
)
    requires
        0 <= i < a.len(),
        0 <= j < b.len(),
        a[i] == b[j],
    ensures
        target_of(es, a[i]) == target_of(es, b[j]),
{
}

/// In a registry whose entries are all valid, the round-robin pick is
/// exactly the rotation index.
pub proof fn lemma_rr_all_valid(es: Seq<PlainPipe>, s: int)
    requires
        0 <= s < es.len(),
        forall|t: int| 0 <= t < es.len() ==> (#[trigger] es[t]).valid,
    ensures
        last_valid_upto(es, s) == Some(s),
{
}

/// How many of the first `k` round-robin picks, rotating from `start`
/// over a modulus of `n`, land on index `tgt`.
pub open spec fn rr_hits(start: int, k: int, n: int, tgt: int) -> int
    decreases k,
{
    if k <= 0 {
        0
    } else {
        rr_hits(start, k - 1, n, tgt) + (if ((start + k - 1) % n) == tgt {
            1int
        } else {
            0int
        })
    }
}

/// Consecutive pick windows add up.
proof fn lemma_rr_hits_split(start: int, a: int, b: int, n: int, tgt: int)
    requires
        0 <= a,
        0 <= b,
    ensures
        rr_hits(start, a + b, n, tgt) == rr_hits(start, a, n, tgt) + rr_hits(start + a, b, n, tgt),
    decreases b,
{
    if b > 0 {
        lemma_rr_hits_split(start, a, b - 1, n, tgt);
        assert(start + (a + b - 1) == (start + a) + b - 1);
    }
}

/// Two picks inside one window of fewer than `n` steps cannot land on the
/// same index, so a partial window scores at most one hit.
proof fn lemma_rr_hits_partial(start: int, k: int, n: int, tgt: int)
    requires
        0 < n,
        0 <= k <= n,
        0 <= tgt < n,
    ensures
        0 <= rr_hits(start, k, n, tgt) <= 1,
        rr_hits(start, k, n, tgt) == 1 <==> (exists|j: int|
            0 <= j < k && #[trigger] ((start + j) % n) == tgt),
    decreases k,
{
    if k > 0 {
        lemma_rr_hits_partial(start, k - 1, n, tgt);
        if ((start + k - 1) % n) == tgt {
            assert forall|j: int| 0 <= j < k - 1 implies #[trigger] ((start + j) % n) != tgt by {
                if ((start + j) % n) == tgt {
                    let d = (k - 1) - j;
                    assert(0 < d < n);
                    assert((start + k - 1) - (start + j) == d);
                    vstd::arithmetic::div_mod::lemma_fundamental_div_mod(start + j, n);
                    vstd::arithmetic::div_mod::lemma_fundamental_div_mod(start + k - 1, n);
                    let qa = (start + k - 1) / n;
                    let qb = (start + j) / n;
                    assert(start + j == n * qb + tgt);
                    assert(start + k - 1 == n * qa + tgt);
                    assert(false) by (nonlinear_arith)
                        requires
                            start + j == n * qb + tgt,
                            start + k - 1 == n * qa + tgt,
                            d == (k - 1) - j,
                            0 < d < n,
                    ;
                }
            }
            assert(rr_hits(start, k - 1, n, tgt) == 0);
        } else {
            if rr_hits(start, k, n, tgt) == 1 {
                let j = choose|j: int| 0 <= j < k - 1 && #[trigger] ((start + j) % n) == tgt;
                assert(0 <= j < k && #[trigger] ((start + j) % n) == tgt);
            }
            if exists|j: int| 0 <= j < k && #[trigger] ((start + j) % n) == tgt {
                let j = choose|j: int| 0 <= j < k && #[trigger] ((start + j) % n) == tgt;
                assert(j < k - 1 || j == k - 1);
                assert(0 <= j < k - 1 && #[trigger] ((start + j) % n) == tgt);
            }
        }
    }
}

/// One full window of `n` consecutive picks lands on every index exactly
/// once.
proof fn lemma_rr_hits_window(start: int, n: int, tgt: int)
    requires
        0 < n,
        0 <= tgt < n,
    ensures
        rr_hits(start, n, n, tgt) == 1,
{
    lemma_rr_hits_partial(start, n, n, tgt);
    let j = (tgt - start) % n;
    assert(0 <= j < n);
    assert(((start + j) % n) == tgt) by {
        vstd::arithmetic::div_mod::lemma_add_mod_noop(start, (tgt - start) % n, n);
        vstd::arithmetic::div_mod::lemma_mod_twice(tgt - start, n);
        vstd::arithmetic::div_mod::lemma_add_mod_noop(start, tgt - start, n);
        vstd::arithmetic::div_mod::lemma_small_mod(tgt as nat, n as nat);
    }
}

/// Whole cycles spread evenly: `q` full windows score `q` hits each.
proof fn lemma_rr_hits_cycles(start: int, q: int, n: int, tgt: int)
    requires
        0 < n,
        0 <= q,
        0 <= tgt < n,
    ensures
        rr_hits(start, q * n, n, tgt) == q,
    decreases q,
{
    if q > 0 {
        lemma_rr_hits_cycles(start, q - 1, n, tgt);
        assert((q - 1) * n + n == q * n) by (nonlinear_arith);
        assert((q - 1) * n >= 0) by (nonlinear_arith)
            requires
                q >= 1,
                n > 0,
        ;
        lemma_rr_hits_split(start, (q - 1) * n, n, n, tgt);
        lemma_rr_hits_window(start + (q - 1) * n, n, tgt);
        assert(rr_hits(start, q * n, n, tgt) == rr_hits(start, (q - 1) * n + n, n, tgt));
    } else {
        assert(q * n == 0) by (nonlinear_arith)
            requires
                q == 0,
        ;
    }
}

/// Round-robin fairness: over `k` consecutive dispatches rotating through
/// `n` valid entries, each entry is picked either `k / n` times or
/// `k / n + 1` times — and exactly `k / n` times when `n` divides `k`.
pub proof fn lemma_round_robin_fair(start: int, k: int, n: int, tgt: int)
    requires
        0 < n,
        0 <= k,
        0 <= tgt < n,
    ensures
        rr_hits(start, k, n, tgt) == k / n || rr_hits(start, k, n, tgt) == k / n + 1,
        k % n == 0 ==> rr_hits(start, k, n, tgt) == k / n,
{
    let q = k / n;
    let r = k % n;
    vstd::arithmetic::div_mod::lemma_fundamental_div_mod(k, n);
    assert(k == q * n + r) by (nonlinear_arith)
        requires
            k == n * q + r,
    ;
    assert(q >= 0) by (nonlinear_arith)
        requires
            k >= 0,
            n > 0,
            0 <= r < n,
            k == q * n + r,
    ;
    assert(q * n >= 0) by (nonlinear_arith)
        requires
            q >= 0,
            n > 0,
    ;
    lemma_rr_hits_split(start, q * n, r, n, tgt);
    lemma_rr_hits_cycles(start, q, n, tgt);
    lemma_rr_hits_partial(start + q * n, r, n, tgt);
}

} // verus!
