use vstd::prelude::*;
use crate::identity::Thresholds;
use vstd::arithmetic::div_mod::{lemma_small_mod, lemma_fundamental_div_mod_converse};

verus! {

/// What one rotation cycle decides. Indices refer to the pool of identities.
#[derive(Clone, Copy, Debug, PartialEq, Eq, Structural)]
pub enum Decision {
    /// The active identity is within its limit: nothing changes.
    NoAction,
    /// Switch to the identity at this index.
    SwitchTo(usize),
    /// Disable the connection of the active identity, at this index.
    Disable(usize),
    /// Every other identity is used up, but the active one is not yet past
    /// the disable limit: the connection is left as it is.
    NoIdentityAvailable,
}

/// The position in a pool of `n` identities of the `k`-th candidate probed
/// after the active identity at `active`: the search wraps around the pool.
pub open spec fn search_position(active: int, k: int, n: int) -> int {
    (active + 1 + k) % n
}

/// A probe result that makes its identity available: a usage at most the
/// available threshold. A failed probe (`None`) never does.
pub open spec fn is_available(r: Option<i32>, th: Thresholds) -> bool {
    match r {
        Some(u) => u <= th.available_threshold,
        None => false,
    }
}

/// The position of the first available result, if any.
pub open spec fn first_available(results: Seq<Option<i32>>, th: Thresholds) -> Option<int>
    decreases results.len(),
{
    if results.len() == 0 {
        None
    } else {
        match first_available(results.drop_last(), th) {
            Some(k) => Some(k),
            None => if is_available(results.last(), th) {
                Some(results.len() - 1)
            } else {
                None
            },
        }
    }
}

/// The decision of a cycle on a pool of `n` identities whose active identity
/// stands at `active` and has used `usage` minutes, where `results` are the
/// probes of the other identities in search order.
pub open spec fn decision_of(
    n: int,
    active: int,
    usage: i32,
    results: Seq<Option<i32>>,
    th: Thresholds,
) -> Decision {
    if usage <= th.switch_threshold {
        Decision::NoAction
    } else {
        match first_available(results, th) {
            Some(k) => Decision::SwitchTo(search_position(active, k, n) as usize),
            None => if usage > th.disable_threshold {
                Decision::Disable(active as usize)
            } else {
                Decision::NoIdentityAvailable
            },
        }
    }
}

/// `first_available` finds the first available result, and `None` means
/// that no result is available.
pub proof fn lemma_first_available(results: Seq<Option<i32>>, th: Thresholds)
    ensures
        match first_available(results, th) {
            Some(k) => {
                &&& 0 <= k < results.len()
                &&& is_available(results[k], th)
                &&& forall|j: int| 0 <= j < k ==> !is_available(#[trigger] results[j], th)
            },
            None => forall|j: int|
                0 <= j < results.len() ==> !is_available(#[trigger] results[j], th),
        },
    decreases results.len(),
{
    if results.len() > 0 {
        let prefix = results.drop_last();
        lemma_first_available(prefix, th);
        assert forall|j: int| 0 <= j < prefix.len() implies prefix[j] == results[j] by {}
    }
}

/// Two result sequences that agree on which results are available have the
/// same first available result.
pub proof fn lemma_first_available_depends_on_availability(
    a: Seq<Option<i32>>,
    b: Seq<Option<i32>>,
    th: Thresholds,
)
    requires
        a.len() == b.len(),
        forall|j: int| 0 <= j < a.len() ==> is_available(#[trigger] a[j], th) == is_available(b[j], th),
    ensures
        first_available(a, th) == first_available(b, th),
    decreases a.len(),
{
    if a.len() > 0 {
        let (pa, pb) = (a.drop_last(), b.drop_last());
        assert forall|j: int| 0 <= j < pa.len() implies is_available(#[trigger] pa[j], th)
            == is_available(pb[j], th) by {
            assert(pa[j] == a[j] && pb[j] == b[j]);
        }
        lemma_first_available_depends_on_availability(pa, pb, th);
        assert(is_available(a[a.len() - 1], th) == is_available(b[b.len() - 1], th));
    }
}

/// Results after the first available one do not change it.
pub proof fn lemma_first_available_prefix(
    results: Seq<Option<i32>>,
    more: Seq<Option<i32>>,
    th: Thresholds,
)
    requires
        first_available(results, th) is Some,
    ensures
        first_available(results + more, th) == first_available(results, th),
    decreases more.len(),
{
    if more.len() > 0 {
        let shorter = more.drop_last();
        lemma_first_available_prefix(results, shorter, th);
        assert((results + more).drop_last() =~= results + shorter);
    } else {
        assert(results + more =~= results);
    }
}

/// Whatever the other identities report, an active identity within the
/// switch threshold leads to no action.
pub proof fn law_within_limit_no_action(
    n: int,
    active: int,
    usage: i32,
    results: Seq<Option<i32>>,
    th: Thresholds,
)
    requires
        usage <= th.switch_threshold,
    ensures
        decision_of(n, active, usage, results, th) == Decision::NoAction,
{
}

/// Past the switch threshold, the decision is a switch to the first
/// available identity in search order, whatever follows it.
pub proof fn law_switch_to_first_available(
    n: int,
    active: int,
    usage: i32,
    results: Seq<Option<i32>>,
    th: Thresholds,
    k: int,
)
    requires
        usage > th.switch_threshold,
        0 <= k < results.len(),
        is_available(results[k], th),
        forall|j: int| 0 <= j < k ==> !is_available(#[trigger] results[j], th),
    ensures
        decision_of(n, active, usage, results, th) == Decision::SwitchTo(
            search_position(active, k, n) as usize,
        ),
{
    lemma_first_available(results, th);
    let f = first_available(results, th);
    if f is Some {
        let i = f->0;
        assert(!(i < k) && !(k < i));
    }
}

/// Once an available identity has been found, the results of identities
/// later in search order do not change the decision: they need no probe.
pub proof fn law_later_results_ignored(
    n: int,
    active: int,
    usage: i32,
    results: Seq<Option<i32>>,
    more: Seq<Option<i32>>,
    th: Thresholds,
)
    requires
        first_available(results, th) is Some,
    ensures
        decision_of(n, active, usage, results + more, th) == decision_of(
            n,
            active,
            usage,
            results,
            th,
        ),
{
    lemma_first_available_prefix(results, more, th);
}

/// With no identity available and the active one past the disable
/// threshold, the connection of the active identity is disabled.
pub proof fn law_exhausted_past_disable_disables(
    n: int,
    active: int,
    usage: i32,
    results: Seq<Option<i32>>,
    th: Thresholds,
)
    requires
        usage > th.switch_threshold,
        usage > th.disable_threshold,
        forall|j: int| 0 <= j < results.len() ==> !is_available(#[trigger] results[j], th),
    ensures
        decision_of(n, active, usage, results, th) == Decision::Disable(active as usize),
{
    lemma_first_available(results, th);
}

/// With no identity available and the active one past the switch threshold
/// but not past the disable threshold, the connection is left untouched.
pub proof fn law_exhausted_within_disable_reports(
    n: int,
    active: int,
    usage: i32,
    results: Seq<Option<i32>>,
    th: Thresholds,
)
    requires
        usage > th.switch_threshold,
        usage <= th.disable_threshold,
        forall|j: int| 0 <= j < results.len() ==> !is_available(#[trigger] results[j], th),
    ensures
        decision_of(n, active, usage, results, th) == Decision::NoIdentityAvailable,
{
    lemma_first_available(results, th);
}

/// A failed probe of another identity counts as that identity reporting a
/// usage above the available threshold.
pub proof fn law_probe_error_is_unavailable(
    n: int,
    active: int,
    usage: i32,
    results: Seq<Option<i32>>,
    th: Thresholds,
    j: int,
    reported: i32,
)
    requires
        0 <= j < results.len(),
        reported > th.available_threshold,
    ensures
        decision_of(n, active, usage, results.update(j, None), th) == decision_of(
            n,
            active,
            usage,
            results.update(j, Some(reported)),
            th,
        ),
{
    let a = results.update(j, None);
    let b = results.update(j, Some(reported));
    assert forall|i: int| 0 <= i < a.len() implies is_available(#[trigger] a[i], th)
        == is_available(b[i], th) by {}
    lemma_first_available_depends_on_availability(a, b, th);
}

/// The search visits each identity other than the active one exactly once:
/// the first `n - 1` search positions are distinct, lie in the pool, and
/// skip the active identity.
pub proof fn law_search_visits_others_once(active: int, n: int, k: int, l: int)
    requires
        0 <= active < n,
        0 <= k < n - 1,
        0 <= l < n - 1,
    ensures
        0 <= search_position(active, k, n) < n,
        search_position(active, k, n) != active,
        k != l ==> search_position(active, k, n) != search_position(active, l, n),
{
    let x = active + 1 + k;
    let y = active + 1 + l;
    if x < n {
        lemma_small_mod(x as nat, n as nat);
    } else {
        lemma_fundamental_div_mod_converse(x, n, 1, x - n);
    }
    if y < n {
        lemma_small_mod(y as nat, n as nat);
    } else {
        lemma_fundamental_div_mod_converse(y, n, 1, y - n);
    }
}

/// A switch never targets the active identity: the rotation makes no
/// redundant switch, and its target lies in the pool.
pub proof fn law_switch_target_is_another_identity(
    n: int,
    active: int,
    usage: i32,
    results: Seq<Option<i32>>,
    th: Thresholds,
)
    requires
        0 <= active < n <= usize::MAX,
        results.len() <= n - 1,
    ensures
        decision_of(n, active, usage, results, th) matches Decision::SwitchTo(p) ==> p != active
            && p < n,
{
    lemma_first_available(results, th);
    if usage > th.switch_threshold {
        if let Some(k) = first_available(results, th) {
            law_search_visits_others_once(active, n, k, k);
            let q = search_position(active, k, n);
            assert(q as usize as int == q);
        }
    }
}

} // verus!
