use vstd::prelude::*;
use crate::identity::{Identity, Thresholds, pool_view, locate, find_identity};
use vstd::arithmetic::div_mod::{lemma_small_mod, lemma_fundamental_div_mod_converse};
use crate::policy::{lemma_first_available_prefix, lemma_first_available, lemma_first_available_depends_on_availability, law_switch_to_first_available, law_search_visits_others_once, Decision, decision_of, first_available, is_available, search_position};

verus! {

/// The secret set on the active identity to disable its connection: it can
/// never authenticate on the PPPoE link.
pub const DISABLE_SECRET: &'static str = "DISABLED_EXCEEDED_LIMIT";

/// What the router reported when asked to apply an identity.
pub enum ApplyOutcome {
    /// The identity was applied.
    Success,
    /// The router reported that the identity was not applied.
    Rejected,
    /// Applying failed with this reason.
    Failed(String),
}

/// The message that ends a cycle.
pub enum Notice {
    /// The active identity is within its limit.
    StatusOk { name: String, usage: i32 },
    /// The router now runs `to` instead of `from`.
    Switched { from: String, to: String, old_usage: i32 },
    /// The router reported that the switch did not happen.
    SwitchFailed { from: String, to: String },
    /// The switch failed with an error.
    SwitchError { reason: String },
    /// The connection of identity `name` was disabled.
    Disabled { name: String, usage: i32 },
    /// Disabling the connection failed.
    DisableFailed { usage: i32 },
    /// No other identity is available; the connection was left as it is.
    NoIdentityAvailable { name: String, usage: i32 },
}

/// The next thing the caller does for the cycle.
pub enum Action {
    /// Probe the usage of this identity, then call `on_usage`.
    Probe(Identity),
    /// Apply this identity on the router, then call `on_apply`.
    Apply(Identity),
    /// Send this notice; the cycle is over.
    Notify(Notice),
    /// The cycle is over, with nothing to notify.
    Stop,
}

/// Where a cycle stands.
#[derive(Clone, Copy, Debug, PartialEq, Eq, Structural)]
pub enum Phase {
    /// Waiting for the usage of the active identity.
    ProbingActive,
    /// Waiting for the usage of the next candidate in search order.
    Searching,
    /// Waiting for the outcome of applying the decision.
    Applying,
    /// The cycle is over.
    Finished,
}

/// One decision cycle of the rotation engine.
pub struct RotationCycle {
    /// The pool of identities, in search order.
    pub pool: Vec<Identity>,
    pub thresholds: Thresholds,
    /// The position of the active identity in the pool.
    pub active: usize,
    /// The usage of the active identity, once probed.
    pub usage: i32,
    /// The probe results of the other identities, in search order.
    pub results: Vec<Option<i32>>,
    pub phase: Phase,
    /// The decision, once taken; `None` also when the active probe failed.
    pub decision: Option<Decision>,
}

/// The identity that disables the connection of `name`.
pub open spec fn disabling_identity(name: Seq<char>) -> (Seq<char>, Seq<char>) {
    (name, DISABLE_SECRET@)
}

/// The probe results of the other identities in search order, where
/// `probes[i]` is what probing the identity at position `i` reports.
pub open spec fn search_results(probes: Seq<Option<i32>>, active: int) -> Seq<Option<i32>> {
    Seq::new(
        (probes.len() - 1) as nat,
        |k: int| probes[search_position(active, k, probes.len() as int)],
    )
}

/// The first `m` positions of the search order.
pub open spec fn search_order(active: int, n: int, m: int) -> Seq<usize> {
    Seq::new(m as nat, |k: int| search_position(active, k, n) as usize)
}

/// How many other identities a cycle probes: none within the switch
/// threshold, else up to the first available one, else all of them.
pub open spec fn probes_made(usage: i32, results: Seq<Option<i32>>, th: Thresholds) -> int {
    if usage <= th.switch_threshold {
        0
    } else {
        match first_available(results, th) {
            Some(k) => k + 1,
            None => results.len() as int,
        }
    }
}

/// The record of a whole cycle run against fixed probe results.
pub struct CycleRun {
    pub decision: Option<Decision>,
    /// The positions of the identities probed, in order.
    pub probed: Vec<usize>,
    /// The identity applied on the router, if any.
    pub applied: Option<Identity>,
}

/// In a whole run, past the switch threshold, the first candidate in search
/// order that reports an available usage is switched to, and no candidate
/// after it is probed.
pub proof fn law_run_first_fit(
    probes: Seq<Option<i32>>,
    active: int,
    usage: i32,
    th: Thresholds,
    j: int,
)
    requires
        0 <= active < probes.len() <= usize::MAX,
        usage > th.switch_threshold,
        0 <= j < probes.len() - 1,
        is_available(probes[search_position(active, j, probes.len() as int)], th),
        forall|k: int|
            0 <= k < j ==> !is_available(
                #[trigger] probes[search_position(active, k, probes.len() as int)],
                th,
            ),
    ensures
        decision_of(probes.len() as int, active, usage, search_results(probes, active), th)
            == Decision::SwitchTo(search_position(active, j, probes.len() as int) as usize),
        probes_made(usage, search_results(probes, active), th) == j + 1,
{
    let w = search_results(probes, active);
    assert forall|k: int| 0 <= k < j implies !is_available(#[trigger] w[k], th) by {
        assert(w[k] == probes[search_position(active, k, probes.len() as int)]);
    }
    assert(w[j] == probes[search_position(active, j, probes.len() as int)]);
    law_switch_to_first_available(probes.len() as int, active, usage, w, th, j);
    lemma_first_available(w, th);
    let f = first_available(w, th);
    if f is Some {
        let i = f->0;
        assert(!(i < j) && !(j < i));
    }
}

/// In a whole run where no other identity reports an available usage, every
/// other identity is probed; past the disable threshold the connection of
/// the active identity is disabled, else no identity is available and the
/// connection is left untouched.
pub proof fn law_run_exhausted(
    probes: Seq<Option<i32>>,
    active: int,
    usage: i32,
    th: Thresholds,
)
    requires
        0 <= active < probes.len() <= usize::MAX,
        usage > th.switch_threshold,
        forall|k: int|
            0 <= k < probes.len() - 1 ==> !is_available(
                #[trigger] probes[search_position(active, k, probes.len() as int)],
                th,
            ),
    ensures
        probes_made(usage, search_results(probes, active), th) == probes.len() - 1,
        usage > th.disable_threshold ==> decision_of(
            probes.len() as int,
            active,
            usage,
            search_results(probes, active),
            th,
        ) == Decision::Disable(active as usize),
        usage <= th.disable_threshold ==> decision_of(
            probes.len() as int,
            active,
            usage,
            search_results(probes, active),
            th,
        ) == Decision::NoIdentityAvailable,
{
    let w = search_results(probes, active);
    assert forall|k: int| 0 <= k < w.len() implies !is_available(#[trigger] w[k], th) by {
        assert(w[k] == probes[search_position(active, k, probes.len() as int)]);
    }
    lemma_first_available(w, th);
}

/// In a whole run, a failed probe of another identity gives the same
/// decision and the same probes as that identity reporting a usage above
/// the available threshold.
pub proof fn law_run_probe_error_is_unavailable(
    probes: Seq<Option<i32>>,
    active: int,
    usage: i32,
    th: Thresholds,
    x: int,
    reported: i32,
)
    requires
        0 <= active < probes.len(),
        0 <= x < probes.len(),
        x != active,
        reported > th.available_threshold,
    ensures
        decision_of(
            probes.len() as int,
            active,
            usage,
            search_results(probes.update(x, None), active),
            th,
        ) == decision_of(
            probes.len() as int,
            active,
            usage,
            search_results(probes.update(x, Some(reported)), active),
            th,
        ),
        probes_made(usage, search_results(probes.update(x, None), active), th) == probes_made(
            usage,
            search_results(probes.update(x, Some(reported)), active),
            th,
        ),
{
    let a = search_results(probes.update(x, None), active);
    let b = search_results(probes.update(x, Some(reported)), active);
    assert forall|k: int| 0 <= k < a.len() implies is_available(#[trigger] a[k], th)
        == is_available(b[k], th) by {
        let q = search_position(active, k, probes.len() as int);
        law_search_visits_others_once(active, probes.len() as int, k, k);
        assert(a[k] == probes.update(x, None)[q]);
        assert(b[k] == probes.update(x, Some(reported))[q]);
    }
    lemma_first_available_depends_on_availability(a, b, th);
}

impl RotationCycle {
    pub open spec fn pool_len(&self) -> int {
        self.pool@.len() as int
    }

    /// The decision that the results gathered so far give.
    pub open spec fn spec_decision(&self) -> Decision {
        decision_of(self.pool_len(), self.active as int, self.usage, self.results@, self.thresholds)
    }

    /// The search is over: an identity was found or every other one probed.
    pub open spec fn search_done(&self) -> bool {
        first_available(self.results@, self.thresholds) is Some || self.results@.len()
            == self.pool_len() - 1
    }

    pub open spec fn wf(&self) -> bool {
        &&& self.phase != Phase::Finished ==> self.active < self.pool@.len()
        &&& self.phase == Phase::ProbingActive ==> self.results@.len() == 0
        &&& self.phase == Phase::Searching ==> {
            &&& self.usage > self.thresholds.switch_threshold
            &&& !self.search_done()
            &&& self.results@.len() < self.pool_len() - 1
            &&& self.decision is None
        }
        &&& self.phase == Phase::Applying ==> {
            &&& self.usage > self.thresholds.switch_threshold
            &&& self.search_done()
            &&& self.decision == Some(self.spec_decision())
            &&& match self.spec_decision() {
                Decision::SwitchTo(p) => p < self.pool@.len(),
                Decision::Disable(_) => true,
                _ => false,
            }
        }
    }

    /// The state and action after a step of the search: a probe of the next
    /// candidate while the search goes on, else the decision and its action.
    pub open spec fn search_step(&self, a: &Action) -> bool {
        if !self.search_done() {
            &&& self.phase == Phase::Searching
            &&& self.decision is None
            &&& match a {
                Action::Probe(id) => id@ == self.pool@[search_position(
                    self.active as int,
                    self.results@.len() as int,
                    self.pool_len(),
                )]@,
                _ => false,
            }
        } else {
            &&& self.decision == Some(self.spec_decision())
            &&& match self.spec_decision() {
                Decision::SwitchTo(p) => {
                    &&& self.phase == Phase::Applying
                    &&& match a {
                        Action::Apply(id) => id@ == self.pool@[p as int]@,
                        _ => false,
                    }
                },
                Decision::Disable(x) => {
                    &&& x == self.active
                    &&& self.phase == Phase::Applying
                    &&& match a {
                        Action::Apply(id) => id@ == disabling_identity(
                            self.pool@[x as int].name@,
                        ),
                        _ => false,
                    }
                },
                Decision::NoIdentityAvailable => {
                    &&& self.phase == Phase::Finished
                    &&& match a {
                        Action::Notify(Notice::NoIdentityAvailable { name, usage }) => {
                            &&& name@ == self.pool@[self.active as int].name@
                            &&& usage == self.usage
                        },
                        _ => false,
                    }
                },
                Decision::NoAction => false,
            }
        }
    }

    /// Starts a cycle for the identity that the router reports as active.
    /// An active identity outside the pool ends the cycle at once, with no
    /// action and no probe; otherwise the first identity of that name is
    /// probed.
    pub fn start(active_name: &str, pool: Vec<Identity>, thresholds: Thresholds) -> (r: (
        RotationCycle,
        Action,
    ))
        ensures
            r.0.wf(),
            r.0.pool@ == pool@,
            r.0.thresholds == thresholds,
            r.0.results@.len() == 0,
            match locate(pool_view(pool@), active_name@) {
                None => {
                    &&& r.0.phase == Phase::Finished
                    &&& r.0.decision == Some(Decision::NoAction)
                    &&& r.1 is Stop
                },
                Some(i) => {
                    &&& r.0.phase == Phase::ProbingActive
                    &&& r.0.active == i
                    &&& r.0.decision is None
                    &&& match r.1 {
                        Action::Probe(id) => id@ == pool@[i]@,
                        _ => false,
                    }
                },
            },
    {
        let target = active_name.to_owned();
        match find_identity(&pool, &target) {
            Some(i) => {
                let probe = pool[i].duplicate();
                let cycle = RotationCycle {
                    pool,
                    thresholds,
                    active: i,
                    usage: 0,
                    results: Vec::new(),
                    phase: Phase::ProbingActive,
                    decision: None,
                };
                (cycle, Action::Probe(probe))
            },
            None => {
                let cycle = RotationCycle {
                    pool,
                    thresholds,
                    active: 0,
                    usage: 0,
                    results: Vec::new(),
                    phase: Phase::Finished,
                    decision: Some(Decision::NoAction),
                };
                (cycle, Action::Stop)
            },
        }
    }

    /// The position in the pool of the `k`-th candidate in search order.
    fn candidate_position(&self, k: usize) -> (r: usize)
        requires
            self.active < self.pool@.len(),
            k < self.pool@.len() - 1,
        ensures
            r == search_position(self.active as int, k as int, self.pool_len()),
            r < self.pool@.len(),
    {
        let n = self.pool.len();
        let after = n - self.active - 1;
        if k < after {
            proof {
                lemma_small_mod((self.active + 1 + k) as nat, n as nat);
            }
            self.active + 1 + k
        } else {
            proof {
                lemma_fundamental_div_mod_converse(
                    self.active + 1 + k,
                    n as int,
                    1,
                    (k - after) as int,
                );
            }
            k - after
        }
    }

    /// Goes on with the search after a result that made no identity
    /// available: probes the next candidate, or decides once all are probed.
    fn advance(&mut self) -> (a: Action)
        requires
            old(self).active < old(self).pool@.len(),
            old(self).usage > old(self).thresholds.switch_threshold,
            old(self).results@.len() <= old(self).pool_len() - 1,
            first_available(old(self).results@, old(self).thresholds) is None,
        ensures
            final(self).wf(),
            final(self).search_step(&a),
            final(self).pool@ == old(self).pool@,
            final(self).thresholds == old(self).thresholds,
            final(self).active == old(self).active,
            final(self).usage == old(self).usage,
            final(self).results@ == old(self).results@,
    {
        let k = self.results.len();
        if k < self.pool.len() - 1 {
            let p = self.candidate_position(k);
            self.phase = Phase::Searching;
            self.decision = None;
            Action::Probe(self.pool[p].duplicate())
        } else if self.usage > self.thresholds.disable_threshold {
            self.phase = Phase::Applying;
            self.decision = Some(Decision::Disable(self.active));
            let id = Identity::new(self.pool[self.active].name.clone(), DISABLE_SECRET.to_owned());
            Action::Apply(id)
        } else {
            self.phase = Phase::Finished;
            self.decision = Some(Decision::NoIdentityAvailable);
            let name = self.pool[self.active].name.clone();
            Action::Notify(Notice::NoIdentityAvailable { name, usage: self.usage })
        }
    }

    /// Takes the usage probed for the identity of the last `Probe` action;
    /// `None` when the probe failed.
    ///
    /// A failed probe of the active identity aborts the cycle with no
    /// decision and no notice. A usage of the active identity within the
    /// switch threshold ends the cycle with no action and no other probe.
    /// Otherwise the other identities are probed one at a time in search
    /// order, a failed probe counting as an unavailable identity, until the
    /// first available one is found or all are probed.
    pub fn on_usage(&mut self, r: Option<i32>) -> (a: Action)
        requires
            old(self).wf(),
            old(self).phase == Phase::ProbingActive || old(self).phase == Phase::Searching,
        ensures
            final(self).wf(),
            final(self).pool@ == old(self).pool@,
            final(self).thresholds == old(self).thresholds,
            final(self).active == old(self).active,
            old(self).phase == Phase::ProbingActive ==> match r {
                None => {
                    &&& final(self).phase == Phase::Finished
                    &&& final(self).decision is None
                    &&& a is Stop
                },
                Some(u) => {
                    &&& final(self).usage == u
                    &&& final(self).results@.len() == 0
                    &&& if u <= old(self).thresholds.switch_threshold {
                        &&& final(self).phase == Phase::Finished
                        &&& final(self).decision == Some(Decision::NoAction)
                        &&& match a {
                            Action::Notify(Notice::StatusOk { name, usage }) => {
                                &&& name@ == old(self).pool@[old(self).active as int].name@
                                &&& usage == u
                            },
                            _ => false,
                        }
                    } else {
                        final(self).search_step(&a)
                    }
                },
            },
            old(self).phase == Phase::Searching ==> {
                &&& final(self).usage == old(self).usage
                &&& final(self).results@ == old(self).results@.push(r)
                &&& final(self).search_step(&a)
            },
    {
        if self.phase == Phase::ProbingActive {
            match r {
                None => {
                    self.phase = Phase::Finished;
                    self.decision = None;
                    Action::Stop
                },
                Some(u) => {
                    self.usage = u;
                    if u <= self.thresholds.switch_threshold {
                        self.phase = Phase::Finished;
                        self.decision = Some(Decision::NoAction);
                        let name = self.pool[self.active].name.clone();
                        Action::Notify(Notice::StatusOk { name, usage: u })
                    } else {
                        self.advance()
                    }
                },
            }
        } else {
            let ghost before = self.results@;
            self.results.push(r);
            proof {
                assert(self.results@.drop_last() =~= before);
            }
            let found = match r {
                Some(u) => u <= self.thresholds.available_threshold,
                None => false,
            };
            if found {
                let k = self.results.len() - 1;
                let p = self.candidate_position(k);
                self.phase = Phase::Applying;
                self.decision = Some(Decision::SwitchTo(p));
                Action::Apply(self.pool[p].duplicate())
            } else {
                self.advance()
            }
        }
    }

    /// Takes the outcome of the last `Apply` action and ends the cycle with
    /// the notice for it. Each outcome of a switch has a notice of its own;
    /// a disable that did not succeed, rejected or failed, has one notice.
    pub fn on_apply(&mut self, outcome: ApplyOutcome) -> (a: Action)
        requires
            old(self).wf(),
            old(self).phase == Phase::Applying,
        ensures
            final(self).wf(),
            final(self).phase == Phase::Finished,
            final(self).decision == old(self).decision,
            final(self).pool@ == old(self).pool@,
            final(self).thresholds == old(self).thresholds,
            final(self).active == old(self).active,
            final(self).usage == old(self).usage,
            final(self).results@ == old(self).results@,
            match old(self).decision {
                Some(Decision::SwitchTo(p)) => {
                    let from = old(self).pool@[old(self).active as int].name@;
                    let to = old(self).pool@[p as int].name@;
                    match (outcome, a) {
                        (ApplyOutcome::Success, Action::Notify(Notice::Switched { from: f, to: t, old_usage })) =>
                            f@ == from && t@ == to && old_usage == old(self).usage,
                        (ApplyOutcome::Rejected, Action::Notify(Notice::SwitchFailed { from: f, to: t })) =>
                            f@ == from && t@ == to,
                        (ApplyOutcome::Failed(e), Action::Notify(Notice::SwitchError { reason })) =>
                            reason@ == e@,
                        _ => false,
                    }
                },
                Some(Decision::Disable(x)) => match (outcome, a) {
                    (ApplyOutcome::Success, Action::Notify(Notice::Disabled { name, usage })) =>
                        name@ == old(self).pool@[x as int].name@ && usage == old(self).usage,
                    (ApplyOutcome::Rejected, Action::Notify(Notice::DisableFailed { usage })) =>
                        usage == old(self).usage,
                    (ApplyOutcome::Failed(_), Action::Notify(Notice::DisableFailed { usage })) =>
                        usage == old(self).usage,
                    _ => false,
                },
                _ => false,
            },
    {
        self.phase = Phase::Finished;
        let from = self.pool[self.active].name.clone();
        match self.decision {
            Some(Decision::SwitchTo(p)) => {
                let to = self.pool[p].name.clone();
                match outcome {
                    ApplyOutcome::Success => Action::Notify(
                        Notice::Switched { from, to, old_usage: self.usage },
                    ),
                    ApplyOutcome::Rejected => Action::Notify(Notice::SwitchFailed { from, to }),
                    ApplyOutcome::Failed(reason) => Action::Notify(Notice::SwitchError { reason }),
                }
            },
            _ => {
                match outcome {
                    ApplyOutcome::Success => Action::Notify(
                        Notice::Disabled { name: from, usage: self.usage },
                    ),
                    _ => Action::Notify(Notice::DisableFailed { usage: self.usage }),
                }
            },
        }
    }
    /// Runs a whole cycle up to the identity it applies, if any, where
    /// probing the identity at position `i` reports `probes[i]`.
    #[verifier::rlimit(60)]
    pub fn run_cycle(
        active_name: &str,
        pool: Vec<Identity>,
        thresholds: Thresholds,
        probes: &Vec<Option<i32>>,
    ) -> (r: CycleRun)
        requires
            probes@.len() == pool@.len(),
        ensures
            match locate(pool_view(pool@), active_name@) {
                None => {
                    &&& r.decision == Some(Decision::NoAction)
                    &&& r.probed@.len() == 0
                    &&& r.applied is None
                },
                Some(i) => match probes@[i] {
                    None => {
                        &&& r.decision is None
                        &&& r.probed@ == seq![i as usize]
                        &&& r.applied is None
                    },
                    Some(u) => {
                        let n = pool@.len() as int;
                        let world = search_results(probes@, i);
                        &&& r.decision == Some(decision_of(n, i, u, world, thresholds))
                        &&& r.probed@ == seq![i as usize] + search_order(
                            i,
                            n,
                            probes_made(u, world, thresholds),
                        )
                        &&& match decision_of(n, i, u, world, thresholds) {
                            Decision::SwitchTo(p) => r.applied matches Some(id) && id@
                                == pool@[p as int]@,
                            Decision::Disable(x) => r.applied matches Some(id) && id@
                                == disabling_identity(pool@[x as int].name@),
                            _ => r.applied is None,
                        }
                    },
                },
            },
    {
        let ghost pool0 = pool@;
        let (mut c, _) = RotationCycle::start(active_name, pool, thresholds);
        let mut probed: Vec<usize> = Vec::new();
        if c.phase == Phase::Finished {
            return CycleRun { decision: c.decision, probed, applied: None };
        }
        let i = c.active;
        probed.push(i);
        let first = probes[i];
        let mut a = c.on_usage(first);
        let u = match first {
            None => {
                return CycleRun { decision: c.decision, probed, applied: None };
            },
            Some(u) => u,
        };
        if u <= thresholds.switch_threshold {
            assert(probed@ =~= seq![i] + search_order(i as int, pool0.len() as int, 0));
            return CycleRun { decision: c.decision, probed, applied: None };
        }
        let ghost n = pool0.len() as int;
        let ghost world = search_results(probes@, i as int);
        assert(probed@ =~= seq![i] + search_order(i as int, n, 0));
        while c.phase == Phase::Searching
            invariant
                c.wf(),
                c.search_step(&a),
                c.pool@ == pool0,
                n == pool0.len(),
                probes@.len() == n,
                world == search_results(probes@, i as int),
                c.thresholds == thresholds,
                c.active == i,
                i < n,
                c.usage == u,
                u > thresholds.switch_threshold,
                c.results@.len() <= n - 1,
                c.results@.len() > 0 ==> first_available(c.results@.drop_last(), thresholds) is None,
                forall|k: int| 0 <= k < c.results@.len() ==> #[trigger] c.results@[k] == world[k],
                probed@ == seq![i] + search_order(i as int, n, c.results@.len() as int),
            decreases n - c.results@.len(),
        {
            let k = c.results.len();
            let p = c.candidate_position(k);
            let r = probes[p];
            let ghost before = c.results@;
            a = c.on_usage(r);
            assert(c.results@.drop_last() =~= before);
            assert(c.results@[k as int] == world[k as int]);
            probed.push(p);
            assert(probed@ =~= seq![i] + search_order(i as int, n, c.results@.len() as int));
        }
        let ghost results = c.results@;
        proof {
            if first_available(results, thresholds) is Some {
                let m = results.len() as int;
                assert(results + world.skip(m) =~= world);
                lemma_first_available_prefix(results, world.skip(m), thresholds);
            } else {
                assert(results =~= world);
            }
        }
        let applied = match a {
            Action::Apply(id) => Some(id),
            _ => None,
        };
        CycleRun { decision: c.decision, probed, applied }
    }
}

} // verus!
