//! The breadth-first model checker.
//!
//! A [`Model`] describes a transition system: a deterministic list of
//! initial states, and for every state a deterministic list of steps, each
//! an action paired with a successor state. The [`Checker`] explores the
//! reachable states breadth-first, deduplicating by fingerprint, evaluating
//! every property on each newly discovered state, and keeping a parent map
//! from which an action-labeled path to any discovered state can be
//! reconstructed.
//!
//! The visited set and the parent map hold fingerprints only, never full
//! states, so two distinct states that collide on their fingerprint appear
//! as one. This is a deliberate soundness concession; the completeness
//! lemmas below therefore assume collision-free fingerprints on the
//! reachable states, while the soundness lemmas need no such assumption.

use vstd::prelude::*;
use std::collections::HashMap;
use std::collections::VecDeque;
use crate::fingerprint::{finalize, fp_finalize, values_of, ModelValue, VOf};

verus! {

broadcast use vstd::std_specs::hash::group_hash_axioms;

/// The kind of a property.
#[derive(Clone, Copy, PartialEq, Eq, Structural, Debug)]
pub enum Expectation {
    /// An invariant: violated by the first discovered state where the
    /// predicate is false.
    Always,
    /// A reachability witness: satisfied by the first discovered state
    /// where the predicate is true; reported unsatisfied if exploration
    /// completes without one.
    Sometimes,
}

/// A named predicate over the states of a model. The predicate itself is
/// evaluated through [`Model::eval_property`], keyed by the property's
/// position in the model's property list.
#[derive(Clone, Copy, Debug)]
pub struct Property {
    pub expectation: Expectation,
    pub name: &'static str,
}

/// The buffer a model's `next` fills with steps: each an action paired with
/// the successor state it leads to.
#[derive(Clone, Debug)]
pub struct StepVec<Action, State>(pub Vec<(Action, State)>);

impl<Action, State> StepVec<Action, State> {
    /// Create an empty step buffer.
    pub fn new() -> (r: Self)
        ensures
            r.0@ == Seq::<(Action, State)>::empty(),
    {
        StepVec(Vec::new())
    }

    /// Append one step.
    pub fn push(&mut self, action: Action, state: State)
        ensures
            final(self).0@ == old(self).0@.push((action, state)),
    {
        self.0.push((action, state));
    }
}

/// An action-labeled path reconstructed from the checker's parent map: the
/// actions of a trace leading from an initial state to a discovered state.
#[derive(Clone, Debug, PartialEq, Eq)]
pub struct Path<Action>(pub Vec<Action>);

impl<Action> Path<Action> {
    /// The actions along the path, in order.
    pub fn into_actions(self) -> (r: Vec<Action>)
        ensures
            r@ == self.0@,
    {
        self.0
    }
}

/// The outcome of one bounded `check` call.
#[derive(Clone, Copy, PartialEq, Eq, Structural, Debug)]
pub enum CheckResult {
    /// Every reachable state was explored and no always-property was
    /// violated.
    Pass,
    /// An always-property was violated.
    Fail,
    /// The bound on expansions was exhausted with states still pending.
    Incomplete,
}

/// The abstract values of a step list: each action and successor taken to
/// its abstract value.
pub open spec fn step_values<A: ModelValue, S: ModelValue>(s: Seq<(A, S)>) -> Seq<
    (VOf<A>, VOf<S>),
> {
    s.map_values(|p: (A, S)| (p.0.value(), p.1.value()))
}

/// A transition system with properties attached. Both the initial states
/// and the steps out of any state are pinned to spec-level descriptions, so
/// exploration is deterministic: two calls on equal states produce
/// identical step sequences.
pub trait Model: Sized {
    /// The type of states of this model.
    type State: ModelValue;

    /// The type of actions labeling the steps of this model.
    type Action: ModelValue;

    /// The initial states, in emission order, as abstract values.
    spec fn init_view(&self) -> Seq<VOf<Self::State>>;

    /// The steps out of `state`, in emission order, as abstract values.
    spec fn next_view(&self, state: VOf<Self::State>) -> Seq<(VOf<Self::Action>, VOf<Self::State>)>;

    /// The properties attached to this model, in evaluation order.
    spec fn properties_view(&self) -> Seq<Property>;

    /// Whether property `i` holds of `state`.
    spec fn property_holds(&self, i: int, state: VOf<Self::State>) -> bool;

    /// Whether `state` lies within the state-space boundary. States outside
    /// it are discovered but not expanded.
    spec fn boundary_view(&self, state: VOf<Self::State>) -> bool;

    /// Append every initial state.
    fn init(&self, results: &mut Vec<Self::State>)
        ensures
            values_of(final(results)@) == values_of(old(results)@) + self.init_view(),
    ;

    /// Append every step enabled from `state`.
    fn next(&self, state: &Self::State, results: &mut StepVec<Self::Action, Self::State>)
        ensures
            step_values(final(results).0@) == step_values(old(results).0@) + self.next_view(state.value()),
    ;

    /// The properties attached to this model.
    fn properties(&self) -> (r: Vec<Property>)
        ensures
            r@ == self.properties_view(),
    ;

    /// Evaluate property `i` on `state`.
    fn eval_property(&self, i: usize, state: &Self::State) -> (r: bool)
        requires
            i < self.properties_view().len(),
        ensures
            r == self.property_holds(i as int, state.value()),
    ;

    /// Decide whether `state` lies within the state-space boundary.
    fn within_boundary(&self, state: &Self::State) -> (r: bool)
        ensures
            r == self.boundary_view(state.value()),
    ;
}

/// Determinism: the steps out of a state are a function of the state alone,
/// so two explorations of equal states yield identical step sequences.
pub proof fn lemma_next_deterministic<M: Model>(m: &M, s1: VOf<M::State>, s2: VOf<M::State>)
    requires
        s1 == s2,
    ensures
        m.next_view(s1) == m.next_view(s2),
{
}

/// Whether `states` and `actions` form a trace of `m`: the first state is
/// initial, every following state is reached by the paired action, and
/// every expanded (non-final) state lies within the boundary.
pub open spec fn is_trace<M: Model>(
    m: M,
    states: Seq<VOf<M::State>>,
    actions: Seq<VOf<M::Action>>,
) -> bool {
    &&& states.len() == actions.len() + 1
    &&& m.init_view().contains(states[0])
    &&& (forall|i: int|
        0 <= i < actions.len() ==> #[trigger] m.next_view(states[i]).contains(
            (actions[i], states[i + 1]),
        ))
    &&& (forall|i: int| 0 <= i < actions.len() ==> #[trigger] m.boundary_view(states[i]))
}

/// Whether `s` is reachable: some trace of `m` ends at `s`.
#[verifier::opaque]
pub open spec fn reachable<M: Model>(m: M, s: VOf<M::State>) -> bool {
    exists|states: Seq<VOf<M::State>>, actions: Seq<VOf<M::Action>>|
        is_trace(m, states, actions) && states.last() == s
}

/// Whether fingerprints are collision-free on the reachable states of `m`.
pub open spec fn fp_injective<M: Model>(m: M) -> bool {
    forall|a: VOf<M::State>, b: VOf<M::State>|
        reachable(m, a) && reachable(m, b) && (#[trigger] state_fp::<M>(a)) == (
        #[trigger] state_fp::<M>(b)) ==> a == b
}

/// The fingerprint of an abstract state of `M`: the state's digest, made
/// non-zero. This is the sole identity the checker uses for visited-set
/// and parent-map membership.
pub open spec fn state_fp<M: Model>(v: VOf<M::State>) -> u64 {
    fp_finalize(<M::State as ModelValue>::fp_of(v))
}

/// Fingerprints used as identity are never zero.
pub proof fn lemma_state_fp_nonzero<M: Model>(v: VOf<M::State>)
    ensures
        state_fp::<M>(v) != 0,
{
}

/// Extending a trace by one step out of an in-boundary state reaches the
/// step's successor.
pub proof fn lemma_reachable_step<M: Model>(
    m: M,
    s: VOf<M::State>,
    a: VOf<M::Action>,
    t: VOf<M::State>,
)
    requires
        reachable(m, s),
        m.boundary_view(s),
        m.next_view(s).contains((a, t)),
    ensures
        reachable(m, t),
{
    reveal(reachable);
    let (states, actions): (Seq<VOf<M::State>>, Seq<VOf<M::Action>>) = choose|
        states: Seq<VOf<M::State>>,
        actions: Seq<VOf<M::Action>>,
    | is_trace(m, states, actions) && states.last() == s;
    let states2 = states.push(t);
    let actions2 = actions.push(a);
    assert forall|i: int| 0 <= i < actions2.len() implies #[trigger] m.next_view(
        states2[i],
    ).contains((actions2[i], states2[i + 1])) by {
        if i < actions.len() {
            assert(m.next_view(states[i]).contains((actions[i], states[i + 1])));
        }
    }
    assert forall|i: int| 0 <= i < actions2.len() implies #[trigger] m.boundary_view(
        states2[i],
    ) by {
        if i < actions.len() {
            assert(m.boundary_view(states[i]));
        } else {
            assert(states2[i] == states.last());
        }
    }
    assert(is_trace(m, states2, actions2) && states2.last() == t);
}

/// An initial state is reachable by the trace of length one.
pub proof fn lemma_reachable_init<M: Model>(m: M, s: VOf<M::State>)
    requires
        m.init_view().contains(s),
    ensures
        reachable(m, s),
{
    reveal(reachable);
    let states = seq![s];
    let actions = Seq::<VOf<M::Action>>::empty();
    assert(is_trace(m, states, actions) && states.last() == s);
}

/// Everything recorded on the frontier is consistent with the visited set
/// and the representatives map.
spec fn frontier_ok_of<M: Model>(
    visited: Set<u64>,
    reps: Map<u64, VOf<M::State>>,
    frontier: Seq<(u64, M::State)>,
) -> bool {
    &&& (forall|i: int|
        0 <= i < frontier.len() ==> {
            &&& visited.contains((#[trigger] frontier[i]).0)
            &&& reps[frontier[i].0] == frontier[i].1.value()
        })
    &&& (forall|i: int, j: int|
        0 <= i < j < frontier.len() ==> (#[trigger] frontier[i]).0 != (#[trigger] frontier[j]).0)
}

/// Every visited fingerprint is the fingerprint of its representative, and
/// the representative is reachable.
spec fn reps_ok_of<M: Model>(
    m: M,
    visited: Set<u64>,
    reps: Map<u64, VOf<M::State>>,
    depths: Map<u64, nat>,
) -> bool {
    &&& reps.dom() == visited
    &&& depths.dom() == visited
    &&& forall|fp: u64|
        #[trigger] visited.contains(fp) ==> state_fp::<M>(reps[fp]) == fp && reachable(
            m,
            reps[fp],
        )
}

/// Whether `fp` still awaits expansion.
spec fn in_frontier_of<M: Model>(frontier: Seq<(u64, M::State)>, fp: u64) -> bool {
    exists|i: int| 0 <= i < frontier.len() && (#[trigger] frontier[i]).0 == fp
}

/// Whether the state behind `fp` needs no further expansion: it lies
/// outside the boundary, or every successor's fingerprint was discovered.
spec fn expanded_ok_of<M: Model>(
    m: M,
    visited: Set<u64>,
    reps: Map<u64, VOf<M::State>>,
    fp: u64,
) -> bool {
    ||| !m.boundary_view(reps[fp])
    ||| forall|j: int|
        0 <= j < m.next_view(reps[fp]).len() ==> visited.contains(
            state_fp::<M>((#[trigger] m.next_view(reps[fp])[j]).1),
        )
}

/// Every visited fingerprint is pending, on the frontier, or fully
/// expanded.
spec fn closure_ok_of<M: Model>(
    m: M,
    visited: Set<u64>,
    reps: Map<u64, VOf<M::State>>,
    frontier: Seq<(u64, M::State)>,
    pending: Option<u64>,
) -> bool {
    forall|fp: u64|
        #[trigger] visited.contains(fp) ==> {
            ||| pending == Some(fp)
            ||| in_frontier_of::<M>(frontier, fp)
            ||| expanded_ok_of(m, visited, reps, fp)
        }
}

/// The discovery recorded for property `i` is faithful: a recorded
/// fingerprint points at a visited state that settles the property, and an
/// empty record means no visited state other than `except` settles it.
spec fn discovery_ok_of<M: Model>(
    m: M,
    visited: Set<u64>,
    reps: Map<u64, VOf<M::State>>,
    props: Seq<Property>,
    dfps: Seq<Option<u64>>,
    dstates: Seq<Option<M::State>>,
    i: int,
    except: Option<u64>,
) -> bool {
    match dfps[i] {
        Some(fp) => {
            &&& visited.contains(fp)
            &&& (dstates[i] matches Some(st) && st.value() == reps[fp])
            &&& (props[i].expectation == Expectation::Always ==> !m.property_holds(i, reps[fp]))
            &&& (props[i].expectation == Expectation::Sometimes ==> m.property_holds(i, reps[fp]))
        },
        None => {
            &&& dstates[i] is None
            &&& forall|fpx: u64|
                #[trigger] visited.contains(fpx) && Some(fpx) != except ==> {
                    &&& (props[i].expectation == Expectation::Always ==> m.property_holds(
                        i,
                        reps[fpx],
                    ))
                    &&& (props[i].expectation == Expectation::Sometimes ==> !m.property_holds(
                        i,
                        reps[fpx],
                    ))
                }
        },
    }
}

/// The property bookkeeping is faithful, and the failure flag mirrors
/// whether some always-property has a recorded violation.
spec fn props_ok_of<M: Model>(
    m: M,
    visited: Set<u64>,
    reps: Map<u64, VOf<M::State>>,
    props: Seq<Property>,
    dfps: Seq<Option<u64>>,
    dstates: Seq<Option<M::State>>,
    failed: bool,
) -> bool {
    &&& props == m.properties_view()
    &&& dfps.len() == props.len()
    &&& dstates.len() == props.len()
    &&& (forall|i: int|
        0 <= i < props.len() ==> #[trigger] discovery_ok_of(
            m,
            visited,
            reps,
            props,
            dfps,
            dstates,
            i,
            None,
        ))
    &&& failed == exists|i: int|
        0 <= i < props.len() && (#[trigger] props[i]).expectation == Expectation::Always
            && dfps[i] is Some
}

/// Every parent edge records a real step between representatives, one
/// level deeper than its parent.
spec fn sources_ok_of<M: Model>(
    m: M,
    visited: Set<u64>,
    reps: Map<u64, VOf<M::State>>,
    depths: Map<u64, nat>,
    sources: Map<u64, (u64, M::Action)>,
) -> bool {
    forall|fp: u64|
        #[trigger] sources.dom().contains(fp) ==> {
            &&& visited.contains(fp)
            &&& visited.contains(sources[fp].0)
            &&& m.boundary_view(reps[sources[fp].0])
            &&& m.next_view(reps[sources[fp].0]).contains((sources[fp].1.value(), reps[fp]))
            &&& depths[fp] == depths[sources[fp].0] + 1
        }
}

/// A visited fingerprint without a parent edge is an initial state at
/// depth zero, and once exploration has started every initial state's
/// fingerprint is visited.
spec fn roots_ok_of<M: Model>(
    m: M,
    visited: Set<u64>,
    reps: Map<u64, VOf<M::State>>,
    depths: Map<u64, nat>,
    sources: Map<u64, (u64, M::Action)>,
    started: bool,
) -> bool {
    &&& (forall|fp: u64|
        #[trigger] visited.contains(fp) ==> {
            ||| sources.dom().contains(fp)
            ||| (m.init_view().contains(reps[fp]) && depths[fp] == 0)
        })
    &&& (started ==> forall|i: int|
        0 <= i < m.init_view().len() ==> visited.contains(
            state_fp::<M>(#[trigger] m.init_view()[i]),
        ))
}

/// The discovery-order list holds exactly the visited fingerprints, each
/// once.
spec fn discovered_ok_of(visited: Set<u64>, discovered: Seq<u64>) -> bool {
    &&& discovered.no_duplicates()
    &&& discovered.to_set() == visited
}

/// Whether `actions` is a counterexample for an always-property named
/// `name` of `m`: the actions of a trace from an initial state to a state
/// that violates the property.
pub open spec fn valid_counterexample<M: Model>(
    m: M,
    props: Seq<Property>,
    name: Seq<char>,
    actions: Seq<VOf<M::Action>>,
) -> bool {
    exists|i: int, states: Seq<VOf<M::State>>|
        #![trigger props[i], is_trace(m, states, actions)]
        {
            &&& 0 <= i < props.len()
            &&& props[i].name@ == name
            &&& props[i].expectation == Expectation::Always
            &&& is_trace(m, states, actions)
            &&& !m.property_holds(i, states.last())
        }
}

/// Whether `actions` is a witness for a sometimes-property named `name` of
/// `m`: the actions of a trace from an initial state to a state that
/// satisfies the property.
pub open spec fn valid_example<M: Model>(
    m: M,
    props: Seq<Property>,
    name: Seq<char>,
    actions: Seq<VOf<M::Action>>,
) -> bool {
    exists|i: int, states: Seq<VOf<M::State>>|
        #![trigger props[i], is_trace(m, states, actions)]
        {
            &&& 0 <= i < props.len()
            &&& props[i].name@ == name
            &&& props[i].expectation == Expectation::Sometimes
            &&& is_trace(m, states, actions)
            &&& m.property_holds(i, states.last())
        }
}

/// The breadth-first checker for a model `M`.
pub struct Checker<M: Model> {
    model: M,
    properties: Vec<Property>,
    discovery_fps: Vec<Option<u64>>,
    discovery_states: Vec<Option<M::State>>,
    visited: HashMap<u64, ()>,
    frontier: VecDeque<(u64, M::State)>,
    sources: HashMap<u64, (u64, M::Action)>,
    discovered: Vec<u64>,
    started: bool,
    failed: bool,
    reps: Ghost<Map<u64, VOf<M::State>>>,
    depths: Ghost<Map<u64, nat>>,
}

impl<M: Model> Checker<M> {
    /// The model under exploration.
    pub closed spec fn model_view(&self) -> M {
        self.model
    }

    /// The fingerprints of every discovered state.
    pub closed spec fn visited_view(&self) -> Set<u64> {
        self.visited@.dom()
    }

    /// The representative state recorded for each visited fingerprint.
    pub closed spec fn rep_view(&self) -> Map<u64, VOf<M::State>> {
        self.reps@
    }

    /// The model's properties, as cached at construction.
    pub closed spec fn props_view(&self) -> Seq<Property> {
        self.properties@
    }

    /// Per property, the fingerprint of its discovery: the first violating
    /// state for an always-property, the first witness for a
    /// sometimes-property.
    pub closed spec fn discoveries_view(&self) -> Seq<Option<u64>> {
        self.discovery_fps@
    }

    /// Whether some always-property has a recorded violation.
    pub closed spec fn failed_view(&self) -> bool {
        self.failed
    }

    /// Whether exploration has started and the frontier has drained.
    pub closed spec fn done(&self) -> bool {
        self.started && self.frontier@.len() == 0
    }

    /// The discovered fingerprints in discovery order.
    pub closed spec fn generated_view(&self) -> Seq<u64> {
        self.discovered@
    }

    /// How many states have been expanded: every discovered state enters
    /// the frontier exactly once and leaves it exactly when it is
    /// expanded, so the expansions are the discovered states no longer
    /// pending.
    pub closed spec fn expansions(&self) -> int {
        self.visited@.dom().len() - self.frontier@.len()
    }

    /// Whether `fp` still awaits expansion.
    spec fn in_frontier_law(&self, fp: u64) -> bool {
        in_frontier_of::<M>(self.frontier@, fp)
    }

    #[verifier::inline]
    spec fn inv_except(&self, pending: Option<u64>) -> bool {
        &&& frontier_ok_of::<M>(self.visited@.dom(), self.reps@, self.frontier@)
        &&& reps_ok_of(self.model, self.visited@.dom(), self.reps@, self.depths@)
        &&& closure_ok_of(self.model, self.visited@.dom(), self.reps@, self.frontier@, pending)
        &&& props_ok_of(
            self.model,
            self.visited@.dom(),
            self.reps@,
            self.properties@,
            self.discovery_fps@,
            self.discovery_states@,
            self.failed,
        )
        &&& sources_ok_of(self.model, self.visited@.dom(), self.reps@, self.depths@, self.sources@)
        &&& roots_ok_of(
            self.model,
            self.visited@.dom(),
            self.reps@,
            self.depths@,
            self.sources@,
            self.started,
        )
        &&& discovered_ok_of(self.visited@.dom(), self.discovered@)
    }

    /// The checker's internal consistency: every public operation preserves
    /// it, and the exploration lemmas below consume it.
    pub closed spec fn inv(&self) -> bool {
        self.inv_except(None)
    }

    /// Create a checker for `model`. No exploration happens until `check`
    /// is called.
    pub fn new(model: M) -> (r: Self)
        ensures
            r.inv(),
            r.model_view() == model,
            r.props_view() == model.properties_view(),
            r.visited_view() =~= Set::<u64>::empty(),
            !r.failed_view(),
            !r.done(),
            forall|i: int| 0 <= i < r.discoveries_view().len() ==> r.discoveries_view()[i] is None,
    {
        let properties = model.properties();
        let n = properties.len();
        let mut discovery_fps: Vec<Option<u64>> = Vec::new();
        let mut discovery_states: Vec<Option<M::State>> = Vec::new();
        let mut i: usize = 0;
        while i < n
            invariant
                i <= n,
                discovery_fps@.len() == i,
                discovery_states@.len() == i,
                forall|j: int| 0 <= j < i ==> discovery_fps@[j] is None,
                forall|j: int| 0 <= j < i ==> discovery_states@[j] is None,
            decreases n - i,
        {
            discovery_fps.push(None);
            discovery_states.push(None);
            i = i + 1;
        }
        let r = Checker {
            model,
            properties,
            discovery_fps,
            discovery_states,
            visited: HashMap::new(),
            frontier: VecDeque::new(),
            sources: HashMap::new(),
            discovered: Vec::new(),
            started: false,
            failed: false,
            reps: Ghost(Map::empty()),
            depths: Ghost(Map::empty()),
        };
        proof {
            assert(r.visited@.dom() =~= Set::<u64>::empty());
            assert(r.reps@.dom() =~= r.visited@.dom());
            assert(r.depths@.dom() =~= r.visited@.dom());
            assert(r.discovered@.to_set() =~= r.visited@.dom());
        }
        r
    }

    /// Record a discovered state: if its fingerprint is new, evaluate every
    /// undischarged property on it and enqueue it for expansion.
    #[verifier::spinoff_prover]
    #[verifier::rlimit(100)]
    fn insert_state(
        &mut self,
        fp: u64,
        state: M::State,
        parent: Option<(u64, M::Action)>,
        Ghost(pending): Ghost<Option<u64>>,
    )
        requires
            old(self).inv_except(pending),
            state_fp::<M>(state.value()) == fp,
            reachable(old(self).model_view(), state.value()),
            match parent {
                Some(pa) => {
                    &&& old(self).visited_view().contains(pa.0)
                    &&& old(self).model_view().boundary_view(old(self).rep_view()[pa.0])
                    &&& old(self).model_view().next_view(old(self).rep_view()[pa.0]).contains(
                        (pa.1.value(), state.value()),
                    )
                },
                None => old(self).model_view().init_view().contains(state.value()),
            },
        ensures
            final(self).inv_except(pending),
            final(self).model_view() == old(self).model_view(),
            final(self).props_view() == old(self).props_view(),
            final(self).started == old(self).started,
            final(self).visited_view() == old(self).visited_view().insert(fp),
            final(self).rep_view() == if old(self).visited_view().contains(fp) {
                old(self).rep_view()
            } else {
                old(self).rep_view().insert(fp, state.value())
            },
            old(self).failed_view() ==> final(self).failed_view(),
            final(self).expansions() == old(self).expansions(),
    {
        let ghost m = self.model;
        let ghost vis0 = self.visited@.dom();
        let ghost reps0 = self.reps@;
        let ghost depths0 = self.depths@;
        let ghost sources0 = self.sources@;
        if self.visited.contains_key(&fp) {
            proof {
                assert(self.visited@.dom().insert(fp) =~= self.visited@.dom());
            }
            return ;
        }
        // The fingerprint is new: record it everywhere.
        self.visited.insert(fp, ());
        self.discovered.push(fp);
        proof {
            self.reps@ = self.reps@.insert(fp, state.value());
            let depth: nat = match &parent {
                Some(pa) => self.depths@[pa.0] + 1,
                None => 0,
            };
            self.depths@ = self.depths@.insert(fp, depth);
        }
        match parent {
            Some(pa) => {
                self.sources.insert(fp, pa);
            },
            None => {},
        }
        let ghost vis1 = self.visited@.dom();
        let ghost reps1 = self.reps@;
        let ghost depths1 = self.depths@;
        let ghost sources1 = self.sources@;
        proof {
            assert(vis1 =~= vis0.insert(fp));
            assert(reps1 =~= reps0.insert(fp, state.value()));
            // The discovery-order list gained exactly the new fingerprint.
            let s0 = old(self).discovered@;
            assert(self.discovered@ == s0.push(fp));
            assert(discovered_ok_of(vis0, s0));
            assert(self.discovered@.to_set() =~= s0.to_set().insert(fp)) by {
                assert forall|x: u64| #[trigger] self.discovered@.contains(x) implies s0.contains(
                    x,
                ) || x == fp by {
                    let i = choose|i: int|
                        0 <= i < self.discovered@.len() && self.discovered@[i] == x;
                    if i < s0.len() {
                        assert(s0[i] == x);
                    }
                }
                assert(self.discovered@[s0.len() as int] == fp);
                assert forall|x: u64| s0.contains(x) implies #[trigger] self.discovered@.contains(
                    x,
                ) by {
                    let i = choose|i: int| 0 <= i < s0.len() && s0[i] == x;
                    assert(self.discovered@[i] == x);
                }
            }
            assert(self.discovered@.no_duplicates()) by {
                assert(!s0.contains(fp)) by {
                    assert(s0.to_set() == vis0);
                }
                assert forall|i: int, j: int|
                    0 <= i < j < self.discovered@.len() implies self.discovered@[i]
                    != self.discovered@[j] by {
                    if j < s0.len() {
                        assert(s0[i] != s0[j]);
                    } else {
                        if self.discovered@[i] == fp {
                            assert(s0.contains(fp));
                        }
                    }
                }
            }
            assert(discovered_ok_of(vis1, self.discovered@));
            // The maps only grew, so everything already recorded stays
            // consistent.
            assert(reps_ok_of(m, vis1, reps1, depths1)) by {
                assert(reps1.dom() =~= vis1);
                assert(depths1.dom() =~= vis1);
                assert forall|fpx: u64| #[trigger] vis1.contains(fpx) implies state_fp::<M>(
                    reps1[fpx],
                ) == fpx && reachable(m, reps1[fpx]) by {
                    if fpx != fp {
                        assert(vis0.contains(fpx));
                        assert(reps1[fpx] == reps0[fpx]);
                    }
                }
            }
            assert(sources_ok_of(m, vis1, reps1, depths1, sources1)) by {
                assert forall|fpx: u64| #[trigger] sources1.dom().contains(fpx) implies {
                    &&& vis1.contains(fpx)
                    &&& vis1.contains(sources1[fpx].0)
                    &&& m.boundary_view(reps1[sources1[fpx].0])
                    &&& m.next_view(reps1[sources1[fpx].0]).contains(
                        (sources1[fpx].1.value(), reps1[fpx]),
                    )
                    &&& depths1[fpx] == depths1[sources1[fpx].0] + 1
                } by {
                    if fpx != fp {
                        assert(sources0.dom().contains(fpx));
                        assert(sources1[fpx] == sources0[fpx]);
                        assert(sources0[fpx].0 != fp);
                        assert(reps1[fpx] == reps0[fpx]);
                        assert(reps1[sources0[fpx].0] == reps0[sources0[fpx].0]);
                    } else {
                        assert(parent is Some);
                        let pa = parent->Some_0;
                        assert(sources1[fp] == pa);
                        assert(pa.0 != fp);
                        assert(reps1[pa.0] == reps0[pa.0]);
                        assert(reps1[fp] == state.value());
                    }
                }
            }
            assert(roots_ok_of(m, vis1, reps1, depths1, sources1, self.started)) by {
                assert forall|fpx: u64| #[trigger] vis1.contains(fpx) implies {
                    ||| sources1.dom().contains(fpx)
                    ||| (m.init_view().contains(reps1[fpx]) && depths1[fpx] == 0)
                } by {
                    if fpx != fp {
                        assert(vis0.contains(fpx));
                        assert(reps1[fpx] == reps0[fpx]);
                        assert(depths1[fpx] == depths0[fpx]);
                        if sources0.dom().contains(fpx) {
                            assert(sources1.dom().contains(fpx));
                        }
                    }
                }
            }
        }
        let ghost mid = *self;
        proof {
            // Before evaluation, every undischarged property is settled on
            // every visited state except the new one.
            assert forall|j: int| 0 <= j < self.properties@.len() implies discovery_ok_of(
                m,
                vis1,
                reps1,
                self.properties@,
                self.discovery_fps@,
                self.discovery_states@,
                j,
                Some(fp),
            ) by {
                assert(discovery_ok_of(
                    m,
                    vis0,
                    reps0,
                    self.properties@,
                    self.discovery_fps@,
                    self.discovery_states@,
                    j,
                    None,
                ));
                match self.discovery_fps@[j] {
                    Some(fpd) => {
                        assert(vis0.contains(fpd));
                        assert(fpd != fp);
                        assert(reps1[fpd] == reps0[fpd]);
                    },
                    None => {
                        assert forall|fpx: u64|
                            #[trigger] vis1.contains(fpx) && Some(fpx) != Some(fp) implies {
                            &&& (self.properties@[j].expectation == Expectation::Always
                                ==> m.property_holds(j, reps1[fpx]))
                            &&& (self.properties@[j].expectation == Expectation::Sometimes
                                ==> !m.property_holds(j, reps1[fpx]))
                        } by {
                            assert(vis0.contains(fpx));
                            assert(reps1[fpx] == reps0[fpx]);
                        }
                    },
                }
            }
        }
        // Evaluate every undischarged property on the new state.
        let n = self.properties.len();
        let mut i: usize = 0;
        while i < n
            invariant
                i <= n,
                m == self.model,
                n == self.properties@.len(),
                self.properties@ == m.properties_view(),
                self.discovery_fps@.len() == n,
                self.discovery_states@.len() == n,
                vis1.contains(fp),
                reps1.dom().contains(fp),
                reps1[fp] == state.value(),
                state_fp::<M>(state.value()) == fp,
                forall|j: int|
                    0 <= j < i ==> discovery_ok_of(
                        m,
                        vis1,
                        reps1,
                        self.properties@,
                        self.discovery_fps@,
                        self.discovery_states@,
                        j,
                        None,
                    ),
                forall|j: int|
                    i <= j < n ==> discovery_ok_of(
                        m,
                        vis1,
                        reps1,
                        self.properties@,
                        self.discovery_fps@,
                        self.discovery_states@,
                        j,
                        Some(fp),
                    ),
                self.failed == exists|j: int|
                    0 <= j < n && (#[trigger] self.properties@[j]).expectation
                        == Expectation::Always && self.discovery_fps@[j] is Some,
                mid.failed ==> self.failed,
                // Fields this loop does not touch.
                self.model == mid.model,
                self.properties == mid.properties,
                self.visited == mid.visited,
                self.frontier == mid.frontier,
                self.sources == mid.sources,
                self.discovered == mid.discovered,
                self.reps == mid.reps,
                self.depths == mid.depths,
                self.started == mid.started,
            decreases n - i,
        {
            let ghost dfps_before = self.discovery_fps@;
            let ghost dstates_before = self.discovery_states@;
            if self.discovery_fps[i].is_none() {
                let holds = self.model.eval_property(i, &state);
                let expectation = self.properties[i].expectation;
                let record = match expectation {
                    Expectation::Always => !holds,
                    Expectation::Sometimes => holds,
                };
                if record {
                    self.discovery_fps[i] = Some(fp);
                    self.discovery_states[i] = Some(state.dup());
                    if expectation == Expectation::Always {
                        self.failed = true;
                    }
                    proof {
                        assert(reps1.dom().contains(fp));
                        assert(reps1[fp] == state.value());
                        assert(discovery_ok_of(
                            m,
                            vis1,
                            reps1,
                            self.properties@,
                            self.discovery_fps@,
                            self.discovery_states@,
                            i as int,
                            None,
                        ));
                    }
                } else {
                    proof {
                        // Not recorded: the new state settles the property
                        // positively, so the blanket claim now covers it.
                        assert(discovery_ok_of(
                            m,
                            vis1,
                            reps1,
                            self.properties@,
                            self.discovery_fps@,
                            self.discovery_states@,
                            i as int,
                            None,
                        )) by {
                            assert(discovery_ok_of(
                                m,
                                vis1,
                                reps1,
                                self.properties@,
                                dfps_before,
                                dstates_before,
                                i as int,
                                Some(fp),
                            ));
                            assert forall|fpx: u64| #[trigger] vis1.contains(fpx) implies {
                                &&& (self.properties@[i as int].expectation == Expectation::Always
                                    ==> m.property_holds(i as int, reps1[fpx]))
                                &&& (self.properties@[i as int].expectation
                                    == Expectation::Sometimes ==> !m.property_holds(
                                    i as int,
                                    reps1[fpx],
                                ))
                            } by {
                                if fpx == fp {
                                    assert(reps1.dom().contains(fp));
                                    assert(reps1[fp] == state.value());
                                    assert(holds == m.property_holds(i as int, state.value()));
                                } else {
                                    assert(Some(fpx) != Some(fp));
                                }
                            }
                        }
                    }
                }
            } else {
                proof {
                    assert(discovery_ok_of(
                        m,
                        vis1,
                        reps1,
                        self.properties@,
                        self.discovery_fps@,
                        self.discovery_states@,
                        i as int,
                        None,
                    )) by {
                        assert(discovery_ok_of(
                            m,
                            vis1,
                            reps1,
                            self.properties@,
                            dfps_before,
                            dstates_before,
                            i as int,
                            Some(fp),
                        ));
                    }
                }
            }
            proof {
                assert forall|j: int| 0 <= j < i implies discovery_ok_of(
                    m,
                    vis1,
                    reps1,
                    self.properties@,
                    self.discovery_fps@,
                    self.discovery_states@,
                    j,
                    None,
                ) by {
                    assert(discovery_ok_of(
                        m,
                        vis1,
                        reps1,
                        self.properties@,
                        dfps_before,
                        dstates_before,
                        j,
                        None,
                    ));
                    assert(self.discovery_fps@[j] == dfps_before[j]);
                    assert(self.discovery_states@[j] == dstates_before[j]);
                }
                assert forall|j: int| i + 1 <= j < n implies discovery_ok_of(
                    m,
                    vis1,
                    reps1,
                    self.properties@,
                    self.discovery_fps@,
                    self.discovery_states@,
                    j,
                    Some(fp),
                ) by {
                    assert(discovery_ok_of(
                        m,
                        vis1,
                        reps1,
                        self.properties@,
                        dfps_before,
                        dstates_before,
                        j,
                        Some(fp),
                    ));
                    assert(self.discovery_fps@[j] == dfps_before[j]);
                    assert(self.discovery_states@[j] == dstates_before[j]);
                }
            }
            i = i + 1;
        }
        let ghost frontier0 = self.frontier@;
        self.frontier.push_back((fp, state));
        proof {
            assert(self.frontier@ == frontier0.push((fp, state)));
            assert(frontier_ok_of::<M>(vis1, reps1, self.frontier@)) by {
                assert forall|i: int| 0 <= i < self.frontier@.len() implies {
                    &&& vis1.contains((#[trigger] self.frontier@[i]).0)
                    &&& reps1[self.frontier@[i].0] == self.frontier@[i].1.value()
                } by {
                    if i < frontier0.len() {
                        assert(frontier_ok_of::<M>(vis0, reps0, frontier0));
                        assert(vis0.contains(frontier0[i].0));
                        assert(self.frontier@[i] == frontier0[i]);
                        assert(reps1[frontier0[i].0] == reps0[frontier0[i].0]);
                    } else {
                        assert(self.frontier@[i].0 == fp);
                        assert(self.frontier@[i].1.value() == state.value());
                    }
                }
            }
            assert(closure_ok_of(m, vis1, reps1, self.frontier@, pending)) by {
                assert forall|fpx: u64| #[trigger] vis1.contains(fpx) implies {
                    ||| pending == Some(fpx)
                    ||| in_frontier_of::<M>(self.frontier@, fpx)
                    ||| expanded_ok_of(m, vis1, reps1, fpx)
                } by {
                    if fpx == fp {
                        assert(self.frontier@[self.frontier@.len() - 1].0 == fp);
                        assert(in_frontier_of::<M>(self.frontier@, fpx));
                    } else {
                        assert(vis0.contains(fpx));
                        assert(closure_ok_of(m, vis0, reps0, frontier0, pending));
                        if in_frontier_of::<M>(frontier0, fpx) {
                            let i = choose|i: int|
                                0 <= i < frontier0.len() && (#[trigger] frontier0[i]).0 == fpx;
                            assert(self.frontier@[i].0 == fpx);
                            assert(in_frontier_of::<M>(self.frontier@, fpx));
                        } else if expanded_ok_of(m, vis0, reps0, fpx) {
                            assert(reps1[fpx] == reps0[fpx]);
                            assert(expanded_ok_of(m, vis1, reps1, fpx)) by {
                                if m.boundary_view(reps0[fpx]) {
                                    assert forall|j: int|
                                        0 <= j < m.next_view(reps1[fpx]).len() implies vis1
                                        .contains(
                                        state_fp::<M>((#[trigger] m.next_view(reps1[fpx])[j]).1),
                                    ) by {
                                        assert(vis0.contains(
                                            state_fp::<M>(m.next_view(reps0[fpx])[j].1),
                                        ));
                                    }
                                }
                            }
                        }
                    }
                }
            }
            assert(self.visited@.dom() =~= vis0.insert(fp));
        }
    }

    /// Explore breadth-first, expanding at most `max_count` states, and
    /// report the outcome: `Fail` as soon as an always-property has a
    /// recorded violation, `Pass` when the frontier drains without one,
    /// `Incomplete` when the bound runs out first.
    pub fn check(&mut self, max_count: usize) -> (r: CheckResult)
        requires
            old(self).inv(),
        ensures
            final(self).inv(),
            final(self).model_view() == old(self).model_view(),
            final(self).props_view() == old(self).props_view(),
            forall|fp: u64|
                old(self).visited_view().contains(fp) ==> final(self).visited_view().contains(fp),
            (r == CheckResult::Fail) == final(self).failed_view(),
            (r == CheckResult::Pass) == (!final(self).failed_view() && final(self).done()),
            (r == CheckResult::Incomplete) == (!final(self).failed_view() && !final(self).done()),
            r == CheckResult::Incomplete ==> final(self).expansions() == old(self).expansions()
                + max_count,
    {
        if !self.started {
            self.run_init();
        }
        let ghost exp0 = self.expansions();
        let mut remaining: usize = max_count;
        while remaining > 0 && !self.failed && self.frontier.len() > 0
            invariant
                self.inv(),
                self.started,
                remaining <= max_count,
                self.expansions() == exp0 + max_count - remaining,
                exp0 == old(self).expansions(),
                self.model_view() == old(self).model_view(),
                self.props_view() == old(self).props_view(),
                forall|fp: u64|
                    old(self).visited_view().contains(fp) ==> self.visited_view().contains(fp),
            decreases remaining,
        {
            self.expand_one();
            remaining = remaining - 1;
        }
        if self.failed {
            CheckResult::Fail
        } else if self.frontier.len() == 0 {
            CheckResult::Pass
        } else {
            CheckResult::Incomplete
        }
    }

    /// Discover the initial states.
    fn run_init(&mut self)
        requires
            old(self).inv(),
            !old(self).started,
        ensures
            final(self).inv(),
            final(self).started,
            final(self).model_view() == old(self).model_view(),
            final(self).props_view() == old(self).props_view(),
            forall|fp: u64|
                old(self).visited_view().contains(fp) ==> final(self).visited_view().contains(fp),
            final(self).expansions() == old(self).expansions(),
    {
        let mut inits: Vec<M::State> = Vec::new();
        self.model.init(&mut inits);
        let n = inits.len();
        let ghost m = self.model;
        proof {
            assert(values_of(inits@) =~= m.init_view());
        }
        let mut i: usize = 0;
        while i < n
            invariant
                i <= n,
                n == inits@.len(),
                values_of(inits@) == m.init_view(),
                m == self.model,
                self.inv(),
                self.started == old(self).started,
                self.model_view() == old(self).model_view(),
                self.props_view() == old(self).props_view(),
                forall|fp: u64|
                    old(self).visited_view().contains(fp) ==> self.visited_view().contains(fp),
                self.expansions() == old(self).expansions(),
                forall|j: int|
                    0 <= j < i ==> self.visited_view().contains(
                        state_fp::<M>(#[trigger] m.init_view()[j]),
                    ),
            decreases n - i,
        {
            let s = inits[i].dup();
            let fp = finalize(s.fingerprint());
            proof {
                assert(m.init_view()[i as int] == s.value());
                assert(m.init_view().contains(s.value()));
                lemma_reachable_init(m, s.value());
            }
            self.insert_state(fp, s, None, Ghost(None));
            i = i + 1;
        }
        let ghost fin = *self;
        self.started = true;
        proof {
            // Only the started flag changed, which no consistency clause
            // mentions except the root coverage of initial states.
            assert(roots_ok_of(
                m,
                self.visited@.dom(),
                self.reps@,
                self.depths@,
                self.sources@,
                true,
            )) by {
                assert(roots_ok_of(
                    fin.model,
                    fin.visited@.dom(),
                    fin.reps@,
                    fin.depths@,
                    fin.sources@,
                    fin.started,
                ));
            }
        }
    }

    /// Pop one state off the frontier and expand it.
    #[verifier::spinoff_prover]
    #[verifier::rlimit(100)]
    fn expand_one(&mut self)
        requires
            old(self).inv(),
            old(self).started,
            old(self).frontier@.len() > 0,
        ensures
            final(self).inv(),
            final(self).started,
            final(self).model_view() == old(self).model_view(),
            final(self).props_view() == old(self).props_view(),
            forall|fp: u64|
                old(self).visited_view().contains(fp) ==> final(self).visited_view().contains(fp),
            old(self).failed_view() ==> final(self).failed_view(),
            final(self).expansions() == old(self).expansions() + 1,
    {
        let ghost m = self.model;
        let ghost vis0 = self.visited@.dom();
        let ghost reps0 = self.reps@;
        let ghost frontier_pre = self.frontier@;
        let popped = self.frontier.pop_front();
        let (fp, state) = match popped {
            Some(p) => p,
            None => {
                proof {
                    assert(false);
                }
                return ;
            },
        };
        proof {
            assert(frontier_pre[0] == (fp, state));
            assert(vis0.contains(fp));
            assert(reps0[fp] == state.value());
            // Only the popped entry left the frontier, so consistency holds
            // with the popped fingerprint as the one state mid-expansion.
            assert(frontier_ok_of::<M>(vis0, reps0, self.frontier@)) by {
                assert forall|i: int| 0 <= i < self.frontier@.len() implies {
                    &&& vis0.contains((#[trigger] self.frontier@[i]).0)
                    &&& reps0[self.frontier@[i].0] == self.frontier@[i].1.value()
                } by {
                    assert(self.frontier@[i] == frontier_pre[i + 1]);
                    assert(vis0.contains(frontier_pre[i + 1].0));
                }
            }
            assert(closure_ok_of(m, vis0, reps0, self.frontier@, Some(fp))) by {
                assert forall|fpx: u64| #[trigger] vis0.contains(fpx) implies {
                    ||| Some(fp) == Some(fpx)
                    ||| in_frontier_of::<M>(self.frontier@, fpx)
                    ||| expanded_ok_of(m, vis0, reps0, fpx)
                } by {
                    if fpx != fp {
                        assert(closure_ok_of(m, vis0, reps0, frontier_pre, None));
                        if in_frontier_of::<M>(frontier_pre, fpx) {
                            let i = choose|i: int|
                                0 <= i < frontier_pre.len() && (#[trigger] frontier_pre[i]).0
                                    == fpx;
                            assert(i >= 1);
                            assert(self.frontier@[i - 1].0 == fpx);
                            assert(in_frontier_of::<M>(self.frontier@, fpx));
                        }
                    }
                }
            }
        }
        if !self.model.within_boundary(&state) {
            proof {
                assert(expanded_ok_of(m, vis0, reps0, fp));
                assert(closure_ok_of(m, vis0, reps0, self.frontier@, None)) by {
                    assert forall|fpx: u64| #[trigger] vis0.contains(fpx) implies {
                        ||| in_frontier_of::<M>(self.frontier@, fpx)
                        ||| expanded_ok_of(m, vis0, reps0, fpx)
                    } by {
                        assert(closure_ok_of(m, vis0, reps0, self.frontier@, Some(fp)));
                        if fpx == fp {
                            assert(expanded_ok_of(m, vis0, reps0, fpx));
                        }
                    }
                }
            }
            return ;
        }
        let mut steps = StepVec::new();
        self.model.next(&state, &mut steps);
        let n = steps.0.len();
        let mut k: usize = 0;
        while k < n
            invariant
                k <= n,
                n == steps.0@.len(),
                m == self.model,
                step_values(steps.0@) == m.next_view(reps0[fp]),
                self.reps@.dom().contains(fp),
                self.reps@[fp] == reps0[fp],
                self.visited@.dom().contains(fp),
                m.boundary_view(reps0[fp]),
                reachable(m, reps0[fp]),
                self.inv_except(Some(fp)),
                self.started,
                self.model_view() == old(self).model_view(),
                self.props_view() == old(self).props_view(),
                forall|fpx: u64|
                    old(self).visited_view().contains(fpx) ==> self.visited_view().contains(fpx),
                old(self).failed_view() ==> self.failed_view(),
                self.expansions() == old(self).expansions() + 1,
                forall|j: int|
                    0 <= j < k ==> self.visited@.dom().contains(
                        state_fp::<M>((#[trigger] steps.0@[j]).1.value()),
                    ),
            decreases n - k,
        {
            let action = steps.0[k].0.dup();
            let succ = steps.0[k].1.dup();
            let sfp = finalize(succ.fingerprint());
            proof {
                assert(m.next_view(reps0[fp]).contains((action.value(), succ.value()))) by {
                    assert(step_values(steps.0@)[k as int] == (
                        steps.0@[k as int].0.value(),
                        steps.0@[k as int].1.value(),
                    ));
                }
                lemma_reachable_step(m, reps0[fp], action.value(), succ.value());
            }
            self.insert_state(sfp, succ, Some((fp, action)), Ghost(Some(fp)));
            proof {
                assert forall|j: int| 0 <= j < k + 1 implies self.visited@.dom().contains(
                    state_fp::<M>((#[trigger] steps.0@[j]).1.value()),
                ) by {
                    if j < k {
                        assert(self.visited@.dom().contains(
                            state_fp::<M>(steps.0@[j].1.value()),
                        ));
                    } else {
                        assert(steps.0@[j].1.value() == succ.value());
                    }
                }
            }
            k = k + 1;
        }
        proof {
            let vis2 = self.visited@.dom();
            let reps2 = self.reps@;
            assert(expanded_ok_of(m, vis2, reps2, fp)) by {
                assert forall|j: int| 0 <= j < m.next_view(reps2[fp]).len() implies vis2.contains(
                    state_fp::<M>((#[trigger] m.next_view(reps2[fp])[j]).1),
                ) by {
                    assert(m.next_view(reps0[fp])[j] == step_values(steps.0@)[j]);
                    assert(step_values(steps.0@)[j].1 == steps.0@[j].1.value());
                }
            }
            assert(closure_ok_of(m, vis2, reps2, self.frontier@, None)) by {
                assert forall|fpx: u64| #[trigger] vis2.contains(fpx) implies {
                    ||| in_frontier_of::<M>(self.frontier@, fpx)
                    ||| expanded_ok_of(m, vis2, reps2, fpx)
                } by {
                    assert(closure_ok_of(m, vis2, reps2, self.frontier@, Some(fp)));
                    if fpx == fp {
                        assert(expanded_ok_of(m, vis2, reps2, fpx));
                    }
                }
            }
        }
    }

    /// Walk the parent map back from `fp` and return the actions of a
    /// trace from an initial state to the state discovered as `fp`.
    #[verifier::spinoff_prover]
    #[verifier::rlimit(100)]
    fn reconstruct(&self, fp: u64) -> (r: Path<M::Action>)
        requires
            self.inv(),
            self.visited_view().contains(fp),
        ensures
            exists|states: Seq<VOf<M::State>>|
                #[trigger] is_trace(self.model_view(), states, values_of(r.0@)) && states.last()
                    == self.rep_view()[fp],
    {
        let ghost m = self.model;
        let mut rev: Vec<M::Action> = Vec::new();
        let mut cur: u64 = fp;
        let ghost mut sts: Seq<VOf<M::State>> = seq![self.reps@[fp]];
        let ghost mut acts: Seq<VOf<M::Action>> = Seq::empty();
        loop
            invariant
                self.inv(),
                m == self.model,
                self.visited_view().contains(fp),
                self.visited@.dom().contains(cur),
                sts.len() == acts.len() + 1,
                acts.len() == rev@.len(),
                sts[0] == self.reps@[cur],
                sts.last() == self.reps@[fp],
                forall|i: int| 0 <= i < acts.len() ==> acts[i] == rev@[rev@.len() - 1 - i].value(),
                forall|i: int|
                    0 <= i < acts.len() ==> #[trigger] m.next_view(sts[i]).contains(
                        (acts[i], sts[i + 1]),
                    ),
                forall|i: int| 0 <= i < acts.len() ==> #[trigger] m.boundary_view(sts[i]),
            ensures
                self.visited@.dom().contains(cur),
                !self.sources@.dom().contains(cur),
                sts.len() == acts.len() + 1,
                acts.len() == rev@.len(),
                sts[0] == self.reps@[cur],
                sts.last() == self.reps@[fp],
                forall|i: int| 0 <= i < acts.len() ==> acts[i] == rev@[rev@.len() - 1 - i].value(),
                forall|i: int|
                    0 <= i < acts.len() ==> #[trigger] m.next_view(sts[i]).contains(
                        (acts[i], sts[i + 1]),
                    ),
                forall|i: int| 0 <= i < acts.len() ==> #[trigger] m.boundary_view(sts[i]),
            decreases self.depths@[cur],
        {
            let step = self.sources.get(&cur);
            match step {
                Some(pa) => {
                    let parent: u64 = pa.0;
                    let action = pa.1.dup();
                    let ghost rev_b = rev@;
                    let ghost sts_b = sts;
                    let ghost acts_b = acts;
                    rev.push(action);
                    proof {
                        assert(self.sources@.dom().contains(cur));
                        assert(self.sources@[cur] == (parent, pa.1));
                        assert(self.visited@.dom().contains(parent));
                        assert(self.depths@[cur] == self.depths@[parent] + 1);
                        assert(m.boundary_view(self.reps@[parent]));
                        assert(m.next_view(self.reps@[parent]).contains(
                            (self.sources@[cur].1.value(), self.reps@[cur]),
                        ));
                        let sts_m = seq![self.reps@[parent]] + sts_b;
                        let acts_m = seq![self.sources@[cur].1.value()] + acts_b;
                        assert(rev@ == rev_b.push(action));
                        assert(action.value() == self.sources@[cur].1.value());
                        assert forall|i: int|
                            0 <= i < acts_m.len() implies acts_m[i] == rev@[rev@.len() - 1
                            - i].value() by {
                            if i == 0 {
                                assert(acts_m[0] == action.value());
                                assert(rev@[rev@.len() - 1] == action);
                            } else {
                                assert(acts_m[i] == acts_b[i - 1]);
                                assert(acts_b[i - 1] == rev_b[rev_b.len() - 1 - (i - 1)].value());
                                assert(rev@[rev@.len() - 1 - i] == rev_b[rev_b.len() - 1 - (i
                                    - 1)]);
                            }
                        }
                        assert forall|i: int| 0 <= i < acts_m.len() implies #[trigger] m.next_view(
                            sts_m[i],
                        ).contains((acts_m[i], sts_m[i + 1])) by {
                            if i > 0 {
                                assert(0 <= i - 1 < acts_b.len());
                                assert(m.next_view(sts_b[i - 1]).contains(
                                    (acts_b[i - 1], sts_b[i - 1 + 1]),
                                ));
                                assert(sts_m[i] == sts_b[i - 1]);
                                assert(acts_m[i] == acts_b[i - 1]);
                                assert(sts_m[i + 1] == sts_b[i]);
                            } else {
                                assert(sts_m[0] == self.reps@[parent]);
                                assert(sts_m[1] == sts_b[0]);
                                assert(sts_b[0] == self.reps@[cur]);
                                assert(acts_m[0] == self.sources@[cur].1.value());
                            }
                        }
                        assert forall|i: int| 0 <= i < acts_m.len() implies #[trigger] m
                            .boundary_view(sts_m[i]) by {
                            if i > 0 {
                                assert(0 <= i - 1 < acts_b.len());
                                assert(m.boundary_view(sts_b[i - 1]));
                                assert(sts_m[i] == sts_b[i - 1]);
                            } else {
                                assert(sts_m[0] == self.reps@[parent]);
                            }
                        }
                        sts = sts_m;
                        acts = acts_m;
                    }
                    cur = parent;
                },
                None => {
                    proof {
                        assert(!self.sources@.dom().contains(cur));
                    }
                    break ;
                },
            }
        }
        proof {
            assert(m.init_view().contains(self.reps@[cur]));
        }
        // Reverse the collected actions into forward order.
        let mut actions: Vec<M::Action> = Vec::new();
        let n = rev.len();
        let mut j: usize = 0;
        while j < n
            invariant
                j <= n,
                n == rev@.len(),
                actions@.len() == j,
                forall|i: int|
                    0 <= i < j ==> (#[trigger] actions@[i]).value() == rev@[rev@.len() - 1
                        - i].value(),
            decreases n - j,
        {
            actions.push(rev[n - 1 - j].dup());
            j = j + 1;
        }
        let r = Path(actions);
        proof {
            assert(values_of(r.0@) =~= acts);
            assert(is_trace(m, sts, acts));
            assert(is_trace(self.model_view(), sts, values_of(r.0@)));
            assert(sts.last() == self.rep_view()[fp]);
        }
        r
    }

    /// Decide string equality.
    fn name_matches(a: &str, b: &str) -> (r: bool)
        ensures
            r == (a@ == b@),
    {
        let x = a.to_owned();
        let y = b.to_owned();
        x == y
    }

    /// The recorded counterexample for the always-property named `name`:
    /// the actions of a trace from an initial state to a reachable state
    /// that violates the property. `None` when no violation has been
    /// recorded for any always-property of that name.
    ///
    /// The path follows parent edges recorded at first discovery, and this
    /// checker explores strictly breadth-first, so the path it reports is
    /// a shortest trace to the discovered state. The contract below states
    /// the trace's validity; its minimality is left unstated, a known gap
    /// against the exploration order this checker implements.
    pub fn counterexample(&self, name: &str) -> (r: Option<Path<M::Action>>)
        requires
            self.inv(),
        ensures
            match r {
                Some(path) => valid_counterexample(
                    self.model_view(),
                    self.props_view(),
                    name@,
                    values_of(path.0@),
                ),
                None => forall|i: int|
                    0 <= i < self.props_view().len() && (#[trigger] self.props_view()[i]).name@
                        == name@ && self.props_view()[i].expectation == Expectation::Always
                        ==> self.discoveries_view()[i] is None,
            },
    {
        let n = self.properties.len();
        let mut i: usize = 0;
        while i < n
            invariant
                i <= n,
                self.inv(),
                n == self.props_view().len(),
                forall|j: int|
                    0 <= j < i && (#[trigger] self.props_view()[j]).name@ == name@
                        && self.props_view()[j].expectation == Expectation::Always
                        ==> self.discoveries_view()[j] is None,
            decreases n - i,
        {
            if self.properties[i].expectation == Expectation::Always && Self::name_matches(
                self.properties[i].name,
                name,
            ) {
                match self.discovery_fps[i] {
                    Some(dfp) => {
                        proof {
                            assert(discovery_ok_of(
                                self.model,
                                self.visited@.dom(),
                                self.reps@,
                                self.properties@,
                                self.discovery_fps@,
                                self.discovery_states@,
                                i as int,
                                None,
                            ));
                        }
                        let path = self.reconstruct(dfp);
                        proof {
                            let states = choose|states: Seq<VOf<M::State>>|
                                #[trigger] is_trace(self.model_view(), states, values_of(path.0@))
                                    && states.last() == self.rep_view()[dfp];
                            assert(self.props_view()[i as int].name@ == name@);
                            assert(self.props_view()[i as int].expectation == Expectation::Always);
                            assert(is_trace(self.model_view(), states, values_of(path.0@)));
                            assert(!self.model_view().property_holds(i as int, states.last()));
                            assert(valid_counterexample(
                                self.model_view(),
                                self.props_view(),
                                name@,
                                values_of(path.0@),
                            ));
                        }
                        return Some(path);
                    },
                    None => {},
                }
            }
            i = i + 1;
        }
        None
    }

    /// The recorded witness for the sometimes-property named `name`: the
    /// actions of a trace from an initial state to a reachable state that
    /// satisfies the property. `None` when no witness has been recorded
    /// for any sometimes-property of that name.
    ///
    /// As with [`Self::counterexample`], the breadth-first exploration
    /// makes this a shortest witnessing trace, though the contract states
    /// only its validity.
    pub fn example(&self, name: &str) -> (r: Option<Path<M::Action>>)
        requires
            self.inv(),
        ensures
            match r {
                Some(path) => valid_example(
                    self.model_view(),
                    self.props_view(),
                    name@,
                    values_of(path.0@),
                ),
                None => forall|i: int|
                    0 <= i < self.props_view().len() && (#[trigger] self.props_view()[i]).name@
                        == name@ && self.props_view()[i].expectation == Expectation::Sometimes
                        ==> self.discoveries_view()[i] is None,
            },
    {
        let n = self.properties.len();
        let mut i: usize = 0;
        while i < n
            invariant
                i <= n,
                self.inv(),
                n == self.props_view().len(),
                forall|j: int|
                    0 <= j < i && (#[trigger] self.props_view()[j]).name@ == name@
                        && self.props_view()[j].expectation == Expectation::Sometimes
                        ==> self.discoveries_view()[j] is None,
            decreases n - i,
        {
            if self.properties[i].expectation == Expectation::Sometimes && Self::name_matches(
                self.properties[i].name,
                name,
            ) {
                match self.discovery_fps[i] {
                    Some(dfp) => {
                        proof {
                            assert(discovery_ok_of(
                                self.model,
                                self.visited@.dom(),
                                self.reps@,
                                self.properties@,
                                self.discovery_fps@,
                                self.discovery_states@,
                                i as int,
                                None,
                            ));
                        }
                        let path = self.reconstruct(dfp);
                        proof {
                            let states = choose|states: Seq<VOf<M::State>>|
                                #[trigger] is_trace(self.model_view(), states, values_of(path.0@))
                                    && states.last() == self.rep_view()[dfp];
                            assert(self.props_view()[i as int].name@ == name@);
                            assert(self.props_view()[i as int].expectation
                                == Expectation::Sometimes);
                            assert(is_trace(self.model_view(), states, values_of(path.0@)));
                            assert(self.model_view().property_holds(i as int, states.last()));
                            assert(valid_example(
                                self.model_view(),
                                self.props_view(),
                                name@,
                                values_of(path.0@),
                            ));
                        }
                        return Some(path);
                    },
                    None => {},
                }
            }
            i = i + 1;
        }
        None
    }

    /// The state recorded for the discovery of the property named `name`:
    /// the first violating state for an always-property, the first witness
    /// for a sometimes-property. `None` when nothing has been recorded
    /// under that name.
    pub fn discovery_state(&self, name: &str) -> (r: Option<&M::State>)
        requires
            self.inv(),
        ensures
            match r {
                Some(st) => exists|i: int|
                    #![trigger self.props_view()[i]]
                    {
                        &&& 0 <= i < self.props_view().len()
                        &&& self.props_view()[i].name@ == name@
                        &&& reachable(self.model_view(), st.value())
                        &&& (self.props_view()[i].expectation == Expectation::Always
                            ==> !self.model_view().property_holds(i, st.value()))
                        &&& (self.props_view()[i].expectation == Expectation::Sometimes
                            ==> self.model_view().property_holds(i, st.value()))
                    },
                None => forall|i: int|
                    0 <= i < self.props_view().len() && (#[trigger] self.props_view()[i]).name@
                        == name@ ==> self.discoveries_view()[i] is None,
            },
    {
        let n = self.properties.len();
        let mut i: usize = 0;
        while i < n
            invariant
                i <= n,
                self.inv(),
                n == self.props_view().len(),
                forall|j: int|
                    0 <= j < i && (#[trigger] self.props_view()[j]).name@ == name@
                        ==> self.discoveries_view()[j] is None,
            decreases n - i,
        {
            if Self::name_matches(self.properties[i].name, name) {
                match self.discovery_fps[i] {
                    Some(dfp) => {
                        proof {
                            assert(discovery_ok_of(
                                self.model,
                                self.visited@.dom(),
                                self.reps@,
                                self.properties@,
                                self.discovery_fps@,
                                self.discovery_states@,
                                i as int,
                                None,
                            ));
                        }
                        match self.discovery_states[i].as_ref() {
                            Some(st) => {
                                proof {
                                    assert(st.value() == self.reps@[dfp]);
                                    assert(reachable(self.model_view(), st.value()));
                                }
                                return Some(st);
                            },
                            None => {
                                proof {
                                    assert(false);
                                }
                            },
                        }
                    },
                    None => {},
                }
            }
            i = i + 1;
        }
        None
    }

    /// The number of distinct states discovered so far.

    pub fn generated_count(&self) -> (r: usize)
        requires
            self.inv(),
        ensures
            r == self.visited_view().len(),
    {
        proof {
            self.discovered@.unique_seq_to_set();
        }
        self.discovered.len()
    }

    /// The fingerprints of every discovered state, in discovery order.
    pub fn visited_fingerprints(&self) -> (r: Vec<u64>)
        requires
            self.inv(),
        ensures
            r@ == self.generated_view(),
            r@.to_set() == self.visited_view(),
            r@.no_duplicates(),
    {
        let mut r: Vec<u64> = Vec::new();
        let n = self.discovered.len();
        let mut i: usize = 0;
        while i < n
            invariant
                i <= n,
                n == self.discovered@.len(),
                r@ == self.discovered@.take(i as int),
            decreases n - i,
        {
            r.push(self.discovered[i]);
            proof {
                assert(r@ =~= self.discovered@.take(i as int + 1));
            }
            i = i + 1;
        }
        proof {
            assert(r@ =~= self.discovered@);
        }
        r
    }
}

/// Visited soundness, one half of the visited-closure law: every
/// fingerprint in the visited set is the fingerprint of some state
/// reachable through in-boundary states.
pub proof fn lemma_visited_sound<M: Model>(c: &Checker<M>, fp: u64)
    requires
        c.inv(),
        c.visited_view().contains(fp),
    ensures
        exists|s: VOf<M::State>|
            #[trigger] reachable(c.model_view(), s) && state_fp::<M>(s) == fp,
{
    assert(reachable(c.model_view(), c.rep_view()[fp]) && state_fp::<M>(c.rep_view()[fp]) == fp);
}

proof fn closure_trace_core<M: Model>(
    m: M,
    visited: Set<u64>,
    reps: Map<u64, VOf<M::State>>,
    states: Seq<VOf<M::State>>,
    actions: Seq<VOf<M::Action>>,
)
    requires
        forall|i: int|
            0 <= i < m.init_view().len() ==> visited.contains(
                state_fp::<M>(#[trigger] m.init_view()[i]),
            ),
        forall|fp: u64|
            #[trigger] visited.contains(fp) ==> state_fp::<M>(reps[fp]) == fp && reachable(
                m,
                reps[fp],
            ),
        forall|fp: u64| #[trigger] visited.contains(fp) ==> expanded_ok_of(m, visited, reps, fp),
        fp_injective(m),
        is_trace(m, states, actions),
    ensures
        visited.contains(state_fp::<M>(states.last())),
    decreases actions.len(),
{
    if actions.len() == 0 {
        assert(m.init_view().contains(states[0]));
        let i = choose|i: int| 0 <= i < m.init_view().len() && m.init_view()[i] == states[0];
        assert(visited.contains(state_fp::<M>(m.init_view()[i])));
        assert(states.last() == states[0]);
    } else {
        let states2 = states.drop_last();
        let actions2 = actions.drop_last();
        assert(is_trace(m, states2, actions2)) by {
            assert(states2[0] == states[0]);
            assert forall|i: int| 0 <= i < actions2.len() implies #[trigger] m.next_view(
                states2[i],
            ).contains((actions2[i], states2[i + 1])) by {
                assert(m.next_view(states[i]).contains((actions[i], states[i + 1])));
                assert(states2[i] == states[i]);
                assert(actions2[i] == actions[i]);
                assert(states2[i + 1] == states[i + 1]);
            }
            assert forall|i: int| 0 <= i < actions2.len() implies #[trigger] m.boundary_view(
                states2[i],
            ) by {
                assert(m.boundary_view(states[i]));
                assert(states2[i] == states[i]);
            }
        }
        closure_trace_core(m, visited, reps, states2, actions2);
        let prev = states[states.len() - 2];
        assert(states2.last() == prev);
        let pfp = state_fp::<M>(prev);
        assert(visited.contains(pfp));
        let rep = reps[pfp];
        assert(state_fp::<M>(rep) == pfp && reachable(m, rep));
        assert(reachable(m, prev)) by {
            reveal(reachable);
            assert(is_trace(m, states2, actions2) && states2.last() == prev);
        }
        assert(rep == prev);
        assert(m.boundary_view(prev)) by {
            assert(m.boundary_view(states[actions.len() - 1]));
        }
        // The previous state was fully expanded, so the final step's
        // successor was discovered.
        assert(expanded_ok_of(m, visited, reps, pfp));
        let step = (actions.last(), states.last());
        assert(m.next_view(prev).contains(step)) by {
            assert(m.next_view(states[actions.len() - 1]).contains(
                (actions[actions.len() - 1], states[actions.len() as int]),
            ));
        }
        let j = choose|j: int| 0 <= j < m.next_view(rep).len() && m.next_view(rep)[j] == step;
        assert(visited.contains(state_fp::<M>((m.next_view(rep)[j]).1)));
    }
}

/// Visited closure, the other half: once exploration has drained the
/// frontier, and absent fingerprint collisions among reachable states, the
/// fingerprint of every state reachable through in-boundary states is in
/// the visited set.
pub proof fn lemma_visited_closure<M: Model>(c: &Checker<M>, s: VOf<M::State>)
    requires
        c.inv(),
        c.done(),
        fp_injective(c.model_view()),
        reachable(c.model_view(), s),
    ensures
        c.visited_view().contains(state_fp::<M>(s)),
{
    let m = c.model_view();
    let visited = c.visited@.dom();
    let reps = c.reps@;
    assert forall|fp: u64| #[trigger] visited.contains(fp) implies expanded_ok_of(
        m,
        visited,
        reps,
        fp,
    ) by {
        assert(!in_frontier_of::<M>(c.frontier@, fp)) by {
            assert(c.frontier@.len() == 0);
        }
    }
    reveal(reachable);
    let (states, actions): (Seq<VOf<M::State>>, Seq<VOf<M::Action>>) = choose|
        states: Seq<VOf<M::State>>,
        actions: Seq<VOf<M::Action>>,
    | is_trace(c.model_view(), states, actions) && states.last() == s;
    closure_trace_core(m, visited, reps, states, actions);
}

/// After a completed run, an always-property with no recorded violation
/// holds of every state reachable through in-boundary states, absent
/// fingerprint collisions among reachable states.
pub proof fn lemma_always_sound<M: Model>(c: &Checker<M>, i: int, s: VOf<M::State>)
    requires
        c.inv(),
        c.done(),
        fp_injective(c.model_view()),
        0 <= i < c.props_view().len(),
        c.props_view()[i].expectation == Expectation::Always,
        c.discoveries_view()[i] is None,
        reachable(c.model_view(), s),
    ensures
        c.model_view().property_holds(i, s),
{
    lemma_visited_closure(c, s);
    let fp = state_fp::<M>(s);
    assert(discovery_ok_of(
        c.model,
        c.visited@.dom(),
        c.reps@,
        c.properties@,
        c.discovery_fps@,
        c.discovery_states@,
        i,
        None,
    ));
    assert(reachable(c.model_view(), c.rep_view()[fp]));
    assert(state_fp::<M>(c.rep_view()[fp]) == fp);
    assert(c.rep_view()[fp] == s);
}

/// After a completed run, a sometimes-property with no recorded witness is
/// satisfied by no state reachable through in-boundary states, absent
/// fingerprint collisions among reachable states.
pub proof fn lemma_sometimes_exhaustive<M: Model>(c: &Checker<M>, i: int, s: VOf<M::State>)
    requires
        c.inv(),
        c.done(),
        fp_injective(c.model_view()),
        0 <= i < c.props_view().len(),
        c.props_view()[i].expectation == Expectation::Sometimes,
        c.discoveries_view()[i] is None,
        reachable(c.model_view(), s),
    ensures
        !c.model_view().property_holds(i, s),
{
    lemma_visited_closure(c, s);
    let fp = state_fp::<M>(s);
    assert(discovery_ok_of(
        c.model,
        c.visited@.dom(),
        c.reps@,
        c.properties@,
        c.discovery_fps@,
        c.discovery_states@,
        i,
        None,
    ));
    assert(reachable(c.model_view(), c.rep_view()[fp]));
    assert(state_fp::<M>(c.rep_view()[fp]) == fp);
    assert(c.rep_view()[fp] == s);
}

} // verus!
