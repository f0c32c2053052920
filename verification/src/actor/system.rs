//! Lifting a system of actors plus a network model to a checkable state
//! machine.
//!
//! The lifted state is a snapshot of every actor's state, the network, and
//! the pending timers. The network is a set of envelopes, kept as a
//! duplicate-free vector: a lossy network may drop any envelope, and a
//! duplicating network delivers without consuming, which keeps the state
//! space finite for finite actor state and message alphabets. Envelopes
//! addressed outside the actor list are never delivered. Successors are
//! emitted in a fixed order - envelopes in network order, per envelope
//! first deliver then drop, then timeouts by actor identifier - so
//! exploration is reproducible.

use vstd::prelude::*;
use crate::actor::{
    command_values, option_value, Actor, ActorOutput, ActorOutputVec, Envelope, Id, Out,
};
use crate::checker::{Model, Property, StepVec};
use crate::fingerprint::{
    dup_vec, eq_vec, fingerprint_fold, fingerprint_sum, fp_fold, fp_mix, fp_sum, mix, values_of,
    ModelValue, VOf, FP_SEED,
};

verus! {

/// Whether the network may drop an envelope instead of delivering it.
#[derive(Clone, Copy, PartialEq, Eq, Structural, Debug)]
pub enum LossyNetwork {
    Yes,
    No,
}

/// Whether delivering an envelope leaves a copy in the network.
#[derive(Clone, Copy, PartialEq, Eq, Structural, Debug)]
pub enum DuplicatingNetwork {
    Yes,
    No,
}

/// The message type of an actor.
pub type MsgOf<A> = <A as Actor>::Msg;

/// The state type of an actor.
pub type StateOf<A> = <A as Actor>::State;

/// A snapshot in time of the entire actor system: one state per actor, the
/// network, and which actors have a pending timer.
#[derive(PartialEq, Eq, Hash, Debug)]
pub struct ActorSystemSnapshot<Msg, State> {
    pub actor_states: Vec<State>,
    pub network: Vec<Envelope<Msg>>,
    pub timers: Vec<bool>,
}

/// The snapshot type of a system of actors of type `A`.
pub type SystemState<A> = ActorSystemSnapshot<MsgOf<A>, StateOf<A>>;

/// The abstract value of a snapshot.
#[verifier::ext_equal]
pub ghost struct SnapshotView<MsgV, StateV> {
    pub actor_states: Seq<StateV>,
    pub network: Seq<Envelope<MsgV>>,
    pub timers: Seq<bool>,
}

impl<Msg: ModelValue, State: ModelValue> ModelValue for ActorSystemSnapshot<Msg, State> {
    type V = SnapshotView<VOf<Msg>, VOf<State>>;

    open spec fn value(&self) -> SnapshotView<VOf<Msg>, VOf<State>> {
        SnapshotView {
            actor_states: values_of(self.actor_states@),
            network: values_of(self.network@),
            timers: self.timers@,
        }
    }

    open spec fn fp_of(v: SnapshotView<VOf<Msg>, VOf<State>>) -> u64 {
        fp_mix(
            fp_mix(fp_fold::<State>(FP_SEED, v.actor_states), fp_sum::<Envelope<Msg>>(v.network)),
            fp_fold::<bool>(FP_SEED, v.timers),
        )
    }

    fn fingerprint(&self) -> (r: u64) {
        proof {
            assert(values_of(self.timers@) =~= self.timers@);
        }
        mix(
            mix(
                fingerprint_fold(FP_SEED, &self.actor_states),
                fingerprint_sum(&self.network),
            ),
            fingerprint_fold(FP_SEED, &self.timers),
        )
    }

    fn dup(&self) -> (r: Self) {
        let r = ActorSystemSnapshot {
            actor_states: dup_vec(&self.actor_states),
            network: dup_vec(&self.network),
            timers: copy_timers(&self.timers),
        };
        proof {
            assert(r.value() =~= self.value());
        }
        r
    }

    fn eq_val(&self, other: &Self) -> (r: bool) {
        let r = eq_vec(&self.actor_states, &other.actor_states) && eq_vec(
            &self.network,
            &other.network,
        ) && eq_timers(&self.timers, &other.timers);
        proof {
            if r {
                assert(self.value() =~= other.value());
            }
        }
        r
    }
}

/// One transition of the lifted system.
#[derive(Clone, Hash, PartialEq, Eq, Debug)]
pub enum SystemAction<Msg> {
    /// Deliver the enveloped message to its destination.
    Deliver { src: Id, dst: Id, msg: Msg },
    /// The lossy network drops the envelope.
    Drop(Envelope<Msg>),
    /// The actor's pending timer fires.
    Timeout(Id),
}

impl<Msg: ModelValue> ModelValue for SystemAction<Msg> {
    type V = SystemAction<VOf<Msg>>;

    open spec fn value(&self) -> SystemAction<VOf<Msg>> {
        match *self {
            SystemAction::Deliver { src, dst, msg } => SystemAction::Deliver {
                src,
                dst,
                msg: msg.value(),
            },
            SystemAction::Drop(e) => SystemAction::Drop(e.value()),
            SystemAction::Timeout(id) => SystemAction::Timeout(id),
        }
    }

    open spec fn fp_of(v: SystemAction<VOf<Msg>>) -> u64 {
        match v {
            SystemAction::Deliver { src, dst, msg } => fp_mix(
                fp_mix(fp_mix(fp_mix(FP_SEED, 1u64), src.0), dst.0),
                Msg::fp_of(msg),
            ),
            SystemAction::Drop(e) => fp_mix(fp_mix(FP_SEED, 2u64), Envelope::<Msg>::fp_of(e)),
            SystemAction::Timeout(id) => fp_mix(fp_mix(FP_SEED, 3u64), id.0),
        }
    }

    fn fingerprint(&self) -> (r: u64) {
        match self {
            SystemAction::Deliver { src, dst, msg } => mix(
                mix(mix(mix(FP_SEED, 1u64), src.0), dst.0),
                msg.fingerprint(),
            ),
            SystemAction::Drop(e) => mix(mix(FP_SEED, 2u64), e.fingerprint()),
            SystemAction::Timeout(id) => mix(mix(FP_SEED, 3u64), id.0),
        }
    }

    fn dup(&self) -> (r: Self) {
        match self {
            SystemAction::Deliver { src, dst, msg } => SystemAction::Deliver {
                src: *src,
                dst: *dst,
                msg: msg.dup(),
            },
            SystemAction::Drop(e) => SystemAction::Drop(e.dup()),
            SystemAction::Timeout(id) => SystemAction::Timeout(*id),
        }
    }

    fn eq_val(&self, other: &Self) -> (r: bool) {
        match (self, other) {
            (
                SystemAction::Deliver { src: s1, dst: d1, msg: m1 },
                SystemAction::Deliver { src: s2, dst: d2, msg: m2 },
            ) => *s1 == *s2 && *d1 == *d2 && m1.eq_val(m2),
            (SystemAction::Drop(e1), SystemAction::Drop(e2)) => e1.eq_val(e2),
            (SystemAction::Timeout(i1), SystemAction::Timeout(i2)) => *i1 == *i2,
            _ => false,
        }
    }
}

/// Whether the network set holds `e`.
pub open spec fn net_contains<MsgV>(net: Seq<Envelope<MsgV>>, e: Envelope<MsgV>) -> bool {
    net.contains(e)
}

/// The digest an envelope is ordered by in the network vector.
pub open spec fn env_fp<Msg: ModelValue>(e: Envelope<VOf<Msg>>) -> u64 {
    Envelope::<Msg>::fp_of(e)
}

/// The network with `e` placed before the first envelope of greater
/// digest.
pub open spec fn net_place<Msg: ModelValue>(
    net: Seq<Envelope<VOf<Msg>>>,
    e: Envelope<VOf<Msg>>,
) -> Seq<Envelope<VOf<Msg>>>
    decreases net.len(),
{
    if net.len() <= 0 {
        seq![e]
    } else if env_fp::<Msg>(net[0]) > env_fp::<Msg>(e) {
        seq![e] + net
    } else {
        seq![net[0]] + net_place::<Msg>(net.drop_first(), e)
    }
}

/// The network set with `e` added: unchanged when already present,
/// otherwise inserted in digest order. Keeping the vector ordered by
/// digest gives one set of envelopes one representation (up to digest
/// collisions, the checker's accepted concession), so states that are
/// equal as sets are equal as abstract values.
pub open spec fn net_insert<Msg: ModelValue>(
    net: Seq<Envelope<VOf<Msg>>>,
    e: Envelope<VOf<Msg>>,
) -> Seq<Envelope<VOf<Msg>>> {
    if net.contains(e) {
        net
    } else {
        net_place::<Msg>(net, e)
    }
}

/// The network set with the first occurrence of `e` removed.
pub open spec fn net_remove<MsgV>(net: Seq<Envelope<MsgV>>, e: Envelope<MsgV>) -> Seq<
    Envelope<MsgV>,
>
    decreases net.len(),
{
    if net.len() <= 0 {
        net
    } else if net[0] == e {
        net.drop_first()
    } else {
        seq![net[0]] + net_remove(net.drop_first(), e)
    }
}

/// Whether the network vector is in digest order: the canonical form
/// every network the lifted system builds is kept in.
pub open spec fn net_sorted<Msg: ModelValue>(net: Seq<Envelope<VOf<Msg>>>) -> bool {
    forall|i: int, j: int|
        0 <= i < j < net.len() ==> env_fp::<Msg>(#[trigger] net[i]) <= env_fp::<Msg>(
            #[trigger] net[j],
        )
}

/// Placement keeps digest order.
proof fn lemma_net_place_sorted<Msg: ModelValue>(
    net: Seq<Envelope<VOf<Msg>>>,
    e: Envelope<VOf<Msg>>,
)
    requires
        net_sorted::<Msg>(net),
    ensures
        net_sorted::<Msg>(net_place::<Msg>(net, e)),
    decreases net.len(),
{
    if net.len() > 0 && !(env_fp::<Msg>(net[0]) > env_fp::<Msg>(e)) {
        assert(net_sorted::<Msg>(net.drop_first())) by {
            assert forall|i: int, j: int|
                0 <= i < j < net.drop_first().len() implies env_fp::<Msg>(
                #[trigger] net.drop_first()[i],
            ) <= env_fp::<Msg>(#[trigger] net.drop_first()[j]) by {
                assert(net.drop_first()[i] == net[i + 1]);
                assert(net.drop_first()[j] == net[j + 1]);
            }
        }
        lemma_net_place_sorted::<Msg>(net.drop_first(), e);
        let placed = seq![net[0]] + net_place::<Msg>(net.drop_first(), e);
        assert forall|i: int, j: int| 0 <= i < j < placed.len() implies env_fp::<Msg>(
            #[trigger] placed[i],
        ) <= env_fp::<Msg>(#[trigger] placed[j]) by {
            if i == 0 {
                // The head's digest is not above e's, nor above any entry
                // of the sorted tail, so it stays least.
                lemma_net_place_element::<Msg>(net.drop_first(), e, j - 1);
            } else {
                assert(placed[i] == net_place::<Msg>(net.drop_first(), e)[i - 1]);
                assert(placed[j] == net_place::<Msg>(net.drop_first(), e)[j - 1]);
            }
        }
    }
}

/// Every entry of a placement is either `e` or an entry of the original.
proof fn lemma_net_place_element<Msg: ModelValue>(
    net: Seq<Envelope<VOf<Msg>>>,
    e: Envelope<VOf<Msg>>,
    k: int,
)
    requires
        0 <= k < net_place::<Msg>(net, e).len(),
    ensures
        net_place::<Msg>(net, e)[k] == e || net.contains(net_place::<Msg>(net, e)[k]),
    decreases net.len(),
{
    if net.len() > 0 && !(env_fp::<Msg>(net[0]) > env_fp::<Msg>(e)) {
        if k > 0 {
            lemma_net_place_element::<Msg>(net.drop_first(), e, k - 1);
            if net.drop_first().contains(net_place::<Msg>(net.drop_first(), e)[k - 1]) {
                let w = choose|w: int|
                    0 <= w < net.drop_first().len() && net.drop_first()[w] == net_place::<Msg>(
                        net.drop_first(),
                        e,
                    )[k - 1];
                assert(net[w + 1] == net_place::<Msg>(net, e)[k]);
            }
        } else {
            assert(net[0] == net_place::<Msg>(net, e)[0]);
        }
    }
}

/// Inserting into a digest-ordered network keeps it digest-ordered, so a
/// set of envelopes has one network representation, up to digest
/// collisions.
pub proof fn lemma_net_insert_sorted<Msg: ModelValue>(
    net: Seq<Envelope<VOf<Msg>>>,
    e: Envelope<VOf<Msg>>,
)
    requires
        net_sorted::<Msg>(net),
    ensures
        net_sorted::<Msg>(net_insert::<Msg>(net, e)),
{
    if !net.contains(e) {
        lemma_net_place_sorted::<Msg>(net, e);
    }
}

/// Removing from a digest-ordered network keeps it digest-ordered.
pub proof fn lemma_net_remove_sorted<Msg: ModelValue>(
    net: Seq<Envelope<VOf<Msg>>>,
    e: Envelope<VOf<Msg>>,
)
    requires
        net_sorted::<Msg>(net),
    ensures
        net_sorted::<Msg>(net_remove(net, e)),
    decreases net.len(),
{
    if net.len() > 0 && net[0] != e {
        assert(net_sorted::<Msg>(net.drop_first())) by {
            assert forall|i: int, j: int|
                0 <= i < j < net.drop_first().len() implies env_fp::<Msg>(
                #[trigger] net.drop_first()[i],
            ) <= env_fp::<Msg>(#[trigger] net.drop_first()[j]) by {
                assert(net.drop_first()[i] == net[i + 1]);
                assert(net.drop_first()[j] == net[j + 1]);
            }
        }
        lemma_net_remove_sorted::<Msg>(net.drop_first(), e);
        let removed = seq![net[0]] + net_remove(net.drop_first(), e);
        assert forall|i: int, j: int| 0 <= i < j < removed.len() implies env_fp::<Msg>(
            #[trigger] removed[i],
        ) <= env_fp::<Msg>(#[trigger] removed[j]) by {
            if i == 0 {
                lemma_net_remove_element(net.drop_first(), e, j - 1);
                let w = choose|w: int|
                    0 <= w < net.drop_first().len() && net.drop_first()[w] == net_remove(
                        net.drop_first(),
                        e,
                    )[j - 1];
                assert(net[w + 1] == removed[j]);
            } else {
                assert(removed[i] == net_remove(net.drop_first(), e)[i - 1]);
                assert(removed[j] == net_remove(net.drop_first(), e)[j - 1]);
            }
        }
    } else if net.len() > 0 {
        assert forall|i: int, j: int|
            0 <= i < j < net.drop_first().len() implies env_fp::<Msg>(
            #[trigger] net.drop_first()[i],
        ) <= env_fp::<Msg>(#[trigger] net.drop_first()[j]) by {
            assert(net.drop_first()[i] == net[i + 1]);
            assert(net.drop_first()[j] == net[j + 1]);
        }
    }
}

/// Every entry of a removal is an entry of the original.
proof fn lemma_net_remove_element<MsgV>(net: Seq<Envelope<MsgV>>, e: Envelope<MsgV>, k: int)
    requires
        0 <= k < net_remove(net, e).len(),
    ensures
        net.contains(net_remove(net, e)[k]),
    decreases net.len(),
{
    if net.len() > 0 {
        if net[0] == e {
            assert(net_remove(net, e)[k] == net[k + 1]);
        } else if k > 0 {
            lemma_net_remove_element(net.drop_first(), e, k - 1);
            let w = choose|w: int|
                0 <= w < net.drop_first().len() && net.drop_first()[w] == net_remove(
                    net.drop_first(),
                    e,
                )[k - 1];
            assert(net[w + 1] == net_remove(net, e)[k]);
        } else {
            assert(net[0] == net_remove(net, e)[0]);
        }
    }
}

/// The timer flags with actor `id`'s flag set to `val`; out-of-range
/// identifiers change nothing.
pub open spec fn timers_set(timers: Seq<bool>, id: Id, val: bool) -> Seq<bool> {
    if id.0 < timers.len() {
        timers.update(id.0 as int, val)
    } else {
        timers
    }
}

/// The network and timers after actor `src`'s command list is applied in
/// order: sends insert envelopes, timer commands flip `src`'s flag.
pub open spec fn apply_commands<Msg: ModelValue>(
    src: Id,
    cmds: Seq<ActorOutput<VOf<Msg>>>,
    net: Seq<Envelope<VOf<Msg>>>,
    timers: Seq<bool>,
) -> (Seq<Envelope<VOf<Msg>>>, Seq<bool>)
    decreases cmds.len(),
{
    if cmds.len() <= 0 {
        (net, timers)
    } else {
        match cmds[0] {
            ActorOutput::Send { dst, msg } => apply_commands::<Msg>(
                src,
                cmds.drop_first(),
                net_insert::<Msg>(net, Envelope { src, dst, msg }),
                timers,
            ),
            ActorOutput::SetTimer { range } => apply_commands::<Msg>(
                src,
                cmds.drop_first(),
                net,
                timers_set(timers, src, true),
            ),
            ActorOutput::CancelTimer => apply_commands::<Msg>(
                src,
                cmds.drop_first(),
                net,
                timers_set(timers, src, false),
            ),
        }
    }
}

/// Decide whether the network vector holds an envelope with `e`'s value.
fn net_contains_exec<Msg: ModelValue>(net: &Vec<Envelope<Msg>>, e: &Envelope<Msg>) -> (r: bool)
    ensures
        r == net_contains(values_of(net@), e.value()),
{
    let mut i: usize = 0;
    while i < net.len()
        invariant
            i <= net.len(),
            forall|j: int| 0 <= j < i ==> values_of(net@)[j] != e.value(),
        decreases net.len() - i,
    {
        if net[i].eq_val(e) {
            proof {
                assert(values_of(net@)[i as int] == e.value());
            }
            return true;
        }
        i = i + 1;
    }
    proof {
        if net_contains(values_of(net@), e.value()) {
            let j = choose|j: int|
                0 <= j < values_of(net@).len() && values_of(net@)[j] == e.value();
            assert(false);
        }
    }
    false
}

/// Add `e` to the network vector in digest order, unless an equal
/// envelope is present.
fn net_insert_exec<Msg: ModelValue>(net: &mut Vec<Envelope<Msg>>, e: Envelope<Msg>)
    ensures
        values_of(final(net)@) == net_insert::<Msg>(values_of(old(net)@), e.value()),
{
    if net_contains_exec(net, &e) {
        return ;
    }
    let ghost vals = values_of(net@);
    let efp = e.fingerprint();
    let mut i: usize = 0;
    while i < net.len() && net[i].fingerprint() <= efp
        invariant
            i <= net@.len(),
            net@ == old(net)@,
            vals == values_of(net@),
            efp == env_fp::<Msg>(e.value()),
            forall|j: int| 0 <= j < i ==> env_fp::<Msg>(vals[j]) <= env_fp::<Msg>(e.value()),
        decreases net@.len() - i,
    {
        proof {
            assert(vals[i as int] == net@[i as int].value());
        }
        i = i + 1;
    }
    proof {
        if i < net@.len() {
            assert(vals[i as int] == net@[i as int].value());
        }
        lemma_net_place_at::<Msg>(vals, e.value(), i as int);
    }
    net.insert(i, e);
    proof {
        assert(values_of(net@) =~= vals.insert(i as int, e.value()));
    }
}

/// When the first `i` digests are not above `e`'s and entry `i` (if any)
/// is, placement lands at position `i`.
proof fn lemma_net_place_at<Msg: ModelValue>(net: Seq<Envelope<VOf<Msg>>>, e: Envelope<VOf<Msg>>, i: int)
    requires
        0 <= i <= net.len(),
        forall|j: int| 0 <= j < i ==> env_fp::<Msg>(#[trigger] net[j]) <= env_fp::<Msg>(e),
        i < net.len() ==> env_fp::<Msg>(net[i]) > env_fp::<Msg>(e),
    ensures
        net_place::<Msg>(net, e) == net.insert(i, e),
    decreases i,
{
    if i == 0 {
        if net.len() == 0 {
            assert(net_place::<Msg>(net, e) =~= net.insert(0, e));
        } else {
            assert(seq![e] + net =~= net.insert(0, e));
        }
    } else {
        lemma_net_place_at::<Msg>(net.drop_first(), e, i - 1);
        assert(seq![net[0]] + net.drop_first().insert(i - 1, e) =~= net.insert(i, e));
    }
}

/// Remove the first envelope equal to `e` from the network vector, if any.
fn net_remove_exec<Msg: ModelValue>(net: &mut Vec<Envelope<Msg>>, e: &Envelope<Msg>)
    ensures
        values_of(final(net)@) == net_remove(values_of(old(net)@), e.value()),
{
    let mut i: usize = 0;
    while i < net.len()
        invariant
            i <= net.len(),
            net@ == old(net)@,
            forall|j: int| 0 <= j < i ==> values_of(net@)[j] != e.value(),
        decreases net.len() - i,
    {
        if net[i].eq_val(e) {
            net.remove(i);
            proof {
                lemma_net_remove_at(values_of(old(net)@), e.value(), i as int);
                assert(values_of(net@) =~= values_of(old(net)@).remove(i as int));
            }
            return ;
        }
        i = i + 1;
    }
    proof {
        lemma_net_remove_absent(values_of(net@), e.value());
    }
}

/// When the first `i` entries differ from `e` and entry `i` equals `e`,
/// removing `e` from the set removes exactly entry `i`.
proof fn lemma_net_remove_at<MsgV>(net: Seq<Envelope<MsgV>>, e: Envelope<MsgV>, i: int)
    requires
        0 <= i < net.len(),
        net[i] == e,
        forall|j: int| 0 <= j < i ==> net[j] != e,
    ensures
        net_remove(net, e) == net.remove(i),
    decreases i,
{
    if i == 0 {
        assert(net_remove(net, e) == net.drop_first());
        assert(net.drop_first() =~= net.remove(0));
    } else {
        lemma_net_remove_at(net.drop_first(), e, i - 1);
        assert(net_remove(net, e) == seq![net[0]] + net.drop_first().remove(i - 1));
        assert(seq![net[0]] + net.drop_first().remove(i - 1) =~= net.remove(i));
    }
}

/// Removing an absent envelope changes nothing.
proof fn lemma_net_remove_absent<MsgV>(net: Seq<Envelope<MsgV>>, e: Envelope<MsgV>)
    requires
        forall|j: int| 0 <= j < net.len() ==> net[j] != e,
    ensures
        net_remove(net, e) == net,
    decreases net.len(),
{
    if net.len() > 0 {
        lemma_net_remove_absent(net.drop_first(), e);
        assert(seq![net[0]] + net.drop_first() =~= net);
    }
}

/// Decide equality of two timer-flag vectors.
fn eq_timers(a: &Vec<bool>, b: &Vec<bool>) -> (r: bool)
    ensures
        r == (a@ == b@),
{
    if a.len() != b.len() {
        return false;
    }
    let mut i: usize = 0;
    while i < a.len()
        invariant
            i <= a.len(),
            a@.len() == b@.len(),
            forall|j: int| 0 <= j < i ==> a@[j] == b@[j],
        decreases a.len() - i,
    {
        if a[i] != b[i] {
            return false;
        }
        i = i + 1;
    }
    proof {
        assert(a@ =~= b@);
    }
    true
}

/// Copy the timer flags.
fn copy_timers(v: &Vec<bool>) -> (r: Vec<bool>)
    ensures
        r@ == v@,
{
    let mut r: Vec<bool> = Vec::new();
    let mut i: usize = 0;
    while i < v.len()
        invariant
            i <= v.len(),
            r@ == v@.take(i as int),
        decreases v.len() - i,
    {
        r.push(v[i]);
        proof {
            assert(r@ =~= v@.take(i as int + 1));
        }
        i = i + 1;
    }
    proof {
        assert(v@.take(v@.len() as int) =~= v@);
    }
    r
}

/// Apply actor `src`'s recorded commands to the network and timer vectors.
fn apply_commands_exec<Msg: ModelValue>(
    src: Id,
    cmds: &ActorOutputVec<Msg>,
    net: &mut Vec<Envelope<Msg>>,
    timers: &mut Vec<bool>,
)
    ensures
        values_of(final(net)@) == apply_commands::<Msg>(
            src,
            command_values(cmds.0@),
            values_of(old(net)@),
            old(timers)@,
        ).0,
        final(timers)@ == apply_commands::<Msg>(
            src,
            command_values(cmds.0@),
            values_of(old(net)@),
            old(timers)@,
        ).1,
{
    let ghost all = command_values(cmds.0@);
    let ghost net0 = values_of(old(net)@);
    let ghost timers0 = old(timers)@;
    let n = cmds.0.len();
    let mut k: usize = 0;
    proof {
        assert(all.skip(0) =~= all);
    }
    while k < n
        invariant
            k <= n,
            n == cmds.0@.len(),
            all == crate::actor::command_values(cmds.0@),
            all.len() == n,
            apply_commands::<Msg>(src, all.skip(k as int), values_of(net@), timers@)
                == apply_commands::<Msg>(src, all, net0, timers0),
        decreases n - k,
    {
        proof {
            assert(all.skip(k as int).drop_first() =~= all.skip(k as int + 1));
            assert(all.skip(k as int)[0] == all[k as int]);
            assert(all[k as int] == crate::actor::command_value(cmds.0@[k as int]));
        }
        let ghost net_b = values_of(net@);
        let ghost timers_b = timers@;
        match &cmds.0[k] {
            ActorOutput::Send { dst, msg } => {
                let e = Envelope { src, dst: *dst, msg: msg.dup() };
                proof {
                    assert(all[k as int] matches ActorOutput::Send { dst: d2, msg: m2 } && e.value()
                        == (Envelope { src, dst: d2, msg: m2 }));
                }
                net_insert_exec(net, e);
            },
            ActorOutput::SetTimer { range } => {
                if src.0 < timers.len() as u64 {
                    let idx = src.0 as usize;
                    timers[idx] = true;
                    proof {
                        assert(timers@ =~= timers_set(timers_b, src, true));
                    }
                } else {
                    proof {
                        assert(timers@ =~= timers_set(timers_b, src, true));
                    }
                }
            },
            ActorOutput::CancelTimer => {
                if src.0 < timers.len() as u64 {
                    let idx = src.0 as usize;
                    timers[idx] = false;
                    proof {
                        assert(timers@ =~= timers_set(timers_b, src, false));
                    }
                } else {
                    proof {
                        assert(timers@ =~= timers_set(timers_b, src, false));
                    }
                }
            },
        }
        proof {
            assert(apply_commands::<Msg>(src, all.skip(k as int), net_b, timers_b)
                == apply_commands::<Msg>(src, all.skip(k as int + 1), values_of(net@), timers@));
        }
        k = k + 1;
    }
    proof {
        assert(all.skip(n as int) =~= Seq::<ActorOutput<VOf<Msg>>>::empty());
    }
}

/// The deliver successor for envelope `i` of snapshot `s`: the destination
/// actor handles the message, the envelope is consumed unless the network
/// duplicates, and the actor's effects are applied in order.
pub open spec fn deliver_step<A: Actor>(
    actors: Seq<A>,
    duplicating: DuplicatingNetwork,
    s: SnapshotView<VOf<MsgOf<A>>, VOf<StateOf<A>>>,
    i: int,
) -> (SystemAction<VOf<MsgOf<A>>>, SnapshotView<VOf<MsgOf<A>>, VOf<StateOf<A>>>) {
    let e = s.network[i];
    let di = e.dst.0 as int;
    let out = actors[di].msg_view(e.dst, s.actor_states[di], e.src, e.msg);
    let base = if duplicating is Yes {
        s.network
    } else {
        net_remove(s.network, e)
    };
    let applied = apply_commands::<MsgOf<A>>(e.dst, out.commands, base, s.timers);
    let states2 = match out.state {
        Some(ns) => s.actor_states.update(di, ns),
        None => s.actor_states,
    };
    (
        SystemAction::Deliver { src: e.src, dst: e.dst, msg: e.msg },
        SnapshotView { actor_states: states2, network: applied.0, timers: applied.1 },
    )
}

/// The drop successor for envelope `i` of snapshot `s`.
pub open spec fn drop_step<MsgV, StateV>(s: SnapshotView<MsgV, StateV>, i: int) -> (
    SystemAction<MsgV>,
    SnapshotView<MsgV, StateV>,
) {
    let e = s.network[i];
    (
        SystemAction::Drop(e),
        SnapshotView {
            actor_states: s.actor_states,
            network: net_remove(s.network, e),
            timers: s.timers,
        },
    )
}

/// Whether envelope `i` of `s` can be delivered: its destination names an
/// actor. An envelope addressed outside the actor list stays in the
/// network, inert.
pub open spec fn deliverable<A: Actor>(
    actors: Seq<A>,
    s: SnapshotView<VOf<MsgOf<A>>, VOf<StateOf<A>>>,
    i: int,
) -> bool {
    s.network[i].dst.0 < actors.len() && s.network[i].dst.0 < s.actor_states.len()
}

/// The steps offered for envelope `i`: deliver if its destination names an
/// actor, then drop if the network is lossy.
pub open spec fn envelope_steps<A: Actor>(
    actors: Seq<A>,
    lossy: LossyNetwork,
    duplicating: DuplicatingNetwork,
    s: SnapshotView<VOf<MsgOf<A>>, VOf<StateOf<A>>>,
    i: int,
) -> Seq<(SystemAction<VOf<MsgOf<A>>>, SnapshotView<VOf<MsgOf<A>>, VOf<StateOf<A>>>)> {
    (if deliverable(actors, s, i) {
        seq![deliver_step(actors, duplicating, s, i)]
    } else {
        Seq::empty()
    }) + (if lossy is Yes {
        seq![drop_step(s, i)]
    } else {
        Seq::empty()
    })
}

/// All envelope steps from index `i` on, in network order.
pub open spec fn steps_from_envelopes<A: Actor>(
    actors: Seq<A>,
    lossy: LossyNetwork,
    duplicating: DuplicatingNetwork,
    s: SnapshotView<VOf<MsgOf<A>>, VOf<StateOf<A>>>,
    i: int,
) -> Seq<(SystemAction<VOf<MsgOf<A>>>, SnapshotView<VOf<MsgOf<A>>, VOf<StateOf<A>>>)>
    decreases s.network.len() - i,
{
    if i < 0 || i >= s.network.len() {
        Seq::empty()
    } else {
        envelope_steps(actors, lossy, duplicating, s, i) + steps_from_envelopes(
            actors,
            lossy,
            duplicating,
            s,
            i + 1,
        )
    }
}

/// The timeout successor for actor `i` of snapshot `s`: the pending timer
/// is consumed, the actor handles the firing, and its effects are applied.
pub open spec fn timeout_step<A: Actor>(
    actors: Seq<A>,
    s: SnapshotView<VOf<MsgOf<A>>, VOf<StateOf<A>>>,
    i: int,
) -> (SystemAction<VOf<MsgOf<A>>>, SnapshotView<VOf<MsgOf<A>>, VOf<StateOf<A>>>) {
    let id = Id(i as u64);
    let out = actors[i].timeout_view(id, s.actor_states[i]);
    let applied = apply_commands::<MsgOf<A>>(
        id,
        out.commands,
        s.network,
        timers_set(s.timers, id, false),
    );
    let states2 = match out.state {
        Some(ns) => s.actor_states.update(i, ns),
        None => s.actor_states,
    };
    (
        SystemAction::Timeout(id),
        SnapshotView { actor_states: states2, network: applied.0, timers: applied.1 },
    )
}

/// Whether actor `i`'s timer is pending in `s`.
pub open spec fn timer_pending<A: Actor>(
    actors: Seq<A>,
    s: SnapshotView<VOf<MsgOf<A>>, VOf<StateOf<A>>>,
    i: int,
) -> bool {
    i < s.timers.len() && s.timers[i] && i < s.actor_states.len()
}

/// All timeout steps from actor `i` on, by actor identifier.
pub open spec fn steps_from_timeouts<A: Actor>(
    actors: Seq<A>,
    s: SnapshotView<VOf<MsgOf<A>>, VOf<StateOf<A>>>,
    i: int,
) -> Seq<(SystemAction<VOf<MsgOf<A>>>, SnapshotView<VOf<MsgOf<A>>, VOf<StateOf<A>>>)>
    decreases actors.len() - i,
{
    if i < 0 || i >= actors.len() {
        Seq::empty()
    } else {
        (if timer_pending(actors, s, i) {
            seq![timeout_step(actors, s, i)]
        } else {
            Seq::empty()
        }) + steps_from_timeouts(actors, s, i + 1)
    }
}

/// Every step enabled from snapshot `s`: envelopes in network order, each
/// offering deliver then drop, then timeouts by actor identifier.
pub open spec fn system_next<A: Actor>(
    actors: Seq<A>,
    lossy: LossyNetwork,
    duplicating: DuplicatingNetwork,
    s: SnapshotView<VOf<MsgOf<A>>, VOf<StateOf<A>>>,
) -> Seq<(SystemAction<VOf<MsgOf<A>>>, SnapshotView<VOf<MsgOf<A>>, VOf<StateOf<A>>>)> {
    steps_from_envelopes(actors, lossy, duplicating, s, 0) + steps_from_timeouts(actors, s, 0)
}

/// The network set holding the given envelopes, deduplicated in order.
pub open spec fn net_from<Msg: ModelValue>(s: Seq<Envelope<VOf<Msg>>>) -> Seq<Envelope<VOf<Msg>>>
    decreases s.len(),
{
    if s.len() <= 0 {
        Seq::empty()
    } else {
        net_insert::<Msg>(net_from::<Msg>(s.drop_last()), s.last())
    }
}

/// The initial snapshot after starting actors `i..`, accumulating onto
/// `acc`: each actor's initial state is appended and its effects applied.
pub open spec fn init_acc<A: Actor>(
    actors: Seq<A>,
    i: int,
    acc: SnapshotView<VOf<MsgOf<A>>, VOf<StateOf<A>>>,
) -> SnapshotView<VOf<MsgOf<A>>, VOf<StateOf<A>>>
    decreases actors.len() - i,
{
    if i < 0 || i >= actors.len() {
        acc
    } else {
        let id = Id(i as u64);
        let out = actors[i].start_view(id);
        let applied = apply_commands::<MsgOf<A>>(id, out.commands, acc.network, acc.timers);
        init_acc(
            actors,
            i + 1,
            SnapshotView {
                actor_states: acc.actor_states.push(out.state->Some_0),
                network: applied.0,
                timers: applied.1,
            },
        )
    }
}

/// The single initial snapshot of the lifted system: the deduplicated
/// initial network, no pending timers, and every actor started in order.
pub open spec fn system_init<A: Actor>(
    actors: Seq<A>,
    init_network: Seq<Envelope<VOf<MsgOf<A>>>>,
) -> SnapshotView<VOf<MsgOf<A>>, VOf<StateOf<A>>> {
    init_acc(
        actors,
        0,
        SnapshotView {
            actor_states: Seq::empty(),
            network: net_from::<MsgOf<A>>(init_network),
            timers: Seq::new(actors.len(), |j: int| false),
        },
    )
}

/// A collection of actors on a configurable network, together with the
/// properties to check of it. The lifted model calls the configuration
/// methods once at construction; the property predicates and the boundary
/// are consulted throughout exploration, each pinned to a spec-level
/// predicate so that exploration is deterministic.
pub trait System: Sized {
    /// The type of actor in this system.
    type Actor: Actor;

    /// The configured actors, as abstract values.
    spec fn actors_view(&self) -> Seq<Self::Actor>;

    /// The actors, in order; the index is the actor's identifier.
    fn actors(&self) -> (r: Vec<Self::Actor>)
        ensures
            r@ == self.actors_view(),
    ;

    /// The configured pre-seeded envelopes.
    spec fn init_network_view(&self) -> Seq<Envelope<MsgOf<Self::Actor>>>;

    /// Envelopes pre-seeded into the network.
    fn init_network(&self) -> (r: Vec<Envelope<MsgOf<Self::Actor>>>)
        ensures
            r@ == self.init_network_view(),
    ;

    /// The configured loss setting.
    spec fn lossy_view(&self) -> LossyNetwork;

    /// Whether the network may drop envelopes.
    fn lossy_network(&self) -> (r: LossyNetwork)
        ensures
            r == self.lossy_view(),
    ;

    /// The configured duplication setting.
    spec fn duplicating_view(&self) -> DuplicatingNetwork;

    /// Whether the network may redeliver envelopes.
    fn duplicating_network(&self) -> (r: DuplicatingNetwork)
        ensures
            r == self.duplicating_view(),
    ;

    /// The configured properties.
    spec fn properties_decl(&self) -> Seq<Property>;

    /// The properties to check, in evaluation order.
    fn properties(&self) -> (r: Vec<Property>)
        ensures
            r@ == self.properties_decl(),
    ;

    /// Whether property `i` holds of `state`.
    spec fn property_holds(
        &self,
        i: int,
        state: SnapshotView<VOf<MsgOf<Self::Actor>>, VOf<StateOf<Self::Actor>>>,
    ) -> bool;

    /// Evaluate property `i` on `state`.
    fn eval_property(&self, i: usize, state: &SystemState<Self::Actor>) -> (r: bool)
        ensures
            r == self.property_holds(i as int, state.value()),
    ;

    /// Whether `state` lies within the state-space boundary.
    spec fn boundary_view(
        &self,
        state: SnapshotView<VOf<MsgOf<Self::Actor>>, VOf<StateOf<Self::Actor>>>,
    ) -> bool;

    /// Decide whether `state` lies within the state-space boundary.
    fn within_boundary(&self, state: &SystemState<Self::Actor>) -> (r: bool)
        ensures
            r == self.boundary_view(state.value()),
    ;
}

/// A system of actors lifted to a checkable state machine.
pub struct SystemModel<S: System> {
    pub system: S,
    pub actors: Vec<S::Actor>,
    pub init_network: Vec<Envelope<MsgOf<S::Actor>>>,
    pub lossy: LossyNetwork,
    pub duplicating: DuplicatingNetwork,
    pub properties: Vec<Property>,
}

impl<S: System> SystemModel<S> {
    /// Lift `system` to a model, capturing its configuration: the stored
    /// fields, which the lifted model's transition relation is a function
    /// of, are exactly what the system declares.
    pub fn new(system: S) -> (r: Self)
        ensures
            r.system == system,
            r.actors@ == system.actors_view(),
            r.init_network@ == system.init_network_view(),
            r.lossy == system.lossy_view(),
            r.duplicating == system.duplicating_view(),
            r.properties@ == system.properties_decl(),
    {
        let actors = system.actors();
        let init_network = system.init_network();
        let lossy = system.lossy_network();
        let duplicating = system.duplicating_network();
        let properties = system.properties();
        SystemModel { system, actors, init_network, lossy, duplicating, properties }
    }

    /// A checker for this model.
    pub fn checker(self) -> (r: crate::checker::Checker<SystemModel<S>>)
        ensures
            r.inv(),
            r.model_view() == self,
            !r.failed_view(),
    {
        crate::checker::Checker::new(self)
    }
}

impl<S: System> Model for SystemModel<S> {
    type State = SystemState<S::Actor>;

    type Action = SystemAction<MsgOf<S::Actor>>;

    open spec fn init_view(&self) -> Seq<SnapshotView<VOf<MsgOf<S::Actor>>, VOf<StateOf<S::Actor>>>> {
        seq![system_init(self.actors@, values_of(self.init_network@))]
    }

    open spec fn next_view(
        &self,
        state: SnapshotView<VOf<MsgOf<S::Actor>>, VOf<StateOf<S::Actor>>>,
    ) -> Seq<
        (
            SystemAction<VOf<MsgOf<S::Actor>>>,
            SnapshotView<VOf<MsgOf<S::Actor>>, VOf<StateOf<S::Actor>>>,
        ),
    > {
        system_next(self.actors@, self.lossy, self.duplicating, state)
    }

    open spec fn properties_view(&self) -> Seq<Property> {
        self.properties@
    }

    open spec fn property_holds(
        &self,
        i: int,
        state: SnapshotView<VOf<MsgOf<S::Actor>>, VOf<StateOf<S::Actor>>>,
    ) -> bool {
        self.system.property_holds(i, state)
    }

    open spec fn boundary_view(
        &self,
        state: SnapshotView<VOf<MsgOf<S::Actor>>, VOf<StateOf<S::Actor>>>,
    ) -> bool {
        self.system.boundary_view(state)
    }

    fn init(&self, results: &mut Vec<SystemState<S::Actor>>) {
        let ghost acts = self.actors@;
        // Seed the network set from the configured envelopes.
        let mut net: Vec<Envelope<MsgOf<S::Actor>>> = Vec::new();
        let n_env = self.init_network.len();
        let mut i: usize = 0;
        while i < n_env
            invariant
                i <= n_env,
                n_env == self.init_network@.len(),
                values_of(net@) == net_from::<MsgOf<S::Actor>>(
                    values_of(self.init_network@).take(i as int),
                ),
            decreases n_env - i,
        {
            let ghost pre = values_of(self.init_network@).take(i as int);
            proof {
                assert(values_of(self.init_network@).take(i as int + 1).drop_last() =~= pre);
                assert(values_of(self.init_network@).take(i as int + 1).last()
                    == self.init_network@[i as int].value());
            }
            net_insert_exec(&mut net, self.init_network[i].dup());
            i = i + 1;
        }
        proof {
            assert(values_of(self.init_network@).take(n_env as int) =~= values_of(
                self.init_network@,
            ));
        }
        // No timers pending initially.
        let n = self.actors.len();
        let mut timers: Vec<bool> = Vec::new();
        let mut j: usize = 0;
        while j < n
            invariant
                j <= n,
                timers@.len() == j,
                forall|k: int| 0 <= k < j ==> !timers@[k],
            decreases n - j,
        {
            timers.push(false);
            j = j + 1;
        }
        let ghost base = SnapshotView {
            actor_states: Seq::<VOf<StateOf<S::Actor>>>::empty(),
            network: net_from::<MsgOf<S::Actor>>(values_of(self.init_network@)),
            timers: Seq::new(acts.len(), |k: int| false),
        };
        proof {
            assert(timers@ =~= base.timers);
            assert(values_of(Seq::<StateOf<S::Actor>>::empty()) =~= base.actor_states);
        }
        // Start every actor, collecting states and effects.
        let mut states: Vec<StateOf<S::Actor>> = Vec::new();
        let mut i2: usize = 0;
        while i2 < n
            invariant
                i2 <= n,
                n == self.actors@.len(),
                acts == self.actors@,
                init_acc(
                    acts,
                    i2 as int,
                    SnapshotView {
                        actor_states: values_of(states@),
                        network: values_of(net@),
                        timers: timers@,
                    },
                ) == init_acc(acts, 0, base),
            decreases n - i2,
        {
            let ghost accv = SnapshotView::<VOf<MsgOf<S::Actor>>, VOf<StateOf<S::Actor>>> {
                actor_states: values_of(states@),
                network: values_of(net@),
                timers: timers@,
            };
            let id = Id(i2 as u64);
            let mut out = Out::new();
            self.actors[i2].on_start(id, &mut out);
            let ghost outv = acts[i2 as int].start_view(id);
            let Out { state: ost, commands: cmds } = out;
            let st = match ost {
                Some(st) => st,
                None => {
                    proof {
                        acts[i2 as int].start_sets_state(id);
                        assert(false);
                    }
                    vstd::pervasive::unreached()
                },
            };
            states.push(st);
            apply_commands_exec(id, &cmds, &mut net, &mut timers);
            proof {
                assert(option_value(ost) == outv.state);
                assert(st.value() == outv.state->Some_0);
                assert(command_values(cmds.0@) == outv.commands);
                assert(values_of(states@) =~= accv.actor_states.push(outv.state->Some_0));
                assert(init_acc(acts, i2 as int, accv) == init_acc(
                    acts,
                    i2 as int + 1,
                    SnapshotView {
                        actor_states: values_of(states@),
                        network: values_of(net@),
                        timers: timers@,
                    },
                ));
            }
            i2 = i2 + 1;
        }
        let snapshot = ActorSystemSnapshot { actor_states: states, network: net, timers };
        proof {
            assert(init_acc(acts, n as int, snapshot.value()) == snapshot.value());
            assert(snapshot.value() == system_init(acts, values_of(self.init_network@)));
        }
        results.push(snapshot);
        proof {
            assert(values_of(results@) =~= values_of(old(results)@).push(
                results@.last().value(),
            ));
        }
    }

    fn next(
        &self,
        state: &SystemState<S::Actor>,
        results: &mut StepVec<SystemAction<MsgOf<S::Actor>>, SystemState<S::Actor>>,
    ) {
        let ghost acts = self.actors@;
        let ghost sv = state.value();
        let ghost pre = crate::checker::step_values(results.0@);
        let n_env = state.network.len();
        let mut i: usize = 0;
        while i < n_env
            invariant
                i <= n_env,
                acts == self.actors@,
                sv == state.value(),
                n_env == state.network@.len(),
                crate::checker::step_values(results.0@) + steps_from_envelopes(
                    acts,
                    self.lossy,
                    self.duplicating,
                    sv,
                    i as int,
                ) == pre + steps_from_envelopes(acts, self.lossy, self.duplicating, sv, 0),
            decreases n_env - i,
        {
            let ghost res_b = crate::checker::step_values(results.0@);
            let ghost env_v = sv.network[i as int];
            proof {
                assert(env_v == state.network@[i as int].value());
            }
            let dst = state.network[i].dst;
            // Deliver, when the destination names an actor.
            if dst.0 < self.actors.len() as u64 && dst.0 < state.actor_states.len() as u64 {
                let di = dst.0 as usize;
                let mut out = Out::new();
                self.actors[di].on_msg(
                    dst,
                    &state.actor_states[di],
                    state.network[i].src,
                    state.network[i].msg.dup(),
                    &mut out,
                );
                let ghost outv = acts[di as int].msg_view(
                    env_v.dst,
                    sv.actor_states[di as int],
                    env_v.src,
                    env_v.msg,
                );
                let Out { state: ost, commands: cmds } = out;
                let mut states2 = dup_vec(&state.actor_states);
                match ost {
                    Some(ns) => {
                        states2[di] = ns;
                        proof {
                            assert(values_of(states2@) =~= sv.actor_states.update(
                                di as int,
                                outv.state->Some_0,
                            ));
                        }
                    },
                    None => {
                        proof {
                            assert(values_of(states2@) == sv.actor_states);
                        }
                    },
                }
                let mut net2 = dup_vec(&state.network);
                if self.duplicating == DuplicatingNetwork::No {
                    net_remove_exec(&mut net2, &state.network[i]);
                }
                let mut timers2 = copy_timers(&state.timers);
                apply_commands_exec(dst, &cmds, &mut net2, &mut timers2);
                let succ = ActorSystemSnapshot {
                    actor_states: states2,
                    network: net2,
                    timers: timers2,
                };
                let act = SystemAction::Deliver {
                    src: state.network[i].src,
                    dst,
                    msg: state.network[i].msg.dup(),
                };
                proof {
                    assert(option_value(ost) == outv.state);
                    assert(command_values(cmds.0@) == outv.commands);
                    assert(deliverable(acts, sv, i as int));
                    assert(succ.value() =~= deliver_step(acts, self.duplicating, sv, i as int).1);
                    assert(act.value() == deliver_step(acts, self.duplicating, sv, i as int).0);
                }
                results.push(act, succ);
                proof {
                    assert(crate::checker::step_values(results.0@) =~= res_b.push(
                        deliver_step(acts, self.duplicating, sv, i as int),
                    ));
                }
            } else {
                proof {
                    assert(!deliverable(acts, sv, i as int));
                }
            }
            let ghost res_m = crate::checker::step_values(results.0@);
            // Drop, when the network is lossy.
            if self.lossy == LossyNetwork::Yes {
                let mut net2 = dup_vec(&state.network);
                net_remove_exec(&mut net2, &state.network[i]);
                let succ = ActorSystemSnapshot {
                    actor_states: dup_vec(&state.actor_states),
                    network: net2,
                    timers: copy_timers(&state.timers),
                };
                let act = SystemAction::Drop(state.network[i].dup());
                proof {
                    assert(succ.value() =~= drop_step(sv, i as int).1);
                    assert(act.value() == drop_step(sv, i as int).0);
                }
                results.push(act, succ);
                proof {
                    assert(crate::checker::step_values(results.0@) =~= res_m.push(
                        drop_step(sv, i as int),
                    ));
                }
            }
            proof {
                assert(crate::checker::step_values(results.0@) =~= res_b + envelope_steps(
                    acts,
                    self.lossy,
                    self.duplicating,
                    sv,
                    i as int,
                ));
                assert(crate::checker::step_values(results.0@) + steps_from_envelopes(
                    acts,
                    self.lossy,
                    self.duplicating,
                    sv,
                    i as int + 1,
                ) =~= pre + steps_from_envelopes(acts, self.lossy, self.duplicating, sv, 0));
            }
            i = i + 1;
        }
        let ghost mid = crate::checker::step_values(results.0@);
        proof {
            assert(mid == pre + steps_from_envelopes(acts, self.lossy, self.duplicating, sv, 0));
        }
        // Timeouts, by actor identifier.
        let n = self.actors.len();
        let mut j: usize = 0;
        while j < n
            invariant
                j <= n,
                n == self.actors@.len(),
                acts == self.actors@,
                sv == state.value(),
                crate::checker::step_values(results.0@) + steps_from_timeouts(
                    acts,
                    sv,
                    j as int,
                ) == mid + steps_from_timeouts(acts, sv, 0),
            decreases n - j,
        {
            let ghost res_b = crate::checker::step_values(results.0@);
            if j < state.timers.len() && state.timers[j] && j < state.actor_states.len() {
                let id = Id(j as u64);
                let mut out = Out::new();
                self.actors[j].on_timeout(id, &state.actor_states[j], &mut out);
                let ghost outv = acts[j as int].timeout_view(id, sv.actor_states[j as int]);
                let Out { state: ost, commands: cmds } = out;
                let mut states2 = dup_vec(&state.actor_states);
                match ost {
                    Some(ns) => {
                        states2[j] = ns;
                        proof {
                            assert(values_of(states2@) =~= sv.actor_states.update(
                                j as int,
                                outv.state->Some_0,
                            ));
                        }
                    },
                    None => {
                        proof {
                            assert(values_of(states2@) == sv.actor_states);
                        }
                    },
                }
                let mut net2 = dup_vec(&state.network);
                let mut timers2 = copy_timers(&state.timers);
                timers2[j] = false;
                proof {
                    assert(timers2@ =~= timers_set(sv.timers, id, false));
                }
                apply_commands_exec(id, &cmds, &mut net2, &mut timers2);
                let succ = ActorSystemSnapshot {
                    actor_states: states2,
                    network: net2,
                    timers: timers2,
                };
                let act = SystemAction::Timeout(id);
                proof {
                    assert(option_value(ost) == outv.state);
                    assert(command_values(cmds.0@) == outv.commands);
                    assert(timer_pending(acts, sv, j as int));
                    assert(succ.value() =~= timeout_step(acts, sv, j as int).1);
                    assert(act.value() == timeout_step(acts, sv, j as int).0);
                }
                results.push(act, succ);
                proof {
                    assert(crate::checker::step_values(results.0@) =~= res_b.push(
                        timeout_step(acts, sv, j as int),
                    ));
                }
            } else {
                proof {
                    assert(!timer_pending(acts, sv, j as int));
                }
            }
            proof {
                assert(crate::checker::step_values(results.0@) + steps_from_timeouts(
                    acts,
                    sv,
                    j as int + 1,
                ) =~= mid + steps_from_timeouts(acts, sv, 0));
            }
            j = j + 1;
        }
        proof {
            assert(crate::checker::step_values(results.0@) =~= crate::checker::step_values(
                old(results).0@,
            ) + self.next_view(state.value()));
        }
    }

    fn properties(&self) -> (r: Vec<Property>) {
        let mut r: Vec<Property> = Vec::new();
        let mut i: usize = 0;
        while i < self.properties.len()
            invariant
                i <= self.properties@.len(),
                r@ == self.properties@.take(i as int),
            decreases self.properties@.len() - i,
        {
            r.push(self.properties[i]);
            proof {
                assert(r@ =~= self.properties@.take(i as int + 1));
            }
            i = i + 1;
        }
        proof {
            assert(self.properties@.take(self.properties@.len() as int) =~= self.properties@);
        }
        r
    }

    fn eval_property(&self, i: usize, state: &SystemState<S::Actor>) -> (r: bool) {
        self.system.eval_property(i, state)
    }

    fn within_boundary(&self, state: &SystemState<S::Actor>) -> (r: bool) {
        self.system.within_boundary(state)
    }
}

/// Starting actors `i..` appends exactly one state per actor.
proof fn lemma_init_acc_len<A: Actor>(
    actors: Seq<A>,
    i: int,
    acc: SnapshotView<VOf<MsgOf<A>>, VOf<StateOf<A>>>,
)
    requires
        0 <= i <= actors.len(),
    ensures
        init_acc(actors, i, acc).actor_states.len() == acc.actor_states.len() + actors.len() - i,
    decreases actors.len() - i,
{
    if i < actors.len() {
        let id = Id(i as u64);
        let out = actors[i].start_view(id);
        let applied = apply_commands::<MsgOf<A>>(id, out.commands, acc.network, acc.timers);
        lemma_init_acc_len(
            actors,
            i + 1,
            SnapshotView {
                actor_states: acc.actor_states.push(out.state->Some_0),
                network: applied.0,
                timers: applied.1,
            },
        );
    }
}

/// Actor-state length stability, at initialization: the initial snapshot
/// holds exactly one state per configured actor.
pub proof fn lemma_actor_state_len_init<A: Actor>(
    actors: Seq<A>,
    init_network: Seq<Envelope<VOf<MsgOf<A>>>>,
)
    ensures
        system_init(actors, init_network).actor_states.len() == actors.len(),
{
    lemma_init_acc_len(
        actors,
        0,
        SnapshotView {
            actor_states: Seq::<VOf<StateOf<A>>>::empty(),
            network: net_from::<MsgOf<A>>(init_network),
            timers: Seq::new(actors.len(), |j: int| false),
        },
    );
}

/// Every envelope step from index `i` on preserves the number of actor
/// states.
proof fn lemma_envelope_steps_len<A: Actor>(
    actors: Seq<A>,
    lossy: LossyNetwork,
    duplicating: DuplicatingNetwork,
    s: SnapshotView<VOf<MsgOf<A>>, VOf<StateOf<A>>>,
    i: int,
)
    ensures
        forall|k: int|
            0 <= k < steps_from_envelopes(actors, lossy, duplicating, s, i).len() ==> (
            #[trigger] steps_from_envelopes(actors, lossy, duplicating, s, i)[k]).1.actor_states.len()
                == s.actor_states.len(),
    decreases s.network.len() - i,
{
    if 0 <= i < s.network.len() {
        lemma_envelope_steps_len(actors, lossy, duplicating, s, i + 1);
        assert forall|k: int|
            0 <= k < steps_from_envelopes(actors, lossy, duplicating, s, i).len() implies (
        #[trigger] steps_from_envelopes(actors, lossy, duplicating, s, i)[k]).1.actor_states.len()
            == s.actor_states.len() by {
            let here = envelope_steps(actors, lossy, duplicating, s, i);
            if k < here.len() {
                assert(steps_from_envelopes(actors, lossy, duplicating, s, i)[k] == here[k]);
            } else {
                assert(steps_from_envelopes(actors, lossy, duplicating, s, i)[k]
                    == steps_from_envelopes(actors, lossy, duplicating, s, i + 1)[k - here.len()]);
            }
        }
    }
}

/// Every timeout step from actor `i` on preserves the number of actor
/// states.
proof fn lemma_timeout_steps_len<A: Actor>(
    actors: Seq<A>,
    s: SnapshotView<VOf<MsgOf<A>>, VOf<StateOf<A>>>,
    i: int,
)
    ensures
        forall|k: int|
            0 <= k < steps_from_timeouts(actors, s, i).len() ==> (
            #[trigger] steps_from_timeouts(actors, s, i)[k]).1.actor_states.len()
                == s.actor_states.len(),
    decreases actors.len() - i,
{
    if 0 <= i < actors.len() {
        lemma_timeout_steps_len(actors, s, i + 1);
        assert forall|k: int|
            0 <= k < steps_from_timeouts(actors, s, i).len() implies (
        #[trigger] steps_from_timeouts(actors, s, i)[k]).1.actor_states.len()
            == s.actor_states.len() by {
            let here: Seq<
                (SystemAction<VOf<MsgOf<A>>>, SnapshotView<VOf<MsgOf<A>>, VOf<StateOf<A>>>),
            > = if timer_pending(actors, s, i) {
                seq![timeout_step(actors, s, i)]
            } else {
                Seq::empty()
            };
            if k < here.len() {
                assert(steps_from_timeouts(actors, s, i)[k] == here[k]);
            } else {
                assert(steps_from_timeouts(actors, s, i)[k] == steps_from_timeouts(
                    actors,
                    s,
                    i + 1,
                )[k - here.len()]);
            }
        }
    }
}

/// Actor-state length stability, across steps: every successor of a
/// snapshot holds exactly as many actor states as the snapshot itself, so
/// along any run the count never changes.
pub proof fn lemma_actor_state_len_step<A: Actor>(
    actors: Seq<A>,
    lossy: LossyNetwork,
    duplicating: DuplicatingNetwork,
    s: SnapshotView<VOf<MsgOf<A>>, VOf<StateOf<A>>>,
    k: int,
)
    requires
        0 <= k < system_next(actors, lossy, duplicating, s).len(),
    ensures
        system_next(actors, lossy, duplicating, s)[k].1.actor_states.len()
            == s.actor_states.len(),
{
    lemma_envelope_steps_len(actors, lossy, duplicating, s, 0);
    lemma_timeout_steps_len(actors, s, 0);
    let envs = steps_from_envelopes(actors, lossy, duplicating, s, 0);
    if k < envs.len() {
        assert(system_next(actors, lossy, duplicating, s)[k] == envs[k]);
    } else {
        assert(system_next(actors, lossy, duplicating, s)[k] == steps_from_timeouts(
            actors,
            s,
            0,
        )[k - envs.len()]);
    }
}

/// A collection of actors on a lossy, duplicating network, with no
/// properties attached: the simplest checkable system configuration.
pub struct ActorSystem<A: Actor> {
    pub actors: Vec<A>,
    pub init_network: Vec<Envelope<MsgOf<A>>>,
}

/// Copy every element of `v`.
fn copy_vec<T: Copy>(v: &Vec<T>) -> (r: Vec<T>)
    ensures
        r@ == v@,
{
    let mut r: Vec<T> = Vec::new();
    let mut i: usize = 0;
    while i < v.len()
        invariant
            i <= v.len(),
            r@ == v@.take(i as int),
        decreases v.len() - i,
    {
        r.push(v[i]);
        proof {
            assert(r@ =~= v@.take(i as int + 1));
        }
        i = i + 1;
    }
    proof {
        assert(v@.take(v@.len() as int) =~= v@);
    }
    r
}

impl<A: Actor + Copy> System for ActorSystem<A> where MsgOf<A>: Copy {
    type Actor = A;

    open spec fn actors_view(&self) -> Seq<A> {
        self.actors@
    }

    fn actors(&self) -> (r: Vec<A>) {
        copy_vec(&self.actors)
    }

    open spec fn init_network_view(&self) -> Seq<Envelope<MsgOf<A>>> {
        self.init_network@
    }

    fn init_network(&self) -> (r: Vec<Envelope<MsgOf<A>>>) {
        copy_vec(&self.init_network)
    }

    open spec fn lossy_view(&self) -> LossyNetwork {
        LossyNetwork::Yes
    }

    fn lossy_network(&self) -> (r: LossyNetwork) {
        LossyNetwork::Yes
    }

    open spec fn duplicating_view(&self) -> DuplicatingNetwork {
        DuplicatingNetwork::Yes
    }

    fn duplicating_network(&self) -> (r: DuplicatingNetwork) {
        DuplicatingNetwork::Yes
    }

    open spec fn properties_decl(&self) -> Seq<Property> {
        Seq::empty()
    }

    fn properties(&self) -> (r: Vec<Property>) {
        let r: Vec<Property> = Vec::new();
        proof {
            assert(r@ =~= Seq::<Property>::empty());
        }
        r
    }

    open spec fn property_holds(
        &self,
        i: int,
        state: SnapshotView<VOf<MsgOf<A>>, VOf<StateOf<A>>>,
    ) -> bool {
        true
    }

    fn eval_property(&self, i: usize, state: &SystemState<A>) -> (r: bool) {
        true
    }

    open spec fn boundary_view(
        &self,
        state: SnapshotView<VOf<MsgOf<A>>, VOf<StateOf<A>>>,
    ) -> bool {
        true
    }

    fn within_boundary(&self, state: &SystemState<A>) -> (r: bool) {
        true
    }
}
} // verus!
