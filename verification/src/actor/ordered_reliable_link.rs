//! An ordered reliable link: a wrapper actor that gives the wrapped actor
//! the abstraction of a lossless, non-duplicating, ordered network while
//! running on a lossy duplicating one.
//!
//! The wrapper assigns each outgoing message a strictly increasing
//! sequencer and retransmits it on a timer until acknowledged. On the
//! receiving side it acknowledges every delivery, and passes a message to
//! the wrapped actor only when its sequencer exceeds the highest sequencer
//! already consumed from that sender. One subtlety is deliberate: when the
//! wrapped actor ignores a delivery (a no-op), the consumed high-water
//! mark does not advance, so a later retransmission carrying information
//! can still go through.

use vstd::prelude::*;
use crate::actor::{
    command_values, option_value, Actor, ActorOutput, ActorOutputVec, Id, Out, OutView, TimerRange,
};
use crate::fingerprint::{
    dup_vec, eq_vec, fingerprint_fold, fp_fold, fp_mix, mix, values_of, ModelValue, VOf, FP_SEED,
};

verus! {

/// Perfect-link sequencer: a per-sender, strictly increasing message
/// number.
pub type Sequencer = u64;

/// A map from `u64` keys to values, kept as a vector of entries sorted by
/// strictly increasing key. Its abstract value is the entry sequence, so
/// iteration order is part of the abstraction: retransmissions go out in
/// sequencer order.
#[derive(PartialEq, Eq, Hash, Debug)]
pub struct OrdMap<V> {
    pub entries: Vec<(u64, V)>,
}

/// The first value bound to `k`, scanning left to right.
pub open spec fn om_get<W>(s: Seq<(u64, W)>, k: u64) -> Option<W>
    decreases s.len(),
{
    if s.len() <= 0 {
        None
    } else if s[0].0 == k {
        Some(s[0].1)
    } else {
        om_get(s.drop_first(), k)
    }
}

/// Whether some entry binds `k`.
pub open spec fn om_contains<W>(s: Seq<(u64, W)>, k: u64) -> bool {
    om_get(s, k) is Some
}

/// The value bound to `k`, or zero when absent.
pub open spec fn om_get_or_zero(s: Seq<(u64, u64)>, k: u64) -> u64 {
    match om_get(s, k) {
        Some(v) => v,
        None => 0,
    }
}

/// The entries with `k` bound to `v`: inserted before the first greater
/// key, replacing an equal one.
pub open spec fn om_insert<W>(s: Seq<(u64, W)>, k: u64, v: W) -> Seq<(u64, W)>
    decreases s.len(),
{
    if s.len() <= 0 {
        seq![(k, v)]
    } else if k < s[0].0 {
        seq![(k, v)] + s
    } else if k == s[0].0 {
        seq![(k, v)] + s.drop_first()
    } else {
        seq![s[0]] + om_insert(s.drop_first(), k, v)
    }
}

/// The entries with the first binding of `k` removed.
pub open spec fn om_remove<W>(s: Seq<(u64, W)>, k: u64) -> Seq<(u64, W)>
    decreases s.len(),
{
    if s.len() <= 0 {
        s
    } else if s[0].0 == k {
        s.drop_first()
    } else {
        seq![s[0]] + om_remove(s.drop_first(), k)
    }
}

/// Inserting then looking up the same key finds the inserted value.
pub proof fn lemma_om_get_insert<W>(s: Seq<(u64, W)>, k: u64, v: W)
    ensures
        om_get(om_insert(s, k, v), k) == Some(v),
    decreases s.len(),
{
    if s.len() > 0 && k > s[0].0 {
        lemma_om_get_insert(s.drop_first(), k, v);
        assert((seq![s[0]] + om_insert(s.drop_first(), k, v)).drop_first() =~= om_insert(
            s.drop_first(),
            k,
            v,
        ));
    } else if s.len() > 0 && k < s[0].0 {
        assert((seq![(k, v)] + s)[0] == (k, v));
    } else if s.len() > 0 {
        assert((seq![(k, v)] + s.drop_first())[0] == (k, v));
    }
}

impl<V: ModelValue> OrdMap<V> {
    /// Create an empty map.
    pub fn new() -> (r: Self)
        ensures
            values_of(r.entries@) == Seq::<(u64, VOf<V>)>::empty(),
    {
        let r = OrdMap { entries: Vec::new() };
        proof {
            assert(values_of(r.entries@) =~= Seq::<(u64, VOf<V>)>::empty());
        }
        r
    }

    /// Look up the first value bound to `k`.
    pub fn get(&self, k: u64) -> (r: Option<&V>)
        ensures
            match r {
                Some(v) => om_get(values_of(self.entries@), k) == Some(v.value()),
                None => om_get(values_of(self.entries@), k) is None,
            },
    {
        let ghost vals = values_of(self.entries@);
        let mut i: usize = 0;
        while i < self.entries.len()
            invariant
                i <= self.entries@.len(),
                vals == values_of(self.entries@),
                forall|j: int| 0 <= j < i ==> vals[j].0 != k,
            decreases self.entries@.len() - i,
        {
            if self.entries[i].0 == k {
                proof {
                    lemma_om_get_at(vals, k, i as int);
                }
                return Some(&self.entries[i].1);
            }
            i = i + 1;
        }
        proof {
            lemma_om_get_absent(vals, k);
        }
        None
    }

    /// Whether some entry binds `k`.
    pub fn contains_key(&self, k: u64) -> (r: bool)
        ensures
            r == om_contains(values_of(self.entries@), k),
    {
        match self.get(k) {
            Some(_) => true,
            None => false,
        }
    }

    /// Bind `k` to `v`, keeping the entries sorted when they were.
    pub fn insert(&mut self, k: u64, v: V)
        ensures
            values_of(final(self).entries@) == om_insert(values_of(old(self).entries@), k, v.value()),
    {
        let ghost vals = values_of(self.entries@);
        let mut i: usize = 0;
        while i < self.entries.len() && self.entries[i].0 < k
            invariant
                i <= self.entries@.len(),
                vals == values_of(self.entries@),
                forall|j: int| 0 <= j < i ==> vals[j].0 < k,
            decreases self.entries@.len() - i,
        {
            i = i + 1;
        }
        if i < self.entries.len() && self.entries[i].0 == k {
            self.entries[i] = (k, v);
            proof {
                lemma_om_insert_at(vals, k, v.value(), i as int);
                assert(values_of(self.entries@) =~= om_insert(vals, k, v.value()));
            }
        } else {
            self.entries.insert(i, (k, v));
            proof {
                lemma_om_insert_at(vals, k, v.value(), i as int);
                assert(values_of(self.entries@) =~= om_insert(vals, k, v.value()));
            }
        }
    }

    /// Remove the first binding of `k`, if any.
    pub fn remove(&mut self, k: u64)
        ensures
            values_of(final(self).entries@) == om_remove(values_of(old(self).entries@), k),
    {
        let ghost vals = values_of(self.entries@);
        let mut i: usize = 0;
        while i < self.entries.len()
            invariant
                i <= self.entries@.len(),
                self.entries@ == old(self).entries@,
                vals == values_of(self.entries@),
                forall|j: int| 0 <= j < i ==> vals[j].0 != k,
            decreases self.entries@.len() - i,
        {
            if self.entries[i].0 == k {
                self.entries.remove(i);
                proof {
                    lemma_om_remove_at(vals, k, i as int);
                    assert(values_of(self.entries@) =~= vals.remove(i as int));
                }
                return ;
            }
            i = i + 1;
        }
        proof {
            lemma_om_remove_absent(vals, k);
        }
    }

    /// The number of entries.
    pub fn len(&self) -> (r: usize)
        ensures
            r == values_of(self.entries@).len(),
    {
        self.entries.len()
    }
}

/// When the first `i` keys differ from `k` and entry `i` binds `k`, the
/// lookup finds entry `i`.
proof fn lemma_om_get_at<W>(s: Seq<(u64, W)>, k: u64, i: int)
    requires
        0 <= i < s.len(),
        s[i].0 == k,
        forall|j: int| 0 <= j < i ==> s[j].0 != k,
    ensures
        om_get(s, k) == Some(s[i].1),
    decreases i,
{
    if i > 0 {
        lemma_om_get_at(s.drop_first(), k, i - 1);
    }
}

/// Looking up a key no entry binds finds nothing.
proof fn lemma_om_get_absent<W>(s: Seq<(u64, W)>, k: u64)
    requires
        forall|j: int| 0 <= j < s.len() ==> s[j].0 != k,
    ensures
        om_get(s, k) is None,
    decreases s.len(),
{
    if s.len() > 0 {
        lemma_om_get_absent(s.drop_first(), k);
    }
}

/// When the first `i` keys are below `k` and entry `i` (if any) is not,
/// insertion lands at position `i`.
proof fn lemma_om_insert_at<W>(s: Seq<(u64, W)>, k: u64, v: W, i: int)
    requires
        0 <= i <= s.len(),
        forall|j: int| 0 <= j < i ==> s[j].0 < k,
        i < s.len() ==> s[i].0 >= k,
    ensures
        om_insert(s, k, v) == if i < s.len() && s[i].0 == k {
            s.update(i, (k, v))
        } else {
            s.insert(i, (k, v))
        },
    decreases i,
{
    if i == 0 {
        if s.len() == 0 {
            assert(om_insert(s, k, v) =~= s.insert(0, (k, v)));
        } else if k < s[0].0 {
            assert(seq![(k, v)] + s =~= s.insert(0, (k, v)));
        } else {
            assert(seq![(k, v)] + s.drop_first() =~= s.update(0, (k, v)));
        }
    } else {
        lemma_om_insert_at(s.drop_first(), k, v, i - 1);
        if i < s.len() && s[i].0 == k {
            assert(seq![s[0]] + s.drop_first().update(i - 1, (k, v)) =~= s.update(i, (k, v)));
        } else {
            assert(seq![s[0]] + s.drop_first().insert(i - 1, (k, v)) =~= s.insert(i, (k, v)));
        }
    }
}

/// When the first `i` keys differ from `k` and entry `i` binds `k`,
/// removal removes exactly entry `i`.
proof fn lemma_om_remove_at<W>(s: Seq<(u64, W)>, k: u64, i: int)
    requires
        0 <= i < s.len(),
        s[i].0 == k,
        forall|j: int| 0 <= j < i ==> s[j].0 != k,
    ensures
        om_remove(s, k) == s.remove(i),
    decreases i,
{
    if i == 0 {
        assert(s.drop_first() =~= s.remove(0));
    } else {
        lemma_om_remove_at(s.drop_first(), k, i - 1);
        assert(seq![s[0]] + s.drop_first().remove(i - 1) =~= s.remove(i));
    }
}

/// Removing a key no entry binds changes nothing.
proof fn lemma_om_remove_absent<W>(s: Seq<(u64, W)>, k: u64)
    requires
        forall|j: int| 0 <= j < s.len() ==> s[j].0 != k,
    ensures
        om_remove(s, k) == s,
    decreases s.len(),
{
    if s.len() > 0 {
        lemma_om_remove_absent(s.drop_first(), k);
        assert(seq![s[0]] + s.drop_first() =~= s);
    }
}

impl<V: ModelValue> ModelValue for OrdMap<V> {
    type V = Seq<(u64, VOf<V>)>;

    open spec fn value(&self) -> Seq<(u64, VOf<V>)> {
        values_of(self.entries@)
    }

    open spec fn fp_of(v: Seq<(u64, VOf<V>)>) -> u64 {
        fp_fold::<(u64, V)>(FP_SEED, v)
    }

    fn fingerprint(&self) -> (r: u64) {
        fingerprint_fold(FP_SEED, &self.entries)
    }

    fn dup(&self) -> (r: Self) {
        OrdMap { entries: dup_vec(&self.entries) }
    }

    fn eq_val(&self, other: &Self) -> (r: bool) {
        eq_vec(&self.entries, &other.entries)
    }
}

/// A wire message of the link: a payload with its sequencer, or an
/// acknowledgment.
#[derive(Clone, Hash, PartialEq, Eq, Debug)]
pub enum MsgWrapper<Msg> {
    Deliver(Sequencer, Msg),
    Ack(Sequencer),
}

impl<Msg: ModelValue> ModelValue for MsgWrapper<Msg> {
    type V = MsgWrapper<VOf<Msg>>;

    open spec fn value(&self) -> MsgWrapper<VOf<Msg>> {
        match *self {
            MsgWrapper::Deliver(seq, m) => MsgWrapper::Deliver(seq, m.value()),
            MsgWrapper::Ack(seq) => MsgWrapper::Ack(seq),
        }
    }

    open spec fn fp_of(v: MsgWrapper<VOf<Msg>>) -> u64 {
        match v {
            MsgWrapper::Deliver(seq, m) => fp_mix(fp_mix(fp_mix(FP_SEED, 1u64), seq), Msg::fp_of(m)),
            MsgWrapper::Ack(seq) => fp_mix(fp_mix(FP_SEED, 2u64), seq),
        }
    }

    fn fingerprint(&self) -> (r: u64) {
        match self {
            MsgWrapper::Deliver(seq, m) => mix(mix(mix(FP_SEED, 1u64), *seq), m.fingerprint()),
            MsgWrapper::Ack(seq) => mix(mix(FP_SEED, 2u64), *seq),
        }
    }

    fn dup(&self) -> (r: Self) {
        match self {
            MsgWrapper::Deliver(seq, m) => MsgWrapper::Deliver(*seq, m.dup()),
            MsgWrapper::Ack(seq) => MsgWrapper::Ack(*seq),
        }
    }

    fn eq_val(&self, other: &Self) -> (r: bool) {
        match (self, other) {
            (MsgWrapper::Deliver(s1, m1), MsgWrapper::Deliver(s2, m2)) => *s1 == *s2 && m1.eq_val(
                m2,
            ),
            (MsgWrapper::Ack(s1), MsgWrapper::Ack(s2)) => *s1 == *s2,
            _ => false,
        }
    }
}

/// The state the wrapper maintains around the wrapped actor's state: the
/// next sequencer to assign, the sent messages not yet acknowledged, and
/// per sender the highest sequencer already consumed.
#[derive(PartialEq, Eq, Hash, Debug)]
pub struct StateWrapper<Msg, State> {
    pub next_send_seq: Sequencer,
    pub msgs_pending_ack: OrdMap<(Id, Msg)>,
    pub last_delivered_seqs: OrdMap<u64>,
    pub wrapped_state: State,
}

/// The abstract value of a wrapper state.
#[verifier::ext_equal]
pub ghost struct StateWrapperView<MsgV, StateV> {
    pub next_send_seq: u64,
    pub msgs_pending_ack: Seq<(u64, (Id, MsgV))>,
    pub last_delivered_seqs: Seq<(u64, u64)>,
    pub wrapped_state: StateV,
}

impl<Msg: ModelValue, State: ModelValue> ModelValue for StateWrapper<Msg, State> {
    type V = StateWrapperView<VOf<Msg>, VOf<State>>;

    open spec fn value(&self) -> StateWrapperView<VOf<Msg>, VOf<State>> {
        StateWrapperView {
            next_send_seq: self.next_send_seq,
            msgs_pending_ack: self.msgs_pending_ack.value(),
            last_delivered_seqs: self.last_delivered_seqs.value(),
            wrapped_state: self.wrapped_state.value(),
        }
    }

    open spec fn fp_of(v: StateWrapperView<VOf<Msg>, VOf<State>>) -> u64 {
        fp_mix(
            fp_mix(
                fp_mix(fp_mix(FP_SEED, v.next_send_seq), OrdMap::<(Id, Msg)>::fp_of(
                    v.msgs_pending_ack,
                )),
                OrdMap::<u64>::fp_of(v.last_delivered_seqs),
            ),
            State::fp_of(v.wrapped_state),
        )
    }

    fn fingerprint(&self) -> (r: u64) {
        mix(
            mix(
                mix(mix(FP_SEED, self.next_send_seq), self.msgs_pending_ack.fingerprint()),
                self.last_delivered_seqs.fingerprint(),
            ),
            self.wrapped_state.fingerprint(),
        )
    }

    fn dup(&self) -> (r: Self) {
        StateWrapper {
            next_send_seq: self.next_send_seq,
            msgs_pending_ack: self.msgs_pending_ack.dup(),
            last_delivered_seqs: self.last_delivered_seqs.dup(),
            wrapped_state: self.wrapped_state.dup(),
        }
    }

    fn eq_val(&self, other: &Self) -> (r: bool) {
        self.next_send_seq == other.next_send_seq && self.msgs_pending_ack.eq_val(
            &other.msgs_pending_ack,
        ) && self.last_delivered_seqs.eq_val(&other.last_delivered_seqs)
            && self.wrapped_state.eq_val(&other.wrapped_state)
    }
}

/// Whether a command list holds only sends: no timer commands.
pub open spec fn sends_only<MsgV>(cmds: Seq<ActorOutput<MsgV>>) -> bool {
    forall|i: int| 0 <= i < cmds.len() ==> (#[trigger] cmds[i]) is Send
}

/// An actor that can sit behind the link. The wrapper owns the timer, so
/// the wrapped actor's handlers must never emit timer commands: verified
/// implementations prove it here, and the wrapper's command processing is
/// specified only for send-only outputs, so the restriction is settled at
/// verification time rather than at run time.
pub trait Wrappable: Actor {
    /// No handler of this actor emits a timer command.
    proof fn no_timer_commands(
        &self,
        id: Id,
        state: VOf<Self::State>,
        src: Id,
        msg: VOf<Self::Msg>,
    )
        ensures
            sends_only(self.start_view(id).commands),
            sends_only(self.msg_view(id, state, src, msg).commands),
            sends_only(self.timeout_view(id, state).commands),
    ;
}

/// Wraps an actor with the link, retransmitting unacknowledged messages
/// each time the timer in `resend_interval` fires.
#[derive(Clone)]
pub struct ActorWrapper<A: Actor> {
    pub resend_interval: TimerRange,
    pub wrapped_actor: A,
}

/// The wrapper state and emitted wire commands after the wrapped actor's
/// commands are processed in order: each send is assigned the next
/// sequencer, transmitted as `Deliver`, and recorded as pending. Timer
/// commands never occur for a wrappable actor; they are ignored here so
/// that the function is total.
pub open spec fn process_commands<MsgV, StateV>(
    cmds: Seq<ActorOutput<MsgV>>,
    sw: StateWrapperView<MsgV, StateV>,
) -> (StateWrapperView<MsgV, StateV>, Seq<ActorOutput<MsgWrapper<MsgV>>>)
    decreases cmds.len(),
{
    if cmds.len() <= 0 {
        (sw, Seq::empty())
    } else {
        match cmds[0] {
            ActorOutput::Send { dst, msg } => {
                let s = sw.next_send_seq;
                let sw2 = StateWrapperView {
                    next_send_seq: vstd::wrapping::u64_specs::wrapping_add(s, 1),
                    msgs_pending_ack: om_insert(sw.msgs_pending_ack, s, (dst, msg)),
                    last_delivered_seqs: sw.last_delivered_seqs,
                    wrapped_state: sw.wrapped_state,
                };
                let rest = process_commands(cmds.drop_first(), sw2);
                (
                    rest.0,
                    seq![ActorOutput::Send { dst, msg: MsgWrapper::Deliver(s, msg) }] + rest.1,
                )
            },
            ActorOutput::SetTimer { range } => process_commands(cmds.drop_first(), sw),
            ActorOutput::CancelTimer => process_commands(cmds.drop_first(), sw),
        }
    }
}

/// The wrapper state and wire commands after one wrapped handler's whole
/// output is processed: the replacement state is taken first, then the
/// commands.
pub open spec fn process_output_view<MsgV, StateV>(
    out: OutView<MsgV, StateV>,
    sw: StateWrapperView<MsgV, StateV>,
) -> (StateWrapperView<MsgV, StateV>, Seq<ActorOutput<MsgWrapper<MsgV>>>) {
    let sw1 = match out.state {
        Some(ws) => StateWrapperView {
            next_send_seq: sw.next_send_seq,
            msgs_pending_ack: sw.msgs_pending_ack,
            last_delivered_seqs: sw.last_delivered_seqs,
            wrapped_state: ws,
        },
        None => sw,
    };
    process_commands(out.commands, sw1)
}

/// The retransmission commands for the pending entries, in sequencer
/// order.
pub open spec fn resend_commands<MsgV>(entries: Seq<(u64, (Id, MsgV))>) -> Seq<
    ActorOutput<MsgWrapper<MsgV>>,
>
    decreases entries.len(),
{
    if entries.len() <= 0 {
        Seq::empty()
    } else {
        seq![
            ActorOutput::Send {
                dst: entries[0].1.0,
                msg: MsgWrapper::Deliver(entries[0].0, entries[0].1.1),
            },
        ] + resend_commands(entries.drop_first())
    }
}

/// Apply the wrapped actor's output to the wrapper state and record the
/// resulting wire sends and replacement state.
///
/// Relied on by every wrapper handler; the wrapped actor must be
/// wrappable, so its output holds no timer command.
pub fn process_output<A: Wrappable>(
    wrapped_out: Out<A::Msg, A::State>,
    state: StateWrapper<A::Msg, A::State>,
    o: &mut Out<MsgWrapper<A::Msg>, StateWrapper<A::Msg, A::State>>,
)
    requires
        sends_only(command_values(wrapped_out.commands.0@)),
    ensures
        final(o)@ == (OutView {
            state: Some(process_output_view(wrapped_out@, state.value()).0),
            commands: old(o)@.commands + process_output_view(wrapped_out@, state.value()).1,
        }),
{
    let ghost target = process_output_view(wrapped_out@, state.value());
    let ghost o0cmds = o@.commands;
    let Out { state: ost, commands: cmds } = wrapped_out;
    let mut sw = state;
    match ost {
        Some(ws) => {
            sw.wrapped_state = ws;
        },
        None => {},
    }
    let ghost all = command_values(cmds.0@);
    let n = cmds.0.len();
    let mut k: usize = 0;
    proof {
        assert(all.skip(0) =~= all);
        assert(o@.commands + process_commands(all.skip(0), sw.value()).1 =~= o0cmds + target.1);
    }
    while k < n
        invariant
            k <= n,
            n == cmds.0@.len(),
            all == command_values(cmds.0@),
            all.len() == n,
            sends_only(all),
            o@.state == old(o)@.state,
            process_commands(all.skip(k as int), sw.value()).0 == target.0,
            o@.commands + process_commands(all.skip(k as int), sw.value()).1 == o0cmds + target.1,
        decreases n - k,
    {
        proof {
            assert(all.skip(k as int).drop_first() =~= all.skip(k as int + 1));
            assert(all.skip(k as int)[0] == all[k as int]);
            assert(all[k as int] == crate::actor::command_value(cmds.0@[k as int]));
            assert(all[k as int] is Send);
        }
        let ghost sw_b = sw.value();
        let ghost ocmds_b = o@.commands;
        match &cmds.0[k] {
            ActorOutput::Send { dst, msg } => {
                let s = sw.next_send_seq;
                o.send(*dst, MsgWrapper::Deliver(s, msg.dup()));
                sw.msgs_pending_ack.insert(s, (*dst, msg.dup()));
                sw.next_send_seq = s.wrapping_add(1);
                proof {
                    let mv = cmds.0@[k as int]->Send_msg.value();
                    assert(sw.value() =~= (StateWrapperView {
                        next_send_seq: vstd::wrapping::u64_specs::wrapping_add(s, 1),
                        msgs_pending_ack: om_insert(sw_b.msgs_pending_ack, s, (*dst, mv)),
                        last_delivered_seqs: sw_b.last_delivered_seqs,
                        wrapped_state: sw_b.wrapped_state,
                    }));
                    assert(o@.commands =~= ocmds_b.push(
                        ActorOutput::Send { dst: *dst, msg: MsgWrapper::Deliver(s, mv) },
                    ));
                    assert(ocmds_b + process_commands(all.skip(k as int), sw_b).1 =~= o@.commands
                        + process_commands(all.skip(k as int + 1), sw.value()).1);
                }
            },
            ActorOutput::SetTimer { range } => {
                proof {
                    assert(false);
                }
            },
            ActorOutput::CancelTimer => {
                proof {
                    assert(false);
                }
            },
        }
        k = k + 1;
    }
    proof {
        assert(all.skip(n as int) =~= Seq::<ActorOutput<VOf<A::Msg>>>::empty());
        assert(sw.value() == target.0);
        assert(o@.commands =~= o0cmds + target.1);
    }
    o.set_state(sw);
}

impl<A: Wrappable> Actor for ActorWrapper<A> {
    type Msg = MsgWrapper<A::Msg>;

    type State = StateWrapper<A::Msg, A::State>;

    open spec fn start_view(&self, id: Id) -> OutView<
        MsgWrapper<VOf<A::Msg>>,
        StateWrapperView<VOf<A::Msg>, VOf<A::State>>,
    > {
        let inner = self.wrapped_actor.start_view(id);
        let sw0 = StateWrapperView {
            next_send_seq: 1u64,
            msgs_pending_ack: Seq::empty(),
            last_delivered_seqs: Seq::empty(),
            wrapped_state: inner.state->Some_0,
        };
        let p = process_output_view(
            OutView { state: None, commands: inner.commands },
            sw0,
        );
        OutView {
            state: Some(p.0),
            commands: seq![ActorOutput::SetTimer { range: self.resend_interval }] + p.1,
        }
    }

    proof fn start_sets_state(&self, id: Id) {
    }

    open spec fn msg_view(
        &self,
        id: Id,
        state: StateWrapperView<VOf<A::Msg>, VOf<A::State>>,
        src: Id,
        msg: MsgWrapper<VOf<A::Msg>>,
    ) -> OutView<MsgWrapper<VOf<A::Msg>>, StateWrapperView<VOf<A::Msg>, VOf<A::State>>> {
        match msg {
            MsgWrapper::Deliver(seq, m) => {
                let ack = ActorOutput::Send { dst: src, msg: MsgWrapper::Ack(seq) };
                if seq <= om_get_or_zero(state.last_delivered_seqs, src.0) {
                    OutView { state: None, commands: seq![ack] }
                } else {
                    let inner = self.wrapped_actor.msg_view(id, state.wrapped_state, src, m);
                    if inner.is_no_op() {
                        OutView { state: None, commands: seq![ack] }
                    } else {
                        let sw1 = StateWrapperView {
                            next_send_seq: state.next_send_seq,
                            msgs_pending_ack: state.msgs_pending_ack,
                            last_delivered_seqs: om_insert(
                                state.last_delivered_seqs,
                                src.0,
                                seq,
                            ),
                            wrapped_state: state.wrapped_state,
                        };
                        let p = process_output_view(inner, sw1);
                        OutView { state: Some(p.0), commands: seq![ack] + p.1 }
                    }
                }
            },
            MsgWrapper::Ack(seq) => {
                if om_contains(state.msgs_pending_ack, seq) {
                    OutView {
                        state: Some(
                            StateWrapperView {
                                next_send_seq: state.next_send_seq,
                                msgs_pending_ack: om_remove(state.msgs_pending_ack, seq),
                                last_delivered_seqs: state.last_delivered_seqs,
                                wrapped_state: state.wrapped_state,
                            },
                        ),
                        commands: Seq::empty(),
                    }
                } else {
                    OutView { state: None, commands: Seq::empty() }
                }
            },
        }
    }

    open spec fn timeout_view(&self, id: Id, state: StateWrapperView<VOf<A::Msg>, VOf<A::State>>)
        -> OutView<MsgWrapper<VOf<A::Msg>>, StateWrapperView<VOf<A::Msg>, VOf<A::State>>> {
        OutView {
            state: None,
            commands: seq![ActorOutput::SetTimer { range: self.resend_interval }]
                + resend_commands(state.msgs_pending_ack),
        }
    }

    fn on_start(&self, id: Id, o: &mut Out<Self::Msg, Self::State>) {
        o.set_timer(self.resend_interval);
        let mut inner_out: Out<A::Msg, A::State> = Out::new();
        self.wrapped_actor.on_start(id, &mut inner_out);
        let Out { state: ist, commands: icmds } = inner_out;
        let wrapped_state = match ist {
            Some(st) => st,
            None => {
                proof {
                    self.wrapped_actor.start_sets_state(id);
                    assert(false);
                }
                vstd::pervasive::unreached()
            },
        };
        let state = StateWrapper {
            next_send_seq: 1u64,
            msgs_pending_ack: OrdMap::new(),
            last_delivered_seqs: OrdMap::new(),
            wrapped_state,
        };
        proof {
            self.wrapped_actor.no_timer_commands(
                id,
                state.wrapped_state.value(),
                id,
                arbitrary(),
            );
            assert(state.value() =~= (StateWrapperView {
                next_send_seq: 1u64,
                msgs_pending_ack: Seq::empty(),
                last_delivered_seqs: Seq::empty(),
                wrapped_state: self.wrapped_actor.start_view(id).state->Some_0,
            }));
        }
        process_output::<A>(
            Out { state: None, commands: icmds },
            state,
            o,
        );
        proof {
            assert(o@ =~= self.start_view(id));
        }
    }

    fn on_msg(
        &self,
        id: Id,
        state: &Self::State,
        src: Id,
        msg: Self::Msg,
        o: &mut Out<Self::Msg, Self::State>,
    ) {
        match msg {
            MsgWrapper::Deliver(seq, m) => {
                // Always acknowledge, to suppress retransmission; consume
                // only sequencers above the high-water mark.
                let ghost mv = m.value();
                o.send(src, MsgWrapper::Ack(seq));
                let last: u64 = match state.last_delivered_seqs.get(src.0) {
                    Some(v) => *v,
                    None => 0,
                };
                if seq <= last {
                    proof {
                        assert(o@ =~= self.msg_view(id, state.value(), src, MsgWrapper::Deliver(
                            seq,
                            mv,
                        )));
                    }
                    return ;
                }
                let mut inner_out: Out<A::Msg, A::State> = Out::new();
                self.wrapped_actor.on_msg(id, &state.wrapped_state, src, m, &mut inner_out);
                if inner_out.is_no_op() {
                    proof {
                        assert(o@ =~= self.msg_view(id, state.value(), src, MsgWrapper::Deliver(
                            seq,
                            mv,
                        )));
                    }
                    return ;
                }
                // First consumption of this sequencer: advance the mark and
                // apply the wrapped actor's output.
                let mut state2 = state.dup();
                state2.last_delivered_seqs.insert(src.0, seq);
                proof {
                    self.wrapped_actor.no_timer_commands(id, state.value().wrapped_state, src, mv);
                    assert(state2.value() =~= (StateWrapperView {
                        next_send_seq: state.value().next_send_seq,
                        msgs_pending_ack: state.value().msgs_pending_ack,
                        last_delivered_seqs: om_insert(
                            state.value().last_delivered_seqs,
                            src.0,
                            seq,
                        ),
                        wrapped_state: state.value().wrapped_state,
                    }));
                }
                process_output::<A>(inner_out, state2, o);
                proof {
                    assert(o@ =~= self.msg_view(id, state.value(), src, MsgWrapper::Deliver(
                        seq,
                        mv,
                    )));
                }
            },
            MsgWrapper::Ack(seq) => {
                if !state.msgs_pending_ack.contains_key(seq) {
                    proof {
                        assert(o@ =~= self.msg_view(id, state.value(), src, MsgWrapper::Ack(seq)));
                    }
                    return ;
                }
                let mut state2 = state.dup();
                state2.msgs_pending_ack.remove(seq);
                o.set_state(state2);
                proof {
                    assert(o@ =~= self.msg_view(id, state.value(), src, MsgWrapper::Ack(seq)));
                }
            },
        }
    }

    fn on_timeout(&self, id: Id, state: &Self::State, o: &mut Out<Self::Msg, Self::State>) {
        o.set_timer(self.resend_interval);
        let ghost pending = state.value().msgs_pending_ack;
        let n = state.msgs_pending_ack.entries.len();
        let mut i: usize = 0;
        proof {
            assert(pending.skip(0) =~= pending);
            assert(o@.commands + resend_commands(pending.skip(0)) =~= seq![
                ActorOutput::<MsgWrapper<VOf<A::Msg>>>::SetTimer { range: self.resend_interval },
            ] + resend_commands(pending));
        }
        while i < n
            invariant
                i <= n,
                n == state.msgs_pending_ack.entries@.len(),
                pending == state.value().msgs_pending_ack,
                pending.len() == n,
                o@.state is None,
                o@.commands + resend_commands(pending.skip(i as int)) == seq![
                    ActorOutput::<MsgWrapper<VOf<A::Msg>>>::SetTimer {
                        range: self.resend_interval,
                    },
                ] + resend_commands(pending),
            decreases n - i,
        {
            proof {
                assert(pending.skip(i as int).drop_first() =~= pending.skip(i as int + 1));
                assert(pending.skip(i as int)[0] == pending[i as int]);
                assert(pending[i as int] == state.msgs_pending_ack.entries@[i as int].value());
            }
            let ghost ocmds_b = o@.commands;
            let dst = state.msgs_pending_ack.entries[i].1.0;
            let sq = state.msgs_pending_ack.entries[i].0;
            o.send(dst, MsgWrapper::Deliver(sq, state.msgs_pending_ack.entries[i].1.1.dup()));
            proof {
                assert(ocmds_b + resend_commands(pending.skip(i as int)) =~= o@.commands
                    + resend_commands(pending.skip(i as int + 1)));
            }
            i = i + 1;
        }
        proof {
            assert(resend_commands(pending.skip(n as int)) =~= Seq::<
                ActorOutput<MsgWrapper<VOf<A::Msg>>>,
            >::empty());
            assert(o@.commands =~= o@.commands + resend_commands(pending.skip(n as int)));
            assert(o@ =~= self.timeout_view(id, state.value()));
        }
    }
}

/// The highest sequencer already consumed from sender `src`, zero when
/// none has been.
pub open spec fn last_delivered_of<MsgV, StateV>(
    sv: StateWrapperView<MsgV, StateV>,
    src: Id,
) -> u64 {
    om_get_or_zero(sv.last_delivered_seqs, src.0)
}

/// Whether handling `Deliver(seq, m)` from `src` in state `sv` hands the
/// payload to the wrapped actor: the sequencer is new, and the wrapped
/// actor does not ignore it.
pub open spec fn inner_delivery<A: Wrappable>(
    w: ActorWrapper<A>,
    id: Id,
    sv: StateWrapperView<VOf<A::Msg>, VOf<A::State>>,
    src: Id,
    seq: u64,
    m: VOf<A::Msg>,
) -> bool {
    seq > last_delivered_of(sv, src) && !w.wrapped_actor.msg_view(
        id,
        sv.wrapped_state,
        src,
        m,
    ).is_no_op()
}

/// Processing commands never touches the consumed high-water marks.
proof fn lemma_process_commands_marks<MsgV, StateV>(
    cmds: Seq<ActorOutput<MsgV>>,
    sw: StateWrapperView<MsgV, StateV>,
)
    ensures
        process_commands(cmds, sw).0.last_delivered_seqs == sw.last_delivered_seqs,
    decreases cmds.len(),
{
    if cmds.len() > 0 {
        match cmds[0] {
            ActorOutput::Send { dst, msg } => {
                let s = sw.next_send_seq;
                let sw2 = StateWrapperView {
                    next_send_seq: vstd::wrapping::u64_specs::wrapping_add(s, 1),
                    msgs_pending_ack: om_insert(sw.msgs_pending_ack, s, (dst, msg)),
                    last_delivered_seqs: sw.last_delivered_seqs,
                    wrapped_state: sw.wrapped_state,
                };
                lemma_process_commands_marks(cmds.drop_first(), sw2);
            },
            ActorOutput::SetTimer { range } => {
                lemma_process_commands_marks(cmds.drop_first(), sw);
            },
            ActorOutput::CancelTimer => {
                lemma_process_commands_marks(cmds.drop_first(), sw);
            },
        }
    }
}

/// No redelivery, and ordered: the wrapper hands `Deliver(seq, m)` from
/// `src` to the wrapped actor only when `seq` strictly exceeds every
/// sequencer already consumed from `src`, and afterwards `seq` is the
/// consumed high-water mark for `src`; when it does not hand the payload
/// over, the wrapper state is left unchanged. So the sequencers consumed
/// from any one sender strictly increase along every run, and no
/// sequencer is consumed twice.
pub proof fn lemma_no_redelivery_and_ordered<A: Wrappable>(
    w: ActorWrapper<A>,
    id: Id,
    sv: StateWrapperView<VOf<A::Msg>, VOf<A::State>>,
    src: Id,
    seq: u64,
    m: VOf<A::Msg>,
)
    ensures
        inner_delivery(w, id, sv, src, seq, m) ==> seq > last_delivered_of(sv, src),
        inner_delivery(w, id, sv, src, seq, m) ==> (w.msg_view(
            id,
            sv,
            src,
            MsgWrapper::Deliver(seq, m),
        ).state matches Some(sv2) && last_delivered_of(sv2, src) == seq),
        !inner_delivery(w, id, sv, src, seq, m) ==> w.msg_view(
            id,
            sv,
            src,
            MsgWrapper::Deliver(seq, m),
        ).state is None,
{
    if inner_delivery(w, id, sv, src, seq, m) {
        let inner = w.wrapped_actor.msg_view(id, sv.wrapped_state, src, m);
        let sw1 = StateWrapperView {
            next_send_seq: sv.next_send_seq,
            msgs_pending_ack: sv.msgs_pending_ack,
            last_delivered_seqs: om_insert(sv.last_delivered_seqs, src.0, seq),
            wrapped_state: sv.wrapped_state,
        };
        lemma_om_get_insert(sv.last_delivered_seqs, src.0, seq);
        let sw1b = match inner.state {
            Some(ws) => StateWrapperView {
                next_send_seq: sw1.next_send_seq,
                msgs_pending_ack: sw1.msgs_pending_ack,
                last_delivered_seqs: sw1.last_delivered_seqs,
                wrapped_state: ws,
            },
            None => sw1,
        };
        lemma_process_commands_marks(inner.commands, sw1b);
    }
}

/// The number of send commands in a command list.
pub open spec fn send_count<MsgV>(cmds: Seq<ActorOutput<MsgV>>) -> nat
    decreases cmds.len(),
{
    if cmds.len() <= 0 {
        0
    } else {
        (if cmds[0] is Send {
            1nat
        } else {
            0nat
        }) + send_count(cmds.drop_first())
    }
}

/// The sequencer is strictly monotonic in the number of sends performed:
/// as long as it does not overflow, processing a command list advances
/// `next_send_seq` by exactly the number of sends.
pub proof fn lemma_send_seq_monotonic<MsgV, StateV>(
    cmds: Seq<ActorOutput<MsgV>>,
    sw: StateWrapperView<MsgV, StateV>,
)
    requires
        sw.next_send_seq + send_count(cmds) <= u64::MAX,
    ensures
        process_commands(cmds, sw).0.next_send_seq == sw.next_send_seq + send_count(cmds),
    decreases cmds.len(),
{
    if cmds.len() > 0 {
        match cmds[0] {
            ActorOutput::Send { dst, msg } => {
                let s = sw.next_send_seq;
                let sw2 = StateWrapperView {
                    next_send_seq: vstd::wrapping::u64_specs::wrapping_add(s, 1),
                    msgs_pending_ack: om_insert(sw.msgs_pending_ack, s, (dst, msg)),
                    last_delivered_seqs: sw.last_delivered_seqs,
                    wrapped_state: sw.wrapped_state,
                };
                lemma_send_seq_monotonic(cmds.drop_first(), sw2);
            },
            ActorOutput::SetTimer { range } => {
                lemma_send_seq_monotonic(cmds.drop_first(), sw);
            },
            ActorOutput::CancelTimer => {
                lemma_send_seq_monotonic(cmds.drop_first(), sw);
            },
        }
    }
}

} // verus!
