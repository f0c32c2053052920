//! A small message-recording actor and a ready-made system around it,
//! used to exercise the ordered reliable link end to end: a sender emits
//! two messages through the link over a lossy duplicating network, and a
//! receiver records what the link hands its wrapped actor, so the link's
//! delivery guarantees become checkable properties of the lifted system.

use vstd::prelude::*;
use crate::actor::ordered_reliable_link::{
    ActorWrapper, MsgWrapper, StateWrapperView, Wrappable,
};
use crate::actor::system::{
    DuplicatingNetwork, LossyNetwork, SnapshotView, System, SystemState,
};
use crate::actor::{Actor, Envelope, Id, Out, OutView, TimerRange};
use crate::checker::{Expectation, Property};
use crate::fingerprint::{fp_fold, fp_mix, fingerprint_fold, mix, values_of, ModelValue, FP_SEED};

verus! {

/// A payload carried through the link.
#[derive(Clone, Hash, PartialEq, Eq, Debug)]
pub struct RecordedMsg(pub u64);

impl ModelValue for RecordedMsg {
    type V = RecordedMsg;

    open spec fn value(&self) -> RecordedMsg {
        *self
    }

    open spec fn fp_of(v: RecordedMsg) -> u64 {
        fp_mix(FP_SEED, v.0)
    }

    fn fingerprint(&self) -> (r: u64) {
        mix(FP_SEED, self.0)
    }

    fn dup(&self) -> (r: Self) {
        RecordedMsg(self.0)
    }

    fn eq_val(&self, other: &Self) -> (r: bool) {
        self.0 == other.0
    }
}

/// What a recording actor has seen: every message it sent and every
/// message handed to it, each with the peer's identifier.
#[derive(PartialEq, Eq, Hash, Debug)]
pub struct RecorderState {
    pub sent: Vec<(Id, RecordedMsg)>,
    pub received: Vec<(Id, RecordedMsg)>,
}

/// The abstract value of a recorder's state.
#[verifier::ext_equal]
pub ghost struct RecorderStateView {
    pub sent: Seq<(Id, RecordedMsg)>,
    pub received: Seq<(Id, RecordedMsg)>,
}

impl ModelValue for RecorderState {
    type V = RecorderStateView;

    open spec fn value(&self) -> RecorderStateView {
        RecorderStateView { sent: values_of(self.sent@), received: values_of(self.received@) }
    }

    open spec fn fp_of(v: RecorderStateView) -> u64 {
        fp_mix(
            fp_fold::<(Id, RecordedMsg)>(FP_SEED, v.sent),
            fp_fold::<(Id, RecordedMsg)>(FP_SEED, v.received),
        )
    }

    fn fingerprint(&self) -> (r: u64) {
        mix(
            fingerprint_fold(FP_SEED, &self.sent),
            fingerprint_fold(FP_SEED, &self.received),
        )
    }

    fn dup(&self) -> (r: Self) {
        let r = RecorderState {
            sent: crate::fingerprint::dup_vec(&self.sent),
            received: crate::fingerprint::dup_vec(&self.received),
        };
        proof {
            assert(r.value() =~= self.value());
        }
        r
    }

    fn eq_val(&self, other: &Self) -> (r: bool) {
        let r = crate::fingerprint::eq_vec(&self.sent, &other.sent)
            && crate::fingerprint::eq_vec(&self.received, &other.received);
        proof {
            if r {
                assert(self.value() =~= other.value());
            }
        }
        r
    }
}

/// A recording actor: the sender emits two fixed messages when started;
/// both sides append every delivery to their received list. No handler
/// touches a timer, so the actor can sit behind the link.
pub enum RecordingActor {
    Sender { receiver_id: Id },
    Receiver,
}

impl Actor for RecordingActor {
    type Msg = RecordedMsg;

    type State = RecorderState;

    open spec fn start_view(&self, id: Id) -> OutView<RecordedMsg, RecorderStateView> {
        match *self {
            RecordingActor::Sender { receiver_id } => OutView {
                state: Some(RecorderStateView { sent: Seq::empty(), received: Seq::empty() }),
                commands: seq![
                    crate::actor::ActorOutput::Send { dst: receiver_id, msg: RecordedMsg(42) },
                    crate::actor::ActorOutput::Send { dst: receiver_id, msg: RecordedMsg(43) },
                ],
            },
            RecordingActor::Receiver => OutView {
                state: Some(RecorderStateView { sent: Seq::empty(), received: Seq::empty() }),
                commands: Seq::empty(),
            },
        }
    }

    proof fn start_sets_state(&self, id: Id) {
    }

    open spec fn msg_view(&self, id: Id, state: RecorderStateView, src: Id, msg: RecordedMsg)
        -> OutView<RecordedMsg, RecorderStateView> {
        OutView {
            state: Some(
                RecorderStateView {
                    sent: state.sent,
                    received: state.received.push((src, msg)),
                },
            ),
            commands: Seq::empty(),
        }
    }

    open spec fn timeout_view(&self, id: Id, state: RecorderStateView) -> OutView<
        RecordedMsg,
        RecorderStateView,
    > {
        OutView { state: None, commands: Seq::empty() }
    }

    fn on_start(&self, id: Id, o: &mut Out<RecordedMsg, RecorderState>) {
        let state = RecorderState { sent: Vec::new(), received: Vec::new() };
        match self {
            RecordingActor::Sender { receiver_id } => {
                o.send(*receiver_id, RecordedMsg(42));
                o.send(*receiver_id, RecordedMsg(43));
            },
            RecordingActor::Receiver => {},
        }
        o.set_state(state);
        proof {
            assert(o@ =~= self.start_view(id));
        }
    }

    fn on_msg(
        &self,
        id: Id,
        state: &RecorderState,
        src: Id,
        msg: RecordedMsg,
        o: &mut Out<RecordedMsg, RecorderState>,
    ) {
        let ghost mv = msg.value();
        let mut state2 = state.dup();
        state2.received.push((src, msg));
        proof {
            assert(state2.value().received =~= state.value().received.push((src, mv)));
        }
        o.set_state(state2);
        proof {
            assert(o@ =~= self.msg_view(id, state.value(), src, mv));
        }
    }

    fn on_timeout(&self, id: Id, state: &RecorderState, o: &mut Out<RecordedMsg, RecorderState>) {
        proof {
            assert(o@ =~= self.timeout_view(id, state.value()));
        }
    }
}

impl Wrappable for RecordingActor {
    proof fn no_timer_commands(&self, id: Id, state: RecorderStateView, src: Id, msg: RecordedMsg) {
    }
}

/// How many entries of `received` carry the payload `v`.
pub open spec fn received_count(received: Seq<(Id, RecordedMsg)>, v: u64) -> nat
    decreases received.len(),
{
    if received.len() <= 0 {
        0
    } else {
        (if received[0].1.0 == v {
            1nat
        } else {
            0nat
        }) + received_count(received.drop_first(), v)
    }
}

/// Whether the payloads of `received` are non-decreasing.
pub open spec fn received_ordered(received: Seq<(Id, RecordedMsg)>) -> bool {
    forall|i: int| 0 <= i < received.len() - 1 ==> (#[trigger] received[i]).1.0 <= received[i
        + 1].1.0
}

/// The receiver's inner received list in a snapshot of the link system;
/// the empty sequence when the snapshot has no receiver.
pub open spec fn receiver_log(
    state: SnapshotView<MsgWrapper<RecordedMsg>, StateWrapperView<RecordedMsg, RecorderStateView>>,
) -> Seq<(Id, RecordedMsg)> {
    if state.actor_states.len() < 2 {
        Seq::empty()
    } else {
        state.actor_states[1].wrapped_state.received
    }
}

/// A sender and a receiver joined by the ordered reliable link over a
/// lossy duplicating network, with the link's delivery guarantees attached
/// as properties: no payload is handed to the receiver's inner actor
/// twice, payloads arrive in order, and a state where both payloads have
/// arrived is reachable.
pub struct LinkTestSystem;

impl LinkTestSystem {
    /// The bound each side's recorded lists stay under during checking.
    pub open spec fn log_bound() -> int {
        4
    }
}

impl System for LinkTestSystem {
    type Actor = ActorWrapper<RecordingActor>;

    open spec fn actors_view(&self) -> Seq<ActorWrapper<RecordingActor>> {
        seq![
            ActorWrapper {
                resend_interval: TimerRange { low_ms: 1000, high_ms: 2000 },
                wrapped_actor: RecordingActor::Sender { receiver_id: Id(1) },
            },
            ActorWrapper {
                resend_interval: TimerRange { low_ms: 1000, high_ms: 2000 },
                wrapped_actor: RecordingActor::Receiver,
            },
        ]
    }

    fn actors(&self) -> (r: Vec<ActorWrapper<RecordingActor>>) {
        let mut v: Vec<ActorWrapper<RecordingActor>> = Vec::new();
        v.push(
            ActorWrapper {
                resend_interval: TimerRange { low_ms: 1000, high_ms: 2000 },
                wrapped_actor: RecordingActor::Sender { receiver_id: Id(1) },
            },
        );
        v.push(
            ActorWrapper {
                resend_interval: TimerRange { low_ms: 1000, high_ms: 2000 },
                wrapped_actor: RecordingActor::Receiver,
            },
        );
        proof {
            assert(v@ =~= self.actors_view());
        }
        v
    }

    open spec fn init_network_view(&self) -> Seq<Envelope<MsgWrapper<RecordedMsg>>> {
        Seq::empty()
    }

    fn init_network(&self) -> (r: Vec<Envelope<MsgWrapper<RecordedMsg>>>) {
        let r: Vec<Envelope<MsgWrapper<RecordedMsg>>> = Vec::new();
        proof {
            assert(r@ =~= self.init_network_view());
        }
        r
    }

    open spec fn lossy_view(&self) -> LossyNetwork {
        LossyNetwork::Yes
    }

    fn lossy_network(&self) -> (r: LossyNetwork) {
        LossyNetwork::Yes
    }

    open spec fn duplicating_view(&self) -> DuplicatingNetwork {
        DuplicatingNetwork::Yes
    }

    fn duplicating_network(&self) -> (r: DuplicatingNetwork) {
        DuplicatingNetwork::Yes
    }

    open spec fn properties_decl(&self) -> Seq<Property> {
        seq![
            Property { expectation: Expectation::Always, name: "no redelivery" },
            Property { expectation: Expectation::Always, name: "ordered" },
            Property { expectation: Expectation::Sometimes, name: "delivered" },
        ]
    }

    fn properties(&self) -> (r: Vec<Property>) {
        let mut v: Vec<Property> = Vec::new();
        v.push(Property { expectation: Expectation::Always, name: "no redelivery" });
        v.push(Property { expectation: Expectation::Always, name: "ordered" });
        v.push(Property { expectation: Expectation::Sometimes, name: "delivered" });
        proof {
            assert(v@ =~= self.properties_decl());
        }
        v
    }

    open spec fn property_holds(
        &self,
        i: int,
        state: SnapshotView<
            MsgWrapper<RecordedMsg>,
            StateWrapperView<RecordedMsg, RecorderStateView>,
        >,
    ) -> bool {
        if i == 0 {
            received_count(receiver_log(state), 42) < 2 && received_count(receiver_log(state), 43)
                < 2
        } else if i == 1 {
            received_ordered(receiver_log(state))
        } else if i == 2 {
            receiver_log(state) == seq![(Id(0), RecordedMsg(42)), (Id(0), RecordedMsg(43))]
        } else {
            true
        }
    }

    fn eval_property(
        &self,
        i: usize,
        state: &SystemState<ActorWrapper<RecordingActor>>,
    ) -> (r: bool) {
        let ghost log = receiver_log(state.value());
        if state.actor_states.len() < 2 {
            proof {
                assert(log =~= Seq::<(Id, RecordedMsg)>::empty());
            }
            if i == 0 {
                true
            } else if i == 1 {
                true
            } else if i == 2 {
                proof {
                    assert(log != seq![(Id(0), RecordedMsg(42)), (Id(0), RecordedMsg(43))]) by {
                        assert(seq![(Id(0), RecordedMsg(42)), (Id(0), RecordedMsg(43))].len()
                            == 2);
                    }
                }
                false
            } else {
                true
            }
        } else {
            let received = &state.actor_states[1].wrapped_state.received;
            proof {
                assert(log == values_of(received@));
            }
            if i == 0 {
                let c42 = count_payload(received, 42);
                let c43 = count_payload(received, 43);
                c42 < 2 && c43 < 2
            } else if i == 1 {
                is_ordered(received)
            } else if i == 2 {
                let r = received.len() == 2 && received[0].0.0 == 0 && received[0].1.0 == 42
                    && received[1].0.0 == 0 && received[1].1.0 == 43;
                proof {
                    let want = seq![(Id(0), RecordedMsg(42)), (Id(0), RecordedMsg(43))];
                    if r {
                        assert(log =~= want);
                    } else {
                        if log == want {
                            assert(log.len() == 2);
                            assert(log[0] == (Id(0), RecordedMsg(42)));
                            assert(log[1] == (Id(0), RecordedMsg(43)));
                        }
                    }
                }
                r
            } else {
                true
            }
        }
    }

    open spec fn boundary_view(
        &self,
        state: SnapshotView<
            MsgWrapper<RecordedMsg>,
            StateWrapperView<RecordedMsg, RecorderStateView>,
        >,
    ) -> bool {
        forall|i: int|
            0 <= i < state.actor_states.len() ==> {
                &&& (#[trigger] state.actor_states[i]).wrapped_state.sent.len()
                    < LinkTestSystem::log_bound()
                &&& state.actor_states[i].wrapped_state.received.len()
                    < LinkTestSystem::log_bound()
            }
    }

    fn within_boundary(&self, state: &SystemState<ActorWrapper<RecordingActor>>) -> (r: bool) {
        let n = state.actor_states.len();
        let mut i: usize = 0;
        while i < n
            invariant
                i <= n,
                n == state.actor_states@.len(),
                forall|j: int|
                    0 <= j < i ==> {
                        &&& (#[trigger] state.value().actor_states[j]).wrapped_state.sent.len()
                            < LinkTestSystem::log_bound()
                        &&& state.value().actor_states[j].wrapped_state.received.len()
                            < LinkTestSystem::log_bound()
                    },
            decreases n - i,
        {
            let ok = state.actor_states[i].wrapped_state.sent.len() < 4
                && state.actor_states[i].wrapped_state.received.len() < 4;
            if !ok {
                proof {
                    assert(state.value().actor_states[i as int]
                        == state.actor_states@[i as int].value());
                }
                return false;
            }
            proof {
                assert(state.value().actor_states[i as int]
                    == state.actor_states@[i as int].value());
            }
            i = i + 1;
        }
        true
    }
}

/// Count the entries of `received` carrying payload `v`.
fn count_payload(received: &Vec<(Id, RecordedMsg)>, v: u64) -> (r: usize)
    ensures
        r == received_count(values_of(received@), v),
{
    let ghost vals = values_of(received@);
    let mut c: usize = 0;
    let mut i: usize = 0;
    proof {
        assert(vals.skip(0) =~= vals);
    }
    while i < received.len()
        invariant
            i <= received.len(),
            c <= i,
            vals == values_of(received@),
            vals.len() == received@.len(),
            c + received_count(vals.skip(i as int), v) == received_count(vals, v),
        decreases received.len() - i,
    {
        proof {
            assert(vals.skip(i as int).drop_first() =~= vals.skip(i as int + 1));
            assert(vals.skip(i as int)[0] == vals[i as int]);
            assert(vals[i as int] == received@[i as int].value());
        }
        if received[i].1.0 == v {
            c = c + 1;
        }
        i = i + 1;
    }
    proof {
        assert(vals.skip(vals.len() as int) =~= Seq::<(Id, RecordedMsg)>::empty());
    }
    c
}

/// A count never exceeds the list's length.
proof fn lemma_received_count_bound(received: Seq<(Id, RecordedMsg)>, v: u64)
    ensures
        received_count(received, v) <= received.len(),
    decreases received.len(),
{
    if received.len() > 0 {
        lemma_received_count_bound(received.drop_first(), v);
    }
}

/// Decide whether the payloads of `received` are non-decreasing.
fn is_ordered(received: &Vec<(Id, RecordedMsg)>) -> (r: bool)
    ensures
        r == received_ordered(values_of(received@)),
{
    let ghost vals = values_of(received@);
    if received.len() == 0 {
        return true;
    }
    let mut i: usize = 0;
    while i < received.len() - 1
        invariant
            received@.len() > 0,
            i <= received@.len() - 1,
            vals == values_of(received@),
            vals.len() == received@.len(),
            forall|j: int| 0 <= j < i ==> (#[trigger] vals[j]).1.0 <= vals[j + 1].1.0,
        decreases received.len() - i,
    {
        if received[i].1.0 > received[i + 1].1.0 {
            proof {
                assert(vals[i as int] == received@[i as int].value());
                assert(vals[i as int + 1] == received@[i as int + 1].value());
                assert(!received_ordered(vals));
            }
            return false;
        }
        proof {
            assert(vals[i as int] == received@[i as int].value());
            assert(vals[i as int + 1] == received@[i as int + 1].value());
        }
        i = i + 1;
    }
    true
}

/// A ping-pong message: each side echoes the other's counter.
#[derive(Clone, Copy, Hash, PartialEq, Eq, Structural, Debug)]
pub enum PingPongMsg {
    Ping(u32),
    Pong(u32),
}

impl ModelValue for PingPongMsg {
    type V = PingPongMsg;

    open spec fn value(&self) -> PingPongMsg {
        *self
    }

    open spec fn fp_of(v: PingPongMsg) -> u64 {
        match v {
            PingPongMsg::Ping(n) => fp_mix(fp_mix(FP_SEED, 1u64), n as u64),
            PingPongMsg::Pong(n) => fp_mix(fp_mix(FP_SEED, 2u64), n as u64),
        }
    }

    fn fingerprint(&self) -> (r: u64) {
        match self {
            PingPongMsg::Ping(n) => mix(mix(FP_SEED, 1u64), *n as u64),
            PingPongMsg::Pong(n) => mix(mix(FP_SEED, 2u64), *n as u64),
        }
    }

    fn dup(&self) -> (r: Self) {
        *self
    }

    fn eq_val(&self, other: &Self) -> (r: bool) {
        match (self, other) {
            (PingPongMsg::Ping(a), PingPongMsg::Pong(b)) => false,
            (PingPongMsg::Pong(a), PingPongMsg::Ping(b)) => false,
            (PingPongMsg::Ping(a), PingPongMsg::Ping(b)) => *a == *b,
            (PingPongMsg::Pong(a), PingPongMsg::Pong(b)) => *a == *b,
        }
    }
}

/// A ping-pong actor's state: how many exchanges it has completed.
#[derive(Clone, Copy, Hash, PartialEq, Eq, Structural, Debug)]
pub enum PingPongState {
    PingerState(u32),
    PongerState(u32),
}

/// The counter held in a ping-pong state.
pub open spec fn ping_pong_count(s: PingPongState) -> u32 {
    match s {
        PingPongState::PingerState(n) => n,
        PingPongState::PongerState(n) => n,
    }
}

impl ModelValue for PingPongState {
    type V = PingPongState;

    open spec fn value(&self) -> PingPongState {
        *self
    }

    open spec fn fp_of(v: PingPongState) -> u64 {
        match v {
            PingPongState::PingerState(n) => fp_mix(fp_mix(FP_SEED, 1u64), n as u64),
            PingPongState::PongerState(n) => fp_mix(fp_mix(FP_SEED, 2u64), n as u64),
        }
    }

    fn fingerprint(&self) -> (r: u64) {
        match self {
            PingPongState::PingerState(n) => mix(mix(FP_SEED, 1u64), *n as u64),
            PingPongState::PongerState(n) => mix(mix(FP_SEED, 2u64), *n as u64),
        }
    }

    fn dup(&self) -> (r: Self) {
        *self
    }

    fn eq_val(&self, other: &Self) -> (r: bool) {
        match (self, other) {
            (PingPongState::PingerState(a), PingPongState::PingerState(b)) => *a == *b,
            (PingPongState::PongerState(a), PingPongState::PongerState(b)) => *a == *b,
            (PingPongState::PingerState(a), PingPongState::PongerState(b)) => false,
            (PingPongState::PongerState(a), PingPongState::PingerState(b)) => false,
        }
    }
}

/// A ping-pong player: the pinger opens with ping zero; each side advances
/// its counter and replies while the counter is below `max_nat`, and
/// ignores everything else.
pub enum PingPongActor {
    Pinger { max_nat: u32, ponger_id: Id },
    Ponger { max_nat: u32 },
}

impl Actor for PingPongActor {
    type Msg = PingPongMsg;

    type State = PingPongState;

    open spec fn start_view(&self, id: Id) -> OutView<PingPongMsg, PingPongState> {
        match *self {
            PingPongActor::Pinger { max_nat, ponger_id } => OutView {
                state: Some(PingPongState::PingerState(0)),
                commands: seq![
                    crate::actor::ActorOutput::Send { dst: ponger_id, msg: PingPongMsg::Ping(0) },
                ],
            },
            PingPongActor::Ponger { max_nat } => OutView {
                state: Some(PingPongState::PongerState(0)),
                commands: Seq::empty(),
            },
        }
    }

    proof fn start_sets_state(&self, id: Id) {
    }

    open spec fn msg_view(&self, id: Id, state: PingPongState, src: Id, msg: PingPongMsg)
        -> OutView<PingPongMsg, PingPongState> {
        match *self {
            PingPongActor::Pinger { max_nat, ponger_id } => {
                if state matches PingPongState::PingerState(v) && msg matches PingPongMsg::Pong(mv)
                    && v == mv && v < max_nat {
                    OutView {
                        state: Some(PingPongState::PingerState((state->PingerState_0 + 1) as u32)),
                        commands: seq![
                            crate::actor::ActorOutput::Send {
                                dst: src,
                                msg: PingPongMsg::Ping((msg->Pong_0 + 1) as u32),
                            },
                        ],
                    }
                } else {
                    OutView { state: None, commands: Seq::empty() }
                }
            },
            PingPongActor::Ponger { max_nat } => {
                if state matches PingPongState::PongerState(v) && msg matches PingPongMsg::Ping(mv)
                    && v == mv && v < max_nat {
                    OutView {
                        state: Some(PingPongState::PongerState((state->PongerState_0 + 1) as u32)),
                        commands: seq![
                            crate::actor::ActorOutput::Send {
                                dst: src,
                                msg: PingPongMsg::Pong(msg->Ping_0),
                            },
                        ],
                    }
                } else {
                    OutView { state: None, commands: Seq::empty() }
                }
            },
        }
    }

    open spec fn timeout_view(&self, id: Id, state: PingPongState) -> OutView<
        PingPongMsg,
        PingPongState,
    > {
        OutView { state: None, commands: Seq::empty() }
    }

    fn on_start(&self, id: Id, o: &mut Out<PingPongMsg, PingPongState>) {
        match self {
            PingPongActor::Pinger { max_nat, ponger_id } => {
                o.set_state(PingPongState::PingerState(0));
                o.send(*ponger_id, PingPongMsg::Ping(0));
            },
            PingPongActor::Ponger { max_nat } => {
                o.set_state(PingPongState::PongerState(0));
            },
        }
        proof {
            assert(o@ =~= self.start_view(id));
        }
    }

    fn on_msg(
        &self,
        id: Id,
        state: &PingPongState,
        src: Id,
        msg: PingPongMsg,
        o: &mut Out<PingPongMsg, PingPongState>,
    ) {
        match self {
            PingPongActor::Pinger { max_nat, ponger_id } => {
                match (state, msg) {
                    (PingPongState::PingerState(v), PingPongMsg::Pong(mv)) => {
                        if *v == mv && *v < *max_nat {
                            o.set_state(PingPongState::PingerState(*v + 1));
                            o.send(src, PingPongMsg::Ping(mv + 1));
                        }
                    },
                    _ => {},
                }
            },
            PingPongActor::Ponger { max_nat } => {
                match (state, msg) {
                    (PingPongState::PongerState(v), PingPongMsg::Ping(mv)) => {
                        if *v == mv && *v < *max_nat {
                            o.set_state(PingPongState::PongerState(*v + 1));
                            o.send(src, PingPongMsg::Pong(mv));
                        }
                    },
                    _ => {},
                }
            },
        }
        proof {
            assert(o@ =~= self.msg_view(id, state.value(), src, msg.value()));
        }
    }

    fn on_timeout(&self, id: Id, state: &PingPongState, o: &mut Out<PingPongMsg, PingPongState>) {
        proof {
            assert(o@ =~= self.timeout_view(id, state.value()));
        }
    }
}

/// Two ping-pong players on the default lossy duplicating network, with
/// one invariant attached: the two counters never drift more than one
/// step apart.
pub struct PingPongSystem {
    pub max_nat: u32,
}

impl System for PingPongSystem {
    type Actor = PingPongActor;

    open spec fn actors_view(&self) -> Seq<PingPongActor> {
        seq![
            PingPongActor::Pinger { max_nat: self.max_nat, ponger_id: Id(1) },
            PingPongActor::Ponger { max_nat: self.max_nat },
        ]
    }

    fn actors(&self) -> (r: Vec<PingPongActor>) {
        let mut v: Vec<PingPongActor> = Vec::new();
        v.push(PingPongActor::Pinger { max_nat: self.max_nat, ponger_id: Id(1) });
        v.push(PingPongActor::Ponger { max_nat: self.max_nat });
        proof {
            assert(v@ =~= self.actors_view());
        }
        v
    }

    open spec fn init_network_view(&self) -> Seq<Envelope<PingPongMsg>> {
        Seq::empty()
    }

    fn init_network(&self) -> (r: Vec<Envelope<PingPongMsg>>) {
        let r: Vec<Envelope<PingPongMsg>> = Vec::new();
        proof {
            assert(r@ =~= self.init_network_view());
        }
        r
    }

    open spec fn lossy_view(&self) -> LossyNetwork {
        LossyNetwork::Yes
    }

    fn lossy_network(&self) -> (r: LossyNetwork) {
        LossyNetwork::Yes
    }

    open spec fn duplicating_view(&self) -> DuplicatingNetwork {
        DuplicatingNetwork::Yes
    }

    fn duplicating_network(&self) -> (r: DuplicatingNetwork) {
        DuplicatingNetwork::Yes
    }

    open spec fn properties_decl(&self) -> Seq<Property> {
        seq![Property { expectation: Expectation::Always, name: "delta within one" }]
    }

    fn properties(&self) -> (r: Vec<Property>) {
        let mut v: Vec<Property> = Vec::new();
        v.push(Property { expectation: Expectation::Always, name: "delta within one" });
        proof {
            assert(v@ =~= self.properties_decl());
        }
        v
    }

    open spec fn property_holds(
        &self,
        i: int,
        state: SnapshotView<PingPongMsg, PingPongState>,
    ) -> bool {
        if i == 0 {
            counters_within_one(state.actor_states)
        } else {
            true
        }
    }

    fn eval_property(&self, i: usize, state: &SystemState<PingPongActor>) -> (r: bool) {
        if i == 0 {
            counters_within_one_exec(&state.actor_states)
        } else {
            true
        }
    }

    open spec fn boundary_view(&self, state: SnapshotView<PingPongMsg, PingPongState>) -> bool {
        true
    }

    fn within_boundary(&self, state: &SystemState<PingPongActor>) -> (r: bool) {
        true
    }
}

/// Whether no counter exceeds another by more than one.
pub open spec fn counters_within_one(states: Seq<PingPongState>) -> bool {
    forall|i: int, j: int|
        0 <= i < states.len() && 0 <= j < states.len() ==> ping_pong_count(#[trigger] states[i])
            <= ping_pong_count(#[trigger] states[j]) + 1
}

/// Decide whether no counter exceeds another by more than one.
fn counters_within_one_exec(states: &Vec<PingPongState>) -> (r: bool)
    ensures
        r == counters_within_one(values_of(states@)),
{
    let ghost vals = values_of(states@);
    let n = states.len();
    let mut i: usize = 0;
    while i < n
        invariant
            i <= n,
            n == states@.len(),
            vals == values_of(states@),
            vals.len() == n,
            forall|a: int, b: int|
                0 <= a < i && 0 <= b < vals.len() ==> ping_pong_count(#[trigger] vals[a])
                    <= ping_pong_count(#[trigger] vals[b]) + 1,
        decreases n - i,
    {
        let vi = match states[i] {
            PingPongState::PingerState(v) => v,
            PingPongState::PongerState(v) => v,
        };
        proof {
            assert(vals[i as int] == states@[i as int].value());
            assert(ping_pong_count(vals[i as int]) == vi);
        }
        let mut j: usize = 0;
        while j < n
            invariant
                j <= n,
                i < n,
                n == states@.len(),
                vals == values_of(states@),
                vals.len() == n,
                ping_pong_count(vals[i as int]) == vi,
                forall|b: int|
                    0 <= b < j ==> ping_pong_count(vals[i as int]) <= ping_pong_count(
                        #[trigger] vals[b],
                    ) + 1,
            decreases n - j,
        {
            let vj = match states[j] {
                PingPongState::PingerState(v) => v,
                PingPongState::PongerState(v) => v,
            };
            proof {
                assert(vals[j as int] == states@[j as int].value());
                assert(ping_pong_count(vals[j as int]) == vj);
            }
            if vi > vj && vi - vj > 1 {
                proof {
                    assert(!counters_within_one(vals));
                }
                return false;
            }
            j = j + 1;
        }
        i = i + 1;
    }
    true
}

/// A clock actor: its state is the highest timestamp it has seen, and a
/// newer timestamp is answered with the next one, so two clocks drive each
/// other's counters upward without bound. The reply stops only at the
/// counter type's maximum, which keeps the arithmetic total.
pub struct ClockActor;

impl Actor for ClockActor {
    type Msg = u32;

    type State = u32;

    open spec fn start_view(&self, id: Id) -> OutView<u32, u32> {
        OutView { state: Some(0u32), commands: Seq::empty() }
    }

    proof fn start_sets_state(&self, id: Id) {
    }

    open spec fn msg_view(&self, id: Id, state: u32, src: Id, msg: u32) -> OutView<u32, u32> {
        if msg > state && msg < u32::MAX {
            OutView {
                state: Some(msg),
                commands: seq![
                    crate::actor::ActorOutput::Send { dst: src, msg: (msg + 1) as u32 },
                ],
            }
        } else {
            OutView { state: None, commands: Seq::empty() }
        }
    }

    open spec fn timeout_view(&self, id: Id, state: u32) -> OutView<u32, u32> {
        OutView { state: None, commands: Seq::empty() }
    }

    fn on_start(&self, id: Id, o: &mut Out<u32, u32>) {
        o.set_state(0);
        proof {
            assert(o@ =~= self.start_view(id));
        }
    }

    fn on_msg(&self, id: Id, state: &u32, src: Id, msg: u32, o: &mut Out<u32, u32>) {
        if msg > *state && msg < u32::MAX {
            o.set_state(msg);
            o.send(src, msg + 1);
        }
        proof {
            assert(o@ =~= self.msg_view(id, state.value(), src, msg.value()));
        }
    }

    fn on_timeout(&self, id: Id, state: &u32, o: &mut Out<u32, u32>) {
        proof {
            assert(o@ =~= self.timeout_view(id, state.value()));
        }
    }
}

/// Two clock actors seeded with one timestamp in flight, and one invariant
/// attached: every clock stays below `limit`. The clocks drive each other
/// upward forever, so the invariant is violated and the checker reports
/// the first state at the limit with a shortest path to it.
pub struct ClockSystem {
    pub limit: u32,
}

impl System for ClockSystem {
    type Actor = ClockActor;

    open spec fn actors_view(&self) -> Seq<ClockActor> {
        seq![ClockActor, ClockActor]
    }

    fn actors(&self) -> (r: Vec<ClockActor>) {
        let mut v: Vec<ClockActor> = Vec::new();
        v.push(ClockActor);
        v.push(ClockActor);
        proof {
            assert(v@ =~= self.actors_view());
        }
        v
    }

    open spec fn init_network_view(&self) -> Seq<Envelope<u32>> {
        seq![Envelope { src: Id(1), dst: Id(0), msg: 1u32 }]
    }

    fn init_network(&self) -> (r: Vec<Envelope<u32>>) {
        let mut v: Vec<Envelope<u32>> = Vec::new();
        v.push(Envelope { src: Id(1), dst: Id(0), msg: 1 });
        proof {
            assert(v@ =~= self.init_network_view());
        }
        v
    }

    open spec fn lossy_view(&self) -> LossyNetwork {
        LossyNetwork::Yes
    }

    fn lossy_network(&self) -> (r: LossyNetwork) {
        LossyNetwork::Yes
    }

    open spec fn duplicating_view(&self) -> DuplicatingNetwork {
        DuplicatingNetwork::Yes
    }

    fn duplicating_network(&self) -> (r: DuplicatingNetwork) {
        DuplicatingNetwork::Yes
    }

    open spec fn properties_decl(&self) -> Seq<Property> {
        seq![Property { expectation: Expectation::Always, name: "clocks under limit" }]
    }

    fn properties(&self) -> (r: Vec<Property>) {
        let mut v: Vec<Property> = Vec::new();
        v.push(Property { expectation: Expectation::Always, name: "clocks under limit" });
        proof {
            assert(v@ =~= self.properties_decl());
        }
        v
    }

    open spec fn property_holds(&self, i: int, state: SnapshotView<u32, u32>) -> bool {
        if i == 0 {
            forall|j: int|
                0 <= j < state.actor_states.len() ==> (#[trigger] state.actor_states[j])
                    < self.limit
        } else {
            true
        }
    }

    fn eval_property(&self, i: usize, state: &SystemState<ClockActor>) -> (r: bool) {
        if i == 0 {
            let n = state.actor_states.len();
            let mut j: usize = 0;
            while j < n
                invariant
                    i == 0,
                    j <= n,
                    n == state.actor_states@.len(),
                    forall|k: int|
                        0 <= k < j ==> (#[trigger] state.value().actor_states[k]) < self.limit,
                decreases n - j,
            {
                if state.actor_states[j] >= self.limit {
                    proof {
                        assert(state.value().actor_states[j as int]
                            == state.actor_states@[j as int].value());
                        assert(state.value().actor_states[j as int] >= self.limit);
                        assert(!self.property_holds(i as int, state.value()));
                    }
                    return false;
                }
                proof {
                    assert(state.value().actor_states[j as int]
                        == state.actor_states@[j as int].value());
                }
                j = j + 1;
            }
            true
        } else {
            true
        }
    }

    open spec fn boundary_view(&self, state: SnapshotView<u32, u32>) -> bool {
        true
    }

    fn within_boundary(&self, state: &SystemState<ClockActor>) -> (r: bool) {
        true
    }
}

} // verus!
