//! An actor abstraction: an actor initializes its state when started, then
//! reacts to message deliveries and timer firings by updating its state,
//! sending messages, and manipulating its timer. All effects of one handler
//! call are captured in order in an [`Out`] buffer.
//!
//! The [`system`] submodule lifts a collection of actors plus a network
//! model to a state machine that the checker can explore exhaustively, and
//! [`ordered_reliable_link`] provides a wrapper actor implementing
//! at-most-once in-order delivery over a lossy duplicating network.

pub mod ordered_reliable_link;
pub mod system;

use vstd::prelude::*;
use crate::fingerprint::{fp_mix, mix, ModelValue, VOf, FP_SEED};

verus! {

/// Identifier of an actor: an index into the system's ordered actor list.
#[derive(Clone, Copy, PartialEq, Eq, Structural, Hash, Debug)]
pub struct Id(pub u64);

impl From<usize> for Id {
    fn from(v: usize) -> (r: Id) {
        Id(v as u64)
    }
}

impl vstd::std_specs::convert::FromSpecImpl<usize> for Id {
    open spec fn obeys_from_spec() -> bool {
        true
    }

    open spec fn from_spec(v: usize) -> Id {
        Id(v as u64)
    }
}

impl ModelValue for Id {
    type V = Id;

    open spec fn value(&self) -> Id {
        *self
    }

    open spec fn fp_of(v: Id) -> u64 {
        fp_mix(FP_SEED, v.0)
    }

    fn fingerprint(&self) -> (r: u64) {
        mix(FP_SEED, self.0)
    }

    fn dup(&self) -> (r: Self) {
        *self
    }

    fn eq_val(&self, other: &Self) -> (r: bool) {
        self.0 == other.0
    }
}

/// Half-open range of delays, in milliseconds, within which a pending timer
/// fires. The checker treats a pending timer as one that may fire at any
/// moment; the bounds matter only to a runtime that executes actors for
/// real.
#[derive(Clone, Copy, PartialEq, Eq, Structural, Hash, Debug)]
pub struct TimerRange {
    pub low_ms: u64,
    pub high_ms: u64,
}

/// A message in flight, together with its addressing.
#[derive(Clone, Copy, Hash, PartialEq, Eq, Debug)]
pub struct Envelope<Msg> {
    pub src: Id,
    pub dst: Id,
    pub msg: Msg,
}

impl<Msg: ModelValue> ModelValue for Envelope<Msg> {
    type V = Envelope<VOf<Msg>>;

    open spec fn value(&self) -> Envelope<VOf<Msg>> {
        Envelope { src: self.src, dst: self.dst, msg: self.msg.value() }
    }

    open spec fn fp_of(v: Envelope<VOf<Msg>>) -> u64 {
        fp_mix(fp_mix(fp_mix(FP_SEED, v.src.0), v.dst.0), Msg::fp_of(v.msg))
    }

    fn fingerprint(&self) -> (r: u64) {
        mix(mix(mix(FP_SEED, self.src.0), self.dst.0), self.msg.fingerprint())
    }

    fn dup(&self) -> (r: Self) {
        Envelope { src: self.src, dst: self.dst, msg: self.msg.dup() }
    }

    fn eq_val(&self, other: &Self) -> (r: bool) {
        self.src == other.src && self.dst == other.dst && self.msg.eq_val(&other.msg)
    }
}

/// A command an actor emits while handling one input.
#[derive(Clone, Hash, PartialEq, Eq, Debug)]
pub enum ActorOutput<Msg> {
    Send { dst: Id, msg: Msg },
    SetTimer { range: TimerRange },
    CancelTimer,
}

/// The abstract value of one command.
pub open spec fn command_value<Msg: ModelValue>(c: ActorOutput<Msg>) -> ActorOutput<VOf<Msg>> {
    match c {
        ActorOutput::Send { dst, msg } => ActorOutput::Send { dst, msg: msg.value() },
        ActorOutput::SetTimer { range } => ActorOutput::SetTimer { range },
        ActorOutput::CancelTimer => ActorOutput::CancelTimer,
    }
}

/// The abstract values of a command list.
pub open spec fn command_values<Msg: ModelValue>(s: Seq<ActorOutput<Msg>>) -> Seq<
    ActorOutput<VOf<Msg>>,
> {
    s.map_values(|c: ActorOutput<Msg>| command_value(c))
}

/// The ordered list of commands recorded by one handler call.
#[derive(Clone, Debug)]
pub struct ActorOutputVec<Msg>(pub Vec<ActorOutput<Msg>>);

impl<Msg> ActorOutputVec<Msg> {
    /// Record a command to send `msg` to `dst`.
    pub fn send(&mut self, dst: Id, msg: Msg)
        ensures
            final(self).0@ == old(self).0@.push(ActorOutput::Send { dst, msg }),
    {
        let ActorOutputVec(outputs) = self;
        outputs.push(ActorOutput::Send { dst, msg })
    }

    /// Record a command to arm the actor's timer.
    pub fn set_timer(&mut self, range: TimerRange)
        ensures
            final(self).0@ == old(self).0@.push(ActorOutput::SetTimer { range }),
    {
        let ActorOutputVec(outputs) = self;
        outputs.push(ActorOutput::SetTimer { range })
    }

    /// Record a command to disarm the actor's timer.
    pub fn cancel_timer(&mut self)
        ensures
            final(self).0@ == old(self).0@.push(ActorOutput::CancelTimer),
    {
        let ActorOutputVec(outputs) = self;
        outputs.push(ActorOutput::CancelTimer)
    }
}

/// The abstract value of an [`Out`] buffer: an optional replacement state
/// and the ordered command list, both as abstract values.
#[verifier::ext_equal]
pub ghost struct OutView<MsgV, StateV> {
    pub state: Option<StateV>,
    pub commands: Seq<ActorOutput<MsgV>>,
}

impl<MsgV, StateV> OutView<MsgV, StateV> {
    /// The value of a freshly created buffer.
    pub open spec fn empty() -> Self {
        OutView { state: None, commands: Seq::empty() }
    }

    /// Whether the handler that filled the buffer mutated nothing.
    pub open spec fn is_no_op(self) -> bool {
        self.state is None && self.commands.len() == 0
    }
}

/// The effect buffer a handler writes to: at most one replacement state,
/// plus an ordered list of commands. Handlers receive a fresh buffer, and
/// the resulting system successors preserve the command order, so checking
/// is deterministic for a fixed choice of nondeterministic branch.
#[derive(Clone, Debug)]
pub struct Out<Msg, State> {
    pub state: Option<State>,
    pub commands: ActorOutputVec<Msg>,
}

/// The abstract value of an optional value.
pub open spec fn option_value<T: ModelValue>(o: Option<T>) -> Option<VOf<T>> {
    match o {
        Some(x) => Some(x.value()),
        None => None,
    }
}

impl<Msg: ModelValue, State: ModelValue> View for Out<Msg, State> {
    type V = OutView<VOf<Msg>, VOf<State>>;

    open spec fn view(&self) -> OutView<VOf<Msg>, VOf<State>> {
        OutView { state: option_value(self.state), commands: command_values(self.commands.0@) }
    }
}

impl<Msg: ModelValue, State: ModelValue> Out<Msg, State> {
    /// Create an empty buffer.
    pub fn new() -> (r: Self)
        ensures
            r@ == OutView::<VOf<Msg>, VOf<State>>::empty(),
    {
        let r = Out { state: None, commands: ActorOutputVec(Vec::new()) };
        proof {
            assert(r@ =~= OutView::<VOf<Msg>, VOf<State>>::empty());
        }
        r
    }

    /// Replace the actor's state.
    pub fn set_state(&mut self, state: State)
        ensures
            final(self)@ == (OutView {
                state: Some(state.value()),
                commands: old(self)@.commands,
            }),
    {
        proof {
            let ghost v = state.value();
            assert(v == v);
        }
        self.state = Some(state);
    }

    /// Send `msg` to `dst`.
    pub fn send(&mut self, dst: Id, msg: Msg)
        ensures
            final(self)@ == (OutView {
                state: old(self)@.state,
                commands: old(self)@.commands.push(ActorOutput::Send { dst, msg: msg.value() }),
            }),
    {
        let ghost cmds0 = self.commands.0@;
        self.commands.send(dst, msg);
        proof {
            assert(command_values(self.commands.0@) =~= command_values(cmds0).push(
                command_value(self.commands.0@.last()),
            ));
        }
    }

    /// Arm the actor's timer.
    pub fn set_timer(&mut self, range: TimerRange)
        ensures
            final(self)@ == (OutView {
                state: old(self)@.state,
                commands: old(self)@.commands.push(ActorOutput::SetTimer { range }),
            }),
    {
        let ghost cmds0 = self.commands.0@;
        self.commands.set_timer(range);
        proof {
            assert(command_values(self.commands.0@) =~= command_values(cmds0).push(
                command_value(self.commands.0@.last()),
            ));
        }
    }

    /// Disarm the actor's timer.
    pub fn cancel_timer(&mut self)
        ensures
            final(self)@ == (OutView {
                state: old(self)@.state,
                commands: old(self)@.commands.push(ActorOutput::CancelTimer),
            }),
    {
        let ghost cmds0 = self.commands.0@;
        self.commands.cancel_timer();
        proof {
            assert(command_values(self.commands.0@) =~= command_values(cmds0).push(
                command_value(self.commands.0@.last()),
            ));
        }
    }

    /// Whether nothing has been recorded: no replacement state and no
    /// command. The ordered reliable link relies on this to tell whether the
    /// wrapped actor ignored a delivery.
    pub fn is_no_op(&self) -> (r: bool)
        ensures
            r == self@.is_no_op(),
    {
        self.state.is_none() && self.commands.0.len() == 0
    }

    /// Send a copy of `msg` to every destination in `dsts`, in order.
    pub fn broadcast(&mut self, dsts: &Vec<Id>, msg: &Msg)
        ensures
            final(self)@ == (OutView {
                state: old(self)@.state,
                commands: old(self)@.commands + broadcast_commands(dsts@, msg.value()),
            }),
    {
        let mut i: usize = 0;
        proof {
            assert(self@.commands =~= old(self)@.commands + broadcast_commands(
                dsts@.take(0),
                msg.value(),
            ));
        }
        while i < dsts.len()
            invariant
                i <= dsts.len(),
                self@.state == old(self)@.state,
                self@.commands == old(self)@.commands + broadcast_commands(
                    dsts@.take(i as int),
                    msg.value(),
                ),
            decreases dsts.len() - i,
        {
            proof {
                assert(dsts@.take(i as int + 1).drop_last() =~= dsts@.take(i as int));
                assert(dsts@.take(i as int + 1).last() == dsts@[i as int]);
            }
            let dst = dsts[i];
            self.send(dst, msg.dup());
            i = i + 1;
        }
        proof {
            assert(dsts@.take(dsts@.len() as int) =~= dsts@);
        }
    }
}

/// The send commands produced by broadcasting `msg` to `dsts` in order.
pub open spec fn broadcast_commands<MsgV>(dsts: Seq<Id>, msg: MsgV) -> Seq<ActorOutput<MsgV>>
    decreases dsts.len(),
{
    if dsts.len() <= 0 {
        Seq::empty()
    } else {
        broadcast_commands(dsts.drop_last(), msg).push(ActorOutput::Send { dst: dsts.last(), msg })
    }
}

/// An actor. Each handler writes its effects to a fresh [`Out`] buffer, and
/// each is pinned to a spec-level description of those effects, so that a
/// handler's behavior is a mathematical function of its inputs: checking a
/// system of actors is deterministic.
pub trait Actor: Sized {
    /// The type of messages this actor sends and receives.
    type Msg: ModelValue;

    /// The type of state this actor maintains.
    type State: ModelValue;

    /// The effects of starting this actor with identifier `id`.
    spec fn start_view(&self, id: Id) -> OutView<VOf<Self::Msg>, VOf<Self::State>>;

    /// Starting an actor always assigns an initial state; a handler that
    /// fails to is a programmer error, surfaced when the system is lifted.
    proof fn start_sets_state(&self, id: Id)
        ensures
            self.start_view(id).state is Some,
    ;

    /// The effects of delivering `msg` from `src` while in `state`.
    spec fn msg_view(
        &self,
        id: Id,
        state: VOf<Self::State>,
        src: Id,
        msg: VOf<Self::Msg>,
    ) -> OutView<VOf<Self::Msg>, VOf<Self::State>>;

    /// The effects of this actor's timer firing while in `state`.
    spec fn timeout_view(&self, id: Id, state: VOf<Self::State>) -> OutView<
        VOf<Self::Msg>,
        VOf<Self::State>,
    >;

    /// Initialize the actor, recording the initial state and any effects.
    fn on_start(&self, id: Id, o: &mut Out<Self::Msg, Self::State>)
        requires
            old(o)@ == OutView::<VOf<Self::Msg>, VOf<Self::State>>::empty(),
        ensures
            final(o)@ == self.start_view(id),
    ;

    /// React to delivery of `msg` from `src`. Recording nothing makes the
    /// delivery a no-op, which the ordered reliable link detects.
    fn on_msg(
        &self,
        id: Id,
        state: &Self::State,
        src: Id,
        msg: Self::Msg,
        o: &mut Out<Self::Msg, Self::State>,
    )
        requires
            old(o)@ == OutView::<VOf<Self::Msg>, VOf<Self::State>>::empty(),
        ensures
            final(o)@ == self.msg_view(id, state.value(), src, msg.value()),
    ;

    /// React to this actor's timer firing.
    fn on_timeout(&self, id: Id, state: &Self::State, o: &mut Out<Self::Msg, Self::State>)
        requires
            old(o)@ == OutView::<VOf<Self::Msg>, VOf<Self::State>>::empty(),
        ensures
            final(o)@ == self.timeout_view(id, state.value()),
    ;
}

/// An input a running actor can respond to. A runtime that executes actors
/// for real feeds these to a dispatch loop; the checker instead enumerates
/// them as nondeterministic branches.
#[derive(Clone, Debug)]
pub enum ActorInput<Msg> {
    Deliver { src: Id, msg: Msg },
}

/// Packages the state and outputs of one actor step, as handed to a runtime
/// that executes an actor for real.
#[derive(Clone, Debug)]
pub struct ActorResult<Msg, State> {
    pub state: State,
    pub outputs: ActorOutputVec<Msg>,
}

impl<Msg, State> ActorResult<Msg, State> {
    /// Package a state with no outputs yet.
    pub fn new(state: State) -> (r: Self)
        ensures
            r.state == state,
            r.outputs.0@ == Seq::<ActorOutput<Msg>>::empty(),
    {
        ActorResult { state, outputs: ActorOutputVec(Vec::new()) }
    }
}

} // verus!
