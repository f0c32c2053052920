use stateright::actor::ordered_reliable_link::OrdMap;
use stateright::actor::system::ActorSystemSnapshot;
use stateright::actor::{ActorOutput, Envelope, Id, Out};
use stateright::examples::{PingPongMsg, PingPongState};
use stateright::ModelValue;

#[test]
fn equal_snapshots_share_a_fingerprint() {
    let make = || ActorSystemSnapshot {
        actor_states: vec![PingPongState::PingerState(1), PingPongState::PongerState(1)],
        network: vec![Envelope { src: Id(0), dst: Id(1), msg: PingPongMsg::Ping(1) }],
        timers: vec![false, false],
    };
    let a = make();
    let b = make();
    assert!(a.eq_val(&b));
    assert_eq!(a.fingerprint(), b.fingerprint());
    assert_eq!(a.fingerprint(), a.dup().fingerprint());
}

#[test]
fn network_order_does_not_change_a_fingerprint() {
    let ping = |n: u32, src: u64, dst: u64| Envelope {
        src: Id(src),
        dst: Id(dst),
        msg: PingPongMsg::Ping(n),
    };
    let a = ActorSystemSnapshot {
        actor_states: vec![PingPongState::PingerState(1)],
        network: vec![ping(1, 0, 1), ping(2, 1, 0)],
        timers: vec![false],
    };
    let b = ActorSystemSnapshot {
        actor_states: vec![PingPongState::PingerState(1)],
        network: vec![ping(2, 1, 0), ping(1, 0, 1)],
        timers: vec![false],
    };
    assert_eq!(a.fingerprint(), b.fingerprint());
}

#[test]
fn out_records_commands_in_order() {
    let mut out: Out<PingPongMsg, PingPongState> = Out::new();
    assert!(out.is_no_op());
    out.broadcast(&vec![Id(1), Id(2)], &PingPongMsg::Ping(0));
    out.set_state(PingPongState::PingerState(0));
    assert!(!out.is_no_op());
    assert_eq!(
        out.commands.0,
        vec![
            ActorOutput::Send { dst: Id(1), msg: PingPongMsg::Ping(0) },
            ActorOutput::Send { dst: Id(2), msg: PingPongMsg::Ping(0) },
        ]
    );
    assert_eq!(out.state, Some(PingPongState::PingerState(0)));
}

#[test]
fn ord_map_keeps_keys_sorted_and_unique() {
    let mut m: OrdMap<u64> = OrdMap::new();
    m.insert(7, 70);
    m.insert(3, 30);
    m.insert(5, 50);
    m.insert(3, 31);
    assert_eq!(m.entries, vec![(3u64, 31u64), (5, 50), (7, 70)]);
    assert_eq!(m.get(5), Some(&50));
    assert!(m.contains_key(7));
    m.remove(5);
    assert_eq!(m.entries, vec![(3u64, 31u64), (7, 70)]);
    assert_eq!(m.get(5), None);
    assert_eq!(m.len(), 2);
}
