use stateright::actor::system::{ActorSystemSnapshot, SystemModel};
use stateright::actor::{Envelope, Id};
use stateright::examples::{PingPongMsg, PingPongState, PingPongSystem};
use stateright::fingerprint::finalize;
use stateright::{CheckResult, ModelValue};

fn snapshot_fingerprint(
    pinger: u32,
    ponger: u32,
    network: Vec<Envelope<PingPongMsg>>,
) -> u64 {
    let snapshot = ActorSystemSnapshot {
        actor_states: vec![
            PingPongState::PingerState(pinger),
            PingPongState::PongerState(ponger),
        ],
        network,
        timers: vec![false, false],
    };
    finalize(snapshot.fingerprint())
}

#[test]
fn visits_expected_states() {
    let mut checker = SystemModel::new(PingPongSystem { max_nat: 1 }).checker();
    checker.check(1_000);
    assert_eq!(checker.generated_count(), 14);

    let ping0 = |src: u64, dst: u64| Envelope { src: Id(src), dst: Id(dst), msg: PingPongMsg::Ping(0) };
    let pong0 = |src: u64, dst: u64| Envelope { src: Id(src), dst: Id(dst), msg: PingPongMsg::Pong(0) };
    let ping1 = |src: u64, dst: u64| Envelope { src: Id(src), dst: Id(dst), msg: PingPongMsg::Ping(1) };

    let mut expected = vec![
        // When the network loses no messages...
        snapshot_fingerprint(0, 0, vec![ping0(0, 1)]),
        snapshot_fingerprint(0, 1, vec![ping0(0, 1), pong0(1, 0)]),
        snapshot_fingerprint(1, 1, vec![ping0(0, 1), pong0(1, 0), ping1(0, 1)]),
        // When the network loses the message for pinger-ponger state (0, 0)...
        snapshot_fingerprint(0, 0, vec![]),
        // When the network loses a message for pinger-ponger state (0, 1)...
        snapshot_fingerprint(0, 1, vec![pong0(1, 0)]),
        snapshot_fingerprint(0, 1, vec![ping0(0, 1)]),
        snapshot_fingerprint(0, 1, vec![]),
        // When the network loses a message for pinger-ponger state (1, 1)...
        snapshot_fingerprint(1, 1, vec![pong0(1, 0), ping1(0, 1)]),
        snapshot_fingerprint(1, 1, vec![ping0(0, 1), ping1(0, 1)]),
        snapshot_fingerprint(1, 1, vec![ping0(0, 1), pong0(1, 0)]),
        snapshot_fingerprint(1, 1, vec![ping1(0, 1)]),
        snapshot_fingerprint(1, 1, vec![pong0(1, 0)]),
        snapshot_fingerprint(1, 1, vec![ping0(0, 1)]),
        snapshot_fingerprint(1, 1, vec![]),
    ];
    let mut visited = checker.visited_fingerprints();
    expected.sort();
    visited.sort();
    assert_eq!(visited, expected);
}

#[test]
fn can_play_ping_pong() {
    let mut checker = SystemModel::new(PingPongSystem { max_nat: 5 }).checker();
    let result = checker.check(1_000_000);
    assert_eq!(result, CheckResult::Pass);
    assert_eq!(checker.generated_count(), 4094);
}
