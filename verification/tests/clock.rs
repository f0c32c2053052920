use stateright::actor::system::SystemModel;
use stateright::actor::{Envelope, Id};
use stateright::examples::ClockSystem;
use stateright::CheckResult;

#[test]
fn clock_exchange_violates_bound() {
    let mut checker = SystemModel::new(ClockSystem { limit: 3 }).checker();
    let result = checker.check(100);
    assert_eq!(result, CheckResult::Fail);

    let state = checker
        .discovery_state("clocks under limit")
        .expect("no violating state recorded");
    assert_eq!(state.actor_states, vec![3u32, 2u32]);
    assert_eq!(state.timers, vec![false, false]);
    // The network vector is kept in digest order, so compare as a set.
    let mut got: Vec<Envelope<u32>> = state.network.clone();
    got.sort_by_key(|e| (e.src.0, e.dst.0, e.msg));
    let mut expected_network = vec![
        Envelope { src: Id(1), dst: Id(0), msg: 1u32 },
        Envelope { src: Id(0), dst: Id(1), msg: 2u32 },
        Envelope { src: Id(1), dst: Id(0), msg: 3u32 },
        Envelope { src: Id(0), dst: Id(1), msg: 4u32 },
    ];
    expected_network.sort_by_key(|e| (e.src.0, e.dst.0, e.msg));
    assert_eq!(got, expected_network);

    let path = checker
        .counterexample("clocks under limit")
        .expect("no counterexample path recorded");
    assert_eq!(path.into_actions().len(), 3);
}

#[test]
fn clock_check_is_incomplete_under_a_tiny_bound() {
    let mut checker = SystemModel::new(ClockSystem { limit: 1000 }).checker();
    assert_eq!(checker.check(1), CheckResult::Incomplete);
}
