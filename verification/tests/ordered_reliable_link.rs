use stateright::actor::ordered_reliable_link::MsgWrapper;
use stateright::actor::system::{SystemAction, SystemModel};
use stateright::actor::Id;
use stateright::examples::{LinkTestSystem, RecordedMsg};

#[test]
fn messages_are_not_delivered_twice() {
    let mut checker = SystemModel::new(LinkTestSystem).checker();
    checker.check(10_000);
    assert!(checker.counterexample("no redelivery").is_none());
}

#[test]
fn messages_are_delivered_in_order() {
    let mut checker = SystemModel::new(LinkTestSystem).checker();
    checker.check(10_000);
    assert!(checker.counterexample("ordered").is_none());
}

#[test]
fn messages_are_eventually_delivered() {
    let mut checker = SystemModel::new(LinkTestSystem).checker();
    checker.check(10_000);
    let path = checker.example("delivered").expect("no witness path for delivered");
    assert_eq!(
        path.into_actions(),
        vec![
            SystemAction::Deliver {
                src: Id(0),
                dst: Id(1),
                msg: MsgWrapper::Deliver(1, RecordedMsg(42)),
            },
            SystemAction::Deliver {
                src: Id(0),
                dst: Id(1),
                msg: MsgWrapper::Deliver(2, RecordedMsg(43)),
            },
        ]
    );
}
