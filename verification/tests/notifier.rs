use caltraind::caltrain_status::{CaltrainStatus, Direction, IncomingTrain, TrainType};
use caltraind::notifier::{Notifier, TimeOfDay};

fn t(id: u16, ttype: TrainType, minutes: u16) -> IncomingTrain {
    IncomingTrain::new(id, ttype, minutes)
}

fn noon() -> TimeOfDay {
    TimeOfDay { secs: 12 * 3600, frac: 0 }
}

fn all_types() -> Vec<TrainType> {
    vec![TrainType::Local, TrainType::Limited, TrainType::BabyBullet]
}

#[test]
fn notifier_tells_of_due_trains_of_its_direction() {
    let mut notifier = Notifier::new(all_types(), 10, Direction::Northbound, None);
    let status = CaltrainStatus::new(
        vec![t(1, TrainType::Local, 10), t(2, TrainType::Limited, 11), t(3, TrainType::BabyBullet, 0)],
        vec![t(4, TrainType::Local, 1)],
    );
    assert_eq!(
        notifier.handle(&status, noon()),
        vec![t(1, TrainType::Local, 10), t(3, TrainType::BabyBullet, 0)]
    );
    let mut south = Notifier::new(all_types(), 10, Direction::Southbound, None);
    assert_eq!(south.handle(&status, noon()), vec![t(4, TrainType::Local, 1)]);
}

#[test]
fn notifier_tells_of_a_train_once() {
    let mut notifier = Notifier::new(all_types(), 10, Direction::Northbound, None);
    let first = CaltrainStatus::new(vec![t(1, TrainType::Local, 9), t(2, TrainType::Local, 30)], vec![]);
    assert_eq!(notifier.handle(&first, noon()), vec![t(1, TrainType::Local, 9)]);
    let second = CaltrainStatus::new(vec![t(1, TrainType::Local, 8), t(2, TrainType::Local, 10)], vec![]);
    assert_eq!(notifier.handle(&second, noon()), vec![t(2, TrainType::Local, 10)]);
    assert_eq!(notifier.handle(&second, noon()), vec![]);
}

#[test]
fn notifier_forgets_a_train_that_left() {
    let mut notifier = Notifier::new(all_types(), 10, Direction::Northbound, None);
    let with = CaltrainStatus::new(vec![t(1, TrainType::Local, 9)], vec![]);
    let without = CaltrainStatus::new(vec![], vec![t(1, TrainType::Local, 9)]);
    assert_eq!(notifier.handle(&with, noon()), vec![t(1, TrainType::Local, 9)]);
    assert_eq!(notifier.handle(&without, noon()), vec![]);
    assert_eq!(notifier.handle(&with, noon()), vec![t(1, TrainType::Local, 9)]);
}

#[test]
fn notifier_tells_of_its_types_only() {
    let mut notifier = Notifier::new(vec![TrainType::BabyBullet], 60, Direction::Southbound, None);
    let status = CaltrainStatus::new(
        vec![],
        vec![t(1, TrainType::Local, 5), t(2, TrainType::BabyBullet, 5), t(3, TrainType::Limited, 5)],
    );
    assert_eq!(notifier.handle(&status, noon()), vec![t(2, TrainType::BabyBullet, 5)]);
    let mut none = Notifier::new(vec![], 60, Direction::Southbound, None);
    assert_eq!(none.handle(&status, noon()), vec![]);
}

#[test]
fn notifier_keeps_silent_before_its_time() {
    let after = TimeOfDay { secs: 12 * 3600, frac: 1 };
    let mut notifier = Notifier::new(all_types(), 10, Direction::Northbound, Some(after));
    let status = CaltrainStatus::new(vec![t(1, TrainType::Local, 9)], vec![]);
    assert_eq!(notifier.handle(&status, noon()), vec![]);
    // Silence does not count as telling: the train is told of later.
    assert_eq!(notifier.handle(&status, after), vec![t(1, TrainType::Local, 9)]);
    assert_eq!(notifier.handle(&status, after), vec![]);
}

#[test]
fn notifier_unknown_minutes_are_never_due() {
    let mut notifier = Notifier::new(all_types(), 9000, Direction::Northbound, None);
    let status = CaltrainStatus::new(vec![t(1, TrainType::Local, 9001)], vec![]);
    assert_eq!(notifier.handle(&status, noon()), vec![]);
}

#[test]
fn notifier_tells_of_each_listing_of_a_new_train() {
    let mut notifier = Notifier::new(all_types(), 10, Direction::Northbound, None);
    let status = CaltrainStatus::new(vec![t(1, TrainType::Local, 9), t(1, TrainType::Local, 8)], vec![]);
    assert_eq!(
        notifier.handle(&status, noon()),
        vec![t(1, TrainType::Local, 9), t(1, TrainType::Local, 8)]
    );
    assert_eq!(notifier.handle(&status, noon()), vec![]);
}

#[test]
fn time_of_day_order() {
    let a = TimeOfDay { secs: 1, frac: 5 };
    let b = TimeOfDay { secs: 1, frac: 6 };
    let c = TimeOfDay { secs: 2, frac: 0 };
    assert!(a.is_before(&b) && b.is_before(&c) && a.is_before(&c));
    assert!(!b.is_before(&a) && !c.is_before(&a) && !a.is_before(&a));
}
