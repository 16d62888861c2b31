use boon::dd::BoonTime;

#[test]
fn boon_time_round_trips() {
    let time = BoonTime { epoch: 42, phase: 3 };
    assert_eq!(BoonTime::decode(time.encode()), time);
}

#[test]
fn boon_time_packs_four_phases_per_epoch() {
    assert_eq!(BoonTime { epoch: 2, phase: 1 }.encode(), 9);
    assert_eq!(BoonTime::decode(11), BoonTime { epoch: 2, phase: 3 });
    assert!(BoonTime { epoch: 1, phase: 3 }.encode() < BoonTime { epoch: 2, phase: 0 }.encode());
}
