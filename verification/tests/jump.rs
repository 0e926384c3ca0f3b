use playform::jump::{JumpState, MAX_JUMP_FUEL};

#[test]
fn a_jump_burns_its_fuel_then_stops() {
    let mut s = JumpState::new();
    // landing refuels
    s.moved(true, true);
    assert_eq!(s.jump_fuel, MAX_JUMP_FUEL);
    let mut boost = s.start_jump();
    assert_eq!(boost, 1);
    // pressing again while jumping adds nothing
    boost += s.start_jump();
    assert_eq!(boost, 1);
    for left in (0..MAX_JUMP_FUEL).rev() {
        boost += s.update();
        assert_eq!(s, JumpState { jump_fuel: left, is_jumping: true });
    }
    boost += s.update();
    assert_eq!(s, JumpState { jump_fuel: 0, is_jumping: false });
    assert_eq!(boost, 0);
    // releasing after the jump ran out takes nothing away
    assert_eq!(s.stop_jump(), 0);
}

#[test]
fn releasing_stops_the_jump() {
    let mut s = JumpState { jump_fuel: 2, is_jumping: false };
    assert_eq!(s.start_jump(), 1);
    assert_eq!(s.stop_jump(), -1);
    assert_eq!(s, JumpState { jump_fuel: 2, is_jumping: false });
    assert_eq!(s.update(), 0);
    // falling freely empties the fuel; moving sideways keeps it
    s.moved(false, true);
    assert_eq!(s.jump_fuel, 2);
    s.moved(true, false);
    assert_eq!(s.jump_fuel, 0);
}
