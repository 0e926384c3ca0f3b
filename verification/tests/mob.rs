use playform::mob::{behave, MobBehavior, MobMotion};

#[test]
fn mobs_play_tag() {
    // waiting until tagged
    assert_eq!(behave(MobBehavior::WaitToBeTagged, false, true), (MobBehavior::WaitToBeTagged, MobMotion::Keep));
    let (s, m) = behave(MobBehavior::WaitToBeTagged, true, false);
    assert_eq!((s, m), (MobBehavior::WaitForDistance, MobMotion::Keep));
    // the player gets away: the chase starts on the next update
    assert_eq!(behave(s, false, false), (MobBehavior::WaitForDistance, MobMotion::Keep));
    let (s, _) = behave(s, false, true);
    assert_eq!(s, MobBehavior::FollowPlayer);
    assert_eq!(behave(s, false, true), (MobBehavior::FollowPlayer, MobMotion::Chase));
    // tagged back: the mob stops, and waits for the player to leave
    let (s, m) = behave(s, true, false);
    assert_eq!((s, m), (MobBehavior::WaitToReset, MobMotion::Stop));
    assert_eq!(behave(s, true, false), (MobBehavior::WaitToReset, MobMotion::Keep));
    assert_eq!(behave(s, false, false), (MobBehavior::WaitToBeTagged, MobMotion::Keep));
}
