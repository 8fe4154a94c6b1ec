use live2d::motion::{
    MotionLayerId, MotionPlaybackState, MotionPriority, MotionScheduler, MotionStartResult,
    FORCE_PRIORITY, IDLE_PRIORITY, NORMAL_PRIORITY,
};

#[test]
fn scheduler_prioritizes_requests_and_drains_queue() {
    let mut scheduler = MotionScheduler::new();
    let (result, _) = scheduler.request_motion("first", MotionPriority::force());
    assert_eq!(result, MotionStartResult::Started);

    let (queued, displaced) = scheduler.request_motion("second", MotionPriority::normal());
    assert_eq!(queued, MotionStartResult::Queued);
    assert_eq!(displaced, None);
    assert_eq!(scheduler.queued_motion_count(), 1);
    assert_eq!(scheduler.active(), Some(&"first"));

    let (started, displaced) = scheduler.request_motion("third", MotionPriority::force());
    assert_eq!(started, MotionStartResult::Started);
    assert_eq!(displaced, Some("first"));
    assert_eq!(scheduler.queued_motion_count(), 1);

    let displaced = scheduler.finish_active();
    assert_eq!(displaced, Some("third"));
    assert_eq!(scheduler.active(), Some(&"second"));
    assert_eq!(scheduler.queued_motion_count(), 0);
    assert_eq!(scheduler.state(), MotionPlaybackState::Playing);
}

#[test]
fn equal_priorities_wait_in_arrival_order() {
    let mut scheduler = MotionScheduler::new();
    scheduler.request_motion(0, MotionPriority::force());
    scheduler.enqueue(1, MotionPriority::normal());
    scheduler.enqueue(2, MotionPriority(150));
    scheduler.enqueue(3, MotionPriority::normal());
    let mut order = Vec::new();
    while scheduler.queued_motion_count() > 0 {
        scheduler.finish_active();
        order.push(*scheduler.active().unwrap());
    }
    assert_eq!(order, vec![2, 1, 3]);
}

#[test]
fn scheduler_falls_back_to_idle_and_finishes_without_it() {
    let mut scheduler = MotionScheduler::new();
    scheduler.set_idle_motion("idle");
    assert_eq!(scheduler.active(), Some(&"idle"));
    scheduler.request_motion("tap", MotionPriority::normal());
    assert_eq!(scheduler.active(), Some(&"tap"));
    scheduler.finish_active();
    assert_eq!(scheduler.active(), Some(&"idle"));
    assert_eq!(scheduler.state(), MotionPlaybackState::Playing);

    scheduler.clear_idle_motion();
    scheduler.finish_active();
    assert_eq!(scheduler.state(), MotionPlaybackState::Finished);
    assert_eq!(scheduler.begin_advance(), (false, None));
}

#[test]
fn pause_resume_and_stop_control_state() {
    let mut scheduler = MotionScheduler::new();
    scheduler.pause();
    assert_eq!(scheduler.state(), MotionPlaybackState::Stopped);
    scheduler.request_motion("walk", MotionPriority::normal());
    scheduler.pause();
    assert_eq!(scheduler.state(), MotionPlaybackState::Paused);
    assert_eq!(scheduler.begin_advance(), (false, None));
    scheduler.resume();
    assert_eq!(scheduler.state(), MotionPlaybackState::Playing);
    scheduler.enqueue("later", MotionPriority::idle());
    assert_eq!(scheduler.stop(), Some("walk"));
    assert_eq!(scheduler.state(), MotionPlaybackState::Stopped);
    assert_eq!(scheduler.queued_motion_count(), 0);
    assert_eq!(scheduler.active(), None);
}

#[test]
fn queued_motion_starts_when_nothing_plays() {
    let mut scheduler = MotionScheduler::new();
    assert_eq!(scheduler.queue_motion("a", MotionPriority::normal()), None);
    assert_eq!(scheduler.active(), Some(&"a"));
    scheduler.queue_motion("b", MotionPriority::normal());
    assert_eq!(scheduler.active(), Some(&"a"));
    assert_eq!(scheduler.queued_motion_count(), 1);
}

#[test]
fn fading_stop_keeps_playing_while_the_fade_runs() {
    let mut scheduler = MotionScheduler::new();
    scheduler.request_motion("wave", MotionPriority::normal());
    assert_eq!(scheduler.stop_with_fade(true), Some("wave"));
    assert_eq!(scheduler.state(), MotionPlaybackState::Playing);
    assert_eq!(scheduler.active(), None);
    scheduler.settle_after_seek(false);
    assert_eq!(scheduler.state(), MotionPlaybackState::Playing);
    scheduler.settle_after_seek(true);
    assert_eq!(scheduler.state(), MotionPlaybackState::Finished);
}

#[test]
fn lower_priority_request_starts_once_playback_finished() {
    let mut scheduler = MotionScheduler::new();
    scheduler.request_motion("intro", MotionPriority::force());
    assert!(!scheduler.can_start_priority(MotionPriority::normal()));
    scheduler.finish_active();
    assert!(scheduler.can_start_priority(MotionPriority::normal()));
    let (result, displaced) = scheduler.request_motion("next", MotionPriority::idle());
    assert_eq!(result, MotionStartResult::Started);
    assert_eq!(displaced, Some("intro"));
    assert_eq!(MotionPriority::idle().0, IDLE_PRIORITY);
    assert_eq!(MotionPriority::normal().0, NORMAL_PRIORITY);
    assert_eq!(MotionPriority::force().0, FORCE_PRIORITY);
    assert_eq!(MotionLayerId::from("breath"), MotionLayerId::from("breath".to_string()));
}
