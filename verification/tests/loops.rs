use imlec::linux_backend::x11::{
    pick_visual, DepthInfo, LoopAction, LoopEvent, RenderLoop, VisualError, Wait,
};
use imlec::pacing::{ConfigWatch, FrameClock, Throttle};

const MS: u64 = 1_000_000;

fn depth(depth: u8, visuals: Vec<u32>) -> DepthInfo {
    DepthInfo { depth, visuals }
}

#[test]
fn a_visual_with_alpha_is_picked() {
    let depths = vec![depth(24, vec![1]), depth(32, vec![5, 6]), depth(32, vec![7])];
    assert_eq!(pick_visual(&depths), Ok(5));
}

#[test]
fn screens_without_alpha() {
    assert_eq!(pick_visual(&vec![depth(24, vec![1])]), Err(VisualError::NoDepth));
    assert_eq!(pick_visual(&vec![]), Err(VisualError::NoDepth));
    let depths = vec![depth(32, vec![]), depth(32, vec![7])];
    assert_eq!(pick_visual(&depths), Err(VisualError::NoVisual));
    assert_eq!(
        VisualError::NoDepth.message(),
        "no 32-bit visual; a compositing manager such as picom is required"
    );
    assert_eq!(VisualError::NoVisual.message(), "32-bit depth has no visuals");
}

#[test]
fn throttles() {
    let mut throttle = Throttle::new(100, 50);
    assert!(!throttle.due(149));
    assert!(throttle.due(150));
    assert!(!throttle.due(199));
    assert!(throttle.due(1000));
    assert!(!throttle.due(10));
}

#[test]
fn frames() {
    let mut clock = FrameClock::new(0, 16 * MS);
    assert_eq!(clock.begin_frame(false, 5 * MS), Some(5 * MS));
    assert_eq!(clock.pause(8 * MS), Some(13 * MS));
    assert_eq!(clock.pause(21 * MS), None);
    assert_eq!(clock.begin_frame(true, 900 * MS), None);
    assert_eq!(clock.begin_frame(false, 901 * MS), Some(MS));
    clock.set_interval(8 * MS);
    assert_eq!(clock.pause(902 * MS), Some(7 * MS));
}

fn begun(idle: bool, has_previous: bool) -> LoopEvent {
    LoopEvent::Begun { idle, has_previous }
}

fn observed(idle: bool, has_previous: bool, now: u64) -> LoopEvent {
    LoopEvent::Observed { idle, has_previous, now }
}

#[test]
fn a_quiet_loop_blocks() {
    let mut pace = RenderLoop::new(0, 16 * MS, ConfigWatch::new(true, None));
    let block = Wait::Block { millis: 500 };
    assert_eq!(pace.run(begun(true, false)), LoopAction::Wait(block));
    assert_eq!(pace.run(begun(true, true)), LoopAction::Wait(Wait::Poll));
    assert_eq!(pace.run(begun(false, false)), LoopAction::Wait(Wait::Poll));
    assert_eq!(pace.run(begun(false, true)), LoopAction::Wait(Wait::Poll));
    assert_eq!(pace.run(observed(true, false, 7 * MS)), LoopAction::Begin);
    assert_eq!(pace.clock.last_tick, 7 * MS);
}

#[test]
fn the_loop_ends_with_its_input() {
    let mut pace = RenderLoop::new(0, 16 * MS, ConfigWatch::new(true, None));
    let block = Wait::Block { millis: 500 };
    let mut waited = |wait, disconnected| pace.run(LoopEvent::Waited { wait, disconnected });
    assert_eq!(waited(block, true), LoopAction::End);
    assert_eq!(waited(block, false), LoopAction::Drain);
    assert_eq!(waited(Wait::Poll, true), LoopAction::Drain);
    assert_eq!(waited(Wait::Poll, false), LoopAction::Drain);
}

#[test]
fn a_busy_round() {
    let mut pace = RenderLoop::new(0, 16 * MS, ConfigWatch::new(true, None));
    assert_eq!(pace.run(begun(false, false)), LoopAction::Wait(Wait::Poll));
    let waited = LoopEvent::Waited { wait: Wait::Poll, disconnected: false };
    assert_eq!(pace.run(waited), LoopAction::Drain);
    assert_eq!(pace.run(LoopEvent::Drained { now: 5 * MS }), LoopAction::Observe);
    assert_eq!(pace.run(observed(false, false, 6 * MS)), LoopAction::Draw { nanos: 6 * MS });
    assert_eq!(pace.run(LoopEvent::Drawn { now: 9 * MS }), LoopAction::Flush { raise: false });
    assert_eq!(pace.run(LoopEvent::Flushed { now: 10 * MS }), LoopAction::Sleep { nanos: 12 * MS });
    assert_eq!(pace.run(LoopEvent::Flushed { now: 22 * MS }), LoopAction::Begin);
    // What is left to erase is drawn too.
    assert_eq!(pace.run(observed(true, true, 30 * MS)), LoopAction::Draw { nanos: 24 * MS });
}

#[test]
fn the_x11_loop_looks_around() {
    let mut pace = RenderLoop::new(0, 16 * MS, ConfigWatch::new(true, None));
    let drained = |ms| LoopEvent::Drained { now: ms * MS };
    assert_eq!(pace.run(drained(1999)), LoopAction::Observe);
    assert_eq!(pace.run(drained(2000)), LoopAction::ReadFileTime);
    assert_eq!(pace.run(drained(2001)), LoopAction::Observe);
    assert_eq!(pace.run(LoopEvent::FileTime { mtime: Some(1) }), LoopAction::LoadConfig);
    assert_eq!(pace.run(LoopEvent::FileTime { mtime: Some(1) }), LoopAction::Observe);
    assert_eq!(pace.run(LoopEvent::FileTime { mtime: None }), LoopAction::LoadConfig);
    assert_eq!(pace.run(LoopEvent::Loaded { interval: None }), LoopAction::Observe);
    assert_eq!(pace.clock.interval, 16 * MS);
    assert_eq!(pace.run(LoopEvent::Loaded { interval: Some(8 * MS) }), LoopAction::Observe);
    assert_eq!(pace.clock.interval, 8 * MS);
    let drawn = |ms| LoopEvent::Drawn { now: ms * MS };
    assert_eq!(pace.run(drawn(999)), LoopAction::Flush { raise: false });
    assert_eq!(pace.run(drawn(1000)), LoopAction::Flush { raise: true });
    assert_eq!(pace.run(drawn(1500)), LoopAction::Flush { raise: false });

    let mut unwatched = RenderLoop::new(0, 16 * MS, ConfigWatch::new(false, None));
    assert_eq!(unwatched.run(drained(9000)), LoopAction::Observe);
    assert_eq!(unwatched.config_check.last, 9000 * MS);
}
