use imlec::keys::{EmitKind, KeyClass};
use imlec::linux_backend::keyboard::InputSignal;
use imlec::linux_backend::overlay::{
    Configured, OutputInfo, OutputReport, Overlay, TimerAction,
};
use imlec::linux_backend::pointer::{Pointer, Relative};
use imlec::linux_backend::surface::{
    damage_in_pixmap, BufferRequest, DrawAction, DrawEvent, OutputSurface, PixmapSize, PoolRequest, Released,
};
use imlec::pacing::ConfigWatch;
use imlec::rect::DirtyRect;

const BOTH: Released = Released { first: true, second: true };
const NEITHER: Released = Released { first: false, second: false };

fn rect(x: i32, y: i32, w: i32, h: i32) -> DirtyRect {
    DirtyRect { x, y, w, h }
}

fn ready_surface() -> OutputSurface {
    let mut surface = OutputSurface::new(1, 50, 40, 2, (0, 0));
    surface.rebuilt(true, true);
    surface.configured = true;
    surface
}

/// Draws a frame whose every step succeeds, and returns what was committed.
fn draw_frame(
    surface: &mut OutputSurface,
    damage: Option<DirtyRect>,
    released: Released,
) -> Option<(usize, DirtyRect)> {
    let mut event = DrawEvent::Rendered { released };
    loop {
        event = match surface.draw(damage, event) {
            DrawAction::Stop => return None,
            DrawAction::CreateBuffer { slot, .. } => DrawEvent::BufferCreated { slot, created: true },
            DrawAction::Copy { slot, .. } => DrawEvent::Copied { slot },
            DrawAction::Commit { slot, region } => return Some((slot, region)),
        };
    }
}

#[test]
fn a_new_surface_waits() {
    let surface = OutputSurface::new(1, 50, 40, 2, (10, 20));
    assert!(!surface.can_draw());
    assert_eq!(surface.buffer_size(), (100, 80));
    assert_eq!(surface.rebuild(), Some(PoolRequest { width: 100, height: 80, len: 64_000 }));
    let empty = OutputSurface::new(1, 0, 40, 2, (10, 20));
    assert_eq!(empty.rebuild(), None);
}

#[test]
fn rebuilding() {
    let mut surface = ready_surface();
    assert!(surface.can_draw());
    assert_eq!(surface.renderer, Some(PixmapSize { width: 100, height: 80 }));
    draw_frame(&mut surface, Some(rect(0, 0, 1, 1)), BOTH);
    assert!(surface.slots.first.allocated);
    let before = surface;
    surface.rebuilt(false, false);
    assert!(!surface.can_draw());
    assert_eq!(surface.slots, before.slots);
    surface.rebuilt(true, false);
    assert!(!surface.can_draw());
    assert!(!surface.slots.first.allocated);
    surface.rebuilt(true, true);
    assert!(surface.can_draw());
}

#[test]
fn the_first_frame_creates_a_buffer_and_copies_everything() {
    let mut surface = ready_surface();
    let damage = Some(rect(5, 5, 10, 10));
    assert_eq!(
        surface.draw(damage, DrawEvent::Rendered { released: NEITHER }),
        DrawAction::CreateBuffer {
            slot: 0,
            request: BufferRequest { width: 100, height: 80, stride: 400 }
        }
    );
    let all = rect(0, 0, 100, 80);
    assert_eq!(
        surface.draw(damage, DrawEvent::BufferCreated { slot: 0, created: true }),
        DrawAction::Copy { slot: 0, region: all }
    );
    assert_eq!(
        surface.draw(damage, DrawEvent::Copied { slot: 0 }),
        DrawAction::Commit { slot: 0, region: all }
    );
    assert_eq!(surface.slots.first.stale, None);
    assert_eq!(surface.next_slot, 1);
}

#[test]
fn later_frames_copy_only_what_is_stale() {
    let mut surface = ready_surface();
    let (a, b, c) = (rect(0, 0, 2, 2), rect(10, 10, 2, 2), rect(20, 0, 2, 2));
    assert_eq!(draw_frame(&mut surface, Some(a), BOTH).unwrap().0, 0);
    assert_eq!(draw_frame(&mut surface, Some(b), BOTH), Some((1, rect(0, 0, 100, 80))));
    assert_eq!(draw_frame(&mut surface, Some(c), BOTH), Some((0, rect(10, 0, 12, 12))));
    assert_eq!(draw_frame(&mut surface, None, BOTH), Some((1, c)));
    assert_eq!(draw_frame(&mut surface, None, BOTH), None);
}

#[test]
fn frames_wait_for_a_released_buffer() {
    let mut surface = ready_surface();
    draw_frame(&mut surface, Some(rect(0, 0, 1, 1)), BOTH);
    draw_frame(&mut surface, Some(rect(0, 0, 1, 1)), BOTH);
    let only_second = Released { first: false, second: true };
    assert_eq!(draw_frame(&mut surface, Some(rect(4, 4, 1, 1)), only_second), Some((1, rect(4, 4, 1, 1))));
    assert_eq!(draw_frame(&mut surface, Some(rect(8, 8, 1, 1)), NEITHER), None);
    assert_eq!(surface.slots.first.stale, Some(rect(0, 0, 9, 9)));
    assert_eq!(surface.slots.second.stale, Some(rect(8, 8, 1, 1)));
    assert_eq!(draw_frame(&mut surface, None, BOTH), Some((0, rect(0, 0, 9, 9))));
    assert_eq!(draw_frame(&mut surface, None, BOTH), Some((1, rect(8, 8, 1, 1))));
}

#[test]
fn a_frame_that_fails_is_caught_up_with() {
    let mut surface = ready_surface();
    draw_frame(&mut surface, Some(rect(0, 0, 1, 1)), BOTH);
    let damage = Some(rect(30, 30, 5, 5));
    assert!(matches!(
        surface.draw(damage, DrawEvent::Rendered { released: BOTH }),
        DrawAction::CreateBuffer { slot: 1, .. }
    ));
    let failed = DrawEvent::BufferCreated { slot: 1, created: false };
    assert_eq!(surface.draw(damage, failed), DrawAction::Stop);
    assert_eq!(draw_frame(&mut surface, None, BOTH), Some((0, rect(30, 30, 5, 5))));

    let damage = Some(rect(50, 50, 5, 5));
    surface.draw(damage, DrawEvent::Rendered { released: BOTH });
    assert_eq!(surface.draw(damage, DrawEvent::CanvasLost { slot: 0 }), DrawAction::Stop);
    assert_eq!(surface.slots.first.stale, damage);
}

/// Two buffers and a pixmap of single pixels: whatever is released when, a committed buffer shows
/// the pixmap, and the screen differs from it before only inside the committed region.
#[test]
fn committed_frames_show_the_pixmap() {
    let mut surface = ready_surface();
    let (w, h) = (100usize, 80usize);
    let mut pixmap = vec![0u32; w * h];
    let mut buffers = [vec![7u32; w * h], vec![9u32; w * h]];
    let mut shown: Option<usize> = None;
    let mut n: u64 = 1;
    for frame in 1..400u32 {
        n = n.wrapping_mul(6364136223846793005).wrapping_add(1442695040888963407);
        let r = |shift: u64, m: u64| (n >> shift) % m;
        let area = rect(r(10, 90) as i32, r(20, 70) as i32, 1 + r(30, 9) as i32, 1 + r(40, 9) as i32);
        let damage = if r(50, 4) == 0 { None } else { Some(area) };
        let inside = |region: DirtyRect, i: usize| {
            let (x, y) = ((i % w) as i32, (i / w) as i32);
            region.x <= x && x < region.x + region.w && region.y <= y && y < region.y + region.h
        };
        if let Some(d) = damage {
            for i in 0..w * h {
                if inside(d, i) {
                    pixmap[i] = frame;
                }
            }
        }
        let released = Released { first: r(55, 2) == 0, second: r(57, 2) == 0 };
        if let Some((slot, region)) = draw_frame(&mut surface, damage, released) {
            if let Some(on_screen) = shown {
                for i in 0..w * h {
                    assert!(inside(region, i) || buffers[on_screen][i] == pixmap[i]);
                }
            }
            for i in 0..w * h {
                if inside(region, i) {
                    buffers[slot][i] = pixmap[i];
                }
            }
            assert_eq!(buffers[slot], pixmap);
            shown = Some(slot);
        }
    }
    assert!(shown.is_some());
}

#[test]
fn damage_is_clipped_to_the_pixmap() {
    let size = PixmapSize { width: 20, height: 10 };
    let clip = |d| damage_in_pixmap(Some(d), size);
    assert_eq!(clip(rect(1, 2, 3, 4)), Some(rect(1, 2, 3, 4)));
    assert_eq!(clip(rect(1, 2, 0, 4)), Some(rect(1, 2, 0, 4)));
    assert_eq!(clip(rect(-5, 2, 10, 40)), Some(rect(0, 2, 5, 8)));
    assert_eq!(clip(rect(i32::MAX, 0, i32::MAX, 5)), None);
    assert_eq!(clip(rect(5, 5, i32::MAX, i32::MAX)), Some(rect(5, 5, 15, 5)));
    assert_eq!(clip(rect(-5, 0, 5, 5)), None);
    assert_eq!(damage_in_pixmap(None, size), None);
}

#[test]
fn uncountable_pixmaps_are_not_drawn_to() {
    for (width, height) in [(0x2000_0000, 1), (1, 0x8000_0000)] {
        let mut surface = OutputSurface::new(1, width, height, 1, (0, 0));
        surface.configured = true;
        surface.rebuilt(true, true);
        assert!(surface.pool);
        assert_eq!(surface.renderer, None);
        assert!(!surface.can_draw());
    }
    let mut surface = OutputSurface::new(1, 0x1fff_ffff, 0x7fff_ffff, 1, (0, 0));
    surface.configured = true;
    surface.rebuilt(true, true);
    assert!(surface.can_draw());
}

fn overlay() -> Overlay {
    Overlay::new(
        Pointer::Relative(Relative::new()),
        ConfigWatch::new(true, Some(5)),
        10,
        16,
    )
}

fn info(size: (i32, i32), position: (i32, i32), scale_factor: i32) -> Option<OutputInfo> {
    Some(OutputInfo { logical_size: Some(size), logical_position: Some(position), scale_factor })
}

fn report(output: u64, info: Option<OutputInfo>) -> OutputReport {
    OutputReport { output, info }
}

fn bounds(overlay: &Overlay) -> (i64, i64) {
    match &overlay.pointer {
        Pointer::Relative(rel) => (rel.width, rel.height),
        other => panic!("{other:?}"),
    }
}

#[test]
fn outputs_get_surfaces() {
    let mut overlay = overlay();
    let reports = vec![
        report(10, info((1920, 1080), (0, 0), 1)),
        report(11, None),
        report(12, info((-5, 1440), (1920, 100), 0)),
        report(13, Some(OutputInfo { logical_size: None, logical_position: None, scale_factor: 2 })),
    ];
    let plan = overlay.sync_outputs(&reports);
    assert_eq!(plan.create, [10, 12, 13]);
    assert_eq!(plan.rebuild, Vec::<u64>::new());
    let sizes: Vec<_> = overlay
        .surfaces
        .iter()
        .map(|s| (s.output, s.width, s.height, s.scale, s.origin, s.configured))
        .collect();
    assert_eq!(
        sizes,
        [
            (10, 1920, 1080, 1, (0, 0), false),
            (12, 0, 1440, 1, (1920, 100), false),
            (13, 0, 0, 2, (0, 0), false),
        ]
    );
    assert_eq!(bounds(&overlay), (1920, 1540));

    let again = overlay.sync_outputs(&reports);
    assert!(again.create.is_empty() && again.rebuild.is_empty());
}

#[test]
fn outputs_that_change_or_go() {
    let mut overlay = overlay();
    overlay.sync_outputs(&vec![
        report(1, info((100, 100), (0, 0), 1)),
        report(2, info((200, 50), (100, 0), 1)),
    ]);
    assert_eq!(bounds(&overlay), (300, 100));
    overlay.surfaces[1].configured = true;
    let plan = overlay.sync_outputs(&vec![
        report(2, info((999, 999), (0, 0), 3)),
        report(3, info((10, 10), (0, 500), 1)),
    ]);
    assert_eq!((plan.create, plan.rebuild), (vec![3], vec![2]));
    assert_eq!(overlay.surfaces.len(), 2);
    let kept = overlay.surfaces[0];
    assert_eq!((kept.output, kept.width, kept.height, kept.scale), (2, 200, 50, 3));
    assert!(kept.configured);
    assert_eq!(bounds(&overlay), (200, 510));
}

#[test]
fn geometry_updates() {
    let mut overlay = overlay();
    overlay.sync_outputs(&vec![report(1, info((100, 100), (0, 0), 1))]);
    assert!(!overlay.update_output(report(1, info((1, 1), (50, 60), 1))));
    assert_eq!(overlay.surfaces[0].origin, (50, 60));
    assert_eq!(bounds(&overlay), (150, 160));
    assert!(overlay.update_geometry(report(1, info((1, 1), (50, 60), 2))));
    assert!(!overlay.update_geometry(report(1, None)));
    assert!(!overlay.update_geometry(report(9, info((1, 1), (0, 0), 7))));
    assert!(overlay.scale_factor_changed(1, -3));
    assert_eq!(overlay.surfaces[0].scale, 1);
    assert!(overlay.scale_factor_changed(1, 1));
    assert!(!overlay.scale_factor_changed(9, 2));
}

#[test]
fn configuring_a_surface() {
    let mut overlay = overlay();
    overlay.sync_outputs(&vec![report(1, info((0, 0), (0, 0), 2))]);
    assert_eq!(overlay.configure(9, 10, 10), Configured::Unknown);
    assert_eq!(overlay.configure(1, 100, 0), Configured::Waiting);
    assert!(!overlay.surfaces[0].configured);
    assert_eq!(overlay.configure(1, 0, 50), Configured::Ready { rebuild: true });
    assert!(overlay.surfaces[0].configured);
    assert_eq!(bounds(&overlay), (100, 50));
    overlay.surfaces[0].rebuilt(true, true);
    assert_eq!(overlay.configure(1, 100, 50), Configured::Ready { rebuild: false });
    assert_eq!(overlay.configure(1, 100, 51), Configured::Ready { rebuild: true });
}

#[test]
fn removing_surfaces() {
    let mut overlay = overlay();
    overlay.sync_outputs(&vec![
        report(1, info((100, 100), (0, 0), 1)),
        report(2, info((100, 100), (100, 0), 1)),
        report(3, info((100, 100), (200, 0), 1)),
    ]);
    overlay.closed(3);
    assert_eq!(bounds(&overlay), (300, 100));
    overlay.output_destroyed(2);
    assert_eq!(bounds(&overlay), (100, 100));
    assert_eq!(overlay.find(1), Some(0));
    assert_eq!(overlay.find(2), None);
    overlay.output_destroyed(1);
    assert_eq!(bounds(&overlay), (100, 100));
}

#[test]
fn input_and_timer() {
    let mut overlay = overlay();
    assert_eq!(overlay.on_input(InputSignal::Motion { dx: 1, dy: 1 }), None);
    assert_eq!(overlay.on_input(InputSignal::Key(KeyClass::Text)), Some(EmitKind::Typing));
    assert!(overlay.arm_timer(100));
    assert_eq!(overlay.tick(130), 30);
    assert!(!overlay.arm_timer(140));
    assert_eq!(overlay.tick(150), 20);
    let again = TimerAction::Again { nanos: 16 };
    assert_eq!(overlay.after_tick(false, false), again);
    assert_eq!(overlay.after_tick(false, true), again);
    assert_eq!(overlay.after_tick(true, true), again);
    assert_eq!(overlay.after_tick(true, false), TimerAction::Drop);
    // The time without a timer is not made up for.
    assert!(overlay.arm_timer(900));
    assert_eq!(overlay.tick(901), 1);
    overlay.timer_failed();
    assert!(overlay.arm_timer(1000));
}

#[test]
fn only_new_particles_arm_the_timer() {
    let mut overlay = overlay();
    assert!(!overlay.emitted(false, 20));
    assert!(!overlay.timer_armed);
    assert_eq!(overlay.clock.last_tick, 10);
    assert!(overlay.emitted(true, 30));
    assert!(overlay.timer_armed);
    assert_eq!(overlay.clock.last_tick, 30);
    assert!(!overlay.emitted(true, 40));
    assert!(!overlay.emitted(false, 50));
    assert!(overlay.timer_armed);
    assert_eq!(overlay.clock.last_tick, 30);
}

#[test]
fn surfaces_are_changed_in_place() {
    let mut overlay = overlay();
    let reports = vec![
        report(1, info((20, 10), (0, 0), 1)),
        report(2, info((30, 10), (20, 0), 1)),
    ];
    overlay.sync_outputs(&reports);
    assert_eq!(overlay.configure(2, 0, 0), Configured::Ready { rebuild: true });
    let at = overlay.find(2).unwrap();
    overlay.surfaces[at].rebuilt(true, true);
    overlay.surfaces[at].draw(None, DrawEvent::Rendered { released: BOTH });
    assert_eq!(overlay.surfaces[at].output, 2);
    assert_eq!(overlay.find(1), Some(0));
    assert_eq!(overlay.find(2), Some(1));
    let plan = overlay.sync_outputs(&reports);
    assert!(plan.create.is_empty() && plan.rebuild.is_empty());
}

#[test]
fn a_loaded_configuration_arms_the_timer() {
    let mut overlay = overlay();
    assert!(overlay.config_loaded(8, 50));
    assert_eq!(overlay.after_tick(false, false), TimerAction::Again { nanos: 8 });
    assert_eq!(overlay.tick(60), 10);
    assert!(!overlay.config_loaded(4, 70));
    assert_eq!(overlay.after_tick(false, false), TimerAction::Again { nanos: 4 });
    assert_eq!(overlay.tick(80), 20);
}

#[test]
fn config_changes_are_loaded_once() {
    let mut overlay = overlay();
    assert!(!overlay.reload_config_if_changed(Some(5)));
    assert!(overlay.reload_config_if_changed(Some(6)));
    assert!(!overlay.reload_config_if_changed(Some(6)));
    assert!(overlay.reload_config_if_changed(None));
    overlay.config.watched = false;
    assert!(!overlay.reload_config_if_changed(Some(7)));
}
