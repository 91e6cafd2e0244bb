use imlec::keys::{EmitKind, KeyClass};
use imlec::pacing::ConfigWatch;
use imlec::rect::DirtyRect;
use imlec::windows_backend::hook::{
    classify_vk, emissions, is_key_down, is_quit, Emission, KeyQueue, LoopAction, LoopEvent,
    Placement, RenderLoop,
};
use imlec::windows_backend::layer::{
    BitmapRequest, Cleanup, LayeredSurface, NoBackingMemory, Presentation,
};
use imlec::windows_backend::tray::{show_menu, wnd_proc, MenuEntry, WindowAction};

const MS: u64 = 1_000_000;

fn rect(x: i32, y: i32, w: i32, h: i32) -> DirtyRect {
    DirtyRect { x, y, w, h }
}

#[test]
fn virtual_keys_are_classified() {
    assert_eq!(classify_vk(0x08), KeyClass::Delete);
    assert_eq!(classify_vk(0x2e), KeyClass::Delete);
    for vk in [
        0x10, 0x11, 0x12, 0x14, 0x5b, 0x5c, 0x90, 0x91, 0xa0, 0xa1, 0xa2, 0xa3, 0xa4, 0xa5,
    ] {
        assert_eq!(classify_vk(vk), KeyClass::Ignore, "{vk:#x}");
    }
    let text = (0..256).filter(|vk| classify_vk(*vk) == KeyClass::Text).count();
    assert_eq!(text, 256 - 2 - 14);
    assert_eq!(classify_vk(0x41), KeyClass::Text);
    assert_eq!(classify_vk(0x7001_0008), KeyClass::Delete);
    assert_eq!(classify_vk(0x0800), KeyClass::Text);
}

#[test]
fn hook_and_queue_messages() {
    assert!(is_key_down(0, 0x0100));
    assert!(is_key_down(0, 0x0104));
    assert!(!is_key_down(0, 0x0101));
    assert!(!is_key_down(-1, 0x0100));
    assert!(is_quit(0x0012));
    assert!(!is_quit(0x0100));
}

#[test]
fn the_queue_is_bounded() {
    let mut queue = KeyQueue::new();
    queue.key_down(0x10);
    assert!(queue.keys.is_empty());
    for _ in 0..100 {
        queue.key_down(0x41);
    }
    assert_eq!(queue.keys.len(), 64);
    assert_eq!(queue.drain(true), vec![EmitKind::Typing; 64]);
    assert_eq!(queue.drain(true), vec![]);
}

#[test]
fn draining() {
    let mut queue = KeyQueue::new();
    queue.key_down(0x41);
    queue.key_down(0x08);
    queue.key_down(0x42);
    assert_eq!(
        queue.drain(true),
        [EmitKind::Typing, EmitKind::Deleting, EmitKind::Typing]
    );
    queue.key_down(0x41);
    assert_eq!(queue.drain(false), vec![]);
    assert_eq!(queue.drain(true), vec![]);
}

#[test]
fn drained_keys_emit_at_the_cursor() {
    let mut queue = KeyQueue::new();
    queue.key_down(0x41);
    queue.key_down(0x08);
    let kinds = queue.drain(true);
    assert_eq!(
        emissions(&kinds, Some((-3, 7))),
        [
            Emission { kind: EmitKind::Typing, x: -3, y: 7 },
            Emission { kind: EmitKind::Deleting, x: -3, y: 7 },
        ]
    );
    assert_eq!(emissions(&kinds, None), []);
    assert!(queue.keys.is_empty());
    queue.key_down(0x41);
    assert_eq!(emissions(&queue.drain(false), Some((1, 1))), []);
    assert!(queue.keys.is_empty());
}

#[test]
fn frames_are_placed_on_the_screen() {
    let mut pace = RenderLoop::new(0, 16 * MS, ConfigWatch::new(true, Some(1)));
    let screen = rect(0, 0, 1920, 1080);
    let mut advanced = |bounds| pace.run(LoopEvent::Advanced { bounds, screen });
    assert_eq!(
        advanced(Some(rect(-5, 10, 20, 30))),
        LoopAction::Show(Placement { bounds: rect(0, 10, 15, 30), area: rect(0, 0, 15, 30) })
    );
    assert_eq!(advanced(Some(rect(2000, 10, 20, 30))), LoopAction::Conceal);
    assert_eq!(advanced(None), LoopAction::Conceal);
}

#[test]
fn rounds_of_the_render_loop() {
    let mut pace = RenderLoop::new(0, 16 * MS, ConfigWatch::new(true, Some(1)));
    assert_eq!(pace.run(LoopEvent::Pumped { quit: true }), LoopAction::End);
    assert_eq!(pace.run(LoopEvent::Pumped { quit: false }), LoopAction::Drain);
    let observed = |idle, ms| LoopEvent::Observed { idle, now: ms * MS };
    assert_eq!(pace.run(observed(true, 100)), LoopAction::Rest { millis: 8 });
    assert_eq!(pace.run(observed(false, 110)), LoopAction::Advance { nanos: 10 * MS });
    assert_eq!(pace.run(LoopEvent::PixmapFailed), LoopAction::Begin);
    assert_eq!(pace.run(LoopEvent::Shown { now: 115 * MS }), LoopAction::Sleep { nanos: 11 * MS });
    assert_eq!(pace.run(LoopEvent::Shown { now: 126 * MS }), LoopAction::Begin);
    assert_eq!(pace.run(LoopEvent::Drained { now: 399 * MS }), LoopAction::Observe);
    assert_eq!(pace.run(LoopEvent::Drained { now: 400 * MS }), LoopAction::ReadFileTime);
    assert_eq!(pace.run(LoopEvent::Loaded { interval: Some(8 * MS) }), LoopAction::Observe);
    assert_eq!(pace.run(LoopEvent::Shown { now: 112 * MS }), LoopAction::Sleep { nanos: 6 * MS });
}

#[test]
fn reloading_on_request() {
    let mut pace = RenderLoop::new(0, 16 * MS, ConfigWatch::new(true, Some(1)));
    let mut look = |mtime, requested| pace.run(LoopEvent::FileTime { mtime, requested });
    assert_eq!(look(Some(1), false), LoopAction::Observe);
    assert_eq!(look(Some(2), true), LoopAction::LoadConfig { request_used: false });
    assert_eq!(look(Some(2), true), LoopAction::LoadConfig { request_used: true });
    assert_eq!(look(Some(2), false), LoopAction::Observe);
    assert_eq!(look(None, false), LoopAction::LoadConfig { request_used: false });
    let mut unwatched = ConfigWatch::new(false, None);
    let mut requested = true;
    assert!(!unwatched.changed_or_requested(Some(3), &mut requested));
    assert!(requested);
}

#[test]
fn bitmaps_grow() {
    let mut surface = LayeredSurface::new(0);
    assert_eq!(surface.ensure(10, 10), Some(BitmapRequest { width: 256, height: 256 }));
    let request = surface.ensure(300, 10).unwrap();
    assert_eq!(request, BitmapRequest { width: 300, height: 256 });
    assert_eq!(surface.replace_bitmap(request, 71, 70, true), None);
    assert_eq!(surface.ensure(300, 256), None);
    assert_eq!(surface.ensure(1, 1), None);
    let request = surface.ensure(20, 400).unwrap();
    assert_eq!(request, BitmapRequest { width: 300, height: 400 });
    assert_eq!(surface.replace_bitmap(request, 72, 71, true), Some(71));
    assert_eq!(surface.previous_bitmap, 70);
    assert_eq!(surface.close(), Cleanup { restore: Some(70), delete: Some(72) });
    assert_eq!(surface.close(), Cleanup { restore: None, delete: None });
}

#[test]
fn invalid_handles_are_not_restored() {
    for previous in [0, -1] {
        let mut surface = LayeredSurface::new(0);
        let request = surface.ensure(1, 1).unwrap();
        surface.replace_bitmap(request, 5, previous, true);
        assert_eq!(surface.close(), Cleanup { restore: None, delete: Some(5) });
    }
}

#[test]
fn presenting_and_hiding() {
    let mut surface = LayeredSurface::new(0);
    assert!(!surface.hide_window());
    let request = surface.ensure(30, 20).unwrap();
    surface.replace_bitmap(request, 5, 4, true);
    let area = rect(0, 0, 30, 20);
    let bounds = rect(100, 200, 30, 20);
    let position = (100, 200);
    assert_eq!(
        surface.present(bounds),
        Ok(Presentation { stride: 1024, len: 262_144, area, position, show: true })
    );
    assert_eq!(
        surface.present(bounds),
        Ok(Presentation { stride: 1024, len: 262_144, area, position, show: false })
    );
    assert!(surface.hide_window());
    assert!(!surface.hide_window());
    assert!(surface.present(bounds).unwrap().show);
    assert!(!surface.raise_now(999 * MS));
    assert!(surface.raise_now(1000 * MS));
    assert!(!surface.raise_now(1999 * MS));
}

#[test]
fn bitmaps_without_memory() {
    let mut surface = LayeredSurface::new(0);
    let request = surface.ensure(1, 1).unwrap();
    surface.replace_bitmap(request, 5, 4, false);
    assert_eq!(surface.present(rect(0, 0, 1, 1)), Err(NoBackingMemory));
    assert!(!surface.visible);
}

#[test]
fn tray_messages() {
    const TRAY: u32 = 0x8001;
    assert_eq!(wnd_proc(TRAY, 0, 0x0205, true), WindowAction::ShowMenu);
    assert_eq!(wnd_proc(TRAY, 0, 0x0202, true), WindowAction::ShowMenu);
    assert_eq!(wnd_proc(TRAY, 0, 0x0200, true), WindowAction::Nothing);
    assert_eq!(wnd_proc(0x0111, 1, 0, true), WindowAction::SetEnabled(false));
    assert_eq!(wnd_proc(0x0111, 1, 0, false), WindowAction::SetEnabled(true));
    assert_eq!(wnd_proc(0x0111, 2, 0, true), WindowAction::OpenConfig);
    assert_eq!(wnd_proc(0x0111, 0x7_0003, 0, true), WindowAction::RequestReload);
    assert_eq!(wnd_proc(0x0111, 4, 0, true), WindowAction::RequestQuit);
    assert_eq!(wnd_proc(0x0111, 5, 0, true), WindowAction::Nothing);
    assert_eq!(wnd_proc(0x0002, 0, 0, true), WindowAction::PostQuit);
    assert_eq!(wnd_proc(0x0010, 0, 0, true), WindowAction::Default);
}

#[test]
fn the_tray_menu() {
    for enabled in [true, false] {
        let entries = show_menu(enabled);
        assert_eq!(
            entries,
            [
                MenuEntry::Command { id: 1, label: "Effects enabled", checked: enabled },
                MenuEntry::Command { id: 2, label: "Open config file", checked: false },
                MenuEntry::Command { id: 3, label: "Reload config", checked: false },
                MenuEntry::Separator,
                MenuEntry::Command { id: 4, label: "Exit", checked: false },
            ]
        );
    }
}
