use imlec::keys::{EmitKind, KeyClass};
use imlec::linux_backend::pointer::{
    emission, hyprland_socket, socket_candidates, split_cursor_reply, Emission, Pointer, Position,
    Relative,
};

/// The same tracker in floating point.
struct Float {
    x: f32,
    y: f32,
    width: f32,
    height: f32,
    seeded: bool,
}

impl Float {
    fn set_bounds(&mut self, width: f32, height: f32) {
        self.width = width.max(1.0);
        self.height = height.max(1.0);
        if !self.seeded {
            self.x = self.width * 0.5;
            self.y = self.height * 0.5;
            self.seeded = true;
        }
        self.clamp();
    }

    fn motion(&mut self, dx: f32, dy: f32) {
        self.x += dx;
        self.y += dy;
        self.clamp();
    }

    fn clamp(&mut self) {
        self.x = self.x.clamp(0.0, self.width - 1.0);
        self.y = self.y.clamp(0.0, self.height - 1.0);
    }
}

#[test]
fn starts_in_the_corner_of_full_hd() {
    let rel = Relative::new();
    assert_eq!((rel.half_x, rel.half_y, rel.width, rel.height, rel.seeded), (0, 0, 1920, 1080, false));
}

#[test]
fn first_bounds_put_the_pointer_in_the_middle() {
    let mut rel = Relative::new();
    rel.set_bounds(1921, 1080);
    assert_eq!((rel.half_x, rel.half_y), (1921, 1080));
    rel.set_bounds(3840, 2160);
    assert_eq!((rel.half_x, rel.half_y), (1921, 1080));
    rel.set_bounds(100, 50);
    assert_eq!((rel.half_x, rel.half_y), (198, 98));
    rel.set_bounds(0, -5);
    assert_eq!((rel.width, rel.height, rel.half_x, rel.half_y), (1, 1, 0, 0));
}

#[test]
fn motion_stays_on_the_screen() {
    let mut rel = Relative::new();
    rel.set_bounds(100, 100);
    rel.motion(10, -20);
    assert_eq!((rel.half_x, rel.half_y), (120, 60));
    rel.motion(-10, 20);
    assert_eq!((rel.half_x, rel.half_y), (100, 100));
    rel.motion(i32::MAX, i32::MIN);
    assert_eq!((rel.half_x, rel.half_y), (198, 0));
}

#[test]
fn agrees_with_floating_point() {
    let mut rel = Relative::new();
    let mut float = Float { x: 0.0, y: 0.0, width: 1920.0, height: 1080.0, seeded: false };
    let mut n: i64 = 12345;
    for step in 0..2000i64 {
        n = (n * 1103515245 + 12345) % 2147483648;
        let (dx, dy) = ((n % 4001 - 2000) as i32, (n / 4001 % 2001 - 1000) as i32);
        if step % 97 == 5 {
            let (w, h) = (n % 8192 - 10, n % 5000 - 10);
            rel.set_bounds(w, h);
            float.set_bounds(w as f32, h as f32);
        } else if step % 101 == 0 {
            rel.motion(i32::MAX, i32::MIN);
            float.motion(i32::MAX as f32, i32::MIN as f32);
        } else {
            rel.motion(dx, dy);
            float.motion(dx as f32, dy as f32);
        }
        assert_eq!((rel.half_x as f32 / 2.0, rel.half_y as f32 / 2.0), (float.x, float.y));
    }
}

#[test]
fn the_best_source_is_picked() {
    let socket = Some("/run/hypr/sig/.socket.sock".to_string());
    assert!(!Pointer::wants_x11(&socket, false));
    assert!(!Pointer::wants_x11(&None, true));
    assert!(Pointer::wants_x11(&None, false));
    assert!(matches!(
        Pointer::detect(socket, false, Some(3)),
        Pointer::Hyprland { socket, .. } if socket == "/run/hypr/sig/.socket.sock"
    ));
    assert!(matches!(Pointer::detect(None, false, Some(3)), Pointer::X11 { root: 3 }));
    assert!(matches!(Pointer::detect(None, true, Some(3)), Pointer::Relative(_)));
    assert!(matches!(Pointer::detect(None, false, None), Pointer::Relative(_)));
}

#[test]
fn positions() {
    let mut hyprland = Pointer::detect(Some("s".into()), true, None);
    hyprland.set_bounds(200, 100);
    hyprland.on_motion(1, 2);
    let answer = Some((1.5f32.to_bits(), 2.0f32.to_bits()));
    let queried = Some(Position::Queried { x: 1.5f32.to_bits(), y: 2.0f32.to_bits() });
    assert_eq!(hyprland.position(answer), queried);
    assert_eq!(hyprland.position(None), Some(Position::Estimated { half_x: 202, half_y: 104 }));

    let mut x11 = Pointer::detect(None, false, Some(9));
    x11.set_bounds(200, 100);
    x11.on_motion(1, 2);
    assert_eq!(x11.position(answer), queried);
    assert_eq!(x11.position(None), None);

    let mut relative = Pointer::detect(None, true, None);
    relative.on_motion(5, 6);
    let estimated = Some(Position::Estimated { half_x: 10, half_y: 12 });
    assert_eq!(relative.position(answer), estimated);
    assert_eq!(relative.position(None), estimated);
}

#[test]
fn keys_without_a_position_have_no_effect() {
    let x11 = Pointer::detect(None, false, Some(9));
    let typing = KeyClass::Text.emit_kind();
    assert_eq!(emission(typing, x11.position(None)), None);
    assert_eq!(
        emission(typing, x11.position(Some((3, 4)))),
        Some(Emission { kind: EmitKind::Typing, at: Position::Queried { x: 3, y: 4 } })
    );
    assert_eq!(emission(KeyClass::Ignore.emit_kind(), x11.position(Some((3, 4)))), None);
    let relative = Pointer::detect(None, true, None);
    assert_eq!(
        emission(KeyClass::Delete.emit_kind(), relative.position(None)),
        Some(Emission {
            kind: EmitKind::Deleting,
            at: Position::Estimated { half_x: 0, half_y: 0 },
        })
    );
}

#[test]
fn sockets_are_looked_for_in_two_places() {
    assert_eq!(
        socket_candidates(Some("abc"), Some("/run/user/1000")),
        ["/run/user/1000/hypr/abc/.socket.sock", "/tmp/hypr/abc/.socket.sock"]
    );
    assert_eq!(socket_candidates(Some("abc"), None), ["/tmp/hypr/abc/.socket.sock"]);
    assert_eq!(socket_candidates(None, Some("/run/user/1000")), Vec::<String>::new());
    assert_eq!(
        socket_candidates(Some("abc"), Some("/run/")),
        ["/run/hypr/abc/.socket.sock", "/tmp/hypr/abc/.socket.sock"]
    );
}

#[test]
fn the_first_socket_that_exists() {
    let paths = vec!["a".to_string(), "b".to_string()];
    assert_eq!(hyprland_socket(&paths, &vec![true, true]), Some("a".to_string()));
    assert_eq!(hyprland_socket(&paths, &vec![false, true]), Some("b".to_string()));
    assert_eq!(hyprland_socket(&paths, &vec![false, false]), None);
    assert_eq!(hyprland_socket(&vec![], &vec![]), None);
}

#[test]
fn cursor_replies() {
    assert_eq!(split_cursor_reply("812, 440"), Some(("812", "440")));
    assert_eq!(split_cursor_reply(" -1 ,2\n"), Some(("-1", "2")));
    assert_eq!(split_cursor_reply("1,2,3"), Some(("1", "2,3")));
    assert_eq!(split_cursor_reply(","), Some(("", "")));
    assert_eq!(split_cursor_reply("unknown request"), None);
    assert_eq!(split_cursor_reply(""), None);
}
