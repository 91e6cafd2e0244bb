use imlec::linux_backend::x11::put_image;
use imlec::rect::{clamp_to, DirtyRect};

fn rect(x: i32, y: i32, w: i32, h: i32) -> DirtyRect {
    DirtyRect { x, y, w, h }
}

#[test]
fn union_of_two() {
    let a = rect(1, 2, 3, 4);
    let b = rect(10, 0, 5, 2);
    assert_eq!(DirtyRect::union_opt(Some(a), Some(b)), Some(rect(1, 0, 14, 6)));
    assert_eq!(DirtyRect::union_opt(Some(b), Some(a)), Some(rect(1, 0, 14, 6)));
}

#[test]
fn union_with_nothing() {
    let a = rect(1, 2, 3, 4);
    assert_eq!(DirtyRect::union_opt(Some(a), None), Some(a));
    assert_eq!(DirtyRect::union_opt(None, Some(a)), Some(a));
    assert_eq!(DirtyRect::union_opt(None, None), None);
}

#[test]
fn clamp_inside_partly_and_outside() {
    let screen = rect(-1920, 0, 3840, 1080);
    assert_eq!(clamp_to(rect(10, 10, 5, 5), screen), Some(rect(10, 10, 5, 5)));
    assert_eq!(clamp_to(rect(-1930, -4, 20, 20), screen), Some(rect(-1920, 0, 10, 16)));
    assert_eq!(clamp_to(rect(1910, 1070, 20, 20), screen), Some(rect(1910, 1070, 10, 10)));
    assert_eq!(clamp_to(rect(1920, 0, 10, 10), screen), None);
    assert_eq!(clamp_to(rect(0, 0, 0, 10), screen), None);
    assert_eq!(clamp_to(rect(0, 0, -3, 10), screen), None);
    let once = clamp_to(rect(-1930, -4, 20, 20), screen).unwrap();
    assert_eq!(clamp_to(once, screen), Some(once));
}

#[test]
fn small_images_are_sent_whole() {
    assert_eq!(put_image(rect(5, 6, 100, 100)), vec![rect(5, 6, 100, 100)]);
    assert_eq!(put_image(rect(5, 6, 100, 0)), vec![]);
    assert_eq!(put_image(rect(5, 6, 100, -1)), vec![]);
}

#[test]
fn large_images_are_sent_in_pieces() {
    // 1920 pixels are 7680 bytes, of which 34 rows fit in 256 KiB.
    let chunks = put_image(rect(0, 100, 1920, 70));
    assert_eq!(chunks, vec![rect(0, 100, 1920, 34), rect(0, 134, 1920, 34), rect(0, 168, 1920, 2)]);
}

#[test]
fn a_row_beyond_the_limit_is_sent_alone() {
    let chunks = put_image(rect(0, 0, 70_000, 3));
    assert_eq!(
        chunks,
        vec![rect(0, 0, 70_000, 1), rect(0, 1, 70_000, 1), rect(0, 2, 70_000, 1)]
    );
}

#[test]
fn pieces_cover_every_row_once() {
    let whole = rect(-3, -10, 999, 1000);
    let mut row = whole.y;
    for chunk in put_image(whole) {
        assert_eq!((chunk.x, chunk.y, chunk.w), (whole.x, row, whole.w));
        assert!(chunk.h as usize * chunk.w as usize * 4 <= 256 * 1024);
        row += chunk.h;
    }
    assert_eq!(row, whole.y + whole.h);
}

#[test]
fn a_rectangle_without_width() {
    assert_eq!(put_image(rect(0, 0, 0, 300_000)).len(), 2);
}
