use snake::tui::{Pixel, Window};
use snake::util::Vec2;

#[test]
fn vec2_holds_coordinates() {
    let v = Vec2::new(7, 9);
    assert_eq!(v.x, 7);
    assert_eq!(v.y, 9);
}

#[test]
fn window_placement() {
    let w = Window::new(5, 6, 10, 8);
    assert_eq!(w.pos(), Vec2 { x: 5, y: 6 });
    assert_eq!(w.size(), Vec2 { x: 10, y: 8 });
    assert!(w.title().is_none());
}

#[test]
fn centered_window_placement() {
    let w = Window::centered(40, 12, 20, 10);
    assert_eq!(w.pos(), Vec2 { x: 30, y: 7 });
    assert_eq!(w.size(), Vec2 { x: 20, y: 10 });
}

#[test]
fn inner_and_outer_windows() {
    let w = Window::new(5, 6, 10, 8);
    let inner = w.inner();
    assert_eq!(inner.pos(), Vec2 { x: 6, y: 7 });
    assert_eq!(inner.size(), Vec2 { x: 8, y: 6 });
    let outer = w.outer();
    assert_eq!(outer.pos(), Vec2 { x: 4, y: 5 });
    assert_eq!(outer.size(), Vec2 { x: 12, y: 10 });
}

#[test]
fn pixel_is_window_relative() {
    let w = Window::new(5, 6, 10, 8);
    assert_eq!(w.pixel(2, 3, 'q'), Pixel { x: 7, y: 9, ch: 'q' });
}

#[test]
fn print_str_offsets() {
    let w = Window::new(5, 6, 10, 8);
    let cmd = w.print_str(2, 3, "hi");
    assert_eq!(cmd.x, 7);
    assert_eq!(cmd.y, 9);
    assert_eq!(cmd.text, "hi");
}

#[test]
fn print_centered_str_centers() {
    let w = Window::new(10, 0, 20, 5);
    let cmd = w.print_centered_str(1, "abcd");
    assert_eq!(cmd.x, 18);
    assert_eq!(cmd.y, 1);
    assert_eq!(cmd.text, "abcd");
}

#[test]
fn titles_are_kept() {
    let mut w = Window::new(0, 0, 10, 10);
    w.set_title("Snake");
    assert_eq!(w.title().as_deref(), Some("Snake"));
}

#[test]
fn border_layout() {
    let w = Window::new(1, 1, 3, 2);
    let cmds = w.draw_borders();
    let expected = vec![
        Pixel { x: 1, y: 2, ch: '│' },
        Pixel { x: 4, y: 2, ch: '│' },
        Pixel { x: 2, y: 1, ch: '─' },
        Pixel { x: 3, y: 1, ch: '─' },
        Pixel { x: 2, y: 3, ch: '─' },
        Pixel { x: 3, y: 3, ch: '─' },
        Pixel { x: 1, y: 1, ch: '┌' },
        Pixel { x: 4, y: 1, ch: '┐' },
        Pixel { x: 1, y: 3, ch: '└' },
        Pixel { x: 4, y: 3, ch: '┘' },
    ];
    assert_eq!(cmds, expected);
}
