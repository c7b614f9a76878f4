use raycaster::color::Rgba;
use raycaster::font::draw_digit;
use raycaster::framebuffer::FrameBuffer;
use raycaster::geometry::{AngleTable, Direction, Point, DIR_SCALE, FULL_TURN};
use raycaster::maze::Maze;
use raycaster::overlay::{decimal_digits, render_fps, render_minimap};
use raycaster::player::Player;

fn table() -> AngleTable {
    let scale = (DIR_SCALE + 1) as f64;
    let dirs: Vec<Direction> = (0..FULL_TURN)
        .map(|i| {
            let a = (i as f64) * std::f64::consts::PI * 2.0 / (FULL_TURN as f64);
            Direction::new((a.cos() * scale).round() as i64, (a.sin() * scale).round() as i64).unwrap()
        })
        .collect();
    AngleTable::from_directions(dirs).unwrap()
}

#[test]
fn digit_one_glyph_pixels() {
    let mut fb = FrameBuffer::new(10, 10, Rgba::black());
    fb.set_current_color(Rgba::red());
    draw_digit(&mut fb, 0, 0, '1');
    assert_eq!(fb.get_color(3, 0), Rgba::red());
    assert_eq!(fb.get_color(0, 0), Rgba::black());
    assert_eq!(fb.get_color(2, 1), Rgba::red());
    assert_eq!(fb.get_color(1, 8), Rgba::red());
    assert_eq!(fb.get_color(5, 8), Rgba::red());
    assert_eq!(fb.get_color(6, 8), Rgba::black());
}

#[test]
fn non_digit_glyph_is_blank() {
    let mut fb = FrameBuffer::new(10, 10, Rgba::black());
    fb.set_current_color(Rgba::red());
    draw_digit(&mut fb, 0, 0, 'x');
    assert!(fb.pixels().iter().all(|c| *c == Rgba::black()));
}

#[test]
fn decimal_digit_strings() {
    assert_eq!(decimal_digits(0), vec!['0']);
    assert_eq!(decimal_digits(1234), vec!['1', '2', '3', '4']);
    assert_eq!(decimal_digits(u32::MAX).len(), 10);
}

#[test]
fn fps_badge_layout() {
    let bg = Rgba::new(1, 1, 1, 255);
    let mut fb = FrameBuffer::new(140, 60, bg);
    render_fps(&mut fb, 45);
    let dark = Rgba::new(0, 0, 0, 200);
    assert_eq!(fb.get_color(10, 10), Rgba::white());
    assert_eq!(fb.get_color(119, 30), Rgba::white());
    assert_eq!(fb.get_color(50, 44), Rgba::white());
    assert_eq!(fb.get_color(12, 12), dark);
    assert_eq!(fb.get_color(20, 17), Rgba::green());
    assert_eq!(fb.get_color(89, 17), Rgba::green());
    assert_eq!(fb.get_color(90, 17), dark);
    assert_eq!(fb.get_color(18, 25), Rgba::green());
    assert_eq!(fb.get_color(15, 25), dark);
    assert_eq!(fb.get_color(120, 30), bg);
    assert_eq!(fb.get_color(5, 5), bg);
}

#[test]
fn fps_bar_colours_and_cap() {
    let mut fb = FrameBuffer::new(140, 60, Rgba::black());
    render_fps(&mut fb, 25);
    assert_eq!(fb.get_color(20, 17), Rgba::yellow());
    render_fps(&mut fb, 10);
    assert_eq!(fb.get_color(20, 17), Rgba::red());
    render_fps(&mut fb, 90);
    assert_eq!(fb.get_color(114, 17), Rgba::green());
    assert_eq!(fb.get_color(115, 17), Rgba::new(0, 0, 0, 200));
}

#[test]
fn minimap_layout() {
    let m = Maze::parse("#####\n#   #\n#   #\n#  g#\n#####\n").unwrap();
    let bg = Rgba::new(1, 1, 1, 255);
    let mut fb = FrameBuffer::new(200, 120, bg);
    let player = Player { pos: Point { x: 15, y: 15 }, a: 0, fov: 600 };
    render_minimap(&mut fb, &m, &player, &table(), 10);
    let dark = Rgba::new(0, 0, 0, 200);
    assert_eq!(fb.get_color(100, 20), Rgba::white());
    assert_eq!(fb.get_color(179, 50), Rgba::white());
    assert_eq!(fb.get_color(112, 32), Rgba::white());
    assert_eq!(fb.get_color(121, 32), dark);
    assert_eq!(fb.get_color(147, 67), Rgba::new(128, 128, 128, 255));
    assert_eq!(fb.get_color(126, 46), Rgba::yellow());
    assert_eq!(fb.get_color(128, 48), Rgba::red());
    assert_eq!(fb.get_color(140, 48), Rgba::red());
    assert_eq!(fb.get_color(90, 50), bg);
}
