use raycaster::caster::{cast_ray, march};
use raycaster::color::{cell_to_color, Rgba};
use raycaster::face::{resolve_face, Face};
use raycaster::framebuffer::FrameBuffer;
use raycaster::geometry::{floor_div, normalize_angle, AngleTable, Direction, Point, DIR_SCALE, FULL_TURN};
use raycaster::maze::{Maze, MazeError};
use raycaster::player::{position_free, process_events, resolve_move, Input, Player};
use raycaster::projection::{project_column, shade, texture_row};

const GRID: [&str; 5] = ["#####", "#   #", "#   #", "#  g#", "#####"];

fn grid() -> Maze {
    let rows: Vec<Vec<char>> = GRID.iter().map(|r| r.chars().collect()).collect();
    Maze::from_rows(rows).unwrap()
}

fn east() -> Direction {
    Direction::new(DIR_SCALE, 0).unwrap()
}

fn table() -> AngleTable {
    let scale = (DIR_SCALE + 1) as f64;
    let dirs: Vec<Direction> = (0..FULL_TURN)
        .map(|i| {
            let a = (i as f64) * std::f64::consts::PI * 2.0 / (FULL_TURN as f64);
            Direction::new((a.cos() * scale).round() as i64, (a.sin() * scale).round() as i64).unwrap()
        })
        .collect();
    AngleTable::from_directions(dirs).unwrap()
}

#[test]
fn march_east_from_cell_centre_hits_east_wall() {
    let m = grid();
    let r = march(&m, Point { x: 15, y: 15 }, east(), 10, 1);
    assert_eq!(r.distance, 25);
    assert_eq!(r.symbol, Some('#'));
    assert_eq!(r.point, Point { x: 40, y: 15 });
}

#[test]
fn march_with_coarse_step_lands_within_a_step_of_the_wall() {
    let m = grid();
    let r = march(&m, Point { x: 15, y: 15 }, east(), 10, 10);
    assert_eq!(r.distance, 30);
    assert_eq!(r.symbol, Some('#'));
    assert!((r.distance - 25).abs() < 10);
}

#[test]
fn march_from_inside_a_wall_reports_zero() {
    let m = grid();
    let r = march(&m, Point { x: 5, y: 5 }, east(), 10, 1);
    assert_eq!(r.distance, 0);
    assert_eq!(r.symbol, Some('#'));
}

#[test]
fn march_out_of_an_open_grid_stops_at_the_edge() {
    let rows: Vec<Vec<char>> = vec![vec![' ', ' ', ' ']];
    let m = Maze::from_rows(rows).unwrap();
    let r = march(&m, Point { x: 5, y: 5 }, east(), 10, 1);
    assert_eq!(r.distance, 25);
    assert_eq!(r.symbol, None);
}

#[test]
fn march_distance_stays_within_diagonal_plus_step() {
    let m = grid();
    let t = table();
    for a in (0..FULL_TURN).step_by(37) {
        let r = march(&m, Point { x: 15, y: 15 }, t.direction(a), 10, 3);
        let diag = ((50.0f64 * 50.0) * 2.0).sqrt();
        assert!((r.distance as f64) <= diag + 3.0);
        assert!(r.distance / 3 <= (50 + 50) / 3 + 1);
    }
}

#[test]
fn goal_reached_only_on_goal_cell() {
    let m = grid();
    let on_goal = Player { pos: Point { x: 35, y: 35 }, a: 0, fov: 600 };
    let elsewhere = Player { pos: Point { x: 15, y: 15 }, a: 0, fov: 600 };
    let outside = Player { pos: Point { x: -5, y: 15 }, a: 0, fov: 600 };
    assert!(on_goal.has_reached_goal(&m, 10));
    assert!(!elsewhere.has_reached_goal(&m, 10));
    assert!(!outside.has_reached_goal(&m, 10));
}

#[test]
fn move_into_west_corner_is_blocked() {
    let m = grid();
    let p = Point { x: 15, y: 15 };
    assert_eq!(resolve_move(&m, p, -5, 0, 10, 3), p);
    let player = Player { pos: p, a: 0, fov: 600 };
    assert!(!player.is_position_free(&m, Point { x: 10, y: 15 }, 10));
    assert!(player.is_position_free(&m, p, 10));
}

#[test]
fn zero_move_keeps_position() {
    let m = grid();
    for p in [Point { x: 15, y: 15 }, Point { x: 5, y: 5 }, Point { x: 35, y: 35 }] {
        assert_eq!(resolve_move(&m, p, 0, 0, 10, 3), p);
    }
}

#[test]
fn diagonal_move_slides_along_north_wall() {
    let m = grid();
    let p = Point { x: 15, y: 15 };
    assert!(!position_free(&m, Point { x: 20, y: 10 }, 10, 3));
    assert!(!position_free(&m, Point { x: 15, y: 10 }, 10, 3));
    assert_eq!(resolve_move(&m, p, 5, -5, 10, 3), Point { x: 20, y: 15 });
}

#[test]
fn diagonal_move_slides_along_west_wall() {
    let m = grid();
    let p = Point { x: 15, y: 15 };
    assert_eq!(resolve_move(&m, p, -5, 5, 10, 3), Point { x: 15, y: 20 });
}

#[test]
fn open_move_is_taken_whole() {
    let m = grid();
    assert_eq!(resolve_move(&m, Point { x: 15, y: 15 }, 5, 5, 10, 3), Point { x: 20, y: 20 });
}

#[test]
fn process_events_turns_and_moves_forward() {
    let m = grid();
    let t = table();
    let mut p = Player { pos: Point { x: 15, y: 15 }, a: 0, fov: 600 };
    let input = Input { turn: 0, left: false, right: false, forward: true, backward: false };
    process_events(&mut p, &input, &m, 10, &t);
    assert_eq!(p.pos, Point { x: 25, y: 15 });
    assert_eq!(p.a, 0);
    let input = Input { turn: -10, left: false, right: true, forward: false, backward: false };
    process_events(&mut p, &input, &m, 10, &t);
    assert_eq!(p.a, 3600 - 190);
    assert_eq!(p.pos, Point { x: 25, y: 15 });
    assert_eq!(p.fov, 600);
}

#[test]
fn process_events_blocked_forward_keeps_position() {
    let m = grid();
    let t = table();
    let mut p = Player { pos: Point { x: 15, y: 15 }, a: 1800, fov: 600 };
    let input = Input { turn: 0, left: false, right: false, forward: true, backward: false };
    process_events(&mut p, &input, &m, 10, &t);
    assert_eq!(p.pos, Point { x: 15, y: 15 });
}

#[test]
fn face_of_west_side_hit() {
    let r = resolve_face(Point { x: 40, y: 15 }, 10, 128);
    assert_eq!(r.face, Face::West);
    assert_eq!(r.u, 64);
}

#[test]
fn faces_from_centre_offsets() {
    assert_eq!(resolve_face(Point { x: 19, y: 12 }, 10, 128).face, Face::East);
    assert_eq!(resolve_face(Point { x: 14, y: 19 }, 10, 128).face, Face::South);
    assert_eq!(resolve_face(Point { x: 14, y: 10 }, 10, 128).face, Face::North);
    assert_eq!(resolve_face(Point { x: 14, y: 10 }, 10, 128).u, 51);
    assert_eq!(resolve_face(Point { x: -1, y: 3 }, 10, 128).face, Face::East);
}

#[test]
fn face_is_the_same_for_the_same_point() {
    let p = Point { x: 23, y: 38 };
    assert_eq!(resolve_face(p, 10, 64), resolve_face(p, 10, 64));
}

#[test]
fn projection_values() {
    let near = project_column(100, 900, 70);
    assert_eq!((near.stake_height, near.top, near.bottom), (315, 292, 607));
    let far = project_column(200, 900, 70);
    assert_eq!((far.stake_height, far.top, far.bottom), (157, 371, 528));
    let zero = project_column(0, 900, 70);
    assert_eq!((zero.stake_height, zero.top, zero.bottom), (31500, 0, 899));
}

#[test]
fn projection_is_monotone_in_distance() {
    let mut prev = project_column(0, 600, 70);
    for d in 1..400 {
        let c = project_column(d, 600, 70);
        assert!(c.stake_height <= prev.stake_height);
        assert!(c.top >= prev.top);
        assert!(c.bottom <= prev.bottom);
        prev = c;
    }
}

#[test]
fn texture_row_values() {
    assert_eq!(texture_row(300, 292, 607, 128), 3);
    assert_eq!(texture_row(292, 292, 292, 128), 0);
    assert_eq!(texture_row(606, 292, 607, 128), 127);
}

#[test]
fn shading_values() {
    let c = Rgba::new(200, 100, 50, 77);
    assert_eq!(shade(c, 0, 800, Face::North), c);
    assert_eq!(shade(c, 400, 800, Face::West), Rgba::new(91, 45, 22, 77));
    assert_eq!(shade(c, 5000, 800, Face::South), Rgba::new(48, 24, 12, 77));
    assert_eq!(shade(c, 0, 800, Face::East), Rgba::new(180, 90, 45, 77));
}

#[test]
fn floor_division_and_angles() {
    assert_eq!(floor_div(-1, 4), -1);
    assert_eq!(floor_div(-4, 4), -1);
    assert_eq!(floor_div(-5, 4), -2);
    assert_eq!(floor_div(7, 4), 1);
    assert_eq!(normalize_angle(-1), 3599);
    assert_eq!(normalize_angle(7200 + 5), 5);
}

#[test]
fn direction_length_is_checked() {
    assert!(Direction::new(DIR_SCALE, 0).is_some());
    assert!(Direction::new(100, 0).is_none());
    assert!(Direction::new(3 * DIR_SCALE, 0).is_none());
    assert!(AngleTable::from_directions(vec![east()]).is_none());
}

#[test]
fn maze_cells_and_bounds() {
    let m = grid();
    assert_eq!(m.dimensions(), (5, 5));
    assert_eq!(m.cell_at(3, 3), Ok('g'));
    assert_eq!(m.cell_at(1, 1), Ok(' '));
    assert_eq!(m.cell_at(5, 0), Err(MazeError::OutOfBounds));
    assert_eq!(m.cell_at(0, 5), Err(MazeError::OutOfBounds));
}

#[test]
fn ragged_rows_are_malformed() {
    let rows: Vec<Vec<char>> = vec![vec!['#', '#'], vec!['#']];
    assert_eq!(Maze::from_rows(rows).err(), Some(MazeError::Malformed));
}

#[test]
fn parse_lines() {
    let m = Maze::parse("###\r\n# #\n###\n").unwrap();
    assert_eq!(m.dimensions(), (3, 3));
    assert_eq!(m.cell_at(1, 1), Ok(' '));
    assert_eq!(m.cell_at(2, 2), Ok('#'));
    let m = Maze::parse("ab\ncd").unwrap();
    assert_eq!(m.cell_at(1, 1), Ok('d'));
    assert_eq!(Maze::parse("").unwrap().dimensions(), (0, 0));
    assert_eq!(Maze::parse("###\n#\n").err(), Some(MazeError::Malformed));
}

#[test]
fn symbol_colors() {
    assert_eq!(cell_to_color('A'), Rgba::new(255, 215, 0, 255));
    assert_eq!(cell_to_color('N'), Rgba::new(255, 140, 0, 255));
    assert_eq!(cell_to_color('g'), Rgba::new(128, 128, 128, 255));
    assert_eq!(cell_to_color('#'), Rgba::new(255, 255, 255, 255));
}

#[test]
fn framebuffer_points_and_clear() {
    let bg = Rgba::new(1, 2, 3, 255);
    let mut fb = FrameBuffer::new(4, 3, bg);
    assert_eq!(fb.pixels().len(), 12);
    assert_eq!(fb.get_color(3, 2), bg);
    fb.point(3, 2, Rgba::red());
    assert_eq!(fb.get_color(3, 2), Rgba::red());
    assert_eq!(fb.pixels()[11], Rgba::red());
    fb.point(4, 0, Rgba::red());
    assert_eq!(fb.get_color(4, 0), Rgba::black());
    fb.set_current_color(Rgba::green());
    fb.set_pixel(0, 1);
    assert_eq!(fb.get_color(0, 1), Rgba::green());
    fb.set_background_color(Rgba::yellow());
    fb.clear();
    assert!(fb.pixels().iter().all(|c| *c == Rgba::yellow()));
}

#[test]
fn cast_ray_draws_the_free_points() {
    let m = grid();
    let mut fb = FrameBuffer::new(50, 50, Rgba::black());
    fb.set_current_color(Rgba::red());
    let r = cast_ray(&mut fb, &m, Point { x: 15, y: 15 }, east(), 10, 1, true);
    assert_eq!(r.distance, 25);
    assert_eq!(fb.get_color(15, 15), Rgba::red());
    assert_eq!(fb.get_color(39, 15), Rgba::red());
    assert_eq!(fb.get_color(40, 15), Rgba::black());
    assert_eq!(fb.get_color(20, 16), Rgba::black());
    let mut quiet = FrameBuffer::new(50, 50, Rgba::black());
    cast_ray(&mut quiet, &m, Point { x: 15, y: 15 }, east(), 10, 1, false);
    assert_eq!(quiet.get_color(20, 15), Rgba::black());
}
