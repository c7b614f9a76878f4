use raycaster::color::Rgba;
use raycaster::framebuffer::FrameBuffer;
use raycaster::game::{GameEvent, GameState, ViewMode};
use raycaster::geometry::{AngleTable, Direction, Point, DIR_SCALE, FULL_TURN};
use raycaster::maze::Maze;
use raycaster::player::Player;
use raycaster::render::{draw_cell, draw_column, render_maze, render_world, ViewSettings};
use raycaster::texture::{Texture, TextureSet};
use raycaster::caster::Intersect;

fn grid() -> Maze {
    Maze::parse("#####\n#   #\n#   #\n#  g#\n#####\n").unwrap()
}

fn table() -> AngleTable {
    let scale = (DIR_SCALE + 1) as f64;
    let dirs: Vec<Direction> = (0..FULL_TURN)
        .map(|i| {
            let a = (i as f64) * std::f64::consts::PI * 2.0 / (FULL_TURN as f64);
            Direction::new((a.cos() * scale).round() as i64, (a.sin() * scale).round() as i64).unwrap()
        })
        .collect();
    AngleTable::from_directions(dirs).unwrap()
}

fn settings() -> ViewSettings {
    ViewSettings { block: 10, step: 1, plane: 70, far: 800 }
}

#[test]
fn world_column_is_shaded_flat_colour_without_texture() {
    let m = grid();
    let t = table();
    let bg = Rgba::new(9, 9, 9, 255);
    let mut fb = FrameBuffer::new(4, 10, bg);
    let player = Player { pos: Point { x: 15, y: 15 }, a: 0, fov: 0 };
    let textures = TextureSet::new(vec![]).unwrap();
    let hits = render_world(&mut fb, &m, &player, &t, &textures, &settings());
    assert_eq!(hits.len(), 4);
    assert!(hits.iter().all(|h| h.distance == 25 && h.symbol == Some('#')));
    assert_eq!(fb.get_color(0, 5), Rgba::new(174, 174, 174, 255));
    assert_eq!(fb.get_color(3, 0), Rgba::new(174, 174, 174, 255));
    assert_eq!(fb.get_color(0, 9), bg);
}

#[test]
fn world_column_samples_texture() {
    let red = Rgba::new(200, 0, 0, 255);
    let blue = Rgba::new(0, 0, 200, 255);
    let mut texels = vec![red; 4];
    texels[1 * 2 + 1] = blue;
    let textures = TextureSet::new(vec![Texture::new('#', 2, texels).unwrap()]).unwrap();
    let mut fb = FrameBuffer::new(1, 10, Rgba::black());
    let hit = Intersect { distance: 25, point: Point { x: 40, y: 15 }, symbol: Some('#') };
    draw_column(&mut fb, 0, &hit, &textures, &settings());
    // West face, u = 5 * 2 / 10 = 1; rows 0..9 map to texture rows 0 and 1.
    assert_eq!(fb.get_color(0, 0), Rgba::new(136, 0, 0, 255));
    assert_eq!(fb.get_color(0, 8), Rgba::new(0, 0, 136, 255));
    assert_eq!(fb.get_color(0, 9), Rgba::black());
}

#[test]
fn duplicate_texture_symbols_are_refused() {
    let a = Texture::new('#', 1, vec![Rgba::black()]).unwrap();
    let b = Texture::new('#', 1, vec![Rgba::white()]).unwrap();
    assert!(TextureSet::new(vec![a, b]).is_none());
    assert!(Texture::new('#', 2, vec![Rgba::black()]).is_none());
}

#[test]
fn top_down_view_draws_cells_and_rays() {
    let m = grid();
    let t = table();
    let bg = Rgba::new(9, 9, 9, 255);
    let mut fb = FrameBuffer::new(50, 50, bg);
    let player = Player { pos: Point { x: 15, y: 15 }, a: 0, fov: 0 };
    let hits = render_maze(&mut fb, &m, 10, &player, &t, 1);
    assert_eq!(hits.len(), 5);
    assert_eq!(fb.get_color(0, 0), Rgba::white());
    assert_eq!(fb.get_color(35, 35), Rgba::new(128, 128, 128, 255));
    assert_eq!(fb.get_color(22, 38), bg);
    assert_eq!(fb.get_color(20, 15), Rgba::whitesmoke());
    assert_eq!(fb.get_color(45, 15), Rgba::white());
}

#[test]
fn free_cell_draws_nothing() {
    let mut fb = FrameBuffer::new(10, 10, Rgba::black());
    draw_cell(&mut fb, 0, 0, 10, ' ');
    assert_eq!(fb.get_color(5, 5), Rgba::black());
    draw_cell(&mut fb, 0, 0, 5, 'B');
    assert_eq!(fb.get_color(4, 4), Rgba::new(30, 144, 255, 255));
    assert_eq!(fb.get_color(5, 5), Rgba::black());
}

#[test]
fn game_state_transitions() {
    assert_eq!(GameState::Menu.next(GameEvent::LevelChosen(2)), GameState::Playing);
    assert_eq!(GameState::Menu.next(GameEvent::LevelChosen(4)), GameState::Menu);
    assert_eq!(GameState::Playing.next(GameEvent::GoalReached), GameState::Victory);
    assert_eq!(GameState::Playing.next(GameEvent::Confirm), GameState::Playing);
    assert_eq!(GameState::Victory.next(GameEvent::Confirm), GameState::Menu);
    assert_eq!(ViewMode::TopDown.toggled(), ViewMode::FirstPerson);
    assert_eq!(ViewMode::FirstPerson.toggled(), ViewMode::TopDown);
}
