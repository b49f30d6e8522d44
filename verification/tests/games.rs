use rustgames::audio::{AudioEvent, AudioState};
use rustgames::blaster::{BossPhase, CameraMode, EnemyKind};
use rustgames::font::{bold_bytes, is_embedded, regular_bytes};
use rustgames::input::{Action, Key, KeyboardState};
use rustgames::math::lcg;
use rustgames::maze::{Maze, E, N, S, W_DIR};
use rustgames::pacman::TileMap;
use rustgames::penpen::WaveType;
use rustgames::puzzle::{PuzzleLogic, PuzzleState};
use rustgames::roguelike::{
    accessory_name, armor_name, calc_map_size, is_ranged_enemy_type, should_spawn_boss,
    spawn_random_enemy_for_floor, weapon_name, weapon_style, AccessoryType, ArmorType,
    EnemyVariant, Equipment, LcgRng, RogueScene, WeaponStyle, WeaponType,
};
use rustgames::storage::{
    format_u32, increment_play_count, load_best_score, load_play_count, load_u32, parse_u32,
    save_best_score,
};

#[test]
fn puzzle_new_level_has_four_cubes() {
    let p = PuzzleLogic::new();
    assert_eq!(p.cubes.len(), 4);
    assert_eq!(p.goal_positions.len(), 4);
    assert_eq!(p.next_id, 5);
    assert_eq!(p.move_count, 0);
    assert!(p.state == PuzzleState::Playing);
    assert_eq!(p.get_cube_at((0, 0, 0)), Some(1));
    assert_eq!(p.get_cube_at((1, 1, 0)), Some(4));
    assert_eq!(p.get_cube_at((3, 3, 3)), None);
}

#[test]
fn puzzle_moves_and_collisions() {
    let mut p = PuzzleLogic::new();
    assert!(!p.move_cube(1, (1, 0, 0)));
    assert_eq!(p.move_count, 0);
    assert!(!p.move_cube(1, (0, 0, -1)));
    assert!(!p.move_cube(99, (0, 0, 1)));
    assert!(p.move_cube(1, (0, 0, 1)));
    assert_eq!(p.move_count, 1);
    assert_eq!(p.get_cube_at((0, 0, 1)), Some(1));
    assert_eq!(p.get_cube_at((0, 0, 0)), None);
    assert!(!p.move_cube(2, (-7, 0, 0)));
    assert!(p.move_cube(2, (-6, 0, 0)));
    assert_eq!(p.get_cube_at((-5, 0, 0)), Some(2));
}

#[test]
fn puzzle_win_when_all_cubes_on_goals() {
    let mut p = PuzzleLogic::new();
    for id in 1..=4u32 {
        assert!(p.move_cube(id, (0, 0, 2)));
    }
    assert!(p.is_won());
    assert_eq!(p.move_count, 4);
    p.reset();
    assert!(!p.is_won());
    assert_eq!(p.move_count, 0);
    assert_eq!(p.get_cube_at((0, 0, 0)), Some(1));
}

#[test]
fn puzzle_pause_and_resume() {
    let mut p = PuzzleLogic::new();
    p.pause();
    assert!(p.state == PuzzleState::Paused);
    p.pause();
    assert!(p.state == PuzzleState::Paused);
    p.resume();
    assert!(p.state == PuzzleState::Playing);
    p.state = PuzzleState::Won;
    p.pause();
    assert!(p.state == PuzzleState::Won);
    let d = PuzzleLogic::default();
    assert_eq!(d.cubes.len(), 4);
}

#[test]
fn lcg_known_values() {
    let mut s: u64 = 1;
    assert_eq!(lcg(&mut s), 908834774);
    assert_eq!(s, 7806831264735756412);
    assert_eq!(lcg(&mut s), 1093944153);
    assert_eq!(s, 9396908728118811419);
}

fn check_maze(m: &Maze) {
    for z in 0..9usize {
        for x in 0..9usize {
            let c = m.cells[z * 9 + x];
            assert!(c < 16);
            if z == 0 {
                assert!(m.wall(x, z, N));
            }
            if z == 8 {
                assert!(m.wall(x, z, S));
            }
            if x == 0 {
                assert!(m.wall(x, z, W_DIR));
            }
            if x == 8 {
                assert!(m.wall(x, z, E));
            }
            if x < 8 {
                assert_eq!(m.wall(x, z, E), m.wall(x + 1, z, W_DIR));
            }
            if z < 8 {
                assert_eq!(m.wall(x, z, S), m.wall(x, z + 1, N));
            }
        }
    }
    let mut seen = [false; 81];
    let mut stack = vec![(0usize, 0usize)];
    seen[0] = true;
    while let Some((x, z)) = stack.pop() {
        for d in [N, S, E, W_DIR] {
            if let Some((nx, nz)) = m.can_move(x, z, d) {
                if !seen[nz * 9 + nx] {
                    seen[nz * 9 + nx] = true;
                    stack.push((nx, nz));
                }
            }
        }
    }
    assert!(seen.iter().all(|v| *v));
}

#[test]
fn maze_is_well_formed_for_several_seeds() {
    for seed in [0u64, 1, 2, 42, 12345, u64::MAX] {
        let m = Maze::new(seed);
        check_maze(&m);
    }
}

#[test]
fn maze_same_seed_same_maze() {
    let a = Maze::new(777);
    let b = Maze::new(777);
    assert_eq!(a.cells, b.cells);
}

#[test]
fn maze_can_move_is_reversible() {
    let m = Maze::new(9);
    for z in 0..9usize {
        for x in 0..9usize {
            for (d, back) in [(N, S), (S, N), (E, W_DIR), (W_DIR, E)] {
                if let Some((nx, nz)) = m.can_move(x, z, d) {
                    assert_eq!(m.can_move(nx, nz, back), Some((x, z)));
                }
            }
        }
    }
    assert_eq!(m.can_move(0, 0, N), None);
}

#[test]
fn pacman_map_counts_and_eats() {
    let mut m = TileMap::new();
    assert_eq!(m.total_dots, 250);
    assert_eq!(m.remaining_dots(), 250);
    assert!(m.is_wall(0, 0));
    assert!(m.is_wall(-1, 5));
    assert!(m.is_wall(5, 28));
    assert!(!m.is_wall(1, 1));
    assert!(m.is_power(1, 1));
    assert!(m.is_dot(1, 2));
    assert!(!m.is_dot(0, 0));
    assert_eq!(m.eat_dot(1, 2), 10);
    assert_eq!(m.eat_dot(1, 2), 0);
    assert_eq!(m.eat_dot(1, 1), 50);
    assert_eq!(m.eat_dot(-3, 1), 0);
    assert_eq!(m.remaining_dots(), 248);
    assert_eq!(m.total_dots, 250);
}

#[test]
fn pacman_tunnel_wraps() {
    let m = TileMap::new();
    assert!(m.is_passable(13, 0));
    assert!(m.is_passable(13, -1));
    assert!(m.is_passable(13, 28));
    assert!(!m.is_passable(0, 5));
    assert!(!m.is_passable(31, 5));
    assert!(!m.is_passable(-1, 5));
    assert!(!m.is_passable(13, 9));
    assert!(!m.is_passable(13, 9 - 28));
}

#[test]
fn audio_event_consumed_once() {
    let mut a = AudioState::new();
    assert!(a.consume() == AudioEvent::NoEvent);
    a.trigger(AudioEvent::Step);
    assert!(a.step_parity);
    assert!(a.consume() == AudioEvent::Step);
    assert!(a.consume() == AudioEvent::NoEvent);
    a.trigger(AudioEvent::Step);
    assert!(!a.step_parity);
    a.trigger(AudioEvent::WallHit);
    assert!(!a.step_parity);
    assert_eq!(a.consume().code(), 2);
}

#[test]
fn camera_modes_cycle() {
    let m = CameraMode::Tps;
    assert!(m.next() == CameraMode::Top);
    assert!(m.next().next() == CameraMode::Fps);
    assert!(m.next().next().next() == CameraMode::Tps);
    assert_eq!(CameraMode::Fps.as_u8(), 2);
    assert_eq!(CameraMode::Top.name(), "TOP");
    assert_eq!(CameraMode::Tps.name(), "TPS");
}

#[test]
fn boss_phase_thresholds() {
    assert!(BossPhase::from_hp(60) == BossPhase::Phase1);
    assert!(BossPhase::from_hp(41) == BossPhase::Phase1);
    assert!(BossPhase::from_hp(40) == BossPhase::Phase2);
    assert!(BossPhase::from_hp(21) == BossPhase::Phase2);
    assert!(BossPhase::from_hp(20) == BossPhase::Phase3);
    assert!(BossPhase::from_hp(1) == BossPhase::Phase3);
    assert!(BossPhase::from_hp(0) == BossPhase::Dead);
    assert!(BossPhase::from_hp(-5) == BossPhase::Dead);
    assert_eq!(EnemyKind::Basic.spawn_hp(), 2);
    assert_eq!(EnemyKind::Shooter.spawn_hp(), 4);
}

#[test]
fn action_numbers() {
    assert!(Action::from_i32(0) == Some(Action::Forward));
    assert!(Action::from_i32(1) == Some(Action::TurnLeft));
    assert!(Action::from_i32(2) == Some(Action::TurnRight));
    assert!(Action::from_i32(3) == Some(Action::Backward));
    assert!(Action::from_i32(4).is_none());
    assert!(Action::from_i32(-1).is_none());
}

#[test]
fn keyboard_state_keys() {
    let mut k = KeyboardState::default();
    k.set_key(Key::W, true);
    k.set_key(Key::Space, true);
    assert!(k.w && k.space && !k.a);
    k.set_key(Key::W, false);
    assert!(!k.w && k.space);
}

#[test]
fn fonts_not_embedded() {
    assert!(regular_bytes().is_empty());
    assert!(bold_bytes().is_empty());
    assert!(!is_embedded());
}

#[test]
fn wave_names() {
    assert_eq!(WaveType::Sine.as_str(), "sine");
    assert_eq!(WaveType::Square.as_str(), "square");
    assert_eq!(WaveType::Sawtooth.as_str(), "sawtooth");
    assert_eq!(WaveType::Triangle.as_str(), "triangle");
}

#[test]
fn equipment_bonuses() {
    let mut e = Equipment::new();
    assert_eq!(e.get_atk_bonus(), 3);
    assert_eq!(e.get_def_bonus(), 0);
    assert_eq!(e.get_max_hp_bonus(), 0);
    e.weapon = Some(WeaponType::CursedBlade);
    e.armor = Some(ArmorType::DragonScale);
    e.accessory = Some(AccessoryType::HealingNecklace);
    assert_eq!(e.get_atk_bonus(), 12);
    assert_eq!(e.get_def_bonus(), 8);
    assert_eq!(e.get_max_hp_bonus(), 10);
    assert_eq!(e.get_max_mp_bonus(), 0);
    e.accessory = Some(AccessoryType::ManaEarrings);
    assert_eq!(e.get_max_mp_bonus(), 15);
    e.weapon = None;
    assert_eq!(e.get_atk_bonus(), 0);
}

#[test]
fn roguelike_rules() {
    assert_eq!(calc_map_size(0), (120, 80));
    assert_eq!(calc_map_size(1), (120, 80));
    assert_eq!(calc_map_size(3), (128, 84));
    assert!(should_spawn_boss(10));
    assert!(!should_spawn_boss(11));
    assert!(is_ranged_enemy_type(3));
    assert!(!is_ranged_enemy_type(4));
    assert_eq!(weapon_name(WeaponType::IronSword), "Iron Sword");
    assert_eq!(armor_name(ArmorType::ChainMail), "Chain Mail");
    assert_eq!(accessory_name(AccessoryType::LuckyRing), "Lucky Ring");
    assert!(weapon_style(WeaponType::CursedBlade) == WeaponStyle::Spear);
    assert_eq!(RogueScene::GameOver.as_u8(), 2);
}

#[test]
fn roguelike_rng_and_spawns() {
    let mut r = LcgRng::new(12345);
    assert_eq!(r.next(), 21468);
    assert_eq!(r.state, 3554416254);
    assert_eq!(r.next(), 9988);
    let mut r = LcgRng::new(12345);
    let pick = spawn_random_enemy_for_floor(1, &mut r);
    // Floor 1 holds kinds 0, 1 and 3; draw 21468 picks 21468 % 3 = 0; roll 9988 % 100 = 88.
    assert!(pick == Some((0, EnemyVariant::Normal)));
    let mut r = LcgRng::new(5);
    assert!(spawn_random_enemy_for_floor(99, &mut r).is_none());
    assert_eq!(r.state, 5);
}

#[test]
fn storage_parsing_and_formatting() {
    assert_eq!(parse_u32("123"), Some(123));
    assert_eq!(parse_u32("+7"), Some(7));
    assert_eq!(parse_u32("4294967295"), Some(u32::MAX));
    assert_eq!(parse_u32("4294967296"), None);
    assert_eq!(parse_u32(""), None);
    assert_eq!(parse_u32("+"), None);
    assert_eq!(parse_u32("-1"), None);
    assert_eq!(parse_u32("12a"), None);
    assert_eq!(load_u32(None, 9), 9);
    assert_eq!(load_u32(Some("x"), 9), 9);
    assert_eq!(load_best_score(Some("40"), None), (40, 0));
    assert_eq!(load_play_count(Some("3")), 3);
    assert_eq!(increment_play_count(Some("3")), 4);
    assert_eq!(increment_play_count(None), 1);
    assert_eq!(format_u32(0), b"0".to_vec());
    assert_eq!(format_u32(4096), b"4096".to_vec());
    let (a, b) = save_best_score(321, 7);
    assert_eq!(a, b"321".to_vec());
    assert_eq!(b, b"7".to_vec());
    for n in [0u32, 9, 10, 99, 100, 65535, u32::MAX] {
        let text = String::from_utf8(format_u32(n)).unwrap();
        assert_eq!(parse_u32(&text), Some(n));
    }
}
