use rustgames::pacman::TileMap;
use rustgames::pacman_ai::{player_turns, target_in_range, turn_in_range, GhostMode, GhostType};
use rustgames::scene_objects::SceneObjects;
use rustgames::blaster::{BulletPool, MAX_BULLETS};
use rustgames::dungeon::generate_dungeon;
use rustgames::earthdef::{flash_bomb, record_kills, EarthDefScene, EarthDefTally, EnemyKind, FLASH_SOUND};
use rustgames::maze::Maze;

#[test]
fn flash_bomb_clears_every_enemy_and_scores_by_kind() {
    let mut enemies = vec![
        Some(EnemyKind::Basic),
        None,
        Some(EnemyKind::Armored),
        Some(EnemyKind::Speed),
        Some(EnemyKind::Splitter),
    ];
    let r = flash_bomb(EarthDefScene::Playing, 3, &mut enemies, 5);
    assert!(r == Some((2, 5 + 10 + 50 + 20 + 30, FLASH_SOUND)));
    assert_eq!(FLASH_SOUND, 4);
    assert!(enemies.iter().all(|e| e.is_none()));
    assert_eq!(enemies.len(), 5);
}

#[test]
fn flash_bomb_needs_play_and_a_charge() {
    let mut enemies = vec![Some(EnemyKind::Basic)];
    assert!(flash_bomb(EarthDefScene::Title, 3, &mut enemies, 0).is_none());
    assert!(flash_bomb(EarthDefScene::GameOver, 3, &mut enemies, 0).is_none());
    assert!(flash_bomb(EarthDefScene::Playing, 0, &mut enemies, 0).is_none());
    assert!(enemies[0] == Some(EnemyKind::Basic));
    let mut none: Vec<Option<EnemyKind>> = Vec::new();
    assert!(flash_bomb(EarthDefScene::Playing, 1, &mut none, 7) == Some((0, 7, 4)));
}

#[test]
fn bullet_pool_takes_the_first_free_slot() {
    let mut pool = BulletPool::new();
    assert_eq!(pool.active.len(), MAX_BULLETS);
    assert_eq!(pool.spawn(), Some(0));
    assert_eq!(pool.spawn(), Some(1));
    assert_eq!(pool.spawn(), Some(2));
    pool.free(1);
    assert_eq!(pool.spawn(), Some(1));
    assert_eq!(pool.spawn(), Some(3));
}

#[test]
fn bullet_pool_holds_256_at_once() {
    let mut pool = BulletPool::new();
    for i in 0..MAX_BULLETS {
        assert_eq!(pool.active_count(), i);
        assert_eq!(pool.spawn(), Some(i));
    }
    assert_eq!(pool.active_count(), 256);
    assert_eq!(pool.spawn(), None);
    assert!(pool.active.iter().all(|a| *a));
    pool.free(200);
    assert_eq!(pool.spawn(), Some(200));
}

#[test]
fn maze_seed_pairs_agree() {
    for k in 0..20u64 {
        assert_eq!(Maze::new(2 * k).cells, Maze::new(2 * k + 1).cells);
    }
    assert_ne!(Maze::new(2).cells, Maze::new(4).cells);
}

#[test]
fn dungeon_is_a_function_of_its_seed() {
    let a = generate_dungeon(120, 80, 7);
    let b = generate_dungeon(120, 80, 7);
    assert_eq!(a.1.len(), b.1.len());
    for (r, s) in a.1.iter().zip(b.1.iter()) {
        assert_eq!((r.x, r.y, r.width, r.height), (s.x, s.y, s.width, s.height));
    }
    let c = generate_dungeon(120, 80, 8);
    let same = a.1.len() == c.1.len()
        && a.1.iter().zip(c.1.iter()).all(|(r, s)| (r.x, r.y, r.width, r.height) == (s.x, s.y, s.width, s.height));
    assert!(!same);
}

#[test]
fn kills_score_by_kind_and_fill_waves() {
    let killed = vec![EnemyKind::Basic, EnemyKind::Splitter, EnemyKind::Armored];
    assert_eq!(record_kills(100, 5, 1, &killed), (190, 8, 1, false));
    assert_eq!(record_kills(0, 17, 2, &killed), (90, 0, 3, true));
    assert_eq!(record_kills(7, 19, 4, &Vec::new()), (7, 19, 4, false));
    assert_eq!(record_kills(0, 19, 4, &vec![EnemyKind::Speed]), (20, 0, 5, true));
}

#[test]
fn a_new_game_has_three_flash_bombs() {
    let mut t = EarthDefTally::start();
    assert_eq!((t.flash_charges, t.score, t.wave, t.kills_in_wave, t.earth_hp), (3, 0, 1, 0, 100));
    let mut fired = 0;
    for _ in 0..5 {
        let mut enemies = vec![Some(EnemyKind::Speed)];
        if let Some((c, s, _)) = flash_bomb(t.scene, t.flash_charges, &mut enemies, t.score) {
            t.flash_charges = c;
            t.score = s;
            fired += 1;
        }
    }
    assert_eq!(fired, 3);
    assert_eq!(t.score, 60);
    t.recharge();
    assert_eq!(t.flash_charges, 1);
    t.recharge();
    t.recharge();
    t.recharge();
    assert_eq!(t.flash_charges, 3);
}

#[test]
fn scene_objects_get_fresh_ids() {
    let mut s = SceneObjects::new();
    assert_eq!(s.next_id, 1);
    assert_eq!(s.objects.get(&0).map(|n| n.as_str()), Some("Main Camera"));
    assert_eq!(s.create_object("a".to_string()), 1);
    assert_eq!(s.add_object(10, "b".to_string()), 10);
    assert_eq!(s.next_id, 11);
    assert_eq!(s.add_object(5, "c".to_string()), 5);
    assert_eq!(s.next_id, 11);
    assert_eq!(s.create_object("d".to_string()), 11);
    assert_eq!(s.remove_object(5), Some("c".to_string()));
    assert_eq!(s.remove_object(5), None);
    assert!(s.has_object(10));
    assert!(!s.has_object(5));
}

#[test]
fn hero_turns_on_entering_a_cell() {
    let m = TileMap::new();
    // Row 1, column 1 is a pellet corner: walls above and to the left.
    assert!(player_turns(&m, 1, 3, 1, 1));
    assert!(!player_turns(&m, 1, 0, 1, 1));
    assert!(player_turns(&m, 3, 2, 1, 1));
    assert!(player_turns(&m, 1, 1, 1, 1));
}

#[test]
fn ghost_arithmetic_ranges() {
    assert!(target_in_range(GhostType::Pinky, GhostMode::Chase, 1, 1, 10, 10, 5, 5, 0, 1, 1));
    assert!(!target_in_range(GhostType::Pinky, GhostMode::Chase, 1, 1, 10, 10, i32::MIN + 2, 5, 0, 1, 1));
    assert!(target_in_range(GhostType::Pinky, GhostMode::Scatter, 1, 1, 10, 10, i32::MIN + 2, 5, 0, 1, 1));
    assert!(!target_in_range(GhostType::Blinky, GhostMode::Frightened, 1, 1, i32::MAX, 0, 0, 0, 0, 0, 0));
    let m = TileMap::new();
    assert!(turn_in_range(&m, 1, GhostMode::Chase, false, 11, 13, 26, 13));
    assert!(!turn_in_range(&m, 1, GhostMode::Chase, false, 11, 13, i32::MIN, 13));
}

#[test]
fn chaser_takes_the_first_side_of_a_shortest_way() {
    use_open_maze();
}

fn use_open_maze() {
    let open = Maze { cells: [0u8; 81] };
    // From (0, 0) to (1, 1) both south and east start a shortest way;
    // south comes first.
    assert_eq!(rustgames::chase::bfs_next(&open, 0, 0, 1, 1), Some((0, 1)));
    // From (4, 4) to (3, 3): north before west.
    assert_eq!(rustgames::chase::bfs_next(&open, 4, 4, 3, 3), Some((4, 3)));
    // From (4, 4) to (5, 3): north before east.
    assert_eq!(rustgames::chase::bfs_next(&open, 4, 4, 5, 3), Some((4, 3)));
    // From (4, 4) to (5, 5): south before east.
    assert_eq!(rustgames::chase::bfs_next(&open, 4, 4, 5, 5), Some((4, 5)));
}
