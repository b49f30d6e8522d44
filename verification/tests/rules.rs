use rustgames::blaster::{wave_roster, EnemyKind};
use rustgames::audio::AudioEvent;
use rustgames::chase::{bfs_next, Enemy};
use rustgames::dungeon::generate_dungeon;
use rustgames::lights::{find_light_cells, rank_cells};
use rustgames::maze::{Maze, E, N, S, W_DIR};
use rustgames::maze_game::{GameState, MoveOutcome};
use rustgames::pacman::TileMap;
use rustgames::pacman_ai::{
    choose_direction, frighten, get_target, ghost_home, input_dir, power_end, scatter_switch,
    switch_mode, GamePhase, GhostMode, GhostType, PacmanRules,
};
use rustgames::rogue_rules::{
    attack_interval, hp_after, incoming_damage, ranged_interval, roll_drop, spear_attack_cells,
    strike_damage, sword_attack_cells, wander_step, Drop, FloorPlan, Gear, Progress,
    FloorCache, jump_target, next_floor_target, prev_floor_target, melee_attacks, RogueEnemy,
    strike_at, exp_for, Strike, age_effects, age_numbers, cool_down_enemies, push_attack_effects,
    take_drop, item_index,
};
use rustgames::roguelike::{
    AccessoryType, ArmorType, AttackEffect, DamageNumber, EnemyVariant, Equipment,
    EquipmentInventory, ItemType, Room, TileType,
    WeaponType,
};
use rustgames::scene::Scene;

/// A maze with every inner wall removed: only the border is closed.
fn open_maze() -> Maze {
    let mut cells = [0u8; 81];
    for z in 0..9 {
        for x in 0..9 {
            let mut c = 0u8;
            if z == 0 {
                c |= N;
            }
            if z == 8 {
                c |= S;
            }
            if x == 0 {
                c |= W_DIR;
            }
            if x == 8 {
                c |= E;
            }
            cells[z * 9 + x] = c;
        }
    }
    Maze { cells }
}

#[test]
fn bfs_first_step_follows_search_order() {
    let m = open_maze();
    assert_eq!(bfs_next(&m, 0, 0, 2, 0), Some((1, 0)));
    assert_eq!(bfs_next(&m, 0, 0, 0, 2), Some((0, 1)));
    assert_eq!(bfs_next(&m, 4, 4, 4, 4), None);
}

#[test]
fn bfs_finds_nothing_in_a_closed_maze() {
    let m = Maze { cells: [15u8; 81] };
    assert_eq!(bfs_next(&m, 0, 0, 8, 8), None);
    assert_eq!(bfs_next(&m, 3, 3, 3, 4), None);
}

#[test]
fn chaser_always_finds_a_way_in_generated_mazes() {
    for seed in [1u64, 2, 3, 42, 1234, 99999] {
        let m = Maze::new(seed);
        for (sx, sz, tx, tz) in [(8, 0, 0, 0), (0, 0, 8, 8), (4, 4, 0, 8), (8, 8, 8, 0)] {
            let step = bfs_next(&m, sx, sz, tx, tz).expect("a way exists");
            let through = [N, S, E, W_DIR]
                .iter()
                .any(|&d| m.can_move(sx, sz, d) == Some(step));
            assert!(through);
        }
    }
}

#[test]
fn chaser_steps_and_catches() {
    let m = open_maze();
    let mut e = Enemy::new();
    assert_eq!((e.ex, e.ez), (8, 0));
    assert_eq!(e.distance_to(6, 0), 2);
    e.chase_step(&m, 6, 0);
    assert_eq!((e.ex, e.ez), (7, 0));
    assert!(!e.caught);
    e.chase_step(&m, 6, 0);
    assert_eq!((e.ex, e.ez), (6, 0));
    assert!(e.caught);
    e.chase_step(&m, 0, 0);
    assert_eq!((e.ex, e.ez), (6, 0));
    assert_eq!(e.distance_to(0, 3), 9);
}

fn playing_game() -> GameState {
    let mut g = GameState::new(5);
    g.maze = open_maze();
    g.scene.transition_to(Scene::Playing);
    g
}

#[test]
fn maze_game_ignores_actions_on_title() {
    let mut g = GameState::new(5);
    assert!(g.scene.current == Scene::Title);
    assert_eq!(g.act(0), MoveOutcome::Ignored);
    assert_eq!((g.px, g.pz, g.facing), (0, 0, S));
}

#[test]
fn maze_game_turns_and_steps() {
    let mut g = playing_game();
    assert_eq!(g.act(1), MoveOutcome::Turned);
    assert_eq!(g.facing, E);
    assert_eq!(g.act(2), MoveOutcome::Turned);
    assert_eq!(g.facing, S);
    assert_eq!(g.act(0), MoveOutcome::Stepped);
    assert_eq!((g.px, g.pz, g.steps), (0, 1, 1));
    assert_eq!(g.audio.event, AudioEvent::Step);
    assert_eq!(g.act(3), MoveOutcome::Stepped);
    assert_eq!((g.px, g.pz, g.steps), (0, 0, 2));
    assert_eq!(g.act(3), MoveOutcome::HitWall(N));
    assert_eq!(g.audio.event, AudioEvent::WallHit);
    assert_eq!(g.act(7), MoveOutcome::Ignored);
}

#[test]
fn maze_game_goal_clears_level() {
    let mut g = playing_game();
    g.px = 8;
    g.pz = 6;
    g.steps = 20;
    g.total_steps = 5;
    assert_eq!(g.act(0), MoveOutcome::Stepped);
    assert_eq!(g.audio.event, AudioEvent::GoalNear);
    assert_eq!(g.act(0), MoveOutcome::ReachedGoal);
    assert!(g.level_clear);
    assert_eq!(g.total_steps, 5 + 22);
    assert!(g.scene.current == Scene::LevelClear);
    assert_eq!(g.audio.event, AudioEvent::LevelClear);
    assert_eq!(g.act(1), MoveOutcome::Ignored);
    g.next_level(77);
    assert_eq!(g.level, 2);
    assert_eq!((g.px, g.pz, g.steps, g.total_steps), (0, 0, 0, 27));
    assert!(!g.level_clear);
    assert!(g.scene.current == Scene::Playing);
}

#[test]
fn maze_game_enemy_turn() {
    let mut g = playing_game();
    g.px = 6;
    g.pz = 0;
    g.update_enemy(false);
    assert_eq!((g.enemy.ex, g.enemy.ez), (8, 0));
    g.update_enemy(true);
    assert_eq!((g.enemy.ex, g.enemy.ez), (7, 0));
    assert_eq!(g.audio.event, AudioEvent::EnemyNear);
    assert!(!g.game_over);
    g.update_enemy(true);
    assert!(g.enemy.caught);
    assert!(g.game_over);
    assert!(g.scene.current == Scene::GameOver);
    assert_eq!(g.audio.event, AudioEvent::GameOver);
    g.reset(3);
    assert_eq!((g.level, g.total_steps), (1, 0));
    assert!(!g.game_over);
    assert!(g.scene.current == Scene::Playing);
}

fn check_dungeon(map: &Vec<Vec<TileType>>, rooms: &Vec<Room>, w: i32, h: i32) {
    assert_eq!(map.len(), h as usize);
    assert!(map.iter().all(|row| row.len() == w as usize));
    assert!(!rooms.is_empty() && rooms.len() <= 12);
    for (i, r) in rooms.iter().enumerate() {
        assert!(r.width >= 7 && r.width <= 11 && r.height >= 5 && r.height <= 8);
        assert!(r.x >= 2 && r.x + r.width <= w - 4 && r.y >= 2 && r.y + r.height <= h - 4);
        for y in r.y..r.y + r.height {
            for x in r.x..r.x + r.width {
                assert!(map[y as usize][x as usize] != TileType::Wall);
                assert!(map[y as usize][x as usize] != TileType::Floor);
            }
        }
        for s in rooms.iter().skip(i + 1) {
            let near = r.x < s.x + s.width + 2
                && r.x + r.width + 2 > s.x
                && r.y < s.y + s.height + 2
                && r.y + r.height + 2 > s.y;
            assert!(!near);
        }
    }
    let first = &rooms[0];
    assert_eq!(map[(first.y + 1) as usize][(first.x + 1) as usize], TileType::StairUp);
    if rooms.len() > 1 {
        let last = &rooms[rooms.len() - 1];
        assert_eq!(
            map[(last.y + last.height - 2) as usize][(last.x + last.width - 2) as usize],
            TileType::StairDown
        );
        let second = &rooms[1];
        assert_eq!(map[(second.y + 2) as usize][(second.x + 2) as usize], TileType::Pit);
    }
    for y in 0..h {
        for x in 0..w {
            if x < 2 || y < 2 || x >= w - 4 || y >= h - 4 {
                assert_eq!(map[y as usize][x as usize], TileType::Wall);
            }
        }
    }
    for i in 1..rooms.len() {
        let (a, b) = (&rooms[i - 1], &rooms[i]);
        let (x1, y1) = (a.x + a.width / 2, a.y + a.height / 2);
        let (x2, y2) = (b.x + b.width / 2, b.y + b.height / 2);
        for x in x1.min(x2)..=x1.max(x2) {
            assert!(map[y1 as usize][x as usize] != TileType::Wall);
        }
        for y in y1.min(y2)..=y1.max(y2) {
            assert!(map[y as usize][x2 as usize] != TileType::Wall);
        }
    }
}

#[test]
fn dungeon_layout_rules() {
    for (w, h, seed) in [(120, 80, 1u32), (124, 82, 2), (156, 98, 10), (40, 30, 7), (17, 14, 3)] {
        let (map, rooms) = generate_dungeon(w, h, seed);
        check_dungeon(&map, &rooms, w, h);
    }
}

#[test]
fn dungeon_same_seed_same_floor() {
    let (a, ra) = generate_dungeon(120, 80, 5);
    let (b, rb) = generate_dungeon(120, 80, 5);
    assert!(a == b);
    assert_eq!(ra.len(), rb.len());
}

#[test]
fn floor_plan_queries() {
    let f = FloorPlan::generate(1);
    assert_eq!((f.map_width, f.map_height), (120, 80));
    let r0 = f.rooms[0];
    assert!(f.is_walkable(r0.x + 1, r0.y + 1));
    assert_eq!(f.get_room_at(r0.x + 1, r0.y + 1), Some(0));
    assert_eq!(f.get_room_at(0, 0), None);
    assert!(!f.is_walkable(0, 0));
    assert!(!f.is_walkable(-1, 5));
    assert!(!f.is_pit(-1, 5));
    if f.rooms.len() > 1 {
        let r1 = f.rooms[1];
        assert!(f.is_pit(r1.x + 2, r1.y + 2));
        assert!(!f.is_walkable(r1.x + 2, r1.y + 2));
    }
    let (tx, ty) = f.bow_target(r0.x + 1, r0.y + 1, 0);
    assert_eq!(tx, r0.x + 1);
    assert!(ty < r0.y + 1);
    assert!(f.map[(ty - 1) as usize][tx as usize] == TileType::Wall);
}

/// A floor of `w` by `h` with a wall border and room tiles inside.
fn open_floor(w: i32, h: i32) -> FloorPlan {
    let mut map = Vec::new();
    for y in 0..h {
        let mut row = Vec::new();
        for x in 0..w {
            if x == 0 || y == 0 || x == w - 1 || y == h - 1 {
                row.push(TileType::Wall);
            } else {
                row.push(TileType::Room);
            }
        }
        map.push(row);
    }
    FloorPlan { map, rooms: vec![Room { x: 1, y: 1, width: w - 2, height: h - 2 }], map_width: w, map_height: h }
}

#[test]
fn arrows_and_spells_stop_at_walls() {
    let mut f = open_floor(12, 10);
    assert_eq!(f.bow_target(3, 5, 2), (10, 5));
    assert_eq!(f.bow_target(3, 5, 0), (3, 1));
    assert_eq!(f.magic_target_from(3, 5, 1), (1, 5));
    f.map[5][6] = TileType::Pit;
    assert_eq!(f.bow_target(3, 5, 2), (10, 5));
    assert_eq!(f.magic_target_from(3, 5, 2), (5, 5));
}

#[test]
fn clear_shots() {
    let mut f = open_floor(12, 10);
    assert!(f.has_clear_shot(6, 5, 2, 5));
    assert!(f.has_clear_shot(2, 8, 2, 2));
    assert!(!f.has_clear_shot(3, 5, 2, 5));
    assert!(!f.has_clear_shot(6, 6, 2, 5));
    f.map[5][4] = TileType::Wall;
    assert!(!f.has_clear_shot(6, 5, 2, 5));
}

#[test]
fn moves_and_dodges_over_holes() {
    let mut f = open_floor(12, 10);
    f.map[5][4] = TileType::Pit;
    assert_eq!(f.resolve_move(3, 5, 2, false), (4, 5));
    assert_eq!(f.resolve_move(3, 5, 2, true), (6, 5));
    f.map[5][6] = TileType::Pit;
    assert_eq!(f.resolve_move(3, 5, 2, true), (5, 5));
    assert_eq!(f.resolve_move(9, 5, 2, true), (10, 5));
    assert_eq!(f.resolve_move(1, 1, 0, false), (1, 1));
}

#[test]
fn pursuit_and_wander() {
    let f = open_floor(12, 10);
    assert_eq!(f.pursuit_step(5, 5, 8, 5), (1, 0));
    assert_eq!(f.pursuit_step(5, 5, 5, 2), (0, -1));
    assert_eq!(f.pursuit_step(5, 5, 5, 5), (0, 0));
    assert_eq!(f.pursuit_step(1, 1, 1, 1), (0, 0));
    assert_eq!(wander_step(1, 1), (1, 0));
    assert_eq!(wander_step(0, 0), (0, -1));
}

#[test]
fn mark_visible_marks_the_neighbourhood() {
    let f = open_floor(6, 5);
    let mut seen = vec![vec![false; 6]; 5];
    f.mark_visible(&mut seen, 0, 0);
    let count: usize = seen.iter().map(|r| r.iter().filter(|&&b| b).count()).sum();
    assert_eq!(count, 4);
    assert!(seen[0][0] && seen[0][1] && seen[1][0] && seen[1][1]);
    f.mark_visible(&mut seen, 3, 2);
    assert!(seen[1][2] && seen[3][4] && seen[2][3]);
    assert!(!seen[0][3]);
}

#[test]
fn weapon_reach() {
    assert_eq!(
        sword_attack_cells(5, 5, 0),
        vec![(5, 4), (4, 4), (6, 4), (4, 5), (6, 5)]
    );
    assert_eq!(
        sword_attack_cells(5, 5, 2),
        vec![(6, 5), (6, 4), (6, 6), (5, 4), (5, 6)]
    );
    assert!(sword_attack_cells(5, 5, 9).is_empty());
    assert_eq!(spear_attack_cells(5, 5, 1), vec![(4, 5), (3, 5)]);
    assert_eq!(spear_attack_cells(5, 5, 3), vec![(5, 6), (5, 7)]);
    assert!(spear_attack_cells(5, 5, -1).is_empty());
}

#[test]
fn damage_rules() {
    assert_eq!(incoming_damage(8, 4, false, false), (5, 5));
    assert_eq!(incoming_damage(8, 4, true, false), (1, 1));
    assert_eq!(incoming_damage(20, 0, true, false), (6, 6));
    assert_eq!(incoming_damage(8, 4, false, true), (5, 0));
    assert_eq!(incoming_damage(2, 10, false, false), (1, 1));
    assert_eq!(hp_after(10, 15), 0);
    assert_eq!(hp_after(20, 5), 15);
    assert_eq!(strike_damage(15, 10), 5);
    assert_eq!(strike_damage(15, 20), 1);
    assert_eq!(attack_interval(0, EnemyVariant::Weak, false, 1000), 180);
    assert_eq!(attack_interval(1, EnemyVariant::Boss, false, 100), 50);
    assert_eq!(attack_interval(5, EnemyVariant::Strong, false, 100), 48);
    assert_eq!(attack_interval(4, EnemyVariant::Normal, true, 1000), 600);
    assert_eq!(attack_interval(0, EnemyVariant::Weak, false, 0), 1);
    assert_eq!(ranged_interval(1000), 420);
    assert_eq!(ranged_interval(1), 1);
}

#[test]
fn experience_spills_over_levels() {
    let mut p = Progress::new();
    assert_eq!((p.level, p.exp, p.next_level_exp, p.hp, p.mp), (1, 0, 100, 50, 30));
    p.hp = 12;
    p.gain_exp(99);
    assert_eq!((p.level, p.exp, p.hp), (1, 99, 12));
    p.gain_exp(151);
    assert_eq!(p.level, 3);
    assert_eq!(p.exp, 50);
    assert_eq!(p.next_level_exp, 150);
    assert_eq!((p.hp, p.max_hp, p.mp, p.max_mp), (70, 70, 40, 40));
    p.gain_exp(500);
    assert_eq!((p.level, p.exp, p.next_level_exp), (5, 200, 250));
}

#[test]
fn drops_follow_the_roll() {
    assert_eq!(
        roll_drop(1, 10, true),
        Drop {
            item: ItemType::PoisonPotion,
            count: 1,
            gear: Some(Gear::Armor(ArmorType::LeatherArmor))
        }
    );
    assert_eq!(roll_drop(1, 10, false), Drop { item: ItemType::PoisonPotion, count: 1, gear: None });
    assert_eq!(roll_drop(3, 7, false), Drop { item: ItemType::Gem, count: 2, gear: None });
    assert_eq!(
        roll_drop(5, 20, true),
        Drop { item: ItemType::HealthPotion, count: 1, gear: Some(Gear::Weapon(WeaponType::Bow)) }
    );
    assert_eq!(roll_drop(2, 0, false), Drop { item: ItemType::SkeletonKey, count: 1, gear: None });
    assert_eq!(
        roll_drop(10, 33, true),
        Drop {
            item: ItemType::SkeletonKey,
            count: 1,
            gear: Some(Gear::Accessory(AccessoryType::HealingNecklace))
        }
    );
    assert_eq!(roll_drop(7, 3, false), Drop { item: ItemType::Scroll, count: 1, gear: None });
    assert_eq!(roll_drop(3, 6, false), Drop { item: ItemType::GoldenCoin, count: 4, gear: None });
}

#[test]
fn ghost_homes_and_fright() {
    assert_eq!(ghost_home(GhostType::Blinky), ((11, 13), (0, 25), false));
    assert_eq!(ghost_home(GhostType::Clyde), ((13, 15), (30, 0), true));
    assert_eq!(frighten(GhostMode::Chase, 1), (GhostMode::Frightened, 3));
    assert_eq!(frighten(GhostMode::Scatter, 3), (GhostMode::Frightened, 1));
    assert_eq!(frighten(GhostMode::Eaten, 2), (GhostMode::Eaten, 2));
    assert_eq!(power_end(GhostMode::Frightened), GhostMode::Chase);
    assert_eq!(power_end(GhostMode::Eaten), GhostMode::Eaten);
    assert_eq!(switch_mode(GhostMode::Chase, GhostMode::Scatter), GhostMode::Scatter);
    assert_eq!(switch_mode(GhostMode::Frightened, GhostMode::Scatter), GhostMode::Frightened);
    assert_eq!(scatter_switch(0), (1, GhostMode::Chase));
    assert_eq!(scatter_switch(7), (0, GhostMode::Scatter));
    assert_eq!(input_dir(1), Some(0));
    assert_eq!(input_dir(4), Some(3));
    assert_eq!(input_dir(5), None);
}

#[test]
fn ghost_targets() {
    let t = |g, m, row, col, xp, yp, pr, pc, pd| get_target(g, m, row, col, xp, yp, pr, pc, pd, 11, 13);
    assert_eq!(t(GhostType::Blinky, GhostMode::Chase, 5, 5, 0, 0, 20, 14, 3), (20, 14));
    assert_eq!(t(GhostType::Pinky, GhostMode::Chase, 5, 5, 0, 0, 20, 14, 3), (20, 10));
    assert_eq!(t(GhostType::Pinky, GhostMode::Chase, 5, 5, 0, 0, 1, 14, 0), (0, 14));
    assert_eq!(t(GhostType::Inky, GhostMode::Chase, 5, 5, 0, 0, 20, 14, 0), (25, 15));
    assert_eq!(t(GhostType::Clyde, GhostMode::Chase, 13, 15, 0, 0, 14, 15, 0), (30, 0));
    assert_eq!(t(GhostType::Clyde, GhostMode::Chase, 0, 0, 0, 0, 14, 15, 0), (14, 15));
    assert_eq!(t(GhostType::Inky, GhostMode::Scatter, 0, 0, 0, 0, 14, 15, 0), (30, 27));
    assert_eq!(t(GhostType::Pinky, GhostMode::Eaten, 0, 0, 0, 0, 14, 15, 0), (11, 13));
    assert_eq!(t(GhostType::Blinky, GhostMode::Frightened, 0, 0, 100, 200, 14, 15, 0), (15, 12));
}

#[test]
fn ghosts_choose_turns() {
    let m = TileMap::new();
    assert_eq!(choose_direction(&m, 1, GhostMode::Chase, false, 11, 13, 26, 13), 1);
    assert_eq!(choose_direction(&m, 1, GhostMode::Frightened, false, 11, 13, 26, 13), 1);
    assert_eq!(choose_direction(&m, 1, GhostMode::Eaten, false, 11, 13, 14, 13), 2);
    assert_eq!(choose_direction(&m, 3, GhostMode::Chase, false, 0, 0, 5, 5), 3);
}

#[test]
fn pacman_scoring() {
    let mut m = TileMap::new();
    let mut r = PacmanRules::new(&m);
    let start = r.dot_count;
    assert!(start > 0);
    assert_eq!((r.score, r.lives), (0, 3));
    assert!(!r.eat_at(&mut m, 1, 2));
    assert_eq!((r.score, r.audio_event, r.dot_count), (10, 1, start - 1));
    assert!(r.eat_at(&mut m, 1, 1));
    assert_eq!((r.score, r.audio_event, r.dot_count), (60, 2, start - 2));
    assert!(!r.eat_at(&mut m, 1, 1));
    assert_eq!(r.score, 60);
    assert_eq!(r.ghost_contact(GhostMode::Frightened), GhostMode::Eaten);
    assert_eq!((r.score, r.audio_event), (260, 3));
    assert_eq!(r.ghost_contact(GhostMode::Eaten), GhostMode::Eaten);
    assert_eq!(r.ghost_contact(GhostMode::Chase), GhostMode::Chase);
    assert_eq!((r.lives, r.audio_event), (2, 4));
    assert!(r.state == GamePhase::Dying);
    r.death_done();
    assert!(r.state == GamePhase::Playing);
    r.lives = 0;
    r.death_done();
    assert!(r.state == GamePhase::GameOver);
    assert_eq!(r.audio_event, 6);
}

#[test]
fn floors_are_kept_once_visited() {
    let mut cache = FloorCache::new();
    assert_eq!(cache.floors.len(), 31);
    assert!(cache.floors.iter().all(|f| f.is_none()));
    let mut f1 = cache.load(1);
    assert_eq!(f1.map.len(), 80);
    assert_eq!(f1.map[0].len(), 120);
    assert!(f1.visited.iter().all(|row| row.iter().all(|&v| !v)));
    assert!(cache.floors[1].is_some());
    f1.visited[5][7] = true;
    cache.save_progress(1, &f1);
    let f2 = cache.load(2);
    assert_eq!(f2.map.len(), 82);
    let again = cache.load(1);
    assert!(again.map == f1.map);
    assert!(again.visited[5][7]);
    assert_eq!(again.rooms.len(), f1.rooms.len());
    let mut changed = again;
    changed.visited[6][6] = true;
    cache.save(1, &changed);
    assert!(cache.load(1).visited[6][6]);
}

#[test]
fn floor_travel_targets() {
    assert_eq!(next_floor_target(1), Some(2));
    assert_eq!(next_floor_target(30), None);
    assert_eq!(prev_floor_target(1), None);
    assert_eq!(prev_floor_target(7), Some(6));
    assert_eq!(jump_target(true, 3, 50), Some(30));
    assert_eq!(jump_target(true, 3, 0), Some(1));
    assert_eq!(jump_target(true, 3, 3), None);
    assert_eq!(jump_target(false, 3, 9), None);
}

#[test]
fn arrival_lands_in_a_room() {
    let f = FloorPlan::generate(2);
    for from_x in [0, 5, 17, 60] {
        let (x, y, i) = f.place_in_random_room(2, from_x, &Vec::new()).expect("a room");
        let r = f.rooms[i];
        assert!(x >= r.x && x < r.x + r.width && y >= r.y && y < r.y + r.height);
        assert!(f.is_walkable(x, y));
        let again = f.place_in_random_room(2, from_x, &vec![(x, y)]).expect("a room");
        assert!(again.0 != x || again.1 != y || (again.0 == r.x + r.width / 2 && again.1 == r.y + r.height / 2));
    }
    let empty = FloorPlan { map: vec![vec![TileType::Wall; 3]; 3], rooms: Vec::new(), map_width: 3, map_height: 3 };
    assert_eq!(empty.place_in_random_room(1, 0, &Vec::new()), None);
}

#[test]
fn lamps_hang_at_open_spaced_cells() {
    let m = open_maze();
    let ranked = rank_cells(&m);
    assert_eq!(ranked.len(), 81);
    assert_eq!(ranked[0], (1, 1));
    assert_eq!(ranked[48], (7, 7));
    assert_eq!(ranked[49], (1, 0));
    assert_eq!(ranked[77], (0, 0));
    let mut seed = 11u64;
    let lamps = find_light_cells(&m, &mut seed);
    assert_eq!(lamps, vec![(1, 1), (4, 1), (7, 1), (1, 4)]);
    assert_eq!(seed, 11);
    for seed0 in [1u64, 7, 99] {
        let maze = Maze::new(seed0);
        let mut s = seed0;
        let lamps = find_light_cells(&maze, &mut s);
        assert_eq!(lamps.len(), 4);
        assert!(lamps.iter().all(|&(x, z)| x < 9 && z < 9));
    }
}

#[test]
fn lamps_in_a_closed_maze() {
    let m = Maze { cells: [15u8; 81] };
    let mut seed = 5u64;
    let lamps = find_light_cells(&m, &mut seed);
    assert_eq!(lamps.len(), 4);
    assert_eq!(lamps[0], (0, 0));
    assert_eq!(lamps[1], (3, 0));
    assert_eq!(lamps[2], (6, 0));
    assert_eq!(lamps[3], (0, 3));
    assert_eq!(seed, 5);
}

#[test]
fn blaster_wave_rosters() {
    assert_eq!(wave_roster(1), Some(vec![EnemyKind::Basic; 4]));
    assert_eq!(wave_roster(3).map(|v| v.len()), Some(8));
    let w4 = wave_roster(4).expect("a wave");
    assert_eq!(w4.len(), 10);
    assert_eq!(w4[0], EnemyKind::Shooter);
    assert_eq!(w4[1], EnemyKind::Basic);
    assert_eq!(w4.iter().filter(|&&k| k == EnemyKind::Shooter).count(), 5);
    assert_eq!(wave_roster(6), None);
    assert_eq!(wave_roster(9), None);
}

fn foe(x: i32, y: i32, atk: u32, cooldown: u32, enemy_type: u32) -> RogueEnemy {
    RogueEnemy {
        x,
        y,
        hp: 10,
        max_hp: 10,
        enemy_type,
        variant: EnemyVariant::Normal,
        atk,
        def: 0,
        drop_rate: 20,
        is_boss: false,
        pursuit_timer: 0,
        can_see_player: false,
        attack_cooldown: cooldown,
    }
}

#[test]
fn adjacent_enemies_strike() {
    let mut es = vec![foe(5, 4, 5, 0, 0), foe(6, 6, 9, 0, 1), foe(4, 5, 7, 3, 2), foe(5, 6, 2, 0, 4)];
    let mut hp = 20u32;
    let hits = melee_attacks(&mut es, 5, 5, 4, false, false, 1000, &mut hp);
    assert_eq!(hits, vec![(0, 5), (3, 2)]);
    assert_eq!(hp, 13);
    assert_eq!(es[0].attack_cooldown, 220);
    assert_eq!(es[1].attack_cooldown, 0);
    assert_eq!(es[2].attack_cooldown, 3);
    assert_eq!(es[3].attack_cooldown, 320);
    let mut calm = vec![foe(5, 4, 50, 0, 0)];
    let mut hp2 = 20u32;
    let hits2 = melee_attacks(&mut calm, 5, 5, 0, false, true, 1000, &mut hp2);
    assert_eq!(hits2, vec![(0, 53)]);
    assert_eq!(hp2, 20);
    let mut big = vec![foe(5, 4, 50, 0, 0)];
    let mut hp3 = 20u32;
    melee_attacks(&mut big, 5, 5, 0, true, false, 1000, &mut hp3);
    assert_eq!(hp3, 3);
    melee_attacks(&mut big, 5, 5, 0, true, false, 1000, &mut hp3);
    assert_eq!(hp3, 3);
}

#[test]
fn strikes_hit_and_defeat() {
    let mut es = vec![foe(3, 3, 5, 0, 0), foe(4, 4, 5, 0, 0), foe(4, 4, 5, 0, 0)];
    es[1].def = 10;
    assert_eq!(strike_at(&mut es, 9, 9, 15), None);
    assert_eq!(es.len(), 3);
    assert_eq!(
        strike_at(&mut es, 4, 4, 15),
        Some(Strike { index: 1, dealt: 5, defeated: false, was_boss: false })
    );
    assert_eq!(es[1].hp, 5);
    assert_eq!(es[2].hp, 10);
    assert_eq!(
        strike_at(&mut es, 3, 3, 15),
        Some(Strike { index: 0, dealt: 15, defeated: true, was_boss: false })
    );
    assert_eq!(es.len(), 2);
    assert_eq!((es[0].x, es[0].hp), (4, 5));
    assert_eq!(strike_at(&mut es, 4, 4, 3).map(|s| s.dealt), Some(1));
    assert_eq!(exp_for(true), 500);
    assert_eq!(exp_for(false), 10);
}

#[test]
fn enemies_wander_one_after_another() {
    let f = open_floor(12, 10);
    let mut es = vec![
        foe(2, 3, 1, 0, 1),
        foe(1, 3, 1, 0, 1),
        foe(5, 5, 1, 0, 1),
        foe(4, 4, 1, 0, 3),
        foe(2, 2, 1, 0, 1),
    ];
    f.wander_enemies(&mut es, 6, 5);
    let cells: Vec<(i32, i32)> = es.iter().map(|e| (e.x, e.y)).collect();
    // the first waits for the second, who then leaves; the third would step
    // onto the hero; the ranged one stays; the last steps up
    assert_eq!(cells, vec![(2, 3), (1, 2), (5, 5), (4, 4), (2, 1)]);
    let mut lone = vec![foe(3, 1, 1, 0, 1)];
    f.wander_enemies(&mut lone, 6, 5);
    assert_eq!((lone[0].x, lone[0].y), (3, 1));
}

#[test]
fn ranged_enemies_fire_along_clear_lines() {
    let f = open_floor(12, 10);
    let mut es = vec![foe(2, 5, 4, 0, 3), foe(6, 2, 4, 5, 10), foe(6, 8, 4, 0, 1), foe(5, 4, 4, 0, 16)];
    let shots = f.ranged_volley(&mut es, 6, 5, 100);
    assert_eq!(shots, vec![(0, 6)]);
    assert_eq!(es[0].attack_cooldown, 42);
    assert_eq!(es[1].attack_cooldown, 5);
    assert_eq!(es[2].attack_cooldown, 0);
    let shots = f.ranged_volley(&mut es, 6, 5, 1);
    assert!(shots.is_empty());
    es[0].attack_cooldown = 0;
    let shots = f.ranged_volley(&mut es, 6, 5, 1);
    assert_eq!(shots, vec![(0, 6)]);
    assert_eq!(es[0].attack_cooldown, 1);
}

#[test]
fn enemies_pursue_when_their_timer_is_due() {
    let f = open_floor(12, 10);
    let mut es = vec![foe(4, 5, 1, 0, 1), foe(5, 5, 1, 0, 1), foe(2, 5, 1, 0, 1), foe(5, 2, 1, 0, 3), foe(7, 5, 1, 0, 1)];
    for (i, t) in [59u32, 59, 10, 59, 59].iter().enumerate() {
        es[i].pursuit_timer = *t;
    }
    f.pursue_enemies(&mut es, 8, 5);
    let cells: Vec<(i32, i32)> = es.iter().map(|e| (e.x, e.y)).collect();
    // the first is blocked by the second, who then closes in; the third is
    // not due; the ranged one holds; the last would step onto the hero
    assert_eq!(cells, vec![(4, 5), (6, 5), (2, 5), (5, 2), (7, 5)]);
    let timers: Vec<u32> = es.iter().map(|e| e.pursuit_timer).collect();
    assert_eq!(timers, vec![0, 0, 11, 0, 0]);
    assert!(es.iter().all(|e| e.can_see_player));

    let mut far = vec![foe(1, 1, 1, 0, 1)];
    far[0].pursuit_timer = 59;
    f.pursue_enemies(&mut far, 10, 8);
    assert_eq!((far[0].x, far[0].y, far[0].pursuit_timer, far[0].can_see_player), (1, 1, 59, false));
    far[0].can_see_player = true;
    f.pursue_enemies(&mut far, 10, 8);
    assert_eq!((far[0].x, far[0].y, far[0].pursuit_timer), (2, 1, 0));
}

#[test]
fn cooldowns_tick_down_to_zero() {
    let mut es = vec![foe(1, 1, 1, 3, 1), foe(2, 2, 1, 0, 1), foe(3, 3, 1, 1, 1)];
    cool_down_enemies(&mut es);
    let cds: Vec<u32> = es.iter().map(|e| e.attack_cooldown).collect();
    assert_eq!(cds, vec![2, 0, 0]);
    assert_eq!((es[2].x, es[2].y), (3, 3));
}

#[test]
fn marks_and_numbers_fade() {
    let mut marks = Vec::new();
    push_attack_effects(&mut marks, &vec![(2, 2), (-1, 3), (5, 9), (4, 4)], 10, 8, 2, "red");
    let cells: Vec<(i32, i32, u32)> = marks.iter().map(|m| (m.x, m.y, m.ttl)).collect();
    assert_eq!(cells, vec![(2, 2, 2), (4, 4, 2)]);
    marks.push(AttackEffect { x: 7, y: 7, ttl: 5, max_ttl: 5, color: "blue" });
    age_effects(&mut marks);
    let cells: Vec<(i32, i32, u32)> = marks.iter().map(|m| (m.x, m.y, m.ttl)).collect();
    assert_eq!(cells, vec![(2, 2, 1), (4, 4, 1), (7, 7, 4)]);
    age_effects(&mut marks);
    assert_eq!(marks.len(), 1);
    assert_eq!((marks[0].ttl, marks[0].max_ttl, marks[0].color), (3, 5, "blue"));

    let mut nums = vec![
        DamageNumber { x: 1, y: 1, amount: 7, ttl: 1, max_ttl: 30, color: "#fff" },
        DamageNumber { x: 2, y: 1, amount: 9, ttl: 30, max_ttl: 30, color: "#fff" },
        DamageNumber { x: 3, y: 1, amount: 4, ttl: 0, max_ttl: 30, color: "#fff" },
    ];
    age_numbers(&mut nums);
    assert_eq!(nums.len(), 1);
    assert_eq!((nums[0].x, nums[0].amount, nums[0].ttl), (2, 9, 29));
}

#[test]
fn drops_go_into_the_packs() {
    let mut inv = [0u32; 8];
    let mut pack = EquipmentInventory { weapons: vec![WeaponType::WoodenSword], armors: vec![], accessories: vec![] };
    take_drop(&mut inv, &mut pack, Drop { item: ItemType::Gem, count: 3, gear: None });
    assert_eq!(inv, [0, 0, 0, 0, 3, 0, 0, 0]);
    take_drop(&mut inv, &mut pack, Drop { item: ItemType::GoldenCoin, count: 2, gear: Some(Gear::Armor(ArmorType::ChainMail)) });
    take_drop(&mut inv, &mut pack, Drop { item: ItemType::Gem, count: 1, gear: Some(Gear::Weapon(WeaponType::Bow)) });
    assert_eq!(inv, [0, 0, 0, 0, 4, 0, 0, 2]);
    assert_eq!(pack.armors.last(), Some(&ArmorType::ChainMail));
    assert_eq!(pack.weapons.last(), Some(&WeaponType::Bow));
    assert_eq!(item_index(ItemType::HealthPotion), 0);
    assert_eq!(item_index(ItemType::Scroll), 6);
}

#[test]
fn equipping_from_the_pack() {
    let mut pack = EquipmentInventory { weapons: vec![WeaponType::WoodenSword], armors: vec![], accessories: vec![] };
    pack.weapons.push(WeaponType::Spear);
    pack.armors.push(ArmorType::SteelPlate);
    let mut eq = Equipment::new();
    let n = pack.weapons.len();
    assert!(eq.equip_weapon(&pack, n - 1));
    assert_eq!(eq.weapon, Some(WeaponType::Spear));
    assert!(!eq.equip_weapon(&pack, n));
    assert_eq!(eq.weapon, Some(WeaponType::Spear));
    let a = pack.armors.len();
    assert!(eq.equip_armor(&pack, a - 1));
    assert_eq!(eq.armor, Some(ArmorType::SteelPlate));
    assert!(!eq.equip_accessory(&pack, pack.accessories.len()));
    eq.unequip_weapon();
    eq.unequip_armor();
    eq.unequip_accessory();
    assert_eq!((eq.weapon, eq.armor, eq.accessory), (None, None, None));
}
