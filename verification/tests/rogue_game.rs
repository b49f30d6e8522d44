use rustgames::rogue_game::{RoguelikeGame, SpawnSlot, TurnNote};
use rustgames::rogue_rules::{FloorCache, FloorPlan, Progress, RogueEnemy};
use rustgames::roguelike::{
    Equipment, EquipmentInventory, EnemyVariant, RogueScene, Room, TileType, WeaponType,
};

fn floor(w: i32, h: i32) -> FloorPlan {
    let mut map = Vec::new();
    for y in 0..h {
        let mut row = Vec::new();
        for x in 0..w {
            if x == 0 || y == 0 || x == w - 1 || y == h - 1 {
                row.push(TileType::Wall);
            } else {
                row.push(TileType::Room);
            }
        }
        map.push(row);
    }
    FloorPlan { map, rooms: vec![Room { x: 1, y: 1, width: 5, height: h - 2 }], map_width: w, map_height: h }
}

fn foe(x: i32, y: i32, hp: u32, enemy_type: u32) -> RogueEnemy {
    RogueEnemy {
        x,
        y,
        hp,
        max_hp: hp,
        enemy_type,
        variant: EnemyVariant::Normal,
        atk: 4,
        def: 0,
        drop_rate: 20,
        is_boss: false,
        pursuit_timer: 0,
        can_see_player: false,
        attack_cooldown: 0,
    }
}

fn game(enemies: Vec<RogueEnemy>) -> RoguelikeGame {
    let plan = floor(14, 10);
    let n = enemies.len();
    RoguelikeGame {
        scene: RogueScene::Playing,
        depth: 3,
        progress: Progress::new(),
        player_x: 3,
        player_y: 3,
        player_direction: 2,
        enemies,
        visited: vec![vec![false; 14]; 10],
        plan,
        player_shake: 0,
        dodge_animation: 0,
        guard_timer: 0,
        enemy_shake: vec![0; n],
        attack_effects: Vec::new(),
        damage_numbers: Vec::new(),
        enemy_attack_interval_scale: 100,
        no_damage_mode: false,
        equipment: Equipment::new(),
        current_room: Some(0),
        inventory: [0; 8],
        eq_inventory: EquipmentInventory {
            weapons: vec![WeaponType::WoodenSword, WeaponType::Spear, WeaponType::Bow, WeaponType::Staff],
            armors: Vec::new(),
            accessories: Vec::new(),
        },
        floors: FloorCache::new(),
    }
}

#[test]
fn a_new_game_waits_at_the_title() {
    let mut g = RoguelikeGame::new();
    assert_eq!(g.scene, RogueScene::Title);
    assert_eq!((g.plan.map_width, g.plan.map_height), (120, 80));
    assert_eq!(g.eq_inventory.weapons.len(), 4);
    assert!(g.no_damage_mode);
    // nothing happens before play starts
    assert!(g.move_player(2).is_empty());
    assert_eq!((g.player_x, g.player_y), (0, 0));
}

#[test]
fn weapons_guard_and_steering() {
    let mut g = game(vec![]);
    assert_eq!(g.move_player(7), vec![TurnNote::Switched(WeaponType::Spear)]);
    assert_eq!(g.equipment.weapon, Some(WeaponType::Spear));
    assert_eq!(g.move_player(14), vec![TurnNote::GuardNeedsSword]);
    assert_eq!(g.guard_timer, 0);
    g.eq_inventory.weapons.truncate(2);
    assert_eq!(g.move_player(9), vec![TurnNote::NoSuchWeapon]);
    assert_eq!(g.move_player(6), vec![TurnNote::Switched(WeaponType::WoodenSword)]);
    assert_eq!(g.move_player(14), vec![TurnNote::GuardUp]);
    assert_eq!(g.guard_timer, 30);
    assert_eq!(g.move_player(11), vec![TurnNote::Steer(1)]);
    assert_eq!(g.player_direction, 1);
    assert!(g.move_player(20).is_empty());
    assert_eq!(g.player_direction, 20);
    // a dodge along an unknown direction goes nowhere
    assert!(g.move_player(5).is_empty());
    assert_eq!((g.player_x, g.player_y), (3, 3));
}

#[test]
fn steps_walls_rooms_and_dodges() {
    let mut g = game(vec![]);
    assert!(g.move_player(2).is_empty());
    assert_eq!((g.player_x, g.player_y, g.player_direction), (4, 3, 2));
    assert!(g.visited[3][5] && g.visited[2][3] && !g.visited[3][6]);
    assert_eq!(g.move_player(2), Vec::<TurnNote>::new());
    // leaving the room (columns 1 to 5) into the open floor
    assert_eq!(g.move_player(2), vec![TurnNote::EnteredCorridor]);
    assert_eq!(g.current_room, None);
    assert_eq!(g.move_player(1), vec![TurnNote::EnteredRoom(0)]);
    // dodge: three cells along the facing direction (left)
    assert_eq!(g.move_player(5), vec![TurnNote::SpinDodge]);
    assert_eq!((g.player_x, g.player_y), (2, 3));
    assert_eq!(g.dodge_animation, 12);
    assert_eq!(g.move_player(1), Vec::<TurnNote>::new());
    assert_eq!(g.move_player(1), vec![TurnNote::Bumped]);
    assert_eq!((g.player_x, g.player_y), (1, 3));
}

#[test]
fn stairs_and_holes_are_left_to_the_caller() {
    let mut g = game(vec![]);
    g.plan.map[3][4] = TileType::StairDown;
    g.plan.map[4][3] = TileType::Pit;
    g.plan.map[2][3] = TileType::StairUp;
    assert_eq!(g.move_player(2), vec![TurnNote::Descend]);
    assert_eq!((g.player_x, g.player_y), (3, 3));
    assert_eq!(g.move_player(3), vec![TurnNote::Fall]);
    assert_eq!(g.move_player(0), vec![TurnNote::Ascend]);
    g.depth = 1;
    // no floor above the first: the stairs are walked onto
    assert_eq!(g.move_player(0), Vec::<TurnNote>::new());
    assert_eq!((g.player_x, g.player_y), (3, 2));
    g.player_y = 3;
    g.depth = 30;
    assert_eq!(g.move_player(3), vec![TurnNote::NoFloorBelow]);
}

#[test]
fn bumping_into_an_enemy_strikes_it() {
    let mut g = game(vec![foe(4, 3, 20, 1)]);
    let notes = g.move_player(2);
    // a blow of fifteen, then the enemy's answer of seven (attack 4 + 3)
    match notes[0] {
        TurnNote::Struck(s) => assert_eq!((s.index, s.dealt, s.defeated), (0, 15, false)),
        _ => panic!("the enemy is struck first"),
    }
    assert_eq!(notes[1], TurnNote::EnemyBlow(0, 7));
    assert_eq!(notes.len(), 2);
    assert_eq!((g.player_x, g.player_y), (3, 3));
    assert_eq!(g.enemies[0].hp, 5);
    assert_eq!(g.progress.hp, 43);
    assert_eq!(g.player_shake, 5);
    // the second blow defeats it
    g.enemies[0].attack_cooldown = 0;
    let notes = g.move_player(2);
    assert!(matches!(notes[0], TurnNote::Struck(s) if s.defeated));
    assert!(matches!(notes[1], TurnNote::Defeated(10, _)));
    assert_eq!(notes.len(), 2);
    assert!(g.enemies.is_empty());
    assert_eq!(g.progress.exp, 10);
}

#[test]
fn sword_spear_bow_and_staff() {
    let mut g = game(vec![foe(4, 2, 30, 1), foe(5, 3, 30, 1)]);
    // sword facing right: (4,3), (4,2), (4,4), (3,2), (3,4)
    let notes = g.move_player(4);
    assert!(matches!(notes[0], TurnNote::Struck(s) if s.index == 0 && s.dealt == 13));
    assert_eq!(notes[1], TurnNote::Slash);
    assert_eq!(g.enemies[0].hp, 17);
    assert_eq!(g.enemies[1].hp, 30);
    assert_eq!(g.attack_effects.len(), 5);
    assert_eq!(g.player_shake, 3);
    // spear facing right: (4,3) and (5,3)
    g.move_player(7);
    let notes = g.move_player(4);
    assert!(matches!(notes[0], TurnNote::Struck(s) if s.index == 1 && s.dealt == 19));
    assert_eq!(notes[1], TurnNote::Thrust);
    // bow facing right: the arrow flies to the wall
    g.move_player(8);
    let notes = g.move_player(4);
    assert_eq!(notes[0], TurnNote::Arrow(12, 3, 14));
    // staff: three magic points a spell
    g.move_player(9);
    g.progress.mp = 4;
    let notes = g.move_player(4);
    assert_eq!(notes[0], TurnNote::Spell(12, 3, 18));
    assert_eq!(g.progress.mp, 1);
    assert_eq!(g.move_player(4)[0], TurnNote::NoMana);
}

#[test]
fn a_frame_of_pursuit_and_timers() {
    let mut chaser = foe(6, 3, 20, 1);
    chaser.pursuit_timer = 59;
    let mut g = game(vec![chaser]);
    g.player_shake = 2;
    g.guard_timer = 1;
    g.dodge_animation = 0;
    g.enemy_shake = vec![4];
    let notes = g.enemy_frame();
    // the chaser closes in one cell, not yet next to the hero
    assert!(notes.is_empty());
    assert_eq!((g.enemies[0].x, g.enemies[0].y), (5, 3));
    assert_eq!(g.enemies[0].pursuit_timer, 0);
    assert!(g.enemies[0].can_see_player);
    assert_eq!((g.player_shake, g.guard_timer, g.dodge_animation), (1, 0, 0));
    assert_eq!(g.enemy_shake, vec![3]);
    // next to the hero, a rested enemy strikes within the frame
    g.enemies[0].x = 4;
    let notes = g.enemy_frame();
    assert_eq!(notes, vec![TurnNote::EnemyBlow(0, 7)]);
    assert_eq!(g.progress.hp, 43);
    // its cooldown (28 + 4 at the normal pace) already ran down a frame
    assert_eq!(g.enemies[0].attack_cooldown, 31);
    assert_eq!(g.player_shake, 4);
}

#[test]
fn arrows_shots_and_the_end_of_a_frame() {
    let mut g = game(vec![foe(8, 3, 6, 1), foe(9, 3, 30, 1)]);
    assert!(!g.arrow_hit(7, 3, 5));
    assert!(g.arrow_hit(8, 3, 5));
    assert_eq!((g.enemies[0].hp, g.enemy_shake[0]), (1, 3));
    assert!(g.arrow_hit(8, 3, 5));
    assert_eq!((g.enemies[0].hp, g.enemy_shake[0]), (0, 5));
    assert_eq!(g.damage_numbers.len(), 2);
    let notes = g.shot_hit(6);
    assert_eq!(notes, vec![TurnNote::ShotTaken(6)]);
    assert_eq!(g.progress.hp, 44);
    assert_eq!(g.player_shake, 5);
    let notes = g.frame_end();
    assert_eq!(notes, vec![TurnNote::ShotDown]);
    assert_eq!(g.progress.exp, 10);
    assert_eq!(g.enemies.len(), 1);
    assert_eq!((g.enemies[0].x, g.enemies[0].hp), (9, 30));
    assert_eq!(g.enemy_shake.len(), 1);
    // the survivor inherits the fallen one's fresh shake until the next
    // frame runs it down
    assert_eq!(g.enemy_shake, vec![5]);
    g.enemy_frame();
    assert_eq!(g.enemy_shake, vec![4]);
    // a guarded shot is cut to a third; a fallen hero ends the game
    g.guard_timer = 5;
    assert_eq!(g.shot_hit(9), vec![TurnNote::ShotTaken(3)]);
    g.progress.hp = 2;
    g.shot_hit(9);
    assert_eq!(g.frame_end(), vec![TurnNote::GameOver]);
    assert_eq!(g.scene, RogueScene::GameOver);
    // once the game is over the hero does not act
    assert!(g.move_player(2).is_empty());
}

#[test]
fn starting_and_changing_floors() {
    let mut g = RoguelikeGame::new();
    g.start_game();
    assert_eq!(g.scene, RogueScene::Playing);
    let room = g.plan.rooms[0];
    assert_eq!((g.player_x, g.player_y), (room.x + room.width / 2, room.y + room.height / 2));
    assert_eq!(g.current_room, Some(0));
    let seen: usize = g.visited.iter().map(|r| r.iter().filter(|c| **c).count()).sum();
    assert_eq!(seen, 1);
    let first_map = g.plan.map.clone();

    assert!(g.next_floor());
    assert_eq!((g.depth, g.progress.level), (2, 2));
    assert_eq!((g.plan.map_width, g.plan.map_height), (124, 82));
    assert!(g.enemies.is_empty() && g.enemy_shake.is_empty());
    assert!(g.floors.floors[1].is_some() && g.floors.floors[2].is_some());
    let here = g.current_room.unwrap();
    let r = g.plan.rooms[here];
    assert!(g.player_x >= r.x && g.player_x < r.x + r.width && g.player_y >= r.y && g.player_y < r.y + r.height);
    assert!(g.visited[g.player_y as usize][g.player_x as usize]);

    assert!(g.prev_floor());
    assert_eq!((g.depth, g.progress.level), (1, 1));
    assert_eq!(g.plan.map, first_map);
    assert!(!g.prev_floor());

    assert_eq!(g.jump_to_floor(1), None);
    assert_eq!(g.jump_to_floor(50), Some(30));
    assert_eq!((g.depth, g.progress.level), (30, 30));
    assert!(!g.next_floor());
    assert_eq!(g.depth, 30);

    let (x, y) = (g.player_x, g.player_y);
    g.place_enemies(vec![foe(x, y, 9, 1)]);
    assert_eq!(g.enemies.len(), 1);
    assert_eq!(g.enemy_shake, vec![0]);

    g.scene = RogueScene::Title;
    assert_eq!(g.jump_to_floor(5), None);
}

#[test]
fn defeats_can_raise_the_level() {
    let mut g = game(vec![foe(4, 3, 5, 1)]);
    g.progress.exp = 95;
    let notes = g.move_player(2);
    assert!(matches!(notes[0], TurnNote::Struck(s) if s.defeated));
    assert!(matches!(notes[1], TurnNote::Defeated(10, _)));
    assert_eq!(notes[2], TurnNote::LevelUp(2));
    assert_eq!(notes.len(), 3);
    assert_eq!((g.progress.level, g.progress.exp, g.progress.max_hp), (2, 5, 60));
}

#[test]
fn enemies_are_placed_on_the_floor() {
    let mut g = RoguelikeGame::new();
    g.start_game();
    let slots: Vec<SpawnSlot> = g.spawn_slots(true);
    assert!(!slots.is_empty());
    for (i, s) in slots.iter().enumerate() {
        assert!(s.x >= 0 && s.x < g.plan.map_width && s.y >= 0 && s.y < g.plan.map_height);
        // only the young goblins, goblins and bats of the first floor
        assert!([0u32, 1, 3].contains(&s.enemy_type));
        assert!(!s.is_boss || i == 0);
    }
    // the same floor always gets the same enemies
    assert_eq!(g.spawn_slots(true), slots);
    assert!(g.spawn_slots(false).iter().all(|s| !s.is_boss));
}

#[test]
fn growth_checks_follow_u32_limits() {
    let mut g = RoguelikeGame::new();
    assert!(g.growth_fits(5));
    assert!(g.pack_fits(5));
    g.progress.level = 5000;
    g.progress.next_level_exp = 250_000;
    g.progress.exp = 1_000_000;
    assert!(g.growth_fits(5));
    g.progress.exp = u32::MAX - 100;
    assert!(!g.growth_fits(1));
    g.progress.exp = 0;
    g.progress.max_hp = u32::MAX - 5;
    assert!(!g.growth_fits(5));
    assert!(g.growth_fits(0));
    g.inventory[3] = u32::MAX - 7;
    assert!(g.pack_fits(1));
    assert!(!g.pack_fits(2));
}

#[test]
fn shots_need_a_direction() {
    let mut g = RoguelikeGame::new();
    g.player_direction = 20;
    assert!(g.can_aim());
    g.equipment.weapon = Some(WeaponType::Bow);
    assert!(!g.can_aim());
    g.player_direction = 3;
    assert!(g.can_aim());
    g.equipment.weapon = Some(WeaponType::Staff);
    g.player_direction = -1;
    g.progress.mp = 2;
    assert!(g.can_aim());
    g.progress.mp = 3;
    assert!(!g.can_aim());
}

#[test]
fn turns_need_room_only_when_they_may_fight() {
    let mut g = RoguelikeGame::new();
    g.scene = RogueScene::Playing;
    g.progress.exp = u32::MAX - 10;
    assert!(g.turn_fits(6));
    assert!(g.turn_fits(14));
    assert!(!g.turn_fits(0));
    g.scene = RogueScene::Title;
    assert!(g.turn_fits(0));
    assert!(g.turn_fits(4));
}
