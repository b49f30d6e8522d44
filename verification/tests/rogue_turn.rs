use rustgames::roguelike::{
    AttackEffect, DamageNumber, EnemyVariant, EquipmentInventory, ItemType, RogueScene, Room,
    TileType, WeaponType,
};
use rustgames::rogue_rules::{roll_drop, FloorPlan, Gear, Progress, RogueEnemy};
use rustgames::rogue_turn::{
    add_message, decode_action, enemy_attack_adjacent, handle_attack_hit, PlayerAction,
    StepOutcome,
};

fn floor(w: i32, h: i32) -> FloorPlan {
    let mut map = Vec::new();
    for y in 0..h {
        let mut row = Vec::new();
        for x in 0..w {
            if x == 0 || y == 0 || x == w - 1 || y == h - 1 {
                row.push(TileType::Wall);
            } else {
                row.push(TileType::Room);
            }
        }
        map.push(row);
    }
    FloorPlan { map, rooms: vec![Room { x: 1, y: 1, width: w - 2, height: h - 2 }], map_width: w, map_height: h }
}

fn foe(x: i32, y: i32, atk: u32, enemy_type: u32) -> RogueEnemy {
    RogueEnemy {
        x,
        y,
        hp: 10,
        max_hp: 10,
        enemy_type,
        variant: EnemyVariant::Normal,
        atk,
        def: 0,
        drop_rate: 20,
        is_boss: false,
        pursuit_timer: 0,
        can_see_player: false,
        attack_cooldown: 0,
    }
}

#[test]
fn key_codes_decode() {
    assert_eq!(decode_action(0), PlayerAction::Step(0));
    assert_eq!(decode_action(3), PlayerAction::Step(3));
    assert_eq!(decode_action(4), PlayerAction::Attack);
    assert_eq!(decode_action(5), PlayerAction::Dodge);
    assert_eq!(decode_action(6), PlayerAction::SwitchWeapon(0));
    assert_eq!(decode_action(9), PlayerAction::SwitchWeapon(3));
    assert_eq!(decode_action(10), PlayerAction::Steer(0));
    assert_eq!(decode_action(13), PlayerAction::Steer(3));
    assert_eq!(decode_action(14), PlayerAction::Guard);
    assert_eq!(decode_action(15), PlayerAction::Face(15));
    assert_eq!(decode_action(-1), PlayerAction::Face(-1));
}

#[test]
fn steps_end_by_what_is_there() {
    let mut f = floor(12, 10);
    f.map[5][6] = TileType::Pit;
    f.map[5][7] = TileType::StairDown;
    f.map[5][8] = TileType::StairUp;
    let es = vec![foe(3, 3, 1, 1), foe(3, 3, 1, 1)];
    assert_eq!(f.step_outcome(&es, 3, 3, true, 5), StepOutcome::Strike(0));
    assert_eq!(f.step_outcome(&es, 4, 4, false, 5), StepOutcome::Bump);
    assert_eq!(f.step_outcome(&es, 6, 5, true, 5), StepOutcome::Fall);
    assert_eq!(f.step_outcome(&es, 6, 5, true, 30), StepOutcome::Fall);
    assert_eq!(f.step_outcome(&es, 7, 5, true, 5), StepOutcome::Descend);
    assert_eq!(f.step_outcome(&es, 7, 5, true, 30), StepOutcome::Walk);
    assert_eq!(f.step_outcome(&es, 8, 5, true, 1), StepOutcome::Walk);
    assert_eq!(f.step_outcome(&es, 8, 5, true, 2), StepOutcome::Ascend);
    assert_eq!(f.step_outcome(&es, 4, 4, true, 5), StepOutcome::Walk);
    assert_eq!(f.step_outcome(&es, 0, 0, true, 5), StepOutcome::Bump);
}

#[test]
fn blows_hurt_and_defeat() {
    let mut es = vec![foe(2, 2, 1, 1), foe(4, 4, 1, 1)];
    let mut shakes = vec![0u32, 0];
    let mut numbers: Vec<DamageNumber> = Vec::new();
    let mut progress = Progress::new();
    let mut inv = [0u32; 8];
    let mut pack = EquipmentInventory { weapons: vec![WeaponType::WoodenSword], armors: vec![], accessories: vec![] };

    let miss = handle_attack_hit(&mut es, &mut shakes, &mut numbers, &mut progress, &mut inv, &mut pack, 3, 7, 7, 5);
    assert!(miss.is_none());
    assert!(numbers.is_empty());

    let hit = handle_attack_hit(&mut es, &mut shakes, &mut numbers, &mut progress, &mut inv, &mut pack, 3, 2, 2, 4).unwrap();
    assert_eq!((hit.index, hit.dealt, hit.defeated), (0, 4, false));
    assert_eq!(es[0].hp, 6);
    assert_eq!(shakes, vec![5, 0]);
    assert_eq!((numbers[0].x, numbers[0].y, numbers[0].amount, numbers[0].ttl, numbers[0].color), (2, 2, 4, 30, "#ffd45c"));

    let kill = handle_attack_hit(&mut es, &mut shakes, &mut numbers, &mut progress, &mut inv, &mut pack, 3, 2, 2, 20).unwrap();
    assert!(kill.defeated);
    assert_eq!(es.len(), 1);
    assert_eq!((es[0].x, es[0].y), (4, 4));
    assert_eq!(shakes, vec![0]);
    assert_eq!(progress.exp, 10);
    let d = roll_drop(3, 2, false);
    let slot = [
        ItemType::HealthPotion,
        ItemType::ManaPotion,
        ItemType::PoisonPotion,
        ItemType::EnergyDrink,
        ItemType::Gem,
        ItemType::SkeletonKey,
        ItemType::Scroll,
        ItemType::GoldenCoin,
    ]
    .iter()
    .position(|k| *k == d.item)
    .unwrap();
    assert_eq!(inv[slot], d.count);
    assert_eq!(inv.iter().sum::<u32>(), d.count);
    assert!(d.gear.is_none());
    assert_eq!(pack.weapons.len(), 1);
}

#[test]
fn a_boss_leaves_gear() {
    let mut boss = foe(5, 5, 1, 1);
    boss.is_boss = true;
    boss.hp = 3;
    let mut es = vec![boss];
    let mut shakes = vec![0u32];
    let mut numbers = Vec::new();
    let mut progress = Progress::new();
    let mut inv = [0u32; 8];
    let mut pack = EquipmentInventory { weapons: vec![], armors: vec![], accessories: vec![] };
    let kill = handle_attack_hit(&mut es, &mut shakes, &mut numbers, &mut progress, &mut inv, &mut pack, 10, 5, 5, 9).unwrap();
    assert!(kill.defeated && kill.was_boss);
    assert!(es.is_empty());
    // five hundred experience: levels 2 to 4 (100, 100 and 150 paid)
    assert_eq!((progress.level, progress.exp), (4, 150));
    let gear_count = pack.weapons.len() + pack.armors.len() + pack.accessories.len();
    assert_eq!(gear_count, 1);
    match roll_drop(10, 5, true).gear {
        Some(Gear::Weapon(w)) => assert_eq!(pack.weapons, vec![w]),
        Some(Gear::Armor(a)) => assert_eq!(pack.armors, vec![a]),
        Some(Gear::Accessory(a)) => assert_eq!(pack.accessories, vec![a]),
        None => panic!("a boss always leaves gear"),
    }
}

#[test]
fn neighbours_strike_and_archers_fire() {
    let f = floor(12, 10);
    let mut es = vec![foe(5, 4, 5, 1), foe(2, 5, 4, 3)];
    let mut effects: Vec<AttackEffect> = Vec::new();
    let mut numbers: Vec<DamageNumber> = Vec::new();
    let mut shake = 0u32;
    let mut hp = 50u32;
    let mut scene = RogueScene::Playing;
    let (blows, shots) = enemy_attack_adjacent(
        &f, &mut es, &mut effects, &mut numbers, &mut shake, &mut hp, &mut scene, 5, 5, 0, false, false, 100,
    );
    assert_eq!(blows, vec![(0, 8)]);
    assert_eq!(shots, vec![(1, 6)]);
    assert_eq!(hp, 42);
    assert_eq!(shake, 5);
    assert_eq!(scene, RogueScene::Playing);
    assert_eq!((effects[0].x, effects[0].y, effects[0].ttl, effects[0].color), (5, 5, 10, "rgba(255, 80, 80, 0.92)"));
    assert_eq!((numbers[0].amount, numbers[0].color), (8, "#ff6666"));
    assert_eq!(es[0].attack_cooldown, 32);
    assert_eq!(es[1].attack_cooldown, 42);

    // rested again, in no-damage mode: the blow shows 0 and costs nothing
    es[0].attack_cooldown = 0;
    let (blows, _) = enemy_attack_adjacent(
        &f, &mut es, &mut effects, &mut numbers, &mut shake, &mut hp, &mut scene, 5, 5, 0, false, true, 100,
    );
    assert_eq!(blows, vec![(0, 8)]);
    assert_eq!(hp, 42);
    assert_eq!((numbers[1].amount, numbers[1].color), (0, "#66ccff"));
    assert_eq!(effects[1].color, "rgba(120, 220, 255, 0.92)");

    // a last blow ends the game
    es[0].attack_cooldown = 0;
    hp = 5;
    enemy_attack_adjacent(&f, &mut es, &mut effects, &mut numbers, &mut shake, &mut hp, &mut scene, 5, 5, 0, false, false, 100);
    assert_eq!(hp, 0);
    assert_eq!(scene, RogueScene::GameOver);
}

#[test]
fn the_log_keeps_five_lines() {
    let mut log: Vec<String> = Vec::new();
    for i in 0..7 {
        add_message(&mut log, format!("line {}", i));
    }
    assert_eq!(log, vec!["line 2", "line 3", "line 4", "line 5", "line 6"]);
}
