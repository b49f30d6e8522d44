//! Items, equipment and small rules of the roguelike dungeon.
use vstd::prelude::*;

verus! {

#[derive(Clone, Copy, PartialEq, Eq, Structural, Debug)]
pub enum TileType {
    Floor,
    Wall,
    Room,
    Pit,
    StairDown,
    StairUp,
}

#[derive(Clone, Copy)]
pub struct Room {
    pub x: i32,
    pub y: i32,
    pub width: i32,
    pub height: i32,
}

#[derive(Clone)]
pub struct AttackEffect {
    pub x: i32,
    pub y: i32,
    pub ttl: u32,
    pub max_ttl: u32,
    pub color: &'static str,
}

#[derive(Clone)]
pub struct DamageNumber {
    pub x: i32,
    pub y: i32,
    pub amount: u32,
    pub ttl: u32,
    pub max_ttl: u32,
    pub color: &'static str,
}

#[derive(Clone, Copy, Debug, PartialEq, Eq, Structural)]
pub enum WeaponType {
    WoodenSword,
    IronSword,
    Spear,
    Bow,
    Staff,
    CursedBlade,
}

#[derive(Clone, Copy, Debug, PartialEq, Eq, Structural)]
pub enum WeaponStyle {
    Sword,
    Spear,
    Bow,
    Staff,
}

#[derive(Clone, Copy, Debug, PartialEq, Eq, Structural)]
pub enum ArmorType {
    LeatherArmor,
    ChainMail,
    SteelPlate,
    DragonScale,
    CursedMail,
}

#[derive(Clone, Copy, Debug, PartialEq, Eq, Structural)]
pub enum AccessoryType {
    GoldRing,
    VampireRing,
    LuckyRing,
    HealingNecklace,
    ManaEarrings,
}

#[derive(Clone, Copy, Debug, PartialEq, Eq, Structural)]
pub enum ItemType {
    HealthPotion,
    ManaPotion,
    PoisonPotion,
    EnergyDrink,
    Gem,
    SkeletonKey,
    Scroll,
    GoldenCoin,
}

#[derive(Clone, Copy, Debug)]
pub struct Equipment {
    pub weapon: Option<WeaponType>,
    pub armor: Option<ArmorType>,
    pub accessory: Option<AccessoryType>,
}

#[derive(Clone, Debug)]
pub struct EquipmentInventory {
    pub weapons: Vec<WeaponType>,
    pub armors: Vec<ArmorType>,
    pub accessories: Vec<AccessoryType>,
}

pub open spec fn weapon_attack(w: WeaponType) -> u32 {
    match w {
        WeaponType::WoodenSword => 3,
        WeaponType::IronSword => 5,
        WeaponType::Spear => 7,
        WeaponType::Bow => 9,
        WeaponType::Staff => 8,
        WeaponType::CursedBlade => 12,
    }
}

pub open spec fn armor_defence(a: ArmorType) -> u32 {
    match a {
        ArmorType::LeatherArmor => 2,
        ArmorType::ChainMail => 4,
        ArmorType::SteelPlate => 6,
        ArmorType::DragonScale => 8,
        ArmorType::CursedMail => 10,
    }
}

impl Equipment {
    /// A new hero carries a wooden sword and nothing else.
    pub fn new() -> (r: Self)
        ensures
            r.weapon == Some(WeaponType::WoodenSword),
            r.armor.is_none(),
            r.accessory.is_none(),
    {
        Self { weapon: Some(WeaponType::WoodenSword), armor: None, accessory: None }
    }

    /// Attack bonus of the weapon held, 0 without one.
    pub fn get_atk_bonus(&self) -> (r: u32)
        ensures
            r == (match self.weapon {
                Some(w) => weapon_attack(w),
                None => 0,
            }),
    {
        match self.weapon {
            Some(WeaponType::WoodenSword) => 3,
            Some(WeaponType::IronSword) => 5,
            Some(WeaponType::Spear) => 7,
            Some(WeaponType::Bow) => 9,
            Some(WeaponType::Staff) => 8,
            Some(WeaponType::CursedBlade) => 12,
            None => 0,
        }
    }

    /// Defence bonus of the armour worn, 0 without one.
    pub fn get_def_bonus(&self) -> (r: u32)
        ensures
            r == (match self.armor {
                Some(a) => armor_defence(a),
                None => 0,
            }),
    {
        match self.armor {
            Some(ArmorType::LeatherArmor) => 2,
            Some(ArmorType::ChainMail) => 4,
            Some(ArmorType::SteelPlate) => 6,
            Some(ArmorType::DragonScale) => 8,
            Some(ArmorType::CursedMail) => 10,
            None => 0,
        }
    }

    /// Ten more hit points with the healing necklace.
    pub fn get_max_hp_bonus(&self) -> (r: u32)
        ensures
            r == (if self.accessory == Some(AccessoryType::HealingNecklace) { 10u32 } else { 0u32 }),
    {
        match self.accessory {
            Some(AccessoryType::HealingNecklace) => 10,
            _ => 0,
        }
    }

    /// Fifteen more magic points with the mana earrings.
    pub fn get_max_mp_bonus(&self) -> (r: u32)
        ensures
            r == (if self.accessory == Some(AccessoryType::ManaEarrings) { 15u32 } else { 0u32 }),
    {
        match self.accessory {
            Some(AccessoryType::ManaEarrings) => 15,
            _ => 0,
        }
    }
}

/// The cursed pieces give the largest bonus of their kind.
pub proof fn lemma_cursed_strongest(w: WeaponType, a: ArmorType)
    ensures
        weapon_attack(w) <= weapon_attack(WeaponType::CursedBlade),
        armor_defence(a) <= armor_defence(ArmorType::CursedMail),
{
}

#[derive(Clone, Copy, Debug, PartialEq, Eq, Structural)]
pub enum RogueScene {
    Title,
    Playing,
    GameOver,
}

impl RogueScene {
    pub fn as_u8(self) -> (r: u8)
        ensures
            r == (match self {
                RogueScene::Title => 0u8,
                RogueScene::Playing => 1u8,
                RogueScene::GameOver => 2u8,
            }),
    {
        match self {
            RogueScene::Title => 0,
            RogueScene::Playing => 1,
            RogueScene::GameOver => 2,
        }
    }
}

#[derive(Clone, Copy, Debug, PartialEq, Eq, Structural)]
pub enum EnemyVariant {
    Weak,
    Normal,
    Strong,
    Boss,
}

/// The dungeon's 32-bit linear congruential generator.
pub struct LcgRng {
    pub state: u32,
}

pub open spec fn lcg32_next(s: u32) -> u32 {
    ((s as nat * 1103515245nat + 12345nat) % 0x1_0000_0000) as u32
}

pub open spec fn lcg32_out(s: u32) -> u32 {
    ((s / 65536) % 32768) as u32
}

impl LcgRng {
    pub fn new(seed: u32) -> (r: Self)
        ensures
            r.state == seed,
    {
        Self { state: seed }
    }

    /// Advances the state and draws a number below 32768 from it.
    pub fn next(&mut self) -> (r: u32)
        ensures
            final(self).state == lcg32_next(old(self).state),
            r == lcg32_out(final(self).state),
            r < 32768,
    {
        let m = self.state.wrapping_mul(1103515245);
        let n = m.wrapping_add(12345);
        proof {
            let a = old(self).state as nat * 1103515245nat;
            assert(n as nat == (a + 12345nat) % 0x1_0000_0000) by (nonlinear_arith)
                requires
                    m == (a % 0x1_0000_0000) as u32,
                    n == (if m + 12345 > u32::MAX {
                        (m + 12345 - 0x1_0000_0000) as u32
                    } else {
                        (m + 12345) as u32
                    }),
            ;
        }
        self.state = n;
        (self.state / 65536) % 32768
    }
}

/// Map size of a floor: 120 by 80 on the first floor, four columns and two
/// rows more on each deeper floor.
pub fn calc_map_size(depth: u32) -> (r: (i32, i32))
    requires
        depth <= 0x1000_0000,
    ensures
        r.0 == 120 + (if depth > 0 { depth - 1 } else { 0 }) * 4,
        r.1 == 80 + (if depth > 0 { depth - 1 } else { 0 }) * 2,
{
    let d: u32 = if depth > 0 {
        depth - 1
    } else {
        0
    };
    let width = 120 + (d as i32) * 4;
    let height = 80 + (d as i32) * 2;
    (width, height)
}

/// Enemy kinds that keep their distance and shoot: the bats, the young
/// spider, the zombie warrior, the mummy priest and the wyvern.
pub fn is_ranged_enemy_type(enemy_type: u32) -> (r: bool)
    ensures
        r == (enemy_type == 3 || enemy_type == 10 || enemy_type == 16 || enemy_type == 22
            || enemy_type == 28),
{
    enemy_type == 3 || enemy_type == 10 || enemy_type == 16 || enemy_type == 22 || enemy_type == 28
}

/// Floors 1, 10, 20 and 30 hold a boss.
pub fn should_spawn_boss(depth: u32) -> (r: bool)
    ensures
        r == (depth == 1 || depth == 10 || depth == 20 || depth == 30),
{
    depth == 1 || depth == 10 || depth == 20 || depth == 30
}

pub fn weapon_name(weapon: WeaponType) -> (r: &'static str)
    ensures
        weapon == WeaponType::WoodenSword ==> r@ == "Wooden Sword"@,
        weapon == WeaponType::IronSword ==> r@ == "Iron Sword"@,
        weapon == WeaponType::Spear ==> r@ == "Spear"@,
        weapon == WeaponType::Bow ==> r@ == "Bow"@,
        weapon == WeaponType::Staff ==> r@ == "Staff"@,
        weapon == WeaponType::CursedBlade ==> r@ == "Cursed Blade"@,
{
    match weapon {
        WeaponType::WoodenSword => "Wooden Sword",
        WeaponType::IronSword => "Iron Sword",
        WeaponType::Spear => "Spear",
        WeaponType::Bow => "Bow",
        WeaponType::Staff => "Staff",
        WeaponType::CursedBlade => "Cursed Blade",
    }
}

pub fn armor_name(armor: ArmorType) -> (r: &'static str)
    ensures
        armor == ArmorType::LeatherArmor ==> r@ == "Leather Armor"@,
        armor == ArmorType::ChainMail ==> r@ == "Chain Mail"@,
        armor == ArmorType::SteelPlate ==> r@ == "Steel Plate"@,
        armor == ArmorType::DragonScale ==> r@ == "Dragon Scale"@,
        armor == ArmorType::CursedMail ==> r@ == "Cursed Mail"@,
{
    match armor {
        ArmorType::LeatherArmor => "Leather Armor",
        ArmorType::ChainMail => "Chain Mail",
        ArmorType::SteelPlate => "Steel Plate",
        ArmorType::DragonScale => "Dragon Scale",
        ArmorType::CursedMail => "Cursed Mail",
    }
}

pub fn accessory_name(accessory: AccessoryType) -> (r: &'static str)
    ensures
        accessory == AccessoryType::GoldRing ==> r@ == "Gold Ring"@,
        accessory == AccessoryType::VampireRing ==> r@ == "Vampire Ring"@,
        accessory == AccessoryType::LuckyRing ==> r@ == "Lucky Ring"@,
        accessory == AccessoryType::HealingNecklace ==> r@ == "Healing Necklace"@,
        accessory == AccessoryType::ManaEarrings ==> r@ == "Mana Earrings"@,
{
    match accessory {
        AccessoryType::GoldRing => "Gold Ring",
        AccessoryType::VampireRing => "Vampire Ring",
        AccessoryType::LuckyRing => "Lucky Ring",
        AccessoryType::HealingNecklace => "Healing Necklace",
        AccessoryType::ManaEarrings => "Mana Earrings",
    }
}

pub open spec fn style_of(weapon: WeaponType) -> WeaponStyle {
    match weapon {
        WeaponType::WoodenSword | WeaponType::IronSword => WeaponStyle::Sword,
        WeaponType::Spear | WeaponType::CursedBlade => WeaponStyle::Spear,
        WeaponType::Bow => WeaponStyle::Bow,
        WeaponType::Staff => WeaponStyle::Staff,
    }
}

/// How a weapon attacks: the swords swing, the spear and the cursed blade
/// thrust, the bow shoots, the staff casts.
pub fn weapon_style(weapon: WeaponType) -> (r: WeaponStyle)
    ensures
        r == style_of(weapon),
{
    match weapon {
        WeaponType::WoodenSword | WeaponType::IronSword => WeaponStyle::Sword,
        WeaponType::Spear | WeaponType::CursedBlade => WeaponStyle::Spear,
        WeaponType::Bow => WeaponStyle::Bow,
        WeaponType::Staff => WeaponStyle::Staff,
    }
}

/// The floors on which each enemy kind appears, shallowest and deepest,
/// in the order of the enemy table.
pub open spec fn enemy_depths() -> Seq<(u32, u32)> {
    seq![
        (1u32, 3u32), (1, 5), (3, 7), (1, 4), (2, 6), (5, 10), (3, 6), (4, 8), (6, 12), (5, 10),
        (7, 12), (10, 15), (4, 8), (6, 12), (10, 18), (8, 15), (10, 18), (15, 25), (10, 16),
        (11, 20), (16, 26), (12, 18), (14, 22), (18, 28), (14, 20), (16, 25), (20, 30), (18, 24),
        (20, 29), (24, 30),
    ]
}

pub const ENEMY_KINDS: usize = 30;

fn enemy_depth_range(i: usize) -> (r: (u32, u32))
    requires
        i < 30,
    ensures
        r == enemy_depths()[i as int],
{
    let table: [(u32, u32); 30] = [
        (1, 3), (1, 5), (3, 7), (1, 4), (2, 6), (5, 10), (3, 6), (4, 8), (6, 12), (5, 10),
        (7, 12), (10, 15), (4, 8), (6, 12), (10, 18), (8, 15), (10, 18), (15, 25), (10, 16),
        (11, 20), (16, 26), (12, 18), (14, 22), (18, 28), (14, 20), (16, 25), (20, 30), (18, 24),
        (20, 29), (24, 30),
    ];
    proof {
        assert(table@ =~= enemy_depths());
    }
    table[i]
}

/// The enemy kinds that appear on floor `depth`, in table order.
pub open spec fn kinds_on_floor(depth: u32) -> Seq<u32> {
    all_kinds().filter(lives_on(depth))
}

pub open spec fn all_kinds() -> Seq<u32> {
    Seq::new(30, |i: int| i as u32)
}

/// Whether enemy kind `i` appears on floor `depth`.
pub open spec fn lives_on(depth: u32) -> spec_fn(u32) -> bool {
    |i: u32| enemy_depths()[i as int].0 <= depth && depth <= enemy_depths()[i as int].1
}

pub open spec fn variant_for_roll(roll: u32) -> EnemyVariant {
    if roll < 5 {
        EnemyVariant::Weak
    } else if roll < 25 {
        EnemyVariant::Strong
    } else if roll < 30 {
        EnemyVariant::Boss
    } else {
        EnemyVariant::Normal
    }
}

/// Picks an enemy for floor `depth`: a kind among those living there, by
/// one draw, then its variant by a second draw out of 100 (5 weak, 20
/// strong, 5 boss, 70 normal). Nothing, and no draw, where no kind lives.
pub fn spawn_random_enemy_for_floor(depth: u32, rng: &mut LcgRng) -> (r: Option<(u32, EnemyVariant)>)
    ensures
        kinds_on_floor(depth).len() == 0 ==> r.is_none() && final(rng).state == old(rng).state,
        kinds_on_floor(depth).len() > 0 ==> {
            let s1 = lcg32_next(old(rng).state);
            let s2 = lcg32_next(s1);
            let avail = kinds_on_floor(depth);
            &&& final(rng).state == s2
            &&& r == Some(
                (avail[(lcg32_out(s1) as int) % (avail.len() as int)], variant_for_roll(
                    lcg32_out(s2) % 100,
                )),
            )
        },
{
    let mut available: Vec<u32> = Vec::new();
    let mut i: usize = 0;
    while i < ENEMY_KINDS
        invariant
            i <= 30,
            available@ == all_kinds().subrange(0, i as int).filter(lives_on(depth)),
        decreases 30 - i,
    {
        let (lo, hi) = enemy_depth_range(i);
        proof {
            assert(all_kinds().subrange(0, i as int + 1).drop_last() == all_kinds().subrange(0, i as int));
            assert(all_kinds().subrange(0, i as int + 1).last() == i as u32);
            reveal(Seq::filter);
        }
        if depth >= lo && depth <= hi {
            available.push(i as u32);
        }
        i = i + 1;
    }
    proof {
        assert(all_kinds().subrange(0, 30) == all_kinds());
    }
    if available.len() == 0 {
        return None;
    }
    let a = rng.next();
    let enemy_type = available[(a as usize) % available.len()];
    let roll = rng.next() % 100;
    let variant = if roll < 5 {
        EnemyVariant::Weak
    } else if roll < 25 {
        EnemyVariant::Strong
    } else if roll < 30 {
        EnemyVariant::Boss
    } else {
        EnemyVariant::Normal
    };
    Some((enemy_type, variant))
}

} // verus!
