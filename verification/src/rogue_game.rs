//! A roguelike game in play: the hero's turn on a key press (decoded, the
//! move or blow resolved, the enemies answering), a frame of the enemies,
//! arrows and shots reaching their mark, the end of a frame, starting play,
//! changing floors and where a new floor's enemies stand. What the page
//! should say or show is returned as notes.
use vstd::prelude::*;
use crate::dungeon::{dungeon_tile, grid, in_grid, in_room, room_ok, rooms_ok, tile};
use crate::rogue_rules::{
    abs, age_effects, age_numbers, aged_effects, aged_numbers, blows, cells_view, cool_down_enemies, dealt_to,
    drop_for, floor_view, grid_bool, hp_after_blows, hp_left, incoming_damage, item_slot, jump_target, leveled,
    marks_for, move_steps, MAX_LEVEL, next_floor_target, prev_floor_target, push_attack_effects, ray, roll_drop, rows_view,
    settled, spear_attack_cells, spear_cells, sword_attack_cells, sword_cells, unseen_grid, Drop, FloorCache,
    FloorPlan, FloorState, Gear, Progress, RogueEnemy, Strike,
};
use crate::rogue_turn::{
    action_of, after_melee, after_volley, blow_color, blow_number, decode_action, enemy_attack_adjacent,
    handle_attack_hit, hit_number, room_to_grow, PlayerAction, StepOutcome,
};
use crate::roguelike::{
    armor_defence, kinds_on_floor, lcg32_next, lcg32_out, spawn_random_enemy_for_floor, variant_for_roll, style_of, weapon_attack, AccessoryType,
    ArmorType, AttackEffect, DamageNumber, EnemyVariant, Equipment, EquipmentInventory, LcgRng, RogueScene, Room,
    TileType, WeaponStyle, WeaponType,
};

verus! {

/// What the hero's turn tells the page, in order.
#[derive(Clone, Copy, PartialEq, Eq, Structural, Debug)]
pub enum TurnNote {
    /// The hero took this weapon.
    Switched(WeaponType),
    /// The pack slot asked for is empty.
    NoSuchWeapon,
    /// The flying spell turns to this direction.
    Steer(i32),
    /// A sword guard is up.
    GuardUp,
    /// Only a sword can guard.
    GuardNeedsSword,
    /// A sword slash or a spear thrust was made.
    Slash,
    Thrust,
    /// An arrow flies to this cell with this damage.
    Arrow(i32, i32, u32),
    /// A spell flies to this cell with this damage.
    Spell(i32, i32, u32),
    /// Too little magic for a spell.
    NoMana,
    /// The hero spun away.
    SpinDodge,
    /// A blow of the hero landed.
    Struck(Strike),
    /// A defeated enemy gave this experience and left this drop.
    Defeated(u32, Drop),
    /// An enemy struck the hero (enemy index, damage).
    EnemyBlow(usize, u32),
    /// An enemy fired at the hero (enemy index, damage).
    EnemyShot(usize, u32),
    /// The hero fell.
    GameOver,
    /// The hero walked into a wall.
    Bumped,
    /// The hero steps into a hole and falls a floor.
    Fall,
    /// A hole on the deepest floor: nothing below.
    NoFloorBelow,
    /// Stairs down or up were taken.
    Descend,
    Ascend,
    /// The hero entered room `i`, or a corridor.
    EnteredRoom(usize),
    EnteredCorridor,
    /// An enemy's shot hit the hero, announced with this damage.
    ShotTaken(u32),
    /// A flying arrow or spell defeated an enemy: ten experience.
    ShotDown,
    /// The hero reached this level.
    LevelUp(u32),
}

/// The level-up notes from level `from` to level `to`, one per level.
pub open spec fn level_ups(from: u32, to: u32) -> Seq<TurnNote> {
    Seq::new((to - from) as nat, |j: int| TurnNote::LevelUp((from + 1 + j) as u32))
}

/// Notes one level-up per level gained from `from` to `to`.
fn push_level_ups(notes: &mut Vec<TurnNote>, from: u32, to: u32)
    requires
        from <= to,
    ensures
        final(notes)@ == old(notes)@ + level_ups(from, to),
{
    let ghost start = notes@;
    let mut l = from;
    while l < to
        invariant
            from <= l <= to,
            notes@ == start + level_ups(from, l),
        decreases to - l,
    {
        l = l + 1;
        notes.push(TurnNote::LevelUp(l));
        proof {
            assert(notes@ =~= start + level_ups(from, l));
        }
    }
}

/// What the hero's blows touch: the enemies with their shakes, the shown
/// numbers, the hero's growth and packs.
#[verifier::ext_equal]
pub struct HitView {
    pub enemies: Seq<RogueEnemy>,
    pub shakes: Seq<u32>,
    pub numbers: Seq<DamageNumber>,
    pub progress: Progress,
    pub inventory: Seq<u32>,
    pub weapons: Seq<WeaponType>,
    pub armors: Seq<ArmorType>,
    pub accessories: Seq<AccessoryType>,
}

/// The index of the first enemy at (x, y) among the first `n`, or `n`.
pub open spec fn first_at(es: Seq<RogueEnemy>, n: int, x: i32, y: i32) -> int
    decreases n,
{
    if n <= 0 {
        0
    } else if first_at(es, n - 1, x, y) < n - 1 {
        first_at(es, n - 1, x, y)
    } else if es[n - 1].x == x && es[n - 1].y == y {
        n - 1
    } else {
        n
    }
}

proof fn lemma_first_at(es: Seq<RogueEnemy>, n: int, x: i32, y: i32)
    requires
        0 <= n <= es.len(),
    ensures
        0 <= first_at(es, n, x, y) <= n,
        forall|j: int| 0 <= j < first_at(es, n, x, y) ==> !(#[trigger] es[j].x == x && es[j].y == y),
        first_at(es, n, x, y) < n ==> es[first_at(es, n, x, y)].x == x && es[first_at(es, n, x, y)].y == y,
    decreases n,
{
    if n > 0 {
        lemma_first_at(es, n - 1, x, y);
    }
}

/// The packs after a drop.
pub open spec fn packed(v: HitView, d: Drop) -> HitView {
    let slot = item_slot(d.item);
    HitView {
        inventory: v.inventory.update(slot, (v.inventory[slot] + d.count) as u32),
        weapons: match d.gear {
            Some(Gear::Weapon(w)) => v.weapons.push(w),
            _ => v.weapons,
        },
        armors: match d.gear {
            Some(Gear::Armor(a)) => v.armors.push(a),
            _ => v.armors,
        },
        accessories: match d.gear {
            Some(Gear::Accessory(a)) => v.accessories.push(a),
            _ => v.accessories,
        },
        ..v
    }
}

/// A blow of `damage` at (tx, ty) on floor `depth`, as `handle_attack_hit`
/// deals it, with its notes.
#[verifier::opaque]
pub open spec fn hit_view(v: HitView, depth: u32, tx: i32, ty: i32, damage: u32) -> (HitView, Seq<TurnNote>) {
    let i = first_at(v.enemies, v.enemies.len() as int, tx, ty);
    if i >= v.enemies.len() {
        (v, Seq::empty())
    } else {
        let e = v.enemies[i];
        let dealt = dealt_to(damage, e.def);
        let left = hp_left(e.hp, dealt);
        let h = Strike { index: i as usize, dealt: dealt as u32, defeated: left == 0, was_boss: e.is_boss };
        let shown = HitView { numbers: v.numbers.push(hit_number(tx, ty, dealt as u32)), ..v };
        if left == 0 {
            let exp: u32 = if e.is_boss { 500 } else { 10 };
            let d = drop_for(depth, tx, e.is_boss);
            (
                packed(
                    HitView {
                        enemies: v.enemies.remove(i),
                        shakes: v.shakes.remove(i),
                        progress: settled(Progress { exp: (v.progress.exp + exp) as u32, ..v.progress }),
                        ..shown
                    },
                    d,
                ),
                seq![TurnNote::Struck(h), TurnNote::Defeated(exp, d)] + level_ups(
                    v.progress.level,
                    settled(Progress { exp: (v.progress.exp + exp) as u32, ..v.progress }).level,
                ),
            )
        } else {
            (
                HitView {
                    enemies: v.enemies.update(i, RogueEnemy { hp: left as u32, ..e }),
                    shakes: v.shakes.update(i, 5u32),
                    ..shown
                },
                seq![TurnNote::Struck(h)],
            )
        }
    }
}

/// Blows at each of `cells` in turn: the view after them, their notes, and
/// whether any landed.
pub open spec fn hits_view(v: HitView, depth: u32, cells: Seq<(i32, i32)>, damage: u32) -> (HitView, Seq<TurnNote>, bool)
    decreases cells.len(),
{
    if cells.len() == 0 {
        (v, Seq::empty(), false)
    } else {
        let (v1, n1, any1) = hits_view(v, depth, cells.drop_last(), damage);
        let c = cells.last();
        let (v2, n2) = hit_view(v1, depth, c.0, c.1, damage);
        (v2, n1 + n2, any1 || n2.len() > 0)
    }
}

/// Room for `k` more defeats (each worth at most 500 experience): the
/// experience, the need of every level reached (fifty per level) and the
/// points gained on the way all stay within `u32`. Each level costs at
/// least fifty experience, so at most a fiftieth of the experience turns
/// into levels.
pub open spec fn growth_room(p: Progress, k: int) -> bool {
    &&& 1 <= p.level
    &&& p.next_level_exp >= 50
    &&& p.exp + 500 * k <= u32::MAX
    &&& p.level + (p.exp + 500 * k) / 50 <= MAX_LEVEL
    &&& p.max_hp + 10 * ((p.exp + 500 * k) / 50) <= u32::MAX
    &&& p.max_mp + 5 * ((p.exp + 500 * k) / 50) <= u32::MAX
}

/// Every pack slot can take `k` more drops.
pub open spec fn pack_room(inventory: Seq<u32>, k: int) -> bool {
    forall|j: int| 0 <= j < 8 ==> #[trigger] inventory[j] + 5 * k <= u32::MAX
}

/// Levelling up never raises the level plus a fiftieth of the experience,
/// nor the points plus their share of it.
proof fn lemma_settled_potential(q: Progress)
    requires
        q.level >= 1,
        q.next_level_exp >= 50,
        q.level + q.exp / 50 <= MAX_LEVEL,
        q.max_hp + 10 * (q.exp / 50) <= u32::MAX,
        q.max_mp + 5 * (q.exp / 50) <= u32::MAX,
    ensures
        settled(q).level >= 1,
        settled(q).next_level_exp >= 50,
        settled(q).exp <= q.exp,
        settled(q).level + settled(q).exp / 50 <= q.level + q.exp / 50,
        settled(q).max_hp + 10 * (settled(q).exp / 50) <= q.max_hp + 10 * (q.exp / 50),
        settled(q).max_mp + 5 * (settled(q).exp / 50) <= q.max_mp + 5 * (q.exp / 50),
    decreases q.exp,
{
    if q.next_level_exp > 0 && q.exp >= q.next_level_exp {
        let paid = Progress { exp: (q.exp - q.next_level_exp) as u32, ..q };
        let r = leveled(paid);
        assert(paid.exp / 50 + 1 <= q.exp / 50) by (nonlinear_arith)
            requires
                paid.exp == q.exp - q.next_level_exp,
                q.next_level_exp >= 50,
                q.exp >= q.next_level_exp,
        ;
        assert(r.next_level_exp >= 50) by (nonlinear_arith)
            requires
                r.next_level_exp == (q.level + 1) * 50,
                q.level >= 1,
                q.level + 1 <= MAX_LEVEL,
        ;
        lemma_settled_potential(r);
    }
}

/// Levelling up never lowers the level.
proof fn lemma_settled_rises(q: Progress)
    requires
        q.next_level_exp >= 50,
        q.level + q.exp / 50 <= MAX_LEVEL,
    ensures
        settled(q).level >= q.level,
    decreases q.exp,
{
    if q.next_level_exp > 0 && q.exp >= q.next_level_exp {
        let paid = Progress { exp: (q.exp - q.next_level_exp) as u32, ..q };
        let r = leveled(paid);
        assert(paid.exp / 50 + 1 <= q.exp / 50) by (nonlinear_arith)
            requires
                paid.exp == q.exp - q.next_level_exp,
                q.next_level_exp >= 50,
                q.exp >= q.next_level_exp,
        ;
        assert(r.next_level_exp >= 50) by (nonlinear_arith)
            requires
                r.next_level_exp == (q.level + 1) * 50,
                q.level + 1 <= MAX_LEVEL,
        ;
        lemma_settled_rises(r);
    }
}

/// After a defeat worth at most 500 experience, room for one defeat fewer
/// is left.
proof fn lemma_growth_after(p: Progress, a: u32, k: int)
    requires
        growth_room(p, k),
        k >= 1,
        a <= 500,
    ensures
        growth_room(settled(Progress { exp: (p.exp + a) as u32, ..p }), k - 1),
{
    let q = Progress { exp: (p.exp + a) as u32, ..p };
    assert(q.exp / 50 <= (p.exp + 500 * k) / 50) by (nonlinear_arith)
        requires
            q.exp == p.exp + a,
            a <= 500,
            k >= 1,
    ;
    lemma_settled_potential(q);
    let s = settled(q);
    assert((s.exp + 500 * (k - 1)) / 50 == s.exp / 50 + 10 * (k - 1)) by (nonlinear_arith)
        requires
            k >= 1,
    ;
    assert(q.exp / 50 + 10 * (k - 1) <= (p.exp + 500 * k) / 50) by (nonlinear_arith)
        requires
            q.exp == p.exp + a,
            a <= 500,
            k >= 1,
    ;
}

proof fn lemma_growth_room_one(p: Progress, k: int)
    requires
        growth_room(p, k),
        k >= 1,
    ensures
        room_to_grow(p),
        growth_room(p, k - 1),
{
    assert(p.exp / 50 <= (p.exp + 500 * k) / 50) by (nonlinear_arith)
        requires
            k >= 1,
    ;
    assert((p.exp + 500 * (k - 1)) / 50 <= (p.exp + 500 * k) / 50) by (nonlinear_arith)
        requires
            k >= 1,
    ;
}

/// The view of the parts a blow touches.
pub open spec fn hit_parts(
    enemies: Seq<RogueEnemy>,
    shakes: Seq<u32>,
    numbers: Seq<DamageNumber>,
    progress: Progress,
    inventory: [u32; 8],
    pack: EquipmentInventory,
) -> HitView {
    HitView {
        enemies,
        shakes,
        numbers,
        progress,
        inventory: inventory@,
        weapons: pack.weapons@,
        armors: pack.armors@,
        accessories: pack.accessories@,
    }
}

/// Enemy stats a blow can handle without overflow.
pub open spec fn blowable(es: Seq<RogueEnemy>) -> bool {
    forall|i: int| 0 <= i < es.len() ==> #[trigger] es[i].def <= i32::MAX
}

/// Blows of `damage` at each of `cells` in turn on floor `depth` (see
/// `handle_attack_hit`). Returns the notes of the blows and whether any
/// landed.
pub fn strike_cells(
    enemies: &mut Vec<RogueEnemy>,
    shakes: &mut Vec<u32>,
    numbers: &mut Vec<DamageNumber>,
    progress: &mut Progress,
    inventory: &mut [u32; 8],
    pack: &mut EquipmentInventory,
    depth: u32,
    cells: &Vec<(i32, i32)>,
    damage: u32,
) -> (r: (Vec<TurnNote>, bool))
    requires
        damage <= i32::MAX,
        blowable(old(enemies)@),
        old(shakes)@.len() == old(enemies)@.len(),
        growth_room(*old(progress), cells@.len() as int),
        pack_room(old(inventory)@, cells@.len() as int),
    ensures
        ({
            let (v, notes, any) = hits_view(
                hit_parts(old(enemies)@, old(shakes)@, old(numbers)@, *old(progress), *old(inventory), *old(pack)),
                depth,
                cells@,
                damage,
            );
            &&& hit_parts(final(enemies)@, final(shakes)@, final(numbers)@, *final(progress), *final(inventory), *final(pack)) == v
            &&& r.0@ == notes
            &&& r.1 == any
        }),
        blowable(final(enemies)@),
        final(shakes)@.len() == final(enemies)@.len(),
{
    let ghost v0 = hit_parts(enemies@, shakes@, numbers@, *progress, *inventory, *pack);
    let ghost cs = cells@;
    let mut notes: Vec<TurnNote> = Vec::new();
    let mut any = false;
    let mut i: usize = 0;
    while i < cells.len()
        invariant
            cells@ == cs,
            i <= cs.len(),
            damage <= i32::MAX,
            blowable(enemies@),
            shakes@.len() == enemies@.len(),
            growth_room(*progress, cs.len() - i),
            pack_room(inventory@, cs.len() - i),
            ({
                let (v, n, a) = hits_view(v0, depth, cs.take(i as int), damage);
                &&& hit_parts(enemies@, shakes@, numbers@, *progress, *inventory, *pack) == v
                &&& notes@ == n
                &&& any == a
            }),
        decreases cs.len() - i,
    {
        let (tx, ty) = cells[i];
        let ghost before = hit_parts(enemies@, shakes@, numbers@, *progress, *inventory, *pack);
        let p0 = *progress;
        let ghost k = cs.len() - i;
        proof {
            reveal(hit_view);
            lemma_growth_room_one(*progress, k);
            assert forall|j: int| 0 <= j < 8 implies #[trigger] inventory@[j] <= u32::MAX - 5 by {
                assert(inventory@[j] + 5 * k <= u32::MAX);
            }
            lemma_first_at(enemies@, enemies@.len() as int, tx, ty);
            assert(cs.take(i + 1).drop_last() =~= cs.take(i as int));
            assert(cs.take(i + 1).last() == (tx, ty));
        }
        let hit = handle_attack_hit(enemies, shakes, numbers, progress, inventory, pack, depth, tx, ty, damage);
        match hit {
            None => {
                proof {
                    assert(first_at(before.enemies, before.enemies.len() as int, tx, ty) == before.enemies.len());
                    assert(hit_parts(enemies@, shakes@, numbers@, *progress, *inventory, *pack) == before);
                }
            },
            Some(h) => {
                notes.push(TurnNote::Struck(h));
                if h.defeated {
                    let d = roll_drop(depth, tx, h.was_boss);
                    let exp: u32 = if h.was_boss { 500 } else { 10 };
                    notes.push(TurnNote::Defeated(exp, d));
                    proof {
                        lemma_growth_after(p0, exp, k);
                        assert((p0.exp + exp) / 50 <= (p0.exp + 500 * k) / 50) by (nonlinear_arith)
                            requires
                                exp <= 500,
                                k >= 1,
                        ;
                        lemma_settled_rises(Progress { exp: (p0.exp + exp) as u32, ..p0 });
                    }
                    push_level_ups(&mut notes, p0.level, progress.level);
                } else {
                    proof {
                        assert(*progress == p0);
                    }
                }
                any = true;
                proof {
                    assert(first_at(before.enemies, before.enemies.len() as int, tx, ty) == h.index as int);
                    assert forall|j: int| 0 <= j < 8 implies #[trigger] inventory@[j] + 5 * (k - 1) <= u32::MAX by {
                        assert(old(inventory)@.len() == 8);
                    }
                }
            },
        }
        i = i + 1;
    }
    proof {
        assert(cs.take(cs.len() as int) =~= cs);
    }
    (notes, any)
}

/// The state of a game in play, as the hero's turn sees it.
#[verifier::ext_equal]
pub struct RogueView {
    pub scene: RogueScene,
    pub depth: u32,
    pub progress: Progress,
    pub px: i32,
    pub py: i32,
    pub dir: i32,
    pub enemies: Seq<RogueEnemy>,
    pub visited: Seq<Seq<bool>>,
    pub player_shake: u32,
    pub dodge_animation: u32,
    pub guard_timer: u32,
    pub shakes: Seq<u32>,
    pub effects: Seq<AttackEffect>,
    pub numbers: Seq<DamageNumber>,
    pub scale: u32,
    pub no_damage: bool,
    pub equipment: Equipment,
    pub current_room: Option<usize>,
    pub inventory: Seq<u32>,
    pub weapons: Seq<WeaponType>,
    pub armors: Seq<ArmorType>,
    pub accessories: Seq<AccessoryType>,
    pub floors: Seq<Option<(Seq<Seq<TileType>>, Seq<Room>, Seq<Seq<bool>>)>>,
}

/// The weapon swung: the one held, a wooden sword with none.
pub open spec fn held(e: Equipment) -> WeaponType {
    match e.weapon {
        Some(w) => w,
        None => WeaponType::WoodenSword,
    }
}

pub open spec fn atk_bonus(e: Equipment) -> u32 {
    match e.weapon {
        Some(w) => weapon_attack(w),
        None => 0,
    }
}

pub open spec fn def_bonus(e: Equipment) -> u32 {
    match e.armor {
        Some(a) => armor_defence(a),
        None => 0,
    }
}

/// The part of the state a blow of the hero touches.
pub open spec fn hit_of(v: RogueView) -> HitView {
    HitView {
        enemies: v.enemies,
        shakes: v.shakes,
        numbers: v.numbers,
        progress: v.progress,
        inventory: v.inventory,
        weapons: v.weapons,
        armors: v.armors,
        accessories: v.accessories,
    }
}

/// The state with the part a blow touches replaced.
pub open spec fn with_hits(v: RogueView, h: HitView) -> RogueView {
    RogueView {
        enemies: h.enemies,
        shakes: h.shakes,
        numbers: h.numbers,
        progress: h.progress,
        inventory: h.inventory,
        weapons: h.weapons,
        armors: h.armors,
        accessories: h.accessories,
        ..v
    }
}

/// A cell list with integer coordinates as 32-bit cells.
pub open spec fn cells32(s: Seq<(int, int)>) -> Seq<(i32, i32)> {
    s.map_values(|c: (int, int)| (c.0 as i32, c.1 as i32))
}

/// Where an arrow shot from (x, y) towards `dir` stops (see `flies_to`).
pub open spec fn flight(plan: FloorPlan, x: int, y: int, dir: i32) -> (int, int) {
    ray(x, y, dir, choose|k: int| plan.flies_to(x, y, dir, k))
}

/// Where a move from (x, y) towards `dir` ends (see `resolve_move`).
pub open spec fn landing_cell(plan: FloorPlan, x: int, y: int, dir: i32, dodge: bool) -> (int, int) {
    let (k, m) = choose|k: int, m: int| plan.move_run(x, y, dir, move_steps(dodge), k, m);
    if dodge && plan.pit(ray(x, y, dir, k).0, ray(x, y, dir, k).1) {
        ray(x, y, dir, m)
    } else {
        ray(x, y, dir, k)
    }
}

/// The index of the first of the first `n` rooms holding (x, y), or `n`.
pub open spec fn first_room(rooms: Seq<Room>, n: int, x: int, y: int) -> int
    decreases n,
{
    if n <= 0 {
        0
    } else if first_room(rooms, n - 1, x, y) < n - 1 {
        first_room(rooms, n - 1, x, y)
    } else if in_room(rooms[n - 1], x, y) {
        n - 1
    } else {
        n
    }
}

/// The room holding (x, y), if any (the first one).
pub open spec fn room_at(rooms: Seq<Room>, x: int, y: int) -> Option<usize> {
    let i = first_room(rooms, rooms.len() as int, x, y);
    if i < rooms.len() {
        Some(i as usize)
    } else {
        None
    }
}

/// The cells seen after looking around from (x, y).
pub open spec fn seen_from(vis: Seq<Seq<bool>>, x: int, y: int) -> Seq<Seq<bool>> {
    Seq::new(
        vis.len(),
        |r: int| Seq::new(vis[r].len(), |c: int| vis[r][c] || (abs(c - x) <= 1 && abs(r - y) <= 1)),
    )
}

/// The enemies' answer to the hero (see `enemy_attack_adjacent`), with
/// its notes: each blow, the fall of the hero, each shot.
#[verifier::opaque]
pub open spec fn enemy_answer(v: RogueView, plan: FloorPlan) -> (RogueView, Seq<TurnNote>) {
    let guarding = v.guard_timer > 0 && style_of(held(v.equipment)) == WeaponStyle::Sword;
    let def = def_bonus(v.equipment);
    let es = v.enemies;
    let n = es.len() as int;
    let hits = blows(es, n, v.px as int, v.py as int, def, guarding);
    let hp = hp_after_blows(es, n, v.px as int, v.py as int, def, guarding, v.no_damage, v.progress.hp as int);
    let mid = Seq::new(es.len(), |i: int| after_melee(es[i], v.px as int, v.py as int, v.scale));
    let shots = plan.shots(mid, n, v.px as int, v.py as int);
    let mark = AttackEffect { x: v.px, y: v.py, ttl: 10, max_ttl: 10, color: blow_color(v.no_damage, guarding) };
    (
        RogueView {
            enemies: Seq::new(
                es.len(),
                |i: int| after_volley(plan, mid[i], v.px as int, v.py as int, v.scale),
            ),
            effects: v.effects + (if in_grid(v.px as int, v.py as int, plan.map_width as int, plan.map_height as int) {
                Seq::new(hits.len(), |k: int| mark)
            } else {
                Seq::empty()
            }),
            numbers: v.numbers + Seq::new(hits.len(), |k: int| blow_number(v.px, v.py, hits[k].1, v.no_damage)),
            player_shake: if hits.len() > 0 { 5 } else { v.player_shake },
            progress: Progress { hp: hp as u32, ..v.progress },
            scene: if hp == 0 { RogueScene::GameOver } else { v.scene },
            ..v
        },
        Seq::new(hits.len(), |k: int| TurnNote::EnemyBlow(hits[k].0, hits[k].1)) + (if hp == 0 {
            seq![TurnNote::GameOver]
        } else {
            Seq::empty()
        }) + Seq::new(shots.len(), |k: int| TurnNote::EnemyShot(shots[k].0, shots[k].1)),
    )
}

/// A swing or thrust over `cells`: the marks shown, the blows dealt, the
/// hero shaking if any landed, the note of the attack, then the enemies'
/// answer.
pub open spec fn melee_turn(
    v: RogueView,
    plan: FloorPlan,
    cells: Seq<(i32, i32)>,
    color: &'static str,
    ttl: u32,
    damage: u32,
    note: TurnNote,
) -> (RogueView, Seq<TurnNote>) {
    let v1 = RogueView {
        effects: v.effects + marks_for(cells, plan.map_width as int, plan.map_height as int, ttl, color),
        ..v
    };
    let (h, hn, any) = hits_view(hit_of(v1), v.depth, cells, damage);
    let v2 = RogueView { player_shake: if any { 3 } else { v1.player_shake }, ..with_hits(v1, h) };
    let (v3, en) = enemy_answer(v2, plan);
    (v3, hn + seq![note] + en)
}

/// The hero's attack with the weapon held.
pub open spec fn attack_turn(v: RogueView, plan: FloorPlan) -> (RogueView, Seq<TurnNote>) {
    let atk = atk_bonus(v.equipment);
    let px = v.px as int;
    let py = v.py as int;
    match style_of(held(v.equipment)) {
        WeaponStyle::Sword => melee_turn(
            v,
            plan,
            cells32(sword_cells(px, py, v.dir)),
            "rgba(255, 235, 160, 0.90)",
            10,
            (10 + atk) as u32,
            TurnNote::Slash,
        ),
        WeaponStyle::Spear => melee_turn(
            v,
            plan,
            cells32(spear_cells(px, py, v.dir)),
            "rgba(80, 255, 255, 0.90)",
            8,
            (12 + atk) as u32,
            TurnNote::Thrust,
        ),
        WeaponStyle::Bow => {
            let t = flight(plan, px, py, v.dir);
            let (v1, en) = enemy_answer(v, plan);
            (v1, seq![TurnNote::Arrow(t.0 as i32, t.1 as i32, (5 + atk) as u32)] + en)
        },
        WeaponStyle::Staff => {
            if v.progress.mp < 3 {
                let (v1, en) = enemy_answer(v, plan);
                (v1, seq![TurnNote::NoMana] + en)
            } else {
                let t = flight(plan, px, py, v.dir);
                let v0 = RogueView { progress: Progress { mp: (v.progress.mp - 3) as u32, ..v.progress }, ..v };
                let (v1, en) = enemy_answer(v0, plan);
                (v1, seq![TurnNote::Spell(t.0 as i32, t.1 as i32, (10 + atk) as u32)] + en)
            }
        },
    }
}

/// The hero's blow at the enemy standing at (x, y), the enemies' answer,
/// and a look around.
#[verifier::opaque]
pub open spec fn strike_turn(v: RogueView, plan: FloorPlan, x: i32, y: i32) -> (RogueView, Seq<TurnNote>) {
    let (h, hn) = hit_view(hit_of(v), v.depth, x, y, 15);
    let (v3, en) = enemy_answer(with_hits(v, h), plan);
    (RogueView { visited: seen_from(v3.visited, v3.px as int, v3.py as int), ..v3 }, hn + en)
}

/// The hero's walk onto (x, y): the room entered is noted, the enemies
/// wander and answer, and the hero looks around.
#[verifier::opaque]
pub open spec fn walk_turn(v: RogueView, plan: FloorPlan, x: i32, y: i32) -> (RogueView, Seq<TurnNote>) {
    let v2 = RogueView { px: x, py: y, ..v };
    let r = room_at(plan.rooms@, x as int, y as int);
    let (v3, rn) = if r != v2.current_room {
        (
            RogueView { current_room: r, ..v2 },
            seq![
                match r {
                    Some(k) => TurnNote::EnteredRoom(k),
                    None => TurnNote::EnteredCorridor,
                },
            ],
        )
    } else {
        (v2, Seq::<TurnNote>::empty())
    };
    let v4 = RogueView { enemies: plan.wandered(v3.enemies, v3.enemies.len() as int, x as int, y as int), ..v3 };
    let (v5, en) = enemy_answer(v4, plan);
    (RogueView { visited: seen_from(v5.visited, v5.px as int, v5.py as int), ..v5 }, rn + en)
}

/// The hero's move towards `d` (three cells when dodging) and what follows
/// it: a blow at an enemy in the way, a bump, a hole or stairs (left to the
/// caller to carry out), or a walk.
pub open spec fn move_turn(v: RogueView, plan: FloorPlan, d: i32, dodge: bool) -> (RogueView, Seq<TurnNote>) {
    if !(0 <= d <= 3) {
        (v, Seq::empty())
    } else {
        let t = landing_cell(plan, v.px as int, v.py as int, d, dodge);
        let moved = t.0 != v.px || t.1 != v.py;
        let (v1, n1) = if dodge && moved {
            (RogueView { dodge_animation: 12, ..v }, seq![TurnNote::SpinDodge])
        } else {
            (v, Seq::<TurnNote>::empty())
        };
        let i = first_at(v1.enemies, v1.enemies.len() as int, t.0 as i32, t.1 as i32);
        if i < v1.enemies.len() {
            let (v2, n2) = strike_turn(v1, plan, t.0 as i32, t.1 as i32);
            (v2, n1 + n2)
        } else {
            match plan.landing(t.0, t.1, moved, v1.depth) {
                StepOutcome::Walk => {
                    let (v2, n2) = walk_turn(v1, plan, t.0 as i32, t.1 as i32);
                    (v2, n1 + n2)
                },
                StepOutcome::Fall => (
                    v1,
                    n1 + seq![
                        if v1.depth >= 30 {
                            TurnNote::NoFloorBelow
                        } else {
                            TurnNote::Fall
                        },
                    ],
                ),
                StepOutcome::Descend => (v1, n1 + seq![TurnNote::Descend]),
                StepOutcome::Ascend => (v1, n1 + seq![TurnNote::Ascend]),
                _ => (v1, n1 + seq![TurnNote::Bumped]),
            }
        }
    }
}

/// The hero's turn on key code `action`: nothing outside play; else the
/// action decoded by `action_of`, carried out.
pub open spec fn turn(v: RogueView, plan: FloorPlan, action: i32) -> (RogueView, Seq<TurnNote>) {
    if v.scene != RogueScene::Playing {
        (v, Seq::empty())
    } else {
        match action_of(action) {
            PlayerAction::SwitchWeapon(s) => if s < v.weapons.len() {
                (
                    RogueView { equipment: Equipment { weapon: Some(v.weapons[s as int]), ..v.equipment }, ..v },
                    seq![TurnNote::Switched(v.weapons[s as int])],
                )
            } else {
                (v, seq![TurnNote::NoSuchWeapon])
            },
            PlayerAction::Steer(d) => (RogueView { dir: d, ..v }, seq![TurnNote::Steer(d)]),
            PlayerAction::Guard => if style_of(held(v.equipment)) == WeaponStyle::Sword {
                (RogueView { guard_timer: 30, ..v }, seq![TurnNote::GuardUp])
            } else {
                (v, seq![TurnNote::GuardNeedsSword])
            },
            PlayerAction::Attack => attack_turn(v, plan),
            PlayerAction::Dodge => move_turn(v, plan, v.dir, true),
            PlayerAction::Step(d) => move_turn(RogueView { dir: d, ..v }, plan, d, false),
            PlayerAction::Face(d) => (RogueView { dir: d, ..v }, Seq::empty()),
        }
    }
}

/// The turn may defeat enemies (and so gain experience and drops): in play,
/// an attack (4), a dodge (5) or a step (0 to 3).
pub open spec fn may_fight(scene: RogueScene, action: i32) -> bool {
    scene == RogueScene::Playing && (action == 4 || action == 5 || 0 <= action <= 3)
}

/// A roguelike game: the floor in play, the hero and the enemies on it.
pub struct RoguelikeGame {
    pub scene: RogueScene,
    pub depth: u32,
    pub progress: Progress,
    pub player_x: i32,
    pub player_y: i32,
    pub player_direction: i32,
    pub enemies: Vec<RogueEnemy>,
    pub plan: FloorPlan,
    pub visited: Vec<Vec<bool>>,
    pub player_shake: u32,
    pub dodge_animation: u32,
    pub guard_timer: u32,
    pub enemy_shake: Vec<u32>,
    pub attack_effects: Vec<AttackEffect>,
    pub damage_numbers: Vec<DamageNumber>,
    pub enemy_attack_interval_scale: u32,
    pub no_damage_mode: bool,
    pub equipment: Equipment,
    pub current_room: Option<usize>,
    pub inventory: [u32; 8],
    pub eq_inventory: EquipmentInventory,
    pub floors: FloorCache,
}

impl View for RoguelikeGame {
    type V = RogueView;

    open spec fn view(&self) -> RogueView {
        RogueView {
            scene: self.scene,
            depth: self.depth,
            progress: self.progress,
            px: self.player_x,
            py: self.player_y,
            dir: self.player_direction,
            enemies: self.enemies@,
            visited: rows_view(self.visited@),
            player_shake: self.player_shake,
            dodge_animation: self.dodge_animation,
            guard_timer: self.guard_timer,
            shakes: self.enemy_shake@,
            effects: self.attack_effects@,
            numbers: self.damage_numbers@,
            scale: self.enemy_attack_interval_scale,
            no_damage: self.no_damage_mode,
            equipment: self.equipment,
            current_room: self.current_room,
            inventory: self.inventory@,
            weapons: self.eq_inventory.weapons@,
            armors: self.eq_inventory.armors@,
            accessories: self.eq_inventory.accessories@,
            floors: self.floors.view_of(),
        }
    }
}

/// An enemy the turn can handle: on the floor, with an attack and a
/// defence within bounds.
pub open spec fn enemy_ok(e: RogueEnemy, w: int, h: int) -> bool {
    in_grid(e.x as int, e.y as int, w, h) && e.atk <= 100000 && e.def <= i32::MAX && e.pursuit_timer < u32::MAX
}

pub open spec fn enemies_ok(es: Seq<RogueEnemy>, w: int, h: int) -> bool {
    forall|i: int| 0 <= i < es.len() ==> #[trigger] enemy_ok(es[i], w, h)
}

impl RoguelikeGame {
    /// The floor is well formed, the enemies stand on it with bounded
    /// stats and a shake each, the map of seen cells matches the floor,
    /// the hero stands on it, and the attack pace is bounded.
    pub open spec fn wf(&self) -> bool {
        let w = self.plan.map_width as int;
        let h = self.plan.map_height as int;
        &&& self.plan.wf()
        &&& enemies_ok(self.enemies@, w, h)
        &&& self.enemy_shake@.len() == self.enemies@.len()
        &&& grid_bool(self.visited@, w, h)
        &&& in_grid(self.player_x as int, self.player_y as int, w, h)
        &&& self.enemy_attack_interval_scale <= 10000000
    }

    /// The enemies answer the hero (see `enemy_answer`).
    fn answer(&mut self) -> (notes: Vec<TurnNote>)
        requires
            old(self).wf(),
        ensures
            final(self).wf(),
            final(self).plan == old(self).plan,
            (final(self)@, notes@) == enemy_answer(old(self)@, old(self).plan),
    {
        reveal(enemy_answer);
        let ghost v = self@;
        let guarding = self.guard_timer > 0 && crate::roguelike::weapon_style(
            match self.equipment.weapon {
                Some(w) => w,
                None => WeaponType::WoodenSword,
            },
        ) == WeaponStyle::Sword;
        let def = self.equipment.get_def_bonus();
        proof {
            assert forall|i: int| 0 <= i < self.enemies@.len() implies #[trigger] self.enemies@[i].atk <= 100000
                && -100000 <= self.enemies@[i].x <= 100000 && -100000 <= self.enemies@[i].y <= 100000 by {
                assert(enemy_ok(self.enemies@[i], self.plan.map_width as int, self.plan.map_height as int));
            }
        }
        let (hits, shots) = enemy_attack_adjacent(
            &self.plan,
            &mut self.enemies,
            &mut self.attack_effects,
            &mut self.damage_numbers,
            &mut self.player_shake,
            &mut self.progress.hp,
            &mut self.scene,
            self.player_x,
            self.player_y,
            def,
            guarding,
            self.no_damage_mode,
            self.enemy_attack_interval_scale,
        );
        let mut notes: Vec<TurnNote> = Vec::new();
        let mut k: usize = 0;
        while k < hits.len()
            invariant
                k <= hits@.len(),
                notes@ == Seq::new(k as nat, |j: int| TurnNote::EnemyBlow(hits@[j].0, hits@[j].1)),
            decreases hits@.len() - k,
        {
            let (i, d) = hits[k];
            notes.push(TurnNote::EnemyBlow(i, d));
            proof {
                assert(notes@ =~= Seq::new((k + 1) as nat, |j: int| TurnNote::EnemyBlow(hits@[j].0, hits@[j].1)));
            }
            k = k + 1;
        }
        let ghost blow_notes = notes@;
        if self.progress.hp == 0 {
            notes.push(TurnNote::GameOver);
        }
        let ghost mid_notes = notes@;
        let mut k: usize = 0;
        while k < shots.len()
            invariant
                k <= shots@.len(),
                notes@ == mid_notes + Seq::new(k as nat, |j: int| TurnNote::EnemyShot(shots@[j].0, shots@[j].1)),
            decreases shots@.len() - k,
        {
            let (i, d) = shots[k];
            notes.push(TurnNote::EnemyShot(i, d));
            proof {
                assert(notes@ =~= mid_notes + Seq::new((k + 1) as nat, |j: int| TurnNote::EnemyShot(shots@[j].0, shots@[j].1)));
            }
            k = k + 1;
        }
        proof {
            let (ev, en) = enemy_answer(v, self.plan);
            assert(self.enemies@ =~= ev.enemies);
            assert(self@ == ev);
            assert(notes@ =~= en);
            assert forall|i: int| 0 <= i < self.enemies@.len() implies #[trigger] enemy_ok(
                self.enemies@[i],
                self.plan.map_width as int,
                self.plan.map_height as int,
            ) by {
                assert(enemy_ok(v.enemies[i], self.plan.map_width as int, self.plan.map_height as int));
            }
        }
        notes
    }
}

impl RoguelikeGame {
    /// The hero looks around: the cells next to the hero count as seen.
    fn look_around(&mut self)
        requires
            old(self).wf(),
        ensures
            final(self).wf(),
            final(self).plan == old(self).plan,
            final(self).floors == old(self).floors,
            final(self)@ == (RogueView {
                visited: seen_from(old(self)@.visited, old(self).player_x as int, old(self).player_y as int),
                ..old(self)@
            }),
    {
        let ghost v = self@;
        let ghost old_rows = self.visited@;
        self.plan.mark_visible(&mut self.visited, self.player_x, self.player_y);
        proof {
            let w = self.plan.map_width as int;
            let h = self.plan.map_height as int;
            let target = seen_from(v.visited, self.player_x as int, self.player_y as int);
            assert forall|r: int| 0 <= r < h implies #[trigger] rows_view(self.visited@)[r] =~= target[r] by {
                assert(old_rows[r]@.len() == w);
                assert(self.visited@[r]@.len() == w);
                assert forall|c: int| 0 <= c < w implies #[trigger] self.visited@[r]@[c] == target[r][c] by {
                    assert(in_grid(c, r, w, h));
                }
            }
            assert(rows_view(self.visited@) =~= target);
        }
    }
}

/// Blows keep the enemies on the floor with their stats, one shake each.
proof fn lemma_hits_keep(v: HitView, depth: u32, cells: Seq<(i32, i32)>, damage: u32, w: int, h: int)
    requires
        enemies_ok(v.enemies, w, h),
        v.shakes.len() == v.enemies.len(),
    ensures
        enemies_ok(hits_view(v, depth, cells, damage).0.enemies, w, h),
        hits_view(v, depth, cells, damage).0.shakes.len() == hits_view(v, depth, cells, damage).0.enemies.len(),
    decreases cells.len(),
{
    reveal(hit_view);
    if cells.len() > 0 {
        lemma_hits_keep(v, depth, cells.drop_last(), damage, w, h);
        let v1 = hits_view(v, depth, cells.drop_last(), damage).0;
        let c = cells.last();
        let i = first_at(v1.enemies, v1.enemies.len() as int, c.0, c.1);
        lemma_first_at(v1.enemies, v1.enemies.len() as int, c.0, c.1);
        let v2 = hit_view(v1, depth, c.0, c.1, damage).0;
        if i < v1.enemies.len() {
            assert forall|j: int| 0 <= j < v2.enemies.len() implies #[trigger] enemy_ok(v2.enemies[j], w, h) by {
                if j < i {
                    assert(v2.enemies[j] == v1.enemies[j]);
                } else if v2.enemies.len() < v1.enemies.len() {
                    assert(v2.enemies[j] == v1.enemies[j + 1]);
                } else {
                    assert(enemy_ok(v1.enemies[j], w, h));
                }
            }
        }
    }
}

impl RoguelikeGame {
    /// A swing or thrust over `cells` (see `melee_turn`).
    fn melee(&mut self, cells: Vec<(i32, i32)>, color: &'static str, ttl: u32, damage: u32, note: TurnNote) -> (notes: Vec<TurnNote>)
        requires
            old(self).wf(),
            cells@.len() <= 5,
            damage <= i32::MAX,
            growth_room(old(self).progress, 5),
            pack_room(old(self).inventory@, 5),
        ensures
            final(self).wf(),
            final(self).plan == old(self).plan,
            (final(self)@, notes@) == melee_turn(old(self)@, old(self).plan, cells@, color, ttl, damage, note),
    {
        let ghost v = self@;
        let w = self.plan.map_width;
        let h = self.plan.map_height;
        push_attack_effects(&mut self.attack_effects, &cells, w, h, ttl, color);
        let ghost v1 = self@;
        proof {
            assert(growth_room(self.progress, cells@.len() as int)) by {
                assert((self.progress.exp + 500 * cells@.len()) / 50 <= (self.progress.exp + 500 * 5) / 50) by (nonlinear_arith)
                    requires
                        cells@.len() <= 5,
                ;
            }
            assert forall|i: int| 0 <= i < self.enemies@.len() implies #[trigger] self.enemies@[i].def <= i32::MAX by {
                assert(enemy_ok(self.enemies@[i], w as int, h as int));
            }
            lemma_hits_keep(hit_of(v1), self.depth, cells@, damage, w as int, h as int);
        }
        let (mut notes, any) = strike_cells(
            &mut self.enemies,
            &mut self.enemy_shake,
            &mut self.damage_numbers,
            &mut self.progress,
            &mut self.inventory,
            &mut self.eq_inventory,
            self.depth,
            &cells,
            damage,
        );
        if any {
            self.player_shake = 3;
        }
        notes.push(note);
        let ghost v2 = self@;
        proof {
            let (hv, hn, a) = hits_view(hit_of(v1), v.depth, cells@, damage);
            assert(v2 == RogueView { player_shake: if a { 3 } else { v1.player_shake }, ..with_hits(v1, hv) });
        }
        let mut rest = self.answer();
        notes.append(&mut rest);
        notes
    }
}

/// An arrow's flight has one end.
proof fn lemma_flight(plan: FloorPlan, x: int, y: int, dir: i32, k: int)
    requires
        plan.flies_to(x, y, dir, k),
    ensures
        flight(plan, x, y, dir) == ray(x, y, dir, k),
{
    let k2 = choose|k2: int| plan.flies_to(x, y, dir, k2);
    assert(plan.flies_to(x, y, dir, k2));
    if k2 < k {
        assert(plan.open(ray(x, y, dir, k2 + 1).0, ray(x, y, dir, k2 + 1).1));
    } else if k < k2 {
        assert(plan.open(ray(x, y, dir, k + 1).0, ray(x, y, dir, k + 1).1));
    }
}

/// A move has one run: how far it gets and its last walkable cell.
proof fn lemma_landing(plan: FloorPlan, x: int, y: int, dir: i32, dodge: bool, k: int, m: int)
    requires
        plan.move_run(x, y, dir, move_steps(dodge), k, m),
    ensures
        landing_cell(plan, x, y, dir, dodge) == (if dodge && plan.pit(ray(x, y, dir, k).0, ray(x, y, dir, k).1) {
            ray(x, y, dir, m)
        } else {
            ray(x, y, dir, k)
        }),
{
    let steps = move_steps(dodge);
    let (k2, m2) = choose|k2: int, m2: int| plan.move_run(x, y, dir, steps, k2, m2);
    assert(plan.move_run(x, y, dir, steps, k2, m2));
    if k2 < k {
        assert(plan.passable(ray(x, y, dir, k2 + 1).0, ray(x, y, dir, k2 + 1).1));
    } else if k < k2 {
        assert(plan.passable(ray(x, y, dir, k + 1).0, ray(x, y, dir, k + 1).1));
    }
    assert(k == k2);
    if m2 < m {
        assert(plan.walkable(ray(x, y, dir, m).0, ray(x, y, dir, m).1));
    } else if m < m2 {
        assert(plan.walkable(ray(x, y, dir, m2).0, ray(x, y, dir, m2).1));
    }
}

proof fn lemma_first_room(rooms: Seq<Room>, n: int, x: int, y: int)
    requires
        0 <= n <= rooms.len(),
    ensures
        0 <= first_room(rooms, n, x, y) <= n,
        forall|j: int| 0 <= j < first_room(rooms, n, x, y) ==> !in_room(#[trigger] rooms[j], x, y),
        first_room(rooms, n, x, y) < n ==> in_room(rooms[first_room(rooms, n, x, y)], x, y),
    decreases n,
{
    if n > 0 {
        lemma_first_room(rooms, n - 1, x, y);
    }
}

/// Arrows and spells need one of the four directions to fly along.
pub open spec fn aims(v: RogueView) -> bool {
    let style = style_of(held(v.equipment));
    (style == WeaponStyle::Bow || (style == WeaponStyle::Staff && v.progress.mp >= 3)) ==> 0 <= v.dir <= 3
}

proof fn lemma_cells32(r: Seq<(i32, i32)>, s: Seq<(int, int)>)
    requires
        cells_view(r) == s,
    ensures
        r == cells32(s),
{
    assert(r =~= cells32(s)) by {
        assert forall|k: int| 0 <= k < r.len() implies #[trigger] r[k] == cells32(s)[k] by {
            assert(s[k] == cells_view(r)[k]);
        }
    }
}

impl RoguelikeGame {
    /// The hero attacks with the weapon held (see `attack_turn`).
    fn attack(&mut self) -> (notes: Vec<TurnNote>)
        requires
            old(self).wf(),
            growth_room(old(self).progress, 5),
            pack_room(old(self).inventory@, 5),
            aims(old(self)@),
        ensures
            final(self).wf(),
            final(self).plan == old(self).plan,
            (final(self)@, notes@) == attack_turn(old(self)@, old(self).plan),
    {
        let ghost v = self@;
        let weapon = match self.equipment.weapon {
            Some(w) => w,
            None => WeaponType::WoodenSword,
        };
        let style = crate::roguelike::weapon_style(weapon);
        let atk = self.equipment.get_atk_bonus();
        let px = self.player_x;
        let py = self.player_y;
        let dir = self.player_direction;
        match style {
            WeaponStyle::Sword => {
                let cells = sword_attack_cells(px, py, dir);
                proof {
                    lemma_cells32(cells@, sword_cells(px as int, py as int, dir));
                }
                self.melee(cells, "rgba(255, 235, 160, 0.90)", 10, 10 + atk, TurnNote::Slash)
            },
            WeaponStyle::Spear => {
                let cells = spear_attack_cells(px, py, dir);
                proof {
                    lemma_cells32(cells@, spear_cells(px as int, py as int, dir));
                }
                self.melee(cells, "rgba(80, 255, 255, 0.90)", 8, 12 + atk, TurnNote::Thrust)
            },
            WeaponStyle::Bow => {
                let t = self.plan.bow_target(px, py, dir);
                proof {
                    let k = choose|k: int| #[trigger] self.plan.flies_to(px as int, py as int, dir, k) && (t.0 as int, t.1 as int) == ray(px as int, py as int, dir, k);
                    lemma_flight(self.plan, px as int, py as int, dir, k);
                }
                let mut notes = vec![TurnNote::Arrow(t.0, t.1, 5 + atk)];
                let mut rest = self.answer();
                notes.append(&mut rest);
                notes
            },
            WeaponStyle::Staff => {
                if self.progress.mp < 3 {
                    let mut notes = vec![TurnNote::NoMana];
                    let mut rest = self.answer();
                    notes.append(&mut rest);
                    notes
                } else {
                    let t = self.plan.bow_target(px, py, dir);
                    proof {
                        let k = choose|k: int| #[trigger] self.plan.flies_to(px as int, py as int, dir, k) && (t.0 as int, t.1 as int) == ray(px as int, py as int, dir, k);
                        lemma_flight(self.plan, px as int, py as int, dir, k);
                    }
                    self.progress.mp = self.progress.mp - 3;
                    let mut notes = vec![TurnNote::Spell(t.0, t.1, 10 + atk)];
                    let mut rest = self.answer();
                    notes.append(&mut rest);
                    notes
                }
            },
        }
    }
}

/// Wandering moves enemies and nothing else about them.
proof fn lemma_wandered_keeps(plan: FloorPlan, es: Seq<RogueEnemy>, n: int, px: int, py: int)
    requires
        0 <= n <= es.len(),
    ensures
        plan.wandered(es, n, px, py).len() == es.len(),
        forall|i: int| 0 <= i < es.len() ==> (#[trigger] plan.wandered(es, n, px, py)[i]).atk == es[i].atk
            && plan.wandered(es, n, px, py)[i].def == es[i].def
            && plan.wandered(es, n, px, py)[i].pursuit_timer == es[i].pursuit_timer,
    decreases n,
{
    if n > 0 {
        lemma_wandered_keeps(plan, es, n - 1, px, py);
    }
}

impl RoguelikeGame {
    /// The hero strikes the enemy at (x, y) (see `strike_turn`).
    fn strike_at_cell(&mut self, x: i32, y: i32) -> (notes: Vec<TurnNote>)
        requires
            old(self).wf(),
            growth_room(old(self).progress, 5),
            pack_room(old(self).inventory@, 5),
        ensures
            final(self).wf(),
            final(self).plan == old(self).plan,
            (final(self)@, notes@) == strike_turn(old(self)@, old(self).plan, x, y),
    {
        reveal(strike_turn);
        reveal_with_fuel(hits_view, 2);
        let ghost v1 = self@;
        let cells = vec![(x, y)];
        proof {
            assert(growth_room(self.progress, 1)) by {
                assert((self.progress.exp + 500 * 1) / 50 <= (self.progress.exp + 500 * 5) / 50) by (nonlinear_arith);
            }
            assert forall|j: int| 0 <= j < self.enemies@.len() implies #[trigger] self.enemies@[j].def <= i32::MAX by {
                assert(enemy_ok(self.enemies@[j], self.plan.map_width as int, self.plan.map_height as int));
            }
            assert(cells@.drop_last() =~= Seq::<(i32, i32)>::empty());
            assert(cells@.last() == (x, y));
            lemma_hits_keep(hit_of(v1), self.depth, cells@, 15, self.plan.map_width as int, self.plan.map_height as int);
            let (hv, hn) = hit_view(hit_of(v1), v1.depth, x, y, 15);
            assert(hits_view(hit_of(v1), v1.depth, cells@, 15).0 == hv);
            assert(hits_view(hit_of(v1), v1.depth, cells@, 15).1 =~= hn);
        }
        let (mut notes, _) = strike_cells(
            &mut self.enemies,
            &mut self.enemy_shake,
            &mut self.damage_numbers,
            &mut self.progress,
            &mut self.inventory,
            &mut self.eq_inventory,
            self.depth,
            &cells,
            15,
        );
        let mut rest = self.answer();
        notes.append(&mut rest);
        self.look_around();
        notes
    }

    /// The hero walks onto (x, y) (see `walk_turn`).
    fn walk_to(&mut self, x: i32, y: i32) -> (notes: Vec<TurnNote>)
        requires
            old(self).wf(),
            old(self).plan.walkable(x as int, y as int),
        ensures
            final(self).wf(),
            final(self).plan == old(self).plan,
            (final(self)@, notes@) == walk_turn(old(self)@, old(self).plan, x, y),
    {
        reveal(walk_turn);
        self.player_x = x;
        self.player_y = y;
        let mut notes: Vec<TurnNote> = Vec::new();
        let r = self.plan.get_room_at(x, y);
        proof {
            lemma_first_room(self.plan.rooms@, self.plan.rooms@.len() as int, x as int, y as int);
            let f = first_room(self.plan.rooms@, self.plan.rooms@.len() as int, x as int, y as int);
            match r {
                Some(i) => {
                    if f < i {
                        assert(in_room(self.plan.rooms@[f], x as int, y as int));
                    } else if f > i {
                        assert(!in_room(self.plan.rooms@[i as int], x as int, y as int));
                    }
                },
                None => {
                    if f < self.plan.rooms@.len() {
                        assert(in_room(self.plan.rooms@[f], x as int, y as int));
                    }
                },
            }
            assert(r == room_at(self.plan.rooms@, x as int, y as int));
        }
        let same = match (r, self.current_room) {
            (Some(a), Some(b)) => a == b,
            (None, None) => true,
            _ => false,
        };
        if !same {
            notes.push(
                match r {
                    Some(k) => TurnNote::EnteredRoom(k),
                    None => TurnNote::EnteredCorridor,
                },
            );
            self.current_room = r;
        }
        proof {
            assert forall|j: int| 0 <= j < self.enemies@.len() implies #[trigger] in_grid(
                self.enemies@[j].x as int,
                self.enemies@[j].y as int,
                self.plan.map_width as int,
                self.plan.map_height as int,
            ) by {
                assert(enemy_ok(self.enemies@[j], self.plan.map_width as int, self.plan.map_height as int));
            }
        }
        let ghost before = self.enemies@;
        let ghost v3 = self@;
        proof {
            let v = old(self)@;
            let v2 = RogueView { px: x, py: y, ..v };
            let rr = room_at(self.plan.rooms@, x as int, y as int);
            if rr != v2.current_room {
                assert(v3 =~= RogueView { current_room: rr, ..v2 });
                assert(notes@ =~= seq![
                    match rr {
                        Some(k) => TurnNote::EnteredRoom(k),
                        None => TurnNote::EnteredCorridor,
                    },
                ]);
            } else {
                assert(v3 =~= v2);
                assert(notes@ =~= Seq::<TurnNote>::empty());
            }
        }
        self.plan.wander_enemies(&mut self.enemies, x, y);
        proof {
            assert(self@ =~= RogueView {
                enemies: self.plan.wandered(v3.enemies, v3.enemies.len() as int, x as int, y as int),
                ..v3
            });
            lemma_wandered_keeps(self.plan, before, before.len() as int, x as int, y as int);
            assert forall|j: int| 0 <= j < self.enemies@.len() implies #[trigger] enemy_ok(
                self.enemies@[j],
                self.plan.map_width as int,
                self.plan.map_height as int,
            ) by {
                assert(enemy_ok(before[j], self.plan.map_width as int, self.plan.map_height as int));
            }
        }
        let mut rest = self.answer();
        notes.append(&mut rest);
        self.look_around();
        notes
    }

    /// The hero moves towards `d`, three cells when dodging (see
    /// `move_turn`).
    fn step(&mut self, d: i32, dodge: bool) -> (notes: Vec<TurnNote>)
        requires
            old(self).wf(),
            growth_room(old(self).progress, 5),
            pack_room(old(self).inventory@, 5),
        ensures
            final(self).wf(),
            final(self).plan == old(self).plan,
            (final(self)@, notes@) == move_turn(old(self)@, old(self).plan, d, dodge),
    {
        if !(0 <= d && d <= 3) {
            return Vec::new();
        }
        let px = self.player_x;
        let py = self.player_y;
        let (nx, ny) = self.plan.resolve_move(px, py, d, dodge);
        proof {
            let (k, m) = choose|k: int, m: int|
                #[trigger] self.plan.move_run(px as int, py as int, d, move_steps(dodge), k, m) && (nx as int, ny as int)
                    == (if dodge && self.plan.pit(ray(px as int, py as int, d, k).0, ray(px as int, py as int, d, k).1) {
                    ray(px as int, py as int, d, m)
                } else {
                    ray(px as int, py as int, d, k)
                });
            lemma_landing(self.plan, px as int, py as int, d, dodge, k, m);
        }
        let moved = nx != px || ny != py;
        let mut notes: Vec<TurnNote> = Vec::new();
        if dodge && moved {
            self.dodge_animation = 12;
            notes.push(TurnNote::SpinDodge);
        }
        proof {
            lemma_first_at(self.enemies@, self.enemies@.len() as int, nx, ny);
        }
        let outcome = self.plan.step_outcome(&self.enemies, nx, ny, moved, self.depth);
        proof {
            let f = first_at(self.enemies@, self.enemies@.len() as int, nx, ny);
            match outcome {
                StepOutcome::Strike(i) => {
                    if f < i {
                        assert(crate::rogue_turn::enemy_at(self.enemies@, f, nx as int, ny as int));
                    } else if f > i {
                        assert(!(self.enemies@[i as int].x == nx && self.enemies@[i as int].y == ny));
                    }
                },
                _ => {
                    if f < self.enemies@.len() {
                        assert(!crate::rogue_turn::enemy_at(self.enemies@, f, nx as int, ny as int));
                    }
                },
            }
        }
        match outcome {
            StepOutcome::Strike(_) => {
                let mut more = self.strike_at_cell(nx, ny);
                notes.append(&mut more);
            },
            StepOutcome::Walk => {
                let mut more = self.walk_to(nx, ny);
                notes.append(&mut more);
            },
            StepOutcome::Fall => {
                if self.depth >= 30 {
                    notes.push(TurnNote::NoFloorBelow);
                } else {
                    notes.push(TurnNote::Fall);
                }
            },
            StepOutcome::Descend => {
                notes.push(TurnNote::Descend);
            },
            StepOutcome::Ascend => {
                notes.push(TurnNote::Ascend);
            },
            StepOutcome::Bump => {
                notes.push(TurnNote::Bumped);
            },
        }
        notes
    }
}

impl RoguelikeGame {
    /// A game at its title: the first floor laid out, nothing seen, the
    /// hero a new one with the starting weapons (wooden sword, spear, bow,
    /// staff), in the relaxed practice setting (attacks ten times slower,
    /// no damage taken), and no enemies yet.
    pub fn new() -> (g: Self)
        ensures
            g.wf(),
            g.scene == RogueScene::Title,
            g.depth == 1,
            g.progress == (Progress { level: 1, exp: 0, next_level_exp: 100, hp: 50, max_hp: 50, mp: 30, max_mp: 30 }),
            g.player_x == 0 && g.player_y == 0 && g.player_direction == 2,
            g.enemies@.len() == 0,
            g.plan.map_width == 120 && g.plan.map_height == 80,
            forall|x: int, y: int| 0 <= x < 120 && 0 <= y < 80 ==> !#[trigger] g.visited@[y]@[x],
            g.enemy_attack_interval_scale == 1000,
            g.no_damage_mode,
            g.equipment.weapon == Some(WeaponType::WoodenSword) && g.equipment.armor.is_none() && g.equipment.accessory.is_none(),
            g.current_room.is_none(),
            g.inventory@ == seq![0u32, 0, 0, 0, 0, 0, 0, 0],
            g.eq_inventory.weapons@ == seq![WeaponType::WoodenSword, WeaponType::Spear, WeaponType::Bow, WeaponType::Staff],
            g.eq_inventory.armors@.len() == 0 && g.eq_inventory.accessories@.len() == 0,
            g.attack_effects@.len() == 0 && g.damage_numbers@.len() == 0 && g.enemy_shake@.len() == 0,
            g.player_shake == 0 && g.dodge_animation == 0 && g.guard_timer == 0,
            g.floors.floors@.len() == 31,
            forall|d: int| 0 <= d < 31 ==> #[trigger] g.floors.view_of()[d] is None,
            g.keeps_floors(),
    {
        let plan = FloorPlan::generate(1);
        let visited = unseen_grid(plan.map_width as usize, plan.map_height as usize);
        let g = RoguelikeGame {
            scene: RogueScene::Title,
            depth: 1,
            progress: Progress::new(),
            player_x: 0,
            player_y: 0,
            player_direction: 2,
            enemies: Vec::new(),
            plan,
            visited,
            player_shake: 0,
            dodge_animation: 0,
            guard_timer: 0,
            enemy_shake: Vec::new(),
            attack_effects: Vec::new(),
            damage_numbers: Vec::new(),
            enemy_attack_interval_scale: 1000,
            no_damage_mode: true,
            equipment: Equipment::new(),
            current_room: None,
            inventory: [0u32; 8],
            eq_inventory: EquipmentInventory {
                weapons: vec![WeaponType::WoodenSword, WeaponType::Spear, WeaponType::Bow, WeaponType::Staff],
                armors: Vec::new(),
                accessories: Vec::new(),
            },
            floors: FloorCache::new(),
        };
        proof {
            assert(g.inventory@ =~= seq![0u32, 0, 0, 0, 0, 0, 0, 0]);
            assert forall|i: int| 0 <= i < g.plan.rooms@.len() implies room_ok(
                #[trigger] g.plan.rooms@[i],
                g.plan.map_width as int,
                g.plan.map_height as int,
            ) by {
                assert(rooms_ok(g.plan.rooms@, g.plan.map_width as int, g.plan.map_height as int));
            }
        }
        g
    }

    /// Whether the hero's growth leaves room for `k` more defeats (see
    /// `growth_room`).
    pub fn growth_fits(&self, k: u32) -> (r: bool)
        requires
            k <= 5,
        ensures
            r == growth_room(self.progress, k as int),
    {
        let p = self.progress;
        let e: u64 = p.exp as u64 + 500 * k as u64;
        let levels: u64 = e / 50;
        1 <= p.level && p.next_level_exp >= 50 && e <= 0xffff_ffff && p.level as u64 + levels <= MAX_LEVEL as u64
            && p.max_hp as u64 + 10 * levels <= 0xffff_ffff && p.max_mp as u64 + 5 * levels <= 0xffff_ffff
    }

    /// Whether every pack slot can take `k` more drops (see `pack_room`).
    pub fn pack_fits(&self, k: u32) -> (r: bool)
        requires
            k <= 5,
        ensures
            r == pack_room(self.inventory@, k as int),
    {
        let mut j: usize = 0;
        while j < 8
            invariant
                j <= 8,
                k <= 5,
                forall|q: int| 0 <= q < j ==> #[trigger] self.inventory@[q] + 5 * k <= u32::MAX,
            decreases 8 - j,
        {
            if self.inventory[j] as u64 + 5 * k as u64 > 0xffff_ffff {
                return false;
            }
            j = j + 1;
        }
        true
    }

    /// Whether the hero's turn on `action` stays within the integers: a turn
    /// that may defeat enemies needs room for five defeats and drops, and a
    /// shot in play needs a direction.
    pub fn turn_fits(&self, action: i32) -> (r: bool)
        ensures
            r == ((may_fight(self.scene, action) ==> growth_room(self.progress, 5) && pack_room(self.inventory@, 5))
                && (self.scene == RogueScene::Playing && action == 4 ==> aims(self@))),
    {
        let playing = self.scene == RogueScene::Playing;
        let fights = playing && (action == 4 || action == 5 || (0 <= action && action <= 3));
        let room = !fights || (self.growth_fits(5) && self.pack_fits(5));
        let aimed = !(playing && action == 4) || self.can_aim();
        room && aimed
    }

    /// Whether a shot can be aimed: a bow, or a staff with the magic for a
    /// spell, needs the hero to face one of the four directions (see
    /// `aims`). Facing none, the flight would never advance and the shot
    /// never land.
    pub fn can_aim(&self) -> (r: bool)
        ensures
            r == aims(self@),
    {
        let weapon = match self.equipment.weapon {
            Some(w) => w,
            None => WeaponType::WoodenSword,
        };
        let style = crate::roguelike::weapon_style(weapon);
        let shoots = style == WeaponStyle::Bow || (style == WeaponStyle::Staff && self.progress.mp >= 3);
        !shoots || (0 <= self.player_direction && self.player_direction <= 3)
    }

    /// The hero's turn on key code `action` (see `turn`): outside play
    /// nothing happens; otherwise the weapon is switched, the spell
    /// steered, a guard raised, an attack made or a move taken, and the
    /// enemies answer where the turn says so. Holes and stairs are noted
    /// (`Fall`, `Descend`, `Ascend`) and left to the caller to take.
    pub fn move_player(&mut self, action: i32) -> (notes: Vec<TurnNote>)
        requires
            old(self).wf(),
            may_fight(old(self).scene, action) ==> growth_room(old(self).progress, 5) && pack_room(
                old(self).inventory@,
                5,
            ),
            old(self).scene == RogueScene::Playing && action == 4 ==> aims(old(self)@),
        ensures
            final(self).wf(),
            final(self).plan == old(self).plan,
            (final(self)@, notes@) == turn(old(self)@, old(self).plan, action),
    {
        if self.scene != RogueScene::Playing {
            return Vec::new();
        }
        match decode_action(action) {
            PlayerAction::SwitchWeapon(slot) => {
                if self.equipment.equip_weapon(&self.eq_inventory, slot) {
                    let w = self.eq_inventory.weapons[slot];
                    vec![TurnNote::Switched(w)]
                } else {
                    vec![TurnNote::NoSuchWeapon]
                }
            },
            PlayerAction::Steer(d) => {
                self.player_direction = d;
                vec![TurnNote::Steer(d)]
            },
            PlayerAction::Guard => {
                let w = match self.equipment.weapon {
                    Some(w) => w,
                    None => WeaponType::WoodenSword,
                };
                if crate::roguelike::weapon_style(w) == WeaponStyle::Sword {
                    self.guard_timer = 30;
                    vec![TurnNote::GuardUp]
                } else {
                    vec![TurnNote::GuardNeedsSword]
                }
            },
            PlayerAction::Attack => self.attack(),
            PlayerAction::Dodge => {
                let d = self.player_direction;
                self.step(d, true)
            },
            PlayerAction::Step(d) => {
                self.player_direction = d;
                self.step(d, false)
            },
            PlayerAction::Face(d) => {
                self.player_direction = d;
                Vec::new()
            },
        }
    }
}

/// One less, never below zero.
pub open spec fn dec(t: u32) -> u32 {
    if t > 0 {
        (t - 1) as u32
    } else {
        0
    }
}

/// Every shake one frame on.
pub fn fade_shakes(shakes: &mut Vec<u32>)
    ensures
        final(shakes)@ == old(shakes)@.map_values(|t: u32| dec(t)),
{
    let ghost s = shakes@;
    let mut i: usize = 0;
    while i < shakes.len()
        invariant
            shakes@.len() == s.len(),
            i <= s.len(),
            forall|k: int| i <= k < s.len() ==> #[trigger] shakes@[k] == s[k],
            forall|k: int| 0 <= k < i ==> #[trigger] shakes@[k] == dec(s[k]),
        decreases s.len() - i,
    {
        let t = shakes[i];
        if t > 0 {
            shakes.set(i, t - 1);
        }
        i = i + 1;
    }
    proof {
        assert(shakes@ =~= s.map_values(|t: u32| dec(t)));
    }
}

/// Pursuit moves enemies and runs their timers, and nothing else about
/// them; a timer it leaves is either below sixty or as it was.
proof fn lemma_pursued_keeps(plan: FloorPlan, es: Seq<RogueEnemy>, n: int, px: int, py: int)
    requires
        0 <= n <= es.len(),
    ensures
        plan.pursued(es, n, px, py).len() == es.len(),
        forall|i: int| 0 <= i < es.len() ==> {
            let e = #[trigger] plan.pursued(es, n, px, py)[i];
            &&& e.atk == es[i].atk
            &&& e.def == es[i].def
            &&& (e.pursuit_timer < 60 || e.pursuit_timer == es[i].pursuit_timer)
        },
    decreases n,
{
    if n > 0 {
        lemma_pursued_keeps(plan, es, n - 1, px, py);
    }
}

/// One frame of the game loop for the enemies: they pursue the hero,
/// answer, and every timer runs down a frame (shakes, cooldowns, the
/// dodge, the guard, the marks and the numbers, which go once spent).
pub open spec fn frame_turn(v: RogueView, plan: FloorPlan) -> (RogueView, Seq<TurnNote>) {
    let v1 = RogueView { enemies: plan.pursued(v.enemies, v.enemies.len() as int, v.px as int, v.py as int), ..v };
    let (v2, en) = enemy_answer(v1, plan);
    (
        RogueView {
            player_shake: dec(v2.player_shake),
            enemies: v2.enemies.map_values(|e: RogueEnemy| RogueEnemy { attack_cooldown: dec(e.attack_cooldown), ..e }),
            dodge_animation: dec(v2.dodge_animation),
            guard_timer: dec(v2.guard_timer),
            shakes: v2.shakes.map_values(|t: u32| dec(t)),
            effects: aged_effects(v2.effects),
            numbers: aged_numbers(v2.numbers),
            ..v2
        },
        en,
    )
}

impl RoguelikeGame {
    /// One frame of the enemies (see `frame_turn`).
    pub fn enemy_frame(&mut self) -> (notes: Vec<TurnNote>)
        requires
            old(self).wf(),
        ensures
            final(self).wf(),
            final(self).plan == old(self).plan,
            (final(self)@, notes@) == frame_turn(old(self)@, old(self).plan),
    {
        let ghost v = self@;
        proof {
            assert forall|j: int| 0 <= j < self.enemies@.len() implies #[trigger] in_grid(
                self.enemies@[j].x as int,
                self.enemies@[j].y as int,
                self.plan.map_width as int,
                self.plan.map_height as int,
) by {
                assert(enemy_ok(self.enemies@[j], self.plan.map_width as int, self.plan.map_height as int));
            }
            assert forall|j: int| 0 <= j < self.enemies@.len() implies #[trigger] self.enemies@[j].pursuit_timer
                < u32::MAX by {
                assert(enemy_ok(self.enemies@[j], self.plan.map_width as int, self.plan.map_height as int));
            }
        }
        let ghost before = self.enemies@;
        self.plan.pursue_enemies(&mut self.enemies, self.player_x, self.player_y);
        proof {
            lemma_pursued_keeps(self.plan, before, before.len() as int, v.px as int, v.py as int);
            assert forall|j: int| 0 <= j < self.enemies@.len() implies #[trigger] enemy_ok(
                self.enemies@[j],
                self.plan.map_width as int,
                self.plan.map_height as int,
            ) by {
                assert(enemy_ok(before[j], self.plan.map_width as int, self.plan.map_height as int));
            }
            assert(self@ =~= RogueView {
                enemies: self.plan.pursued(v.enemies, v.enemies.len() as int, v.px as int, v.py as int),
                ..v
            });
        }
        let notes = self.answer();
        let ghost v2 = self@;
        if self.player_shake > 0 {
            self.player_shake = self.player_shake - 1;
        }
        cool_down_enemies(&mut self.enemies);
        if self.dodge_animation > 0 {
            self.dodge_animation = self.dodge_animation - 1;
        }
        if self.guard_timer > 0 {
            self.guard_timer = self.guard_timer - 1;
        }
        fade_shakes(&mut self.enemy_shake);
        age_effects(&mut self.attack_effects);
        age_numbers(&mut self.damage_numbers);
        proof {
            assert(self.enemies@ =~= v2.enemies.map_values(
                |e: RogueEnemy| RogueEnemy { attack_cooldown: dec(e.attack_cooldown), ..e },
            ));
            assert forall|j: int| 0 <= j < self.enemies@.len() implies #[trigger] enemy_ok(
                self.enemies@[j],
                self.plan.map_width as int,
                self.plan.map_height as int,
            ) by {
                assert(enemy_ok(v2.enemies[j], self.plan.map_width as int, self.plan.map_height as int));
            }
        }
        notes
    }
}

/// An arrow or spell of `damage` reaching (x, y): the first enemy there
/// loses that much (down to zero), shakes hard if it fell and lightly if
/// not, and the damage is shown.
pub open spec fn arrow_turn(v: RogueView, x: i32, y: i32, damage: u32) -> (RogueView, bool) {
    let i = first_at(v.enemies, v.enemies.len() as int, x, y);
    if i < v.enemies.len() {
        let e = v.enemies[i];
        let left = hp_left(e.hp, damage as int);
        (
            RogueView {
                enemies: v.enemies.update(i, RogueEnemy { hp: left as u32, ..e }),
                shakes: v.shakes.update(i, if left == 0 { 5u32 } else { 3u32 }),
                numbers: v.numbers.push(hit_number(x, y, damage)),
                ..v
            },
            true,
        )
    } else {
        (v, false)
    }
}

/// The damage a shot of `base` does to the hero: the armour's share off
/// (at least one stays), a third under a sword guard (at least one).
pub open spec fn shot_damage_to(base: int, def: u32, guarding: bool) -> int {
    let reduced = if base - def * 80 / 100 >= 1 {
        base - def * 80 / 100
    } else {
        1
    };
    if guarding {
        if reduced / 3 >= 1 {
            reduced / 3
        } else {
            1
        }
    } else {
        reduced
    }
}

/// An enemy's shot of `base` reaching the hero: marked and shown on the
/// hero, the damage taken unless in no-damage mode, and the hero shakes.
pub open spec fn shot_turn(v: RogueView, plan: FloorPlan, base: u32) -> (RogueView, Seq<TurnNote>) {
    let guarding = v.guard_timer > 0 && style_of(held(v.equipment)) == WeaponStyle::Sword;
    let d = shot_damage_to(base as int, def_bonus(v.equipment), guarding);
    let taken = if v.no_damage { 0 } else { d };
    let color: &'static str = if v.no_damage { "rgba(120, 220, 255, 0.92)" } else { "rgba(255, 80, 80, 0.92)" };
    (
        RogueView {
            effects: v.effects + marks_for(seq![(v.px, v.py)], plan.map_width as int, plan.map_height as int, 10, color),
            progress: Progress { hp: hp_left(v.progress.hp, taken) as u32, ..v.progress },
            numbers: v.numbers.push(blow_number(v.px, v.py, d as u32, v.no_damage)),
            player_shake: 5,
            ..v
        },
        seq![TurnNote::ShotTaken(d as u32)],
    )
}

/// The index of the first of the first `n` shakes that is a fresh 5, or `n`.
pub open spec fn first_fresh(s: Seq<u32>, n: int) -> int
    decreases n,
{
    if n <= 0 {
        0
    } else if first_fresh(s, n - 1) < n - 1 {
        first_fresh(s, n - 1)
    } else if s[n - 1] == 5 {
        n - 1
    } else {
        n
    }
}

/// The enemies still standing, in order.
pub open spec fn standing(es: Seq<RogueEnemy>) -> Seq<RogueEnemy>
    decreases es.len(),
{
    if es.len() == 0 {
        Seq::empty()
    } else if es.last().hp > 0 {
        standing(es.drop_last()).push(es.last())
    } else {
        standing(es.drop_last())
    }
}

proof fn lemma_standing(es: Seq<RogueEnemy>)
    ensures
        standing(es).len() <= es.len(),
        forall|i: int| 0 <= i < standing(es).len() ==> exists|j: int| 0 <= j < es.len() && #[trigger] standing(es)[i] == es[j],
    decreases es.len(),
{
    if es.len() > 0 {
        lemma_standing(es.drop_last());
        let prev = standing(es.drop_last());
        assert forall|i: int| 0 <= i < standing(es).len() implies exists|j: int| 0 <= j < es.len() && #[trigger] standing(es)[i] == es[j] by {
            if i < prev.len() {
                let j = choose|j: int| 0 <= j < es.drop_last().len() && prev[i] == es.drop_last()[j];
                assert(standing(es)[i] == es[j]);
            } else {
                assert(standing(es)[i] == es[es.len() - 1]);
            }
        }
    }
}

/// The end of a frame: a hero at zero hit points falls; the first enemy
/// felled by a shot this frame (a fresh shake) gives ten experience; the
/// fallen enemies leave, and the shakes are cut to the enemies left.
pub open spec fn frame_end_turn(v: RogueView) -> (RogueView, Seq<TurnNote>) {
    let over = v.progress.hp == 0;
    let f = first_fresh(v.shakes, v.enemies.len() as int);
    let bonus = f < v.enemies.len();
    let left = standing(v.enemies);
    (
        RogueView {
            scene: if over { RogueScene::GameOver } else { v.scene },
            progress: if bonus { settled(Progress { exp: (v.progress.exp + 10) as u32, ..v.progress }) } else { v.progress },
            enemies: left,
            shakes: v.shakes.take(left.len() as int),
            ..v
        },
        (if over { seq![TurnNote::GameOver] } else { Seq::empty() }) + (if bonus {
            seq![TurnNote::ShotDown] + level_ups(
                v.progress.level,
                settled(Progress { exp: (v.progress.exp + 10) as u32, ..v.progress }).level,
            )
        } else {
            Seq::empty()
        }),
    )
}

impl RoguelikeGame {
    /// An arrow or spell of `damage` reaches (x, y) (see `arrow_turn`);
    /// returns whether it hit an enemy.
    pub fn arrow_hit(&mut self, x: i32, y: i32, damage: u32) -> (hit: bool)
        requires
            old(self).wf(),
        ensures
            final(self).wf(),
            final(self).plan == old(self).plan,
            (final(self)@, hit) == arrow_turn(old(self)@, x, y, damage),
    {
        let ghost v = self@;
        let ghost g0 = *self;
        let n = self.enemies.len();
        let mut i: usize = 0;
        while i < n
            invariant
                *self == g0,
                g0 == *old(self),
                g0.wf(),
                v == g0@,
                n == v.enemies.len(),
                i <= n,
                forall|j: int| 0 <= j < i ==> !(#[trigger] v.enemies[j].x == x && v.enemies[j].y == y),
            decreases n - i,
        {
            if self.enemies[i].x == x && self.enemies[i].y == y {
                proof {
                    lemma_first_at(v.enemies, n as int, x, y);
                    let f = first_at(v.enemies, n as int, x, y);
                    if f < i {
                        assert(v.enemies[f].x == x && v.enemies[f].y == y);
                    }
                    assert(f == i);
                }
                let e = self.enemies[i];
                let left = if e.hp >= damage { e.hp - damage } else { 0 };
                self.enemies.set(i, RogueEnemy { hp: left, ..e });
                self.enemy_shake.set(i, if left == 0 { 5 } else { 3 });
                self.damage_numbers.push(DamageNumber { x, y, amount: damage, ttl: 30, max_ttl: 30, color: "#ffd45c" });
                proof {
                    assert forall|j: int| 0 <= j < self.enemies@.len() implies #[trigger] enemy_ok(
                        self.enemies@[j],
                        self.plan.map_width as int,
                        self.plan.map_height as int,
                    ) by {
                        assert(enemy_ok(v.enemies[j], self.plan.map_width as int, self.plan.map_height as int));
                    }
                    assert(self@ =~= arrow_turn(v, x, y, damage).0);
                }
                return true;
            }
            i = i + 1;
        }
        proof {
            lemma_first_at(v.enemies, n as int, x, y);
            let f = first_at(v.enemies, n as int, x, y);
            if f < n {
                assert(v.enemies[f].x == x && v.enemies[f].y == y);
            }
        }
        false
    }

    /// An enemy's shot of `base` reaches the hero (see `shot_turn`).
    pub fn shot_hit(&mut self, base: u32) -> (notes: Vec<TurnNote>)
        requires
            old(self).wf(),
            base <= i32::MAX,
        ensures
            final(self).wf(),
            final(self).plan == old(self).plan,
            (final(self)@, notes@) == shot_turn(old(self)@, old(self).plan, base),
    {
        let w = match self.equipment.weapon {
            Some(w) => w,
            None => WeaponType::WoodenSword,
        };
        let guarding = self.guard_timer > 0 && crate::roguelike::weapon_style(w) == WeaponStyle::Sword;
        let def = self.equipment.get_def_bonus();
        let (damage, taken) = incoming_damage(base as i32, def, guarding, self.no_damage_mode);
        let color: &'static str = if self.no_damage_mode {
            "rgba(120, 220, 255, 0.92)"
        } else {
            "rgba(255, 80, 80, 0.92)"
        };
        let ghost v = self@;
        let cells = vec![(self.player_x, self.player_y)];
        proof {
            assert(cells@ =~= seq![(self.player_x, self.player_y)]);
        }
        push_attack_effects(&mut self.attack_effects, &cells, self.plan.map_width, self.plan.map_height, 10, color);
        self.progress.hp = if self.progress.hp >= taken { self.progress.hp - taken } else { 0 };
        let amount: u32 = if self.no_damage_mode { 0 } else { damage };
        let ncolor: &'static str = if self.no_damage_mode { "#66ccff" } else { "#ff6666" };
        self.damage_numbers.push(
            DamageNumber { x: self.player_x, y: self.player_y, amount, ttl: 30, max_ttl: 30, color: ncolor },
        );
        self.player_shake = 5;
        let notes = vec![TurnNote::ShotTaken(damage)];
        proof {
            let (sv, sn) = shot_turn(v, self.plan, base);
            assert(self@ =~= sv);
            assert(notes@ =~= sn);
        }
        notes
    }

    /// The end of a frame (see `frame_end_turn`).
    pub fn frame_end(&mut self) -> (notes: Vec<TurnNote>)
        requires
            old(self).wf(),
            growth_room(old(self).progress, 1),
        ensures
            final(self).wf(),
            final(self).plan == old(self).plan,
            (final(self)@, notes@) == frame_end_turn(old(self)@),
    {
        let ghost v = self@;
        let mut notes: Vec<TurnNote> = Vec::new();
        if self.progress.hp == 0 {
            self.scene = RogueScene::GameOver;
            notes.push(TurnNote::GameOver);
        }
        let n = self.enemies.len();
        let mut i: usize = 0;
        let mut found = false;
        while i < n
            invariant
                n == v.enemies.len(),
                self.enemy_shake@ == v.shakes,
                v.shakes.len() == n,
                i <= n,
                found == (first_fresh(v.shakes, i as int) < i),
                !found ==> first_fresh(v.shakes, i as int) == i,
            decreases n - i,
        {
            proof {
                if found {
                    lemma_first_fresh_stays(v.shakes, i as int, (i + 1) as int);
                }
            }
            if !found && self.enemy_shake[i] == 5 {
                found = true;
            }
            i = i + 1;
        }
        if found {
            proof {
                lemma_growth_room_one(self.progress, 1);
            }
            notes.push(TurnNote::ShotDown);
            let before = self.progress.level;
            proof {
                assert((self.progress.exp + 10) / 50 <= (self.progress.exp + 500) / 50) by (nonlinear_arith);
                lemma_settled_rises(Progress { exp: (self.progress.exp + 10) as u32, ..self.progress });
            }
            self.progress.gain_exp(10);
            push_level_ups(&mut notes, before, self.progress.level);
        }
        let ghost es = self.enemies@;
        let mut kept: Vec<RogueEnemy> = Vec::new();
        let mut k: usize = 0;
        while k < self.enemies.len()
            invariant
                self.enemies@ == es,
                k <= es.len(),
                kept@ == standing(es.take(k as int)),
            decreases es.len() - k,
        {
            proof {
                assert(es.take(k + 1).drop_last() =~= es.take(k as int));
            }
            let e = self.enemies[k];
            if e.hp > 0 {
                kept.push(e);
            }
            k = k + 1;
        }
        proof {
            assert(es.take(es.len() as int) =~= es);
            lemma_standing(es);
        }
        self.enemies = kept;
        self.enemy_shake.truncate(self.enemies.len());
        proof {
            assert forall|j: int| 0 <= j < self.enemies@.len() implies #[trigger] enemy_ok(
                self.enemies@[j],
                self.plan.map_width as int,
                self.plan.map_height as int,
            ) by {
                let m = choose|m: int| 0 <= m < es.len() && standing(es)[j] == es[m];
                assert(enemy_ok(es[m], self.plan.map_width as int, self.plan.map_height as int));
            }
            assert(self.enemy_shake@ =~= v.shakes.take(self.enemies@.len() as int));
        }
        notes
    }
}

/// Once found, the first fresh shake stays the first.
proof fn lemma_first_fresh_stays(s: Seq<u32>, m: int, n: int)
    requires
        0 <= m <= n,
        first_fresh(s, m) < m,
    ensures
        first_fresh(s, n) == first_fresh(s, m),
    decreases n - m,
{
    if m < n {
        lemma_first_fresh_stays(s, m, n - 1);
    }
}

/// A kept floor the game can be played on: a grid of at most 100000 by
/// 100000 tiles with a matching map of seen cells, and at least one room,
/// each placed as the generator places rooms.
pub open spec fn floor_fits(v: (Seq<Seq<TileType>>, Seq<Room>, Seq<Seq<bool>>)) -> bool {
    let h = v.0.len() as int;
    let w = if h > 0 { v.0[0].len() as int } else { 0 };
    &&& 0 < h <= 100000
    &&& 0 < w <= 100000
    &&& forall|j: int| 0 <= j < h ==> #[trigger] v.0[j].len() == w
    &&& v.2.len() == h
    &&& forall|j: int| 0 <= j < h ==> #[trigger] v.2[j].len() == w
    &&& v.1.len() >= 1
    &&& forall|i: int| 0 <= i < v.1.len() ==> room_ok(#[trigger] v.1[i], w, h)
}

impl RoguelikeGame {
    /// The floors are kept for depths 1 to 30, the floor in play is one of
    /// them with its rooms placed as the generator places them, and every
    /// floor kept fits.
    pub open spec fn keeps_floors(&self) -> bool {
        &&& self.floors.floors@.len() == 31
        &&& 1 <= self.depth <= 30
        &&& self.plan.rooms@.len() >= 1
        &&& forall|i: int| 0 <= i < self.plan.rooms@.len() ==> room_ok(
            #[trigger] self.plan.rooms@[i],
            self.plan.map_width as int,
            self.plan.map_height as int,
        )
        &&& forall|d: int| 0 <= d < 31 ==> (#[trigger] self.floors.view_of()[d] matches Some(f) ==> floor_fits(f))
    }

    /// The floor in play as it would be kept.
    pub open spec fn floor_now(&self) -> (Seq<Seq<TileType>>, Seq<Room>, Seq<Seq<bool>>) {
        (rows_view(self.plan.map@), self.plan.rooms@, rows_view(self.visited@))
    }
}

/// The cells of the enemies.
pub open spec fn cells_of(es: Seq<RogueEnemy>) -> Seq<(i32, i32)> {
    es.map_values(|e: RogueEnemy| (e.x, e.y))
}

impl RoguelikeGame {
    /// The cells of the enemies on the floor.
    fn occupied_cells(&self) -> (r: Vec<(i32, i32)>)
        ensures
            r@ == cells_of(self.enemies@),
    {
        let mut occupied: Vec<(i32, i32)> = Vec::new();
        let mut k: usize = 0;
        while k < self.enemies.len()
            invariant
                k <= self.enemies@.len(),
                occupied@ == cells_of(self.enemies@).take(k as int),
            decreases self.enemies@.len() - k,
        {
            occupied.push((self.enemies[k].x, self.enemies[k].y));
            k = k + 1;
            proof {
                assert(occupied@ =~= cells_of(self.enemies@).take(k as int));
            }
        }
        proof {
            assert(occupied@ =~= cells_of(self.enemies@));
        }
        occupied
    }

    /// Keeps the floor in play, as it is, at its depth.
    fn store_floor(&mut self)
        requires
            old(self).wf(),
            old(self).keeps_floors(),
        ensures
            final(self).wf(),
            final(self).keeps_floors(),
            final(self).floors.view_of() == old(self).floors.view_of().update(old(self).depth as int, Some(old(self).floor_now())),
            final(self).floors.floors@.len() == 31,
            final(self)@ == (RogueView { floors: final(self).floors.view_of(), ..old(self)@ }),
            final(self).plan == old(self).plan,
    {
        let ghost g0 = *self;
        let mut map: Vec<Vec<TileType>> = Vec::new();
        let mut rooms: Vec<Room> = Vec::new();
        let mut visited: Vec<Vec<bool>> = Vec::new();
        std::mem::swap(&mut map, &mut self.plan.map);
        std::mem::swap(&mut rooms, &mut self.plan.rooms);
        std::mem::swap(&mut visited, &mut self.visited);
        let current = FloorState { map, rooms, visited };
        let d = self.depth as usize;
        self.floors.save(d, &current);
        let FloorState { map, rooms, visited } = current;
        self.plan.map = map;
        self.plan.rooms = rooms;
        self.visited = visited;
        proof {
            assert(floor_fits(g0.floor_now())) by {
                let w = g0.plan.map_width as int;
                let h = g0.plan.map_height as int;
                assert(g0.floor_now().0.len() == h);
                assert(g0.floor_now().0[0].len() == w);
            }
            assert forall|dd: int| 0 <= dd < 31 implies (#[trigger] self.floors.view_of()[dd] matches Some(f) ==> floor_fits(f)) by {
                if dd != d {
                    assert(self.floors.view_of()[dd] == g0.floors.view_of()[dd]);
                }
            }
            assert(self.plan == g0.plan);
        }
    }
}

impl RoguelikeGame {
    /// Ready for a hero to arrive: the floor is well formed with its rooms
    /// placed as the generator places them and a matching map of seen cells,
    /// every floor kept fits, no enemy stands on it yet, and the attack pace
    /// is bounded.
    pub open spec fn floor_ready(&self) -> bool {
        let w = self.plan.map_width as int;
        let h = self.plan.map_height as int;
        &&& self.plan.wf()
        &&& grid_bool(self.visited@, w, h)
        &&& self.plan.rooms@.len() >= 1
        &&& forall|i: int| 0 <= i < self.plan.rooms@.len() ==> room_ok(#[trigger] self.plan.rooms@[i], w, h)
        &&& self.floors.floors@.len() == 31
        &&& forall|d: int| 0 <= d < 31 ==> (#[trigger] self.floors.view_of()[d] matches Some(f) ==> floor_fits(f))
        &&& self.enemies@.len() == 0
        &&& self.enemy_shake@.len() == 0
        &&& self.enemy_attack_interval_scale <= 10000000
    }

    /// Lays floor `target` out for play: as it was left, or anew (see
    /// `FloorCache::load`).
    fn enter_floor(&mut self, target: u32)
        requires
            old(self).floors.floors@.len() == 31,
            forall|d: int| 0 <= d < 31 ==> (#[trigger] old(self).floors.view_of()[d] matches Some(f) ==> floor_fits(f)),
            old(self).enemies@.len() == 0,
            old(self).enemy_shake@.len() == 0,
            old(self).enemy_attack_interval_scale <= 10000000,
            1 <= target <= 30,
        ensures
            final(self).floor_ready(),
            match old(self).floors.view_of()[target as int] {
                Some(v) => final(self).floor_now() == v && final(self).floors.view_of() == old(self).floors.view_of(),
                None => {
                    let w = 120 + (target - 1) * 4;
                    let h = 80 + (target - 1) * 2;
                    &&& final(self).plan.map_width == w && final(self).plan.map_height == h
                    &&& rooms_ok(final(self).plan.rooms@, w, h)
                    &&& forall|x: int, y: int| in_grid(x, y, w, h) ==> #[trigger] crate::dungeon::tile(final(self).plan.map@, x, y)
                        == dungeon_tile(final(self).plan.rooms@, x, y)
                    &&& forall|x: int, y: int| in_grid(x, y, w, h) ==> !#[trigger] final(self).visited@[y]@[x]
                    &&& final(self).floors.view_of() == old(self).floors.view_of().update(target as int, Some(final(self).floor_now()))
                },
            },
            final(self)@ == (RogueView {
                visited: rows_view(final(self).visited@),
                floors: final(self).floors.view_of(),
                ..old(self)@
            }),
    {
        let f = self.floors.load(target as usize);
        let ghost fv = floor_view(f);
        proof {
            match old(self).floors.view_of()[target as int] {
                Some(v) => {
                    assert(floor_fits(v));
                    assert(f.map@.len() == v.0.len());
                    assert(f.map@[0]@.len() == v.0[0].len());
                },
                None => {
                    let w = 120 + (target - 1) * 4;
                    let h = 80 + (target - 1) * 2;
                    assert(f.map@.len() == h);
                    assert(f.map@[0]@.len() == w);
                },
            }
        }
        let h = f.map.len();
        let w = f.map[0].len();
        let FloorState { map, rooms, visited } = f;
        self.plan = FloorPlan { map, rooms, map_width: w as i32, map_height: h as i32 };
        self.visited = visited;
        proof {
            assert(self.floor_now() == fv);
            let ww = w as int;
            let hh = h as int;
            match old(self).floors.view_of()[target as int] {
                Some(v) => {
                    assert(floor_fits(v));
                    assert forall|j: int| 0 <= j < hh implies (#[trigger] self.plan.map@[j])@.len() == ww by {
                        assert(fv.0[j] == self.plan.map@[j]@);
                    }
                    assert forall|j: int| 0 <= j < hh implies (#[trigger] self.visited@[j])@.len() == ww by {
                        assert(fv.2[j] == self.visited@[j]@);
                    }
                },
                None => {
                    assert forall|i: int| 0 <= i < self.plan.rooms@.len() implies room_ok(
                        #[trigger] self.plan.rooms@[i],
                        ww,
                        hh,
                    ) by {
                        assert(rooms_ok(self.plan.rooms@, ww, hh));
                    }
                    assert(floor_fits(fv)) by {
                        assert(fv.0.len() == hh);
                        assert(fv.0[0].len() == ww);
                        assert forall|j: int| 0 <= j < hh implies #[trigger] fv.0[j].len() == ww by {
                            assert(fv.0[j] == self.plan.map@[j]@);
                        }
                        assert forall|j: int| 0 <= j < hh implies #[trigger] fv.2[j].len() == ww by {
                            assert(fv.2[j] == self.visited@[j]@);
                        }
                    }
                },
            }
            assert forall|d: int| 0 <= d < 31 implies (#[trigger] self.floors.view_of()[d] matches Some(ff) ==> floor_fits(ff)) by {
                if d != target {
                    assert(self.floors.view_of()[d] == old(self).floors.view_of()[d]);
                }
            }
        }
    }
}

impl RoguelikeGame {
    /// The hero arrives on the floor laid out for play (see
    /// `FloorPlan::arrival`), coming from column `from_x` with the enemies
    /// of the floor left at `occupied`.
    fn place_hero(&mut self, target: u32, from_x: i32, occupied: &Vec<(i32, i32)>)
        requires
            old(self).floor_ready(),
        ensures
            final(self).wf(),
            final(self).floor_ready(),
            ({
                let a = old(self).plan.arrival(target, from_x, occupied@);
                &&& final(self)@ == (RogueView {
                    px: a.0 as i32,
                    py: a.1 as i32,
                    current_room: Some(a.2 as usize),
                    ..old(self)@
                })
                &&& final(self).plan == old(self).plan
                &&& final(self).floors == old(self).floors
            }),
    {
        let spot = self.plan.place_in_random_room(target, from_x, occupied);
        proof {
            self.plan.lemma_arrival_inside(target, from_x, occupied@);
        }
        match spot {
            Some((x, y, i)) => {
                self.player_x = x;
                self.player_y = y;
                self.current_room = Some(i);
            },
            None => {},
        }
    }

    /// Keeps the floor in play and clears what belonged to it: its marks,
    /// numbers, timers and enemies; the hero, refreshed, is at `level`.
    fn leave_floor(&mut self, level: u32)
        requires
            old(self).wf(),
            old(self).keeps_floors(),
        ensures
            final(self).floors.floors@.len() == 31,
            forall|d: int| 0 <= d < 31 ==> (#[trigger] final(self).floors.view_of()[d] matches Some(f) ==> floor_fits(f)),
            final(self).floors.view_of() == old(self).floors.view_of().update(old(self).depth as int, Some(old(self).floor_now())),
            final(self).enemy_attack_interval_scale <= 10000000,
            final(self)@ == (RogueView {
                progress: Progress { level, hp: old(self).progress.max_hp, mp: old(self).progress.max_mp, ..old(self).progress },
                enemies: Seq::empty(),
                shakes: Seq::empty(),
                effects: Seq::empty(),
                numbers: Seq::empty(),
                player_shake: 0,
                dodge_animation: 0,
                guard_timer: 0,
                floors: final(self).floors.view_of(),
                ..old(self)@
            }),
    {
        self.store_floor();
        self.progress.level = level;
        self.progress.hp = self.progress.max_hp;
        self.progress.mp = self.progress.max_mp;
        self.attack_effects = Vec::new();
        self.damage_numbers = Vec::new();
        self.player_shake = 0;
        self.dodge_animation = 0;
        self.guard_timer = 0;
        self.enemies = Vec::new();
        self.enemy_shake = Vec::new();
        proof {
            assert(self.enemies@ =~= Seq::<RogueEnemy>::empty());
            assert(self.enemy_shake@ =~= Seq::<u32>::empty());
            assert(self.attack_effects@ =~= Seq::<AttackEffect>::empty());
            assert(self.damage_numbers@ =~= Seq::<DamageNumber>::empty());
        }
    }

    /// Leaves the floor in play for floor `target` with the hero at level
    /// `level` (see `leave_floor`): the target floor is laid out (see
    /// `enter_floor`), and the hero arrives in one of its rooms (see
    /// `place_hero`) and looks around. The enemies of the new floor are
    /// brought by the caller.
    fn change_floor(&mut self, target: u32, level: u32)
        requires
            old(self).wf(),
            old(self).keeps_floors(),
            1 <= target <= 30,
        ensures
            final(self).wf(),
            final(self).keeps_floors(),
            final(self).floor_ready(),
            floor_changed(*old(self), *final(self), target, level),
    {
        let ghost g0 = *self;
        let occupied = self.occupied_cells();
        let from_x = self.player_x;
        self.leave_floor(level);
        self.depth = target;
        let ghost g1 = *self;
        self.enter_floor(target);
        let ghost g2 = *self;
        proof {
            if g1.floors.view_of()[target as int] is None {
                lemma_unseen(g2.visited@, 120 + (target - 1) * 4, 80 + (target - 1) * 2);
            }
        }
        self.place_hero(target, from_x, &occupied);
        let ghost g3 = *self;
        self.look_around();
        proof {
            let saved = g0.floors.view_of().update(g0.depth as int, Some(g0.floor_now()));
            let a = self.plan.arrival(target, g0.player_x, cells_of(g0.enemies@));
            assert(occupied@ == cells_of(g0.enemies@));
            assert(from_x == g0.player_x);
            assert(g1.floors.view_of() == saved);
            assert(self.plan == g2.plan);
            self.plan.lemma_arrival_inside(target, g0.player_x, cells_of(g0.enemies@));
            assert(g3.player_x == a.0 && g3.player_y == a.1);
            assert(self.player_x == a.0 && self.player_y == a.1);
            assert(self.current_room == Some(a.2 as usize));
            assert(rows_view(self.visited@) == seen_from(rows_view(g2.visited@), a.0, a.1));
            assert(self.floors == g2.floors);
            match saved[target as int] {
                Some(v) => {
                    assert(g2.floor_now() == v);
                    assert(self.floor_now().0 == v.0);
                    assert(self.floor_now().1 == v.1);
                    assert(rows_view(g2.visited@) == v.2);
                },
                None => {
                    assert(rows_view(g2.visited@) == unseen(120 + (target - 1) * 4, 80 + (target - 1) * 2));
                },
            }
        }
    }
}

/// Game `f` is game `g` after leaving for floor `target` with the hero at
/// level `level`: the floor left is kept; the target floor is the one kept
/// or, never visited, one laid out anew; the hero arrives in one of its
/// rooms, refreshed, and has looked around; the marks, numbers, timers and
/// enemies of the old floor are gone.
pub open spec fn floor_changed(g: RoguelikeGame, f: RoguelikeGame, target: u32, level: u32) -> bool {
    let saved = g.floors.view_of().update(g.depth as int, Some(g.floor_now()));
    let a = f.plan.arrival(target, g.player_x, cells_of(g.enemies@));
    &&& match saved[target as int] {
        Some(v) => {
            &&& f.floor_now().0 == v.0
            &&& f.floor_now().1 == v.1
            &&& f.floors.view_of() == saved
            &&& rows_view(f.visited@) == seen_from(v.2, a.0, a.1)
        },
        None => {
            let w = 120 + (target - 1) * 4;
            let h = 80 + (target - 1) * 2;
            &&& f.plan.map_width == w && f.plan.map_height == h
            &&& rooms_ok(f.plan.rooms@, w, h)
            &&& forall|x: int, y: int| in_grid(x, y, w, h) ==> #[trigger] crate::dungeon::tile(
                f.plan.map@,
                x,
                y,
            ) == dungeon_tile(f.plan.rooms@, x, y)
            &&& f.floors.view_of() == saved.update(
                target as int,
                Some((f.floor_now().0, f.floor_now().1, unseen(w, h))),
            )
            &&& rows_view(f.visited@) == seen_from(unseen(w, h), a.0, a.1)
        },
    }
    &&& f@ == (RogueView {
        depth: target,
        progress: Progress { level, hp: g.progress.max_hp, mp: g.progress.max_mp, ..g.progress },
        px: a.0 as i32,
        py: a.1 as i32,
        current_room: Some(a.2 as usize),
        enemies: Seq::empty(),
        shakes: Seq::empty(),
        effects: Seq::empty(),
        numbers: Seq::empty(),
        player_shake: 0,
        dodge_animation: 0,
        guard_timer: 0,
        visited: rows_view(f.visited@),
        floors: f.floors.view_of(),
        ..g@
    })
}

/// `h` rows of `w` unseen cells.
pub open spec fn unseen(w: int, h: int) -> Seq<Seq<bool>> {
    Seq::new(h as nat, |y: int| Seq::new(w as nat, |x: int| false))
}

proof fn lemma_unseen(v: Seq<Vec<bool>>, w: int, h: int)
    requires
        0 <= w,
        0 <= h,
        grid_bool(v, w, h),
        forall|x: int, y: int| in_grid(x, y, w, h) ==> !#[trigger] v[y]@[x],
    ensures
        rows_view(v) == unseen(w, h),
{
    assert forall|y: int| 0 <= y < h implies #[trigger] rows_view(v)[y] =~= unseen(w, h)[y] by {
        assert(v[y]@.len() == w);
        assert forall|x: int| 0 <= x < w implies #[trigger] v[y]@[x] == false by {
            assert(in_grid(x, y, w, h));
        }
    }
    assert(rows_view(v) =~= unseen(w, h));
}

impl RoguelikeGame {
    /// Down a floor (stairs or a hole): from the deepest floor nothing
    /// happens and `false` comes back; otherwise the hero leaves for the
    /// floor below, one level higher (see `floor_changed`), and the caller
    /// brings its enemies.
    pub fn next_floor(&mut self) -> (moved: bool)
        requires
            old(self).wf(),
            old(self).keeps_floors(),
            old(self).progress.level < u32::MAX,
        ensures
            final(self).wf(),
            final(self).keeps_floors(),
            moved == (old(self).depth < 30),
            !moved ==> *final(self) == *old(self),
            moved ==> final(self).floor_ready() && floor_changed(
                *old(self),
                *final(self),
                (old(self).depth + 1) as u32,
                (old(self).progress.level + 1) as u32,
            ),
    {
        match next_floor_target(self.depth) {
            Some(t) => {
                let level = self.progress.level + 1;
                self.change_floor(t, level);
                true
            },
            None => false,
        }
    }

    /// Up a floor: from the first floor nothing happens and `false` comes
    /// back; otherwise the hero leaves for the floor above, at a level equal
    /// to that floor's number (see `floor_changed`).
    pub fn prev_floor(&mut self) -> (moved: bool)
        requires
            old(self).wf(),
            old(self).keeps_floors(),
        ensures
            final(self).wf(),
            final(self).keeps_floors(),
            moved == (old(self).depth > 1),
            !moved ==> *final(self) == *old(self),
            moved ==> final(self).floor_ready() && floor_changed(
                *old(self),
                *final(self),
                (old(self).depth - 1) as u32,
                (old(self).depth - 1) as u32,
            ),
    {
        match prev_floor_target(self.depth) {
            Some(t) => {
                self.change_floor(t, t);
                true
            },
            None => false,
        }
    }

    /// A jump to floor `target`, kept within 1 to 30, while playing and to
    /// another floor (see `jump_target`); the hero's level becomes the
    /// floor's number. Returns the floor jumped to, or nothing.
    pub fn jump_to_floor(&mut self, target: u32) -> (r: Option<u32>)
        requires
            old(self).wf(),
            old(self).keeps_floors(),
        ensures
            final(self).wf(),
            final(self).keeps_floors(),
            ({
                let t = if target < 1 {
                    1
                } else if target > 30 {
                    30
                } else {
                    target
                };
                r == (if old(self).scene != RogueScene::Playing || t == old(self).depth {
                    None
                } else {
                    Some(t as u32)
                })
            }),
            r is None ==> *final(self) == *old(self),
            r matches Some(t) ==> final(self).floor_ready() && floor_changed(*old(self), *final(self), t, t),
    {
        let playing = self.scene == RogueScene::Playing;
        let r = jump_target(playing, self.depth, target);
        match r {
            Some(t) => {
                self.change_floor(t, t);
            },
            None => {},
        }
        r
    }

    /// Brings the enemies of the floor in play: each stands on it with
    /// bounded stats and starts still.
    pub fn place_enemies(&mut self, enemies: Vec<RogueEnemy>)
        requires
            enemies_ok(enemies@, old(self).plan.map_width as int, old(self).plan.map_height as int),
            in_grid(old(self).player_x as int, old(self).player_y as int, old(self).plan.map_width as int, old(self).plan.map_height as int),
            old(self).plan.wf(),
            grid_bool(old(self).visited@, old(self).plan.map_width as int, old(self).plan.map_height as int),
            old(self).enemy_attack_interval_scale <= 10000000,
        ensures
            final(self).wf(),
            final(self)@ == (RogueView { enemies: enemies@, shakes: Seq::new(enemies@.len(), |i: int| 0u32), ..old(self)@ }),
            final(self).plan == old(self).plan,
            final(self).floors == old(self).floors,
    {
        let n = enemies.len();
        let mut shakes: Vec<u32> = Vec::new();
        let mut i: usize = 0;
        while i < n
            invariant
                i <= n,
                shakes@ == Seq::new(i as nat, |k: int| 0u32),
            decreases n - i,
        {
            shakes.push(0);
            i = i + 1;
            proof {
                assert(shakes@ =~= Seq::new(i as nat, |k: int| 0u32));
            }
        }
        self.enemies = enemies;
        self.enemy_shake = shakes;
    }

    /// Starts play on the floor in play: the hero stands at the centre of
    /// its first room, refreshed, having seen only that cell; the marks,
    /// numbers and timers are cleared, and the enemies are gone (the caller
    /// brings the floor's).
    pub fn start_game(&mut self)
        requires
            old(self).wf(),
            old(self).keeps_floors(),
        ensures
            final(self).wf(),
            final(self).keeps_floors(),
            final(self).floor_ready(),
            ({
                let room = old(self).plan.rooms@[0];
                let cx = room.x + room.width / 2;
                let cy = room.y + room.height / 2;
                &&& final(self)@ == (RogueView {
                    scene: RogueScene::Playing,
                    px: cx as i32,
                    py: cy as i32,
                    current_room: Some(0),
                    progress: Progress { hp: old(self).progress.max_hp, mp: old(self).progress.max_mp, ..old(self).progress },
                    visited: Seq::new(
                        old(self)@.visited.len(),
                        |y: int| Seq::new(old(self)@.visited[y].len(), |x: int| x == cx && y == cy),
                    ),
                    enemies: Seq::empty(),
                    shakes: Seq::empty(),
                    effects: Seq::empty(),
                    numbers: Seq::empty(),
                    player_shake: 0,
                    dodge_animation: 0,
                    ..old(self)@
                })
                &&& final(self).plan == old(self).plan
            }),
    {
        self.scene = RogueScene::Playing;
        self.attack_effects = Vec::new();
        self.damage_numbers = Vec::new();
        self.player_shake = 0;
        self.dodge_animation = 0;
        self.enemies = Vec::new();
        self.enemy_shake = Vec::new();
        let room = self.plan.rooms[0];
        proof {
            assert(room_ok(room, self.plan.map_width as int, self.plan.map_height as int));
        }
        self.player_x = room.x + room.width / 2;
        self.player_y = room.y + room.height / 2;
        self.current_room = Some(0);
        self.progress.hp = self.progress.max_hp;
        self.progress.mp = self.progress.max_mp;
        let w = self.plan.map_width as usize;
        let h = self.plan.map_height as usize;
        let mut fresh = unseen_grid(w, h);
        let px = self.player_x as usize;
        let py = self.player_y as usize;
        let mut row = Vec::new();
        std::mem::swap(&mut row, &mut fresh[py]);
        row.set(px, true);
        std::mem::swap(&mut row, &mut fresh[py]);
        self.visited = fresh;
        proof {
            let cx = self.player_x as int;
            let cy = self.player_y as int;
            assert(rows_view(self.visited@) =~~= Seq::new(
                old(self)@.visited.len(),
                |y: int| Seq::new(old(self)@.visited[y].len(), |x: int| x == cx && y == cy),
            )) by {
                assert forall|y: int| 0 <= y < h implies #[trigger] rows_view(self.visited@)[y] =~= Seq::new(
                    old(self)@.visited[y].len(),
                    |x: int| x == cx && y == cy,
                ) by {
                    assert(old(self).visited@[y]@.len() == w);
                    assert forall|x: int| 0 <= x < w implies #[trigger] self.visited@[y]@[x] == (x == cx && y == cy) by {
                        assert(in_grid(x, y, w as int, h as int));
                    }
                }
            }
            assert(self.enemies@ =~= Seq::<RogueEnemy>::empty());
            assert(self.enemy_shake@ =~= Seq::<u32>::empty());
            assert(self.attack_effects@ =~= Seq::<AttackEffect>::empty());
            assert(self.damage_numbers@ =~= Seq::<DamageNumber>::empty());
        }
    }
}

/// Where an enemy of a new floor stands and what it is; its strength is
/// the caller's to give.
#[derive(Clone, Copy, PartialEq, Eq, Structural, Debug)]
pub struct SpawnSlot {
    pub x: i32,
    pub y: i32,
    pub enemy_type: u32,
    pub variant: EnemyVariant,
    pub is_boss: bool,
}

/// A slot on the floor for a kind that lives at `depth`.
pub open spec fn slot_ok(plan: FloorPlan, depth: u32, s: SpawnSlot) -> bool {
    &&& in_grid(s.x as int, s.y as int, plan.map_width as int, plan.map_height as int)
    &&& kinds_on_floor(depth).contains(s.enemy_type)
}

/// Some slot already stands at (x, y).
pub open spec fn occupied(slots: Seq<SpawnSlot>, x: i32, y: i32) -> bool {
    exists|j: int| 0 <= j < slots.len() && (#[trigger] slots[j]).x == x && slots[j].y == y
}

/// Room `room` holds stairs.
pub open spec fn stairs_in(plan: FloorPlan, room: Room) -> bool {
    exists|x: int, y: int|
        in_room(room, x, y) && (#[trigger] tile(plan.map@, x, y) == TileType::StairUp || tile(plan.map@, x, y)
            == TileType::StairDown)
}

/// A kind living at `depth` and its variant, drawn from generator state
/// `s` (two draws), and the state after.
pub open spec fn kind_draw(depth: u32, s: u32) -> (u32, EnemyVariant, u32) {
    let s1 = lcg32_next(s);
    let s2 = lcg32_next(s1);
    let avail = kinds_on_floor(depth);
    (avail[(lcg32_out(s1) as int) % (avail.len() as int)], variant_for_roll(lcg32_out(s2) % 100), s2)
}

/// A cell of `room` drawn from state `s` (two draws), and the state after.
pub open spec fn room_cell(room: Room, s: u32) -> (i32, i32, u32) {
    let s1 = lcg32_next(s);
    let s2 = lcg32_next(s1);
    (
        (room.x + (lcg32_out(s1) as int) % (room.width as int)) as i32,
        (room.y + (lcg32_out(s2) as int) % (room.height as int)) as i32,
        s2,
    )
}

/// A cell of the whole floor drawn from state `s` (two draws), and the
/// state after.
pub open spec fn map_cell(plan: FloorPlan, s: u32) -> (i32, i32, u32) {
    let s1 = lcg32_next(s);
    let s2 = lcg32_next(s1);
    (
        ((lcg32_out(s1) as int) % (plan.map_width as int)) as i32,
        ((lcg32_out(s2) as int) % (plan.map_height as int)) as i32,
        s2,
    )
}

/// From try `tries` on: a room cell is kept once it is walkable and free
/// of slots, else another is drawn, up to twenty retries.
pub open spec fn room_retry(plan: FloorPlan, slots: Seq<SpawnSlot>, room: Room, x: i32, y: i32, s: u32, tries: nat) -> (
    i32,
    i32,
    u32,
)
    decreases 20 - tries,
{
    if tries >= 20 || (plan.walkable(x as int, y as int) && !occupied(slots, x, y)) {
        (x, y, s)
    } else {
        let c = room_cell(room, s);
        room_retry(plan, slots, room, c.0, c.1, c.2, tries + 1)
    }
}

/// A cell that a corridor enemy may take: walkable and not a room tile.
pub open spec fn corridor_ok(plan: FloorPlan, x: i32, y: i32) -> bool {
    plan.walkable(x as int, y as int) && tile(plan.map@, x as int, y as int) != TileType::Room
}

/// From try `tries` on: a floor cell is kept once it suits a corridor
/// enemy, else another is drawn, up to twenty retries.
pub open spec fn corridor_retry(plan: FloorPlan, x: i32, y: i32, s: u32, tries: nat) -> (i32, i32, u32)
    decreases 20 - tries,
{
    if tries >= 20 || corridor_ok(plan, x, y) {
        (x, y, s)
    } else {
        let c = map_cell(plan, s);
        corridor_retry(plan, c.0, c.1, c.2, tries + 1)
    }
}

/// One enemy placed in `room`: its kind, then a cell of the room; it is the
/// boss when `boss` holds and it is the first slot.
pub open spec fn room_enemy(plan: FloorPlan, depth: u32, slots: Seq<SpawnSlot>, room: Room, s: u32, boss: bool) -> (
    Seq<SpawnSlot>,
    u32,
) {
    if kinds_on_floor(depth).len() == 0 {
        (slots, s)
    } else {
        let k = kind_draw(depth, s);
        let c = room_cell(room, k.2);
        let p = room_retry(plan, slots, room, c.0, c.1, c.2, 0);
        (
            slots.push(
                SpawnSlot { x: p.0, y: p.1, enemy_type: k.0, variant: k.1, is_boss: boss && slots.len() == 0 },
            ),
            p.2,
        )
    }
}

/// `left` enemies placed in `room` one after another.
pub open spec fn room_enemies(
    plan: FloorPlan,
    depth: u32,
    slots: Seq<SpawnSlot>,
    room: Room,
    s: u32,
    boss: bool,
    left: nat,
) -> (Seq<SpawnSlot>, u32)
    decreases left,
{
    if left == 0 {
        (slots, s)
    } else {
        let p = room_enemy(plan, depth, slots, room, s, boss);
        room_enemies(plan, depth, p.0, room, p.1, boss, (left - 1) as nat)
    }
}

/// Room `i`: none if it holds stairs, else a draw of two to four enemies
/// placed in it (the boss may only be the very first).
pub open spec fn room_turn(plan: FloorPlan, depth: u32, slots: Seq<SpawnSlot>, s: u32, i: int, boss: bool) -> (
    Seq<SpawnSlot>,
    u32,
) {
    let room = plan.rooms@[i];
    if stairs_in(plan, room) {
        (slots, s)
    } else {
        let s1 = lcg32_next(s);
        room_enemies(plan, depth, slots, room, s1, boss && i == 0, (2 + lcg32_out(s1) % 3) as nat)
    }
}

/// Rooms `i` up to `n`, in order.
pub open spec fn rooms_from(plan: FloorPlan, depth: u32, slots: Seq<SpawnSlot>, s: u32, i: int, n: int, boss: bool) -> (
    Seq<SpawnSlot>,
    u32,
)
    decreases n - i,
{
    if i >= n {
        (slots, s)
    } else {
        let p = room_turn(plan, depth, slots, s, i, boss);
        rooms_from(plan, depth, p.0, p.1, i + 1, n, boss)
    }
}

/// One corridor enemy: its kind, then a floor cell; it is kept only if the
/// cell finally drawn suits it.
pub open spec fn corridor_enemy(plan: FloorPlan, depth: u32, slots: Seq<SpawnSlot>, s: u32) -> (Seq<SpawnSlot>, u32) {
    if kinds_on_floor(depth).len() == 0 {
        (slots, s)
    } else {
        let k = kind_draw(depth, s);
        let c = map_cell(plan, k.2);
        let p = corridor_retry(plan, c.0, c.1, c.2, 0);
        if corridor_ok(plan, p.0, p.1) {
            (slots.push(SpawnSlot { x: p.0, y: p.1, enemy_type: k.0, variant: k.1, is_boss: false }), p.2)
        } else {
            (slots, p.2)
        }
    }
}

/// `left` corridor enemies one after another.
pub open spec fn corridor_enemies(plan: FloorPlan, depth: u32, slots: Seq<SpawnSlot>, s: u32, left: nat) -> (
    Seq<SpawnSlot>,
    u32,
)
    decreases left,
{
    if left == 0 {
        (slots, s)
    } else {
        let p = corridor_enemy(plan, depth, slots, s);
        corridor_enemies(plan, depth, p.0, p.1, (left - 1) as nat)
    }
}

/// The slots of a floor: the generator is seeded by `depth * 9999`
/// (wrapping); the first eight rooms come in order, then a draw of three to
/// five corridor enemies.
pub open spec fn spawn_plan(plan: FloorPlan, depth: u32, boss: bool) -> Seq<SpawnSlot> {
    let s0 = ((depth as nat * 9999nat) % 0x1_0000_0000) as u32;
    let n: int = if plan.rooms@.len() < 8 { plan.rooms@.len() as int } else { 8 };
    let p = rooms_from(plan, depth, Seq::empty(), s0, 0, n, boss);
    let s1 = lcg32_next(p.1);
    corridor_enemies(plan, depth, p.0, s1, (3 + lcg32_out(s1) % 3) as nat).0
}

impl RoguelikeGame {
    /// Whether room `room` holds stairs.
    fn room_has_stairs(&self, room: Room) -> (r: bool)
        requires
            self.plan.wf(),
            room_ok(room, self.plan.map_width as int, self.plan.map_height as int),
        ensures
            r == stairs_in(self.plan, room),
    {
        let mut y = room.y;
        while y < room.y + room.height
            invariant
                self.plan.wf(),
                room_ok(room, self.plan.map_width as int, self.plan.map_height as int),
                room.y <= y <= room.y + room.height,
                forall|xx: int, yy: int| room.x <= xx < room.x + room.width && room.y <= yy < y ==> !(
                    #[trigger] crate::dungeon::tile(self.plan.map@, xx, yy) == TileType::StairUp
                        || crate::dungeon::tile(self.plan.map@, xx, yy) == TileType::StairDown),
            decreases room.y + room.height - y,
        {
            let mut x = room.x;
            while x < room.x + room.width
                invariant
                    self.plan.wf(),
                    room_ok(room, self.plan.map_width as int, self.plan.map_height as int),
                    room.y <= y < room.y + room.height,
                    room.x <= x <= room.x + room.width,
                    forall|xx: int, yy: int| room.x <= xx < room.x + room.width && room.y <= yy < y ==> !(
                        #[trigger] crate::dungeon::tile(self.plan.map@, xx, yy) == TileType::StairUp
                            || crate::dungeon::tile(self.plan.map@, xx, yy) == TileType::StairDown),
                    forall|xx: int| room.x <= xx < x ==> !(
                        #[trigger] crate::dungeon::tile(self.plan.map@, xx, y as int) == TileType::StairUp
                            || crate::dungeon::tile(self.plan.map@, xx, y as int) == TileType::StairDown),
                decreases room.x + room.width - x,
            {
                let t = self.plan.map[y as usize][x as usize];
                if t == TileType::StairUp || t == TileType::StairDown {
                    proof {
                        assert(crate::dungeon::tile(self.plan.map@, x as int, y as int) == t);
                        assert(crate::dungeon::in_room(room, x as int, y as int));
                    }
                    return true;
                }
                x = x + 1;
            }
            y = y + 1;
        }
        proof {
            assert forall|xx: int, yy: int| crate::dungeon::in_room(room, xx, yy) implies !(
                #[trigger] crate::dungeon::tile(self.plan.map@, xx, yy) == TileType::StairUp
                    || crate::dungeon::tile(self.plan.map@, xx, yy) == TileType::StairDown) by {}
        }
        false
    }

    /// The enemies of the floor in play: two to four per room for the
    /// first eight rooms without stairs, each tried up to twenty times at a
    /// free walkable cell of the room (else left at the last cell tried),
    /// then three to five on corridor cells; on a boss floor the first
    /// enemy is the boss. All draws come from one generator seeded by the
    /// depth. Returns the slots, each on the floor and of a kind living at
    /// this depth; the caller gives each its strength.
    pub fn spawn_slots(&self, is_boss_floor: bool) -> (r: Vec<SpawnSlot>)
        requires
            self.wf(),
            self.keeps_floors(),
        ensures
            r@ == spawn_plan(self.plan, self.depth, is_boss_floor),
            forall|i: int| 0 <= i < r@.len() ==> #[trigger] slot_ok(self.plan, self.depth, r@[i]),
            forall|i: int| 0 <= i < r@.len() && (#[trigger] r@[i]).is_boss ==> i == 0 && is_boss_floor,
    {
        let w = self.plan.map_width;
        let h = self.plan.map_height;
        let mut rng = LcgRng::new(self.depth.wrapping_mul(9999));
        let mut slots: Vec<SpawnSlot> = Vec::new();
        let n_rooms = if self.plan.rooms.len() < 8 { self.plan.rooms.len() } else { 8 };
        let ghost plan = self.plan;
        let ghost depth = self.depth;
        let ghost rooms_done = rooms_from(plan, depth, slots@, rng.state, 0, n_rooms as int, is_boss_floor);
        let mut i: usize = 0;
        while i < n_rooms
            invariant
                self.wf(),
                self.keeps_floors(),
                plan == self.plan,
                depth == self.depth,
                w == self.plan.map_width,
                h == self.plan.map_height,
                n_rooms <= self.plan.rooms@.len(),
                i <= n_rooms,
                rooms_from(plan, depth, slots@, rng.state, i as int, n_rooms as int, is_boss_floor) == rooms_done,
                forall|k: int| 0 <= k < slots@.len() ==> #[trigger] slot_ok(self.plan, self.depth, slots@[k]),
                forall|k: int| 0 <= k < slots@.len() && (#[trigger] slots@[k]).is_boss ==> k == 0 && is_boss_floor,
            decreases n_rooms - i,
        {
            let room = self.plan.rooms[i];
            let ghost slots_i = slots@;
            let ghost state_i = rng.state;
            proof {
                assert(room_ok(room, w as int, h as int));
            }
            if !self.room_has_stairs(room) {
                let count = 2 + rng.next() % 3;
                let ghost boss_i = is_boss_floor && i == 0;
                let ghost room_done = room_enemies(plan, depth, slots@, room, rng.state, boss_i, count as nat);
                assert(room_turn(plan, depth, slots_i, state_i, i as int, is_boss_floor) == room_done);
                let mut c: u32 = 0;
                while c < count
                    invariant
                        self.wf(),
                        self.keeps_floors(),
                        plan == self.plan,
                        depth == self.depth,
                        w == self.plan.map_width,
                        h == self.plan.map_height,
                        room_ok(room, w as int, h as int),
                        c <= count,
                        i < n_rooms,
                        boss_i == (is_boss_floor && i == 0),
                        room_enemies(plan, depth, slots@, room, rng.state, boss_i, (count - c) as nat) == room_done,
                        forall|k: int| 0 <= k < slots@.len() ==> #[trigger] slot_ok(self.plan, self.depth, slots@[k]),
                        forall|k: int| 0 <= k < slots@.len() && (#[trigger] slots@[k]).is_boss ==> k == 0 && is_boss_floor,
                    decreases count - c,
                {
                    let ghost st = rng.state;
                    let ghost slots_c = slots@;
                    match spawn_random_enemy_for_floor(self.depth, &mut rng) {
                        Some((enemy_type, variant)) => {
                            proof {
                                let avail = kinds_on_floor(self.depth);
                                let k = (lcg32_out(lcg32_next(st)) as int) % (avail.len() as int);
                                assert(avail[k] == enemy_type);
                            }
                            let ghost kd = kind_draw(depth, st);
                            assert(kd.0 == enemy_type && kd.1 == variant && kd.2 == rng.state);
                            let mut ex = room.x + (rng.next() as i32 % room.width);
                            let mut ey = room.y + (rng.next() as i32 % room.height);
                            let ghost cell = room_cell(room, kd.2);
                            assert(ex == cell.0 && ey == cell.1 && rng.state == cell.2);
                            let ghost placed = room_retry(plan, slots@, room, ex, ey, rng.state, 0);
                            let mut attempts: u32 = 0;
                            while attempts < 20
                                invariant
                                    self.plan.wf(),
                                    plan == self.plan,
                                    room_ok(room, w as int, h as int),
                                    w == self.plan.map_width,
                                    h == self.plan.map_height,
                                    room.x <= ex < room.x + room.width,
                                    room.y <= ey < room.y + room.height,
                                    attempts <= 20,
                                    room_retry(plan, slots@, room, ex, ey, rng.state, attempts as nat) == placed,
                                ensures
                                    room.x <= ex < room.x + room.width,
                                    room.y <= ey < room.y + room.height,
                                    (ex, ey, rng.state) == placed,
                                decreases 20 - attempts,
                            {
                                let mut occupied = false;
                                let mut j: usize = 0;
                                while j < slots.len()
                                    invariant
                                        j <= slots@.len(),
                                        occupied == exists|q: int|
                                            0 <= q < j && (#[trigger] slots@[q]).x == ex && slots@[q].y == ey,
                                    decreases slots@.len() - j,
                                {
                                    if slots[j].x == ex && slots[j].y == ey {
                                        occupied = true;
                                    }
                                    j = j + 1;
                                }
                                assert(occupied == crate::rogue_game::occupied(slots@, ex, ey));
                                if self.plan.is_walkable(ex, ey) && !occupied {
                                    break;
                                }
                                ex = room.x + (rng.next() as i32 % room.width);
                                ey = room.y + (rng.next() as i32 % room.height);
                                attempts = attempts + 1;
                            }
                            let is_boss = is_boss_floor && i == 0 && slots.len() == 0;
                            slots.push(SpawnSlot { x: ex, y: ey, enemy_type, variant, is_boss });
                            assert(room_enemy(plan, depth, slots_c, room, st, boss_i) == (slots@, rng.state));
                        },
                        None => {
                            assert(room_enemy(plan, depth, slots_c, room, st, boss_i) == (slots@, rng.state));
                        },
                    }
                    c = c + 1;
                }
            }
            i = i + 1;
        }
        let count = 3 + rng.next() % 3;
        let ghost corr_done = corridor_enemies(plan, depth, slots@, rng.state, count as nat);
        assert(corr_done.0 == spawn_plan(plan, depth, is_boss_floor));
        let mut c: u32 = 0;
        while c < count
            invariant
                self.wf(),
                self.keeps_floors(),
                plan == self.plan,
                depth == self.depth,
                w == self.plan.map_width,
                h == self.plan.map_height,
                c <= count,
                corridor_enemies(plan, depth, slots@, rng.state, (count - c) as nat) == corr_done,
                forall|k: int| 0 <= k < slots@.len() ==> #[trigger] slot_ok(self.plan, self.depth, slots@[k]),
                forall|k: int| 0 <= k < slots@.len() && (#[trigger] slots@[k]).is_boss ==> k == 0 && is_boss_floor,
            decreases count - c,
        {
            let ghost st = rng.state;
            let ghost slots_c = slots@;
            match spawn_random_enemy_for_floor(self.depth, &mut rng) {
                Some((enemy_type, variant)) => {
                    proof {
                        let avail = kinds_on_floor(self.depth);
                        let k = (lcg32_out(lcg32_next(st)) as int) % (avail.len() as int);
                        assert(avail[k] == enemy_type);
                    }
                    let ghost kd = kind_draw(depth, st);
                    assert(kd.0 == enemy_type && kd.1 == variant && kd.2 == rng.state);
                    let mut ex = rng.next() as i32 % w;
                    let mut ey = rng.next() as i32 % h;
                    let ghost cell = map_cell(plan, kd.2);
                    assert(ex == cell.0 && ey == cell.1 && rng.state == cell.2);
                    let ghost placed = corridor_retry(plan, ex, ey, rng.state, 0);
                    let mut tries: u32 = 0;
                    while tries < 20
                        invariant
                            self.plan.wf(),
                            plan == self.plan,
                            w == self.plan.map_width,
                            h == self.plan.map_height,
                            0 <= ex < w,
                            0 <= ey < h,
                            tries <= 20,
                            corridor_retry(plan, ex, ey, rng.state, tries as nat) == placed,
                        ensures
                            0 <= ex < w,
                            0 <= ey < h,
                            (ex, ey, rng.state) == placed,
                        decreases 20 - tries,
                    {
                        if self.plan.is_walkable(ex, ey) && self.plan.map[ey as usize][ex as usize] != TileType::Room {
                            break;
                        }
                        ex = rng.next() as i32 % w;
                        ey = rng.next() as i32 % h;
                        tries = tries + 1;
                    }
                    if self.plan.is_walkable(ex, ey) && self.plan.map[ey as usize][ex as usize] != TileType::Room {
                        slots.push(SpawnSlot { x: ex, y: ey, enemy_type, variant, is_boss: false });
                    }
                    assert(corridor_enemy(plan, depth, slots_c, st) == (slots@, rng.state));
                },
                None => {
                    assert(corridor_enemy(plan, depth, slots_c, st) == (slots@, rng.state));
                },
            }
            c = c + 1;
        }
        slots
    }
}

/// A floor left and come back to is found as it was left: leaving floor
/// `g.depth` for another floor `t` and then coming back, the hero finds the
/// same tiles, the same rooms and the cells seen before (with those around
/// the arrival cell seen too).
pub proof fn lemma_floor_found_again(g: RoguelikeGame, f1: RoguelikeGame, f2: RoguelikeGame, t: u32, l1: u32, l2: u32)
    requires
        g.keeps_floors(),
        1 <= t <= 30,
        t != g.depth,
        floor_changed(g, f1, t, l1),
        floor_changed(f1, f2, g.depth, l2),
    ensures
        f2.floor_now().0 == g.floor_now().0,
        f2.floor_now().1 == g.floor_now().1,
        ({
            let a = f2.plan.arrival(g.depth, f1.player_x, cells_of(f1.enemies@));
            rows_view(f2.visited@) == seen_from(g.floor_now().2, a.0, a.1)
        }),
{
    let saved1 = g.floors.view_of().update(g.depth as int, Some(g.floor_now()));
    assert(f1@.depth == t);
    assert(f1.depth == t);
    assert(saved1[g.depth as int] == Some(g.floor_now()));
    match saved1[t as int] {
        Some(v) => {
            assert(f1.floors.view_of() == saved1);
        },
        None => {
            assert(f1.floors.view_of()[g.depth as int] == saved1[g.depth as int]);
        },
    }
    assert(f1.floors.view_of()[g.depth as int] == Some(g.floor_now()));
    let saved2 = f1.floors.view_of().update(f1.depth as int, Some(f1.floor_now()));
    assert(saved2[g.depth as int] == Some(g.floor_now()));
}

} // verus!
