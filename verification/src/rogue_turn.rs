//! The hero's turn in the roguelike: what a key press asks for, where a
//! step ends up once the hero's target cell is known, what a blow of the
//! hero does, how the enemies answer, and the message log.
use vstd::prelude::*;
use crate::dungeon::{in_grid, tile};
use crate::rogue_rules::{
    FloorPlan, RogueEnemy, Progress, Strike, drop_for, settled, hp_left, dealt_to, item_slot, strike_at,
    roll_drop, take_drop, exp_for, melee_attacks, blows, hp_after_blows, ready_to_strike, cooldown_of, MAX_LEVEL,
};
use crate::roguelike::{TileType, DamageNumber, EquipmentInventory, AttackEffect, RogueScene};

verus! {

/// What a key press asks of the hero.
#[derive(Clone, Copy, PartialEq, Eq, Structural, Debug)]
pub enum PlayerAction {
    /// Take the weapon in this pack slot.
    SwitchWeapon(usize),
    /// Turn the flying spell towards this direction, without moving.
    Steer(i32),
    /// Raise a sword guard.
    Guard,
    /// Strike with the weapon held.
    Attack,
    /// Dodge three cells along the direction faced.
    Dodge,
    /// Face this direction and step one cell.
    Step(i32),
    /// Face this (unknown) direction and do nothing else.
    Face(i32),
}

/// The action of key code `action`: 0 to 3 step up, left, right, down; 4
/// strikes; 5 dodges; 6 to 9 take a weapon slot; 10 to 13 steer the spell;
/// 14 guards; any other code only turns the hero to it.
pub open spec fn action_of(action: i32) -> PlayerAction {
    if 6 <= action <= 9 {
        PlayerAction::SwitchWeapon((action - 6) as usize)
    } else if 10 <= action <= 13 {
        PlayerAction::Steer((action - 10) as i32)
    } else if action == 14 {
        PlayerAction::Guard
    } else if action == 4 {
        PlayerAction::Attack
    } else if action == 5 {
        PlayerAction::Dodge
    } else if 0 <= action <= 3 {
        PlayerAction::Step(action)
    } else {
        PlayerAction::Face(action)
    }
}

pub fn decode_action(action: i32) -> (r: PlayerAction)
    ensures
        r == action_of(action),
{
    if 6 <= action && action <= 9 {
        PlayerAction::SwitchWeapon((action - 6) as usize)
    } else if 10 <= action && action <= 13 {
        PlayerAction::Steer(action - 10)
    } else if action == 14 {
        PlayerAction::Guard
    } else if action == 4 {
        PlayerAction::Attack
    } else if action == 5 {
        PlayerAction::Dodge
    } else if 0 <= action && action <= 3 {
        PlayerAction::Step(action)
    } else {
        PlayerAction::Face(action)
    }
}

/// How a step (or dodge) to a resolved cell ends.
#[derive(Clone, Copy, PartialEq, Eq, Structural, Debug)]
pub enum StepOutcome {
    /// An enemy stands there: the hero strikes it (this index) instead.
    Strike(usize),
    /// The hero did not get anywhere.
    Bump,
    /// A hole: the hero falls to the next floor, when there is one.
    Fall,
    /// Stairs down, with a floor below.
    Descend,
    /// Stairs up, with a floor above.
    Ascend,
    /// The hero walks onto the cell.
    Walk,
}

/// Enemy `i` stands at (x, y).
pub open spec fn enemy_at(es: Seq<RogueEnemy>, i: int, x: int, y: int) -> bool {
    es[i].x == x && es[i].y == y
}

/// The deepest floor.
pub open spec fn deepest() -> u32 {
    30
}

impl FloorPlan {
    /// How a move that ends at (nx, ny) ends, when no enemy stands there:
    /// in place it bumps; then a hole, stairs down (above the deepest
    /// floor), stairs up (below the first), a walkable cell, in that order;
    /// anything else bumps.
    pub open spec fn landing(&self, nx: int, ny: int, moved: bool, depth: u32) -> StepOutcome {
        if !moved {
            StepOutcome::Bump
        } else if self.pit(nx, ny) {
            StepOutcome::Fall
        } else if in_grid(nx, ny, self.map_width as int, self.map_height as int) && tile(self.map@, nx, ny)
            == TileType::StairDown && depth < deepest() {
            StepOutcome::Descend
        } else if in_grid(nx, ny, self.map_width as int, self.map_height as int) && tile(self.map@, nx, ny)
            == TileType::StairUp && depth > 1 {
            StepOutcome::Ascend
        } else if self.walkable(nx, ny) {
            StepOutcome::Walk
        } else {
            StepOutcome::Bump
        }
    }

    /// How the hero's move to (nx, ny) ends: the first enemy standing there
    /// is struck; else see `landing`. `moved` tells whether (nx, ny) differs
    /// from where the hero stood.
    pub fn step_outcome(&self, enemies: &Vec<RogueEnemy>, nx: i32, ny: i32, moved: bool, depth: u32) -> (r: StepOutcome)
        requires
            self.wf(),
        ensures
            r matches StepOutcome::Strike(i) ==> i < enemies@.len() && enemy_at(enemies@, i as int, nx as int, ny as int)
                && forall|j: int| 0 <= j < i ==> !#[trigger] enemy_at(enemies@, j, nx as int, ny as int),
            !(r is Strike) ==> (forall|j: int| 0 <= j < enemies@.len() ==> !#[trigger] enemy_at(enemies@, j, nx as int, ny as int))
                && r == self.landing(nx as int, ny as int, moved, depth),
    {
        let mut i: usize = 0;
        while i < enemies.len()
            invariant
                i <= enemies@.len(),
                forall|j: int| 0 <= j < i ==> !#[trigger] enemy_at(enemies@, j, nx as int, ny as int),
            decreases enemies@.len() - i,
        {
            if enemies[i].x == nx && enemies[i].y == ny {
                return StepOutcome::Strike(i);
            }
            i = i + 1;
        }
        if !moved {
            return StepOutcome::Bump;
        }
        if self.is_pit(nx, ny) {
            return StepOutcome::Fall;
        }
        let inside = nx >= 0 && nx < self.map_width && ny >= 0 && ny < self.map_height;
        if inside {
            let t = self.map[ny as usize][nx as usize];
            if t == TileType::StairDown && depth < 30 {
                return StepOutcome::Descend;
            }
            if t == TileType::StairUp && depth > 1 {
                return StepOutcome::Ascend;
            }
        }
        if self.is_walkable(nx, ny) {
            StepOutcome::Walk
        } else {
            StepOutcome::Bump
        }
    }
}

/// The hero's growth leaves room for one more defeat: the bounds under
/// which experience and levels stay within their integers.
pub open spec fn room_to_grow(p: Progress) -> bool {
    &&& 1 <= p.level
    &&& p.next_level_exp >= 50
    &&& p.exp + 500 <= u32::MAX
    &&& p.level + (p.exp + 500) / 50 <= MAX_LEVEL
    &&& p.max_hp + 10 * ((p.exp + 500) / 50) <= u32::MAX
    &&& p.max_mp + 5 * ((p.exp + 500) / 50) <= u32::MAX
}

/// Every pack slot can take one more drop.
pub open spec fn room_in_pack(inventory: [u32; 8]) -> bool {
    forall|k: int| 0 <= k < 8 ==> #[trigger] inventory@[k] <= u32::MAX - 5
}

/// The hit-point number shown where a blow landed.
pub open spec fn hit_number(x: i32, y: i32, amount: u32) -> DamageNumber {
    DamageNumber { x, y, amount, ttl: 30, max_ttl: 30, color: "#ffd45c" }
}

proof fn lemma_drop_count(depth: u32, x: i32, is_boss: bool)
    ensures
        drop_for(depth, x, is_boss).count <= 5,
{
}

/// A blow of `damage` at (tx, ty) on floor `depth`: the first enemy there
/// takes it (see `strike_at`), shakes, and its damage is shown; a defeated
/// enemy is removed with its shake, the hero gains its experience and
/// picks up what it leaves (see `drop_for`). Returns what the blow did, or
/// nothing when no enemy stands there.
pub fn handle_attack_hit(
    enemies: &mut Vec<RogueEnemy>,
    shakes: &mut Vec<u32>,
    numbers: &mut Vec<DamageNumber>,
    progress: &mut Progress,
    inventory: &mut [u32; 8],
    pack: &mut EquipmentInventory,
    depth: u32,
    tx: i32,
    ty: i32,
    damage: u32,
) -> (r: Option<Strike>)
    requires
        damage <= i32::MAX,
        forall|i: int| 0 <= i < old(enemies)@.len() ==> #[trigger] old(enemies)@[i].def <= i32::MAX,
        old(shakes)@.len() == old(enemies)@.len(),
        room_to_grow(*old(progress)),
        room_in_pack(*old(inventory)),
    ensures
        final(shakes)@.len() == final(enemies)@.len(),
        match r {
            None => {
                &&& final(enemies)@ == old(enemies)@
                &&& forall|i: int| 0 <= i < old(enemies)@.len() ==> !(#[trigger] old(enemies)@[i].x == tx && old(enemies)@[i].y == ty)
                &&& final(shakes)@ == old(shakes)@
                &&& final(numbers)@ == old(numbers)@
                &&& *final(progress) == *old(progress)
                &&& *final(inventory) == *old(inventory)
                &&& final(pack).weapons@ == old(pack).weapons@
                &&& final(pack).armors@ == old(pack).armors@
                &&& final(pack).accessories@ == old(pack).accessories@
            },
            Some(h) => {
                let i = h.index as int;
                let e = old(enemies)@[i];
                let left = hp_left(e.hp, dealt_to(damage, e.def));
                let d = drop_for(depth, tx, e.is_boss);
                let slot = item_slot(d.item);
                &&& 0 <= i < old(enemies)@.len()
                &&& e.x == tx && e.y == ty
                &&& forall|j: int| 0 <= j < i ==> !(#[trigger] old(enemies)@[j].x == tx && old(enemies)@[j].y == ty)
                &&& h.dealt == dealt_to(damage, e.def)
                &&& h.was_boss == e.is_boss
                &&& h.defeated == (left == 0)
                &&& final(numbers)@ == old(numbers)@.push(hit_number(tx, ty, h.dealt))
                &&& !h.defeated ==> {
                    &&& final(enemies)@ == old(enemies)@.update(i, RogueEnemy { hp: left as u32, ..e })
                    &&& final(shakes)@ == old(shakes)@.update(i, 5u32)
                    &&& *final(progress) == *old(progress)
                    &&& *final(inventory) == *old(inventory)
                    &&& final(pack).weapons@ == old(pack).weapons@
                    &&& final(pack).armors@ == old(pack).armors@
                    &&& final(pack).accessories@ == old(pack).accessories@
                }
                &&& h.defeated ==> {
                    &&& final(enemies)@ == old(enemies)@.remove(i)
                    &&& final(shakes)@ == old(shakes)@.remove(i)
                    &&& *final(progress) == settled(
                        Progress { exp: (old(progress).exp + (if e.is_boss { 500int } else { 10int })) as u32, ..*old(progress) },
                    )
                    &&& final(inventory)@ == old(inventory)@.update(slot, (old(inventory)@[slot] + d.count) as u32)
                    &&& final(pack).weapons@ == (match d.gear {
                        Some(crate::rogue_rules::Gear::Weapon(w)) => old(pack).weapons@.push(w),
                        _ => old(pack).weapons@,
                    })
                    &&& final(pack).armors@ == (match d.gear {
                        Some(crate::rogue_rules::Gear::Armor(a)) => old(pack).armors@.push(a),
                        _ => old(pack).armors@,
                    })
                    &&& final(pack).accessories@ == (match d.gear {
                        Some(crate::rogue_rules::Gear::Accessory(a)) => old(pack).accessories@.push(a),
                        _ => old(pack).accessories@,
                    })
                }
            },
        },
{
    let hit = strike_at(enemies, tx, ty, damage);
    match hit {
        None => None,
        Some(h) => {
            numbers.push(DamageNumber { x: tx, y: ty, amount: h.dealt, ttl: 30, max_ttl: 30, color: "#ffd45c" });
            if h.defeated {
                shakes.remove(h.index);
                let d = roll_drop(depth, tx, h.was_boss);
                proof {
                    lemma_drop_count(depth, tx, h.was_boss);
                    assert(inventory@[item_slot(d.item)] <= u32::MAX - 5);
                }
                take_drop(inventory, pack, d);
                progress.gain_exp(exp_for(h.was_boss));
            } else {
                shakes.set(h.index, 5);
            }
            Some(h)
        },
    }
}

/// The colour of the mark an enemy blow leaves on the hero.
pub open spec fn blow_color(no_damage: bool, guarding: bool) -> &'static str {
    if no_damage {
        "rgba(120, 220, 255, 0.92)"
    } else if guarding {
        "rgba(100, 180, 255, 0.92)"
    } else {
        "rgba(255, 80, 80, 0.92)"
    }
}

/// The hit-point number an enemy blow of `damage` shows on the hero.
pub open spec fn blow_number(px: i32, py: i32, damage: u32, no_damage: bool) -> DamageNumber {
    DamageNumber {
        x: px,
        y: py,
        amount: if no_damage { 0 } else { damage },
        ttl: 30,
        max_ttl: 30,
        color: if no_damage { "#66ccff" } else { "#ff6666" },
    }
}

/// An enemy after the melee phase: a rested neighbour of the hero that
/// struck waits its cooldown.
pub open spec fn after_melee(e: RogueEnemy, px: int, py: int, scale: u32) -> RogueEnemy {
    if ready_to_strike(e, px, py) {
        RogueEnemy { attack_cooldown: cooldown_of(e, scale) as u32, ..e }
    } else {
        e
    }
}

/// An enemy after the ranged phase: one that fired waits the ranged
/// interval.
pub open spec fn after_volley(plan: FloorPlan, e: RogueEnemy, px: int, py: int, scale: u32) -> RogueEnemy {
    if plan.fires(e, px, py) {
        RogueEnemy { attack_cooldown: (if 42 * scale / 100 >= 1 { 42 * scale / 100 } else { 1 }) as u32, ..e }
    } else {
        e
    }
}

/// The enemies' answer to the hero at (px, py): each rested neighbour
/// strikes (see `melee_attacks`), each blow marks the hero and shows its
/// damage, the hero shakes after any blow, falls at zero hit points (the
/// game is over), and then the ranged enemies fire (see `ranged_volley`).
/// Returns the blows and the shots, each as enemy index and damage.
pub fn enemy_attack_adjacent(
    plan: &FloorPlan,
    enemies: &mut Vec<RogueEnemy>,
    effects: &mut Vec<AttackEffect>,
    numbers: &mut Vec<DamageNumber>,
    player_shake: &mut u32,
    hp: &mut u32,
    scene: &mut RogueScene,
    px: i32,
    py: i32,
    def_bonus: u32,
    guarding: bool,
    no_damage: bool,
    scale: u32,
) -> (r: (Vec<(usize, u32)>, Vec<(usize, u32)>))
    requires
        plan.wf(),
        -100000 <= px <= 100000,
        -100000 <= py <= 100000,
        def_bonus <= 1000000,
        scale <= 10000000,
        forall|i: int|
            0 <= i < old(enemies)@.len() ==> #[trigger] old(enemies)@[i].atk <= 100000 && -100000 <= old(
                enemies,
            )@[i].x <= 100000 && -100000 <= old(enemies)@[i].y <= 100000,
    ensures
        ({
            let es = old(enemies)@;
            let n = es.len() as int;
            let hits = blows(es, n, px as int, py as int, def_bonus, guarding);
            let mark = AttackEffect { x: px, y: py, ttl: 10, max_ttl: 10, color: blow_color(no_damage, guarding) };
            &&& r.0@ == hits
            &&& *final(hp) == hp_after_blows(es, n, px as int, py as int, def_bonus, guarding, no_damage, *old(hp) as int)
            &&& final(enemies)@.len() == es.len()
            &&& forall|i: int| 0 <= i < n ==> #[trigger] final(enemies)@[i] == after_volley(
                *plan,
                after_melee(es[i], px as int, py as int, scale),
                px as int,
                py as int,
                scale,
            )
            &&& r.1@ == plan.shots(
                Seq::new(es.len(), |i: int| after_melee(es[i], px as int, py as int, scale)),
                n,
                px as int,
                py as int,
            )
            &&& final(effects)@ == old(effects)@ + (if in_grid(px as int, py as int, plan.map_width as int, plan.map_height as int) {
                Seq::new(hits.len(), |k: int| mark)
            } else {
                Seq::empty()
            })
            &&& final(numbers)@ == old(numbers)@ + Seq::new(hits.len(), |k: int| blow_number(px, py, hits[k].1, no_damage))
            &&& *final(player_shake) == (if hits.len() > 0 { 5 } else { *old(player_shake) })
            &&& *final(scene) == (if *final(hp) == 0 { RogueScene::GameOver } else { *old(scene) })
        }),
{
    let ghost es = enemies@;
    let blows_done = melee_attacks(enemies, px, py, def_bonus, guarding, no_damage, scale, hp);
    let ghost mid = enemies@;
    proof {
        assert(mid =~= Seq::new(es.len(), |i: int| after_melee(es[i], px as int, py as int, scale)));
    }
    let color: &'static str = if no_damage {
        "rgba(120, 220, 255, 0.92)"
    } else if guarding {
        "rgba(100, 180, 255, 0.92)"
    } else {
        "rgba(255, 80, 80, 0.92)"
    };
    let inside = px >= 0 && px < plan.map_width && py >= 0 && py < plan.map_height;
    let ghost e0 = effects@;
    let ghost n0 = numbers@;
    let mut k: usize = 0;
    while k < blows_done.len()
        invariant
            k <= blows_done@.len(),
            color == blow_color(no_damage, guarding),
            inside == in_grid(px as int, py as int, plan.map_width as int, plan.map_height as int),
            effects@ == e0 + (if inside {
                Seq::new(k as nat, |j: int| AttackEffect { x: px, y: py, ttl: 10, max_ttl: 10, color })
            } else {
                Seq::empty()
            }),
            numbers@ == n0 + Seq::new(k as nat, |j: int| blow_number(px, py, blows_done@[j].1, no_damage)),
        decreases blows_done@.len() - k,
    {
        let (_, damage) = blows_done[k];
        if inside {
            effects.push(AttackEffect { x: px, y: py, ttl: 10, max_ttl: 10, color });
        }
        let amount: u32 = if no_damage { 0 } else { damage };
        let ncolor: &'static str = if no_damage { "#66ccff" } else { "#ff6666" };
        numbers.push(DamageNumber { x: px, y: py, amount, ttl: 30, max_ttl: 30, color: ncolor });
        proof {
            assert(effects@ =~= e0 + (if inside {
                Seq::new((k + 1) as nat, |j: int| AttackEffect { x: px, y: py, ttl: 10, max_ttl: 10, color })
            } else {
                Seq::empty()
            }));
            assert(numbers@ =~= n0 + Seq::new((k + 1) as nat, |j: int| blow_number(px, py, blows_done@[j].1, no_damage)));
        }
        k = k + 1;
    }
    if blows_done.len() > 0 {
        *player_shake = 5;
    }
    if *hp == 0 {
        *scene = RogueScene::GameOver;
    }
    let shots = plan.ranged_volley(enemies, px, py, scale);
    (blows_done, shots)
}

/// The message log keeps the five newest lines.
pub open spec fn logged(log: Seq<String>, msg: String) -> Seq<String> {
    let l = log.push(msg);
    if l.len() > 5 {
        l.drop_first()
    } else {
        l
    }
}

/// Adds a line to the message log; past five lines the oldest goes.
pub fn add_message(messages: &mut Vec<String>, msg: String)
    ensures
        final(messages)@ == logged(old(messages)@, msg),
{
    messages.push(msg);
    if messages.len() > 5 {
        messages.remove(0);
        proof {
            assert(messages@ =~= old(messages)@.push(msg).drop_first());
        }
    }
}

} // verus!
