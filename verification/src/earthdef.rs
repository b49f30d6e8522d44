//! Kinds and scenes of the earth-defence shooter, its scoring and waves,
//! and its flash bomb.
use vstd::prelude::*;

verus! {

#[derive(PartialEq, Eq, Clone, Copy, Structural)]
pub enum EarthDefScene {
    Title,
    Playing,
    GameOver,
}

#[derive(Clone, Copy, PartialEq, Eq, Structural)]
pub enum LaserType {
    Beam,
    Spread,
    Reflect,
}

#[derive(Clone, Copy, PartialEq, Eq, Structural)]
pub enum EnemyKind {
    Basic,
    Speed,
    Armored,
    Splitter,
}

/// Points for shooting down an enemy of kind `k` with the flash bomb.
pub open spec fn kill_value(k: EnemyKind) -> nat {
    match k {
        EnemyKind::Basic => 10,
        EnemyKind::Speed => 20,
        EnemyKind::Armored => 50,
        EnemyKind::Splitter => 30,
    }
}

/// The points of all the active enemies (`Some` of their kind).
pub open spec fn kill_bonus(enemies: Seq<Option<EnemyKind>>) -> nat
    decreases enemies.len(),
{
    if enemies.len() == 0 {
        0
    } else {
        kill_bonus(enemies.drop_last()) + match enemies.last() {
            Some(k) => kill_value(k),
            None => 0,
        }
    }
}

proof fn lemma_kill_bonus_prefix(s: Seq<Option<EnemyKind>>, i: int)
    requires
        0 <= i <= s.len(),
    ensures
        kill_bonus(s.take(i)) <= kill_bonus(s),
    decreases s.len(),
{
    if i < s.len() {
        lemma_kill_bonus_prefix(s.drop_last(), i);
        assert(s.drop_last().take(i) =~= s.take(i));
    } else {
        assert(s.take(i) =~= s);
    }
}

/// The sound the game plays when the flash bomb goes off.
pub const FLASH_SOUND: u8 = 4;

/// The flash bomb charges a new game starts with, and the most it holds.
pub const FLASH_MAX_CHARGES: u32 = 3;

/// The flash bomb: in play and with a charge left, one charge is spent,
/// every active enemy (`Some` of its kind) is shot down at once, scoring 10
/// for a basic, 20 for a speed, 50 for an armored and 30 for a splitter
/// enemy, and the sound `FLASH_SOUND` is raised. Returns the charges, the
/// score and the sound after, or nothing (and no change) outside play or
/// without a charge.
pub fn flash_bomb(scene: EarthDefScene, charges: u32, enemies: &mut Vec<Option<EnemyKind>>, score: u32) -> (r: Option<(u32, u32, u8)>)
    requires
        score + kill_bonus(old(enemies)@) <= u32::MAX,
    ensures
        charge_step(scene, charges, r),
        (scene != EarthDefScene::Playing || charges == 0) <==> r is None,
        r is None ==> final(enemies)@ == old(enemies)@,
        r matches Some((c, s, sound)) ==> {
            &&& c == charges - 1
            &&& s == score + kill_bonus(old(enemies)@)
            &&& sound == FLASH_SOUND
            &&& final(enemies)@ == Seq::new(old(enemies)@.len(), |i: int| None::<EnemyKind>)
        },
{
    if scene != EarthDefScene::Playing || charges == 0 {
        return None;
    }
    let ghost start = enemies@;
    let mut bonus: u32 = 0;
    let mut i: usize = 0;
    while i < enemies.len()
        invariant
            i <= enemies@.len(),
            enemies@.len() == start.len(),
            score + kill_bonus(start) <= u32::MAX,
            bonus == kill_bonus(start.take(i as int)),
            forall|j: int| i <= j < start.len() ==> #[trigger] enemies@[j] == start[j],
            forall|j: int| 0 <= j < i ==> #[trigger] enemies@[j] == None::<EnemyKind>,
        decreases start.len() - i,
    {
        let points: u32 = match enemies[i] {
            Some(EnemyKind::Basic) => 10,
            Some(EnemyKind::Speed) => 20,
            Some(EnemyKind::Armored) => 50,
            Some(EnemyKind::Splitter) => 30,
            None => 0,
        };
        proof {
            assert(start.take(i + 1).drop_last() =~= start.take(i as int));
            assert(start.take(i + 1).last() == start[i as int]);
            lemma_kill_bonus_prefix(start, i + 1);
        }
        bonus = bonus + points;
        enemies.set(i, None);
        i = i + 1;
    }
    proof {
        assert(start.take(start.len() as int) =~= start);
        assert(enemies@ =~= Seq::new(start.len(), |i: int| None::<EnemyKind>));
    }
    Some((charges - 1, score + bonus, FLASH_SOUND))
}

/// What a flash bomb does to the charges: it goes off exactly when in play
/// with a charge left, and then spends one.
pub open spec fn charge_step(scene: EarthDefScene, c: u32, r: Option<(u32, u32, u8)>) -> bool {
    &&& (scene != EarthDefScene::Playing || c == 0) <==> r is None
    &&& r matches Some((c2, _, _)) ==> c2 == c - 1
}

/// The charges after a flash bomb's outcome `r`.
pub open spec fn charges_after(c: u32, r: Option<(u32, u32, u8)>) -> u32 {
    match r {
        Some((c2, _, _)) => c2,
        None => c,
    }
}

/// How many of the outcomes went off.
pub open spec fn bombs_fired(rs: Seq<Option<(u32, u32, u8)>>) -> nat
    decreases rs.len(),
{
    if rs.len() == 0 {
        0
    } else {
        bombs_fired(rs.drop_last()) + if rs.last() is Some { 1nat } else { 0nat }
    }
}

/// Without a recharge, no more flash bombs go off than there were charges:
/// along any run of flash bombs, each starting from the charges the one
/// before left, the bombs that go off are at most the charges at the start
/// (three in a new game).
pub proof fn lemma_bombs_bounded_by_charges(
    scenes: Seq<EarthDefScene>,
    cs: Seq<u32>,
    rs: Seq<Option<(u32, u32, u8)>>,
)
    requires
        scenes.len() == rs.len(),
        cs.len() == rs.len() + 1,
        forall|k: int| 0 <= k < rs.len() ==> #[trigger] charge_step(scenes[k], cs[k], rs[k]),
        forall|k: int| 0 <= k < rs.len() ==> cs[k + 1] == #[trigger] charges_after(cs[k], rs[k]),
    ensures
        bombs_fired(rs) + cs.last() == cs[0],
        bombs_fired(rs) <= cs[0],
    decreases rs.len(),
{
    if rs.len() > 0 {
        let k = rs.len() - 1;
        assert(charge_step(scenes[k], cs[k], rs[k]));
        assert(cs[k + 1] == charges_after(cs[k], rs[k]));
        lemma_bombs_bounded_by_charges(scenes.drop_last(), cs.drop_last(), rs.drop_last());
        assert(cs.drop_last().last() == cs[k]);
    }
}

/// The counters of a game of earth defence.
pub struct EarthDefTally {
    pub scene: EarthDefScene,
    pub earth_hp: i32,
    pub flash_charges: u32,
    pub score: u32,
    pub wave: u32,
    pub kills_in_wave: u32,
}

impl EarthDefTally {
    /// A game just started: in play, the earth whole (100), three flash
    /// bombs, no score, the first wave with no kills.
    pub fn start() -> (r: Self)
        ensures
            r.scene == EarthDefScene::Playing,
            r.earth_hp == 100,
            r.flash_charges == FLASH_MAX_CHARGES,
            r.score == 0,
            r.wave == 1,
            r.kills_in_wave == 0,
    {
        EarthDefTally {
            scene: EarthDefScene::Playing,
            earth_hp: 100,
            flash_charges: FLASH_MAX_CHARGES,
            score: 0,
            wave: 1,
            kills_in_wave: 0,
        }
    }

    /// The recharge timer ran out: one more flash bomb, up to three.
    pub fn recharge(&mut self)
        ensures
            final(self).flash_charges == if old(self).flash_charges < FLASH_MAX_CHARGES {
                (old(self).flash_charges + 1) as u32
            } else {
                old(self).flash_charges
            },
            final(self).scene == old(self).scene,
            final(self).earth_hp == old(self).earth_hp,
            final(self).score == old(self).score,
            final(self).wave == old(self).wave,
            final(self).kills_in_wave == old(self).kills_in_wave,
    {
        if self.flash_charges < FLASH_MAX_CHARGES {
            self.flash_charges = self.flash_charges + 1;
        }
    }
}

/// The points of the enemies shot down, by kind.
pub open spec fn kills_points(killed: Seq<EnemyKind>) -> nat
    decreases killed.len(),
{
    if killed.len() == 0 {
        0
    } else {
        kills_points(killed.drop_last()) + kill_value(killed.last())
    }
}

proof fn lemma_kills_points_prefix(s: Seq<EnemyKind>, i: int)
    requires
        0 <= i <= s.len(),
    ensures
        kills_points(s.take(i)) <= kills_points(s),
    decreases s.len(),
{
    if i < s.len() {
        lemma_kills_points_prefix(s.drop_last(), i);
        assert(s.drop_last().take(i) =~= s.take(i));
    } else {
        assert(s.take(i) =~= s);
    }
}

/// How many shot-down enemies make a wave.
pub const WAVE_KILLS: u32 = 20;

/// The tally after the enemies `killed` by one laser shot: their points are
/// added to the score and their number to the wave's kills; at twenty
/// kills the next wave begins with no kills. Returns the score, the wave's
/// kills, the wave, and whether a new wave began.
pub fn record_kills(score: u32, kills_in_wave: u32, wave: u32, killed: &Vec<EnemyKind>) -> (r: (u32, u32, u32, bool))
    requires
        score + kills_points(killed@) <= u32::MAX,
        kills_in_wave + killed@.len() <= u32::MAX,
        wave < u32::MAX,
    ensures
        r.0 == score + kills_points(killed@),
        kills_in_wave + killed@.len() >= WAVE_KILLS ==> r.1 == 0 && r.2 == wave + 1 && r.3,
        kills_in_wave + killed@.len() < WAVE_KILLS ==> r.1 == kills_in_wave + killed@.len() && r.2 == wave && !r.3,
{
    let mut scored: u32 = 0;
    let mut i: usize = 0;
    while i < killed.len()
        invariant
            i <= killed@.len(),
            score + kills_points(killed@) <= u32::MAX,
            scored == kills_points(killed@.take(i as int)),
        decreases killed@.len() - i,
    {
        let points: u32 = match killed[i] {
            EnemyKind::Basic => 10,
            EnemyKind::Speed => 20,
            EnemyKind::Armored => 50,
            EnemyKind::Splitter => 30,
        };
        proof {
            assert(killed@.take(i + 1).drop_last() =~= killed@.take(i as int));
            assert(killed@.take(i + 1).last() == killed@[i as int]);
            lemma_kills_points_prefix(killed@, i + 1);
        }
        scored = scored + points;
        i = i + 1;
    }
    proof {
        assert(killed@.take(killed@.len() as int) =~= killed@);
    }
    let kills = kills_in_wave + killed.len() as u32;
    if kills >= WAVE_KILLS {
        (score + scored, 0, wave + 1, true)
    } else {
        (score + scored, kills, wave, false)
    }
}

} // verus!
