//! The shooter's small state machines: camera modes, boss phases, scenes.
use vstd::prelude::*;

verus! {

#[derive(Clone, Copy, PartialEq, Eq, Structural)]
pub enum CameraMode {
    Tps,
    Top,
    Fps,
}

pub open spec fn camera_number(m: CameraMode) -> u8 {
    match m {
        CameraMode::Tps => 0,
        CameraMode::Top => 1,
        CameraMode::Fps => 2,
    }
}

pub open spec fn camera_after(m: CameraMode) -> CameraMode {
    match m {
        CameraMode::Tps => CameraMode::Top,
        CameraMode::Top => CameraMode::Fps,
        CameraMode::Fps => CameraMode::Tps,
    }
}

impl CameraMode {
    /// The next mode in the cycle third-person, top-down, first-person.
    pub fn next(self) -> (r: Self)
        ensures
            r == camera_after(self),
            camera_number(r) == (camera_number(self) + 1) % 3,
    {
        match self {
            Self::Tps => Self::Top,
            Self::Top => Self::Fps,
            Self::Fps => Self::Tps,
        }
    }

    pub fn as_u8(self) -> (r: u8)
        ensures
            r == camera_number(self),
    {
        match self {
            Self::Tps => 0,
            Self::Top => 1,
            Self::Fps => 2,
        }
    }

    pub fn name(self) -> (r: &'static str)
        ensures
            self == CameraMode::Tps ==> r@ == "TPS"@,
            self == CameraMode::Top ==> r@ == "TOP"@,
            self == CameraMode::Fps ==> r@ == "FPS"@,
    {
        match self {
            Self::Tps => "TPS",
            Self::Top => "TOP",
            Self::Fps => "FPS",
        }
    }
}

/// Pressing the camera key three times comes back to the starting mode.
pub proof fn lemma_camera_cycle(m: CameraMode)
    ensures
        camera_after(camera_after(camera_after(m))) == m,
        camera_after(m) != m,
{
}

#[derive(Clone, Copy, PartialEq, Eq, Structural)]
pub enum BossPhase {
    Phase1,
    Phase2,
    Phase3,
    Dead,
}

pub open spec fn phase_for(hp: i32) -> BossPhase {
    if hp > 40 {
        BossPhase::Phase1
    } else if hp > 20 {
        BossPhase::Phase2
    } else if hp > 0 {
        BossPhase::Phase3
    } else {
        BossPhase::Dead
    }
}

impl BossPhase {
    /// The phase a boss with `hp` hit points is in: above 40 the first,
    /// above 20 the second, above 0 the third, else dead.
    pub fn from_hp(hp: i32) -> (r: Self)
        ensures
            r == phase_for(hp),
    {
        if hp > 40 {
            BossPhase::Phase1
        } else if hp > 20 {
            BossPhase::Phase2
        } else if hp > 0 {
            BossPhase::Phase3
        } else {
            BossPhase::Dead
        }
    }
}

pub open spec fn phase_rank(p: BossPhase) -> int {
    match p {
        BossPhase::Phase1 => 0,
        BossPhase::Phase2 => 1,
        BossPhase::Phase3 => 2,
        BossPhase::Dead => 3,
    }
}

/// Losing hit points never moves the boss back to an earlier phase.
pub proof fn lemma_phase_monotone(hp1: i32, hp2: i32)
    requires
        hp2 <= hp1,
    ensures
        phase_rank(phase_for(hp1)) <= phase_rank(phase_for(hp2)),
{
}

#[derive(Clone, Copy, PartialEq, Eq, Structural, Debug)]
pub enum EnemyKind {
    Basic,
    Shooter,
}

impl EnemyKind {
    /// Hit points an enemy of this kind spawns with.
    pub fn spawn_hp(self) -> (r: i32)
        ensures
            r == (if self == EnemyKind::Basic { 2i32 } else { 4i32 }),
    {
        match self {
            EnemyKind::Basic => 2,
            EnemyKind::Shooter => 4,
        }
    }
}

#[derive(Clone, Copy, PartialEq, Eq, Structural)]
pub enum BlasterScene {
    Title,
    Playing,
    StageClear,
    BossClear,
    GameOver,
}

/// The enemies of wave `wave`, in the order they are placed round the
/// ring: none for the boss wave (the sixth and later), else two per wave
/// plus two, every other one (from the first) a shooter from the fourth
/// wave on.
pub open spec fn roster(wave: u32) -> Option<Seq<EnemyKind>> {
    if wave >= 6 {
        None
    } else {
        Some(
            Seq::new(
                (wave * 2 + 2) as nat,
                |i: int|
                    if wave >= 4 && i % 2 == 0 {
                        EnemyKind::Shooter
                    } else {
                        EnemyKind::Basic
                    },
            ),
        )
    }
}

/// Who fights in wave `wave`; `None` when the boss comes.
pub fn wave_roster(wave: u32) -> (r: Option<Vec<EnemyKind>>)
    ensures
        match r {
            Some(v) => roster(wave) == Some(v@),
            None => roster(wave) is None,
        },
{
    if wave >= 6 {
        return None;
    }
    let count: usize = (wave * 2 + 2) as usize;
    let mut v: Vec<EnemyKind> = Vec::new();
    let mut i: usize = 0;
    while i < count
        invariant
            wave < 6,
            count == wave * 2 + 2,
            i <= count,
            v@.len() == i,
            forall|k: int| 0 <= k < i ==> #[trigger] v@[k] == (if wave >= 4 && k % 2 == 0 {
                EnemyKind::Shooter
            } else {
                EnemyKind::Basic
            }),
        decreases count - i,
    {
        v.push(if wave >= 4 && i % 2 == 0 {
            EnemyKind::Shooter
        } else {
            EnemyKind::Basic
        });
        i = i + 1;
    }
    proof {
        assert(v@ =~= roster(wave)->0);
    }
    Some(v)
}

/// How many bullets can fly at once.
pub const MAX_BULLETS: usize = 256;

/// How many slots are in flight.
pub open spec fn count_active(s: Seq<bool>) -> nat
    decreases s.len(),
{
    if s.len() == 0 {
        0
    } else {
        count_active(s.drop_last()) + if s.last() { 1nat } else { 0nat }
    }
}

proof fn lemma_count_active_set(s: Seq<bool>, i: int)
    requires
        0 <= i < s.len(),
        !s[i],
    ensures
        count_active(s.update(i, true)) == count_active(s) + 1,
    decreases s.len(),
{
    if i < s.len() - 1 {
        lemma_count_active_set(s.drop_last(), i);
        assert(s.update(i, true).drop_last() =~= s.drop_last().update(i, true));
    } else {
        assert(s.update(i, true).drop_last() =~= s.drop_last());
    }
}

/// The first `k` slots are in flight and the others free.
pub open spec fn filled(s: Seq<bool>, k: int) -> bool {
    forall|i: int| 0 <= i < s.len() ==> #[trigger] s[i] == (i < k)
}

/// Spawns fill the pool in order: with the first `k` slots in flight, a
/// spawn can only take slot `k` (and leaves the first `k + 1` in flight),
/// and a full pool (all 256 in flight) takes none. So a fresh pool takes
/// exactly 256 spawns, in slots 0, 1, ..., 255, and refuses the next.
pub proof fn lemma_spawns_fill_in_order(s: Seq<bool>, k: int, i: int)
    requires
        s.len() == MAX_BULLETS,
        0 <= k <= MAX_BULLETS,
        filled(s, k),
    ensures
        (0 <= i < MAX_BULLETS && !s[i] && forall|j: int| 0 <= j < i ==> #[trigger] s[j]) <==> (k < MAX_BULLETS && i == k),
        k < MAX_BULLETS ==> filled(s.update(k, true), k + 1),
        k == MAX_BULLETS <==> forall|j: int| 0 <= j < MAX_BULLETS ==> #[trigger] s[j],
        count_active(s) == k,
    decreases k,
{
    if 0 <= i < MAX_BULLETS && !s[i] && forall|j: int| 0 <= j < i ==> #[trigger] s[j] {
        if i > k {
            assert(s[k]);
        }
    }
    if k < MAX_BULLETS {
        assert(!s[k]);
        assert forall|j: int| 0 <= j < k implies #[trigger] s[j] by {}
    }
    if k == MAX_BULLETS {
        assert forall|j: int| 0 <= j < MAX_BULLETS implies #[trigger] s[j] by {}
    }
    if k > 0 {
        let s0 = s.update(k - 1, false);
        assert(filled(s0, k - 1));
        lemma_spawns_fill_in_order(s0, k - 1, i);
        lemma_count_active_set(s0, k - 1);
        assert(s0.update(k - 1, true) =~= s);
    } else {
        lemma_count_active_zero(s);
    }
}

proof fn lemma_count_active_zero(s: Seq<bool>)
    requires
        forall|i: int| 0 <= i < s.len() ==> !#[trigger] s[i],
    ensures
        count_active(s) == 0,
    decreases s.len(),
{
    if s.len() > 0 {
        lemma_count_active_zero(s.drop_last());
    }
}

/// Which of the bullet slots are in flight; where each flies is the
/// caller's to keep, by slot.
pub struct BulletPool {
    pub active: Vec<bool>,
}

impl BulletPool {
    pub open spec fn wf(&self) -> bool {
        self.active@.len() == MAX_BULLETS
    }

    /// All slots free.
    pub fn new() -> (r: Self)
        ensures
            r.wf(),
            forall|i: int| 0 <= i < MAX_BULLETS ==> !#[trigger] r.active@[i],
    {
        let mut active: Vec<bool> = Vec::new();
        let mut i: usize = 0;
        while i < MAX_BULLETS
            invariant
                i <= MAX_BULLETS,
                active@.len() == i,
                forall|j: int| 0 <= j < i ==> !#[trigger] active@[j],
            decreases MAX_BULLETS - i,
        {
            active.push(false);
            i = i + 1;
        }
        BulletPool { active }
    }

    /// Fires a bullet into the first free slot and returns it; with every
    /// slot in flight nothing is fired.
    pub fn spawn(&mut self) -> (r: Option<usize>)
        requires
            old(self).wf(),
        ensures
            final(self).wf(),
            match r {
                Some(i) => {
                    &&& i < MAX_BULLETS
                    &&& !old(self).active@[i as int]
                    &&& forall|j: int| 0 <= j < i ==> #[trigger] old(self).active@[j]
                    &&& final(self).active@ == old(self).active@.update(i as int, true)
                    &&& count_active(final(self).active@) == count_active(old(self).active@) + 1
                },
                None => {
                    &&& forall|j: int| 0 <= j < MAX_BULLETS ==> #[trigger] old(self).active@[j]
                    &&& final(self).active@ == old(self).active@
                },
            },
    {
        let mut i: usize = 0;
        while i < self.active.len()
            invariant
                self.wf(),
                i <= MAX_BULLETS,
                self.active@ == old(self).active@,
                forall|j: int| 0 <= j < i ==> #[trigger] self.active@[j],
            decreases MAX_BULLETS - i,
        {
            if !self.active[i] {
                proof {
                    lemma_count_active_set(self.active@, i as int);
                }
                self.active.set(i, true);
                return Some(i);
            }
            i = i + 1;
        }
        None
    }

    /// How many bullets are in flight.
    pub fn active_count(&self) -> (r: usize)
        requires
            self.wf(),
        ensures
            r == count_active(self.active@),
            r <= MAX_BULLETS,
    {
        let mut n: usize = 0;
        let mut i: usize = 0;
        while i < self.active.len()
            invariant
                self.wf(),
                i <= MAX_BULLETS,
                n == count_active(self.active@.take(i as int)),
                n <= i,
            decreases MAX_BULLETS - i,
        {
            proof {
                assert(self.active@.take(i + 1).drop_last() =~= self.active@.take(i as int));
            }
            if self.active[i] {
                n = n + 1;
            }
            i = i + 1;
        }
        proof {
            assert(self.active@.take(MAX_BULLETS as int) =~= self.active@);
        }
        n
    }

    /// The bullet in slot `i` stops flying.
    pub fn free(&mut self, i: usize)
        requires
            old(self).wf(),
            i < MAX_BULLETS,
        ensures
            final(self).wf(),
            final(self).active@ == old(self).active@.update(i as int, false),
    {
        self.active.set(i, false);
    }
}

} // verus!
