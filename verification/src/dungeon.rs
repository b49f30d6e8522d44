//! Floor plans of the roguelike dungeon: rooms scattered at random with a
//! margin between them, joined in order by L-shaped corridors, stairs up in
//! the first room and down in the last, and holes in some inner rooms.
use vstd::prelude::*;
use crate::roguelike::{TileType, Room, LcgRng, lcg32_next, lcg32_out};

verus! {

/// The tile at column `x` of row `y`.
pub open spec fn tile(map: Seq<Vec<TileType>>, x: int, y: int) -> TileType {
    map[y]@[x]
}

/// `map` has `height` rows of `width` tiles.
pub open spec fn grid(map: Seq<Vec<TileType>>, width: int, height: int) -> bool {
    &&& map.len() == height
    &&& forall|j: int| 0 <= j < height ==> (#[trigger] map[j])@.len() == width
}

pub open spec fn in_grid(x: int, y: int, width: int, height: int) -> bool {
    0 <= x < width && 0 <= y < height
}

/// Cell (x, y) lies in room `r`.
pub open spec fn in_room(r: Room, x: int, y: int) -> bool {
    r.x <= x < r.x + r.width && r.y <= y < r.y + r.height
}

/// Cell (x, y) lies in one of `rooms`.
pub open spec fn in_some_room(rooms: Seq<Room>, x: int, y: int) -> bool {
    exists|i: int| 0 <= i < rooms.len() && #[trigger] in_room(rooms[i], x, y)
}

/// Rooms `a` and `b` keep at least two cells between them, or lie apart
/// along one axis with such a margin.
pub open spec fn apart(a: Room, b: Room) -> bool {
    !(a.x < b.x + b.width + 2 && a.x + a.width + 2 > b.x && a.y < b.y + b.height + 2 && a.y + a.height
        + 2 > b.y)
}

/// The sizes the generator draws, and a place at least two cells from the
/// left and top edges and four from the right and bottom ones.
pub open spec fn room_ok(r: Room, width: int, height: int) -> bool {
    &&& 7 <= r.width <= 11
    &&& 5 <= r.height <= 8
    &&& 2 <= r.x && r.x + r.width <= width - 4
    &&& 2 <= r.y && r.y + r.height <= height - 4
}

/// The rooms are placed as the generator places them and lie apart.
pub open spec fn rooms_ok(rooms: Seq<Room>, width: int, height: int) -> bool {
    &&& forall|i: int| 0 <= i < rooms.len() ==> room_ok(#[trigger] rooms[i], width, height)
    &&& forall|i: int, j: int| 0 <= i < j < rooms.len() ==> apart(#[trigger] rooms[i], #[trigger] rooms[j])
}

pub open spec fn center_x(r: Room) -> int {
    r.x + r.width / 2
}

pub open spec fn center_y(r: Room) -> int {
    r.y + r.height / 2
}

pub open spec fn between(v: int, a: int, b: int) -> bool {
    if a < b {
        a <= v <= b
    } else {
        b <= v <= a
    }
}

/// Cell (x, y) is on the corridor from the centre of `a` to that of `b`:
/// along the row of `a`'s centre, then along the column of `b`'s centre.
pub open spec fn on_leg(a: Room, b: Room, x: int, y: int) -> bool {
    ||| (y == center_y(a) && between(x, center_x(a), center_x(b)))
    ||| (x == center_x(b) && between(y, center_y(a), center_y(b)))
}

/// Cell (x, y) is on one of the corridors joining rooms `k - 1` and `k` for
/// `1 <= k < n`.
pub open spec fn on_corridor(rooms: Seq<Room>, n: int, x: int, y: int) -> bool {
    exists|k: int| 1 <= k < n && k < rooms.len() && #[trigger] on_leg(rooms[k - 1], rooms[k], x, y)
}

/// The tile a cell gets from rooms and corridors alone.
pub open spec fn plan_tile(rooms: Seq<Room>, x: int, y: int) -> TileType {
    if in_some_room(rooms, x, y) {
        TileType::Room
    } else if on_corridor(rooms, rooms.len() as int, x, y) {
        TileType::Floor
    } else {
        TileType::Wall
    }
}

pub open spec fn stair_up_at(rooms: Seq<Room>, x: int, y: int) -> bool {
    rooms.len() > 0 && x == rooms[0].x + 1 && y == rooms[0].y + 1
}

pub open spec fn stair_down_at(rooms: Seq<Room>, x: int, y: int) -> bool {
    let l = rooms.last();
    rooms.len() > 1 && x == l.x + l.width - 2 && y == l.y + l.height - 2
}

/// The two hole cells of a room: two in from its top-left corner, three in
/// from its bottom-right one.
pub open spec fn pit_of(r: Room, x: int, y: int) -> bool {
    (x == r.x + 2 && y == r.y + 2) || (x == r.x + r.width - 3 && y == r.y + r.height - 3)
}

/// Rooms 1 to `n - 1` (at most the fifth) have holes.
pub open spec fn pit_at(rooms: Seq<Room>, n: int, x: int, y: int) -> bool {
    exists|k: int| 1 <= k < n && k < rooms.len() && k <= 5 && #[trigger] pit_of(rooms[k], x, y)
}

/// The finished tile of a cell.
pub open spec fn dungeon_tile(rooms: Seq<Room>, x: int, y: int) -> TileType {
    if stair_up_at(rooms, x, y) {
        TileType::StairUp
    } else if stair_down_at(rooms, x, y) {
        TileType::StairDown
    } else if pit_at(rooms, rooms.len() as int, x, y) {
        TileType::Pit
    } else {
        plan_tile(rooms, x, y)
    }
}

fn set_tile(map: &mut Vec<Vec<TileType>>, x: usize, y: usize, t: TileType, Ghost(width): Ghost<int>, Ghost(height): Ghost<int>)
    requires
        grid(old(map)@, width, height),
        in_grid(x as int, y as int, width, height),
    ensures
        grid(final(map)@, width, height),
        forall|a: int, b: int|
            in_grid(a, b, width, height) ==> #[trigger] tile(final(map)@, a, b) == (if a == x && b == y {
                t
            } else {
                tile(old(map)@, a, b)
            }),
{
    map[y].set(x, t);
    proof {
        assert forall|a: int, b: int| in_grid(a, b, width, height) implies #[trigger] tile(map@, a, b) == (if a == x
            && b == y {
            t
        } else {
            tile(old(map)@, a, b)
        }) by {
            if b != y {
                assert(map@[b] == old(map)@[b]);
            }
        }
    }
}

/// A map of `height` rows of `width` wall tiles.
fn wall_map(width: usize, height: usize) -> (map: Vec<Vec<TileType>>)
    ensures
        grid(map@, width as int, height as int),
        forall|a: int, b: int| in_grid(a, b, width as int, height as int) ==> #[trigger] tile(map@, a, b) == TileType::Wall,
{
    let mut map: Vec<Vec<TileType>> = Vec::new();
    let mut j: usize = 0;
    while j < height
        invariant
            j <= height,
            map@.len() == j,
            forall|k: int| 0 <= k < j ==> (#[trigger] map@[k])@.len() == width,
            forall|a: int, b: int| 0 <= a < width && 0 <= b < j ==> #[trigger] tile(map@, a, b) == TileType::Wall,
        decreases height - j,
    {
        let mut row: Vec<TileType> = Vec::new();
        let mut i: usize = 0;
        while i < width
            invariant
                i <= width,
                row@.len() == i,
                forall|a: int| 0 <= a < i ==> #[trigger] row@[a] == TileType::Wall,
            decreases width - i,
        {
            row.push(TileType::Wall);
            i = i + 1;
        }
        let ghost m0 = map@;
        map.push(row);
        proof {
            assert forall|a: int, b: int| 0 <= a < width && 0 <= b < j + 1 implies #[trigger] tile(map@, a, b)
                == TileType::Wall by {
                if b < j {
                    assert(map@[b] == m0[b]);
                    assert(tile(m0, a, b) == TileType::Wall);
                } else {
                    assert(map@[b]@ == row@);
                    assert(row@[a] == TileType::Wall);
                }
            }
        }
        j = j + 1;
    }
    map
}

/// Lays room `r` out as room tiles.
fn fill_room(map: &mut Vec<Vec<TileType>>, r: Room, Ghost(width): Ghost<int>, Ghost(height): Ghost<int>)
    requires
        grid(old(map)@, width, height),
        room_ok(r, width, height),
        width <= i32::MAX,
        height <= i32::MAX,
    ensures
        grid(final(map)@, width, height),
        forall|a: int, b: int|
            in_grid(a, b, width, height) ==> #[trigger] tile(final(map)@, a, b) == (if in_room(r, a, b) {
                TileType::Room
            } else {
                tile(old(map)@, a, b)
            }),
{
    let ghost m0 = map@;
    let mut ry: i32 = r.y;
    while ry < r.y + r.height
        invariant
            r.y <= ry <= r.y + r.height,
            room_ok(r, width, height),
            width <= i32::MAX,
            height <= i32::MAX,
            grid(map@, width, height),
            forall|a: int, b: int|
                in_grid(a, b, width, height) ==> #[trigger] tile(map@, a, b) == (if r.x <= a < r.x + r.width && r.y
                    <= b < ry {
                    TileType::Room
                } else {
                    tile(m0, a, b)
                }),
        decreases r.y + r.height - ry,
    {
        let mut rx: i32 = r.x;
        while rx < r.x + r.width
            invariant
                r.x <= rx <= r.x + r.width,
                r.y <= ry < r.y + r.height,
                room_ok(r, width, height),
                width <= i32::MAX,
                height <= i32::MAX,
                grid(map@, width, height),
                forall|a: int, b: int|
                    in_grid(a, b, width, height) ==> #[trigger] tile(map@, a, b) == (if (r.x <= a < r.x + r.width
                        && r.y <= b < ry) || (b == ry && r.x <= a < rx) {
                        TileType::Room
                    } else {
                        tile(m0, a, b)
                    }),
            decreases r.x + r.width - rx,
        {
            set_tile(map, rx as usize, ry as usize, TileType::Room, Ghost(width), Ghost(height));
            rx = rx + 1;
        }
        ry = ry + 1;
    }
}

/// Digs the corridor from the centre of `a` to that of `b` through walls,
/// leaving room tiles as they are.
fn dig_corridor(map: &mut Vec<Vec<TileType>>, a: Room, b: Room, width: i32, height: i32)
    requires
        grid(old(map)@, width as int, height as int),
        room_ok(a, width as int, height as int),
        room_ok(b, width as int, height as int),
    ensures
        grid(final(map)@, width as int, height as int),
        forall|x: int, y: int|
            in_grid(x, y, width as int, height as int) ==> #[trigger] tile(final(map)@, x, y) == (if on_leg(a, b, x, y) && tile(
                old(map)@,
                x,
                y,
            ) != TileType::Room {
                TileType::Floor
            } else {
                tile(old(map)@, x, y)
            }),
{
    let ghost m0 = map@;
    let x1: i32 = a.x + a.width / 2;
    let y1: i32 = a.y + a.height / 2;
    let x2: i32 = b.x + b.width / 2;
    let y2: i32 = b.y + b.height / 2;
    let (start, end) = if x1 < x2 {
        (x1, x2)
    } else {
        (x2, x1)
    };
    let mut x: i32 = start;
    while x <= end
        invariant
            start <= x <= end + 1,
            start == (if x1 < x2 { x1 } else { x2 }),
            end == (if x1 < x2 { x2 } else { x1 }),
            x1 == center_x(a) && y1 == center_y(a) && x2 == center_x(b) && y2 == center_y(b),
            room_ok(a, width as int, height as int),
            room_ok(b, width as int, height as int),
            grid(map@, width as int, height as int),
            forall|p: int, q: int|
                in_grid(p, q, width as int, height as int) ==> #[trigger] tile(map@, p, q) == (if q == y1 && start <= p < x
                    && tile(m0, p, q) != TileType::Room {
                    TileType::Floor
                } else {
                    tile(m0, p, q)
                }),
        decreases end + 1 - x,
    {
        if x >= 0 && x < width && y1 >= 0 && y1 < height {
            if map[y1 as usize][x as usize] != TileType::Room {
                set_tile(map, x as usize, y1 as usize, TileType::Floor, Ghost(width as int), Ghost(height as int));
            }
        }
        x = x + 1;
    }
    let ghost m1 = map@;
    let (start, end) = if y1 < y2 {
        (y1, y2)
    } else {
        (y2, y1)
    };
    let mut y: i32 = start;
    while y <= end
        invariant
            start <= y <= end + 1,
            start == (if y1 < y2 { y1 } else { y2 }),
            end == (if y1 < y2 { y2 } else { y1 }),
            x1 == center_x(a) && y1 == center_y(a) && x2 == center_x(b) && y2 == center_y(b),
            room_ok(a, width as int, height as int),
            room_ok(b, width as int, height as int),
            grid(map@, width as int, height as int),
            forall|p: int, q: int|
                in_grid(p, q, width as int, height as int) ==> #[trigger] tile(map@, p, q) == (if p == x2 && start <= q < y
                    && tile(m1, p, q) != TileType::Room {
                    TileType::Floor
                } else {
                    tile(m1, p, q)
                }),
        decreases end + 1 - y,
    {
        if x2 >= 0 && x2 < width && y >= 0 && y < height {
            if map[y as usize][x2 as usize] != TileType::Room {
                set_tile(map, x2 as usize, y as usize, TileType::Floor, Ghost(width as int), Ghost(height as int));
            }
        }
        y = y + 1;
    }
    proof {
        assert forall|p: int, q: int| in_grid(p, q, width as int, height as int) implies #[trigger] tile(map@, p, q) == (if on_leg(
            a,
            b,
            p,
            q,
        ) && tile(m0, p, q) != TileType::Room {
            TileType::Floor
        } else {
            tile(m0, p, q)
        }) by {
            assert(tile(m1, p, q) == (if q == y1 && between(p, x1 as int, x2 as int) && tile(m0, p, q) != TileType::Room {
                TileType::Floor
            } else {
                tile(m0, p, q)
            }));
        }
    }
}

proof fn lemma_in_some_room_push(rooms: Seq<Room>, r: Room, x: int, y: int)
    ensures
        in_some_room(rooms.push(r), x, y) == (in_some_room(rooms, x, y) || in_room(r, x, y)),
{
    let s = rooms.push(r);
    if in_some_room(rooms, x, y) {
        let i = choose|i: int| 0 <= i < rooms.len() && #[trigger] in_room(rooms[i], x, y);
        assert(s[i] == rooms[i]);
    }
    if in_room(r, x, y) {
        assert(s[rooms.len() as int] == r);
    }
    if in_some_room(s, x, y) {
        let i = choose|i: int| 0 <= i < s.len() && #[trigger] in_room(s[i], x, y);
        if i < rooms.len() {
            assert(s[i] == rooms[i]);
        }
    }
}

proof fn lemma_on_corridor_step(rooms: Seq<Room>, i: int, x: int, y: int)
    requires
        1 <= i < rooms.len(),
    ensures
        on_corridor(rooms, i + 1, x, y) == (on_corridor(rooms, i, x, y) || on_leg(rooms[i - 1], rooms[i], x, y)),
{
    if on_corridor(rooms, i + 1, x, y) {
        let k = choose|k: int| 1 <= k < i + 1 && k < rooms.len() && #[trigger] on_leg(rooms[k - 1], rooms[k], x, y);
        if k < i {
            assert(on_corridor(rooms, i, x, y));
        }
    }
}

proof fn lemma_pit_step(rooms: Seq<Room>, k: int, x: int, y: int)
    requires
        1 <= k < rooms.len(),
    ensures
        pit_at(rooms, k + 1, x, y) == (pit_at(rooms, k, x, y) || (k <= 5 && pit_of(rooms[k], x, y))),
{
    if pit_at(rooms, k + 1, x, y) {
        let j = choose|j: int| 1 <= j < k + 1 && j < rooms.len() && j <= 5 && #[trigger] pit_of(rooms[j], x, y);
        if j < k {
            assert(pit_at(rooms, k, x, y));
        }
    }
}

/// Rooms that lie apart share no cell.
proof fn lemma_room_unique(rooms: Seq<Room>, width: int, height: int, i: int, j: int, x: int, y: int)
    requires
        rooms_ok(rooms, width, height),
        0 <= i < rooms.len(),
        0 <= j < rooms.len(),
        i != j,
        in_room(rooms[i], x, y),
    ensures
        !in_room(rooms[j], x, y),
{
    if i < j {
        assert(apart(rooms[i], rooms[j]));
    } else {
        assert(apart(rooms[j], rooms[i]));
    }
}

/// A pit cell lies in its room, apart from the stairs.
proof fn lemma_pit_cell(rooms: Seq<Room>, width: int, height: int, k: int, x: int, y: int)
    requires
        rooms_ok(rooms, width, height),
        1 <= k < rooms.len(),
        pit_of(rooms[k], x, y),
    ensures
        in_room(rooms[k], x, y),
        in_some_room(rooms, x, y),
        !stair_up_at(rooms, x, y),
        !stair_down_at(rooms, x, y),
{
    assert(room_ok(rooms[k], width, height));
    assert(room_ok(rooms[0], width, height));
    if stair_up_at(rooms, x, y) {
        assert(in_room(rooms[0], x, y));
        lemma_room_unique(rooms, width, height, k, 0, x, y);
    }
    let l = rooms.len() - 1;
    assert(room_ok(rooms[l], width, height));
    if stair_down_at(rooms, x, y) && k != l {
        assert(in_room(rooms[l], x, y));
        lemma_room_unique(rooms, width, height, k, l, x, y);
    }
}

/// Whether `cand` comes within two cells of one of `rooms`.
fn overlaps_any(rooms: &Vec<Room>, cand: Room, Ghost(w): Ghost<int>, Ghost(h): Ghost<int>) -> (r: bool)
    requires
        rooms_ok(rooms@, w, h),
        room_ok(cand, w, h),
        w <= 100000,
        h <= 100000,
    ensures
        !r <==> forall|k: int| 0 <= k < rooms@.len() ==> apart(cand, #[trigger] rooms@[k]),
{
    let mut overlaps = false;
    let mut j: usize = 0;
    while j < rooms.len() && !overlaps
        invariant
            j <= rooms@.len(),
            !overlaps ==> forall|k: int| 0 <= k < j ==> apart(cand, #[trigger] rooms@[k]),
            overlaps ==> !apart(cand, rooms@[j - 1]) && j >= 1,
            room_ok(cand, w, h),
            rooms_ok(rooms@, w, h),
            w <= 100000,
            h <= 100000,
        decreases rooms@.len() - j,
    {
        let r = rooms[j];
        proof {
            assert(room_ok(rooms@[j as int], w, h));
        }
        if cand.x < r.x + r.width + 2 && cand.x + cand.width + 2 > r.x && cand.y < r.y + r.height + 2 && cand.y
            + cand.height + 2 > r.y {
            overlaps = true;
        }
        j = j + 1;
    }
    overlaps
}

/// Keeps room `cand`, which lies apart from the rooms kept so far.
fn add_room(map: &mut Vec<Vec<TileType>>, rooms: &mut Vec<Room>, cand: Room, Ghost(w): Ghost<int>, Ghost(h): Ghost<int>)
    requires
        grid(old(map)@, w, h),
        rooms_ok(old(rooms)@, w, h),
        room_ok(cand, w, h),
        w <= 100000,
        h <= 100000,
        forall|k: int| 0 <= k < old(rooms)@.len() ==> apart(cand, #[trigger] old(rooms)@[k]),
        forall|x: int, y: int|
            in_grid(x, y, w, h) ==> #[trigger] tile(old(map)@, x, y) == (if in_some_room(old(rooms)@, x, y) {
                TileType::Room
            } else {
                TileType::Wall
            }),
    ensures
        final(rooms)@ == old(rooms)@.push(cand),
        grid(final(map)@, w, h),
        rooms_ok(final(rooms)@, w, h),
        forall|x: int, y: int|
            in_grid(x, y, w, h) ==> #[trigger] tile(final(map)@, x, y) == (if in_some_room(final(rooms)@, x, y) {
                TileType::Room
            } else {
                TileType::Wall
            }),
{
    let ghost m0 = map@;
    let ghost r0 = rooms@;
    fill_room(map, cand, Ghost(w), Ghost(h));
    rooms.push(cand);
    proof {
        assert forall|x: int, y: int| in_grid(x, y, w, h) implies #[trigger] tile(map@, x, y) == (if in_some_room(
            rooms@,
            x,
            y,
        ) {
            TileType::Room
        } else {
            TileType::Wall
        }) by {
            lemma_in_some_room_push(r0, cand, x, y);
            assert(tile(m0, x, y) == (if in_some_room(r0, x, y) {
                TileType::Room
            } else {
                TileType::Wall
            }));
        }
        assert forall|a: int, b: int| 0 <= a < b < rooms@.len() implies apart(
            #[trigger] rooms@[a],
            #[trigger] rooms@[b],
        ) by {
            if b == r0.len() {
                assert(apart(cand, r0[a]));
            } else {
                assert(apart(r0[a], r0[b]));
            }
        }
        assert forall|a: int| 0 <= a < rooms@.len() implies room_ok(#[trigger] rooms@[a], w, h) by {
            if a < r0.len() {
                assert(room_ok(r0[a], w, h));
            }
        }
    }
}

/// A room drawn from generator state `s` (four draws: width, height, then
/// its place), and the state after.
pub open spec fn room_draw(width: i32, height: i32, s: u32) -> (Room, u32) {
    let s1 = lcg32_next(s);
    let s2 = lcg32_next(s1);
    let s3 = lcg32_next(s2);
    let s4 = lcg32_next(s3);
    let rw = 7 + (lcg32_out(s1) % 5) as int;
    let rh = 5 + (lcg32_out(s2) % 4) as int;
    let rx = (lcg32_out(s3) as int) % (width - rw - 5) + 2;
    let ry = (lcg32_out(s4) as int) % (height - rh - 5) + 2;
    (Room { x: rx as i32, y: ry as i32, width: rw as i32, height: rh as i32 }, s4)
}

/// `left` more tries at a room: each drawn room is kept when it lies apart
/// from every room kept so far.
pub open spec fn rooms_tried(width: i32, height: i32, rooms: Seq<Room>, s: u32, left: nat) -> Seq<Room>
    decreases left,
{
    if left == 0 {
        rooms
    } else {
        let (c, s4) = room_draw(width, height, s);
        let kept = if forall|k: int| 0 <= k < rooms.len() ==> apart(c, #[trigger] rooms[k]) {
            rooms.push(c)
        } else {
            rooms
        };
        rooms_tried(width, height, kept, s4, (left - 1) as nat)
    }
}

/// The rooms of the floor laid out from `seed`: a first draw fixes eight to
/// twelve tries.
pub open spec fn dungeon_rooms(width: i32, height: i32, seed: u32) -> Seq<Room> {
    let s1 = lcg32_next(seed);
    rooms_tried(width, height, Seq::empty(), s1, (8 + lcg32_out(s1) % 5) as nat)
}

/// Lays out a floor of `width` by `height` tiles from `seed`: eight to
/// twelve tries at a room of 7 to 11 by 5 to 8 cells at a random place, each
/// kept if it keeps two cells from the rooms already kept; corridors from
/// each kept room's centre to the next one's, along the row first; stairs
/// up one cell in from the first room's top-left corner and down two cells
/// in from the last room's bottom-right corner; and two holes in each of
/// the second to sixth rooms.
pub fn generate_dungeon(width: i32, height: i32, seed: u32) -> (r: (Vec<Vec<TileType>>, Vec<Room>))
    requires
        17 <= width <= 100000,
        14 <= height <= 100000,
    ensures
        grid(r.0@, width as int, height as int),
        rooms_ok(r.1@, width as int, height as int),
        1 <= r.1@.len() <= 12,
        r.1@ == dungeon_rooms(width, height, seed),
        forall|x: int, y: int|
            in_grid(x, y, width as int, height as int) ==> #[trigger] tile(r.0@, x, y) == dungeon_tile(r.1@, x, y),
{
    let ghost w = width as int;
    let ghost h = height as int;
    let mut map = wall_map(width as usize, height as usize);
    let mut rooms: Vec<Room> = Vec::new();
    let mut rng = LcgRng::new(seed);
    let room_count: i32 = 8 + (rng.next() % 5) as i32;
    let ghost target = rooms_tried(width, height, rooms@, rng.state, room_count as nat);
    assert(target == dungeon_rooms(width, height, seed));
    let mut n: i32 = 0;
    while n < room_count
        invariant
            rooms_tried(width, height, rooms@, rng.state, (room_count - n) as nat) == target,
            0 <= n <= room_count <= 12,
            17 <= width <= 100000,
            14 <= height <= 100000,
            w == width && h == height,
            grid(map@, w, h),
            rooms_ok(rooms@, w, h),
            rooms@.len() <= n,
            n > 0 ==> rooms@.len() >= 1,
            forall|x: int, y: int|
                in_grid(x, y, w, h) ==> #[trigger] tile(map@, x, y) == (if in_some_room(rooms@, x, y) {
                    TileType::Room
                } else {
                    TileType::Wall
                }),
        decreases room_count - n,
    {
        let ghost st = rng.state;
        let room_width: i32 = 7 + (rng.next() % 5) as i32;
        let room_height: i32 = 5 + (rng.next() % 4) as i32;
        let room_x: i32 = (rng.next() as i32 % (width - room_width - 5)) + 2;
        let room_y: i32 = (rng.next() as i32 % (height - room_height - 5)) + 2;
        let cand = Room { x: room_x, y: room_y, width: room_width, height: room_height };
        assert(room_draw(width, height, st) == (cand, rng.state));
        if !overlaps_any(&rooms, cand, Ghost(w), Ghost(h)) {
            add_room(&mut map, &mut rooms, cand, Ghost(w), Ghost(h));
        }
        n = n + 1;
    }
    assert(rooms@ == dungeon_rooms(width, height, seed));
    let mut i: usize = 1;
    while i < rooms.len()
        invariant
            1 <= i,
            i <= rooms@.len(),
            17 <= width <= 100000,
            14 <= height <= 100000,
            w == width && h == height,
            grid(map@, w, h),
            rooms_ok(rooms@, w, h),
            forall|x: int, y: int|
                in_grid(x, y, w, h) ==> #[trigger] tile(map@, x, y) == (if in_some_room(rooms@, x, y) {
                    TileType::Room
                } else if on_corridor(rooms@, i as int, x, y) {
                    TileType::Floor
                } else {
                    TileType::Wall
                }),
        decreases rooms@.len() - i,
    {
        let ghost m0 = map@;
        assert(room_ok(rooms@[i - 1], w, h));
        assert(room_ok(rooms@[i as int], w, h));
        dig_corridor(&mut map, rooms[i - 1], rooms[i], width, height);
        proof {
            assert forall|x: int, y: int| in_grid(x, y, w, h) implies #[trigger] tile(map@, x, y) == (if in_some_room(
                rooms@,
                x,
                y,
            ) {
                TileType::Room
            } else if on_corridor(rooms@, i + 1, x, y) {
                TileType::Floor
            } else {
                TileType::Wall
            }) by {
                lemma_on_corridor_step(rooms@, i as int, x, y);
                assert(tile(m0, x, y) == (if in_some_room(rooms@, x, y) {
                    TileType::Room
                } else if on_corridor(rooms@, i as int, x, y) {
                    TileType::Floor
                } else {
                    TileType::Wall
                }));
            }
        }
        i = i + 1;
    }
    let ghost rs = rooms@;
    assert(rs == dungeon_rooms(width, height, seed));
    proof {
        assert forall|x: int, y: int| in_grid(x, y, w, h) implies #[trigger] tile(map@, x, y) == plan_tile(rs, x, y) by {
            assert(i == rs.len());
        }
    }
    let ghost m_plan = map@;
    let room = rooms[0];
    proof {
        assert(room_ok(rs[0], w, h));
        assert(in_room(rs[0], room.x + 1, room.y + 1));
        assert(tile(map@, room.x + 1, room.y + 1) == plan_tile(rs, room.x + 1, room.y + 1));
    }
    let mut sx: i32 = room.x + 1;
    if sx < 0 {
        sx = 0;
    }
    if sx > width - 1 {
        sx = width - 1;
    }
    let mut sy: i32 = room.y + 1;
    if sy < 0 {
        sy = 0;
    }
    if sy > height - 1 {
        sy = height - 1;
    }
    if map[sy as usize][sx as usize] != TileType::Wall {
        set_tile(&mut map, sx as usize, sy as usize, TileType::StairUp, Ghost(w), Ghost(h));
    }
    let ghost m_up = map@;
    if rooms.len() > 1 {
        let room = rooms[rooms.len() - 1];
        let ghost l = rs.len() - 1;
        proof {
            assert(room_ok(rs[l], w, h));
            assert(in_room(rs[l], room.x + room.width - 2, room.y + room.height - 2));
            if stair_up_at(rs, room.x + room.width - 2, room.y + room.height - 2) {
                assert(in_room(rs[0], room.x + room.width - 2, room.y + room.height - 2));
                lemma_room_unique(rs, w, h, l, 0, room.x + room.width - 2, room.y + room.height - 2);
            }
        }
        let mut dx: i32 = room.x + room.width - 2;
        if dx < 0 {
            dx = 0;
        }
        if dx > width - 1 {
            dx = width - 1;
        }
        let mut dy: i32 = room.y + room.height - 2;
        if dy < 0 {
            dy = 0;
        }
        if dy > height - 1 {
            dy = height - 1;
        }
        if map[dy as usize][dx as usize] != TileType::Wall {
            set_tile(&mut map, dx as usize, dy as usize, TileType::StairDown, Ghost(w), Ghost(h));
        }
    }
    proof {
        assert forall|x: int, y: int| in_grid(x, y, w, h) implies #[trigger] tile(map@, x, y) == (if stair_up_at(rs, x, y) {
            TileType::StairUp
        } else if stair_down_at(rs, x, y) {
            TileType::StairDown
        } else if pit_at(rs, 1, x, y) {
            TileType::Pit
        } else {
            plan_tile(rs, x, y)
        }) by {
            assert(tile(m_up, x, y) == (if stair_up_at(rs, x, y) {
                TileType::StairUp
            } else {
                plan_tile(rs, x, y)
            }));
        }
    }
    let mut k: usize = 1;
    while k < rooms.len() && k <= 5
        invariant
            1 <= k <= rooms@.len(),
            k <= 6,
            rooms@ == rs,
            17 <= width <= 100000,
            14 <= height <= 100000,
            w == width && h == height,
            grid(map@, w, h),
            rooms_ok(rs, w, h),
            forall|x: int, y: int|
                in_grid(x, y, w, h) ==> #[trigger] tile(map@, x, y) == (if stair_up_at(rs, x, y) {
                    TileType::StairUp
                } else if stair_down_at(rs, x, y) {
                    TileType::StairDown
                } else if pit_at(rs, k as int, x, y) {
                    TileType::Pit
                } else {
                    plan_tile(rs, x, y)
                }),
        decreases rooms@.len() - k,
    {
        let room = rooms[k];
        let ghost m0 = map@;
        proof {
            assert(room_ok(rs[k as int], w, h));
        }
        if !(room.width < 5 || room.height < 5) {
            let ax: i32 = room.x + 2;
            let ay: i32 = room.y + 2;
            proof {
                lemma_pit_cell(rs, w, h, k as int, ax as int, ay as int);
                if pit_at(rs, k as int, ax as int, ay as int) {
                    let j = choose|j: int| 1 <= j < k && j < rs.len() && j <= 5 && #[trigger] pit_of(rs[j], ax as int, ay as int);
                    lemma_pit_cell(rs, w, h, j, ax as int, ay as int);
                    lemma_room_unique(rs, w, h, j, k as int, ax as int, ay as int);
                }
            }
            if map[ay as usize][ax as usize] == TileType::Room {
                set_tile(&mut map, ax as usize, ay as usize, TileType::Pit, Ghost(w), Ghost(h));
            }
            let bx: i32 = room.x + room.width - 3;
            let by: i32 = room.y + room.height - 3;
            proof {
                lemma_pit_cell(rs, w, h, k as int, bx as int, by as int);
                if pit_at(rs, k as int, bx as int, by as int) {
                    let j = choose|j: int| 1 <= j < k && j < rs.len() && j <= 5 && #[trigger] pit_of(rs[j], bx as int, by as int);
                    lemma_pit_cell(rs, w, h, j, bx as int, by as int);
                    lemma_room_unique(rs, w, h, j, k as int, bx as int, by as int);
                }
            }
            if map[by as usize][bx as usize] == TileType::Room {
                set_tile(&mut map, bx as usize, by as usize, TileType::Pit, Ghost(w), Ghost(h));
            }
        }
        proof {
            assert forall|x: int, y: int| in_grid(x, y, w, h) implies #[trigger] tile(map@, x, y) == (if stair_up_at(rs, x, y) {
                TileType::StairUp
            } else if stair_down_at(rs, x, y) {
                TileType::StairDown
            } else if pit_at(rs, k + 1, x, y) {
                TileType::Pit
            } else {
                plan_tile(rs, x, y)
            }) by {
                lemma_pit_step(rs, k as int, x, y);
                if pit_of(rs[k as int], x, y) {
                    lemma_pit_cell(rs, w, h, k as int, x, y);
                }
                assert(tile(m0, x, y) == (if stair_up_at(rs, x, y) {
                    TileType::StairUp
                } else if stair_down_at(rs, x, y) {
                    TileType::StairDown
                } else if pit_at(rs, k as int, x, y) {
                    TileType::Pit
                } else {
                    plan_tile(rs, x, y)
                }));
            }
        }
        k = k + 1;
    }
    proof {
        assert forall|x: int, y: int| in_grid(x, y, w, h) implies #[trigger] tile(map@, x, y) == dungeon_tile(rs, x, y) by {
            if pit_at(rs, k as int, x, y) != pit_at(rs, rs.len() as int, x, y) {
                if pit_at(rs, rs.len() as int, x, y) {
                    let j = choose|j: int| 1 <= j < rs.len() && j < rs.len() && j <= 5 && #[trigger] pit_of(rs[j], x, y);
                    assert(pit_at(rs, k as int, x, y));
                }
            }
        }
    }
    (map, rooms)
}

/// The floor never opens onto its edge: every cell within two cells of the
/// left or top edge, or four of the right or bottom one, is wall.
pub proof fn lemma_dungeon_border_closed(rooms: Seq<Room>, width: int, height: int, x: int, y: int)
    requires
        rooms_ok(rooms, width, height),
        in_grid(x, y, width, height),
        x < 2 || y < 2 || x >= width - 4 || y >= height - 4,
    ensures
        dungeon_tile(rooms, x, y) == TileType::Wall,
{
    if in_some_room(rooms, x, y) {
        let i = choose|i: int| 0 <= i < rooms.len() && #[trigger] in_room(rooms[i], x, y);
        assert(room_ok(rooms[i], width, height));
    }
    if on_corridor(rooms, rooms.len() as int, x, y) {
        let k = choose|k: int| 1 <= k < rooms.len() && k < rooms.len() && #[trigger] on_leg(rooms[k - 1], rooms[k], x, y);
        assert(room_ok(rooms[k - 1], width, height));
        assert(room_ok(rooms[k], width, height));
    }
    if stair_up_at(rooms, x, y) {
        assert(room_ok(rooms[0], width, height));
    }
    if stair_down_at(rooms, x, y) {
        assert(room_ok(rooms[rooms.len() - 1], width, height));
    }
    if pit_at(rooms, rooms.len() as int, x, y) {
        let k = choose|k: int| 1 <= k < rooms.len() && k < rooms.len() && k <= 5 && #[trigger] pit_of(rooms[k], x, y);
        assert(room_ok(rooms[k], width, height));
    }
}

} // verus!
