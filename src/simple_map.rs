use vstd::prelude::*;
use rltk::RandomNumberGenerator;
use crate::builder::{MapBuilder, record_snapshot};
use crate::common::{
    apply_horizontal_tunnel, apply_room_to_map, apply_vertical_tunnel, carved, in_box, lemma_carved_keeps_floor,
    lemma_carved_sets_floor,
};
use crate::flood::{all_walkable_connected, connected};
use crate::paths::{box_walkable, lemma_box_connected, lemma_connected_grow, lemma_connected_trans};
use crate::components::Position;
use crate::drunkard::no_stairs;
use crate::map::{GridMap, TileType, MAPWIDTH, MAPHEIGHT, walkable, idx_of, col_of, row_of, in_bounds, lemma_idx_in_range, lemma_idx_decompose};
use crate::random::{range_i32, roll_die};
use crate::rect::{Rect, rects_overlap};

verus! {

/// Rooms the builder tries to place.
pub const MAX_ROOMS: i32 = 30;

/// Smallest and (excluded) largest room side.
pub const MIN_SIZE: i32 = 6;

pub const MAX_SIZE: i32 = 10;

/// A room fits the map with a wall ring around its floor.
pub open spec fn room_fits(r: Rect, w: int, h: int) -> bool {
    &&& r.wf()
    &&& r.x2 - r.x1 >= 2
    &&& r.y2 - r.y1 >= 2
    &&& r.x2 <= w - 2
    &&& r.y2 <= h - 2
}

/// No two of the rooms overlap.
pub open spec fn rooms_disjoint(rooms: Seq<Rect>) -> bool {
    forall|a: int, b: int| 0 <= a < b < rooms.len() ==> !rects_overlap(#[trigger] rooms[a], #[trigger] rooms[b])
}

/// The centre tile of every room is floor.
pub open spec fn centers_floor(map: GridMap, rooms: Seq<Rect>) -> bool {
    forall|a: int|
        0 <= a < rooms.len() ==> map.tiles@[map.idx(
            (#[trigger] rooms[a]).center_spec().0,
            rooms[a].center_spec().1,
        )] == TileType::Floor
}

pub proof fn lemma_center_inside(r: Rect, w: int, h: int)
    requires
        room_fits(r, w, h),
    ensures
        r.x1 + 1 <= r.center_spec().0 <= r.x2,
        r.y1 + 1 <= r.center_spec().1 <= r.y2,
        0 <= r.center_spec().0 < w,
        0 <= r.center_spec().1 < h,
{
}

/// Point `p` lies in box `b` = (first column, last column, first row, last row).
pub open spec fn in_box4(b: (int, int, int, int), p: (int, int)) -> bool {
    b.0 <= p.0 <= b.1 && b.2 <= p.1 <= b.3
}

pub open spec fn box4_walkable(t: Seq<TileType>, w: int, h: int, b: (int, int, int, int)) -> bool {
    box_walkable(t, w, h, b.0, b.1, b.2, b.3)
}

pub open spec fn tile_in_box4(w: int, i: int, b: (int, int, int, int)) -> bool {
    in_box(w, i, b.0, b.1, b.2, b.3)
}

/// A carved tile is walkable when it was, or when carving reached it.
proof fn lemma_carved_walkable(old: Seq<TileType>, w: int, xa: int, xb: int, ya: int, yb: int, s: bool, i: int)
    requires
        0 <= i < old.len(),
    ensures
        walkable(carved(old, w, xa, xb, ya, yb, s)[i]) == (walkable(old[i]) || (in_box(w, i, xa, xb, ya, yb) && !(s
            && i == 0))),
{
}

/// From tile `i` of a walkable box, every tile of the box can be walked to,
/// and `i` from each of them.
pub proof fn lemma_box_tile(t: Seq<TileType>, w: int, h: int, b: (int, int, int, int), p: (int, int), i: int)
    requires
        1 <= w,
        1 <= h,
        t.len() == w * h,
        box4_walkable(t, w, h, b),
        in_box4(b, p),
        0 <= i < t.len(),
        tile_in_box4(w, i, b),
    ensures
        connected(t, w, h, idx_of(w, p.0, p.1), i),
        connected(t, w, h, i, idx_of(w, p.0, p.1)),
{
    lemma_idx_decompose(w, h, i);
    lemma_box_connected(t, w, h, b.0, b.1, b.2, b.3, p.0, p.1, col_of(w, i), row_of(w, i));
    lemma_box_connected(t, w, h, b.0, b.1, b.2, b.3, col_of(w, i), row_of(w, i), p.0, p.1);
}

/// Joining a new room to the map keeps every walkable tile reachable from
/// the start: the room is walkable around its centre `nc`, and (unless it
/// is the first room) two walkable corridor boxes lead from the previous
/// centre `pc` through `corner` to `nc`.
proof fn lemma_room_joined(
    t0: Seq<TileType>,
    t3: Seq<TileType>,
    w: int,
    h: int,
    s: int,
    rb: (int, int, int, int),
    nc: (int, int),
    first: bool,
    pc: (int, int),
    corner: (int, int),
    sa: (int, int, int, int),
    sb: (int, int, int, int),
)
    requires
        1 <= w,
        1 <= h,
        t0.len() == w * h,
        t3.len() == w * h,
        forall|i: int| 0 <= i < t0.len() && walkable(#[trigger] t0[i]) ==> walkable(t3[i]),
        box4_walkable(t3, w, h, rb),
        in_box4(rb, nc),
        first ==> s == idx_of(w, nc.0, nc.1) && forall|i: int| 0 <= i < t0.len() ==> !walkable(#[trigger] t0[i]),
        !first ==> {
            &&& all_walkable_connected(t0, w, h, s)
            &&& in_bounds(w, h, pc.0, pc.1)
            &&& walkable(t0[idx_of(w, pc.0, pc.1)])
            &&& box4_walkable(t3, w, h, sa)
            &&& box4_walkable(t3, w, h, sb)
            &&& in_box4(sa, pc)
            &&& in_box4(sa, corner)
            &&& in_box4(sb, corner)
            &&& in_box4(sb, nc)
        },
        forall|i: int|
            0 <= i < t3.len() && walkable(#[trigger] t3[i]) ==> walkable(t0[i]) || tile_in_box4(w, i, rb) || (!first
                && (tile_in_box4(w, i, sa) || tile_in_box4(w, i, sb))),
    ensures
        all_walkable_connected(t3, w, h, s),
{
    let inc = idx_of(w, nc.0, nc.1);
    let ipc = idx_of(w, pc.0, pc.1);
    let icn = idx_of(w, corner.0, corner.1);
    if !first {
        lemma_idx_in_range(w, h, pc.0, pc.1);
        lemma_connected_grow(t0, t3, w, h, s, ipc);
        lemma_idx_in_range(w, h, corner.0, corner.1);
        lemma_box_tile(t3, w, h, sa, pc, icn);
        lemma_connected_trans(t3, w, h, s, ipc, icn);
        lemma_idx_in_range(w, h, nc.0, nc.1);
        lemma_box_tile(t3, w, h, sb, corner, inc);
        lemma_connected_trans(t3, w, h, s, icn, inc);
    }
    assert forall|i: int| 0 <= i < t3.len() && walkable(#[trigger] t3[i]) implies connected(t3, w, h, s, i) by {
        if !first && walkable(t0[i]) {
            lemma_connected_grow(t0, t3, w, h, s, i);
        } else if tile_in_box4(w, i, rb) {
            lemma_box_tile(t3, w, h, rb, nc, i);
            if !first {
                lemma_connected_trans(t3, w, h, s, inc, i);
            }
        } else if tile_in_box4(w, i, sa) {
            lemma_box_tile(t3, w, h, sa, pc, i);
            lemma_connected_trans(t3, w, h, s, ipc, i);
        } else {
            lemma_box_tile(t3, w, h, sb, corner, i);
            lemma_connected_trans(t3, w, h, s, icn, i);
        }
    }
}

/// Facts about carving a room box `rb`, then two corridor boxes `sa` and
/// `sb` that keep clear of tile 0: walkable tiles stay walkable, the three
/// boxes end up walkable, and every other newly walkable tile is in one of
/// them.
proof fn lemma_three_carves(
    t0: Seq<TileType>,
    t1: Seq<TileType>,
    t2: Seq<TileType>,
    t3: Seq<TileType>,
    w: int,
    h: int,
    rb: (int, int, int, int),
    sa: (int, int, int, int),
    sb: (int, int, int, int),
)
    requires
        1 <= w,
        1 <= h,
        t0.len() == w * h,
        t1 == carved(t0, w, rb.0, rb.1, rb.2, rb.3, false),
        t2 == carved(t1, w, sa.0, sa.1, sa.2, sa.3, true),
        t3 == carved(t2, w, sb.0, sb.1, sb.2, sb.3, true),
        0 <= rb.0 && rb.1 < w && 0 <= rb.2 && rb.3 < h,
        0 <= sa.0 && sa.1 < w && 0 <= sa.2 && sa.3 < h,
        0 <= sb.0 && sb.1 < w && 0 <= sb.2 && sb.3 < h,
        sa.0 >= 1 || sa.2 >= 1,
        sb.0 >= 1 || sb.2 >= 1,
    ensures
        t3.len() == t0.len(),
        forall|i: int| 0 <= i < t0.len() && walkable(#[trigger] t0[i]) ==> walkable(t3[i]),
        box4_walkable(t3, w, h, rb),
        box4_walkable(t3, w, h, sa),
        box4_walkable(t3, w, h, sb),
        forall|i: int|
            0 <= i < t3.len() && walkable(#[trigger] t3[i]) ==> walkable(t0[i]) || tile_in_box4(w, i, rb)
                || tile_in_box4(w, i, sa) || tile_in_box4(w, i, sb),
{
    vstd::arithmetic::div_mod::lemma_small_mod(0, w as nat);
    vstd::arithmetic::div_mod::lemma_div_basics(w);
    assert(col_of(w, 0) == 0 && row_of(w, 0) == 0);
    assert forall|i: int| 0 <= i < t3.len() implies (walkable(#[trigger] t3[i]) == (walkable(t0[i]) || tile_in_box4(w, i, rb)
        || tile_in_box4(w, i, sa) || tile_in_box4(w, i, sb))) by {
        lemma_carved_walkable(t0, w, rb.0, rb.1, rb.2, rb.3, false, i);
        lemma_carved_walkable(t1, w, sa.0, sa.1, sa.2, sa.3, true, i);
        lemma_carved_walkable(t2, w, sb.0, sb.1, sb.2, sb.3, true, i);
    }
}

/// The same for a room carved with no corridor.
pub proof fn lemma_one_carve(t0: Seq<TileType>, t1: Seq<TileType>, w: int, h: int, rb: (int, int, int, int))
    requires
        1 <= w,
        1 <= h,
        t0.len() == w * h,
        t1 == carved(t0, w, rb.0, rb.1, rb.2, rb.3, false),
        0 <= rb.0 && rb.1 < w && 0 <= rb.2 && rb.3 < h,
    ensures
        t1.len() == t0.len(),
        forall|i: int| 0 <= i < t0.len() && walkable(#[trigger] t0[i]) ==> walkable(t1[i]),
        box4_walkable(t1, w, h, rb),
        forall|i: int| 0 <= i < t1.len() && walkable(#[trigger] t1[i]) ==> walkable(t0[i]) || tile_in_box4(w, i, rb),
{
    assert forall|i: int| 0 <= i < t1.len() implies (walkable(#[trigger] t1[i]) == (walkable(t0[i]) || tile_in_box4(w, i, rb))) by {
        lemma_carved_walkable(t0, w, rb.0, rb.1, rb.2, rb.3, false, i);
    }
}

/// Rooms of random size dropped at random; one that overlaps an earlier
/// room is dropped, each kept room joined to the previous one by an L-shaped
/// corridor between their centres.
pub struct SimpleMapBuilder {
    pub map: GridMap,
    pub starting_position: Position,
    pub depth: i32,
    pub rooms: Vec<Rect>,
    pub history: Vec<GridMap>,
    /// Whether each step's map is recorded in `history`, for playback.
    pub visualize: bool,
    pub spawn_list: Vec<(usize, String)>,
}

impl SimpleMapBuilder {
    pub fn new(new_depth: i32) -> (r: SimpleMapBuilder)
        ensures
            r.depth == new_depth,
            r.map.fresh(new_depth),
            r.rooms@.len() == 0,
    {
        SimpleMapBuilder {
            map: GridMap::new(new_depth),
            starting_position: Position { x: 0, y: 0 },
            depth: new_depth,
            rooms: Vec::new(),
            history: Vec::new(),
            visualize: false,
            spawn_list: Vec::new(),
        }
    }

    /// Places the rooms and corridors on a fresh map: the rooms do not
    /// overlap, each fits the map, and the centre of each is floor.
    pub fn place_rooms(&mut self, rng: &mut RandomNumberGenerator)
        ensures
            final(self).map.wf(),
            final(self).map.width == MAPWIDTH as i32,
            final(self).map.height == MAPHEIGHT as i32,
            final(self).rooms@.len() >= 1,
            rooms_disjoint(final(self).rooms@),
            forall|a: int|
                0 <= a < final(self).rooms@.len() ==> room_fits(
                    #[trigger] final(self).rooms@[a],
                    MAPWIDTH as int,
                    MAPHEIGHT as int,
                ),
            centers_floor(final(self).map, final(self).rooms@),
            no_stairs(final(self).map.tiles@),
            all_walkable_connected(
                final(self).map.tiles@,
                MAPWIDTH as int,
                MAPHEIGHT as int,
                idx_of(MAPWIDTH as int, final(self).rooms@[0].center_spec().0, final(self).rooms@[0].center_spec().1),
            ),
    {
        self.map = GridMap::new(self.depth);
        self.rooms = Vec::new();
        let ghost W = MAPWIDTH as int;
        let ghost H = MAPHEIGHT as int;
        let mut i: i32 = 0;
        while i < MAX_ROOMS
            invariant
                self.map.wf(),
                self.map.width == W,
                self.map.height == H,
                W == MAPWIDTH,
                H == MAPHEIGHT,
                0 <= i <= MAX_ROOMS,
                i > 0 ==> self.rooms@.len() >= 1,
                rooms_disjoint(self.rooms@),
                forall|a: int| 0 <= a < self.rooms@.len() ==> room_fits(#[trigger] self.rooms@[a], W, H),
                centers_floor(self.map, self.rooms@),
                no_stairs(self.map.tiles@),
                self.rooms@.len() > 0 ==> all_walkable_connected(
                    self.map.tiles@,
                    W,
                    H,
                    idx_of(W, self.rooms@[0].center_spec().0, self.rooms@[0].center_spec().1),
                ),
                self.rooms@.len() == 0 ==> forall|j: int|
                    0 <= j < self.map.tiles@.len() ==> !walkable(#[trigger] self.map.tiles@[j]),
            decreases MAX_ROOMS - i,
        {
            let w = range_i32(rng, MIN_SIZE, MAX_SIZE);
            let h = range_i32(rng, MIN_SIZE, MAX_SIZE);
            let x = roll_die(rng, self.map.width - w - 1) - 1;
            let y = roll_die(rng, self.map.height - h - 1) - 1;
            let new_room = Rect::new(x, y, w, h);
            let mut ok = true;
            let mut k: usize = 0;
            while k < self.rooms.len()
                invariant
                    k <= self.rooms@.len(),
                    ok <==> forall|a: int| 0 <= a < k ==> !rects_overlap(new_room, #[trigger] self.rooms@[a]),
                decreases self.rooms@.len() - k,
            {
                if new_room.intersects(&self.rooms[k]) {
                    ok = false;
                }
                k = k + 1;
            }
            if ok {
                proof {
                    lemma_center_inside(new_room, W, H);
                }
                let ghost t0 = self.map.tiles@;
                apply_room_to_map(&mut self.map, &new_room);
                proof {
                    let (cx, cy) = new_room.center_spec();
                    lemma_carved_sets_floor(t0, W, H, new_room.x1 + 1, new_room.x2 as int, new_room.y1 + 1,
                        new_room.y2 as int, false, cx, cy);
                    assert forall|a: int| 0 <= a < self.rooms@.len() implies self.map.tiles@[self.map.idx(
                        (#[trigger] self.rooms@[a]).center_spec().0,
                        self.rooms@[a].center_spec().1,
                    )] == TileType::Floor by {
                        let r = self.rooms@[a];
                        lemma_center_inside(r, W, H);
                        lemma_idx_in_range(W, H, r.center_spec().0, r.center_spec().1);
                        lemma_carved_keeps_floor(t0, W, new_room.x1 + 1, new_room.x2 as int, new_room.y1 + 1,
                            new_room.y2 as int, false, self.map.idx(r.center_spec().0, r.center_spec().1));
                    }
                }
                let ghost rb = (new_room.x1 + 1, new_room.x2 as int, new_room.y1 + 1, new_room.y2 as int);
                let ghost nc = new_room.center_spec();
                if self.rooms.len() > 0 {
                    let (new_x, new_y) = new_room.center();
                    let last_room = self.rooms[self.rooms.len() - 1];
                    proof {
                        lemma_center_inside(last_room, W, H);
                    }
                    let (prev_x, prev_y) = last_room.center();
                    let coin = range_i32(rng, 0, 2);
                    let ghost t1 = self.map.tiles@;
                    let ghost s0 = idx_of(W, self.rooms@[0].center_spec().0, self.rooms@[0].center_spec().1);
                    let ghost pc = (prev_x as int, prev_y as int);
                    let ghost lo_x = if prev_x <= new_x { prev_x as int } else { new_x as int };
                    let ghost hi_x = if prev_x <= new_x { new_x as int } else { prev_x as int };
                    let ghost lo_y = if prev_y <= new_y { prev_y as int } else { new_y as int };
                    let ghost hi_y = if prev_y <= new_y { new_y as int } else { prev_y as int };
                    if coin == 1 {
                        apply_horizontal_tunnel(&mut self.map, prev_x, new_x, prev_y);
                        let ghost t2 = self.map.tiles@;
                        apply_vertical_tunnel(&mut self.map, prev_y, new_y, new_x);
                        proof {
                            self.lemma_tunnels_keep_centers(t1, t2, new_room);
                            let sa = (lo_x, hi_x, prev_y as int, prev_y as int);
                            let sb = (new_x as int, new_x as int, lo_y, hi_y);
                            lemma_three_carves(t0, t1, t2, self.map.tiles@, W, H, rb, sa, sb);
                            lemma_idx_in_range(W, H, prev_x as int, prev_y as int);
                            lemma_room_joined(t0, self.map.tiles@, W, H, s0, rb, nc, false, pc,
                                (new_x as int, prev_y as int), sa, sb);
                        }
                    } else {
                        apply_vertical_tunnel(&mut self.map, prev_y, new_y, prev_x);
                        let ghost t2 = self.map.tiles@;
                        apply_horizontal_tunnel(&mut self.map, prev_x, new_x, new_y);
                        proof {
                            self.lemma_tunnels_keep_centers(t1, t2, new_room);
                            let sa = (prev_x as int, prev_x as int, lo_y, hi_y);
                            let sb = (lo_x, hi_x, new_y as int, new_y as int);
                            lemma_three_carves(t0, t1, t2, self.map.tiles@, W, H, rb, sa, sb);
                            lemma_idx_in_range(W, H, prev_x as int, prev_y as int);
                            lemma_room_joined(t0, self.map.tiles@, W, H, s0, rb, nc, false, pc,
                                (prev_x as int, new_y as int), sa, sb);
                        }
                    }
                } else {
                    proof {
                        lemma_one_carve(t0, self.map.tiles@, W, H, rb);
                        lemma_room_joined(t0, self.map.tiles@, W, H, idx_of(W, nc.0, nc.1), rb, nc, true, nc, nc, rb, rb);
                    }
                }
                self.rooms.push(new_room);
                record_snapshot(&self.map, &mut self.history, self.visualize);
            }
            i = i + 1;
        }
    }

    proof fn lemma_tunnels_keep_centers(&self, t1: Seq<TileType>, t2: Seq<TileType>, new_room: Rect)
        requires
            self.map.wf(),
            self.map.width == MAPWIDTH,
            self.map.height == MAPHEIGHT,
            t1.len() == self.map.tiles@.len(),
            t2.len() == t1.len(),
            room_fits(new_room, MAPWIDTH as int, MAPHEIGHT as int),
            forall|a: int| 0 <= a < self.rooms@.len() ==> room_fits(#[trigger] self.rooms@[a], MAPWIDTH as int, MAPHEIGHT as int),
            forall|i: int| 0 <= i < t1.len() && t1[i] == TileType::Floor ==> #[trigger] t2[i] == TileType::Floor,
            forall|i: int| 0 <= i < t2.len() && t2[i] == TileType::Floor ==> #[trigger] self.map.tiles@[i] == TileType::Floor,
            t1[self.map.idx(new_room.center_spec().0, new_room.center_spec().1)] == TileType::Floor,
            forall|a: int|
                0 <= a < self.rooms@.len() ==> t1[self.map.idx(
                    (#[trigger] self.rooms@[a]).center_spec().0,
                    self.rooms@[a].center_spec().1,
                )] == TileType::Floor,
        ensures
            centers_floor(self.map, self.rooms@.push(new_room)),
    {
        let W = MAPWIDTH as int;
        let H = MAPHEIGHT as int;
        let rs = self.rooms@.push(new_room);
        assert forall|a: int| 0 <= a < rs.len() implies self.map.tiles@[self.map.idx(
            (#[trigger] rs[a]).center_spec().0,
            rs[a].center_spec().1,
        )] == TileType::Floor by {
            let r = rs[a];
            lemma_center_inside(r, W, H);
            lemma_idx_in_range(W, H, r.center_spec().0, r.center_spec().1);
            let i = self.map.idx(r.center_spec().0, r.center_spec().1);
            assert(t1[i] == TileType::Floor);
            assert(t2[i] == TileType::Floor);
        }
    }
}

impl SimpleMapBuilder {
    /// Places rooms and corridors, puts the down stairs at the centre of the
    /// last room and the player at the centre of the first.
    pub fn rooms_and_corridors(&mut self, rng: &mut RandomNumberGenerator)
        ensures
            final(self).map.wf(),
            final(self).rooms@.len() >= 1,
            rooms_disjoint(final(self).rooms@),
            forall|a: int|
                0 <= a < final(self).rooms@.len() ==> room_fits(
                    #[trigger] final(self).rooms@[a],
                    final(self).map.width as int,
                    final(self).map.height as int,
                ),
            ({
                let m = final(self).map;
                let rs = final(self).rooms@;
                let last = rs[rs.len() - 1];
                let stairs = m.idx(last.center_spec().0, last.center_spec().1);
                &&& forall|a: int|
                    0 <= a < rs.len() - 1 ==> m.tiles@[m.idx(
                        (#[trigger] rs[a]).center_spec().0,
                        rs[a].center_spec().1,
                    )] == TileType::Floor
                &&& m.tiles@[stairs] == TileType::DownStairs
                &&& forall|i: int|
                    0 <= i < m.tiles@.len() ==> (#[trigger] m.tiles@[i] == TileType::DownStairs <==> i
                        == stairs)
                &&& final(self).starting_position.x == rs[0].center_spec().0
                &&& final(self).starting_position.y == rs[0].center_spec().1
            }),
            final(self).map.in_map(final(self).starting_position.x as int, final(self).starting_position.y as int),
            final(self).map.width == MAPWIDTH as i32,
            final(self).map.height == MAPHEIGHT as i32,
            all_walkable_connected(
                final(self).map.tiles@,
                MAPWIDTH as int,
                MAPHEIGHT as int,
                final(self).map.idx(final(self).starting_position.x as int, final(self).starting_position.y as int),
            ),
    {
        self.place_rooms(rng);
        let ghost t0 = self.map.tiles@;
        let last = self.rooms[self.rooms.len() - 1];
        let (sx, sy) = last.center();
        proof {
            lemma_center_inside(last, MAPWIDTH as int, MAPHEIGHT as int);
        }
        let stairs_idx = self.map.xy_idx(sx, sy).unwrap();
        self.map.tiles.set(stairs_idx, TileType::DownStairs);
        let first = self.rooms[0];
        proof {
            lemma_center_inside(first, MAPWIDTH as int, MAPHEIGHT as int);
        }
        let (px, py) = first.center();
        self.starting_position = Position { x: px, y: py };
        proof {
            let rs = self.rooms@;
            let m = self.map;
            assert forall|a: int| 0 <= a < rs.len() - 1 implies m.tiles@[m.idx(
                (#[trigger] rs[a]).center_spec().0,
                rs[a].center_spec().1,
            )] == TileType::Floor by {
                let r = rs[a];
                lemma_center_inside(r, MAPWIDTH as int, MAPHEIGHT as int);
                lemma_idx_in_range(MAPWIDTH as int, MAPHEIGHT as int, r.center_spec().0, r.center_spec().1);
                let i = m.idx(r.center_spec().0, r.center_spec().1);
                if i == stairs_idx {
                    lemma_idx_in_range(MAPWIDTH as int, MAPHEIGHT as int, sx as int, sy as int);
                    // Two rooms that share a centre overlap.
                    assert(rects_overlap(r, last));
                }
            }
            let s0 = idx_of(MAPWIDTH as int, rs[0].center_spec().0, rs[0].center_spec().1);
            assert forall|i: int| 0 <= i < m.tiles@.len() && walkable(#[trigger] m.tiles@[i]) implies connected(
                m.tiles@,
                MAPWIDTH as int,
                MAPHEIGHT as int,
                s0,
                i,
            ) by {
                assert(walkable(t0[i]));
                lemma_connected_grow(t0, m.tiles@, MAPWIDTH as int, MAPHEIGHT as int, s0, i);
            }
        }
    }
}

impl MapBuilder for SimpleMapBuilder {
    open spec fn finished(&self) -> bool {
        crate::registry::finished_level((self.map, self.starting_position))
    }

    open spec fn current_map(&self) -> GridMap {
        self.map
    }

    open spec fn snapshots(&self) -> Seq<GridMap> {
        self.history@
    }

    open spec fn visualizing(&self) -> bool {
        self.visualize
    }

    fn build_map(&mut self, rng: &mut RandomNumberGenerator) {
        self.rooms_and_corridors(rng);
        let ghost e = self.map.idx(
            self.rooms@[self.rooms@.len() - 1].center_spec().0,
            self.rooms@[self.rooms@.len() - 1].center_spec().1,
        );
        proof {
            let rs = self.rooms@;
            let last = rs[rs.len() - 1];
            lemma_center_inside(last, MAPWIDTH as int, MAPHEIGHT as int);
            lemma_idx_in_range(MAPWIDTH as int, MAPHEIGHT as int, last.center_spec().0, last.center_spec().1);
            if rs.len() > 1 {
                assert(self.map.tiles@[self.map.idx(rs[0].center_spec().0, rs[0].center_spec().1)] == TileType::Floor);
            }
            let r = (self.map, self.starting_position);
            assert(crate::builder::level_ok(r.0, r.1, e));
        }
    }

    fn get_map(&self) -> GridMap {
        self.map.clone()
    }

    fn get_starting_position(&self) -> Position {
        self.starting_position
    }

    fn get_snapshot_history(&self) -> Vec<GridMap> {
        self.history.clone()
    }

    fn get_spawn_list(&self) -> Vec<(usize, String)> {
        self.spawn_list.clone()
    }

    fn take_snapshot(&mut self) {
        if self.map.is_well_formed() {
            record_snapshot(&self.map, &mut self.history, self.visualize);
        }
    }
}

} // verus!
