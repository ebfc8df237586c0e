use vstd::prelude::*;
use rltk::RandomNumberGenerator;
use crate::map::{GridMap, TileType, walkable};
use crate::random::roll_die;
use crate::voronoi::{DistanceAlgorithm, is_nearest_seed, voronoi_membership};
use crate::map::{col_of, row_of};

verus! {

/// Tiles per spawn region, on average.
pub const TILES_PER_REGION: usize = 144;

/// Walkable tiles among the first `m` whose seed is `k`, in index order.
pub open spec fn region_of(t: Seq<TileType>, member: Seq<usize>, k: int, m: int) -> Seq<usize>
    decreases m,
{
    if m <= 0 {
        Seq::empty()
    } else {
        region_of(t, member, k, m - 1) + if walkable(t[m - 1]) && member[m - 1] == k {
            seq![(m - 1) as usize]
        } else {
            Seq::empty()
        }
    }
}

/// The regions are Voronoi cells: `member` gives each tile its nearest
/// seed (by straight-line distance), all tiles of a region share one, and
/// no two regions share one.
pub open spec fn nearest_cells(map: GridMap, regions: Seq<Vec<usize>>, seeds: Seq<(i32, i32)>, member: Seq<usize>) -> bool {
    let w = map.width as int;
    &&& member.len() == map.tiles@.len()
    &&& forall|i: int|
        0 <= i < member.len() ==> is_nearest_seed(
            seeds,
            DistanceAlgorithm::Pythagoras,
            col_of(w, i),
            row_of(w, i),
            #[trigger] member[i] as int,
        )
    &&& forall|a: int, j: int|
        0 <= a < regions.len() && 0 <= j < regions[a]@.len() ==> member[#[trigger] regions[a]@[j] as int]
            == member[regions[a]@[0] as int]
    &&& forall|a: int, b: int|
        0 <= a < b < regions.len() ==> member[(#[trigger] regions[a])@[0] as int] != member[(#[trigger] regions[b])@[0] as int]
}

/// The regions split the walkable tiles of `map` into Voronoi cells: none
/// is empty, each lists walkable tiles only, each walkable tile lies in
/// exactly one, and tiles share a region exactly when they share a nearest seed.
pub open spec fn regions_ok(map: GridMap, regions: Seq<Vec<usize>>) -> bool {
    let t = map.tiles@;
    &&& exists|seeds: Seq<(i32, i32)>, member: Seq<usize>| #[trigger] nearest_cells(map, regions, seeds, member)
    &&& forall|a: int, j: int|
        0 <= a < regions.len() && 0 <= j < regions[a]@.len() ==> #[trigger] regions[a]@[j] < t.len()
            && walkable(t[regions[a]@[j] as int])
    &&& forall|a: int| 0 <= a < regions.len() ==> (#[trigger] regions[a])@.len() > 0
    &&& forall|i: int|
        0 <= i < t.len() && walkable(#[trigger] t[i]) ==> exists|a: int, j: int|
            0 <= a < regions.len() && 0 <= j < regions[a]@.len() && regions[a]@[j] == i
    &&& forall|a: int, b: int, j: int, l: int|
        0 <= a < regions.len() && 0 <= b < regions.len() && 0 <= j < regions[a]@.len() && 0 <= l
            < regions[b]@.len() && #[trigger] regions[a]@[j] == #[trigger] regions[b]@[l] ==> a == b
}

proof fn lemma_region_of_members(t: Seq<TileType>, member: Seq<usize>, k: int, m: int)
    requires
        0 <= m <= t.len(),
        m <= member.len(),
        m <= usize::MAX,
    ensures
        forall|j: int|
            0 <= j < region_of(t, member, k, m).len() ==> {
                let e = #[trigger] region_of(t, member, k, m)[j] as int;
                &&& 0 <= e < m
                &&& walkable(t[e])
                &&& member[e] == k
            },
    decreases m,
{
    if m > 0 {
        lemma_region_of_members(t, member, k, m - 1);
        let prev = region_of(t, member, k, m - 1);
        assert forall|j: int| 0 <= j < region_of(t, member, k, m).len() implies {
            let e = #[trigger] region_of(t, member, k, m)[j] as int;
            &&& 0 <= e < m
            &&& walkable(t[e])
            &&& member[e] == k
        } by {
            if j < prev.len() {
                assert(region_of(t, member, k, m)[j] == prev[j]);
            } else {
                assert(walkable(t[m - 1]) && member[m - 1] == k);
                assert(region_of(t, member, k, m)[j] == (m - 1) as usize);
            }
        }
    }
}

proof fn lemma_region_of_contains(t: Seq<TileType>, member: Seq<usize>, k: int, m: int, i: int)
    requires
        0 <= i < m <= t.len(),
        m <= member.len(),
        m <= usize::MAX,
        walkable(t[i]),
        member[i] == k,
    ensures
        region_of(t, member, k, m).contains(i as usize),
    decreases m,
{
    let r = region_of(t, member, k, m);
    if i == m - 1 {
        assert(r[r.len() - 1] == i as usize);
    } else {
        lemma_region_of_contains(t, member, k, m - 1, i);
        let prev = region_of(t, member, k, m - 1);
        let j = choose|j: int| 0 <= j < prev.len() && prev[j] == i as usize;
        assert(r[j] == prev[j]);
    }
}

/// Splits the walkable tiles of `map` into regions around randomly placed
/// seed points (one seed per 144 tiles), each tile going to its nearest
/// seed; regions that received no tile are left out.
pub fn generate_voronoi_spawn_regions(map: &GridMap, rng: &mut RandomNumberGenerator) -> (r: Vec<Vec<usize>>)
    requires
        map.wf(),
    ensures
        regions_ok(*map, r@),
{
    let n = map.tiles.len();
    let nseeds: usize = if n / TILES_PER_REGION == 0 { 1 } else { n / TILES_PER_REGION };
    let mut seeds: Vec<(i32, i32)> = Vec::new();
    let mut s: usize = 0;
    while s < nseeds
        invariant
            map.wf(),
            s <= nseeds,
            seeds@.len() == s,
            forall|j: int|
                0 <= j < s ==> 0 <= (#[trigger] seeds@[j]).0 < map.width && 0 <= seeds@[j].1 < map.height,
        decreases nseeds - s,
    {
        let x = roll_die(rng, map.width) - 1;
        let y = roll_die(rng, map.height) - 1;
        seeds.push((x, y));
        s = s + 1;
    }
    let member = voronoi_membership(map.width, map.height, &seeds, DistanceAlgorithm::Pythagoras);
    let ghost t = map.tiles@;
    let mut regions: Vec<Vec<usize>> = Vec::new();
    let ghost mut ks: Seq<int> = Seq::empty();
    let mut k: usize = 0;
    while k < nseeds
        invariant
            map.wf(),
            t == map.tiles@,
            n == t.len(),
            member@.len() == n,
            k <= nseeds,
            ks.len() == regions@.len(),
            forall|a: int| 0 <= a < ks.len() ==> 0 <= #[trigger] ks[a] < k,
            forall|a: int, b: int| 0 <= a < b < ks.len() ==> #[trigger] ks[a] < #[trigger] ks[b],
            forall|a: int| 0 <= a < ks.len() ==> (#[trigger] regions@[a])@ == region_of(t, member@, ks[a], n as int),
            forall|a: int| 0 <= a < regions@.len() ==> (#[trigger] regions@[a])@.len() > 0,
            forall|i: int|
                0 <= i < n && walkable(#[trigger] t[i]) && member@[i] < k ==> exists|a: int|
                    0 <= a < ks.len() && ks[a] == member@[i],
        decreases nseeds - k,
    {
        let mut cur: Vec<usize> = Vec::new();
        let mut i: usize = 0;
        while i < n
            invariant
                map.wf(),
                t == map.tiles@,
                n == t.len(),
                member@.len() == n,
                i <= n,
                cur@ == region_of(t, member@, k as int, i as int),
            decreases n - i,
        {
            if map.tiles[i] != TileType::Wall && member[i] == k {
                cur.push(i);
            }
            i = i + 1;
        }
        let ghost ks0 = ks;
        if cur.len() > 0 {
            proof {
                ks = ks.push(k as int);
                assert forall|i: int|
                    0 <= i < n && walkable(#[trigger] t[i]) && member@[i] < k + 1 implies exists|a: int|
                        0 <= a < ks.len() && ks[a] == member@[i] by {
                    if member@[i] < k {
                        let a = choose|a: int| 0 <= a < ks0.len() && ks0[a] == member@[i];
                        assert(ks[a] == ks0[a]);
                    } else {
                        assert(ks[ks.len() - 1] == k);
                    }
                }
            }
            regions.push(cur);
        } else {
            proof {
                assert forall|i: int| 0 <= i < n && walkable(#[trigger] t[i]) && member@[i] == k implies false by {
                    lemma_region_of_contains(t, member@, k as int, n as int, i);
                }
            }
        }
        k = k + 1;
    }
    proof {
        assert forall|a: int| 0 <= a < ks.len() implies forall|j: int|
            0 <= j < (#[trigger] regions@[a])@.len() ==> {
                let e = #[trigger] regions@[a]@[j] as int;
                &&& 0 <= e < n
                &&& walkable(t[e])
                &&& member@[e] == ks[a]
            } by {
            lemma_region_of_members(t, member@, ks[a], n as int);
        }
        assert forall|i: int| 0 <= i < n && walkable(#[trigger] t[i]) implies exists|a: int, j: int|
            0 <= a < regions@.len() && 0 <= j < regions@[a]@.len() && regions@[a]@[j] == i by {
            assert(member@[i] < nseeds) by {
                assert(0 <= member@[i] < seeds@.len());
            }
            let a = choose|a: int| 0 <= a < ks.len() && ks[a] == member@[i];
            lemma_region_of_contains(t, member@, ks[a], n as int, i);
            let j = choose|j: int| 0 <= j < regions@[a]@.len() && regions@[a]@[j] == i as usize;
        }
        assert forall|a: int, b: int, j: int, l: int|
            0 <= a < regions@.len() && 0 <= b < regions@.len() && 0 <= j < regions@[a]@.len() && 0 <= l
                < regions@[b]@.len() && #[trigger] regions@[a]@[j] == #[trigger] regions@[b]@[l] implies a == b by {
            let e = regions@[a]@[j] as int;
            assert(member@[e] == ks[a]);
            assert(member@[regions@[b]@[l] as int] == ks[b]);
            if a < b {
                assert(ks[a] < ks[b]);
            } else if b < a {
                assert(ks[b] < ks[a]);
            }
        }
        assert forall|a: int, j: int|
            0 <= a < regions@.len() && 0 <= j < regions@[a]@.len() implies member@[#[trigger] regions@[a]@[j] as int]
                == member@[regions@[a]@[0] as int] by {
            assert(member@[regions@[a]@[j] as int] == ks[a]);
            assert(member@[regions@[a]@[0] as int] == ks[a]);
        }
        assert forall|a: int, b: int| 0 <= a < b < regions@.len() implies member@[(#[trigger] regions@[a])@[0] as int]
            != member@[(#[trigger] regions@[b])@[0] as int] by {
            assert(member@[regions@[a]@[0] as int] == ks[a]);
            assert(member@[regions@[b]@[0] as int] == ks[b]);
        }
        assert(nearest_cells(*map, regions@, seeds@, member@));
    }
    regions
}

} // verus!
