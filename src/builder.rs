use vstd::prelude::*;
use rltk::RandomNumberGenerator;
use crate::components::Position;
use crate::flood::{FloodMap, all_walkable_connected, flood_ok};
use crate::map::{GridMap, TileType, walkable};

verus! {

/// What every finished level satisfies: the start is a walkable tile, every
/// walkable tile can be walked to from it, and exactly one tile, `exit`, holds
/// the down stairs.
pub open spec fn level_ok(map: GridMap, start: Position, exit: int) -> bool {
    &&& map.wf()
    &&& map.in_map(start.x as int, start.y as int)
    &&& walkable(map.tiles@[map.idx(start.x as int, start.y as int)])
    &&& all_walkable_connected(
        map.tiles@,
        map.width as int,
        map.height as int,
        map.idx(start.x as int, start.y as int),
    )
    &&& 0 <= exit < map.tiles@.len()
    &&& forall|i: int|
        0 <= i < map.tiles@.len() ==> (#[trigger] map.tiles@[i] == TileType::DownStairs <==> i == exit)
}

/// `flood` is a flood of the finished `map` from the start, and no tile it
/// reached lies farther from the start than the stairs at `exit`; when it
/// reached any tile besides the start, the stairs lie away from the start,
/// at a positive distance.
pub open spec fn stairs_farthest(map: GridMap, start: Position, exit: int, flood: FloodMap) -> bool {
    &&& flood_ok(
        map.tiles@,
        map.width as int,
        map.height as int,
        map.idx(start.x as int, start.y as int),
        flood.reached@,
        flood.dist@,
    )
    &&& flood.reached@.len() == map.tiles@.len()
    &&& flood.dist@.len() == map.tiles@.len()
    &&& 0 <= exit < map.tiles@.len()
    &&& flood.reached@[exit]
    &&& forall|i: int| 0 <= i < map.tiles@.len() && #[trigger] flood.reached@[i] ==> flood.dist@[i] <= flood.dist@[exit]
    &&& (exists|i: int|
        0 <= i < map.tiles@.len() && i != map.idx(start.x as int, start.y as int) && #[trigger] flood.reached@[i])
        ==> exit != map.idx(start.x as int, start.y as int) && flood.dist@[exit] > 0
}

/// A copy of `map` with every tile revealed.
pub fn revealed_copy(map: &GridMap) -> (r: GridMap)
    requires
        map.wf(),
    ensures
        r.wf(),
        r.tiles@ == map.tiles@,
        r.width == map.width,
        r.height == map.height,
        r.depth == map.depth,
        r.revealed_tiles@ == Seq::new(map.tiles@.len(), |i: int| true),
{
    let n = map.tiles.len();
    let mut tiles: Vec<TileType> = Vec::new();
    let mut revealed: Vec<bool> = Vec::new();
    let mut visible: Vec<bool> = Vec::new();
    let mut blocked: Vec<bool> = Vec::new();
    let mut content: Vec<Vec<u32>> = Vec::new();
    let mut i: usize = 0;
    while i < n
        invariant
            map.wf(),
            n == map.tiles@.len(),
            i <= n,
            tiles@ == map.tiles@.subrange(0, i as int),
            revealed@ == Seq::new(i as nat, |j: int| true),
            visible@.len() == i,
            blocked@.len() == i,
            content@.len() == i,
        decreases n - i,
    {
        tiles.push(map.tiles[i]);
        revealed.push(true);
        visible.push(map.visible_tiles[i]);
        blocked.push(map.blocked[i]);
        content.push(Vec::new());
        i = i + 1;
    }
    assert(tiles@ =~= map.tiles@);
    GridMap {
        tiles,
        width: map.width,
        height: map.height,
        revealed_tiles: revealed,
        visible_tiles: visible,
        blocked,
        depth: map.depth,
        bloodstains: Vec::new(),
        tile_content: content,
    }
}

/// Appends a revealed copy of `map` to `history` when `visualize` is on
/// (playback of the generation steps); leaves it alone otherwise.
pub fn record_snapshot(map: &GridMap, history: &mut Vec<GridMap>, visualize: bool)
    requires
        map.wf(),
    ensures
        !visualize ==> final(history)@ == old(history)@,
        visualize ==> {
            &&& final(history)@.len() == old(history)@.len() + 1
            &&& final(history)@.subrange(0, old(history)@.len() as int) == old(history)@
            &&& final(history)@.last().wf()
            &&& final(history)@.last().tiles@ == map.tiles@
            &&& final(history)@.last().width == map.width
            &&& final(history)@.last().height == map.height
            &&& final(history)@.last().revealed_tiles@ == Seq::new(map.tiles@.len(), |i: int| true)
        },
{
    if visualize {
        let snapshot = revealed_copy(map);
        history.push(snapshot);
        assert(history@.subrange(0, history@.len() - 1) =~= old(history)@);
    }
}

/// The interface every level generator offers.
pub trait MapBuilder {
    /// The level is finished as this builder promises, or the builder has
    /// recorded why it could not finish it.
    spec fn finished(&self) -> bool;

    /// The map under construction.
    spec fn current_map(&self) -> GridMap;

    /// The maps recorded for playback so far.
    spec fn snapshots(&self) -> Seq<GridMap>;

    /// Whether maps are recorded for playback.
    spec fn visualizing(&self) -> bool;

    /// Generates the level, drawing randomness from `rng`.
    fn build_map(&mut self, rng: &mut RandomNumberGenerator)
        ensures
            final(self).finished(),
    ;

    fn get_map(&self) -> GridMap;

    fn get_starting_position(&self) -> Position;

    fn get_snapshot_history(&self) -> Vec<GridMap>;

    /// Requested spawns: a tile index and the name of what to spawn there.
    fn get_spawn_list(&self) -> Vec<(usize, String)>;

    /// Records a revealed copy of the current map when playback is on (and
    /// the map is well formed); nothing otherwise.
    fn take_snapshot(&mut self)
        ensures
            final(self).current_map() == old(self).current_map(),
            final(self).visualizing() == old(self).visualizing(),
            !(old(self).visualizing() && old(self).current_map().wf()) ==> final(self).snapshots()
                == old(self).snapshots(),
            old(self).visualizing() && old(self).current_map().wf() ==> {
                &&& final(self).snapshots().len() == old(self).snapshots().len() + 1
                &&& final(self).snapshots().subrange(0, old(self).snapshots().len() as int) == old(self).snapshots()
                &&& final(self).snapshots().last().tiles@ == old(self).current_map().tiles@
                &&& final(self).snapshots().last().revealed_tiles@ == Seq::new(
                    old(self).current_map().tiles@.len(),
                    |i: int| true,
                )
            },
    ;
}

} // verus!
