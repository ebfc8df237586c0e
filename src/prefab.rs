use vstd::prelude::*;
use vstd::string::StrSliceExecFns;
use rltk::RandomNumberGenerator;
use crate::builder::{MapBuilder, record_snapshot, revealed_copy};
use crate::cellular_automata::walk_left_to_floor;
use crate::components::Position;
use crate::map::{GridMap, TileType, MAPCOUNT, MAPWIDTH, MAPHEIGHT, col_of, row_of, idx_of, in_bounds, lemma_idx_decompose, lemma_idx_in_range};
use crate::registry::BaseBuilder;

verus! {

/// The tile a template glyph stands for, `old` for a glyph it does not know.
pub open spec fn glyph_tile(c: char, old: TileType) -> TileType {
    if c == ' ' || c == '@' || c == 'g' || c == 'o' || c == '^' || c == '%' || c == '!' {
        TileType::Floor
    } else if c == '#' {
        TileType::Wall
    } else if c == '>' {
        TileType::DownStairs
    } else {
        old
    }
}

/// What a template glyph asks to spawn on its tile.
pub open spec fn spawn_name(c: char) -> Option<Seq<char>> {
    if c == 'g' {
        Some("Goblin"@)
    } else if c == 'o' {
        Some("Orc"@)
    } else if c == '^' {
        Some("Bear Trap"@)
    } else if c == '%' {
        Some("Rations"@)
    } else if c == '!' {
        Some("Health Potion"@)
    } else {
        None
    }
}

/// The glyphs of a template: line breaks dropped, non-breaking spaces made
/// ordinary spaces.
pub open spec fn template_glyphs(s: Seq<char>) -> Seq<char>
    decreases s.len(),
{
    if s.len() == 0 {
        Seq::empty()
    } else {
        let rest = template_glyphs(s.drop_last());
        let c = s.last();
        if c == '\r' || c == '\n' {
            rest
        } else if c == '\u{A0}' {
            rest.push(' ')
        } else {
            rest.push(c)
        }
    }
}

/// `old` with an `sw` by `sh` block of glyphs laid on it with its top-left
/// corner at (cx, cy); what falls off the map is left out.
pub open spec fn stamped(old: Seq<TileType>, w: int, glyphs: Seq<char>, sw: int, sh: int, cx: int, cy: int) -> Seq<TileType> {
    Seq::new(
        old.len(),
        |i: int|
            {
                let x = col_of(w, i) - cx;
                let y = row_of(w, i) - cy;
                if 0 <= x < sw && 0 <= y < sh {
                    glyph_tile(glyphs[y * sw + x], old[i])
                } else {
                    old[i]
                }
            },
    )
}

/// Glyphs of a template with the line breaks taken out and non-breaking
/// spaces turned into spaces.
pub fn read_ascii_to_vec(template: &str) -> (r: Vec<char>)
    ensures
        r@ == template_glyphs(template@),
{
    let n = template.unicode_len();
    let mut r: Vec<char> = Vec::new();
    let mut i: usize = 0;
    while i < n
        invariant
            n == template@.len(),
            i <= n,
            r@ == template_glyphs(template@.subrange(0, i as int)),
        decreases n - i,
    {
        let c = template.get_char(i);
        assert(template@.subrange(0, i as int + 1).drop_last() =~= template@.subrange(0, i as int));
        if c == '\r' || c == '\n' {
        } else if c == '\u{A0}' {
            r.push(' ');
        } else {
            r.push(c);
        }
        i = i + 1;
    }
    assert(template@.subrange(0, n as int) =~= template@);
    r
}

#[derive(Clone, Copy, PartialEq, Eq, Structural, Debug)]
pub enum HorizontalPlacement {
    Left,
    Center,
    Right,
}

#[derive(Clone, Copy, PartialEq, Eq, Structural, Debug)]
pub enum VerticalPlacement {
    Top,
    Center,
    Bottom,
}

/// A whole level drawn as text, `width` glyphs by `height` lines.
#[derive(Clone, Copy, PartialEq, Eq, Debug)]
pub struct PrefabLevel {
    pub template: &'static str,
    pub width: usize,
    pub height: usize,
}

/// A piece of level drawn as text, stamped onto a map built before it.
#[derive(Clone, Copy, PartialEq, Eq, Debug)]
pub struct PrefabSection {
    pub template: &'static str,
    pub width: usize,
    pub height: usize,
    pub placement: (HorizontalPlacement, VerticalPlacement),
}

/// One layer of a layered glyph image: `width` by `height` glyphs, row by row.
#[derive(Clone, PartialEq, Eq, Debug)]
pub struct GlyphLayer {
    pub width: usize,
    pub height: usize,
    pub glyphs: Vec<char>,
}

/// A small walled fort with guards and a way down, set at the right edge.
pub fn underground_fort() -> (r: PrefabSection)
    ensures
        r.width == 15,
        r.height == 9,
        r.placement == (HorizontalPlacement::Right, VerticalPlacement::Center),
{
    PrefabSection {
        template: "\n###############\n#      o      #\n# ##### ##### #\n# #   # #   # #\n#   > g  g    #\n# #   # #   # #\n# ##### ##### #\n#  ^   %   !  #\n######   ######\n",
        width: 15,
        height: 9,
        placement: (HorizontalPlacement::Right, VerticalPlacement::Center),
    }
}

#[derive(Clone, PartialEq, Eq, Debug)]
pub enum PrefabMode {
    Constant { level: PrefabLevel },
    RexLevel { layers: Vec<GlyphLayer> },
    Sectional { section: PrefabSection },
}

/// Levels read from templates, whole or as a section laid over a level that
/// another builder made.
pub struct PrefabBuilder {
    pub map: GridMap,
    pub starting_position: Position,
    pub depth: i32,
    pub history: Vec<GridMap>,
    /// Whether each step's map is recorded in `history`, for playback.
    pub visualize: bool,
    pub mode: PrefabMode,
    pub spawns: Vec<(usize, String)>,
    pub previous_builder: Option<Box<BaseBuilder>>,
    /// Why the last `build_map` failed, if it did.
    pub error: Option<PrefabError>,
    /// The wrapped level's tiles and start, once it was built.
    pub base_tiles: Vec<TileType>,
    pub base_start: Position,
}

/// The spawn list as plain values.
pub open spec fn spawn_view(s: Seq<(usize, String)>) -> Seq<(usize, Seq<char>)> {
    s.map_values(|p: (usize, String)| (p.0, p.1@))
}

impl PrefabBuilder {
    pub fn new(new_depth: i32, previous_builder: Option<Box<BaseBuilder>>) -> (r: PrefabBuilder)
        ensures
            r.depth == new_depth,
            r.map.fresh(new_depth),
            match r.mode {
                PrefabMode::Sectional { section } => section.width == 15 && section.height == 9
                    && section.placement == (HorizontalPlacement::Right, VerticalPlacement::Center),
                _ => false,
            },
            r.previous_builder == previous_builder,
            r.spawns@.len() == 0,
    {
        PrefabBuilder {
            map: GridMap::new(new_depth),
            starting_position: Position { x: 0, y: 0 },
            depth: new_depth,
            history: Vec::new(),
            visualize: false,
            mode: PrefabMode::Sectional { section: underground_fort() },
            spawns: Vec::new(),
            previous_builder,
            error: None,
            base_tiles: Vec::new(),
            base_start: Position { x: 0, y: 0 },
        }
    }

    /// Applies one template glyph to tile `idx`: sets its tile, records a
    /// spawn there for a creature or item glyph, moves the start there for `@`.
    pub fn char_to_map(&mut self, ch: char, idx: usize)
        requires
            old(self).map.wf(),
            idx < old(self).map.tiles@.len(),
        ensures
            final(self).map.wf(),
            final(self).map.same_shape(&old(self).map),
            final(self).map.tiles@ == old(self).map.tiles@.update(
                idx as int,
                glyph_tile(ch, old(self).map.tiles@[idx as int]),
            ),
            spawn_view(final(self).spawns@) == match spawn_name(ch) {
                Some(nm) => spawn_view(old(self).spawns@).push((idx, nm)),
                None => spawn_view(old(self).spawns@),
            },
            final(self).starting_position == if ch == '@' {
                Position {
                    x: col_of(old(self).map.width as int, idx as int) as i32,
                    y: row_of(old(self).map.width as int, idx as int) as i32,
                }
            } else {
                old(self).starting_position
            },
            final(self).previous_builder == old(self).previous_builder,
            final(self).mode == old(self).mode,
            final(self).depth == old(self).depth,
            final(self).base_tiles == old(self).base_tiles,
            final(self).base_start == old(self).base_start,
    {
        let ghost t = self.map.tiles@;
        let ghost s0 = self.spawns@;
        proof {
            lemma_idx_decompose(self.map.width as int, self.map.height as int, idx as int);
        }
        if ch == ' ' {
            self.map.tiles.set(idx, TileType::Floor);
        } else if ch == '#' {
            self.map.tiles.set(idx, TileType::Wall);
        } else if ch == '@' {
            let x = (idx % (self.map.width as usize)) as i32;
            let y = (idx / (self.map.width as usize)) as i32;
            self.map.tiles.set(idx, TileType::Floor);
            self.starting_position = Position { x, y };
        } else if ch == '>' {
            self.map.tiles.set(idx, TileType::DownStairs);
        } else if ch == 'g' || ch == 'o' || ch == '^' || ch == '%' || ch == '!' {
            self.map.tiles.set(idx, TileType::Floor);
            let name: String = if ch == 'g' {
                "Goblin".to_owned()
            } else if ch == 'o' {
                "Orc".to_owned()
            } else if ch == '^' {
                "Bear Trap".to_owned()
            } else if ch == '%' {
                "Rations".to_owned()
            } else {
                "Health Potion".to_owned()
            };
            self.spawns.push((idx, name));
            proof {
                assert(spawn_view(self.spawns@) =~= spawn_view(s0).push((idx, spawn_name(ch).unwrap())));
            }
        }
        assert(self.map.tiles@ =~= t.update(idx as int, glyph_tile(ch, t[idx as int])));
    }
}

/// The map tile cell `k` of an `sw`-wide block lands on when its corner is
/// at (cx, cy), if it lands on the map.
pub open spec fn cell_target(w: int, h: int, sw: int, cx: int, cy: int, k: int) -> Option<int> {
    let x = k % sw + cx;
    let y = k / sw + cy;
    if in_bounds(w, h, x, y) {
        Some(idx_of(w, x, y))
    } else {
        None
    }
}

/// The spawns the first `k` cells of a block ask for, in cell order.
pub open spec fn stamp_spawns(g: Seq<char>, w: int, h: int, sw: int, cx: int, cy: int, k: int) -> Seq<(usize, Seq<char>)>
    decreases k,
{
    if k <= 0 {
        Seq::empty()
    } else {
        stamp_spawns(g, w, h, sw, cx, cy, k - 1) + match cell_target(w, h, sw, cx, cy, k - 1) {
            Some(i) => match spawn_name(g[k - 1]) {
                Some(nm) => seq![(i as usize, nm)],
                None => Seq::empty(),
            },
            None => Seq::empty(),
        }
    }
}

/// The start after the first `k` cells of a block, from start `s`: the
/// tile of the last `@` among them that lands on the map.
pub open spec fn stamp_start(g: Seq<char>, w: int, h: int, sw: int, cx: int, cy: int, k: int, s: Position) -> Position
    decreases k,
{
    if k <= 0 {
        s
    } else {
        let p = stamp_start(g, w, h, sw, cx, cy, k - 1, s);
        match cell_target(w, h, sw, cx, cy, k - 1) {
            Some(i) => if g[k - 1] == '@' {
                Position { x: col_of(w, i) as i32, y: row_of(w, i) as i32 }
            } else {
                p
            },
            None => p,
        }
    }
}

/// Cell (x, y) of an `sw`-wide block precedes cell (tx, ty) in row order.
pub open spec fn cell_before(x: int, y: int, sw: int, sh: int, tx: int, ty: int) -> bool {
    0 <= x < sw && 0 <= y < sh && (y < ty || (y == ty && x < tx))
}

/// `old` with the block's cells before (tx, ty) laid on it.
pub open spec fn stamped_until(old: Seq<TileType>, w: int, glyphs: Seq<char>, sw: int, sh: int, cx: int, cy: int, tx: int, ty: int) -> Seq<TileType> {
    Seq::new(
        old.len(),
        |i: int|
            {
                let x = col_of(w, i) - cx;
                let y = row_of(w, i) - cy;
                if cell_before(x, y, sw, sh, tx, ty) {
                    glyph_tile(glyphs[y * sw + x], old[i])
                } else {
                    old[i]
                }
            },
    )
}

proof fn lemma_block_size(sw: int, sh: int)
    requires
        0 <= sw <= 1024,
        0 <= sh <= 1024,
    ensures
        sw * sh <= 1024 * 1024,
{
    assert(sw * sh <= 1024 * 1024) by (nonlinear_arith)
        requires
            0 <= sw <= 1024,
            0 <= sh <= 1024,
    ;
}

proof fn lemma_cell_index(sw: int, sh: int, x: int, y: int)
    requires
        0 <= x < sw <= 1024,
        0 <= y < sh <= 1024,
    ensures
        0 <= y * sw + x < sw * sh,
        sw * sh <= 1024 * 1024,
{
    assert(sw * sh <= 1024 * 1024) by (nonlinear_arith)
        requires
            0 <= sw <= 1024,
            0 <= sh <= 1024,
    ;
    assert(0 <= y * sw + x < sw * sh) by (nonlinear_arith)
        requires
            0 <= x < sw,
            0 <= y < sh,
    ;
}

impl PrefabBuilder {
    /// Lays an `sw` by `sh` block of glyphs, row by row, on the map with its
    /// top-left corner at (cx, cy), glyph by glyph through `char_to_map`;
    /// cells that fall off the map are skipped.
    pub fn stamp_glyphs(&mut self, glyphs: &Vec<char>, sw: usize, sh: usize, cx: i32, cy: i32)
        requires
            old(self).map.wf(),
            sw <= 1024,
            sh <= 1024,
            sw * sh <= glyphs@.len(),
            -4096 <= cx <= 4096,
            -4096 <= cy <= 4096,
        ensures
            final(self).map.wf(),
            final(self).map.same_shape(&old(self).map),
            final(self).map.tiles@ == stamped(
                old(self).map.tiles@,
                old(self).map.width as int,
                glyphs@,
                sw as int,
                sh as int,
                cx as int,
                cy as int,
            ),
            spawn_view(final(self).spawns@) == spawn_view(old(self).spawns@) + stamp_spawns(
                glyphs@,
                old(self).map.width as int,
                old(self).map.height as int,
                sw as int,
                cx as int,
                cy as int,
                sw * sh,
            ),
            final(self).starting_position == stamp_start(
                glyphs@,
                old(self).map.width as int,
                old(self).map.height as int,
                sw as int,
                cx as int,
                cy as int,
                sw * sh,
                old(self).starting_position,
            ),
            final(self).previous_builder == old(self).previous_builder,
            final(self).mode == old(self).mode,
            final(self).depth == old(self).depth,
            (forall|k: int| 0 <= k < glyphs@.len() ==> glyphs@[k] != '@') ==> final(self).starting_position
                == old(self).starting_position,
            final(self).base_tiles == old(self).base_tiles,
            final(self).base_start == old(self).base_start,
    {
        let ghost bt = self.base_tiles;
        let ghost bs = self.base_start;
        let ghost o = self.map.tiles@;
        let ghost sp = self.starting_position;
        let ghost w = self.map.width as int;
        let ghost h = self.map.height as int;
        let ghost n = o.len();
        let ghost m0 = self.map;
        let ghost sp0 = spawn_view(self.spawns@);
        let ghost pb = self.previous_builder;
        let ghost md = self.mode;
        let ghost dp = self.depth;
        let mut ty: usize = 0;
        while ty < sh
            invariant
                self.map.wf(),
                self.map.same_shape(&m0),
                m0.wf(),
                o == m0.tiles@,
                w == m0.width,
                h == m0.height,
                n == o.len(),
                sw <= 1024,
                sh <= 1024,
                sw * sh <= glyphs@.len(),
                -4096 <= cx <= 4096,
                -4096 <= cy <= 4096,
                ty <= sh,
                self.map.tiles@ == stamped_until(o, w, glyphs@, sw as int, sh as int, cx as int, cy as int, 0, ty as int),
                spawn_view(self.spawns@) == sp0 + stamp_spawns(glyphs@, w, h, sw as int, cx as int, cy as int, ty * sw),
                self.starting_position == stamp_start(glyphs@, w, h, sw as int, cx as int, cy as int, ty * sw, sp),
                self.previous_builder == pb,
                self.mode == md,
                self.depth == dp,
                (forall|k: int| 0 <= k < glyphs@.len() ==> glyphs@[k] != '@') ==> self.starting_position == sp,
                self.base_tiles == bt,
                self.base_start == bs,
            decreases sh - ty,
        {
            let mut tx: usize = 0;
            while tx < sw
                invariant
                    self.map.wf(),
                    self.map.same_shape(&m0),
                    m0.wf(),
                    o == m0.tiles@,
                    w == m0.width,
                    h == m0.height,
                    n == o.len(),
                    sw <= 1024,
                    sh <= 1024,
                    sw * sh <= glyphs@.len(),
                    -4096 <= cx <= 4096,
                    -4096 <= cy <= 4096,
                    ty < sh,
                    tx <= sw,
                    self.map.tiles@ == stamped_until(o, w, glyphs@, sw as int, sh as int, cx as int, cy as int, tx as int, ty as int),
                    spawn_view(self.spawns@) == sp0 + stamp_spawns(glyphs@, w, h, sw as int, cx as int, cy as int, ty * sw + tx),
                    self.starting_position == stamp_start(glyphs@, w, h, sw as int, cx as int, cy as int, ty * sw + tx, sp),
                    self.previous_builder == pb,
                    self.mode == md,
                    self.depth == dp,
                    (forall|k: int| 0 <= k < glyphs@.len() ==> glyphs@[k] != '@') ==> self.starting_position == sp,
                    self.base_tiles == bt,
                    self.base_start == bs,
                decreases sw - tx,
            {
                proof {
                    lemma_cell_index(sw as int, sh as int, tx as int, ty as int);
                }
                let k = ty * sw + tx;
                let target = self.map.xy_idx(tx as i32 + cx, ty as i32 + cy);
                let ghost before = self.map.tiles@;
                let ghost sp1 = spawn_view(self.spawns@);
                proof {
                    lemma_idx_in_range(sw as int, sh as int, tx as int, ty as int);
                    assert(k as int == idx_of(sw as int, tx as int, ty as int));
                }
                if let Some(idx) = target {
                    self.char_to_map(glyphs[k], idx);
                    proof {
                        lemma_idx_in_range(w, h, tx + cx, ty + cy);
                    }
                }
                proof {
                    assert(spawn_view(self.spawns@) =~= sp0 + stamp_spawns(glyphs@, w, h, sw as int, cx as int, cy as int, k + 1));
                }
                proof {
                    let next = stamped_until(o, w, glyphs@, sw as int, sh as int, cx as int, cy as int, tx as int + 1, ty as int);
                    assert forall|i: int| 0 <= i < n implies self.map.tiles@[i] == next[i] by {
                        lemma_idx_decompose(w, h, i);
                        let x = col_of(w, i) - cx;
                        let y = row_of(w, i) - cy;
                        if x == tx && y == ty {
                            assert(in_bounds(w, h, tx + cx, ty + cy));
                            assert(i == idx_of(w, tx + cx, ty + cy));
                        } else if target.is_some() {
                            assert(i != target.unwrap());
                        }
                    }
                    assert(self.map.tiles@ =~= next);
                }
                tx = tx + 1;
            }
            proof {
                assert(self.map.tiles@ =~= stamped_until(o, w, glyphs@, sw as int, sh as int, cx as int, cy as int, 0, ty as int + 1));
                assert(ty * sw + sw == (ty + 1) * sw) by (nonlinear_arith);
            }
            ty = ty + 1;
        }
        assert(self.map.tiles@ =~= stamped(o, w, glyphs@, sw as int, sh as int, cx as int, cy as int));
        assert(sh * sw == sw * sh) by (nonlinear_arith);
    }
}

/// Column at which a section `sw` wide is placed on a map `w` wide.
pub open spec fn section_x(p: HorizontalPlacement, w: int, sw: int) -> int {
    match p {
        HorizontalPlacement::Left => 0,
        HorizontalPlacement::Center => w / 2 - sw / 2,
        HorizontalPlacement::Right => (w - 1) - sw,
    }
}

/// Row at which a section `sh` high is placed on a map `h` high.
pub open spec fn section_y(p: VerticalPlacement, h: int, sh: int) -> int {
    match p {
        VerticalPlacement::Top => 0,
        VerticalPlacement::Center => h / 2 - sh / 2,
        VerticalPlacement::Bottom => (h - 1) - sh,
    }
}

/// Why a template could not be laid down, or no start found.
#[derive(Clone, Copy, PartialEq, Eq, Structural, Debug)]
pub enum PrefabError {
    /// The template does not hold exactly width times height glyphs.
    TemplateSizeMismatch,
    /// The template is wider or higher than 1024 glyphs.
    TemplateTooLarge,
    /// A section was to be laid over a level, but no builder for one was given.
    NoBaseLevel,
    /// No start was set and row 2 holds no floor at or left of column 2.
    NoStartTile,
}

/// What is wrong with a template of glyphs `g`, `w` by `h`, if anything.
pub open spec fn template_error(g: Seq<char>, w: usize, h: usize) -> Option<PrefabError> {
    if w > 1024 || h > 1024 {
        Some(PrefabError::TemplateTooLarge)
    } else if g.len() != w * h {
        Some(PrefabError::TemplateSizeMismatch)
    } else {
        None
    }
}

/// A layer holding a glyph for each of its cells.
pub open spec fn layer_fits(l: GlyphLayer) -> bool {
    l.glyphs@.len() >= l.width * l.height
}

pub open spec fn min_int(a: int, b: int) -> int {
    if a <= b { a } else { b }
}

/// The part of a layer that lies on a `w` by `h` map, row by row: its
/// first min(width, w) columns of its first min(height, h) rows.
pub open spec fn clipped(l: GlyphLayer, w: int, h: int) -> Seq<char> {
    let cw = min_int(l.width as int, w);
    let ch = min_int(l.height as int, h);
    Seq::new((cw * ch) as nat, |k: int| l.glyphs@[(k / cw) * l.width + k % cw])
}

/// `t`, of a `w` by `h` map, with the first `k` layers laid on it from the
/// top-left corner, one after the other: every cell of a layer that lies on
/// the map, whatever the layer's size; a layer short of glyphs is skipped.
pub open spec fn rex_stamped(t: Seq<TileType>, w: int, h: int, layers: Seq<GlyphLayer>, k: int) -> Seq<TileType>
    decreases k,
{
    if k <= 0 {
        t
    } else {
        let prev = rex_stamped(t, w, h, layers, k - 1);
        let l = layers[k - 1];
        if layer_fits(l) {
            stamped(prev, w, clipped(l, w, h), min_int(l.width as int, w), min_int(l.height as int, h), 0, 0)
        } else {
            prev
        }
    }
}

/// The spawns the first `k` layers ask for, layer after layer.
pub open spec fn rex_spawns(w: int, h: int, layers: Seq<GlyphLayer>, k: int) -> Seq<(usize, Seq<char>)>
    decreases k,
{
    if k <= 0 {
        Seq::empty()
    } else {
        let l = layers[k - 1];
        rex_spawns(w, h, layers, k - 1) + if layer_fits(l) {
            stamp_spawns(clipped(l, w, h), w, h, min_int(l.width as int, w), 0, 0, min_int(l.width as int, w) * min_int(l.height as int, h))
        } else {
            Seq::empty()
        }
    }
}

/// The start after the first `k` layers, from start `s`.
pub open spec fn rex_start(w: int, h: int, layers: Seq<GlyphLayer>, k: int, s: Position) -> Position
    decreases k,
{
    if k <= 0 {
        s
    } else {
        let l = layers[k - 1];
        let p = rex_start(w, h, layers, k - 1, s);
        if layer_fits(l) {
            stamp_start(clipped(l, w, h), w, h, min_int(l.width as int, w), 0, 0, min_int(l.width as int, w) * min_int(l.height as int, h), p)
        } else {
            p
        }
    }
}

/// All wall, the tiles of a fresh map.
pub open spec fn wall_tiles() -> Seq<TileType> {
    Seq::new(MAPCOUNT as nat, |i: int| TileType::Wall)
}

/// The map's tiles are the wrapped level's `base_tiles` with the section,
/// glyphs `g`, laid on at the place its placement gives (unchanged unless
/// `ok`).
pub open spec fn tiles_over_base(b: PrefabBuilder, g: Seq<char>, section: PrefabSection, ok: bool) -> bool {
    let w = b.map.width as int;
    let h = b.map.height as int;
    &&& b.base_tiles@.len() == b.map.tiles@.len()
    &&& b.map.tiles@ == if ok {
        stamped(
            b.base_tiles@,
            w,
            g,
            section.width as int,
            section.height as int,
            section_x(section.placement.0, w, section.width as int),
            section_y(section.placement.1, h, section.height as int),
        )
    } else {
        b.base_tiles@
    }
}

/// The start is the wrapped level's `base_start`, moved to the section's
/// last `@` on the map if it has one.
pub open spec fn start_over_base(b: PrefabBuilder, g: Seq<char>, section: PrefabSection, ok: bool) -> bool {
    let w = b.map.width as int;
    let h = b.map.height as int;
    &&& b.map.in_map(b.base_start.x as int, b.base_start.y as int)
    &&& b.starting_position == if ok {
        stamp_start(
            g,
            w,
            h,
            section.width as int,
            section_x(section.placement.0, w, section.width as int),
            section_y(section.placement.1, h, section.height as int),
            section.width * section.height,
            b.base_start,
        )
    } else {
        b.base_start
    }
}

/// The first `cw` columns of the first `ch` rows of a layer, row by row.
fn clip_layer(l: &GlyphLayer, cw: usize, ch: usize) -> (r: Vec<char>)
    requires
        cw <= l.width,
        ch <= l.height,
        cw <= 1024,
        ch <= 1024,
        l.glyphs@.len() >= l.width * l.height,
    ensures
        r@ == Seq::new((cw * ch) as nat, |k: int| l.glyphs@[(k / cw as int) * l.width + k % cw as int]),
{
    let mut r: Vec<char> = Vec::new();
    let mut y: usize = 0;
    while y < ch
        invariant
            cw <= l.width,
            ch <= l.height,
            cw <= 1024,
            ch <= 1024,
            l.glyphs@.len() >= l.width * l.height,
            y <= ch,
            r@.len() == y * cw,
            forall|k: int| 0 <= k < y * cw ==> #[trigger] r@[k] == l.glyphs@[(k / cw as int) * l.width + k % cw as int],
        decreases ch - y,
    {
        let mut x: usize = 0;
        while x < cw
            invariant
                cw <= l.width,
                ch <= l.height,
                cw <= 1024,
                ch <= 1024,
                l.glyphs@.len() >= l.width * l.height,
                y < ch,
                x <= cw,
                r@.len() == y * cw + x,
                forall|k: int| 0 <= k < y * cw + x ==> #[trigger] r@[k] == l.glyphs@[(k / cw as int) * l.width + k % cw as int],
            decreases cw - x,
        {
            proof {
                assert(y * l.width + x < l.height * l.width) by (nonlinear_arith)
                    requires
                        y < ch <= l.height,
                        x < cw <= l.width,
                ;
                assert(l.height * l.width == l.width * l.height) by (nonlinear_arith);
                lemma_idx_in_range(cw as int, ch as int, x as int, y as int);
            }
            let _len = l.glyphs.len();
            r.push(l.glyphs[y * l.width + x]);
            x = x + 1;
        }
        proof {
            assert(y * cw + cw == (y + 1) * cw) by (nonlinear_arith);
        }
        y = y + 1;
    }
    assert(ch * cw == cw * ch) by (nonlinear_arith);
    r
}

impl PrefabBuilder {
    /// Lays a whole-level template on the map from its top-left corner.
    pub fn load_ascii_map(&mut self, level: &PrefabLevel) -> (r: Result<(), PrefabError>)
        requires
            old(self).map.wf(),
        ensures
            final(self).map.wf(),
            final(self).map.same_shape(&old(self).map),
            final(self).previous_builder == old(self).previous_builder,
            final(self).mode == old(self).mode,
            ({
                let g = template_glyphs(level.template@);
                match template_error(g, level.width, level.height) {
                    Some(e) => r == Err::<(), PrefabError>(e) && final(self).map.tiles@ == old(self).map.tiles@,
                    None => r is Ok && final(self).map.tiles@ == stamped(
                        old(self).map.tiles@,
                        old(self).map.width as int,
                        g,
                        level.width as int,
                        level.height as int,
                        0,
                        0,
                    ) && spawn_view(final(self).spawns@) == spawn_view(old(self).spawns@) + stamp_spawns(
                        g,
                        old(self).map.width as int,
                        old(self).map.height as int,
                        level.width as int,
                        0,
                        0,
                        level.width * level.height,
                    ) && final(self).starting_position == stamp_start(
                        g,
                        old(self).map.width as int,
                        old(self).map.height as int,
                        level.width as int,
                        0,
                        0,
                        level.width * level.height,
                        old(self).starting_position,
                    ),
                }
            }),
            (forall|k: int| 0 <= k < template_glyphs(level.template@).len() ==> template_glyphs(level.template@)[k] != '@')
                ==> final(self).starting_position == old(self).starting_position,
    {
        let glyphs = read_ascii_to_vec(level.template);
        if level.width > 1024 || level.height > 1024 {
            return Err(PrefabError::TemplateTooLarge);
        }
        proof {
            lemma_block_size(level.width as int, level.height as int);
        }
        if glyphs.len() != level.width * level.height {
            return Err(PrefabError::TemplateSizeMismatch);
        }
        self.stamp_glyphs(&glyphs, level.width, level.height, 0, 0);
        Ok(())
    }

    /// Lays each layer of a layered glyph image on the map from its top-left
    /// corner, layer after layer: every cell that lies on the map, whatever
    /// the layer's size; a layer with fewer glyphs than cells is skipped.
    pub fn load_rex_map(&mut self, layers: &Vec<GlyphLayer>)
        requires
            old(self).map.wf(),
        ensures
            final(self).map.wf(),
            final(self).map.same_shape(&old(self).map),
            final(self).previous_builder == old(self).previous_builder,
            final(self).mode == old(self).mode,
            final(self).map.tiles@ == rex_stamped(
                old(self).map.tiles@,
                old(self).map.width as int,
                old(self).map.height as int,
                layers@,
                layers@.len() as int,
            ),
            spawn_view(final(self).spawns@) == spawn_view(old(self).spawns@) + rex_spawns(
                old(self).map.width as int,
                old(self).map.height as int,
                layers@,
                layers@.len() as int,
            ),
            final(self).starting_position == rex_start(
                old(self).map.width as int,
                old(self).map.height as int,
                layers@,
                layers@.len() as int,
                old(self).starting_position,
            ),
    {
        let ghost m0 = self.map;
        let ghost pb = self.previous_builder;
        let ghost md = self.mode;
        let ghost sv0 = spawn_view(self.spawns@);
        let ghost st0 = self.starting_position;
        let mut l: usize = 0;
        while l < layers.len()
            invariant
                self.map.wf(),
                self.map.same_shape(&m0),
                m0.wf(),
                self.previous_builder == pb,
                self.mode == md,
                l <= layers@.len(),
                self.map.tiles@ == rex_stamped(m0.tiles@, m0.width as int, m0.height as int, layers@, l as int),
                spawn_view(self.spawns@) == sv0 + rex_spawns(m0.width as int, m0.height as int, layers@, l as int),
                self.starting_position == rex_start(m0.width as int, m0.height as int, layers@, l as int, st0),
            decreases layers@.len() - l,
        {
            let layer = &layers[l];
            proof {
                let lw = layer.width as int;
                let lh = layer.height as int;
                assert(lw * lh <= 0xffff_ffff_ffff_ffff * 0xffff_ffff_ffff_ffff) by (nonlinear_arith)
                    requires
                        0 <= lw <= 0xffff_ffff_ffff_ffff,
                        0 <= lh <= 0xffff_ffff_ffff_ffff,
                ;
            }
            if (layer.width as u128) * (layer.height as u128) <= layer.glyphs.len() as u128 {
                let cw: usize = if layer.width < self.map.width as usize { layer.width } else { self.map.width as usize };
                let ch: usize = if layer.height < self.map.height as usize { layer.height } else { self.map.height as usize };
                let part = clip_layer(layer, cw, ch);
                proof {
                    assert(part@ =~= clipped(*layer, m0.width as int, m0.height as int));
                    lemma_block_size(cw as int, ch as int);
                }
                self.stamp_glyphs(&part, cw, ch, 0, 0);
                proof {
                    assert(spawn_view(self.spawns@) =~= sv0 + rex_spawns(m0.width as int, m0.height as int, layers@, l as int + 1));
                }
            }
            proof {
                assert(spawn_view(self.spawns@) =~= sv0 + rex_spawns(m0.width as int, m0.height as int, layers@, l as int + 1));
            }
            l = l + 1;
        }
    }

    /// Builds the level this builder wraps, takes over its map and start,
    /// and lays the section on it where its placement says.
    pub fn apply_sectional(&mut self, section: &PrefabSection, rng: &mut RandomNumberGenerator) -> (r: Result<(), PrefabError>)
        requires
            old(self).map.wf(),
        ensures
            final(self).map.wf(),
            final(self).mode == old(self).mode,
            final(self).previous_builder is None,
            old(self).previous_builder is None ==> r == Err::<(), PrefabError>(PrefabError::NoBaseLevel)
                && final(self).map == old(self).map && final(self).starting_position == old(self).starting_position,
            old(self).previous_builder is Some ==> {
                let g = template_glyphs(section.template@);
                &&& r == match template_error(g, section.width, section.height) {
                    Some(e) => Err::<(), PrefabError>(e),
                    None => Ok(()),
                }
                &&& tiles_over_base(*final(self), g, *section, template_error(g, section.width, section.height) is None)
                &&& start_over_base(*final(self), g, *section, template_error(g, section.width, section.height) is None)
            },
    {
        let prev = match self.previous_builder.take() {
            Some(prev) => prev,
            None => {
                return Err(PrefabError::NoBaseLevel);
            },
        };
        let (m, start) = (*prev).build_level(rng);
        self.base_tiles = revealed_copy(&m).tiles;
        self.base_start = start;
        self.map = m;
        self.starting_position = start;
        record_snapshot(&self.map, &mut self.history, self.visualize);
        let glyphs = read_ascii_to_vec(section.template);
        if section.width > 1024 || section.height > 1024 {
            return Err(PrefabError::TemplateTooLarge);
        }
        proof {
            lemma_block_size(section.width as int, section.height as int);
        }
        if glyphs.len() != section.width * section.height {
            return Err(PrefabError::TemplateSizeMismatch);
        }
        let sw = section.width as i32;
        let sh = section.height as i32;
        let chunk_x = match section.placement.0 {
            HorizontalPlacement::Left => 0,
            HorizontalPlacement::Center => (self.map.width / 2) - (sw / 2),
            HorizontalPlacement::Right => (self.map.width - 1) - sw,
        };
        let chunk_y = match section.placement.1 {
            VerticalPlacement::Top => 0,
            VerticalPlacement::Center => (self.map.height / 2) - (sh / 2),
            VerticalPlacement::Bottom => (self.map.height - 1) - sh,
        };
        self.stamp_glyphs(&glyphs, section.width, section.height, chunk_x, chunk_y);
        assert(tiles_over_base(*self, glyphs@, *section, true));
        assert(start_over_base(*self, glyphs@, *section, true));
        record_snapshot(&self.map, &mut self.history, self.visualize);
        Ok(())
    }

    /// Lays down the template the mode names on a fresh map; when nothing
    /// set the start (it is at column 0 or off the map), starts the player
    /// on the first floor tile at or left of (2, 2).
    pub fn build(&mut self, rng: &mut RandomNumberGenerator) -> (r: Result<(), PrefabError>)
        ensures
            final(self).map.wf(),
            final(self).mode == old(self).mode,
            match old(self).mode {
                PrefabMode::Constant { level } => {
                    let g = template_glyphs(level.template@);
                    match template_error(g, level.width, level.height) {
                        Some(e) => r == Err::<(), PrefabError>(e) && final(self).map.tiles@ == wall_tiles(),
                        None => (r is Ok || r == Err::<(), PrefabError>(PrefabError::NoStartTile))
                            && final(self).map.tiles@ == stamped(
                            wall_tiles(),
                            MAPWIDTH as int,
                            g,
                            level.width as int,
                            level.height as int,
                            0,
                            0,
                        ),
                    }
                },
                PrefabMode::RexLevel { layers } => (r is Ok || r == Err::<(), PrefabError>(PrefabError::NoStartTile))
                    && final(self).map.tiles@ == rex_stamped(wall_tiles(), MAPWIDTH as int, MAPHEIGHT as int, layers@, layers@.len() as int),
                PrefabMode::Sectional { section } => {
                    let g = template_glyphs(section.template@);
                    &&& old(self).previous_builder is None ==> r == Err::<(), PrefabError>(PrefabError::NoBaseLevel)
                        && final(self).map.tiles@ == wall_tiles()
                    &&& old(self).previous_builder is Some ==> {
                        &&& (r is Ok || r == Err::<(), PrefabError>(PrefabError::NoStartTile)) <==> template_error(
                            g,
                            section.width,
                            section.height,
                        ) is None
                        &&& template_error(g, section.width, section.height) is Some ==> r == Err::<(), PrefabError>(
                            template_error(g, section.width, section.height)->0,
                        )
                        &&& tiles_over_base(
                            *final(self),
                            g,
                            section,
                            template_error(g, section.width, section.height) is None,
                        )
                    }
                },
            },
            r is Ok ==> final(self).map.in_map(final(self).starting_position.x as int, final(self).starting_position.y as int),
            r == Err::<(), PrefabError>(PrefabError::NoStartTile) && final(self).map.width > 2 && final(self).map.height > 2
                ==> forall|k: int|
                0 <= k <= 2 ==> final(self).map.tiles@[final(self).map.idx(k, 2)] != TileType::Floor,
    {
        self.map = GridMap::new(self.depth);
        let mut mode = PrefabMode::RexLevel { layers: Vec::new() };
        std::mem::swap(&mut mode, &mut self.mode);
        let loaded = match &mode {
            PrefabMode::Constant { level } => self.load_ascii_map(level),
            PrefabMode::RexLevel { layers } => {
                self.load_rex_map(layers);
                Ok(())
            },
            PrefabMode::Sectional { section } => self.apply_sectional(section, rng),
        };
        std::mem::swap(&mut mode, &mut self.mode);
        record_snapshot(&self.map, &mut self.history, self.visualize);
        let ghost loaded_start = self.starting_position;
        let ghost loaded_tiles = self.map.tiles@;
        let mut r = loaded;
        if r.is_ok() && (self.starting_position.x == 0 || !self.map.xy_idx_ok(
            self.starting_position.x,
            self.starting_position.y,
        )) {
            if self.map.width > 2 && self.map.height > 2 {
                match walk_left_to_floor(&self.map, 2, 2) {
                    Some(c) => {
                        self.starting_position = Position { x: c, y: 2 };
                    },
                    None => {
                        r = Err(PrefabError::NoStartTile);
                    },
                }
            } else {
                r = Err(PrefabError::NoStartTile);
            }
        }
        record_snapshot(&self.map, &mut self.history, self.visualize);
        proof {
            assert(self.map.tiles@ == loaded_tiles);
        }
        r
    }
}

impl MapBuilder for PrefabBuilder {
    open spec fn finished(&self) -> bool {
        self.error is None ==> self.map.wf() && self.map.in_map(self.starting_position.x as int, self.starting_position.y as int)
    }

    open spec fn current_map(&self) -> GridMap {
        self.map
    }

    open spec fn snapshots(&self) -> Seq<GridMap> {
        self.history@
    }

    open spec fn visualizing(&self) -> bool {
        self.visualize
    }

    fn build_map(&mut self, rng: &mut RandomNumberGenerator) {
        let r = self.build(rng);
        self.error = match r {
            Ok(()) => None,
            Err(e) => Some(e),
        };
    }

    fn get_map(&self) -> GridMap {
        self.map.clone()
    }

    fn get_starting_position(&self) -> Position {
        self.starting_position
    }

    fn get_snapshot_history(&self) -> Vec<GridMap> {
        self.history.clone()
    }

    fn get_spawn_list(&self) -> Vec<(usize, String)> {
        self.spawns.clone()
    }

    fn take_snapshot(&mut self) {
        if self.map.is_well_formed() {
            record_snapshot(&self.map, &mut self.history, self.visualize);
        }
    }
}

} // verus!
