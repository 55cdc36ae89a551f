use vstd::prelude::*;

verus! {

/// The parts of a tile set that placing its tiles depends on.
#[derive(Clone, Copy, Debug)]
pub struct TilesetInfo {
    /// Global id of the first tile of the set.
    pub first_gid: u32,
    /// Number of tile entries the set lists (the tiles that carry data of
    /// their own, such as properties or animations), not the number of tiles
    /// in its image.
    pub tile_count: usize,
    pub tile_width: u32,
    pub tile_height: u32,
    pub spacing: u32,
    pub margin: u32,
    /// Width and height of the set's first image, if it has one.
    pub image_size: Option<(i32, i32)>,
}

/// A tile map: its size in tiles, the size of a tile in pixels, its layers
/// (each a grid of rows of global tile ids, 0 meaning "empty") and its tile sets.
pub struct TileMapData {
    pub width: u32,
    pub height: u32,
    pub tile_width: u32,
    pub tile_height: u32,
    pub layers: Vec<Vec<Vec<u32>>>,
    pub tilesets: Vec<TilesetInfo>,
}

/// Where the picture of a tile lies in a tile set: the set, the set's size
/// in tiles, and the tile's column and row in it.
#[derive(Clone, Copy, Debug, PartialEq, Eq, Structural)]
pub struct TileSource {
    pub tileset: usize,
    pub tiles_wide: u32,
    pub tiles_high: u32,
    pub column: u32,
    pub row: u32,
}

/// One drawn tile: the layer, row and column of its cell, the cell's global
/// tile id and where its picture comes from, if some tile set covers it.
#[derive(Clone, Copy, Debug, PartialEq, Eq, Structural)]
pub struct TileQuad {
    pub layer: usize,
    pub row: usize,
    pub column: usize,
    pub cell: u32,
    pub source: Option<TileSource>,
}

/// The drawable geometry of a tile map: one quad per non-empty cell.
pub struct TiledMap {
    pub data: Vec<TileQuad>,
}

/// The tile set is taken for `cell` when the id of its last tile, counted as
/// `first_gid + tile_count - 1`, is at most `cell`.
pub open spec fn covers(ts: TilesetInfo, cell: u32) -> bool {
    ts.first_gid + ts.tile_count - 1 <= cell
}

/// The first tile set, from position `t` on, that is taken for `cell`.
pub open spec fn first_cover(tilesets: Seq<TilesetInfo>, cell: u32, t: int) -> Option<int>
    decreases tilesets.len() - t,
{
    if t < 0 || t >= tilesets.len() {
        None
    } else if covers(tilesets[t], cell) {
        Some(t)
    } else {
        first_cover(tilesets, cell, t + 1)
    }
}

/// Width of the set's image in whole tiles (image width over tile width plus spacing).
pub open spec fn tiles_wide(ts: TilesetInfo) -> u32 {
    ((ts.image_size.unwrap().0 as u32) / ((ts.tile_width + ts.spacing) as u32)) as u32
}

/// Height of the set's image in whole tiles.
pub open spec fn tiles_high(ts: TilesetInfo) -> u32 {
    ((ts.image_size.unwrap().1 as u32) / ((ts.tile_height + ts.spacing) as u32)) as u32
}

/// Where tile `cell` lies in set `t`: tiles are numbered row by row from 1.
pub open spec fn source_in(ts: TilesetInfo, t: int, cell: u32) -> TileSource {
    TileSource {
        tileset: t as usize,
        tiles_wide: tiles_wide(ts),
        tiles_high: tiles_high(ts),
        column: ((cell - 1) as u32 % tiles_wide(ts)) as u32,
        row: ((cell - 1) as u32 / tiles_wide(ts)) as u32,
    }
}

/// Where the picture of tile `cell` comes from.
pub open spec fn tile_source(tilesets: Seq<TilesetInfo>, cell: u32) -> Option<TileSource> {
    match first_cover(tilesets, cell, 0) {
        Some(t) => Some(source_in(tilesets[t], t, cell)),
        None => None,
    }
}

/// Looking at set `ts` for `cell` goes through: the set has an image and its
/// last tile id is computable; and if the set is taken, its tile grid is
/// computable and at least one tile wide.
pub open spec fn tileset_usable(ts: TilesetInfo, cell: u32) -> bool {
    &&& ts.image_size is Some
    &&& ts.first_gid + ts.tile_count >= 1
    &&& ts.first_gid + ts.tile_count <= usize::MAX
    &&& covers(ts, cell) ==> {
        &&& 0 < ts.tile_width + ts.spacing <= u32::MAX
        &&& 0 < ts.tile_height + ts.spacing <= u32::MAX
        &&& tiles_wide(ts) > 0
    }
}

/// Every set looked at for `cell` (those up to the first one taken) is usable.
pub open spec fn cell_resolvable(tilesets: Seq<TilesetInfo>, cell: u32) -> bool {
    forall|t: int|
        0 <= t < tilesets.len() && (forall|u: int| 0 <= u < t ==> !covers(#[trigger] tilesets[u], cell))
            ==> tileset_usable(#[trigger] tilesets[t], cell)
}

/// The quad of a non-empty cell.
pub open spec fn quad_of(map: TileMapData, l: int, r: int, c: int) -> TileQuad {
    let cell = map.layers@[l]@[r]@[c];
    TileQuad {
        layer: l as usize,
        row: r as usize,
        column: c as usize,
        cell,
        source: tile_source(map.tilesets@, cell),
    }
}

/// Quads of the first `n` cells of row `r` of layer `l`.
pub open spec fn row_quads(map: TileMapData, l: int, r: int, n: int) -> Seq<TileQuad>
    decreases n,
{
    if n <= 0 {
        Seq::empty()
    } else if map.layers@[l]@[r]@[n - 1] != 0 {
        row_quads(map, l, r, n - 1).push(quad_of(map, l, r, n - 1))
    } else {
        row_quads(map, l, r, n - 1)
    }
}

/// Quads of the first `n` rows of layer `l`.
pub open spec fn layer_quads(map: TileMapData, l: int, n: int) -> Seq<TileQuad>
    decreases n,
{
    if n <= 0 {
        Seq::empty()
    } else {
        layer_quads(map, l, n - 1) + row_quads(map, l, n - 1, map.layers@[l]@[n - 1]@.len() as int)
    }
}

/// Quads of the first `n` layers, layer by layer, row by row, column by column.
pub open spec fn map_quads(map: TileMapData, n: int) -> Seq<TileQuad>
    decreases n,
{
    if n <= 0 {
        Seq::empty()
    } else {
        map_quads(map, n - 1) + layer_quads(map, n - 1, map.layers@[n - 1]@.len() as int)
    }
}

/// All quads of the map.
pub open spec fn tile_quads(map: TileMapData) -> Seq<TileQuad> {
    map_quads(map, map.layers@.len() as int)
}

/// The map has a non-empty cell.
pub open spec fn has_tile(map: TileMapData) -> bool {
    exists|l: int, r: int, c: int|
        0 <= l < map.layers@.len() && 0 <= r < map.layers@[l]@.len() && 0 <= c
            < map.layers@[l]@[r]@.len() && #[trigger] map.layers@[l]@[r]@[c] != 0
}

/// Building the geometry goes through: the map's height in pixels fits in
/// 32 bits when some tile is drawn, and every drawn tile can be resolved.
pub open spec fn map_buildable(map: TileMapData) -> bool {
    &&& has_tile(map) ==> map.tile_height * map.height <= u32::MAX
    &&& forall|l: int, r: int, c: int|
        0 <= l < map.layers@.len() && 0 <= r < map.layers@[l]@.len() && 0 <= c
            < map.layers@[l]@[r]@.len() && #[trigger] map.layers@[l]@[r]@[c] != 0
            ==> cell_resolvable(map.tilesets@, map.layers@[l]@[r]@[c])
}

/// `q` is the quad of a non-empty cell of the map.
pub open spec fn drawn_cell(map: TileMapData, q: TileQuad) -> bool {
    &&& q.layer < map.layers@.len()
    &&& q.row < map.layers@[q.layer as int]@.len()
    &&& q.column < map.layers@[q.layer as int]@[q.row as int]@.len()
    &&& map.layers@[q.layer as int]@[q.row as int]@[q.column as int] != 0
    &&& q == quad_of(map, q.layer as int, q.row as int, q.column as int)
}

proof fn lemma_row_quads_drawn(map: TileMapData, l: int, r: int, n: int)
    requires
        0 <= l < map.layers@.len(),
        0 <= r < map.layers@[l]@.len(),
        n <= map.layers@[l]@[r]@.len(),
    ensures
        forall|i: int| 0 <= i < row_quads(map, l, r, n).len() ==> drawn_cell(map, #[trigger] row_quads(map, l, r, n)[i]),
    decreases n,
{
    if n > 0 {
        lemma_row_quads_drawn(map, l, r, n - 1);
        if map.layers@[l]@[r]@[n - 1] != 0 {
            let q = quad_of(map, l, r, n - 1);
            assert(l < map.layers.len() && r < map.layers@[l].len() && n - 1 < map.layers@[l]@[r].len());
            assert(q.layer as int == l && q.row as int == r && q.column as int == n - 1);
            let a = row_quads(map, l, r, n - 1);
            assert forall|i: int| 0 <= i < a.push(q).len() implies drawn_cell(map, #[trigger] a.push(q)[i]) by {
                if i < a.len() {
                    assert(a.push(q)[i] == a[i]);
                } else {
                    assert(a.push(q)[i] == q);
                    assert(drawn_cell(map, q));
                }
            }
            assert(row_quads(map, l, r, n) == a.push(q));
        } else {
            assert(row_quads(map, l, r, n) == row_quads(map, l, r, n - 1));
        }
    }
}

proof fn lemma_layer_quads_drawn(map: TileMapData, l: int, n: int)
    requires
        0 <= l < map.layers@.len(),
        n <= map.layers@[l]@.len(),
    ensures
        forall|i: int| 0 <= i < layer_quads(map, l, n).len() ==> drawn_cell(map, #[trigger] layer_quads(map, l, n)[i]),
    decreases n,
{
    if n > 0 {
        lemma_layer_quads_drawn(map, l, n - 1);
        lemma_row_quads_drawn(map, l, n - 1, map.layers@[l]@[n - 1]@.len() as int);
        let a = layer_quads(map, l, n - 1);
        let b = row_quads(map, l, n - 1, map.layers@[l]@[n - 1]@.len() as int);
        assert forall|i: int| 0 <= i < (a + b).len() implies drawn_cell(map, #[trigger] (a + b)[i]) by {
            if i < a.len() {
                assert((a + b)[i] == a[i]);
            } else {
                assert((a + b)[i] == b[i - a.len()]);
            }
        }
    }
}

proof fn lemma_map_quads_drawn(map: TileMapData, n: int)
    requires
        n <= map.layers@.len(),
    ensures
        forall|i: int| 0 <= i < map_quads(map, n).len() ==> drawn_cell(map, #[trigger] map_quads(map, n)[i]),
    decreases n,
{
    if n > 0 {
        lemma_map_quads_drawn(map, n - 1);
        lemma_layer_quads_drawn(map, n - 1, map.layers@[n - 1]@.len() as int);
        let a = map_quads(map, n - 1);
        let b = layer_quads(map, n - 1, map.layers@[n - 1]@.len() as int);
        assert forall|i: int| 0 <= i < (a + b).len() implies drawn_cell(map, #[trigger] (a + b)[i]) by {
            if i < a.len() {
                assert((a + b)[i] == a[i]);
            } else {
                assert((a + b)[i] == b[i - a.len()]);
            }
        }
    }
}

/// Every quad of the map's geometry stands for a non-empty cell of the map,
/// at that cell's layer, row and column, with that cell's id and picture.
pub proof fn lemma_quads_are_tiles(map: TileMapData)
    ensures
        forall|i: int| 0 <= i < tile_quads(map).len() ==> drawn_cell(map, #[trigger] tile_quads(map)[i]),
{
    lemma_map_quads_drawn(map, map.layers@.len() as int);
}

proof fn lemma_first_cover(tilesets: Seq<TilesetInfo>, cell: u32, t: int)
    requires
        0 <= t,
    ensures
        match first_cover(tilesets, cell, t) {
            Some(k) => t <= k < tilesets.len() && covers(tilesets[k], cell)
                && forall|u: int| t <= u < k ==> !covers(#[trigger] tilesets[u], cell),
            None => forall|u: int| t <= u < tilesets.len() ==> !covers(#[trigger] tilesets[u], cell),
        },
    decreases tilesets.len() - t,
{
    if t < tilesets.len() && !covers(tilesets[t], cell) {
        lemma_first_cover(tilesets, cell, t + 1);
    }
}

/// Where a tile's picture lies, stated on the tile sets themselves: the set
/// is the first one whose last tile id (`first_gid + tile_count - 1`) is at
/// most the cell's id; its grid is the image width over tile width plus
/// spacing by the image height over tile height plus spacing; and tile
/// `cell` sits at column `(cell - 1) % tiles_wide`, row `(cell - 1) / tiles_wide`.
/// A cell that no set is taken for has no picture.
pub open spec fn source_fits(tilesets: Seq<TilesetInfo>, cell: u32, source: Option<TileSource>) -> bool {
    match source {
        Some(s) => {
            let ts = tilesets[s.tileset as int];
            &&& s.tileset < tilesets.len()
            &&& ts.first_gid + ts.tile_count - 1 <= cell
            &&& forall|u: int| #![trigger tilesets[u]] 0 <= u < s.tileset ==> !(tilesets[u].first_gid + tilesets[u].tile_count - 1 <= cell)
            &&& s.tiles_wide == ((ts.image_size.unwrap().0 as u32) / ((ts.tile_width + ts.spacing) as u32)) as u32
            &&& s.tiles_high == ((ts.image_size.unwrap().1 as u32) / ((ts.tile_height + ts.spacing) as u32)) as u32
            &&& s.column == (((cell - 1) as u32) % s.tiles_wide) as u32
            &&& s.row == (((cell - 1) as u32) / s.tiles_wide) as u32
        },
        None => forall|u: int| #![trigger tilesets[u]] 0 <= u < tilesets.len() ==> !(tilesets[u].first_gid + tilesets[u].tile_count - 1 <= cell),
    }
}

/// The picture of every tile is found as `source_fits` says.
pub proof fn lemma_tile_source_fits(tilesets: Seq<TilesetInfo>, cell: u32)
    requires
        tilesets.len() <= usize::MAX,
    ensures
        source_fits(tilesets, cell, tile_source(tilesets, cell)),
{
    lemma_first_cover(tilesets, cell, 0);
    match first_cover(tilesets, cell, 0) {
        Some(k) => {
            let s = source_in(tilesets[k], k, cell);
            assert(s.tileset as int == k);
            assert(tilesets[s.tileset as int] == tilesets[k]);
            assert forall|u: int| #![trigger tilesets[u]] 0 <= u < k implies !(tilesets[u].first_gid + tilesets[u].tile_count - 1 <= cell) by {
                assert(!covers(tilesets[u], cell));
            }
        },
        None => {
            assert forall|u: int| #![trigger tilesets[u]] 0 <= u < tilesets.len() implies !(tilesets[u].first_gid + tilesets[u].tile_count - 1 <= cell) by {
                assert(!covers(tilesets[u], cell));
            }
        },
    }
}

/// Every quad of a map's geometry takes its picture as `source_fits` says,
/// from the map's tile sets and the quad's cell id.
pub proof fn lemma_quad_sources(map: TileMapData)
    requires
        map.tilesets@.len() <= usize::MAX,
    ensures
        forall|i: int| 0 <= i < tile_quads(map).len()
            ==> source_fits(map.tilesets@, (#[trigger] tile_quads(map)[i]).cell, tile_quads(map)[i].source),
{
    lemma_quads_are_tiles(map);
    assert forall|i: int| 0 <= i < tile_quads(map).len()
        implies source_fits(map.tilesets@, (#[trigger] tile_quads(map)[i]).cell, tile_quads(map)[i].source) by {
        let q = tile_quads(map)[i];
        assert(drawn_cell(map, q));
        lemma_tile_source_fits(map.tilesets@, q.cell);
    }
}

fn tileset_usable_exec(ts: &TilesetInfo, cell: u32) -> (r: bool)
    ensures
        r == tileset_usable(*ts, cell),
{
    let (image_width, image_height) = match ts.image_size {
        Some(size) => size,
        None => {
            return false;
        },
    };
    let last = match (ts.first_gid as usize).checked_add(ts.tile_count) {
        Some(v) => v,
        None => {
            return false;
        },
    };
    if last < 1 {
        return false;
    }
    if last - 1 > cell as usize {
        return true;
    }
    let wide = match ts.tile_width.checked_add(ts.spacing) {
        Some(v) => v,
        None => {
            return false;
        },
    };
    let high = match ts.tile_height.checked_add(ts.spacing) {
        Some(v) => v,
        None => {
            return false;
        },
    };
    if wide == 0 || high == 0 {
        return false;
    }
    (image_width as u32) / wide > 0
}

fn cell_resolvable_exec(tilesets: &Vec<TilesetInfo>, cell: u32) -> (r: bool)
    ensures
        r == cell_resolvable(tilesets@, cell),
{
    let n = tilesets.len();
    for t in 0..n
        invariant
            n == tilesets@.len(),
            forall|u: int| 0 <= u < t ==> !covers(#[trigger] tilesets@[u], cell) && tileset_usable(tilesets@[u], cell),
    {
        if !tileset_usable_exec(&tilesets[t], cell) {
            assert(!tileset_usable(tilesets@[t as int], cell));
            return false;
        }
        if (tilesets[t].first_gid as usize) + tilesets[t].tile_count - 1 <= cell as usize {
            assert forall|w: int|
                0 <= w < tilesets@.len() && (forall|u: int| 0 <= u < w ==> !covers(#[trigger] tilesets@[u], cell))
                    implies tileset_usable(#[trigger] tilesets@[w], cell) by {
                if w > t {
                    assert(!covers(tilesets@[t as int], cell));
                }
            }
            return true;
        }
    }
    true
}

/// A cell of the map, by layer, row and column.
pub open spec fn is_cell(map: TileMapData, l: int, r: int, c: int) -> bool {
    0 <= l < map.layers@.len() && 0 <= r < map.layers@[l]@.len() && 0 <= c < map.layers@[l]@[r]@.len()
}

/// The cell lies before position (l, r, c) in layer-row-column order.
pub open spec fn cell_before(l2: int, r2: int, c2: int, l: int, r: int, c: int) -> bool {
    l2 < l || (l2 == l && (r2 < r || (r2 == r && c2 < c)))
}

impl TileMapData {
    /// Whether the geometry of the map can be built.
    pub fn is_buildable(&self) -> (ok: bool)
        ensures
            ok == map_buildable(*self),
    {
        let mut any = false;
        let nl = self.layers.len();
        for l in 0..nl
            invariant
                nl == self.layers@.len(),
                any == exists|l2: int, r2: int, c2: int|
                    is_cell(*self, l2, r2, c2) && cell_before(l2, r2, c2, l as int, 0, 0)
                        && #[trigger] self.layers@[l2]@[r2]@[c2] != 0,
                forall|l2: int, r2: int, c2: int|
                    is_cell(*self, l2, r2, c2) && cell_before(l2, r2, c2, l as int, 0, 0)
                        && #[trigger] self.layers@[l2]@[r2]@[c2] != 0 ==> cell_resolvable(
                        self.tilesets@,
                        self.layers@[l2]@[r2]@[c2],
                    ),
        {
            let layer = &self.layers[l];
            let nr = layer.len();
            for r in 0..nr
                invariant
                    nl == self.layers@.len(),
                    l < nl,
                    *layer == self.layers@[l as int],
                    nr == layer@.len(),
                    any == exists|l2: int, r2: int, c2: int|
                        is_cell(*self, l2, r2, c2) && cell_before(l2, r2, c2, l as int, r as int, 0)
                            && #[trigger] self.layers@[l2]@[r2]@[c2] != 0,
                    forall|l2: int, r2: int, c2: int|
                        is_cell(*self, l2, r2, c2) && cell_before(l2, r2, c2, l as int, r as int, 0)
                            && #[trigger] self.layers@[l2]@[r2]@[c2] != 0 ==> cell_resolvable(
                            self.tilesets@,
                            self.layers@[l2]@[r2]@[c2],
                        ),
            {
                let row = &layer[r];
                let nc = row.len();
                for c in 0..nc
                    invariant
                        nl == self.layers@.len(),
                        l < nl,
                        *layer == self.layers@[l as int],
                        nr == layer@.len(),
                        r < nr,
                        *row == layer@[r as int],
                        nc == row@.len(),
                        any == exists|l2: int, r2: int, c2: int|
                            is_cell(*self, l2, r2, c2) && cell_before(l2, r2, c2, l as int, r as int, c as int)
                                && #[trigger] self.layers@[l2]@[r2]@[c2] != 0,
                        forall|l2: int, r2: int, c2: int|
                            is_cell(*self, l2, r2, c2) && cell_before(l2, r2, c2, l as int, r as int, c as int)
                                && #[trigger] self.layers@[l2]@[r2]@[c2] != 0 ==> cell_resolvable(
                                self.tilesets@,
                                self.layers@[l2]@[r2]@[c2],
                            ),
                {
                    let cell = row[c];
                    if cell != 0 {
                        assert(is_cell(*self, l as int, r as int, c as int));
                        assert(self.layers@[l as int]@[r as int]@[c as int] != 0);
                        if !cell_resolvable_exec(&self.tilesets, cell) {
                            return false;
                        }
                        any = true;
                    }
                }
                proof {
                    assert forall|l2: int, r2: int, c2: int|
                        is_cell(*self, l2, r2, c2) && cell_before(l2, r2, c2, l as int, r + 1, 0)
                            implies cell_before(l2, r2, c2, l as int, r as int, nc as int) by {
                        if l2 == l && r2 == r {
                            assert(c2 < self.layers@[l2]@[r2]@.len());
                        }
                    }
                }
            }
            proof {
                assert forall|l2: int, r2: int, c2: int|
                    is_cell(*self, l2, r2, c2) && cell_before(l2, r2, c2, l + 1, 0, 0)
                        implies cell_before(l2, r2, c2, l as int, nr as int, 0) by {
                    if l2 == l {
                        assert(r2 < self.layers@[l2]@.len());
                    }
                }
            }
        }
        assert(any == has_tile(*self)) by {
            if has_tile(*self) {
                let (l2, r2, c2) = choose|l2: int, r2: int, c2: int|
                    0 <= l2 < self.layers@.len() && 0 <= r2 < self.layers@[l2]@.len() && 0 <= c2
                        < self.layers@[l2]@[r2]@.len() && #[trigger] self.layers@[l2]@[r2]@[c2] != 0;
                assert(is_cell(*self, l2, r2, c2) && cell_before(l2, r2, c2, nl as int, 0, 0));
            }
        }
        if any {
            assert((self.tile_height as u64) * (self.height as u64) <= 0xffff_ffff_ffff_ffff) by (nonlinear_arith)
                requires
                    self.tile_height <= 0xffff_ffff,
                    self.height <= 0xffff_ffff,
            ;
            (self.tile_height as u64) * (self.height as u64) <= u32::MAX as u64
        } else {
            true
        }
    }
}

/// Number of non-empty cells among the first `n` cells of a row.
pub open spec fn row_tiles(row: Seq<u32>, n: int) -> nat
    decreases n,
{
    if n <= 0 {
        0
    } else {
        row_tiles(row, n - 1) + if row[n - 1] != 0 { 1nat } else { 0nat }
    }
}

/// Number of non-empty cells in the first `n` rows of a layer.
pub open spec fn layer_tiles(layer: Seq<Vec<u32>>, n: int) -> nat
    decreases n,
{
    if n <= 0 {
        0
    } else {
        layer_tiles(layer, n - 1) + row_tiles(layer[n - 1]@, layer[n - 1]@.len() as int)
    }
}

/// `m2` is `m` with one more layer on top, using the same tile sets.
pub open spec fn adds_layer(m: TileMapData, m2: TileMapData) -> bool {
    &&& m2.layers@.len() == m.layers@.len() + 1
    &&& forall|l: int| 0 <= l < m.layers@.len() ==> #[trigger] m2.layers@[l] == m.layers@[l]
    &&& m2.tilesets@ == m.tilesets@
}

proof fn lemma_row_quads_same(m: TileMapData, m2: TileMapData, l: int, r: int, n: int)
    requires
        adds_layer(m, m2),
        0 <= l < m.layers@.len(),
    ensures
        row_quads(m2, l, r, n) == row_quads(m, l, r, n),
    decreases n,
{
    assert(m2.layers@[l] == m.layers@[l]);
    if n > 0 {
        lemma_row_quads_same(m, m2, l, r, n - 1);
        assert(quad_of(m2, l, r, n - 1) == quad_of(m, l, r, n - 1));
    }
}

proof fn lemma_layer_quads_same(m: TileMapData, m2: TileMapData, l: int, n: int)
    requires
        adds_layer(m, m2),
        0 <= l < m.layers@.len(),
    ensures
        layer_quads(m2, l, n) == layer_quads(m, l, n),
    decreases n,
{
    assert(m2.layers@[l] == m.layers@[l]);
    if n > 0 {
        lemma_layer_quads_same(m, m2, l, n - 1);
        lemma_row_quads_same(m, m2, l, n - 1, m.layers@[l]@[n - 1]@.len() as int);
    }
}

proof fn lemma_map_quads_same(m: TileMapData, m2: TileMapData, n: int)
    requires
        adds_layer(m, m2),
        n <= m.layers@.len(),
    ensures
        map_quads(m2, n) == map_quads(m, n),
    decreases n,
{
    if n > 0 {
        lemma_map_quads_same(m, m2, n - 1);
        assert(m2.layers@[n - 1] == m.layers@[n - 1]);
        lemma_layer_quads_same(m, m2, n - 1, m.layers@[n - 1]@.len() as int);
    }
}

proof fn lemma_row_quads_count(map: TileMapData, l: int, r: int, n: int)
    requires
        0 <= l < map.layers@.len(),
        0 <= r < map.layers@[l]@.len(),
        n <= map.layers@[l]@[r]@.len(),
    ensures
        row_quads(map, l, r, n).len() == row_tiles(map.layers@[l]@[r]@, n),
        forall|i: int| 0 <= i < row_quads(map, l, r, n).len() ==> (#[trigger] row_quads(map, l, r, n)[i]).layer == l,
    decreases n,
{
    if n > 0 {
        lemma_row_quads_count(map, l, r, n - 1);
        assert(l < map.layers.len());
        let a = row_quads(map, l, r, n - 1);
        if map.layers@[l]@[r]@[n - 1] != 0 {
            let q = quad_of(map, l, r, n - 1);
            assert(q.layer == l);
            assert forall|i: int| 0 <= i < a.push(q).len() implies (#[trigger] a.push(q)[i]).layer == l by {
                if i < a.len() {
                    assert(a.push(q)[i] == a[i]);
                }
            }
        }
    }
}

proof fn lemma_layer_quads_count(map: TileMapData, l: int, n: int)
    requires
        0 <= l < map.layers@.len(),
        n <= map.layers@[l]@.len(),
    ensures
        layer_quads(map, l, n).len() == layer_tiles(map.layers@[l]@, n),
        forall|i: int| 0 <= i < layer_quads(map, l, n).len() ==> (#[trigger] layer_quads(map, l, n)[i]).layer == l,
    decreases n,
{
    if n > 0 {
        lemma_layer_quads_count(map, l, n - 1);
        lemma_row_quads_count(map, l, n - 1, map.layers@[l]@[n - 1]@.len() as int);
        let a = layer_quads(map, l, n - 1);
        let b = row_quads(map, l, n - 1, map.layers@[l]@[n - 1]@.len() as int);
        assert forall|i: int| 0 <= i < (a + b).len() implies (#[trigger] (a + b)[i]).layer == l by {
            if i < a.len() {
                assert((a + b)[i] == a[i]);
            } else {
                assert((a + b)[i] == b[i - a.len()]);
            }
        }
    }
}

/// Putting one more layer on top of a map keeps the map's quads and adds
/// after them one quad per non-empty cell of the new layer, each on that layer.
pub proof fn lemma_add_layer(m: TileMapData, m2: TileMapData)
    requires
        adds_layer(m, m2),
    ensures
        ({
            let n = m.layers@.len() as int;
            let d = layer_quads(m2, n, m2.layers@[n]@.len() as int);
            &&& tile_quads(m2) == tile_quads(m) + d
            &&& d.len() == layer_tiles(m2.layers@[n]@, m2.layers@[n]@.len() as int)
            &&& forall|i: int| 0 <= i < d.len() ==> (#[trigger] d[i]).layer == n
        }),
{
    let n = m.layers@.len() as int;
    lemma_map_quads_same(m, m2, n);
    lemma_layer_quads_count(m2, n, m2.layers@[n]@.len() as int);
}

fn resolve_tile(tilesets: &Vec<TilesetInfo>, cell: u32) -> (r: Option<TileSource>)
    requires
        cell != 0,
        cell_resolvable(tilesets@, cell),
    ensures
        r == tile_source(tilesets@, cell),
        source_fits(tilesets@, cell, r),
{
    let n = tilesets.len();
    proof {
        lemma_tile_source_fits(tilesets@, cell);
    }
    for t in 0..n
        invariant
            n == tilesets@.len(),
            cell != 0,
            cell_resolvable(tilesets@, cell),
            forall|u: int| 0 <= u < t ==> !covers(#[trigger] tilesets@[u], cell),
            first_cover(tilesets@, cell, 0) == first_cover(tilesets@, cell, t as int),
    {
        let ts = tilesets[t];
        assert(tileset_usable(tilesets@[t as int], cell));
        let (image_width, image_height) = match ts.image_size {
            Some(size) => size,
            None => (0, 0),
        };
        if ts.first_gid as usize + ts.tile_count - 1 <= cell as usize {
            let tiles_wide = (image_width as u32) / (ts.tile_width + ts.spacing);
            let tiles_high = (image_height as u32) / (ts.tile_height + ts.spacing);
            return Some(
                TileSource {
                    tileset: t,
                    tiles_wide,
                    tiles_high,
                    column: (cell - 1) % tiles_wide,
                    row: (cell - 1) / tiles_wide,
                },
            );
        }
    }
    None
}

impl TiledMap {
    /// Lays out the map: one quad for every non-empty cell, layer by layer,
    /// row by row and column by column, each with the place of its picture in
    /// the first tile set taken for its id.
    pub fn new(tilemap: &TileMapData) -> (m: TiledMap)
        requires
            map_buildable(*tilemap),
        ensures
            m.data@ == tile_quads(*tilemap),
            forall|i: int| 0 <= i < m.data@.len()
                ==> source_fits(tilemap.tilesets@, (#[trigger] m.data@[i]).cell, m.data@[i].source),
    {
        let _ = tilemap.tilesets.len();
        proof {
            lemma_quad_sources(*tilemap);
        }
        let mut data: Vec<TileQuad> = Vec::new();
        let nl = tilemap.layers.len();
        for l in 0..nl
            invariant
                nl == tilemap.layers@.len(),
                map_buildable(*tilemap),
                data@ == map_quads(*tilemap, l as int),
        {
            let layer = &tilemap.layers[l];
            let nr = layer.len();
            for r in 0..nr
                invariant
                    nl == tilemap.layers@.len(),
                    l < nl,
                    *layer == tilemap.layers@[l as int],
                    nr == layer@.len(),
                    map_buildable(*tilemap),
                    data@ == map_quads(*tilemap, l as int) + layer_quads(*tilemap, l as int, r as int),
            {
                let row = &layer[r];
                let nc = row.len();
                for c in 0..nc
                    invariant
                        nl == tilemap.layers@.len(),
                        l < nl,
                        *layer == tilemap.layers@[l as int],
                        nr == layer@.len(),
                        r < nr,
                        *row == layer@[r as int],
                        nc == row@.len(),
                        map_buildable(*tilemap),
                        data@ == map_quads(*tilemap, l as int) + layer_quads(*tilemap, l as int, r as int)
                            + row_quads(*tilemap, l as int, r as int, c as int),
                {
                    let cell = row[c];
                    if cell != 0 {
                        assert(tilemap.layers@[l as int]@[r as int]@[c as int] != 0);
                        let source = resolve_tile(&tilemap.tilesets, cell);
                        data.push(TileQuad { layer: l, row: r, column: c, cell, source });
                    }
                }
            }
        }
        TiledMap { data }
    }
}

} // verus!
