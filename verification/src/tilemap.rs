//! The tile data model and the mesh batcher.
//!
//! A tile map is an ordered list of dense layers over a shared tile
//! grid. For drawing, all cells of one tileset are batched into one
//! mesh: one quad of four vertices and six indices per occupied cell,
//! in world pixel units, with the texture layer chosen through the
//! animation mapping. The batched drawable is rebuilt lazily, driven by
//! an up-to-date flag that every mutating accessor clears.

use vstd::prelude::*;

use crate::anim::AnimFrame;
use crate::texture::Texture;

verus! {

/// A reference to one tile: which tileset, and the tile id within it.
#[derive(Clone, Copy, Debug, PartialEq, Eq, Structural, Hash)]
pub struct TileRef {
    pub set: usize,
    pub id: u32,
}

/// A rectangular collision shape authored on a tile, in tile-local
/// pixel coordinates.
#[derive(Clone, Copy, Debug, PartialEq, Eq, Structural, Hash)]
pub struct CollRect {
    pub x: i64,
    pub y: i64,
    pub w: i64,
    pub h: i64,
}

/// A tileset: its atlas texture, per-tile pixel dimensions and tile
/// count, plus the authored per-tile animations and collision shapes.
#[derive(Clone, Debug)]
pub struct TileSetInfo {
    pub texture: Texture,
    pub tile_width: u32,
    pub tile_height: u32,
    pub tile_count: u32,
    pub animations: Vec<(u32, Vec<AnimFrame>)>,
    pub collisions: Vec<(u32, Vec<CollRect>)>,
}

/// One dense, row-major tile layer; empty cells hold nothing.
#[derive(Clone, Debug)]
pub struct TileMapLayer {
    pub tiles: Vec<Option<TileRef>>,
}

impl TileMapLayer {
    pub fn new(tiles: Vec<Option<TileRef>>) -> (r: TileMapLayer)
        ensures
            r.tiles@ == tiles@,
    {
        TileMapLayer { tiles }
    }
}

/// Where a single static tile stands and which atlas sprite it shows.
#[derive(Clone, Copy, Debug, PartialEq, Eq)]
pub struct TileDesc {
    pub tile_position: [u32; 2],
    pub sprite_idx: u32,
}

/// Where a single animated tile stands: its first frame's sprite and
/// the atlas stride between consecutive frames.
#[derive(Clone, Copy, Debug, PartialEq, Eq)]
pub struct AnimatedTileDesc {
    pub tile_position: [u32; 2],
    pub first_sprite_idx: u32,
    pub frame_stride: u32,
}

/// One occupied cell of the map: grid position, layer, and tile id.
#[derive(Clone, Copy, Debug, PartialEq, Eq, Structural)]
pub struct Cell {
    pub x: u32,
    pub y: u32,
    pub layer: u32,
    pub tile_id: u32,
}

/// The cells of one layer prefix that reference a tileset, in cell
/// order.
pub open spec fn cells_in_layer(
    tiles: Seq<Option<TileRef>>,
    w: int,
    set: int,
    layer: int,
) -> Seq<Cell>
    decreases tiles.len(),
{
    if tiles.len() == 0 {
        Seq::empty()
    } else {
        let i = tiles.len() - 1;
        cells_in_layer(tiles.drop_last(), w, set, layer) + (match tiles.last() {
            Some(t) => if t.set == set {
                seq![
                    Cell {
                        x: (i % w) as u32,
                        y: (i / w) as u32,
                        layer: layer as u32,
                        tile_id: t.id,
                    },
                ]
            } else {
                Seq::empty()
            },
            None => Seq::empty(),
        })
    }
}

/// The cells of a layer-list prefix that reference a tileset, layer by
/// layer in order.
pub open spec fn cells_of(layers: Seq<TileMapLayer>, w: int, set: int) -> Seq<Cell>
    decreases layers.len(),
{
    if layers.len() == 0 {
        Seq::empty()
    } else {
        cells_of(layers.drop_last(), w, set) + cells_in_layer(
            layers.last().tiles@,
            w,
            set,
            layers.len() - 1,
        )
    }
}

/// Collects the cells of every layer that reference one tileset, in
/// layer-major, row-major order.
pub fn collect_cells(layers: &Vec<TileMapLayer>, map_w: u32, set: usize) -> (r: Vec<Cell>)
    requires
        map_w > 0,
        layers@.len() <= 0xFFFF_FFFF,
    ensures
        r@ == cells_of(layers@, map_w as int, set as int),
{
    let mut r: Vec<Cell> = Vec::new();
    let mut l: usize = 0;
    while l < layers.len()
        invariant
            0 <= l <= layers@.len(),
            map_w > 0,
            layers@.len() <= 0xFFFF_FFFF,
            r@ == cells_of(layers@.take(l as int), map_w as int, set as int),
        decreases layers@.len() - l,
    {
        let tiles = &layers[l].tiles;
        let mut i: usize = 0;
        while i < tiles.len()
            invariant
                0 <= i <= tiles@.len(),
                map_w > 0,
                l < layers@.len() <= 0xFFFF_FFFF,
                tiles@ == layers@[l as int].tiles@,
                r@ == cells_of(layers@.take(l as int), map_w as int, set as int)
                    + cells_in_layer(tiles@.take(i as int), map_w as int, set as int, l as int),
            decreases tiles@.len() - i,
        {
            match tiles[i] {
                Some(t) => {
                    if t.set == set {
                        let x = (i as u64 % map_w as u64) as u32;
                        let y = (i as u64 / map_w as u64) as u32;
                        proof {
                            vstd::arithmetic::div_mod::lemma_mod_bound(i as int, map_w as int);
                        }
                        r.push(Cell { x, y, layer: l as u32, tile_id: t.id });
                    }
                },
                None => {},
            }
            proof {
                assert(tiles@.take(i + 1).drop_last() =~= tiles@.take(i as int));
                assert(tiles@.take(i + 1).last() == tiles@[i as int]);
                assert(r@ =~= cells_of(layers@.take(l as int), map_w as int, set as int)
                    + cells_in_layer(tiles@.take(i + 1), map_w as int, set as int, l as int));
            }
            i += 1;
        }
        proof {
            assert(tiles@.take(tiles@.len() as int) =~= tiles@);
            assert(layers@.take(l + 1).drop_last() =~= layers@.take(l as int));
            assert(layers@.take(l + 1).last() == layers@[l as int]);
            assert(r@ =~= cells_of(layers@.take(l + 1), map_w as int, set as int));
        }
        l += 1;
    }
    proof {
        assert(layers@.take(layers@.len() as int) =~= layers@);
    }
    r
}

/// One batched mesh vertex: world pixel position, depth layer, quad
/// corner, and the texture array layer the cell samples.
#[derive(Clone, Copy, Debug, PartialEq, Eq, Structural)]
pub struct TileVertex {
    pub x: i64,
    pub y: i64,
    pub layer: u32,
    pub u: u32,
    pub v: u32,
    pub uv_z: u32,
}

/// The texture array layer a tile id samples: its mapped current
/// animation frame, or the id itself when it is not animated.
pub open spec fn spec_resolve_uv_z(mapping: Seq<(u32, u32)>, id: u32) -> u32
    decreases mapping.len(),
{
    if mapping.len() == 0 {
        id
    } else if mapping[0].0 == id {
        mapping[0].1
    } else {
        spec_resolve_uv_z(mapping.drop_first(), id)
    }
}

/// Resolves a tile id through the animation mapping.
pub fn resolve_uv_z(mapping: &Vec<(u32, u32)>, id: u32) -> (r: u32)
    ensures
        r == spec_resolve_uv_z(mapping@, id),
{
    proof {
        assert(mapping@.skip(0) =~= mapping@);
    }
    let mut i: usize = 0;
    while i < mapping.len()
        invariant
            0 <= i <= mapping@.len(),
            spec_resolve_uv_z(mapping@.skip(i as int), id) == spec_resolve_uv_z(mapping@, id),
        decreases mapping@.len() - i,
    {
        let (k, v) = mapping[i];
        proof {
            assert(mapping@.skip(i as int)[0] == mapping@[i as int]);
            assert(mapping@.skip(i as int).drop_first() =~= mapping@.skip(i + 1));
        }
        if k == id {
            return v;
        }
        i += 1;
    }
    proof {
        assert(mapping@.skip(mapping@.len() as int) =~= Seq::<(u32, u32)>::empty());
    }
    id
}

/// The four vertices of one cell's quad: corners in the order
/// (min x, min y), (min x, max y), (max x, min y), (max x, max y), with
/// the map's y axis pointing down in world space.
pub open spec fn quad_verts(
    c: Cell,
    tile_w: int,
    tile_h: int,
    off: (int, int),
    uv_z: u32,
) -> Seq<TileVertex> {
    let min_x = c.x * tile_w + off.0;
    let max_x = (c.x + 1) * tile_w + off.0;
    let min_y = -((c.y + 1) * tile_h + off.1);
    let max_y = -(c.y * tile_h + off.1);
    seq![
        TileVertex { x: min_x as i64, y: min_y as i64, layer: c.layer, u: 0, v: 1, uv_z },
        TileVertex { x: min_x as i64, y: max_y as i64, layer: c.layer, u: 0, v: 0, uv_z },
        TileVertex { x: max_x as i64, y: min_y as i64, layer: c.layer, u: 1, v: 1, uv_z },
        TileVertex { x: max_x as i64, y: max_y as i64, layer: c.layer, u: 1, v: 0, uv_z },
    ]
}

/// The vertices of a batched mesh: four per cell, in cell order.
pub open spec fn group_verts(
    cells: Seq<Cell>,
    tile_w: int,
    tile_h: int,
    off: (int, int),
    mapping: Seq<(u32, u32)>,
) -> Seq<TileVertex>
    decreases cells.len(),
{
    if cells.len() == 0 {
        Seq::empty()
    } else {
        group_verts(cells.drop_last(), tile_w, tile_h, off, mapping) + quad_verts(
            cells.last(),
            tile_w,
            tile_h,
            off,
            spec_resolve_uv_z(mapping, cells.last().tile_id),
        )
    }
}

/// The indices of a batched mesh of `n` quads: the two triangles
/// 0-1-2 and 2-1-3 of each quad, offset by four per cell.
pub open spec fn group_indices(n: int) -> Seq<u32>
    decreases n,
{
    if n <= 0 {
        Seq::empty()
    } else {
        let base = 4 * (n - 1);
        group_indices(n - 1) + seq![
            base as u32,
            (base + 1) as u32,
            (base + 2) as u32,
            (base + 2) as u32,
            (base + 1) as u32,
            (base + 3) as u32,
        ]
    }
}

/// A batched mesh: vertices and indices for one tileset's cells.
#[derive(Clone, Debug)]
pub struct TileMesh {
    pub vertices: Vec<TileVertex>,
    pub indices: Vec<u32>,
}

/// Builds the batched mesh of one tileset's cells: one quad per cell in
/// world pixel units, the texture layer resolved through the animation
/// mapping.
pub fn build_group_mesh(
    cells: &Vec<Cell>,
    tile_w: u32,
    tile_h: u32,
    off: (i64, i64),
    mapping: &Vec<(u32, u32)>,
) -> (r: TileMesh)
    requires
        0 < tile_w <= 0x10000,
        0 < tile_h <= 0x10000,
        -0x4000_0000 <= off.0 <= 0x4000_0000,
        -0x4000_0000 <= off.1 <= 0x4000_0000,
        cells@.len() <= 0x100_0000,
        forall|i: int|
            0 <= i < cells@.len() ==> (#[trigger] cells@[i]).x < 0x10000 && cells@[i].y < 0x10000,
    ensures
        r.vertices@ == group_verts(cells@, tile_w as int, tile_h as int, (
            off.0 as int,
            off.1 as int,
        ), mapping@),
        r.indices@ == group_indices(cells@.len() as int),
{
    let mut vertices: Vec<TileVertex> = Vec::new();
    let mut indices: Vec<u32> = Vec::new();
    let mut k: usize = 0;
    while k < cells.len()
        invariant
            0 <= k <= cells@.len(),
            0 < tile_w <= 0x10000,
            0 < tile_h <= 0x10000,
            -0x4000_0000 <= off.0 <= 0x4000_0000,
            -0x4000_0000 <= off.1 <= 0x4000_0000,
            cells@.len() <= 0x100_0000,
            forall|i: int|
                0 <= i < cells@.len() ==> (#[trigger] cells@[i]).x < 0x10000 && cells@[i].y
                    < 0x10000,
            vertices@ == group_verts(cells@.take(k as int), tile_w as int, tile_h as int, (
                off.0 as int,
                off.1 as int,
            ), mapping@),
            indices@ == group_indices(k as int),
        decreases cells@.len() - k,
    {
        let c = cells[k];
        let uv_z = resolve_uv_z(mapping, c.tile_id);
        proof {
            crate::colliders::lemma_mul_bound(c.x as int, tile_w as int, 0x10000, 0x10000);
            crate::colliders::lemma_mul_bound(c.x as int + 1, tile_w as int, 0x10001, 0x10000);
            crate::colliders::lemma_mul_bound(c.y as int, tile_h as int, 0x10000, 0x10000);
            crate::colliders::lemma_mul_bound(c.y as int + 1, tile_h as int, 0x10001, 0x10000);
        }
        let min_x: i64 = c.x as i64 * tile_w as i64 + off.0;
        let max_x: i64 = (c.x as i64 + 1) * tile_w as i64 + off.0;
        let min_y: i64 = -((c.y as i64 + 1) * tile_h as i64 + off.1);
        let max_y: i64 = -(c.y as i64 * tile_h as i64 + off.1);
        vertices.push(TileVertex { x: min_x, y: min_y, layer: c.layer, u: 0, v: 1, uv_z });
        vertices.push(TileVertex { x: min_x, y: max_y, layer: c.layer, u: 0, v: 0, uv_z });
        vertices.push(TileVertex { x: max_x, y: min_y, layer: c.layer, u: 1, v: 1, uv_z });
        vertices.push(TileVertex { x: max_x, y: max_y, layer: c.layer, u: 1, v: 0, uv_z });
        let base: u32 = 4 * k as u32;
        indices.push(base);
        indices.push(base + 1);
        indices.push(base + 2);
        indices.push(base + 2);
        indices.push(base + 1);
        indices.push(base + 3);
        proof {
            assert(cells@.take(k + 1).drop_last() =~= cells@.take(k as int));
            assert(cells@.take(k + 1).last() == cells@[k as int]);
            assert(vertices@ =~= group_verts(cells@.take(k + 1), tile_w as int, tile_h as int, (
                off.0 as int,
                off.1 as int,
            ), mapping@));
            assert(indices@ =~= group_indices(k + 1));
        }
        k += 1;
    }
    proof {
        assert(cells@.take(cells@.len() as int) =~= cells@);
    }
    TileMesh { vertices, indices }
}

/// Law: a batched mesh holds exactly four vertices and six indices per
/// occupied cell of its tileset.
pub proof fn law_mesh_counts(
    cells: Seq<Cell>,
    tile_w: int,
    tile_h: int,
    off: (int, int),
    mapping: Seq<(u32, u32)>,
)
    ensures
        group_verts(cells, tile_w, tile_h, off, mapping).len() == 4 * cells.len(),
        group_indices(cells.len() as int).len() == 6 * cells.len(),
    decreases cells.len(),
{
    if cells.len() > 0 {
        law_mesh_counts(cells.drop_last(), tile_w, tile_h, off, mapping);
    }
}


/// Every cell a tileset's collector yields sits inside the map grid.
pub proof fn lemma_cells_bounds(layers: Seq<TileMapLayer>, w: int, h: int, set: int)
    requires
        w >= 1,
        h >= 1,
        layers.len() <= 0xFFFF_FFFF,
        forall|l: int| 0 <= l < layers.len() ==> (#[trigger] layers[l]).tiles@.len() == w * h,
    ensures
        cells_of(layers, w, set).len() <= layers.len() * (w * h),
        forall|i: int|
            0 <= i < cells_of(layers, w, set).len() ==> {
                let c = #[trigger] cells_of(layers, w, set)[i];
                c.x < w && c.y < h && c.layer < layers.len()
            },
    decreases layers.len(),
{
    if layers.len() > 0 {
        let pre = layers.drop_last();
        assert(forall|l: int| 0 <= l < pre.len() ==> (#[trigger] pre[l]).tiles@.len() == w * h);
        lemma_cells_bounds(pre, w, h, set);
        lemma_cells_in_layer_bounds(layers.last().tiles@, w, h, set, layers.len() - 1);
        assert((layers.len() - 1) * (w * h) + (w * h) == layers.len() * (w * h))
            by (nonlinear_arith);
    }
}

/// Every cell one layer yields sits inside the grid, and there are at
/// most as many as the layer has tiles.
proof fn lemma_cells_in_layer_bounds(
    tiles: Seq<Option<TileRef>>,
    w: int,
    h: int,
    set: int,
    layer: int,
)
    requires
        w >= 1,
        h >= 1,
        0 <= layer <= 0xFFFF_FFFF,
        tiles.len() <= w * h,
    ensures
        cells_in_layer(tiles, w, set, layer).len() <= tiles.len(),
        forall|i: int|
            0 <= i < cells_in_layer(tiles, w, set, layer).len() ==> {
                let c = #[trigger] cells_in_layer(tiles, w, set, layer)[i];
                c.x < w && c.y < h && c.layer == layer
            },
    decreases tiles.len(),
{
    if tiles.len() > 0 {
        lemma_cells_in_layer_bounds(tiles.drop_last(), w, h, set, layer);
        let i = tiles.len() - 1;
        vstd::arithmetic::div_mod::lemma_mod_bound(i, w);
        vstd::arithmetic::div_mod::lemma_fundamental_div_mod(i, w);
        assert(i / w < h) by (nonlinear_arith)
            requires
                i == w * (i / w) + i % w,
                0 <= i % w < w,
                0 <= i < w * h,
                w >= 1,
                h >= 1,
        ;
        assert(0 <= i / w) by (nonlinear_arith)
            requires i == w * (i / w) + i % w, 0 <= i % w < w, i >= 0, w >= 1;
    }
}

/// One batched group: a tileset and its mesh.
#[derive(Clone, Debug)]
pub struct TileGroup {
    pub set: usize,
    pub mesh: TileMesh,
}

/// A group list is the correct batching of a map state: one group per
/// tileset with at least one cell, in tileset order, each holding that
/// tileset's mesh.
pub open spec fn drawable_ok(
    groups: Seq<TileGroup>,
    layers: Seq<TileMapLayer>,
    map_w: int,
    tilesets: Seq<TileSetInfo>,
    position: (int, int),
    mappings: Seq<Seq<(u32, u32)>>,
) -> bool {
    &&& forall|gi: int, gj: int| 0 <= gi < gj < groups.len() ==> (#[trigger] groups[gi]).set < (
    #[trigger] groups[gj]).set
    &&& forall|gi: int|
        0 <= gi < groups.len() ==> {
            let g = #[trigger] groups[gi];
            &&& g.set < tilesets.len()
            &&& cells_of(layers, map_w, g.set as int).len() > 0
            &&& g.mesh.vertices@ == group_verts(
                cells_of(layers, map_w, g.set as int),
                tilesets[g.set as int].tile_width as int,
                tilesets[g.set as int].tile_height as int,
                position,
                mappings[g.set as int],
            )
            &&& g.mesh.indices@ == group_indices(cells_of(layers, map_w, g.set as int).len() as int)
        }
    &&& forall|s: int|
        0 <= s < tilesets.len() && cells_of(layers, map_w, s).len() > 0 ==> exists|gi: int|
            0 <= gi < groups.len() && (#[trigger] groups[gi]).set == s
}

/// The mapping views of a per-tileset animation mapping list.
pub open spec fn mapping_views(mappings: Seq<Vec<(u32, u32)>>) -> Seq<Seq<(u32, u32)>> {
    Seq::new(mappings.len(), |i: int| mappings[i]@)
}

/// Batches a map's layers into one mesh per tileset in use: all cells
/// of one tileset become one quad mesh, the texture layer of each cell
/// resolved through that tileset's animation mapping.
pub fn build_drawable(
    layers: &Vec<TileMapLayer>,
    map_w: u32,
    map_h: u32,
    tilesets: &Vec<TileSetInfo>,
    position: (i64, i64),
    mappings: &Vec<Vec<(u32, u32)>>,
) -> (r: Vec<TileGroup>)
    requires
        0 < map_w <= 0x400,
        0 < map_h <= 0x400,
        layers@.len() <= 16,
        forall|l: int|
            0 <= l < layers@.len() ==> (#[trigger] layers@[l]).tiles@.len() == map_w as int
                * map_h as int,
        mappings@.len() == tilesets@.len(),
        forall|s: int|
            0 <= s < tilesets@.len() ==> 0 < (#[trigger] tilesets@[s]).tile_width <= 0x10000 && 0
                < tilesets@[s].tile_height <= 0x10000,
        -0x4000_0000 <= position.0 <= 0x4000_0000,
        -0x4000_0000 <= position.1 <= 0x4000_0000,
    ensures
        drawable_ok(
            r@,
            layers@,
            map_w as int,
            tilesets@,
            (position.0 as int, position.1 as int),
            mapping_views(mappings@),
        ),
{
    let mut r: Vec<TileGroup> = Vec::new();
    let mut s: usize = 0;
    while s < tilesets.len()
        invariant
            0 <= s <= tilesets@.len(),
            0 < map_w <= 0x400,
            0 < map_h <= 0x400,
            layers@.len() <= 16,
            forall|l: int|
                0 <= l < layers@.len() ==> (#[trigger] layers@[l]).tiles@.len() == map_w as int
                    * map_h as int,
            mappings@.len() == tilesets@.len(),
            forall|s2: int|
                0 <= s2 < tilesets@.len() ==> 0 < (#[trigger] tilesets@[s2]).tile_width <= 0x10000
                    && 0 < tilesets@[s2].tile_height <= 0x10000,
            -0x4000_0000 <= position.0 <= 0x4000_0000,
            -0x4000_0000 <= position.1 <= 0x4000_0000,
            forall|gi: int, gj: int| 0 <= gi < gj < r@.len() ==> (#[trigger] r@[gi]).set < (
            #[trigger] r@[gj]).set,
            forall|gi: int| 0 <= gi < r@.len() ==> (#[trigger] r@[gi]).set < s,
            forall|gi: int|
                0 <= gi < r@.len() ==> {
                    let g = #[trigger] r@[gi];
                    &&& g.set < tilesets@.len()
                    &&& cells_of(layers@, map_w as int, g.set as int).len() > 0
                    &&& g.mesh.vertices@ == group_verts(
                        cells_of(layers@, map_w as int, g.set as int),
                        tilesets@[g.set as int].tile_width as int,
                        tilesets@[g.set as int].tile_height as int,
                        (position.0 as int, position.1 as int),
                        mappings@[g.set as int]@,
                    )
                    &&& g.mesh.indices@ == group_indices(
                        cells_of(layers@, map_w as int, g.set as int).len() as int,
                    )
                },
            forall|s2: int|
                0 <= s2 < s && cells_of(layers@, map_w as int, s2).len() > 0 ==> exists|gi: int|
                    0 <= gi < r@.len() && (#[trigger] r@[gi]).set == s2,
        decreases tilesets@.len() - s,
    {
        let cells = collect_cells(layers, map_w, s);
        let ghost r_pre = r@;
        proof {
            lemma_cells_bounds(layers@, map_w as int, map_h as int, s as int);
            assert(0 < map_w as int * map_h as int <= 0x400 * 0x400) by (nonlinear_arith)
                requires 0 < map_w <= 0x400, 0 < map_h <= 0x400;
            assert(layers@.len() * (map_w as int * map_h as int) <= 16 * (0x400 * 0x400))
                by (nonlinear_arith)
                requires
                    layers@.len() <= 16,
                    0 < map_w as int * map_h as int <= 0x400 * 0x400,
            ;
        }
        if cells.len() > 0 {
            let ts = &tilesets[s];
            let mesh = build_group_mesh(&cells, ts.tile_width, ts.tile_height, position,
                &mappings[s]);
            r.push(TileGroup { set: s, mesh });
        }
        proof {
            assert forall|s2: int|
                0 <= s2 < s + 1 && cells_of(layers@, map_w as int, s2).len() > 0
                implies exists|gi: int| 0 <= gi < r@.len() && (#[trigger] r@[gi]).set == s2 by {
                if s2 == s {
                    assert(r@[r@.len() - 1].set == s2);
                } else {
                    let gi = choose|gi: int|
                        0 <= gi < r_pre.len() && (#[trigger] r_pre[gi]).set == s2;
                    assert(r@[gi].set == s2);
                }
            }
        }
        s += 1;
    }
    r
}

/// A tile map: ordered layers over a shared grid, a world position,
/// and the lazily rebuilt batched drawable with its up-to-date flag.
#[derive(Debug)]
pub struct TileMap {
    layers: Vec<TileMapLayer>,
    map_width: u32,
    map_height: u32,
    tile_width: u32,
    tile_height: u32,
    position: (i64, i64),
    up_to_date: bool,
    groups: Vec<TileGroup>,
}

impl TileMap {
    /// Grid dimensions positive and bounded, every layer dense.
    pub closed spec fn wf(self) -> bool {
        &&& 0 < self.map_width <= 0x400
        &&& 0 < self.map_height <= 0x400
        &&& self.layers@.len() <= 16
        &&& forall|l: int|
            0 <= l < self.layers@.len() ==> (#[trigger] self.layers@[l]).tiles@.len()
                == self.map_width as int * self.map_height as int
        &&& -0x4000_0000 <= self.position.0 <= 0x4000_0000
        &&& -0x4000_0000 <= self.position.1 <= 0x4000_0000
    }

    pub closed spec fn spec_layers(self) -> Seq<TileMapLayer> {
        self.layers@
    }

    pub closed spec fn spec_dimensions(self) -> (u32, u32) {
        (self.map_width, self.map_height)
    }

    pub closed spec fn spec_tile_dimensions(self) -> (u32, u32) {
        (self.tile_width, self.tile_height)
    }

    pub closed spec fn spec_position(self) -> (i64, i64) {
        self.position
    }

    pub closed spec fn spec_up_to_date(self) -> bool {
        self.up_to_date
    }

    pub closed spec fn spec_groups(self) -> Seq<TileGroup> {
        self.groups@
    }

    /// Accepts dense layers over a positive bounded grid; rejects
    /// exactly maps whose dimensions are out of range or whose layers
    /// do not cover the grid. The drawable starts stale.
    pub fn new(
        layers: Vec<TileMapLayer>,
        map_width: u32,
        map_height: u32,
        tile_width: u32,
        tile_height: u32,
        position: (i64, i64),
    ) -> (r: Option<TileMap>)
        ensures
            match r {
                Some(m) => {
                    &&& m.wf()
                    &&& m.spec_layers() == layers@
                    &&& m.spec_dimensions() == (map_width, map_height)
                    &&& m.spec_tile_dimensions() == (tile_width, tile_height)
                    &&& m.spec_position() == position
                    &&& !m.spec_up_to_date()
                },
                None => !(0 < map_width <= 0x400 && 0 < map_height <= 0x400 && layers@.len() <= 16
                    && -0x4000_0000 <= position.0 <= 0x4000_0000 && -0x4000_0000 <= position.1
                    <= 0x4000_0000 && (forall|l: int|
                    0 <= l < layers@.len() ==> (#[trigger] layers@[l]).tiles@.len()
                        == map_width as int * map_height as int)),
            },
    {
        if !(0 < map_width && map_width <= 0x400 && 0 < map_height && map_height <= 0x400) {
            return None;
        }
        if layers.len() > 16 {
            return None;
        }
        if !(-0x4000_0000 <= position.0 && position.0 <= 0x4000_0000 && -0x4000_0000 <= position.1
            && position.1 <= 0x4000_0000) {
            return None;
        }
        proof {
            crate::colliders::lemma_mul_bound(map_width as int, map_height as int, 0x400, 0x400);
        }
        let expected: usize = map_width as usize * map_height as usize;
        let mut l: usize = 0;
        while l < layers.len()
            invariant
                0 <= l <= layers@.len(),
                expected == map_width as int * map_height as int,
                forall|j: int|
                    0 <= j < l ==> (#[trigger] layers@[j]).tiles@.len() == map_width as int
                        * map_height as int,
            decreases layers@.len() - l,
        {
            if layers[l].tiles.len() != expected {
                return None;
            }
            l += 1;
        }
        Some(
            TileMap {
                layers,
                map_width,
                map_height,
                tile_width,
                tile_height,
                position,
                up_to_date: false,
                groups: Vec::new(),
            },
        )
    }

    /// The map dimensions in tiles.
    pub fn dimensions(&self) -> (r: (u32, u32))
        ensures
            r == self.spec_dimensions(),
    {
        (self.map_width, self.map_height)
    }

    /// The tile dimensions in pixels.
    pub fn tile_dimensions(&self) -> (r: (u32, u32))
        ensures
            r == self.spec_tile_dimensions(),
    {
        (self.tile_width, self.tile_height)
    }

    /// The world position offset.
    pub fn position(&self) -> (r: (i64, i64))
        ensures
            r == self.spec_position(),
    {
        self.position
    }

    /// Read access to the layers.
    pub fn layers(&self) -> (r: &Vec<TileMapLayer>)
        ensures
            r@ == self.spec_layers(),
    {
        &self.layers
    }

    /// Whether the batched drawable reflects the current map state.
    pub fn is_up_to_date(&self) -> (r: bool)
        ensures
            r == self.spec_up_to_date(),
    {
        self.up_to_date
    }

    /// The current batched groups.
    pub fn groups(&self) -> (r: &Vec<TileGroup>)
        ensures
            r@ == self.spec_groups(),
    {
        &self.groups
    }

    /// Overwrites one cell of one layer and marks the drawable stale.
    pub fn set_tile(&mut self, layer: usize, idx: usize, t: Option<TileRef>)
        requires
            old(self).wf(),
            layer < old(self).spec_layers().len(),
            idx < old(self).spec_layers()[layer as int].tiles@.len(),
        ensures
            final(self).wf(),
            final(self).spec_layers().len() == old(self).spec_layers().len(),
            final(self).spec_layers()[layer as int].tiles@ == old(self).spec_layers()[
                layer as int].tiles@.update(idx as int, t),
            forall|l: int|
                0 <= l < old(self).spec_layers().len() && l != layer ==> final(self).spec_layers()[
                    l] == old(self).spec_layers()[l],
            !final(self).spec_up_to_date(),
            final(self).spec_position() == old(self).spec_position(),
            final(self).spec_dimensions() == old(self).spec_dimensions(),
            final(self).spec_tile_dimensions() == old(self).spec_tile_dimensions(),
    {
        self.layers[layer].tiles[idx] = t;
        self.up_to_date = false;
    }

    /// Moves the map and marks the drawable stale.
    pub fn set_position(&mut self, position: (i64, i64))
        requires
            old(self).wf(),
            -0x4000_0000 <= position.0 <= 0x4000_0000,
            -0x4000_0000 <= position.1 <= 0x4000_0000,
        ensures
            final(self).wf(),
            final(self).spec_position() == position,
            final(self).spec_layers() == old(self).spec_layers(),
            !final(self).spec_up_to_date(),
            final(self).spec_dimensions() == old(self).spec_dimensions(),
            final(self).spec_tile_dimensions() == old(self).spec_tile_dimensions(),
    {
        self.position = position;
        self.up_to_date = false;
    }

    /// Rebuilds the batched drawable if and only if it is stale, then
    /// marks it up to date; an up-to-date drawable is left untouched.
    pub fn update(&mut self, tilesets: &Vec<TileSetInfo>, mappings: &Vec<Vec<(u32, u32)>>)
        requires
            old(self).wf(),
            mappings@.len() == tilesets@.len(),
            forall|s: int|
                0 <= s < tilesets@.len() ==> 0 < (#[trigger] tilesets@[s]).tile_width <= 0x10000
                    && 0 < tilesets@[s].tile_height <= 0x10000,
        ensures
            final(self).wf(),
            final(self).spec_layers() == old(self).spec_layers(),
            final(self).spec_position() == old(self).spec_position(),
            final(self).spec_dimensions() == old(self).spec_dimensions(),
            final(self).spec_tile_dimensions() == old(self).spec_tile_dimensions(),
            final(self).spec_up_to_date(),
            old(self).spec_up_to_date() ==> final(self).spec_groups() == old(self).spec_groups(),
            !old(self).spec_up_to_date() ==> drawable_ok(
                final(self).spec_groups(),
                old(self).spec_layers(),
                old(self).spec_dimensions().0 as int,
                tilesets@,
                (old(self).spec_position().0 as int, old(self).spec_position().1 as int),
                mapping_views(mappings@),
            ),
    {
        if !self.up_to_date {
            self.groups = build_drawable(
                &self.layers,
                self.map_width,
                self.map_height,
                tilesets,
                self.position,
                mappings,
            );
            self.up_to_date = true;
        }
    }
}


/// The collision rectangles authored on a tile id, empty when none.
pub open spec fn spec_tile_colls(colls: Seq<(u32, Vec<CollRect>)>, id: u32) -> Seq<CollRect>
    decreases colls.len(),
{
    if colls.len() == 0 {
        Seq::empty()
    } else if colls[0].0 == id {
        colls[0].1@
    } else {
        spec_tile_colls(colls.drop_first(), id)
    }
}

/// Looks up the collision rectangles of a tile id.
pub fn tile_colls<'a>(colls: &'a Vec<(u32, Vec<CollRect>)>, id: u32) -> (r: Option<&'a Vec<
    CollRect,
>>)
    ensures
        match r {
            Some(v) => v@ == spec_tile_colls(colls@, id) && spec_tile_colls(colls@, id).len() >= 0,
            None => spec_tile_colls(colls@, id) == Seq::<CollRect>::empty(),
        },
{
    proof {
        assert(colls@.skip(0) =~= colls@);
    }
    let mut i: usize = 0;
    while i < colls.len()
        invariant
            0 <= i <= colls@.len(),
            spec_tile_colls(colls@.skip(i as int), id) == spec_tile_colls(colls@, id),
        decreases colls@.len() - i,
    {
        proof {
            assert(colls@.skip(i as int)[0] == colls@[i as int]);
            assert(colls@.skip(i as int).drop_first() =~= colls@.skip(i + 1));
        }
        if colls[i].0 == id {
            return Some(&colls[i].1);
        }
        i += 1;
    }
    proof {
        assert(colls@.skip(colls@.len() as int) =~= Seq::<(u32, Vec<CollRect>)>::empty());
    }
    None
}

/// A world-space collision rectangle as (min x, min y, max x, max y).
pub open spec fn spec_cell_rect(
    c: Cell,
    o: CollRect,
    tile_w: int,
    tile_h: int,
    pos: (int, int),
) -> (i64, i64, i64, i64) {
    let tlx = c.x * tile_w;
    let tly = (c.y + 1) * tile_h;
    (
        (pos.0 + tlx + o.x) as i64,
        (pos.1 + tly - o.y - o.h) as i64,
        (pos.0 + tlx + o.x + o.w) as i64,
        (pos.1 + tly - o.y) as i64,
    )
}

/// The world-space rectangles of one cell's collision shapes.
pub open spec fn spec_cell_rects(
    c: Cell,
    colls: Seq<CollRect>,
    tile_w: int,
    tile_h: int,
    pos: (int, int),
) -> Seq<(i64, i64, i64, i64)>
    decreases colls.len(),
{
    if colls.len() == 0 {
        Seq::empty()
    } else {
        spec_cell_rects(c, colls.drop_last(), tile_w, tile_h, pos) + seq![
            spec_cell_rect(c, colls.last(), tile_w, tile_h, pos),
        ]
    }
}

/// The world-space rectangles of a cell list's collision shapes.
pub open spec fn spec_cells_rects(
    cells: Seq<Cell>,
    colls: Seq<(u32, Vec<CollRect>)>,
    tile_w: int,
    tile_h: int,
    pos: (int, int),
) -> Seq<(i64, i64, i64, i64)>
    decreases cells.len(),
{
    if cells.len() == 0 {
        Seq::empty()
    } else {
        spec_cells_rects(cells.drop_last(), colls, tile_w, tile_h, pos) + spec_cell_rects(
            cells.last(),
            spec_tile_colls(colls, cells.last().tile_id),
            tile_w,
            tile_h,
            pos,
        )
    }
}

/// Computes the static collision rectangles a tileset's cells author on
/// the map, in world space: each authored tile-local rectangle is
/// placed at its cell, measured from the cell's bottom-left corner with
/// the shape's own y axis pointing down.
pub fn calculate_hitboxes(
    cells: &Vec<Cell>,
    colls: &Vec<(u32, Vec<CollRect>)>,
    tile_w: u32,
    tile_h: u32,
    pos: (i64, i64),
) -> (r: Vec<(i64, i64, i64, i64)>)
    requires
        0 < tile_w <= 0x10000,
        0 < tile_h <= 0x10000,
        -0x4000_0000 <= pos.0 <= 0x4000_0000,
        -0x4000_0000 <= pos.1 <= 0x4000_0000,
        forall|i: int|
            0 <= i < cells@.len() ==> (#[trigger] cells@[i]).x < 0x10000 && cells@[i].y < 0x10000,
        forall|i: int, j: int|
            0 <= i < colls@.len() && 0 <= j < colls@[i].1@.len() ==> {
                let o = #[trigger] colls@[i].1@[j];
                -0x10000 <= o.x <= 0x10000 && -0x10000 <= o.y <= 0x10000 && 0 <= o.w <= 0x10000
                    && 0 <= o.h <= 0x10000
            },
    ensures
        r@ == spec_cells_rects(cells@, colls@, tile_w as int, tile_h as int, (
            pos.0 as int,
            pos.1 as int,
        )),
{
    let mut r: Vec<(i64, i64, i64, i64)> = Vec::new();
    let mut k: usize = 0;
    while k < cells.len()
        invariant
            0 <= k <= cells@.len(),
            0 < tile_w <= 0x10000,
            0 < tile_h <= 0x10000,
            -0x4000_0000 <= pos.0 <= 0x4000_0000,
            -0x4000_0000 <= pos.1 <= 0x4000_0000,
            forall|i: int|
                0 <= i < cells@.len() ==> (#[trigger] cells@[i]).x < 0x10000 && cells@[i].y
                    < 0x10000,
            forall|i: int, j: int|
                0 <= i < colls@.len() && 0 <= j < colls@[i].1@.len() ==> {
                    let o = #[trigger] colls@[i].1@[j];
                    -0x10000 <= o.x <= 0x10000 && -0x10000 <= o.y <= 0x10000 && 0 <= o.w <= 0x10000
                        && 0 <= o.h <= 0x10000
                },
            r@ == spec_cells_rects(cells@.take(k as int), colls@, tile_w as int, tile_h as int, (
                pos.0 as int,
                pos.1 as int,
            )),
        decreases cells@.len() - k,
    {
        let c = cells[k];
        proof {
            crate::colliders::lemma_mul_bound(c.x as int, tile_w as int, 0x10000, 0x10000);
            crate::colliders::lemma_mul_bound(c.y as int + 1, tile_h as int, 0x10001, 0x10000);
        }
        let tlx: i64 = c.x as i64 * tile_w as i64;
        let tly: i64 = (c.y as i64 + 1) * tile_h as i64;
        match tile_colls(colls, c.tile_id) {
            None => {
                proof {
                    assert(cells@.take(k + 1).drop_last() =~= cells@.take(k as int));
                    assert(cells@.take(k + 1).last() == cells@[k as int]);
                    assert(spec_cell_rects(
                        c,
                        spec_tile_colls(colls@, c.tile_id),
                        tile_w as int,
                        tile_h as int,
                        (pos.0 as int, pos.1 as int),
                    ) =~= Seq::<(i64, i64, i64, i64)>::empty());
                    assert(r@ =~= spec_cells_rects(
                        cells@.take(k + 1),
                        colls@,
                        tile_w as int,
                        tile_h as int,
                        (pos.0 as int, pos.1 as int),
                    ));
                }
            },
            Some(list) => {
                let ghost clist = list@;
                proof {
                    lemma_tile_colls_bounds(colls@, c.tile_id);
                }
                let mut j: usize = 0;
                while j < list.len()
                    invariant
                        0 <= j <= list@.len(),
                        list@ == clist,
                        clist == spec_tile_colls(colls@, c.tile_id),
                        c == cells@[k as int],
                        0 <= k < cells@.len(),
                        0 < tile_w <= 0x10000,
                        0 < tile_h <= 0x10000,
                        -0x4000_0000 <= pos.0 <= 0x4000_0000,
                        -0x4000_0000 <= pos.1 <= 0x4000_0000,
                        tlx == c.x as int * tile_w as int,
                        tly == (c.y as int + 1) * tile_h as int,
                        0 <= tlx <= 0x1_0000_0000,
                        0 <= tly <= 0x1_0000_0002_0000,
                        forall|i2: int, j2: int|
                            0 <= i2 < colls@.len() && 0 <= j2 < colls@[i2].1@.len() ==> {
                                let o = #[trigger] colls@[i2].1@[j2];
                                -0x10000 <= o.x <= 0x10000 && -0x10000 <= o.y <= 0x10000 && 0 <= o.w
                                    <= 0x10000 && 0 <= o.h <= 0x10000
                            },
                        forall|j2: int|
                            0 <= j2 < clist.len() ==> {
                                let o = #[trigger] clist[j2];
                                -0x10000 <= o.x <= 0x10000 && -0x10000 <= o.y <= 0x10000 && 0 <= o.w
                                    <= 0x10000 && 0 <= o.h <= 0x10000
                            },
                        r@ == spec_cells_rects(
                            cells@.take(k as int),
                            colls@,
                            tile_w as int,
                            tile_h as int,
                            (pos.0 as int, pos.1 as int),
                        ) + spec_cell_rects(c, clist.take(j as int), tile_w as int, tile_h as int, (
                            pos.0 as int,
                            pos.1 as int,
                        )),
                    decreases list@.len() - j,
                {
                    let o = list[j];
                    let min_x: i64 = pos.0 + tlx + o.x;
                    let min_y: i64 = pos.1 + tly - o.y - o.h;
                    let max_x: i64 = pos.0 + tlx + o.x + o.w;
                    let max_y: i64 = pos.1 + tly - o.y;
                    r.push((min_x, min_y, max_x, max_y));
                    proof {
                        assert(clist.take(j + 1).drop_last() =~= clist.take(j as int));
                        assert(clist.take(j + 1).last() == clist[j as int]);
                        assert(r@ =~= spec_cells_rects(
                            cells@.take(k as int),
                            colls@,
                            tile_w as int,
                            tile_h as int,
                            (pos.0 as int, pos.1 as int),
                        ) + spec_cell_rects(c, clist.take(j + 1), tile_w as int, tile_h as int, (
                            pos.0 as int,
                            pos.1 as int,
                        )));
                    }
                    j += 1;
                }
                proof {
                    assert(clist.take(clist.len() as int) =~= clist);
                    assert(cells@.take(k + 1).drop_last() =~= cells@.take(k as int));
                    assert(cells@.take(k + 1).last() == cells@[k as int]);
                    assert(r@ =~= spec_cells_rects(
                        cells@.take(k + 1),
                        colls@,
                        tile_w as int,
                        tile_h as int,
                        (pos.0 as int, pos.1 as int),
                    ));
                }
            },
        }
        proof {
            assert(cells@.take(k + 1).drop_last() =~= cells@.take(k as int));
            assert(cells@.take(k + 1).last() == cells@[k as int]);
            assert(r@ =~= spec_cells_rects(cells@.take(k + 1), colls@, tile_w as int,
                tile_h as int, (pos.0 as int, pos.1 as int)));
        }
        k += 1;
    }
    proof {
        assert(cells@.take(cells@.len() as int) =~= cells@);
    }
    r
}


/// The authored bounds of every collision rectangle carry over to the
/// rectangles looked up for one tile id.
proof fn lemma_tile_colls_bounds(colls: Seq<(u32, Vec<CollRect>)>, id: u32)
    requires
        forall|i: int, j: int|
            0 <= i < colls.len() && 0 <= j < colls[i].1@.len() ==> {
                let o = #[trigger] colls[i].1@[j];
                -0x10000 <= o.x <= 0x10000 && -0x10000 <= o.y <= 0x10000 && 0 <= o.w <= 0x10000
                    && 0 <= o.h <= 0x10000
            },
    ensures
        forall|j: int|
            0 <= j < spec_tile_colls(colls, id).len() ==> {
                let o = #[trigger] spec_tile_colls(colls, id)[j];
                -0x10000 <= o.x <= 0x10000 && -0x10000 <= o.y <= 0x10000 && 0 <= o.w <= 0x10000
                    && 0 <= o.h <= 0x10000
            },
    decreases colls.len(),
{
    if colls.len() == 0 {
    } else if colls[0].0 == id {
        assert(forall|j: int| 0 <= j < colls[0].1@.len() ==> colls[0].1@[j] == spec_tile_colls(
            colls,
            id,
        )[j]);
    } else {
        let rest = colls.drop_first();
        assert(forall|i: int| 0 <= i < rest.len() ==> #[trigger] rest[i] == colls[i + 1]);
        lemma_tile_colls_bounds(rest, id);
        assert(spec_tile_colls(colls, id) == spec_tile_colls(rest, id));
        assert forall|j: int| 0 <= j < spec_tile_colls(colls, id).len() implies {
            let o = #[trigger] spec_tile_colls(colls, id)[j];
            -0x10000 <= o.x <= 0x10000 && -0x10000 <= o.y <= 0x10000 && 0 <= o.w <= 0x10000 && 0
                <= o.h <= 0x10000
        } by {
            assert(spec_tile_colls(colls, id)[j] == spec_tile_colls(rest, id)[j]);
        }
    }
}


/// The mapped value of a tile id in an animation mapping, if present.
pub open spec fn spec_lookup(s: Seq<(u32, u32)>, id: u32) -> Option<u32>
    decreases s.len(),
{
    if s.len() == 0 {
        None
    } else if s[0].0 == id {
        Some(s[0].1)
    } else {
        spec_lookup(s.drop_first(), id)
    }
}

/// The entries of a freshly computed animation mapping that changed:
/// pairs whose value differs from the stored mapping or are new to it.
pub open spec fn spec_updates(cur: Seq<(u32, u32)>, fresh: Seq<(u32, u32)>) -> Seq<(u32, u32)>
    decreases fresh.len(),
{
    if fresh.len() == 0 {
        Seq::empty()
    } else {
        spec_updates(cur, fresh.drop_last()) + (match spec_lookup(cur, fresh.last().0) {
            Some(v) => if v == fresh.last().1 {
                Seq::empty()
            } else {
                seq![fresh.last()]
            },
            None => seq![fresh.last()],
        })
    }
}

/// Looks a tile id up in an animation mapping.
pub fn mapping_lookup(s: &Vec<(u32, u32)>, id: u32) -> (r: Option<u32>)
    ensures
        r == spec_lookup(s@, id),
{
    proof {
        assert(s@.skip(0) =~= s@);
    }
    let mut i: usize = 0;
    while i < s.len()
        invariant
            0 <= i <= s@.len(),
            spec_lookup(s@.skip(i as int), id) == spec_lookup(s@, id),
        decreases s@.len() - i,
    {
        proof {
            assert(s@.skip(i as int)[0] == s@[i as int]);
            assert(s@.skip(i as int).drop_first() =~= s@.skip(i + 1));
        }
        if s[i].0 == id {
            return Some(s[i].1);
        }
        i += 1;
    }
    proof {
        assert(s@.skip(s@.len() as int) =~= Seq::<(u32, u32)>::empty());
    }
    None
}

/// Diffs a freshly computed animation mapping against the stored one:
/// the pairs whose current frame changed, or are newly animated.
pub fn mapping_updates(cur: &Vec<(u32, u32)>, fresh: &Vec<(u32, u32)>) -> (r: Vec<(u32, u32)>)
    ensures
        r@ == spec_updates(cur@, fresh@),
{
    let mut r: Vec<(u32, u32)> = Vec::new();
    let mut i: usize = 0;
    while i < fresh.len()
        invariant
            0 <= i <= fresh@.len(),
            r@ == spec_updates(cur@, fresh@.take(i as int)),
        decreases fresh@.len() - i,
    {
        let (id, v) = fresh[i];
        let changed = match mapping_lookup(cur, id) {
            Some(old_v) => old_v != v,
            None => true,
        };
        if changed {
            r.push((id, v));
        }
        proof {
            assert(fresh@.take(i + 1).drop_last() =~= fresh@.take(i as int));
            assert(fresh@.take(i + 1).last() == fresh@[i as int]);
            assert(r@ =~= spec_updates(cur@, fresh@.take(i + 1)));
        }
        i += 1;
    }
    proof {
        assert(fresh@.take(fresh@.len() as int) =~= fresh@);
    }
    r
}

/// One quad's vertices after a mapping update: the texture layer of a
/// cell whose tile id is among the updates moves to the new frame,
/// everything else stays.
pub open spec fn patch_quad(
    old: Seq<TileVertex>,
    cells: Seq<Cell>,
    updates: Seq<(u32, u32)>,
    i: int,
) -> Seq<TileVertex> {
    match spec_lookup(updates, cells[i].tile_id) {
        Some(z) => seq![
            TileVertex { uv_z: z, ..old[4 * i] },
            TileVertex { uv_z: z, ..old[4 * i + 1] },
            TileVertex { uv_z: z, ..old[4 * i + 2] },
            TileVertex { uv_z: z, ..old[4 * i + 3] },
        ],
        None => seq![old[4 * i], old[4 * i + 1], old[4 * i + 2], old[4 * i + 3]],
    }
}

/// A vertex list's prefix after a mapping update, quad by quad.
pub open spec fn patch_verts(
    old: Seq<TileVertex>,
    cells: Seq<Cell>,
    updates: Seq<(u32, u32)>,
    t: int,
) -> Seq<TileVertex>
    decreases t,
{
    if t <= 0 {
        Seq::empty()
    } else {
        patch_verts(old, cells, updates, t - 1) + patch_quad(old, cells, updates, t - 1)
    }
}

/// Rewrites a batched mesh's texture layers after animation frames
/// advanced: every quad whose cell's tile id is among the updates
/// samples the updated frame; positions, corners and untouched quads
/// stay as they are.
pub fn patch_mesh_uv(
    vertices: &Vec<TileVertex>,
    cells: &Vec<Cell>,
    updates: &Vec<(u32, u32)>,
) -> (r: Vec<TileVertex>)
    requires
        vertices@.len() == 4 * cells@.len(),
    ensures
        r@ == patch_verts(vertices@, cells@, updates@, cells@.len() as int),
        r@.len() == vertices@.len(),
{
    let vlen = vertices.len();
    let mut r: Vec<TileVertex> = Vec::new();
    let mut i: usize = 0;
    while i < cells.len()
        invariant
            0 <= i <= cells@.len(),
            vertices@.len() == 4 * cells@.len(),
            vertices@.len() == vlen,
            r@.len() == 4 * i,
            r@ == patch_verts(vertices@, cells@, updates@, i as int),
        decreases cells@.len() - i,
    {
        proof {
            assert(4 * i + 3 < vertices@.len() && 4 * i >= 0) by (nonlinear_arith)
                requires 0 <= i < cells@.len(), vertices@.len() == 4 * cells@.len();
        }
        let z_opt = mapping_lookup(updates, cells[i].tile_id);
        let mut j: usize = 0;
        while j < 4
            invariant
                0 <= j <= 4,
                0 <= i < cells@.len(),
                vertices@.len() == 4 * cells@.len(),
                4 * i + 3 < vertices@.len(),
                4 * i >= 0,
                vertices@.len() == vlen,
                z_opt == spec_lookup(updates@, cells@[i as int].tile_id),
                r@.len() == 4 * i + j,
                r@ == patch_verts(vertices@, cells@, updates@, i as int) + patch_quad(
                    vertices@,
                    cells@,
                    updates@,
                    i as int,
                ).take(j as int),
            decreases 4 - j,
        {
            let old_v = vertices[4 * i + j];
            let v = match z_opt {
                Some(z) => TileVertex { uv_z: z, ..old_v },
                None => old_v,
            };
            r.push(v);
            proof {
                assert(patch_quad(vertices@, cells@, updates@, i as int).take(j + 1)
                    =~= patch_quad(vertices@, cells@, updates@, i as int).take(j as int).push(v));
                assert(r@ =~= patch_verts(vertices@, cells@, updates@, i as int) + patch_quad(
                    vertices@,
                    cells@,
                    updates@,
                    i as int,
                ).take(j + 1));
            }
            j += 1;
        }
        proof {
            assert(patch_quad(vertices@, cells@, updates@, i as int).take(4)
                =~= patch_quad(vertices@, cells@, updates@, i as int));
            assert(r@ =~= patch_verts(vertices@, cells@, updates@, i + 1));
        }
        i += 1;
    }
    proof {
        lemma_patch_verts_len(vertices@, cells@, updates@, cells@.len() as int);
    }
    r
}

/// The patched vertex list covers four vertices per quad.
proof fn lemma_patch_verts_len(
    old: Seq<TileVertex>,
    cells: Seq<Cell>,
    updates: Seq<(u32, u32)>,
    t: int,
)
    ensures
        patch_verts(old, cells, updates, t).len() == if t <= 0 {
            0
        } else {
            4 * t
        },
    decreases t,
{
    if t > 0 {
        lemma_patch_verts_len(old, cells, updates, t - 1);
    }
}

} // verus!
