//! The terrain-import boundary: a derived view of an external tile map
//! (grid cell size, pixel dimensions, tiles with semantic tags) and the
//! bulk reclassification of the board from it.  Tag strings are parsed
//! against a closed vocabulary; anything else is ignored.

use vstd::prelude::*;
use vstd::string::StrSliceExecFns;

use crate::pathfinding_module::{NodeType, PathfindingTerrain, lemma_idx_bounds};

verus! {

/// One imported tile: a cell coordinate and its semantic tags.
pub struct Tile {
    pub x: i32,
    pub y: i32,
    pub tags: Vec<String>,
}

/// The derived view of one external tile layer: cell size, pixel
/// dimensions, and the tiles carrying semantic tags.
pub struct TileSource {
    pub grid_size: i32,
    pub px_wid: i32,
    pub px_hei: i32,
    pub tiles: Vec<Tile>,
}

/// Character-for-character string equality.
pub fn str_eq(a: &str, b: &str) -> (r: bool)
    ensures
        r <==> a@ == b@,
{
    let alen = a.unicode_len();
    let blen = b.unicode_len();
    if alen != blen {
        return false;
    }
    let mut i: usize = 0;
    while i < alen
        invariant
            alen == a@.len(),
            blen == b@.len(),
            alen == blen,
            i <= alen,
            forall|j: int| 0 <= j < i ==> a@[j] == b@[j],
        decreases alen - i,
    {
        if a.get_char(i) != b.get_char(i) {
            return false;
        }
        i = i + 1;
    }
    proof {
        assert(a@ =~= b@);
    }
    true
}

/// The closed tag vocabulary: which classification a tag string denotes,
/// or `None` for any unrecognized tag.
pub open spec fn parse_tag_spec(s: Seq<char>) -> Option<NodeType> {
    if s == "Start"@ {
        Some(NodeType::Start)
    } else if s == "End"@ {
        Some(NodeType::End)
    } else if s == "Unwalkable"@ {
        Some(NodeType::Unwalkable)
    } else if s == "Walkable"@ {
        Some(NodeType::Walkable)
    } else {
        None
    }
}

/// Parses one semantic tag against the closed vocabulary.
pub fn parse_tile_tag(tag: &str) -> (r: Option<NodeType>)
    ensures
        r == parse_tag_spec(tag@),
{
    if str_eq(tag, "Start") {
        Some(NodeType::Start)
    } else if str_eq(tag, "End") {
        Some(NodeType::End)
    } else if str_eq(tag, "Unwalkable") {
        Some(NodeType::Unwalkable)
    } else if str_eq(tag, "Walkable") {
        Some(NodeType::Walkable)
    } else {
        None
    }
}

/// The classification a tile writes: the last recognized tag it carries.
pub open spec fn last_recognized(tags: Seq<String>) -> Option<NodeType>
    decreases tags.len(),
{
    if tags.len() == 0 {
        None
    } else {
        match parse_tag_spec(tags.last()@) {
            Some(k) => Some(k),
            None => last_recognized(tags.drop_last()),
        }
    }
}

/// What one tile writes at `(x, y)`: its last recognized tag when the
/// tile sits there, nothing otherwise.
pub open spec fn tile_write(tile: Tile, x: int, y: int) -> Option<NodeType> {
    if tile.x == x && tile.y == y {
        last_recognized(tile.tags@)
    } else {
        None
    }
}

/// The classification of `(x, y)` after importing `tiles` in order onto
/// a board of `Empty` cells: the last write wins.
pub open spec fn import_type(tiles: Seq<Tile>, x: int, y: int) -> NodeType
    decreases tiles.len(),
{
    if tiles.len() == 0 {
        NodeType::Empty
    } else {
        match tile_write(tiles.last(), x, y) {
            Some(k) => k,
            None => import_type(tiles.drop_last(), x, y),
        }
    }
}

impl Tile {
    /// The classification this tile writes, scanning its tags in order;
    /// unrecognized tags are ignored, the last recognized one wins.
    pub fn effective_write(&self) -> (r: Option<NodeType>)
        ensures
            r == last_recognized(self.tags@),
    {
        let mut acc: Option<NodeType> = None;
        let mut g: usize = 0;
        let n = self.tags.len();
        while g < n
            invariant
                n == self.tags@.len(),
                g <= n,
                acc == last_recognized(self.tags@.take(g as int)),
            decreases n - g,
        {
            let ghost pre = self.tags@.take(g as int);
            if let Some(k) = parse_tile_tag(self.tags[g].as_str()) {
                acc = Some(k);
            }
            g = g + 1;
            proof {
                let cur = self.tags@.take(g as int);
                assert(cur.last() == self.tags@[g - 1]);
                assert(cur.drop_last() =~= pre);
            }
        }
        proof {
            assert(self.tags@.take(n as int) =~= self.tags@);
        }
        acc
    }
}

impl PathfindingTerrain {
    /// Rebuilds the board from an external tile source: resizes to the
    /// source's declared grid dimensions (all cells `Empty`), then
    /// reclassifies the cell under every tile carrying a recognized
    /// semantic tag; tiles out of range or without recognized tags are
    /// ignored.  Re-running against the same source yields the same board.
    pub fn set_pathfinding_based_on_tilemap(&mut self, source: &TileSource)
        requires
            1 <= source.grid_size,
            0 <= source.px_wid,
            0 <= source.px_hei,
            1 <= source.px_wid / source.grid_size,
            1 <= source.px_hei / source.grid_size,
            (source.px_wid / source.grid_size) * (source.px_hei / source.grid_size) <= i32::MAX,
        ensures
            final(self).wf(),
            final(self).width == source.px_wid / source.grid_size,
            final(self).height == source.px_hei / source.grid_size,
            forall|x: int, y: int| final(self).in_range(x, y) ==> #[trigger] final(self).type_at(
                x,
                y,
            ) == import_type(source.tiles@, x, y),
    {
        let width = source.px_wid / source.grid_size;
        let height = source.px_hei / source.grid_size;
        self.resize(width, height);
        let n = source.tiles.len();
        let mut t: usize = 0;
        while t < n
            invariant
                n == source.tiles@.len(),
                t <= n,
                self.wf(),
                self.width == width,
                self.height == height,
                1 <= width,
                1 <= height,
                forall|x: int, y: int| self.in_range(x, y) ==> #[trigger] self.type_at(x, y)
                    == import_type(source.tiles@.take(t as int), x, y),
            decreases n - t,
        {
            let ghost pre_tiles = source.tiles@.take(t as int);
            let ghost pre = *self;
            let tile = &source.tiles[t];
            let write = tile.effective_write();
            if let Some(k) = write {
                if 0 <= tile.x && tile.x < self.width && 0 <= tile.y && tile.y < self.height {
                    self.set_node_type(tile.x, tile.y, k);
                }
            }
            t = t + 1;
            proof {
                let cur_tiles = source.tiles@.take(t as int);
                assert(cur_tiles.last() == source.tiles@[t - 1]);
                assert(cur_tiles.drop_last() =~= pre_tiles);
                assert forall|x: int, y: int| self.in_range(x, y) implies #[trigger] self.type_at(
                    x,
                    y,
                ) == import_type(cur_tiles, x, y) by {
                    lemma_idx_bounds(self.width as int, self.height as int, x, y);
                    let tl = source.tiles@[t - 1];
                    if write is Some && pre.in_range(tl.x as int, tl.y as int) && tl.x == x && tl.y
                        == y {
                    } else {
                        assert(self.type_at(x, y) == pre.type_at(x, y));
                    }
                }
            }
        }
        proof {
            assert(source.tiles@.take(n as int) =~= source.tiles@);
        }
    }
}

} // verus!
