use vstd::prelude::*;
use vstd::map::*;
use vstd::pervasive::VecAdditionalExecFns;
use crate::marker::Marker;

verus! {

/// One painted cell: a grid coordinate and the marker on it.
#[derive(Clone, Copy, Debug, PartialEq, Eq, Structural)]
pub struct Tile {
    pub x: i64,
    pub y: i64,
    pub marker: Marker,
}

impl Tile {
    /// The cell's coordinate as a mathematical pair.
    pub open spec fn coord(self) -> (int, int) {
        (self.x as int, self.y as int)
    }
}

/// True iff some tile of the sequence sits at coordinate `c`.
pub open spec fn has_coord(tiles: Seq<Tile>, c: (int, int)) -> bool {
    exists|i: int| 0 <= i < tiles.len() && (#[trigger] tiles[i]).coord() == c
}

/// An index of a tile at coordinate `c`; unique when coordinates are unique.
pub open spec fn idx_of(tiles: Seq<Tile>, c: (int, int)) -> int {
    choose|i: int| 0 <= i < tiles.len() && (#[trigger] tiles[i]).coord() == c
}

/// No two tiles of the sequence share a coordinate.
pub open spec fn coords_unique(tiles: Seq<Tile>) -> bool {
    forall|i: int, j: int|
        0 <= i < j < tiles.len() ==> (#[trigger] tiles[i]).coord() != (#[trigger] tiles[j]).coord()
}

/// With unique coordinates, the chosen index of a tile's own coordinate is
/// that tile's index.
proof fn lemma_idx_unique(tiles: Seq<Tile>, i: int)
    requires
        coords_unique(tiles),
        0 <= i < tiles.len(),
    ensures
        idx_of(tiles, tiles[i].coord()) == i,
{
    let c = tiles[i].coord();
    assert(has_coord(tiles, c));
    let j = idx_of(tiles, c);
    assert(0 <= j < tiles.len() && tiles[j].coord() == c);
    if i < j {
        assert(tiles[i].coord() != tiles[j].coord());
    } else if j < i {
        assert(tiles[j].coord() != tiles[i].coord());
    }
}

/// The sparse grid: which coordinate holds which marker. A coordinate is
/// absent until first visited; once present, its marker is only ever
/// replaced, never removed. The grid is viewed as a map from coordinate to
/// marker.
#[derive(Debug, Clone, PartialEq)]
pub struct TileGrid {
    tiles: Vec<Tile>,
}

impl View for TileGrid {
    type V = Map<(int, int), Marker>;

    closed spec fn view(&self) -> Map<(int, int), Marker> {
        let tiles = self.tiles@;
        Map::new(
            |c: (int, int)| has_coord(tiles, c),
            |c: (int, int)| tiles[idx_of(tiles, c)].marker,
        )
    }
}

impl TileGrid {
    /// Well-formed: no two cells share a coordinate.
    pub closed spec fn wf(&self) -> bool {
        coords_unique(self.tiles@)
    }

    /// The number of painted cells.
    pub closed spec fn num_tiles(&self) -> nat {
        self.tiles@.len()
    }

    /// The empty grid.
    pub fn new() -> (g: TileGrid)
        ensures
            g.wf(),
            g@ == Map::<(int, int), Marker>::empty(),
            g.num_tiles() == 0,
    {
        let g = TileGrid { tiles: Vec::new() };
        proof {
            assert(g@ =~= Map::<(int, int), Marker>::empty());
        }
        g
    }

    /// The index of the cell at the coordinate, where one exists.
    fn find(&self, x: i64, y: i64) -> (r: Option<usize>)
        requires
            self.wf(),
        ensures
            r matches Some(i) ==> 0 <= i < self.tiles@.len()
                && self.tiles@[i as int].coord() == (x as int, y as int)
                && idx_of(self.tiles@, (x as int, y as int)) == i
                && self@.contains_key((x as int, y as int)),
            r is None ==> !has_coord(self.tiles@, (x as int, y as int))
                && !self@.contains_key((x as int, y as int)),
    {
        let n = self.tiles.len();
        for i in 0..n
            invariant
                self.wf(),
                n == self.tiles@.len(),
                forall|j: int|
                    0 <= j < i ==> (#[trigger] self.tiles@[j]).coord() != (x as int, y as int),
        {
            if self.tiles[i].x == x && self.tiles[i].y == y {
                proof {
                    lemma_idx_unique(self.tiles@, i as int);
                }
                return Some(i);
            }
        }
        None
    }

    /// The marker at the coordinate, or `None` where no cell exists yet.
    pub fn get(&self, x: i64, y: i64) -> (r: Option<Marker>)
        requires
            self.wf(),
        ensures
            r == if self@.contains_key((x as int, y as int)) {
                Some(self@[(x as int, y as int)])
            } else {
                None::<Marker>
            },
    {
        match self.find(x, y) {
            Some(i) => Some(self.tiles[i].marker),
            None => None,
        }
    }

    /// Paints the coordinate: creates the cell on first visit, otherwise
    /// overwrites its marker. Cells are never removed, so the domain of the
    /// grid only ever grows.
    pub fn set(&mut self, x: i64, y: i64, m: Marker)
        requires
            old(self).wf(),
        ensures
            final(self).wf(),
            final(self)@ == old(self)@.insert((x as int, y as int), m),
            old(self)@.dom().subset_of(final(self)@.dom()),
            old(self)@.contains_key((x as int, y as int))
                ==> final(self).num_tiles() == old(self).num_tiles(),
            !old(self)@.contains_key((x as int, y as int))
                ==> final(self).num_tiles() == old(self).num_tiles() + 1,
    {
        let ghost c = (x as int, y as int);
        let t = Tile { x, y, marker: m };
        match self.find(x, y) {
            Some(i) => {
                self.tiles.set(i, t);
                proof {
                    let olds = old(self).tiles@;
                    let news = self.tiles@;
                    assert forall|a: int, b: int| 0 <= a < b < news.len()
                        implies (#[trigger] news[a]).coord() != (#[trigger] news[b]).coord() by {
                        assert(news[a].coord() == olds[a].coord());
                        assert(news[b].coord() == olds[b].coord());
                    }
                    assert(coords_unique(news));
                    assert_maps_equal!(self@, old(self)@.insert(c, m), k => {
                        if k == c {
                            assert(news[i as int].coord() == c);
                            assert(has_coord(news, c));
                            lemma_idx_unique(news, i as int);
                        } else {
                            if has_coord(olds, k) {
                                let j = idx_of(olds, k);
                                assert(0 <= j < olds.len() && olds[j].coord() == k);
                                assert(j != i as int);
                                assert(news[j].coord() == k);
                                assert(has_coord(news, k));
                                lemma_idx_unique(news, j);
                                lemma_idx_unique(olds, j);
                            }
                            if has_coord(news, k) {
                                let j = idx_of(news, k);
                                assert(0 <= j < news.len() && news[j].coord() == k);
                                assert(j != i as int);
                                assert(olds[j].coord() == k);
                                assert(has_coord(olds, k));
                            }
                        }
                    });
                }
            },
            None => {
                self.tiles.push(t);
                proof {
                    let olds = old(self).tiles@;
                    let news = self.tiles@;
                    assert forall|a: int, b: int| 0 <= a < b < news.len()
                        implies (#[trigger] news[a]).coord() != (#[trigger] news[b]).coord() by {
                        if b == news.len() - 1 {
                            assert(news[a] == olds[a]);
                            assert(news[b] == t);
                            if olds[a].coord() == c {
                                assert(has_coord(olds, c));
                            }
                        } else {
                            assert(news[a] == olds[a]);
                            assert(news[b] == olds[b]);
                        }
                    }
                    assert(coords_unique(news));
                    assert_maps_equal!(self@, old(self)@.insert(c, m), k => {
                        if k == c {
                            let last = news.len() - 1;
                            assert(news[last] == t);
                            assert(has_coord(news, c));
                            lemma_idx_unique(news, last);
                        } else {
                            if has_coord(olds, k) {
                                let j = idx_of(olds, k);
                                assert(0 <= j < olds.len() && olds[j].coord() == k);
                                assert(news[j] == olds[j]);
                                assert(has_coord(news, k));
                                lemma_idx_unique(news, j);
                                lemma_idx_unique(olds, j);
                            }
                            if has_coord(news, k) {
                                let j = idx_of(news, k);
                                assert(0 <= j < news.len() && news[j].coord() == k);
                                if j == news.len() - 1 {
                                    assert(news[j] == t);
                                } else {
                                    assert(olds[j] == news[j]);
                                    assert(has_coord(olds, k));
                                }
                            }
                        }
                    });
                }
            },
        }
    }

    /// The number of painted cells.
    pub fn len(&self) -> (n: usize)
        ensures
            n == self.num_tiles(),
    {
        self.tiles.len()
    }
}

} // verus!
