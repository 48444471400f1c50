//! The tiles of the box: their colours, their places, and what a press on a
//! tile of each colour does to the box.

use vstd::prelude::*;

verus! {

/// The colour of a tile, which decides what a press on it does.
#[derive(Debug, Clone, Copy, Hash, PartialEq, Eq, Structural)]
pub enum TileColor {
    Gray,
    Black,
    Red,
    Green,
    Yellow,
    Pink,
    Violet,
    Orange,
    White,
    Blue,
}

/// A place in the box, row by row from the top left.
#[derive(Debug, Clone, Copy, Hash, PartialEq, Eq, Structural)]
pub enum TilePosition {
    TopLeft,
    TopCenter,
    TopRight,
    MiddleLeft,
    MiddleCenter,
    MiddleRight,
    BottomLeft,
    BottomCenter,
    BottomRight,
}

/// The nine places, in the order of their indices.
pub const ALL_POSITIONS: [TilePosition; 9] = [
    TilePosition::TopLeft,
    TilePosition::TopCenter,
    TilePosition::TopRight,
    TilePosition::MiddleLeft,
    TilePosition::MiddleCenter,
    TilePosition::MiddleRight,
    TilePosition::BottomLeft,
    TilePosition::BottomCenter,
    TilePosition::BottomRight,
];

/// Whether two places lie side by side in a row or a column.
pub open spec fn adjacent(p: TilePosition, q: TilePosition) -> bool {
    let rows = p.row() - q.row();
    let columns = p.column() - q.column();
    (columns == 0 && (rows == 1 || rows == -1)) || (rows == 0 && (columns == 1 || columns == -1))
}

impl TilePosition {
    /// The index of the place, from 0 at the top left to 8 at the bottom
    /// right.
    pub open spec fn index_spec(self) -> int {
        match self {
            TilePosition::TopLeft => 0,
            TilePosition::TopCenter => 1,
            TilePosition::TopRight => 2,
            TilePosition::MiddleLeft => 3,
            TilePosition::MiddleCenter => 4,
            TilePosition::MiddleRight => 5,
            TilePosition::BottomLeft => 6,
            TilePosition::BottomCenter => 7,
            TilePosition::BottomRight => 8,
        }
    }

    /// The row of the place, from 0 at the top.
    pub open spec fn row(self) -> int {
        self.index_spec() / 3
    }

    /// The column of the place, from 0 at the left.
    pub open spec fn column(self) -> int {
        self.index_spec() % 3
    }

    /// The places next to this one, in the order of their indices.
    pub open spec fn neighbors_spec(self) -> Seq<TilePosition> {
        match self {
            TilePosition::TopLeft => seq![TilePosition::TopCenter, TilePosition::MiddleLeft],
            TilePosition::TopCenter => seq![
                TilePosition::TopLeft,
                TilePosition::TopRight,
                TilePosition::MiddleCenter,
            ],
            TilePosition::TopRight => seq![TilePosition::TopCenter, TilePosition::MiddleRight],
            TilePosition::MiddleLeft => seq![
                TilePosition::TopLeft,
                TilePosition::MiddleCenter,
                TilePosition::BottomLeft,
            ],
            TilePosition::MiddleCenter => seq![
                TilePosition::TopCenter,
                TilePosition::MiddleLeft,
                TilePosition::MiddleRight,
                TilePosition::BottomCenter,
            ],
            TilePosition::MiddleRight => seq![
                TilePosition::TopRight,
                TilePosition::MiddleCenter,
                TilePosition::BottomRight,
            ],
            TilePosition::BottomLeft => seq![TilePosition::MiddleLeft, TilePosition::BottomCenter],
            TilePosition::BottomCenter => seq![
                TilePosition::MiddleCenter,
                TilePosition::BottomLeft,
                TilePosition::BottomRight,
            ],
            TilePosition::BottomRight => seq![
                TilePosition::MiddleRight,
                TilePosition::BottomCenter,
            ],
        }
    }

    /// The index of the place, from 0 at the top left to 8 at the bottom
    /// right.
    pub fn index(self) -> (i: usize)
        ensures
            i == self.index_spec(),
            i < 9,
    {
        match self {
            TilePosition::TopLeft => 0,
            TilePosition::TopCenter => 1,
            TilePosition::TopRight => 2,
            TilePosition::MiddleLeft => 3,
            TilePosition::MiddleCenter => 4,
            TilePosition::MiddleRight => 5,
            TilePosition::BottomLeft => 6,
            TilePosition::BottomCenter => 7,
            TilePosition::BottomRight => 8,
        }
    }

    /// The places that share an edge with this one, in the order of their
    /// indices.
    pub fn get_neighbors(&self) -> (neighbors: Vec<TilePosition>)
        ensures
            neighbors@ == self.neighbors_spec(),
    {
        let neighbors: Vec<TilePosition> = match self {
            TilePosition::TopLeft => vec![TilePosition::TopCenter, TilePosition::MiddleLeft],
            TilePosition::TopCenter => vec![
                TilePosition::TopLeft,
                TilePosition::TopRight,
                TilePosition::MiddleCenter,
            ],
            TilePosition::TopRight => vec![TilePosition::TopCenter, TilePosition::MiddleRight],
            TilePosition::MiddleLeft => vec![
                TilePosition::TopLeft,
                TilePosition::MiddleCenter,
                TilePosition::BottomLeft,
            ],
            TilePosition::MiddleCenter => vec![
                TilePosition::TopCenter,
                TilePosition::MiddleLeft,
                TilePosition::MiddleRight,
                TilePosition::BottomCenter,
            ],
            TilePosition::MiddleRight => vec![
                TilePosition::TopRight,
                TilePosition::MiddleCenter,
                TilePosition::BottomRight,
            ],
            TilePosition::BottomLeft => vec![TilePosition::MiddleLeft, TilePosition::BottomCenter],
            TilePosition::BottomCenter => vec![
                TilePosition::MiddleCenter,
                TilePosition::BottomLeft,
                TilePosition::BottomRight,
            ],
            TilePosition::BottomRight => vec![
                TilePosition::MiddleRight,
                TilePosition::BottomCenter,
            ],
        };
        assert(neighbors@ =~= self.neighbors_spec());
        neighbors
    }

    /// How many places share an edge with this one.
    pub fn count_neighbors(&self) -> (count: usize)
        ensures
            count == self.neighbors_spec().len(),
    {
        self.get_neighbors().len()
    }
}

/// The neighbours of a place are the places beside, above and below it, each
/// listed once, in the order of their indices.
pub proof fn lemma_neighbors_are_the_adjacent(p: TilePosition)
    ensures
        forall|q: TilePosition| p.neighbors_spec().contains(q) <==> adjacent(p, q),
        forall|a: int, b: int|
            0 <= a < b < p.neighbors_spec().len() ==> (#[trigger] p.neighbors_spec()[a]).index_spec()
                < (#[trigger] p.neighbors_spec()[b]).index_spec(),
{
    let ns = p.neighbors_spec();
    assert forall|q: TilePosition| adjacent(p, q) implies ns.contains(q) by {
        let at: int = if ns[0] == q {
            0
        } else if ns[1] == q {
            1
        } else if ns[2] == q {
            2
        } else {
            3
        };
        assert(ns[at] == q);
    }
}

/// The colour that a press on a red tile leaves in place of `color`.
pub open spec fn reddened(color: TileColor) -> TileColor {
    match color {
        TileColor::White => TileColor::Black,
        TileColor::Black => TileColor::Red,
        _ => color,
    }
}

/// `tiles` with the row `row` moved one place to the right, its last tile
/// coming round to the front.
pub open spec fn row_shifted(tiles: Seq<TileColor>, row: int) -> Seq<TileColor> {
    Seq::new(
        9,
        |i: int|
            if i / 3 == row {
                tiles[row * 3 + (i + 2) % 3]
            } else {
                tiles[i]
            },
    )
}

/// `tiles` with the tiles at `i` and `j` in each other's place.
pub open spec fn swapped(tiles: Seq<TileColor>, i: int, j: int) -> Seq<TileColor> {
    tiles.update(i, tiles[j]).update(j, tiles[i])
}

/// The nine tiles of the box.
#[derive(Debug, Clone, Copy, Hash, PartialEq, Eq)]
pub struct Tiles([TileColor; 9]);

impl View for Tiles {
    type V = Seq<TileColor>;

    /// The colours of the nine tiles, by index.
    closed spec fn view(&self) -> Seq<TileColor> {
        self.0@
    }
}

impl Tiles {
    /// A box always has nine tiles.
    pub proof fn lemma_nine_tiles(&self)
        ensures
            self@.len() == 9,
    {
    }

    /// The box with the colours of `tiles`.
    pub fn new(tiles: [TileColor; 9]) -> (r: Self)
        ensures
            r@ == tiles@,
    {
        Self(tiles)
    }

    /// The colour of the tile at `position`.
    pub fn get_color(&self, position: TilePosition) -> (color: TileColor)
        ensures
            color == self@[position.index_spec()],
    {
        self.0[position.index()]
    }

    /// Gives the tile at `position` the colour `color`.
    pub fn set_color(&mut self, position: TilePosition, color: TileColor)
        ensures
            final(self)@ == old(self)@.update(position.index_spec(), color),
    {
        self.0[position.index()] = color;
    }

    /// Puts the tiles at `pos1` and `pos2` in each other's place.
    pub fn swap(&mut self, pos1: TilePosition, pos2: TilePosition)
        ensures
            final(self)@ == swapped(old(self)@, pos1.index_spec(), pos2.index_spec()),
    {
        let newcolor1: TileColor = self.get_color(pos2);
        let newcolor2: TileColor = self.get_color(pos1);
        self.set_color(pos1, newcolor1);
        self.set_color(pos2, newcolor2);
    }

    /// Gray: the tile is an empty place, and a press on it does nothing.
    pub fn _gray_press(&self) {
    }

    /// Black: moves the tiles of the row of `pos` one place to the right.
    pub fn black_press(&mut self, pos: TilePosition)
        ensures
            final(self)@ == row_shifted(old(self)@, pos.row()),
    {
        let mut next: Tiles = self.clone();
        match pos {
            TilePosition::TopLeft | TilePosition::TopCenter | TilePosition::TopRight => {
                next.set_color(TilePosition::TopLeft, self.get_color(TilePosition::TopRight));
                next.set_color(TilePosition::TopCenter, self.get_color(TilePosition::TopLeft));
                next.set_color(TilePosition::TopRight, self.get_color(TilePosition::TopCenter));
            },
            TilePosition::MiddleLeft | TilePosition::MiddleCenter | TilePosition::MiddleRight => {
                next.set_color(TilePosition::MiddleLeft, self.get_color(TilePosition::MiddleRight));
                next.set_color(TilePosition::MiddleCenter, self.get_color(TilePosition::MiddleLeft));
                next.set_color(
                    TilePosition::MiddleRight,
                    self.get_color(TilePosition::MiddleCenter),
                );
            },
            TilePosition::BottomLeft | TilePosition::BottomCenter | TilePosition::BottomRight => {
                next.set_color(TilePosition::BottomLeft, self.get_color(TilePosition::BottomRight));
                next.set_color(TilePosition::BottomCenter, self.get_color(TilePosition::BottomLeft));
                next.set_color(
                    TilePosition::BottomRight,
                    self.get_color(TilePosition::BottomCenter),
                );
            },
        }
        assert(next@ =~= row_shifted(self@, pos.row()));
        *self = next;
    }

    /// Red: turns every white tile black and every black tile red.
    pub fn red_press(&mut self)
        ensures
            final(self)@ == old(self)@.map_values(|color: TileColor| reddened(color)),
    {
        let mut next: Tiles = self.clone();
        let mut at: usize = 0;
        while at < 9
            invariant
                at <= 9,
                next@.len() == 9,
                self@.len() == 9,
                forall|i: int| 0 <= i < at ==> next@[i] == reddened(#[trigger] self@[i]),
                forall|i: int| at <= i < 9 ==> next@[i] == #[trigger] self@[i],
            decreases 9 - at,
        {
            let pos: TilePosition = ALL_POSITIONS[at];
            if self.get_color(pos) == TileColor::White {
                next.set_color(pos, TileColor::Black);
            } else if self.get_color(pos) == TileColor::Black {
                next.set_color(pos, TileColor::Red);
            }
            at = at + 1;
        }
        assert(next@ =~= self@.map_values(|color: TileColor| reddened(color)));
        *self = next;
    }

    /// Green: the tile at `pos` changes places with the tile opposite to it,
    /// through the middle of the box.
    pub fn green_press(&mut self, pos: TilePosition)
        ensures
            final(self)@ == swapped(old(self)@, pos.index_spec(), 8 - pos.index_spec()),
    {
        let swap_pos: TilePosition = match pos {
            TilePosition::TopLeft => TilePosition::BottomRight,
            TilePosition::TopCenter => TilePosition::BottomCenter,
            TilePosition::TopRight => TilePosition::BottomLeft,
            TilePosition::MiddleLeft => TilePosition::MiddleRight,
            TilePosition::MiddleCenter => TilePosition::MiddleCenter,
            TilePosition::MiddleRight => TilePosition::MiddleLeft,
            TilePosition::BottomLeft => TilePosition::TopRight,
            TilePosition::BottomCenter => TilePosition::TopCenter,
            TilePosition::BottomRight => TilePosition::TopLeft,
        };
        self.swap(pos, swap_pos);
    }

    /// Yellow: the tile at `pos` changes places with the tile above it. In
    /// the top row nothing moves.
    pub fn yellow_press(&mut self, pos: TilePosition)
        ensures
            pos.row() > 0 ==> final(self)@ == swapped(
                old(self)@,
                pos.index_spec(),
                pos.index_spec() - 3,
            ),
            pos.row() == 0 ==> final(self)@ == old(self)@,
    {
        let swap_pos: TilePosition = match pos {
            TilePosition::MiddleLeft => TilePosition::TopLeft,
            TilePosition::MiddleCenter => TilePosition::TopCenter,
            TilePosition::MiddleRight => TilePosition::TopRight,
            TilePosition::BottomLeft => TilePosition::MiddleLeft,
            TilePosition::BottomCenter => TilePosition::MiddleCenter,
            TilePosition::BottomRight => TilePosition::MiddleRight,
            _ => pos,
        };
        self.swap(pos, swap_pos);
        assert(pos.row() == 0 ==> self@ =~= old(self)@);
    }

    /// White: the tile at `pos` turns gray, whatever lies next to it.
    pub fn white_press(&mut self, pos: TilePosition)
        ensures
            final(self)@ == old(self)@.update(pos.index_spec(), TileColor::Gray),
    {
        let neighbors: Vec<TilePosition> = pos.get_neighbors();
        let mut at: usize = 0;
        while at < neighbors.len()
            invariant
                at <= neighbors.len(),
                neighbors@ == pos.neighbors_spec(),
                self@.len() == 9,
                forall|i: int| 0 <= i < 9 && i != pos.index_spec() ==> self@[i] == old(self)@[i],
            decreases neighbors.len() - at,
        {
            if self.get_color(neighbors[at]) == TileColor::Gray {
                self.set_color(pos, TileColor::White);
            }
            at = at + 1;
        }
        self.set_color(pos, TileColor::Gray);
        assert(self@ =~= old(self)@.update(pos.index_spec(), TileColor::Gray));
    }

    /// Blue: the tile at `pos` takes the colour of the tile in the middle of
    /// the box.
    pub fn blue_press(&mut self, pos: TilePosition)
        ensures
            final(self)@ == old(self)@.update(
                pos.index_spec(),
                old(self)@[TilePosition::MiddleCenter.index_spec()],
            ),
    {
        let color: TileColor = self.get_color(TilePosition::MiddleCenter);
        self.set_color(pos, color);
    }

    /// Violet: the tile at `pos` changes places with the tile below it. In
    /// the bottom row nothing moves.
    pub fn violet_press(&mut self, pos: TilePosition)
        ensures
            pos.row() < 2 ==> final(self)@ == swapped(
                old(self)@,
                pos.index_spec(),
                pos.index_spec() + 3,
            ),
            pos.row() == 2 ==> final(self)@ == old(self)@,
    {
        let swap_pos: TilePosition = match pos {
            TilePosition::TopLeft => TilePosition::MiddleLeft,
            TilePosition::TopCenter => TilePosition::MiddleCenter,
            TilePosition::TopRight => TilePosition::MiddleRight,
            TilePosition::MiddleLeft => TilePosition::BottomLeft,
            TilePosition::MiddleCenter => TilePosition::BottomCenter,
            TilePosition::MiddleRight => TilePosition::BottomRight,
            _ => pos,
        };
        self.swap(pos, swap_pos);
        assert(pos.row() == 2 ==> self@ =~= old(self)@);
    }
}

} // verus!
