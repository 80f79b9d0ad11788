use vstd::arithmetic::div_mod::lemma_fundamental_div_mod;
use vstd::prelude::*;
use vstd::string::*;

use crate::coordinates::Coordinates;
use crate::error::Error;
use crate::text::{decimal, decimal_text, field, push_field};
use crate::util::get_starting_index;

verus! {

/// Each value of `0..n` stands in `s` exactly once, and no other value does.
pub open spec fn is_permutation(s: Seq<u8>, n: nat) -> bool {
    &&& s.len() == n
    &&& forall|i: int| 0 <= i < n ==> (#[trigger] s[i] as int) < n
    &&& forall|i: int, j: int| 0 <= i < n && 0 <= j < n && i != j ==> #[trigger] s[i] != #[trigger] s[j]
    &&& forall|v: int| 0 <= v < n ==> #[trigger] is_value_of(s, v)
}

/// `v` stands somewhere in `s`.
pub open spec fn is_value_of(s: Seq<u8>, v: int) -> bool {
    exists|i: int| 0 <= i < s.len() && s[i] == v
}

/// Exchanging two entries keeps a permutation a permutation.
pub proof fn lemma_swap_permutation(s: Seq<u8>, n: nat, a: int, b: int)
    requires
        is_permutation(s, n),
        0 <= a < n,
        0 <= b < n,
    ensures
        is_permutation(s.update(a, s[b]).update(b, s[a]), n),
{
    let t = s.update(a, s[b]).update(b, s[a]);
    assert forall|v: int| 0 <= v < n implies #[trigger] is_value_of(t, v) by {
        assert(is_value_of(s, v));
        let i = choose|i: int| 0 <= i < s.len() && s[i] == v;
        if i == a {
            assert(t[b] == v);
        } else if i == b {
            assert(t[a] == v);
        } else {
            assert(t[i] == v);
        }
    }
}

/// Row-major indices of the cells of an `n`-wide grid stay inside it.
proof fn lemma_index_bound(r: int, c: int, n: int)
    requires
        0 <= r < n,
        0 <= c < n,
    ensures
        0 <= r * n + c < n * n,
{
    assert(0 <= r * n + c < n * n) by (nonlinear_arith)
        requires
            0 <= r < n,
            0 <= c < n,
    ;
}

/// A row-major index splits back into its row and column.
proof fn lemma_index_split(k: int, n: int)
    requires
        0 < n,
        0 <= k < n * n,
    ensures
        0 <= k / n < n,
        0 <= k % n < n,
        (k / n) * n + k % n == k,
{
    lemma_fundamental_div_mod(k, n);
    assert((k / n) * n == n * (k / n)) by (nonlinear_arith);
    assert(0 <= k / n < n) by (nonlinear_arith)
        requires
            0 < n,
            0 <= k < n * n,
            k == n * (k / n) + (k % n),
            0 <= k % n < n,
    ;
}

/// A square grid of tiles around one blank cell (value 0), stored row by row.
#[derive(Clone, Debug, PartialEq, Eq)]
pub struct Board {
    size: u8,
    grid: Vec<u8>,
}

impl Board {
    /// The side length.
    pub closed spec fn side(&self) -> nat {
        self.size as nat
    }

    /// The cell values in row-major order.
    pub closed spec fn cells(&self) -> Seq<u8> {
        self.grid@
    }

    /// The number of cells.
    pub open spec fn area(&self) -> nat {
        self.side() * self.side()
    }

    /// The cells hold each value of `0..side²` exactly once (so exactly one blank).
    pub open spec fn wf(&self) -> bool {
        &&& self.area() <= 256
        &&& is_permutation(self.cells(), self.area())
    }

    /// The cell lies on the grid.
    pub open spec fn in_bounds(&self, p: Coordinates) -> bool {
        p.row < self.side() && p.col < self.side()
    }

    /// The row-major index of a cell.
    pub open spec fn index(&self, p: Coordinates) -> int {
        p.row * self.side() + p.col
    }

    /// The cell at a row-major index.
    pub open spec fn coords(&self, k: int) -> Coordinates {
        Coordinates { row: (k / self.side() as int) as usize, col: (k % self.side() as int) as usize }
    }

    /// Some cell holds `v`.
    pub open spec fn contains(&self, v: u8) -> bool {
        is_value_of(self.cells(), v as int)
    }

    /// The row-major index at which `v` stands (meaningful where `contains(v)`).
    pub open spec fn position(&self, v: u8) -> int {
        choose|k: int| 0 <= k < self.cells().len() && self.cells()[k] == v
    }

    /// The layout of a new board: values descending from `side² - 1` to the
    /// blank in the last cell.
    pub open spec fn is_starting(&self) -> bool {
        forall|k: int| 0 <= k < self.area() ==> #[trigger] self.cells()[k] as int == self.area() - 1 - k
    }

    /// Every cell holds one more than its row-major index, but the last, which is blank.
    pub open spec fn is_solved(&self) -> bool {
        forall|k: int|
            0 <= k < self.area() ==> #[trigger] self.cells()[k] as int == if k == self.area() - 1 {
                0
            } else {
                k + 1
            }
    }

    /// Moving `tile` is allowed: it is a tile on the board, and it sits one
    /// step from the blank along a row or a column.
    pub open spec fn is_legal(&self, tile: u8) -> bool {
        &&& tile != 0
        &&& self.contains(tile)
        &&& self.coords(self.position(tile)).orthogonal_neighbours(self.coords(self.position(0)))
    }

    /// The cells after `tile` and the blank change places.
    pub open spec fn after_move(&self, tile: u8) -> Seq<u8> {
        self.cells().update(self.position(0), tile).update(self.position(tile), 0)
    }

    /// Where a board holds a value, `position` finds it, and only there.
    pub proof fn lemma_position(&self, v: u8)
        requires
            self.wf(),
            self.contains(v),
        ensures
            0 <= self.position(v) < self.area(),
            self.cells()[self.position(v)] == v,
            forall|k: int| 0 <= k < self.area() && self.cells()[k] == v ==> k == self.position(v),
            self.in_bounds(self.coords(self.position(v))),
            self.index(self.coords(self.position(v))) == self.position(v),
    {
        let k = self.position(v);
        lemma_index_split(k, self.side() as int);
    }

    /// A board that holds a tile holds the blank too.
    pub proof fn lemma_has_blank(&self, v: u8)
        requires
            self.wf(),
            self.contains(v),
        ensures
            self.contains(0),
    {
        assert(is_value_of(self.cells(), 0));
    }

    /// A board in the starting layout: `size² - 1` in the top-left cell,
    /// descending row by row to the blank in the bottom-right one.
    pub fn new(size: u8) -> (r: Board)
        requires
            size * size <= 256,
        ensures
            r.side() == size,
            r.wf(),
            is_permutation(r.cells(), r.area()),
            r.is_starting(),
    {
        let n: usize = size as usize;
        let ghost area = (n * n) as int;
        let mut grid: Vec<u8> = Vec::with_capacity(n * n);
        let mut i: u8 = 0;
        while i < size
            invariant
                i <= size,
                n == size,
                area == n * n,
                n * n <= 256,
                grid@.len() == i * n,
                forall|k: int| 0 <= k < grid@.len() ==> #[trigger] grid@[k] as int == area - 1 - k,
            decreases size - i,
        {
            let mut j: u8 = 0;
            while j < size
                invariant
                    i < size,
                    j <= size,
                    n == size,
                    area == n * n,
                    n * n <= 256,
                    grid@.len() == i * n + j,
                    forall|k: int| 0 <= k < grid@.len() ==> #[trigger] grid@[k] as int == area - 1 - k,
                decreases size - j,
            {
                grid.push(get_starting_index(size, i, j));
                j = j + 1;
            }
            assert(grid@.len() == (i + 1) * n) by (nonlinear_arith)
                requires
                    grid@.len() == i * n + n,
            ;
            i = i + 1;
        }
        let r = Board { size, grid };
        assert forall|v: int| 0 <= v < area implies #[trigger] is_value_of(r.cells(), v) by {
            assert(r.cells()[area - 1 - v] == v);
        }
        r
    }

    /// The message of a list shorter than the board.
    pub open spec fn short_list_message(expected: nat, got: nat) -> Seq<char> {
        "not enough elements in list; expected "@ + decimal(expected) + ", got "@ + decimal(got)
    }

    /// A board filled row by row from the first `size²` values of `list`.
    /// Those values must hold each of `0..size²` exactly once.
    pub fn from_list(size: u8, list: Vec<u8>) -> (r: Result<Board, Error>)
        ensures
            r is Ok <==> list@.len() >= size * size && is_permutation(
                list@.take(size * size),
                (size * size) as nat,
            ),
            r matches Ok(b) ==> b.wf() && b.side() == size && b.cells() == list@.take(size * size),
            list@.len() < size * size ==> r is Err && r->Err_0@ == Board::short_list_message(
                (size * size) as nat,
                list@.len(),
            ),
            list@.len() >= size * size && r is Err ==> r->Err_0@
                == "list does not hold each tile value exactly once"@,
    {
        assert(size as usize * size as usize <= 255 * 255) by (nonlinear_arith)
            requires
                size <= 255,
        ;
        let area: usize = size as usize * size as usize;
        if list.len() < area {
            let mut message = String::from_str("not enough elements in list; expected ");
            let expected = decimal_text(area);
            message.append(expected.as_str());
            message.append(", got ");
            let got = decimal_text(list.len());
            message.append(got.as_str());
            return Err(Error::new(message));
        }
        let ghost values = list@.take(area as int);
        // seen[v]: whether v stands among the values read so far
        let mut seen: Vec<bool> = Vec::with_capacity(area);
        let mut v: usize = 0;
        while v < area
            invariant
                v <= area,
                seen@.len() == v,
                forall|w: int| 0 <= w < v ==> !#[trigger] seen@[w],
            decreases area - v,
        {
            seen.push(false);
            v = v + 1;
        }
        let mut k: usize = 0;
        while k < area
            invariant
                area == size * size,
                area <= list@.len(),
                values == list@.take(area as int),
                k <= area,
                seen@.len() == area,
                forall|m: int| 0 <= m < k ==> (#[trigger] list@[m] as int) < area && seen@[list@[m] as int],
                forall|m: int, q: int| 0 <= m < k && 0 <= q < k && m != q ==> #[trigger] list@[m] != #[trigger] list@[q],
                forall|w: int| 0 <= w < area && #[trigger] seen@[w] ==> exists|m: int| 0 <= m < k && list@[m] == w,
            decreases area - k,
        {
            let value = list[k] as usize;
            if value >= area || seen[value] {
                proof {
                    if value < area {
                        let m = choose|m: int| 0 <= m < k && list@[m] == value;
                        assert(values[m] == values[k as int]);
                    } else {
                        assert(values[k as int] as int >= area);
                    }
                }
                return Err(Error::new(String::from_str("list does not hold each tile value exactly once")));
            }
            seen.set(value, true);
            proof {
                assert forall|w: int| 0 <= w < area && #[trigger] seen@[w] implies exists|m: int| 0 <= m < k + 1 && list@[m] == w by {
                    if w == value {
                        assert(list@[k as int] == w);
                    } else {
                        let m = choose|m: int| 0 <= m < k && list@[m] == w;
                        assert(list@[m] == w);
                    }
                }
            }
            k = k + 1;
        }
        let mut w: usize = 0;
        while w < area
            invariant
                area == size * size,
                area <= list@.len(),
                values == list@.take(area as int),
                w <= area,
                seen@.len() == area,
                forall|m: int| 0 <= m < area ==> (#[trigger] list@[m] as int) < area && seen@[list@[m] as int],
                forall|m: int, q: int| 0 <= m < area && 0 <= q < area && m != q ==> #[trigger] list@[m] != #[trigger] list@[q],
                forall|x: int| 0 <= x < area && #[trigger] seen@[x] ==> exists|m: int| 0 <= m < area && list@[m] == x,
                forall|x: int| 0 <= x < w ==> #[trigger] seen@[x],
            decreases area - w,
        {
            if !seen[w] {
                proof {
                    if is_value_of(values, w as int) {
                        let m = choose|m: int| 0 <= m < values.len() && values[m] == w;
                        assert(seen@[list@[m] as int]);
                    }
                }
                return Err(Error::new(String::from_str("list does not hold each tile value exactly once")));
            }
            w = w + 1;
        }
        let mut grid: Vec<u8> = Vec::with_capacity(area);
        let mut k: usize = 0;
        while k < area
            invariant
                area <= list@.len(),
                k <= area,
                grid@ == list@.take(k as int),
            decreases area - k,
        {
            grid.push(list[k]);
            assert(list@.take(k as int).push(list@[k as int]) =~= list@.take(k + 1));
            k = k + 1;
        }
        proof {
            assert(grid@ =~= values);
            assert forall|x: int| 0 <= x < area implies #[trigger] is_value_of(values, x) by {
                assert(seen@[x]);
                let m = choose|m: int| 0 <= m < area && list@[m] == x;
                assert(values[m] == x);
            }
            if area > 256 {
                assert(is_value_of(values, 256));
            }
        }
        Ok(Board { size, grid })
    }

    /// The cell at which `tile` stands, or `None` where it stands nowhere.
    pub fn get_coordinates(&self, tile: u8) -> (r: Option<Coordinates>)
        requires
            self.wf(),
        ensures
            r is Some <==> self.contains(tile),
            r is Some ==> r == Some(self.coords(self.position(tile))),
            r matches Some(p) ==> self.in_bounds(p) && self.cells()[self.index(p)] == tile,
    {
        let n: usize = self.size as usize;
        let mut k: usize = 0;
        while k < self.grid.len()
            invariant
                self.wf(),
                n == self.side(),
                k <= self.grid@.len(),
                forall|m: int| 0 <= m < k ==> self.grid@[m] != tile,
            decreases self.grid@.len() - k,
        {
            if self.grid[k] == tile {
                proof {
                    self.lemma_position(tile);
                }
                return Some(Coordinates::new(k / n, k % n));
            }
            k = k + 1;
        }
        None
    }

    /// Exchanges the values of two cells.
    pub fn swap(&mut self, a: Coordinates, b: Coordinates)
        requires
            old(self).wf(),
            old(self).in_bounds(a),
            old(self).in_bounds(b),
        ensures
            final(self).wf(),
            final(self).side() == old(self).side(),
            final(self).cells() == old(self).cells().update(
                old(self).index(a),
                old(self).cells()[old(self).index(b)],
            ).update(old(self).index(b), old(self).cells()[old(self).index(a)]),
    {
        let n: usize = self.size as usize;
        proof {
            lemma_index_bound(a.row as int, a.col as int, n as int);
            lemma_index_bound(b.row as int, b.col as int, n as int);
            lemma_swap_permutation(self.cells(), self.area(), self.index(a), self.index(b));
        }
        let ia = a.row * n + a.col;
        let ib = b.row * n + b.col;
        let tmp = self.grid[ia];
        let other = self.grid[ib];
        self.grid.set(ia, other);
        self.grid.set(ib, tmp);
    }

    /// Slides `tile` into the blank cell, where that is a legal move.
    pub fn move_tile(&mut self, tile: u8) -> (r: Result<(), Error>)
        requires
            old(self).wf(),
        ensures
            final(self).wf(),
            final(self).side() == old(self).side(),
            r is Ok <==> old(self).is_legal(tile),
            r is Ok ==> final(self).cells() == old(self).after_move(tile),
            r is Err ==> final(self).cells() == old(self).cells(),
            tile == 0 ==> r is Err && r->Err_0@ == "can't move empty tile"@,
            tile != 0 && !old(self).contains(tile) ==> r is Err && r->Err_0@
                == "tile doesn't exist on board"@,
            tile != 0 && old(self).contains(tile) && !old(self).is_legal(tile) ==> r is Err
                && r->Err_0@ == "invalid move"@,
    {
        if tile == 0 {
            return Err(Error::new(String::from_str("can't move empty tile")));
        }
        let found = self.get_coordinates(tile);
        let tile_coords = match found {
            Some(p) => p,
            None => {
                return Err(Error::new(String::from_str("tile doesn't exist on board")));
            },
        };
        proof {
            self.lemma_has_blank(tile);
            self.lemma_position(tile);
            self.lemma_position(0);
        }
        // A board that holds a tile always holds the blank.
        let zero_coords = self.get_coordinates(0).unwrap();
        let same_row = tile_coords.is_same_row(zero_coords);
        let same_col = tile_coords.is_same_col(zero_coords);
        let adjacent_row = tile_coords.is_adjacent_row(zero_coords);
        let adjacent_col = tile_coords.is_adjacent_col(zero_coords);
        let is_valid_move = match (same_row, same_col, adjacent_row, adjacent_col) {
            (true, false, false, true) => true,
            (false, true, true, false) => true,
            _ => false,
        };
        if is_valid_move {
            self.swap(tile_coords, zero_coords);
            assert(self.cells() =~= old(self).after_move(tile));
            Ok(())
        } else {
            Err(Error::new(String::from_str("invalid move")))
        }
    }

    /// Whether the tiles stand in ascending row-major order, with the blank last.
    pub fn is_complete(&self) -> (r: bool)
        requires
            self.wf(),
        ensures
            r == self.is_solved(),
    {
        let area: usize = self.grid.len();
        let mut k: usize = 0;
        while k < area
            invariant
                self.wf(),
                area == self.area(),
                k <= area,
                forall|m: int|
                    0 <= m < k ==> #[trigger] self.cells()[m] as int == if m == area - 1 {
                        0
                    } else {
                        m + 1
                    },
            decreases area - k,
        {
            let expected: usize = if k == area - 1 {
                0
            } else {
                k + 1
            };
            if self.grid[k] as usize != expected {
                return false;
            }
            k = k + 1;
        }
        true
    }

    /// The side length.
    pub fn size(&self) -> (r: u8)
        ensures
            r == self.side(),
    {
        self.size
    }

    /// The value at (`row`, `col`); 0 is the blank.
    pub fn tile_at(&self, row: usize, col: usize) -> (r: u8)
        requires
            self.wf(),
            row < self.side(),
            col < self.side(),
        ensures
            r == self.cells()[row * self.side() + col],
    {
        proof {
            lemma_index_bound(row as int, col as int, self.side() as int);
        }
        self.grid[row * self.size as usize + col]
    }

    /// The column width: the number of digits of `side²`.
    pub open spec fn field_width(&self) -> nat {
        decimal(self.area()).len()
    }

    /// The first `c` cells of row `r`, rendered.
    pub open spec fn row_text(&self, r: nat, c: nat) -> Seq<char>
        decreases c,
    {
        if c == 0 {
            Seq::empty()
        } else {
            self.row_text(r, (c - 1) as nat) + field(
                self.cells()[r * self.side() + c - 1],
                self.field_width(),
            )
        }
    }

    /// The first `r` rows, each rendered and ended by a newline.
    pub open spec fn rows_text(&self, r: nat) -> Seq<char>
        decreases r,
    {
        if r == 0 {
            Seq::empty()
        } else {
            self.rows_text((r - 1) as nat) + self.row_text((r - 1) as nat, self.side()) + seq!['\n']
        }
    }

    /// The grid as text: one line per row, each cell a space and then its value
    /// right-justified to the width of `side²`, the blank left empty.
    pub fn render(&self) -> (r: String)
        requires
            self.wf(),
        ensures
            r@ == self.rows_text(self.side()),
    {
        let n: usize = self.size as usize;
        let width = decimal_text(n * n).as_str().unicode_len();
        let mut out = String::new();
        let mut i: usize = 0;
        while i < n
            invariant
                self.wf(),
                n == self.side(),
                width == self.field_width(),
                i <= n,
                out@ == self.rows_text(i as nat),
            decreases n - i,
        {
            let mut j: usize = 0;
            while j < n
                invariant
                    self.wf(),
                    n == self.side(),
                    width == self.field_width(),
                    i < n,
                    j <= n,
                    out@ == self.rows_text(i as nat) + self.row_text(i as nat, j as nat),
                decreases n - j,
            {
                proof {
                    lemma_index_bound(i as int, j as int, n as int);
                }
                push_field(&mut out, self.grid[i * n + j], width);
                assert(out@ =~= self.rows_text(i as nat) + self.row_text(i as nat, (j + 1) as nat));
                j = j + 1;
            }
            proof {
                reveal_strlit("\n");
            }
            out.append("\n");
            assert(out@ =~= self.rows_text((i + 1) as nat));
            i = i + 1;
        }
        out
    }
}

} // verus!
