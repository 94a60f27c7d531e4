use vstd::prelude::*;

use crate::pixel::Pixel;
use crate::tetromino::Tetromino;

verus! {

/// The playfield: a `width` x `height` grid of cells and the set of settled
/// (landed, not yet cleared) cells, held as a duplicate-free list of
/// (column, row) coordinates.
pub struct Field {
    pub width: u32,
    pub height: u32,
    pub pixels: Vec<Pixel>,
    pub filled_pixels: Vec<(i32, i32)>,
}

/// Some entry of `s` sits at column `x`, row `y`.
pub open spec fn seq_occupied(s: Seq<(i32, i32)>, x: int, y: int) -> bool {
    exists|i: int|
        0 <= i < s.len() && (#[trigger] s[i]).0 as int == x && s[i].1 as int == y
}

/// Some entry of the first `k` entries of `s` sits at column `x`, row `y`.
pub open spec fn seq_occupied_upto(s: Seq<(i32, i32)>, k: int, x: int, y: int) -> bool {
    exists|i: int|
        0 <= i < k && i < s.len() && (#[trigger] s[i]).0 as int == x && s[i].1 as int == y
}

impl Field {
    /// A settled cell sits at column `x`, row `y`.
    pub open spec fn occupied(self, x: int, y: int) -> bool {
        seq_occupied(self.filled_pixels@, x, y)
    }

    /// Every column of row `y` holds a settled cell.
    pub open spec fn row_complete(self, y: int) -> bool {
        forall|c: int| 0 <= c < self.width ==> self.occupied(c, y)
    }

    /// Structural invariant: positive dimensions that fit a signed
    /// coordinate, every settled cell inside the grid, and no settled cell
    /// listed twice.
    pub open spec fn wf(self) -> bool {
        &&& 1 <= self.width <= i32::MAX
        &&& 1 <= self.height <= i32::MAX
        &&& forall|i: int|
            0 <= i < self.filled_pixels@.len() ==> {
                &&& 0 <= (#[trigger] self.filled_pixels@[i]).0 < self.width
                &&& 0 <= self.filled_pixels@[i].1 < self.height
            }
        &&& forall|i: int, j: int|
            0 <= i < j < self.filled_pixels@.len() ==> self.filled_pixels@[i]
                != self.filled_pixels@[j]
    }
}

/// `post` is `pre` with every settled cell of row `row` removed and nothing
/// else changed.
pub open spec fn clear_row_spec(pre: Field, post: Field, row: int) -> bool {
    &&& post.width == pre.width
    &&& post.height == pre.height
    &&& post.pixels@ == pre.pixels@
    &&& forall|x: int, y: int|
        #![trigger post.occupied(x, y)]
        #![trigger pre.occupied(x, y)]
        post.occupied(x, y) <==> (pre.occupied(x, y) && y != row)
}

/// `post` is `pre` with every settled cell strictly above row `pivot` moved
/// down by `count` rows and every other cell left in place.
pub open spec fn collapse_spec(pre: Field, post: Field, pivot: int, count: int) -> bool {
    &&& post.width == pre.width
    &&& post.height == pre.height
    &&& post.pixels@ == pre.pixels@
    &&& forall|x: int, y: int|
        #![trigger post.occupied(x, y)]
        post.occupied(x, y) <==> ((pre.occupied(x, y) && y >= pivot) || (y - count < pivot
            && pre.occupied(x, y - count)))
}

impl Field {
    /// An empty playfield of the given dimensions, with the full grid of
    /// cell coordinates laid out column by column for rendering.
    pub fn new(width: u32, height: u32) -> (r: Field)
        requires
            1 <= width <= i32::MAX,
            1 <= height <= i32::MAX,
        ensures
            r.wf(),
            r.width == width,
            r.height == height,
            r.filled_pixels@.len() == 0,
            r.pixels@.len() == width * height,
            forall|i: int|
                0 <= i < r.pixels@.len() ==> (#[trigger] r.pixels@[i]).coordinates.0 as int == i
                    / height as int && r.pixels@[i].coordinates.1 as int == i % height as int,
    {
        let mut field = Field {
            width,
            height,
            pixels: Vec::new(),
            filled_pixels: Vec::new(),
        };
        for x in 0..width
            invariant
                field.width == width,
                field.height == height,
                field.filled_pixels@.len() == 0,
                width <= i32::MAX,
                height <= i32::MAX,
                field.pixels@.len() == x * height,
                forall|i: int|
                    0 <= i < field.pixels@.len() ==> (#[trigger] field.pixels@[i]).coordinates.0
                        as int == i / height as int && field.pixels@[i].coordinates.1 as int == i
                        % height as int,
        {
            for y in 0..height
                invariant
                    field.width == width,
                    field.height == height,
                    field.filled_pixels@.len() == 0,
                    x < width <= i32::MAX,
                    y <= height <= i32::MAX,
                    field.pixels@.len() == x * height + y,
                    forall|i: int|
                        0 <= i < field.pixels@.len() ==> (#[trigger] field.pixels@[i]).coordinates.0
                            as int == i / height as int && field.pixels@[i].coordinates.1 as int
                            == i % height as int,
            {
                proof {
                    vstd::arithmetic::div_mod::lemma_fundamental_div_mod_converse(
                        x as int * height as int + y as int,
                        height as int,
                        x as int,
                        y as int,
                    );
                }
                field.pixels.push(Pixel::new(x as i32, y as i32));
            }
            proof {
                assert(x as int * height as int + height as int == (x as int + 1) * height as int)
                    by (nonlinear_arith);
            }
        }
        field
    }

    /// True exactly when (`requested_x`, `requested_y`) is a settled cell;
    /// coordinates outside the grid are simply not settled.
    pub fn is_set(&self, requested_x: i32, requested_y: i32) -> (r: bool)
        ensures
            r == self.occupied(requested_x as int, requested_y as int),
    {
        let n = self.filled_pixels.len();
        for i in 0..n
            invariant
                n == self.filled_pixels@.len(),
                forall|j: int|
                    0 <= j < i ==> !((#[trigger] self.filled_pixels@[j]).0 == requested_x
                        && self.filled_pixels@[j].1 == requested_y),
        {
            let p = self.filled_pixels[i];
            if p.0 == requested_x && p.1 == requested_y {
                return true;
            }
        }
        false
    }

    /// Remove every settled cell of the given row; nothing shifts.
    pub fn complete_row(&mut self, row: &i32)
        requires
            old(self).wf(),
        ensures
            final(self).wf(),
            clear_row_spec(*old(self), *final(self), *row as int),
    {
        let mut kept: Vec<(i32, i32)> = Vec::new();
        let n = self.filled_pixels.len();
        for i in 0..n
            invariant
                self == old(self),
                self.wf(),
                n == self.filled_pixels@.len(),
                forall|x: int, y: int|
                    #![trigger seq_occupied(kept@, x, y)]
                    seq_occupied(kept@, x, y) <==> (seq_occupied_upto(self.filled_pixels@, i as int, x, y)
                        && y != *row as int),
                forall|j: int, l: int| 0 <= j < l < kept@.len() ==> kept@[j] != kept@[l],
                forall|j: int|
                    0 <= j < kept@.len() ==> 0 <= (#[trigger] kept@[j]).0 < self.width && 0
                        <= kept@[j].1 < self.height,
        {
            let p = self.filled_pixels[i];
            if p.1 != *row {
                proof {
                    lemma_seq_occupied_push(kept@, p);
                    assert(seq_occupied_upto(self.filled_pixels@, i + 1, p.0 as int, p.1 as int));
                    assert forall|x: int, y: int| !(p.0 as int == x && p.1 as int == y)
                        && seq_occupied_upto(self.filled_pixels@, i + 1, x, y) implies seq_occupied_upto(
                        self.filled_pixels@,
                        i as int,
                        x,
                        y,
                    ) by {
                        let l = choose|l: int|
                            0 <= l < i + 1 && l < self.filled_pixels@.len() && (
                            #[trigger] self.filled_pixels@[l]).0 as int == x
                                && self.filled_pixels@[l].1 as int == y;
                        assert(l != i);
                    }
                    assert forall|j: int| 0 <= j < kept@.len() implies kept@[j] != p by {
                        if kept@[j] == p {
                            assert(seq_occupied(kept@, p.0 as int, p.1 as int));
                            let l = choose|l: int|
                                0 <= l < i && l < self.filled_pixels@.len() && (
                                #[trigger] self.filled_pixels@[l]).0 as int == p.0 as int
                                    && self.filled_pixels@[l].1 as int == p.1 as int;
                            assert(self.filled_pixels@[l] == (
                                self.filled_pixels@[l].0,
                                self.filled_pixels@[l].1,
                            ));
                            assert(self.filled_pixels@[l] == p);
                            assert(self.filled_pixels@[l] != self.filled_pixels@[i as int]);
                        }
                    }
                }
                kept.push(p);
            } else {
                proof {
                    assert forall|x: int, y: int| y != *row as int && seq_occupied_upto(
                        self.filled_pixels@,
                        i + 1,
                        x,
                        y,
                    ) implies seq_occupied_upto(self.filled_pixels@, i as int, x, y) by {
                        let l = choose|l: int|
                            0 <= l < i + 1 && l < self.filled_pixels@.len() && (
                            #[trigger] self.filled_pixels@[l]).0 as int == x
                                && self.filled_pixels@[l].1 as int == y;
                        assert(l != i);
                    }
                }
            }
        }
        self.filled_pixels = kept;
        proof {
            assert forall|x: int, y: int| seq_occupied(old(self).filled_pixels@, x, y) implies
                seq_occupied_upto(old(self).filled_pixels@, n as int, x, y) by {
                lemma_seq_occupied_full(old(self).filled_pixels@, x, y);
            }
        }
    }
}

/// Some of the first `k` piece cells lies inside a `width` x `height` grid
/// in row `y`.
pub open spec fn piece_row_upto(
    piece: Seq<(i32, i32)>,
    k: int,
    width: int,
    height: int,
    y: int,
) -> bool {
    exists|i: int|
        0 <= i < k && i < piece.len() && (#[trigger] piece[i]).1 as int == y && 0 <= (piece[i].0
            as int) < width && 0 <= y < height
}

/// Some piece cell lies inside a `width` x `height` grid in row `y`.
pub open spec fn piece_row(piece: Seq<(i32, i32)>, width: int, height: int, y: int) -> bool {
    piece_row_upto(piece, piece.len() as int, width, height, y)
}

/// `rows` lists row `y`.
pub open spec fn rows_contain(rows: Seq<u32>, y: int) -> bool {
    exists|j: int| 0 <= j < rows.len() && (#[trigger] rows[j]) as int == y
}

/// The whole list occupies a coordinate exactly when some prefix bound by
/// the list's length does.
pub proof fn lemma_seq_occupied_full(s: Seq<(i32, i32)>, x: int, y: int)
    ensures
        seq_occupied(s, x, y) <==> seq_occupied_upto(s, s.len() as int, x, y),
{
    if seq_occupied(s, x, y) {
        let i = choose|i: int|
            0 <= i < s.len() && (#[trigger] s[i]).0 as int == x && s[i].1 as int == y;
        assert(0 <= i < s.len() as int && i < s.len() && s[i].0 as int == x && s[i].1 as int == y);
    }
    if seq_occupied_upto(s, s.len() as int, x, y) {
        let i = choose|i: int|
            0 <= i < s.len() as int && i < s.len() && (#[trigger] s[i]).0 as int == x && s[i].1
                as int == y;
        assert(0 <= i < s.len() && s[i].0 as int == x && s[i].1 as int == y);
    }
}

impl Field {
    /// Merge the piece's cells into the settled set — cells outside the grid
    /// are ignored — and report every row the merge completed, in merge
    /// order and without duplicates.
    pub fn fill_tetromino(&mut self, tetromino: &Tetromino) -> (r: Vec<u32>)
        requires
            old(self).wf(),
        ensures
            final(self).wf(),
            final(self).width == old(self).width,
            final(self).height == old(self).height,
            final(self).pixels@ == old(self).pixels@,
            forall|x: int, y: int|
                #![trigger final(self).occupied(x, y)]
                final(self).occupied(x, y) <==> (old(self).occupied(x, y) || (seq_occupied(
                    tetromino.pixels@,
                    x,
                    y,
                ) && 0 <= x < old(self).width && 0 <= y < old(self).height)),
            forall|j: int|
                0 <= j < r@.len() ==> final(self).row_complete((#[trigger] r@[j]) as int)
                    && piece_row(
                    tetromino.pixels@,
                    old(self).width as int,
                    old(self).height as int,
                    r@[j] as int,
                ),
            forall|y: int|
                #![trigger final(self).row_complete(y)]
                piece_row(tetromino.pixels@, old(self).width as int, old(self).height as int, y)
                    && final(self).row_complete(y) ==> rows_contain(r@, y),
            forall|j: int, l: int| 0 <= j < l < r@.len() ==> r@[j] != r@[l],
    {
        let mut rows_completed: Vec<u32> = Vec::new();
        let np = tetromino.pixels.len();
        let w = self.width;
        let h = self.height;
        for k in 0..np
            invariant
                self.wf(),
                self.width == old(self).width,
                self.height == old(self).height,
                self.pixels@ == old(self).pixels@,
                w == self.width,
                h == self.height,
                np == tetromino.pixels@.len(),
                forall|x: int, y: int|
                    #![trigger self.occupied(x, y)]
                    self.occupied(x, y) <==> (old(self).occupied(x, y) || (seq_occupied_upto(
                        tetromino.pixels@,
                        k as int,
                        x,
                        y,
                    ) && 0 <= x < w && 0 <= y < h)),
                forall|j: int|
                    0 <= j < rows_completed@.len() ==> self.row_complete(
                        (#[trigger] rows_completed@[j]) as int,
                    ) && piece_row_upto(
                        tetromino.pixels@,
                        k as int,
                        w as int,
                        h as int,
                        rows_completed@[j] as int,
                    ),
                forall|y: int|
                    #![trigger self.row_complete(y)]
                    piece_row_upto(tetromino.pixels@, k as int, w as int, h as int, y)
                        && self.row_complete(y) ==> rows_contain(rows_completed@, y),
                forall|j: int, l: int|
                    0 <= j < l < rows_completed@.len() ==> rows_completed@[j]
                        != rows_completed@[l],
        {
            let ghost pre = *self;
            let ghost rc0 = rows_completed@;
            let p = tetromino.pixels[k];
            if p.0 >= 0 && p.0 < w as i32 && p.1 >= 0 && p.1 < h as i32 {
                if !self.is_set(p.0, p.1) {
                    proof {
                        lemma_seq_occupied_push(pre.filled_pixels@, p);
                        assert forall|j: int| 0 <= j < pre.filled_pixels@.len() implies
                            pre.filled_pixels@[j] != p by {
                            if pre.filled_pixels@[j] == p {
                                assert(seq_occupied(pre.filled_pixels@, p.0 as int, p.1 as int));
                            }
                        }
                    }
                    self.filled_pixels.push((p.0, p.1));
                }
                proof {
                    assert forall|x: int, y: int| #![trigger self.occupied(x, y)]
                        self.occupied(x, y) <==> (pre.occupied(x, y) || (p.0 as int == x && p.1
                            as int == y)) by {
                        if p.0 as int == x && p.1 as int == y && pre.occupied(x, y) {
                            assert(self.occupied(x, y));
                        }
                    }
                    // the new occupancy matches the piece prefix one cell longer
                    assert(seq_occupied_upto(tetromino.pixels@, k + 1, p.0 as int, p.1 as int));
                    assert forall|x: int, y: int|
                        seq_occupied_upto(tetromino.pixels@, k + 1, x, y) && !(p.0 as int == x
                            && p.1 as int == y) implies seq_occupied_upto(
                        tetromino.pixels@,
                        k as int,
                        x,
                        y,
                    ) by {
                        let l = choose|l: int|
                            0 <= l < k + 1 && l < tetromino.pixels@.len() && (
                            #[trigger] tetromino.pixels@[l]).0 as int == x
                                && tetromino.pixels@[l].1 as int == y;
                        assert(l != k);
                    }
                    // rows already reported stay complete: occupancy only grew
                    assert forall|j: int| 0 <= j < rows_completed@.len() implies self.row_complete(
                        (#[trigger] rows_completed@[j]) as int,
                    ) by {
                        assert forall|c: int| 0 <= c < self.width implies self.occupied(
                            c,
                            rows_completed@[j] as int,
                        ) by {
                            assert(pre.occupied(c, rows_completed@[j] as int));
                        }
                    }
                }
                let mut row_completed = true;
                for c in 0..w
                    invariant
                        w == self.width,
                        w <= i32::MAX,
                        row_completed <==> (forall|cc: int|
                            0 <= cc < c ==> self.occupied(cc, p.1 as int)),
                {
                    if !self.is_set(c as i32, p.1) {
                        row_completed = false;
                    }
                }
                proof {
                    assert(row_completed <==> self.row_complete(p.1 as int));
                }
                if row_completed {
                    let mut already = false;
                    let mr = rows_completed.len();
                    for j in 0..mr
                        invariant
                            mr == rows_completed@.len(),
                            0 <= p.1,
                            already <==> (exists|jj: int|
                                0 <= jj < j && (#[trigger] rows_completed@[jj]) as int == p.1
                                    as int),
                    {
                        if rows_completed[j] == p.1 as u32 {
                            already = true;
                        }
                    }
                    proof {
                        assert(already <==> rows_contain(rows_completed@, p.1 as int));
                    }
                    if !already {
                        rows_completed.push(p.1 as u32);
                        proof {
                            assert(rows_completed@[rc0.len() as int] as int == p.1 as int);
                            assert(rows_contain(rows_completed@, p.1 as int));
                            assert(piece_row_upto(
                                tetromino.pixels@,
                                k + 1,
                                w as int,
                                h as int,
                                p.1 as int,
                            ));
                        }
                    }
                }
                proof {
                    // every row listed so far is a piece row of the longer prefix
                    assert forall|j: int| 0 <= j < rows_completed@.len() implies piece_row_upto(
                        tetromino.pixels@,
                        k + 1,
                        w as int,
                        h as int,
                        (#[trigger] rows_completed@[j]) as int,
                    ) by {
                        if j < rc0.len() {
                            assert(rows_completed@[j] == rc0[j]);
                            let l = choose|l: int|
                                0 <= l < k && l < tetromino.pixels@.len() && (
                                #[trigger] tetromino.pixels@[l]).1 as int == rc0[j] as int && 0
                                    <= (tetromino.pixels@[l].0 as int) < w as int && 0 <= (rc0[j] as int)
                                    < h as int;
                            assert(piece_row_upto(
                                tetromino.pixels@,
                                k + 1,
                                w as int,
                                h as int,
                                rows_completed@[j] as int,
                            ));
                        }
                    }
                    // every complete piece row of the longer prefix is listed
                    assert forall|y: int| #![trigger self.row_complete(y)]
                        piece_row_upto(tetromino.pixels@, k + 1, w as int, h as int, y)
                            && self.row_complete(y) implies rows_contain(rows_completed@, y) by {
                        let l = choose|l: int|
                            0 <= l < k + 1 && l < tetromino.pixels@.len() && (
                            #[trigger] tetromino.pixels@[l]).1 as int == y && 0
                                <= (tetromino.pixels@[l].0 as int) < w as int && 0 <= y < h as int;
                        if y == p.1 as int {
                            assert(rows_contain(rows_completed@, y));
                        } else {
                            // this row's occupancy did not change this step
                            assert forall|c: int| 0 <= c < pre.width implies pre.occupied(c, y) by {
                                assert(self.occupied(c, y));
                            }
                            assert(pre.row_complete(y));
                            assert(l != k);
                            assert(piece_row_upto(tetromino.pixels@, k as int, w as int, h as int, y));
                            assert(rows_contain(rc0, y));
                            let jj = choose|jj: int|
                                0 <= jj < rc0.len() && (#[trigger] rc0[jj]) as int == y;
                            assert(rows_completed@[jj] as int == y);
                        }
                    }
                }
            } else {
                proof {
                    assert forall|x: int, y: int|
                        seq_occupied_upto(tetromino.pixels@, k + 1, x, y) && 0 <= x < w && 0 <= y
                            < h implies seq_occupied_upto(tetromino.pixels@, k as int, x, y) by {
                        let l = choose|l: int|
                            0 <= l < k + 1 && l < tetromino.pixels@.len() && (
                            #[trigger] tetromino.pixels@[l]).0 as int == x
                                && tetromino.pixels@[l].1 as int == y;
                        assert(l != k);
                    }
                    assert forall|y: int|
                        piece_row_upto(tetromino.pixels@, k + 1, w as int, h as int, y) implies
                        piece_row_upto(tetromino.pixels@, k as int, w as int, h as int, y) by {
                        let l = choose|l: int|
                            0 <= l < k + 1 && l < tetromino.pixels@.len() && (
                            #[trigger] tetromino.pixels@[l]).1 as int == y && 0
                                <= (tetromino.pixels@[l].0 as int) < w as int && 0 <= y < h as int;
                        assert(l != k);
                    }
                }
            }
        }
        proof {
            assert forall|x: int, y: int| #![trigger seq_occupied(tetromino.pixels@, x, y)]
                seq_occupied(tetromino.pixels@, x, y) <==> seq_occupied_upto(
                tetromino.pixels@,
                np as int,
                x,
                y,
            ) by {
                lemma_seq_occupied_full(tetromino.pixels@, x, y);
            }
        }
        rows_completed
    }
}

/// Where a settled cell lands in a collapse about `pivot` by `count`: cells
/// strictly above the pivot row move down, all others stay in place.
pub open spec fn shifted_cell(p: (i32, i32), pivot: int, count: int) -> (int, int) {
    if (p.1 as int) < pivot {
        (p.0 as int, p.1 as int + count)
    } else {
        (p.0 as int, p.1 as int)
    }
}

/// Some entry of the first `k` of `s`, once collapsed, sits at (`x`, `y`).
spec fn collapsed_upto(s: Seq<(i32, i32)>, k: int, pivot: int, count: int, x: int, y: int) -> bool {
    exists|j: int|
        0 <= j < k && j < s.len() && #[trigger] shifted_cell(s[j], pivot, count) == ((x, y))
}

impl Field {
    /// Collapse the stack: every settled cell strictly above the given row
    /// moves down by `count` rows. The caller passes the smallest completed
    /// row and the number of rows cleared, so one pass drops everything by
    /// the right amount; with no row given nothing changes.
    pub fn restructure_rows(&mut self, value: Option<&u32>, count: i32)
        requires
            old(self).wf(),
            count >= 0,
            value matches Some(row) ==> *row as int + count as int <= old(self).height as int,
        ensures
            final(self).wf(),
            value is None ==> *final(self) == *old(self),
            value matches Some(row) ==> collapse_spec(
                *old(self),
                *final(self),
                *row as int,
                count as int,
            ),
    {
        match value {
            None => (),
            Some(row) => {
                let pivot = *row;
                let mut restructured: Vec<(i32, i32)> = Vec::new();
                let n = self.filled_pixels.len();
                for i in 0..n
                    invariant
                        self == old(self),
                        self.wf(),
                        count >= 0,
                        pivot as int + count as int <= self.height as int,
                        n == self.filled_pixels@.len(),
                        forall|x: int, y: int|
                            #![trigger seq_occupied(restructured@, x, y)]
                            seq_occupied(restructured@, x, y) <==> collapsed_upto(
                                self.filled_pixels@,
                                i as int,
                                pivot as int,
                                count as int,
                                x,
                                y,
                            ),
                        forall|j: int, l: int|
                            0 <= j < l < restructured@.len() ==> restructured@[j]
                                != restructured@[l],
                        forall|j: int|
                            0 <= j < restructured@.len() ==> 0 <= (
                            #[trigger] restructured@[j]).0 < self.width && 0
                                <= restructured@[j].1 < self.height,
                {
                    let p = self.filled_pixels[i];
                    let q: (i32, i32) = if p.1 < pivot as i32 {
                        (p.0, p.1 + count)
                    } else {
                        p
                    };
                    proof {
                        assert(shifted_cell(p, pivot as int, count as int) == (
                            q.0 as int,
                            q.1 as int,
                        ));
                    }
                    let m = restructured.len();
                    let mut present = false;
                    for j in 0..m
                        invariant
                            m == restructured@.len(),
                            present <==> seq_occupied_upto(
                                restructured@,
                                j as int,
                                q.0 as int,
                                q.1 as int,
                            ),
                    {
                        let e = restructured[j];
                        if e.0 == q.0 && e.1 == q.1 {
                            present = true;
                        } else {
                            proof {
                                assert forall|xx: int, yy: int|
                                    seq_occupied_upto(restructured@, j + 1, xx, yy) && !((
                                    #[trigger] restructured@[j as int]).0 as int == xx
                                        && restructured@[j as int].1 as int == yy)
                                    implies seq_occupied_upto(
                                    restructured@,
                                    j as int,
                                    xx,
                                    yy,
                                ) by {
                                    let l = choose|l: int|
                                        0 <= l < j + 1 && l < restructured@.len() && (
                                        #[trigger] restructured@[l]).0 as int == xx
                                            && restructured@[l].1 as int == yy;
                                    assert(l != j);
                                }
                            }
                        }
                    }
                    proof {
                        assert(present <==> seq_occupied(restructured@, q.0 as int, q.1 as int));
                    }
                    if !present {
                        proof {
                            lemma_seq_occupied_push(restructured@, q);
                            assert forall|j: int| 0 <= j < restructured@.len() implies
                                restructured@[j] != q by {
                                if restructured@[j] == q {
                                    assert(seq_occupied(restructured@, q.0 as int, q.1 as int));
                                }
                            }
                        }
                        restructured.push(q);
                        proof {
                            assert forall|x: int, y: int|
                                collapsed_upto(
                                    self.filled_pixels@,
                                    i + 1,
                                    pivot as int,
                                    count as int,
                                    x,
                                    y,
                                ) && !(q.0 as int == x && q.1 as int == y) implies collapsed_upto(
                                self.filled_pixels@,
                                i as int,
                                pivot as int,
                                count as int,
                                x,
                                y,
                            ) by {
                                let l = choose|l: int|
                                    0 <= l < i + 1 && l < self.filled_pixels@.len() && #[trigger]
                                    shifted_cell(self.filled_pixels@[l], pivot as int, count as int)
                                        == ((x, y));
                                assert(l != i);
                            }
                        }
                    } else {
                        proof {
                            assert forall|x: int, y: int|
                                collapsed_upto(
                                    self.filled_pixels@,
                                    i + 1,
                                    pivot as int,
                                    count as int,
                                    x,
                                    y,
                                ) implies seq_occupied(restructured@, x, y) by {
                                let l = choose|l: int|
                                    0 <= l < i + 1 && l < self.filled_pixels@.len() && #[trigger]
                                    shifted_cell(self.filled_pixels@[l], pivot as int, count as int)
                                        == ((x, y));
                                if l == i {
                                    assert(q.0 as int == x && q.1 as int == y);
                                } else {
                                    assert(collapsed_upto(
                                        self.filled_pixels@,
                                        i as int,
                                        pivot as int,
                                        count as int,
                                        x,
                                        y,
                                    ));
                                }
                            }
                        }
                    }
                }
                let ghost before = self.filled_pixels@;
                self.filled_pixels = restructured;
                proof {
                    assert forall|x: int, y: int| #![trigger self.occupied(x, y)]
                        self.occupied(x, y) <==> ((seq_occupied(before, x, y) && y >= pivot as int)
                            || (y - count < pivot as int && seq_occupied(
                            before,
                            x,
                            y - count as int,
                        ))) by {
                        if self.occupied(x, y) {
                            let j = choose|j: int|
                                0 <= j < n && j < before.len() && #[trigger] shifted_cell(
                                    before[j],
                                    pivot as int,
                                    count as int,
                                ) == ((x, y));
                            if (before[j].1 as int) < pivot as int {
                                assert(before[j].0 as int == x && before[j].1 as int == y - count);
                                assert(seq_occupied(before, x, y - count as int));
                            } else {
                                assert(before[j].0 as int == x && before[j].1 as int == y);
                                assert(seq_occupied(before, x, y));
                            }
                        }
                        if seq_occupied(before, x, y) && y >= pivot as int {
                            let j = choose|j: int|
                                0 <= j < before.len() && (#[trigger] before[j]).0 as int == x
                                    && before[j].1 as int == y;
                            assert(shifted_cell(before[j], pivot as int, count as int) == ((x, y)));
                            assert(collapsed_upto(
                                before,
                                n as int,
                                pivot as int,
                                count as int,
                                x,
                                y,
                            ));
                        }
                        if y - count < pivot as int && seq_occupied(before, x, y - count as int) {
                            let j = choose|j: int|
                                0 <= j < before.len() && (#[trigger] before[j]).0 as int == x
                                    && before[j].1 as int == y - count as int;
                            assert(shifted_cell(before[j], pivot as int, count as int) == ((x, y)));
                            assert(collapsed_upto(
                                before,
                                n as int,
                                pivot as int,
                                count as int,
                                x,
                                y,
                            ));
                        }
                    }
                }
            },
        }
    }
}

/// Pushing one entry adds exactly that coordinate to what a list occupies.
pub proof fn lemma_seq_occupied_push(s: Seq<(i32, i32)>, p: (i32, i32))
    ensures
        forall|x: int, y: int|
            #![trigger seq_occupied(s.push(p), x, y)]
            seq_occupied(s.push(p), x, y) <==> (seq_occupied(s, x, y) || (p.0 as int == x && p.1
                as int == y)),
{
    assert forall|x: int, y: int| seq_occupied(s.push(p), x, y) implies (seq_occupied(s, x, y) || (
    p.0 as int == x && p.1 as int == y)) by {
        let i = choose|i: int|
            0 <= i < s.push(p).len() && (#[trigger] s.push(p)[i]).0 as int == x && s.push(p)[i].1
                as int == y;
        if i < s.len() {
            assert(s[i] == s.push(p)[i]);
        } else {
            assert(s.push(p)[i] == p);
        }
    }
    assert forall|x: int, y: int| (seq_occupied(s, x, y) || (p.0 as int == x && p.1 as int == y))
        implies seq_occupied(s.push(p), x, y) by {
        if seq_occupied(s, x, y) {
            let i = choose|i: int|
                0 <= i < s.len() && (#[trigger] s[i]).0 as int == x && s[i].1 as int == y;
            assert(s.push(p)[i] == s[i]);
        } else {
            assert(s.push(p)[s.len() as int] == p);
        }
    }
}

} // verus!
