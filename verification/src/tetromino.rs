use vstd::prelude::*;

use rand::seq::SliceRandom;

verus! {

/// The five tetromino kinds of the shape catalog.
#[derive(Clone, Copy, PartialEq, Eq, Structural, Debug)]
pub enum TetrominoType {
    STRAIGHT,
    SQUARE,
    T,
    L,
    SKEW,
}

/// The active falling piece: four absolute cells, a rotation pivot
/// (`center`), its kind, and — for the Straight kind only — the index of the
/// current pre-tabulated rotation state.
pub struct Tetromino {
    pub pixels: Vec<(i32, i32)>,
    pub center: (i32, i32),
    pub tetromino_type: TetrominoType,
    pub straight_tetromino_index: Option<usize>,
}

/// The piece's cells as mathematical integer pairs.
pub open spec fn cells_of(pixels: Seq<(i32, i32)>) -> Seq<(int, int)> {
    pixels.map_values(|p: (i32, i32)| (p.0 as int, p.1 as int))
}

/// Every cell translated by (`dx`, `dy`).
pub open spec fn shifted(cells: Seq<(int, int)>, dx: int, dy: int) -> Seq<(int, int)> {
    cells.map_values(|p: (int, int)| (p.0 + dx, p.1 + dy))
}

/// One quarter turn of a single cell about the pivot `c`.
pub open spec fn rotated_cell(c: (int, int), p: (int, int)) -> (int, int) {
    (c.0 - (p.1 - c.1), c.1 + (p.0 - c.0))
}

/// One quarter turn of every cell about the pivot `c`.
pub open spec fn rotated(c: (int, int), cells: Seq<(int, int)>) -> Seq<(int, int)> {
    cells.map_values(|p: (int, int)| rotated_cell(c, p))
}

/// A move one column left would put some cell at a negative column.
pub open spec fn at_left_wall(cells: Seq<(int, int)>) -> bool {
    exists|i: int| 0 <= i < cells.len() && (#[trigger] cells[i]).0 <= 0
}

/// A move one column right would put the rightmost cell exactly at `width`.
pub open spec fn at_right_wall(cells: Seq<(int, int)>, width: int) -> bool {
    &&& exists|i: int| 0 <= i < cells.len() && (#[trigger] cells[i]).0 == width - 1
    &&& forall|i: int| 0 <= i < cells.len() ==> (#[trigger] cells[i]).0 <= width - 1
}

/// The lowest cell sits exactly in row `row`.
pub open spec fn max_row_is(cells: Seq<(int, int)>, row: int) -> bool {
    &&& exists|i: int| 0 <= i < cells.len() && (#[trigger] cells[i]).1 == row
    &&& forall|i: int| 0 <= i < cells.len() ==> (#[trigger] cells[i]).1 <= row
}

/// The four pre-tabulated absolute layouts of the Straight kind about `c`.
pub open spec fn straight_layout(c: (int, int), index: int) -> Seq<(int, int)> {
    if index == 0 {
        seq![(c.0 - 2, c.1), (c.0 - 1, c.1), (c.0, c.1), (c.0 + 1, c.1)]
    } else if index == 1 {
        seq![(c.0, c.1 - 1), (c.0, c.1), (c.0, c.1 + 1), (c.0, c.1 + 2)]
    } else if index == 2 {
        seq![(c.0 - 2, c.1 + 1), (c.0 - 1, c.1 + 1), (c.0, c.1 + 1), (c.0 + 1, c.1 + 1)]
    } else {
        seq![(c.0 - 1, c.1 - 1), (c.0 - 1, c.1), (c.0 - 1, c.1 + 1), (c.0 - 1, c.1 + 2)]
    }
}

/// Spawn layout of the Square kind, centered on column `sp`.
pub open spec fn square_layout(sp: int) -> Seq<(int, int)> {
    seq![(sp, 0), (sp, 1), (sp - 1, 0), (sp - 1, 1)]
}

/// Spawn layout of the T kind.
pub open spec fn t_layout(sp: int) -> Seq<(int, int)> {
    seq![(sp - 1, 0), (sp, 0), (sp + 1, 0), (sp, 1)]
}

/// Spawn layout of the L kind.
pub open spec fn l_layout(sp: int) -> Seq<(int, int)> {
    seq![(sp - 1, 0), (sp - 1, 1), (sp, 1), (sp + 1, 1)]
}

/// Spawn layout of the Skew kind.
pub open spec fn skew_layout(sp: int) -> Seq<(int, int)> {
    seq![(sp, 0), (sp + 1, 0), (sp - 1, 1), (sp, 1)]
}

/// The rotation pivot each kind spawns with, for start column `sp`.
pub open spec fn spec_center(kind: TetrominoType, sp: int) -> (int, int) {
    match kind {
        TetrominoType::STRAIGHT => (sp - 1, 1),
        TetrominoType::SQUARE => (sp, 0),
        TetrominoType::T => (sp, 0),
        TetrominoType::L => (sp, 1),
        TetrominoType::SKEW => (sp, 1),
    }
}

/// The absolute cells each kind spawns with, for start column `sp`.
pub open spec fn spawn_layout(kind: TetrominoType, sp: int) -> Seq<(int, int)> {
    match kind {
        TetrominoType::STRAIGHT => straight_layout((sp, 0), 0),
        TetrominoType::SQUARE => square_layout(sp),
        TetrominoType::T => t_layout(sp),
        TetrominoType::L => l_layout(sp),
        TetrominoType::SKEW => skew_layout(sp),
    }
}

impl Tetromino {
    /// The piece's cells as mathematical integer pairs.
    pub open spec fn cells(self) -> Seq<(int, int)> {
        cells_of(self.pixels@)
    }

    /// The pivot as a mathematical integer pair.
    pub open spec fn center_int(self) -> (int, int) {
        (self.center.0 as int, self.center.1 as int)
    }

    /// Structural invariant: four cells, and a rotation-state index exactly
    /// for the Straight kind, always one of the four tabulated states.
    pub open spec fn wf(self) -> bool {
        &&& self.pixels@.len() == 4
        &&& (self.tetromino_type is STRAIGHT <==> self.straight_tetromino_index is Some)
        &&& (self.straight_tetromino_index matches Some(i) ==> i < 4)
    }

    /// A freshly spawned piece of kind `kind` on a field `width` columns wide.
    pub open spec fn is_spawn_of(self, kind: TetrominoType, width: int) -> bool {
        let sp = width / 2;
        &&& self.tetromino_type == kind
        &&& self.center_int() == spec_center(kind, sp)
        &&& self.cells() == spawn_layout(kind, sp)
        &&& self.straight_tetromino_index == (if kind is STRAIGHT {
            Some(0usize)
        } else {
            None::<usize>
        })
    }
}

/// The piece `post` is `pre` with every cell and the pivot translated by
/// (`dx`, `dy`); kind and rotation state are untouched.
pub open spec fn piece_shifted(pre: Tetromino, post: Tetromino, dx: int, dy: int) -> bool {
    &&& post.pixels@.len() == pre.pixels@.len()
    &&& cells_of(post.pixels@) == shifted(cells_of(pre.pixels@), dx, dy)
    &&& post.center.0 as int == pre.center.0 + dx
    &&& post.center.1 as int == pre.center.1 + dy
    &&& post.tetromino_type == pre.tetromino_type
    &&& post.straight_tetromino_index == pre.straight_tetromino_index
}

/// The piece `post` is `pre`, field for field.
pub open spec fn piece_unchanged(pre: Tetromino, post: Tetromino) -> bool {
    &&& post.pixels@ == pre.pixels@
    &&& post.center == pre.center
    &&& post.tetromino_type == pre.tetromino_type
    &&& post.straight_tetromino_index == pre.straight_tetromino_index
}

/// What a left move does: a silent no-op at the left wall, otherwise a
/// one-column shift of cells and pivot.
pub open spec fn move_left_spec(pre: Tetromino, post: Tetromino) -> bool {
    if at_left_wall(cells_of(pre.pixels@)) {
        piece_unchanged(pre, post)
    } else {
        piece_shifted(pre, post, -1, 0)
    }
}

/// What a right move does: a silent no-op at the right wall, otherwise a
/// one-column shift of cells and pivot.
pub open spec fn move_right_spec(pre: Tetromino, post: Tetromino, width: int) -> bool {
    if at_right_wall(cells_of(pre.pixels@), width) {
        piece_unchanged(pre, post)
    } else {
        piece_shifted(pre, post, 1, 0)
    }
}

/// What a rotation does: a no-op for the Square kind, the next tabulated
/// layout for the Straight kind, a quarter turn about the pivot otherwise.
pub open spec fn transform_spec(pre: Tetromino, post: Tetromino) -> bool {
    match pre.tetromino_type {
        TetrominoType::SQUARE => piece_unchanged(pre, post),
        TetrominoType::STRAIGHT => {
            let i = pre.straight_tetromino_index->Some_0;
            let ni: usize = if i != 3 {
                (i + 1) as usize
            } else {
                0
            };
            &&& cells_of(post.pixels@) == straight_layout(pre.center_int(), ni as int)
            &&& post.center == pre.center
            &&& post.tetromino_type == pre.tetromino_type
            &&& post.straight_tetromino_index == Some(ni)
        },
        _ => {
            &&& cells_of(post.pixels@) == rotated(pre.center_int(), cells_of(pre.pixels@))
            &&& post.center == pre.center
            &&& post.tetromino_type == pre.tetromino_type
            &&& post.straight_tetromino_index == pre.straight_tetromino_index
        },
    }
}

impl Tetromino {
    /// True exactly when (`requested_x`, `requested_y`) is one of the
    /// piece's cells.
    pub fn is_set(&self, requested_x: i32, requested_y: i32) -> (r: bool)
        ensures
            r == self.pixels@.contains((requested_x, requested_y)),
    {
        let n = self.pixels.len();
        for i in 0..n
            invariant
                n == self.pixels@.len(),
                forall|j: int|
                    0 <= j < i ==> (#[trigger] self.pixels@[j]) != (requested_x, requested_y),
        {
            let p = self.pixels[i];
            if p.0 == requested_x && p.1 == requested_y {
                proof {
                    assert(self.pixels@[i as int] == (requested_x, requested_y));
                }
                return true;
            }
        }
        proof {
            if self.pixels@.contains((requested_x, requested_y)) {
                let j = choose|j: int|
                    0 <= j < self.pixels@.len() && self.pixels@[j] == (requested_x, requested_y);
                assert(self.pixels@[j] != (requested_x, requested_y));
            }
        }
        false
    }

    /// Drop the piece one row and report whether it now rests on the floor:
    /// true exactly when its lowest cell reached row `field_height - 1`.
    pub fn move_next(&mut self, field_height: u32) -> (r: Result<bool, &'static str>)
        requires
            old(self).wf(),
            field_height <= i32::MAX,
            old(self).center.1 < i32::MAX,
            forall|i: int|
                0 <= i < old(self).pixels@.len() ==> (#[trigger] old(self).pixels@[i]).1
                    < i32::MAX,
        ensures
            r is Ok,
            final(self).wf(),
            piece_shifted(*old(self), *final(self), 0, 1),
            r->Ok_0 == max_row_is(cells_of(final(self).pixels@), field_height as int - 1),
    {
        let n = self.pixels.len();
        if n == 0 {
            return Err("Could not determine new max y for tetromino");
        }
        let mut new_max_y: i32 = self.pixels[0].1 + 1;
        for i in 1..n
            invariant
                n == self.pixels@.len(),
                1 <= n,
                forall|j: int|
                    0 <= j < n ==> (#[trigger] self.pixels@[j]).1 < i32::MAX,
                exists|j: int| 0 <= j < i && new_max_y == (#[trigger] self.pixels@[j]).1 + 1,
                forall|j: int| 0 <= j < i ==> (#[trigger] self.pixels@[j]).1 + 1 <= new_max_y,
        {
            let v = self.pixels[i].1 + 1;
            if v > new_max_y {
                new_max_y = v;
            }
        }
        let mut moved: Vec<(i32, i32)> = Vec::new();
        for i in 0..n
            invariant
                n == self.pixels@.len(),
                forall|j: int|
                    0 <= j < n ==> (#[trigger] self.pixels@[j]).1 < i32::MAX,
                moved@.len() == i,
                forall|j: int|
                    0 <= j < i ==> (#[trigger] moved@[j]).0 == self.pixels@[j].0 && moved@[j].1
                        as int == self.pixels@[j].1 + 1,
        {
            let p = self.pixels[i];
            moved.push((p.0, p.1 + 1));
        }
        let ghost pre = *self;
        self.pixels = moved;
        self.center = (self.center.0, self.center.1 + 1);
        proof {
            assert(cells_of(self.pixels@) =~= shifted(cells_of(pre.pixels@), 0, 1));
        }
        let landed = new_max_y == field_height as i32 - 1;
        proof {
            let cells = cells_of(self.pixels@);
            let j0 = choose|j: int| 0 <= j < n && new_max_y == (#[trigger] pre.pixels@[j]).1 + 1;
            assert((#[trigger] cells[j0]).1 == new_max_y as int);
            if landed {
                assert(max_row_is(cells, field_height as int - 1));
            } else {
                if max_row_is(cells, field_height as int - 1) {
                    let j = choose|j: int|
                        0 <= j < cells.len() && (#[trigger] cells[j]).1 == field_height as int - 1;
                    assert(cells[j].1 <= new_max_y as int);
                    assert(cells[j0].1 <= field_height as int - 1);
                }
            }
        }
        Ok(landed)
    }

    /// Shift the piece one column left, unless some cell already sits at
    /// column zero or further left, in which case nothing changes.
    pub fn move_left(&mut self) -> (r: Result<(), &'static str>)
        requires
            old(self).wf(),
            !at_left_wall(cells_of(old(self).pixels@)) ==> old(self).center.0 > i32::MIN,
            forall|i: int|
                0 <= i < old(self).pixels@.len() ==> (#[trigger] old(self).pixels@[i]).0
                    > i32::MIN,
        ensures
            r is Ok,
            final(self).wf(),
            move_left_spec(*old(self), *final(self)),
    {
        let n = self.pixels.len();
        if n == 0 {
            return Err("Could not determine new min x for tetromino");
        }
        let mut new_min_x: i32 = self.pixels[0].0 - 1;
        for i in 1..n
            invariant
                n == self.pixels@.len(),
                1 <= n,
                forall|j: int|
                    0 <= j < n ==> (#[trigger] self.pixels@[j]).0 > i32::MIN,
                exists|j: int| 0 <= j < i && new_min_x == (#[trigger] self.pixels@[j]).0 - 1,
                forall|j: int| 0 <= j < i ==> (#[trigger] self.pixels@[j]).0 - 1 >= new_min_x,
        {
            let v = self.pixels[i].0 - 1;
            if v < new_min_x {
                new_min_x = v;
            }
        }
        proof {
            let cells = cells_of(self.pixels@);
            let j0 = choose|j: int| 0 <= j < n && new_min_x == (#[trigger] self.pixels@[j]).0 - 1;
            assert((#[trigger] cells[j0]).0 == new_min_x + 1);
            if new_min_x < 0 {
                assert(at_left_wall(cells));
            } else {
                if at_left_wall(cells) {
                    let j = choose|j: int| 0 <= j < cells.len() && (#[trigger] cells[j]).0 <= 0;
                    assert(self.pixels@[j].0 - 1 >= new_min_x);
                }
            }
        }
        if new_min_x < 0 {
            return Ok(());
        }
        let mut moved: Vec<(i32, i32)> = Vec::new();
        for i in 0..n
            invariant
                n == self.pixels@.len(),
                forall|j: int|
                    0 <= j < n ==> (#[trigger] self.pixels@[j]).0 > i32::MIN,
                moved@.len() == i,
                forall|j: int|
                    0 <= j < i ==> (#[trigger] moved@[j]).0 as int == self.pixels@[j].0 - 1
                        && moved@[j].1 == self.pixels@[j].1,
        {
            let p = self.pixels[i];
            moved.push((p.0 - 1, p.1));
        }
        let ghost pre = *self;
        self.pixels = moved;
        self.center = (self.center.0 - 1, self.center.1);
        proof {
            assert(cells_of(self.pixels@) =~= shifted(cells_of(pre.pixels@), -1, 0));
        }
        Ok(())
    }

    /// Shift the piece one column right, unless its rightmost cell already
    /// sits at column `field_width - 1`, in which case nothing changes.
    pub fn move_right(&mut self, field_width: u32) -> (r: Result<(), &'static str>)
        requires
            old(self).wf(),
            field_width <= i32::MAX,
            !at_right_wall(cells_of(old(self).pixels@), field_width as int) ==> old(
                self,
            ).center.0 < i32::MAX,
            forall|i: int|
                0 <= i < old(self).pixels@.len() ==> (#[trigger] old(self).pixels@[i]).0
                    < i32::MAX,
        ensures
            r is Ok,
            final(self).wf(),
            move_right_spec(*old(self), *final(self), field_width as int),
    {
        let n = self.pixels.len();
        if n == 0 {
            return Err("Could not determine new max x for tetromino");
        }
        let mut new_max_x: i32 = self.pixels[0].0 + 1;
        for i in 1..n
            invariant
                n == self.pixels@.len(),
                1 <= n,
                forall|j: int|
                    0 <= j < n ==> (#[trigger] self.pixels@[j]).0 < i32::MAX,
                exists|j: int| 0 <= j < i && new_max_x == (#[trigger] self.pixels@[j]).0 + 1,
                forall|j: int| 0 <= j < i ==> (#[trigger] self.pixels@[j]).0 + 1 <= new_max_x,
        {
            let v = self.pixels[i].0 + 1;
            if v > new_max_x {
                new_max_x = v;
            }
        }
        let blocked = new_max_x == field_width as i32;
        proof {
            let cells = cells_of(self.pixels@);
            let j0 = choose|j: int| 0 <= j < n && new_max_x == (#[trigger] self.pixels@[j]).0 + 1;
            assert((#[trigger] cells[j0]).0 == new_max_x - 1);
            if blocked {
                assert(at_right_wall(cells, field_width as int));
            } else {
                if at_right_wall(cells, field_width as int) {
                    let j = choose|j: int|
                        0 <= j < cells.len() && (#[trigger] cells[j]).0 == field_width as int - 1;
                    assert(self.pixels@[j].0 + 1 <= new_max_x);
                    assert(cells[j0].0 <= field_width as int - 1);
                }
            }
        }
        if blocked {
            return Ok(());
        }
        let mut moved: Vec<(i32, i32)> = Vec::new();
        for i in 0..n
            invariant
                n == self.pixels@.len(),
                forall|j: int|
                    0 <= j < n ==> (#[trigger] self.pixels@[j]).0 < i32::MAX,
                moved@.len() == i,
                forall|j: int|
                    0 <= j < i ==> (#[trigger] moved@[j]).0 as int == self.pixels@[j].0 + 1
                        && moved@[j].1 == self.pixels@[j].1,
        {
            let p = self.pixels[i];
            moved.push((p.0 + 1, p.1));
        }
        let ghost pre = *self;
        self.pixels = moved;
        self.center = (self.center.0 + 1, self.center.1);
        proof {
            assert(cells_of(self.pixels@) =~= shifted(cells_of(pre.pixels@), 1, 0));
        }
        Ok(())
    }

    /// True exactly when some piece cell has a settled cell directly
    /// beneath it.
    pub fn has_collision(&mut self, field: &crate::field::Field) -> (r: bool)
        requires
            forall|i: int|
                0 <= i < old(self).pixels@.len() ==> (#[trigger] old(self).pixels@[i]).1
                    < i32::MAX,
        ensures
            *final(self) == *old(self),
            r == exists|i: int|
                0 <= i < old(self).pixels@.len() && field.occupied(
                    (#[trigger] old(self).pixels@[i]).0 as int,
                    old(self).pixels@[i].1 + 1,
                ),
    {
        let n = self.pixels.len();
        for i in 0..n
            invariant
                n == self.pixels@.len(),
                forall|j: int|
                    0 <= j < n ==> (#[trigger] self.pixels@[j]).1 < i32::MAX,
                forall|j: int|
                    0 <= j < i ==> !field.occupied(
                        (#[trigger] self.pixels@[j]).0 as int,
                        self.pixels@[j].1 + 1,
                    ),
        {
            let coord = self.pixels[i];
            if field.is_set(coord.0, coord.1 + 1) {
                return true;
            }
        }
        false
    }
}

impl Tetromino {
    /// Rotate the piece: a no-op for the Square kind, the next tabulated
    /// layout for the Straight kind, a quarter turn about the pivot for the
    /// T, L and Skew kinds. Board bounds and settled cells are not
    /// consulted; a rotation is accepted as-is.
    pub fn transform(&mut self) -> (r: Result<(), &'static str>)
        requires
            old(self).wf(),
            old(self).tetromino_type is STRAIGHT ==> {
                &&& old(self).center.0 - 2 >= i32::MIN
                &&& old(self).center.0 + 1 <= i32::MAX
                &&& old(self).center.1 - 1 >= i32::MIN
                &&& old(self).center.1 + 2 <= i32::MAX
            },
            (old(self).tetromino_type is T || old(self).tetromino_type is L
                || old(self).tetromino_type is SKEW) ==> forall|i: int|
                0 <= i < old(self).pixels@.len() ==> {
                    let p = #[trigger] old(self).pixels@[i];
                    &&& i32::MIN <= p.0 - old(self).center.0 <= i32::MAX
                    &&& i32::MIN <= p.1 - old(self).center.1 <= i32::MAX
                    &&& i32::MIN <= old(self).center.0 - (p.1 - old(self).center.1) <= i32::MAX
                    &&& i32::MIN <= old(self).center.1 + (p.0 - old(self).center.0) <= i32::MAX
                },
        ensures
            r is Ok,
            final(self).wf(),
            transform_spec(*old(self), *final(self)),
    {
        match self.tetromino_type {
            TetrominoType::SQUARE => Ok(()),
            TetrominoType::STRAIGHT => match self.straight_tetromino_index {
                Some(index) => {
                    let incremented_index: usize = if index != 3 {
                        index + 1
                    } else {
                        0
                    };
                    self.pixels = tetromino_straight_options(self.center, incremented_index);
                    self.straight_tetromino_index = Some(incremented_index);
                    Ok(())
                },
                None => Err("Straight tetromino index missing from tetromino."),
            },
            _ => {
                let c = self.center;
                let n = self.pixels.len();
                let mut rotated_pixels: Vec<(i32, i32)> = Vec::new();
                for i in 0..n
                    invariant
                        n == self.pixels@.len(),
                        c == self.center,
                        forall|j: int|
                            0 <= j < n ==> {
                                let p = #[trigger] self.pixels@[j];
                                &&& i32::MIN <= p.0 - c.0 <= i32::MAX
                                &&& i32::MIN <= p.1 - c.1 <= i32::MAX
                                &&& i32::MIN <= c.0 - (p.1 - c.1) <= i32::MAX
                                &&& i32::MIN <= c.1 + (p.0 - c.0) <= i32::MAX
                            },
                        rotated_pixels@.len() == i,
                        forall|j: int|
                            0 <= j < i ==> ((#[trigger] rotated_pixels@[j]).0 as int,
                            rotated_pixels@[j].1 as int) == rotated_cell(
                                (c.0 as int, c.1 as int),
                                (self.pixels@[j].0 as int, self.pixels@[j].1 as int),
                            ),
                {
                    let p = self.pixels[i];
                    let x = p.0 - c.0;
                    let y = p.1 - c.1;
                    let transform_x = c.0 - y;
                    let transform_y = c.1 + x;
                    rotated_pixels.push((transform_x, transform_y));
                }
                let ghost pre = *self;
                self.pixels = rotated_pixels;
                proof {
                    assert(cells_of(self.pixels@) =~= rotated(
                        pre.center_int(),
                        cells_of(pre.pixels@),
                    ));
                }
                Ok(())
            },
        }
    }
}

/// The spawn pivot for the given kind at start column `start_point`.
pub fn get_center(start_point: i32, tetromino_type: TetrominoType) -> (r: (i32, i32))
    requires
        start_point > i32::MIN,
    ensures
        (r.0 as int, r.1 as int) == spec_center(tetromino_type, start_point as int),
{
    match tetromino_type {
        TetrominoType::STRAIGHT => (start_point - 1, 1),
        TetrominoType::SQUARE => (start_point, 0),
        TetrominoType::T => (start_point, 0),
        TetrominoType::L => (start_point, 1),
        TetrominoType::SKEW => (start_point, 1),
    }
}

/// One of the four tabulated Straight layouts about `starting_point`.
pub fn tetromino_straight_options(starting_point: (i32, i32), index: usize) -> (r: Vec<(i32, i32)>)
    requires
        index < 4,
        starting_point.0 - 2 >= i32::MIN,
        starting_point.0 + 1 <= i32::MAX,
        starting_point.1 - 1 >= i32::MIN,
        starting_point.1 + 2 <= i32::MAX,
    ensures
        r@.len() == 4,
        cells_of(r@) == straight_layout(
            (starting_point.0 as int, starting_point.1 as int),
            index as int,
        ),
{
    let c = starting_point;
    let mut r: Vec<(i32, i32)> = Vec::new();
    if index == 0 {
        r.push((c.0 - 2, c.1));
        r.push((c.0 - 1, c.1));
        r.push((c.0, c.1));
        r.push((c.0 + 1, c.1));
    } else if index == 1 {
        r.push((c.0, c.1 - 1));
        r.push((c.0, c.1));
        r.push((c.0, c.1 + 1));
        r.push((c.0, c.1 + 2));
    } else if index == 2 {
        r.push((c.0 - 2, c.1 + 1));
        r.push((c.0 - 1, c.1 + 1));
        r.push((c.0, c.1 + 1));
        r.push((c.0 + 1, c.1 + 1));
    } else {
        r.push((c.0 - 1, c.1 - 1));
        r.push((c.0 - 1, c.1));
        r.push((c.0 - 1, c.1 + 1));
        r.push((c.0 - 1, c.1 + 2));
    }
    proof {
        assert(cells_of(r@) =~= straight_layout(
            (starting_point.0 as int, starting_point.1 as int),
            index as int,
        ));
    }
    r
}

/// The Square kind's spawn cells at start column `starting_point`.
pub fn tetromino_square(starting_point: i32) -> (r: Vec<(i32, i32)>)
    requires
        starting_point > i32::MIN,
    ensures
        r@.len() == 4,
        cells_of(r@) == square_layout(starting_point as int),
{
    let mut r: Vec<(i32, i32)> = Vec::new();
    r.push((starting_point, 0));
    r.push((starting_point, 1));
    r.push((starting_point - 1, 0));
    r.push((starting_point - 1, 1));
    proof {
        assert(cells_of(r@) =~= square_layout(starting_point as int));
    }
    r
}

/// The T kind's spawn cells at start column `starting_point`.
pub fn tetromino_t(starting_point: i32) -> (r: Vec<(i32, i32)>)
    requires
        i32::MIN < starting_point < i32::MAX,
    ensures
        r@.len() == 4,
        cells_of(r@) == t_layout(starting_point as int),
{
    let mut r: Vec<(i32, i32)> = Vec::new();
    r.push((starting_point - 1, 0));
    r.push((starting_point, 0));
    r.push((starting_point + 1, 0));
    r.push((starting_point, 1));
    proof {
        assert(cells_of(r@) =~= t_layout(starting_point as int));
    }
    r
}

/// The L kind's spawn cells at start column `starting_point`.
pub fn tetromino_l(starting_point: i32) -> (r: Vec<(i32, i32)>)
    requires
        i32::MIN < starting_point < i32::MAX,
    ensures
        r@.len() == 4,
        cells_of(r@) == l_layout(starting_point as int),
{
    let mut r: Vec<(i32, i32)> = Vec::new();
    r.push((starting_point - 1, 0));
    r.push((starting_point - 1, 1));
    r.push((starting_point, 1));
    r.push((starting_point + 1, 1));
    proof {
        assert(cells_of(r@) =~= l_layout(starting_point as int));
    }
    r
}

/// The Skew kind's spawn cells at start column `starting_point`.
pub fn tetromino_skew(starting_point: i32) -> (r: Vec<(i32, i32)>)
    requires
        i32::MIN < starting_point < i32::MAX,
    ensures
        r@.len() == 4,
        cells_of(r@) == skew_layout(starting_point as int),
{
    let mut r: Vec<(i32, i32)> = Vec::new();
    r.push((starting_point, 0));
    r.push((starting_point + 1, 0));
    r.push((starting_point - 1, 1));
    r.push((starting_point, 1));
    proof {
        assert(cells_of(r@) =~= skew_layout(starting_point as int));
    }
    r
}

/// The catalog: one entry per kind, each with its spawn cells for start
/// column `starting_point`.
pub fn tetromino_pool(starting_point: i32) -> (r: Vec<(TetrominoType, Vec<(i32, i32)>)>)
    requires
        starting_point - 2 >= i32::MIN,
        starting_point + 1 <= i32::MAX,
    ensures
        r@.len() == 5,
        r@[0].0 == TetrominoType::STRAIGHT,
        cells_of(r@[0].1@) == spawn_layout(TetrominoType::STRAIGHT, starting_point as int),
        r@[1].0 == TetrominoType::SQUARE,
        cells_of(r@[1].1@) == spawn_layout(TetrominoType::SQUARE, starting_point as int),
        r@[2].0 == TetrominoType::T,
        cells_of(r@[2].1@) == spawn_layout(TetrominoType::T, starting_point as int),
        r@[3].0 == TetrominoType::L,
        cells_of(r@[3].1@) == spawn_layout(TetrominoType::L, starting_point as int),
        r@[4].0 == TetrominoType::SKEW,
        cells_of(r@[4].1@) == spawn_layout(TetrominoType::SKEW, starting_point as int),
{
    let straight = tetromino_straight_options((starting_point, 0), 0);
    let square = tetromino_square(starting_point);
    let tee = tetromino_t(starting_point);
    let ell = tetromino_l(starting_point);
    let skew = tetromino_skew(starting_point);
    let mut pool: Vec<(TetrominoType, Vec<(i32, i32)>)> = Vec::new();
    pool.push((TetrominoType::STRAIGHT, straight));
    pool.push((TetrominoType::SQUARE, square));
    pool.push((TetrominoType::T, tee));
    pool.push((TetrominoType::L, ell));
    pool.push((TetrominoType::SKEW, skew));
    pool
}

/// Relies on rand's `SliceRandom::choose`: it returns `None` exactly on an
/// empty slice and otherwise `Some` of one of the slice's elements, picked
/// with the thread-local generator.
#[verifier::external_body]
fn choose_tetromino(pool: &Vec<(TetrominoType, Vec<(i32, i32)>)>) -> (r: Option<
    &(TetrominoType, Vec<(i32, i32)>),
>)
    ensures
        r is Some <==> pool@.len() > 0,
        r matches Some(v) ==> exists|i: int| 0 <= i < pool@.len() && #[trigger] pool@[i] == *v,
{
    pool.choose(&mut rand::thread_rng())
}

/// A fresh copy of a cell list.
fn clone_pixels(v: &Vec<(i32, i32)>) -> (r: Vec<(i32, i32)>)
    ensures
        r@ == v@,
{
    let mut r: Vec<(i32, i32)> = Vec::new();
    let n = v.len();
    for i in 0..n
        invariant
            n == v@.len(),
            r@.len() == i,
            forall|j: int| 0 <= j < i ==> (#[trigger] r@[j]) == v@[j],
    {
        r.push(v[i]);
    }
    proof {
        assert(r@ =~= v@);
    }
    r
}

impl Tetromino {
    /// Spawn a new piece: one of the five catalog kinds, chosen at random
    /// through rand, placed fully visible at the top of a field `width`
    /// columns wide and horizontally centered on `width / 2`.
    pub fn new(width: u32) -> (r: Result<Tetromino, &'static str>)
        requires
            1 <= width <= i32::MAX,
        ensures
            r is Ok,
            r->Ok_0.wf(),
            exists|kind: TetrominoType| #[trigger] r->Ok_0.is_spawn_of(kind, width as int),
    {
        let start_point = (width / 2) as i32;
        let pool = tetromino_pool(start_point);
        match choose_tetromino(&pool) {
            None => Err("Tetromino pool is empty."),
            Some(value) => {
                let t = Tetromino {
                    pixels: clone_pixels(&value.1),
                    center: get_center(start_point, value.0),
                    tetromino_type: value.0,
                    straight_tetromino_index: (match value.0 {
                        TetrominoType::STRAIGHT => Some(0),
                        _ => None,
                    }),
                };
                proof {
                    let i = choose|i: int| 0 <= i < pool@.len() && #[trigger] pool@[i] == *value;
                    assert(start_point as int == width as int / 2);
                    assert(t.pixels@ == pool@[i].1@);
                    assert(t.tetromino_type == pool@[i].0);
                    if i == 0 {
                        assert(t.is_spawn_of(TetrominoType::STRAIGHT, width as int));
                    } else if i == 1 {
                        assert(t.is_spawn_of(TetrominoType::SQUARE, width as int));
                    } else if i == 2 {
                        assert(t.is_spawn_of(TetrominoType::T, width as int));
                    } else if i == 3 {
                        assert(t.is_spawn_of(TetrominoType::L, width as int));
                    } else {
                        assert(t.is_spawn_of(TetrominoType::SKEW, width as int));
                    }
                    assert(cells_of(t.pixels@).len() == 4);
                    assert(t.pixels@.len() == 4);
                    assert(t.wf());
                }
                let res: Result<Tetromino, &'static str> = Ok(t);
                proof {
                    assert(res->Ok_0.is_spawn_of(value.0, width as int));
                }
                res
            },
        }
    }
}

} // verus!
