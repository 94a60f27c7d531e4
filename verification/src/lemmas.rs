use vstd::prelude::*;

use crate::field::Field;
use crate::field::clear_row_spec;
use crate::field::collapse_spec;
use crate::tetromino::Tetromino;
use crate::tetromino::at_left_wall;
use crate::tetromino::at_right_wall;
use crate::tetromino::cells_of;
use crate::tetromino::move_left_spec;
use crate::tetromino::move_right_spec;
use crate::tetromino::rotated;
use crate::tetromino::shifted;
use crate::tetromino::straight_layout;
use crate::tetromino::transform_spec;

verus! {

/// Equal integer cells force equal stored cells.
proof fn lemma_cells_of_injective(a: Seq<(i32, i32)>, b: Seq<(i32, i32)>)
    requires
        cells_of(a) == cells_of(b),
    ensures
        a == b,
{
    assert(cells_of(a).len() == a.len());
    assert(cells_of(b).len() == b.len());
    assert(a.len() == b.len());
    assert forall|j: int| 0 <= j < a.len() implies a[j] == b[j] by {
        assert(cells_of(a)[j] == cells_of(b)[j]);
        assert(a[j].0 as int == b[j].0 as int && a[j].1 as int == b[j].1 as int);
        assert(a[j] == (a[j].0, a[j].1));
        assert(b[j] == (b[j].0, b[j].1));
    }
    assert(a =~= b);
}

/// Away from both walls a left move and a right move cancel: a piece whose
/// cells all lie strictly inside the columns, moved left and then right, is
/// exactly the piece it was.
pub proof fn lemma_move_left_then_right_restores(
    t0: Tetromino,
    t1: Tetromino,
    t2: Tetromino,
    width: u32,
)
    requires
        forall|i: int|
            0 <= i < cells_of(t0.pixels@).len() ==> 1 <= (#[trigger] cells_of(t0.pixels@)[i]).0
                <= width - 2,
        move_left_spec(t0, t1),
        move_right_spec(t1, t2, width as int),
    ensures
        t2.pixels@ == t0.pixels@,
        t2.center == t0.center,
        t2.tetromino_type == t0.tetromino_type,
        t2.straight_tetromino_index == t0.straight_tetromino_index,
{
    let c0 = cells_of(t0.pixels@);
    let c1 = cells_of(t1.pixels@);
    assert(!at_left_wall(c0)) by {
        if at_left_wall(c0) {
            let i = choose|i: int| 0 <= i < c0.len() && (#[trigger] c0[i]).0 <= 0;
        }
    }
    assert(c1 == shifted(c0, -1, 0));
    assert(!at_right_wall(c1, width as int)) by {
        if at_right_wall(c1, width as int) {
            let i = choose|i: int| 0 <= i < c1.len() && (#[trigger] c1[i]).0 == width - 1;
            assert(c1[i].0 == c0[i].0 - 1);
        }
    }
    assert(cells_of(t2.pixels@) =~= c0);
    lemma_cells_of_injective(t2.pixels@, t0.pixels@);
    assert(t2.center.0 == t0.center.0 && t2.center.1 == t0.center.1);
    assert(t2.center == (t2.center.0, t2.center.1));
    assert(t0.center == (t0.center.0, t0.center.1));
}

/// The mirror image: away from both walls a right move and a left move
/// cancel.
pub proof fn lemma_move_right_then_left_restores(
    t0: Tetromino,
    t1: Tetromino,
    t2: Tetromino,
    width: u32,
)
    requires
        forall|i: int|
            0 <= i < cells_of(t0.pixels@).len() ==> 1 <= (#[trigger] cells_of(t0.pixels@)[i]).0
                <= width - 2,
        move_right_spec(t0, t1, width as int),
        move_left_spec(t1, t2),
    ensures
        t2.pixels@ == t0.pixels@,
        t2.center == t0.center,
        t2.tetromino_type == t0.tetromino_type,
        t2.straight_tetromino_index == t0.straight_tetromino_index,
{
    let c0 = cells_of(t0.pixels@);
    let c1 = cells_of(t1.pixels@);
    assert(!at_right_wall(c0, width as int)) by {
        if at_right_wall(c0, width as int) {
            let i = choose|i: int| 0 <= i < c0.len() && (#[trigger] c0[i]).0 == width - 1;
        }
    }
    assert(c1 == shifted(c0, 1, 0));
    assert(!at_left_wall(c1)) by {
        if at_left_wall(c1) {
            let i = choose|i: int| 0 <= i < c1.len() && (#[trigger] c1[i]).0 <= 0;
            assert(c1[i].0 == c0[i].0 + 1);
        }
    }
    assert(cells_of(t2.pixels@) =~= c0);
    lemma_cells_of_injective(t2.pixels@, t0.pixels@);
    assert(t2.center.0 == t0.center.0 && t2.center.1 == t0.center.1);
    assert(t2.center == (t2.center.0, t2.center.1));
    assert(t0.center == (t0.center.0, t0.center.1));
}

/// Four quarter turns about any pivot are the identity on any cell list.
pub proof fn lemma_rotate_four_times_identity(c: (int, int), cells: Seq<(int, int)>)
    ensures
        rotated(c, rotated(c, rotated(c, rotated(c, cells)))) == cells,
{
    assert(rotated(c, rotated(c, rotated(c, rotated(c, cells)))) =~= cells);
}

/// Rotating a piece of the Square, T, L or Skew kind four times restores its
/// cells, pivot, kind and rotation state (for the Square kind each single
/// rotation is already a no-op).
pub proof fn lemma_transform_four_times_restores(
    t0: Tetromino,
    t1: Tetromino,
    t2: Tetromino,
    t3: Tetromino,
    t4: Tetromino,
)
    requires
        !(t0.tetromino_type is STRAIGHT),
        transform_spec(t0, t1),
        transform_spec(t1, t2),
        transform_spec(t2, t3),
        transform_spec(t3, t4),
    ensures
        t4.pixels@ == t0.pixels@,
        t4.center == t0.center,
        t4.tetromino_type == t0.tetromino_type,
        t4.straight_tetromino_index == t0.straight_tetromino_index,
{
    if t0.tetromino_type is SQUARE {
        assert(t4.pixels@ == t0.pixels@);
    } else {
        let c = t0.center_int();
        assert(t1.center_int() == c && t2.center_int() == c && t3.center_int() == c);
        assert(cells_of(t4.pixels@) == rotated(
            c,
            rotated(c, rotated(c, rotated(c, cells_of(t0.pixels@)))),
        ));
        lemma_rotate_four_times_identity(c, cells_of(t0.pixels@));
        lemma_cells_of_injective(t4.pixels@, t0.pixels@);
    }
}

/// The Straight kind cycles: its four tabulated layouts about one pivot are
/// pairwise distinct, and four rotations return the rotation state to where
/// it began, with the cells in that state's own layout.
pub proof fn lemma_straight_cycle(
    t0: Tetromino,
    t1: Tetromino,
    t2: Tetromino,
    t3: Tetromino,
    t4: Tetromino,
)
    requires
        t0.wf(),
        t0.tetromino_type is STRAIGHT,
        transform_spec(t0, t1),
        transform_spec(t1, t2),
        transform_spec(t2, t3),
        transform_spec(t3, t4),
    ensures
        t4.straight_tetromino_index == t0.straight_tetromino_index,
        t4.center == t0.center,
        t4.tetromino_type == t0.tetromino_type,
        cells_of(t4.pixels@) == straight_layout(
            t0.center_int(),
            t0.straight_tetromino_index->Some_0 as int,
        ),
        forall|i: int, j: int|
            0 <= i < j < 4 ==> straight_layout(t0.center_int(), i) != straight_layout(
                t0.center_int(),
                j,
            ),
        cells_of(t0.pixels@) == straight_layout(
            t0.center_int(),
            t0.straight_tetromino_index->Some_0 as int,
        ) ==> t4.pixels@ == t0.pixels@,
{
    let c = t0.center_int();
    let i0 = t0.straight_tetromino_index->Some_0;
    assert(t1.center_int() == c && t2.center_int() == c && t3.center_int() == c);
    assert(t4.straight_tetromino_index->Some_0 == i0);
    assert forall|i: int, j: int| 0 <= i < j < 4 implies straight_layout(c, i) != straight_layout(
        c,
        j,
    ) by {
        assert(straight_layout(c, i)[0] != straight_layout(c, j)[0]);
    }
    if cells_of(t0.pixels@) == straight_layout(c, i0 as int) {
        lemma_cells_of_injective(t4.pixels@, t0.pixels@);
    }
}

/// Clearing one completed row `r` and collapsing about it by one moves every
/// settled cell above the row down by exactly one; everything strictly below
/// stays, and row `r` now holds what stood one row above it.
pub proof fn lemma_single_clear_collapse(f0: Field, f1: Field, f2: Field, r: int)
    requires
        clear_row_spec(f0, f1, r),
        collapse_spec(f1, f2, r, 1),
    ensures
        forall|x: int, y: int|
            #![trigger f2.occupied(x, y)]
            f2.occupied(x, y) <==> ((y > r && f0.occupied(x, y)) || (y <= r && f0.occupied(
                x,
                y - 1,
            ))),
        forall|x: int, y: int|
            y < r && #[trigger] f0.occupied(x, y) ==> f2.occupied(x, y + 1),
{
    assert forall|x: int, y: int|
        #![trigger f2.occupied(x, y)]
        f2.occupied(x, y) <==> ((y > r && f0.occupied(x, y)) || (y <= r && f0.occupied(
            x,
            y - 1,
        ))) by {
        assert(f1.occupied(x, y) <==> (f0.occupied(x, y) && y != r));
        assert(f1.occupied(x, y - 1) <==> (f0.occupied(x, y - 1) && y - 1 != r));
    }
}

/// Clearing two completed rows `r1 < r2` and collapsing about `r1` by two
/// moves every settled cell above `r1` down by exactly two in one pass.
pub proof fn lemma_double_clear_collapse(
    f0: Field,
    f1: Field,
    f2: Field,
    f3: Field,
    r1: int,
    r2: int,
)
    requires
        r1 < r2,
        clear_row_spec(f0, f1, r1),
        clear_row_spec(f1, f2, r2),
        collapse_spec(f2, f3, r1, 2),
    ensures
        forall|x: int, y: int|
            #![trigger f3.occupied(x, y)]
            f3.occupied(x, y) <==> ((y > r1 && y != r2 && f0.occupied(x, y)) || (y <= r1 + 1
                && f0.occupied(x, y - 2))),
        forall|x: int, y: int|
            y < r1 && #[trigger] f0.occupied(x, y) ==> f3.occupied(x, y + 2),
{
    assert forall|x: int, y: int|
        #![trigger f3.occupied(x, y)]
        f3.occupied(x, y) <==> ((y > r1 && y != r2 && f0.occupied(x, y)) || (y <= r1 + 1
            && f0.occupied(x, y - 2))) by {
        assert(f2.occupied(x, y) <==> (f1.occupied(x, y) && y != r2));
        assert(f1.occupied(x, y) <==> (f0.occupied(x, y) && y != r1));
        assert(f2.occupied(x, y - 2) <==> (f1.occupied(x, y - 2) && y - 2 != r2));
        assert(f1.occupied(x, y - 2) <==> (f0.occupied(x, y - 2) && y - 2 != r1));
    }
}

} // verus!
