use vstd::prelude::*;
use crate::codec::FromToBytes;
use crate::grid::Vec2D;

verus! {

/// Two coordinate pairs inside the grid that share a slot of the buffer are
/// the same pair.
pub proof fn lemma_offset_injective<T>(g: Vec2D<T>, x1: int, y1: int, x2: int, y2: int)
    requires
        g.in_bounds(x1, y1),
        g.in_bounds(x2, y2),
        g.offset(x1, y1) == g.offset(x2, y2),
    ensures
        x1 == x2,
        y1 == y2,
{
    g.lemma_offset_in_range(x1, y1);
    g.lemma_offset_in_range(x2, y2);
}

/// Writing `v` at `(x, y)` and reading `(x, y)` back gives `v`, and every
/// other cell reads as it did before the write.
pub proof fn lemma_write_then_read<T>(before: Vec2D<T>, after: Vec2D<T>, x: int, y: int, v: T)
    requires
        before.wf(),
        before.in_bounds(x, y),
        after.spec_width() == before.spec_width(),
        after.spec_height() == before.spec_height(),
        after@ == before@.update(before.offset(x, y), v),
    ensures
        after.wf(),
        after.at(x, y) == v,
        forall|x2: int, y2: int|
            before.in_bounds(x2, y2) && (x2, y2) != (x, y) ==> #[trigger] after.at(x2, y2)
                == before.at(x2, y2),
{
    before.lemma_offset_in_range(x, y);
    assert forall|x2: int, y2: int|
        before.in_bounds(x2, y2) && (x2, y2) != (x, y) implies #[trigger] after.at(x2, y2)
        == before.at(x2, y2) by {
        before.lemma_offset_in_range(x2, y2);
        if before.offset(x2, y2) == before.offset(x, y) {
            lemma_offset_injective(before, x, y, x2, y2);
        }
    }
}

/// A walk over a grid of `w` by `h` cells yields `w * h` triples, and the
/// triple at position `i` carries a coordinate pair of the grid whose slot in
/// the buffer is `i`, with the cell that lives there.
pub proof fn lemma_walk_covers_buffer<T>(g: Vec2D<T>, i: int)
    requires
        g.wf(),
        0 <= i < g.spec_width() * g.spec_height(),
    ensures
        g.triples().len() == g.spec_width() * g.spec_height(),
        g.in_bounds(g.triples()[i].0 as int, g.triples()[i].1 as int),
        g.offset(g.triples()[i].0 as int, g.triples()[i].1 as int) == i,
        g.triples()[i].2 == g.at(g.triples()[i].0 as int, g.triples()[i].1 as int),
{
    g.lemma_height_positive();
    let h = g.spec_height() as int;
    let w = g.spec_width() as int;
    vstd::arithmetic::div_mod::lemma_fundamental_div_mod(i, h);
    vstd::arithmetic::div_mod::lemma_div_pos_is_pos(i, h);
    vstd::arithmetic::div_mod::lemma_mod_bound(i, h);
    assert(i / h < w) by (nonlinear_arith)
        requires
            i < w * h,
            0 < h,
            i == h * (i / h) + i % h,
            0 <= i % h,
    ;
    assert(h * (i / h) == (i / h) * h) by (nonlinear_arith);
}

/// Every cell of the grid turns up in a walk, at the position that is its
/// slot in the buffer and nowhere else.
pub proof fn lemma_walk_meets_each_cell_once<T>(g: Vec2D<T>, x: int, y: int)
    requires
        g.wf(),
        g.in_bounds(x, y),
    ensures
        0 <= g.offset(x, y) < g.triples().len(),
        g.triples()[g.offset(x, y)] == (x as usize, y as usize, g.at(x, y)),
        forall|i: int|
            0 <= i < g.triples().len() && (#[trigger] g.triples()[i]).0 == x && g.triples()[i].1
                == y ==> i == g.offset(x, y),
{
    g.lemma_offset_in_range(x, y);
    assert forall|i: int|
        0 <= i < g.triples().len() && (#[trigger] g.triples()[i]).0 == x && g.triples()[i].1
            == y implies i == g.offset(x, y) by {
        lemma_walk_covers_buffer(g, i);
    }
}

/// A walk goes through all `y` of one `x` before it moves on to the next `x`:
/// of two positions the later one has the larger `x`, or the same `x` and the
/// larger `y`.
pub proof fn lemma_walk_is_x_major<T>(g: Vec2D<T>, i: int, j: int)
    requires
        g.wf(),
        0 <= i < j < g.triples().len(),
    ensures
        g.triples()[i].0 < g.triples()[j].0 || (g.triples()[i].0 == g.triples()[j].0
            && g.triples()[i].1 < g.triples()[j].1),
{
    lemma_walk_covers_buffer(g, i);
    lemma_walk_covers_buffer(g, j);
    let h = g.spec_height() as int;
    let xi = g.triples()[i].0 as int;
    let xj = g.triples()[j].0 as int;
    if xi > xj {
        assert(xi * h >= xj * h + h) by (nonlinear_arith)
            requires
                xi >= xj + 1,
                h >= 0,
        ;
    }
}

/// Reading back the bytes of a grid gives a grid of the same width and
/// height whose cells stand, one by one, for the same plain values, and takes
/// exactly the bytes that were written, whatever follows them.
pub proof fn lemma_grid_round_trip<T: FromToBytes>(g: Vec2D<T>, rest: Seq<u8>)
    requires
        g.well_formed(),
    ensures
        ({
            let written = Vec2D::<T>::encode(g.plain());
            let read = Vec2D::<T>::decode(written + rest);
            &&& read is Ok
            &&& read->Ok_0.0.width == g.spec_width()
            &&& read->Ok_0.0.height == g.spec_height()
            &&& read->Ok_0.0.cells.len() == g@.len()
            &&& forall|i: int|
                0 <= i < g@.len() ==> #[trigger] read->Ok_0.0.cells[i] == g@[i].plain()
            &&& read->Ok_0.1 == written.len()
        }),
{
    Vec2D::<T>::lemma_round_trip(g, rest);
}

} // verus!
