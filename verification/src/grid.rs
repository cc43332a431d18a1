use vstd::prelude::*;
use crate::bounds::OutOfBounds;

verus! {

/// A fixed-size two-dimensional grid kept in one contiguous buffer.
///
/// The cell `(x, y)` lives at offset `x * height + y`, so the cells that share
/// an `x` are neighbours in memory. The size is chosen at construction and
/// never changes afterwards.
#[derive(Debug, PartialEq)]
pub struct Vec2D<T> {
    data: Vec<T>,
    w: usize,
    h: usize,
}

impl<T> View for Vec2D<T> {
    type V = Seq<T>;

    /// The cells in buffer order.
    closed spec fn view(&self) -> Seq<T> {
        self.data@
    }
}

impl<T> Vec2D<T> {
    pub closed spec fn spec_width(&self) -> usize {
        self.w
    }

    pub closed spec fn spec_height(&self) -> usize {
        self.h
    }

    /// The buffer holds exactly one cell per coordinate pair.
    pub open spec fn wf(&self) -> bool {
        self@.len() == self.spec_width() * self.spec_height()
    }

    /// Whether `(x, y)` names a cell of the grid.
    pub open spec fn in_bounds(&self, x: int, y: int) -> bool {
        0 <= x < self.spec_width() && 0 <= y < self.spec_height()
    }

    /// Where the cell `(x, y)` lives in the buffer.
    pub open spec fn offset(&self, x: int, y: int) -> int {
        x * self.spec_height() + y
    }

    /// The cell at `(x, y)`.
    pub open spec fn at(&self, x: int, y: int) -> T
        recommends
            self.wf(),
            self.in_bounds(x, y),
    {
        self@[self.offset(x, y)]
    }

    /// What `grid[(x, y)]` means in a contract: the cell at `(x, y)`.
    pub open spec fn spec_index(&self, index: (usize, usize)) -> T
        recommends
            self.wf(),
            self.in_bounds(index.0 as int, index.1 as int),
    {
        self.at(index.0 as int, index.1 as int)
    }

    /// Every coordinate pair inside the grid has its own slot in the buffer.
    pub proof fn lemma_offset_in_range(&self, x: int, y: int)
        requires
            self.in_bounds(x, y),
        ensures
            0 <= self.offset(x, y) < self.spec_width() * self.spec_height(),
            self.offset(x, y) / (self.spec_height() as int) == x,
            self.offset(x, y) % (self.spec_height() as int) == y,
    {
        let h = self.spec_height() as int;
        let w = self.spec_width() as int;
        assert(0 <= x * h) by (nonlinear_arith)
            requires
                0 <= x,
                0 <= h,
        ;
        assert(x * h + h <= w * h) by (nonlinear_arith)
            requires
                x + 1 <= w,
                0 <= h,
        ;
        vstd::arithmetic::div_mod::lemma_fundamental_div_mod_converse(x * h + y, h, x, y);
    }

    /// The slot of a cell of the grid can be computed in machine words and
    /// lies inside the buffer.
    proof fn lemma_slot(&self, x: usize, y: usize)
        requires
            self.wf(),
            self.in_bounds(x as int, y as int),
        ensures
            x * self.h + y == self.offset(x as int, y as int),
            0 <= x * self.h <= x * self.h + y < self.data@.len() <= usize::MAX,
    {
        self.lemma_offset_in_range(x as int, y as int);
        self.lemma_len_fits();
        assert(0 <= x * self.h) by (nonlinear_arith);
    }

    /// The number of cells fits a machine word.
    pub proof fn lemma_len_fits(&self)
        ensures
            self@.len() <= usize::MAX,
    {
        assert(self.data@.len() == self.data.len());
    }

    /// A grid that holds a cell has a height above zero.
    pub proof fn lemma_height_positive(&self)
        requires
            self.wf(),
            self@.len() > 0,
        ensures
            self.spec_height() > 0,
            self.spec_width() > 0,
    {
        assert(self.spec_width() * self.spec_height() > 0 ==> self.spec_height() > 0
            && self.spec_width() > 0) by (nonlinear_arith);
    }

    /// A grid of `w` by `h` cells, each a clone of `default`.
    pub fn new(w: usize, h: usize, default: T) -> (r: Vec2D<T>) where T: Clone
        requires
            w * h <= usize::MAX,
        ensures
            r.wf(),
            r.spec_width() == w,
            r.spec_height() == h,
            forall|i: int| 0 <= i < w * h ==> cloned(default, #[trigger] r@[i]),
    {
        Vec2D { data: vec![default; w * h], w, h }
    }

    /// A grid over a buffer that is already filled, in buffer order.
    pub(crate) fn from_parts(w: usize, h: usize, data: Vec<T>) -> (r: Vec2D<T>)
        requires
            data@.len() == w * h,
        ensures
            r.wf(),
            r.spec_width() == w,
            r.spec_height() == h,
            r@ == data@,
    {
        Vec2D { data, w, h }
    }

    /// The cells as one slice, in buffer order.
    pub fn as_slice(&self) -> (r: &[T])
        ensures
            r@ == self@,
    {
        self.data.as_slice()
    }

    #[verifier::when_used_as_spec(spec_width)]
    pub fn width(&self) -> (r: usize)
        ensures
            r == self.spec_width(),
    {
        self.w
    }

    #[verifier::when_used_as_spec(spec_height)]
    pub fn height(&self) -> (r: usize)
        ensures
            r == self.spec_height(),
    {
        self.h
    }

    /// The coordinate pair of the cell that lives at offset `i` of the buffer.
    pub open spec fn coords(&self, i: int) -> (usize, usize)
        recommends
            self.wf(),
            0 <= i < self@.len(),
    {
        ((i / (self.spec_height() as int)) as usize, (i % (self.spec_height() as int)) as usize)
    }

    /// What a walk over the grid yields: every cell once, with its coordinate
    /// pair, in buffer order.
    pub open spec fn triples(&self) -> Seq<(usize, usize, T)> {
        Seq::new(self@.len(), |i: int| (self.coords(i).0, self.coords(i).1, self@[i]))
    }

    /// Every cell with its coordinate pair, in buffer order: all `y` for
    /// `x = 0`, then all `y` for `x = 1`, and so on.
    pub fn iter(&self) -> (r: Vec<(usize, usize, T)>) where T: Copy
        requires
            self.wf(),
        ensures
            r@ == self.triples(),
    {
        let n = self.data.len();
        let mut out: Vec<(usize, usize, T)> = Vec::with_capacity(n);
        let mut i: usize = 0;
        while i < n
            invariant
                i <= n,
                n == self@.len(),
                self.wf(),
                out@.len() == i,
                forall|j: int| 0 <= j < i ==> out@[j] == self.triples()[j],
            decreases n - i,
        {
            proof {
                self.lemma_height_positive();
            }
            out.push((i / self.h, i % self.h, self.data[i]));
            i += 1;
        }
        assert(out@ =~= self.triples());
        out
    }

    /// Exclusive access to every cell, each with its coordinate pair, in
    /// buffer order.
    ///
    /// What the caller leaves behind each reference is what the grid holds in
    /// that cell afterwards; the dimensions stay as they were.
    pub fn iter_mut(&mut self) -> (r: Vec<(usize, usize, &mut T)>)
        requires
            old(self).wf(),
        ensures
            r@.len() == old(self)@.len(),
            forall|i: int|
                0 <= i < r@.len() ==> (#[trigger] r@[i]).0 == old(self).coords(i).0 && r@[i].1
                    == old(self).coords(i).1 && *r@[i].2 == old(self)@[i],
            final(self)@.len() == old(self)@.len(),
            forall|i: int|
                0 <= i < r@.len() ==> *final((#[trigger] r@[i]).2) == final(self)@[i],
            final(self).spec_width() == old(self).spec_width(),
            final(self).spec_height() == old(self).spec_height(),
            final(self).wf(),
    {
        let h = self.h;
        let n = self.data.len();
        let ghost target: Seq<T> = final(self).data@;
        let mut rest: &mut [T] = self.data.as_mut_slice();
        let mut out: Vec<(usize, usize, &mut T)> = Vec::with_capacity(n);
        let mut i: usize = 0;
        while rest.len() > 0
            invariant
                out@.len() == i,
                n == old(self)@.len(),
                h == old(self).h,
                old(self).wf(),
                i + rest@.len() == n,
                rest@ == old(self)@.skip(i as int),
                forall|j: int|
                    0 <= j < i ==> (#[trigger] out@[j]).0 == old(self).coords(j).0 && out@[j].1
                        == old(self).coords(j).1 && *out@[j].2 == old(self)@[j],
                target == Seq::new(i as nat, |j: int| *final(out@[j].2)) + final(rest)@,
            decreases rest@.len(),
        {
            proof {
                old(self).lemma_height_positive();
            }
            let (head, tail) = rest.split_at_mut(1);
            let cell = head.first_mut().unwrap();
            out.push((i / h, i % h, cell));
            rest = tail;
            i += 1;
        }
        out
    }

    /// What an access at `(x, y)` is refused with when the grid has no such cell.
    pub open spec fn bounds_error(&self, x: usize, y: usize) -> OutOfBounds {
        OutOfBounds { width: self.spec_width(), height: self.spec_height(), x, y }
    }

    /// The cell at `index`, which is `(x, y)`, or the reason why there is none.
    ///
    /// An access is refused exactly when `x` reaches the width or `y` the
    /// height, and the refusal carries the dimensions and the pair asked for.
    pub fn try_index(&self, index: (usize, usize)) -> (r: Result<&T, OutOfBounds>)
        requires
            self.wf(),
        ensures
            self.in_bounds(index.0 as int, index.1 as int) ==> r.is_ok() && *r.unwrap()
                == self.at(index.0 as int, index.1 as int),
            !self.in_bounds(index.0 as int, index.1 as int) ==> r == Err::<&T, OutOfBounds>(
                self.bounds_error(index.0, index.1),
            ),
    {
        if index.0 >= self.w || index.1 >= self.h {
            return Err(OutOfBounds { width: self.w, height: self.h, x: index.0, y: index.1 });
        }
        Ok(&self[index])
    }

    /// Exclusive access to the cell at `index`, or the reason why there is none.
    ///
    /// The test is the one that `try_index` makes. A refused access leaves the
    /// grid as it was.
    pub fn try_index_mut(&mut self, index: (usize, usize)) -> (r: Result<&mut T, OutOfBounds>)
        requires
            old(self).wf(),
        ensures
            old(self).in_bounds(index.0 as int, index.1 as int) ==> r.is_ok() && *r.unwrap()
                == old(self).at(index.0 as int, index.1 as int) && final(self)@ == old(
                self,
            )@.update(old(self).offset(index.0 as int, index.1 as int), *final(r.unwrap())),
            !old(self).in_bounds(index.0 as int, index.1 as int) ==> r == Err::<
                &mut T,
                OutOfBounds,
            >(old(self).bounds_error(index.0, index.1)) && final(self)@ == old(self)@,
            final(self).spec_width() == old(self).spec_width(),
            final(self).spec_height() == old(self).spec_height(),
            final(self).wf(),
    {
        if index.0 >= self.w || index.1 >= self.h {
            return Err(OutOfBounds { width: self.w, height: self.h, x: index.0, y: index.1 });
        }
        Ok(self.index_mut(index))
    }

    /// Exclusive access to the cell at `index`, which is `(x, y)`.
    ///
    /// Whatever the caller leaves in the cell is what the grid holds there
    /// afterwards; every other cell and both dimensions stay as they were.
    pub fn index_mut(&mut self, index: (usize, usize)) -> (r: &mut T)
        requires
            old(self).wf(),
            old(self).in_bounds(index.0 as int, index.1 as int),
        ensures
            *r == old(self).at(index.0 as int, index.1 as int),
            final(self)@ == old(self)@.update(
                old(self).offset(index.0 as int, index.1 as int),
                *final(r),
            ),
            final(self).spec_width() == old(self).spec_width(),
            final(self).spec_height() == old(self).spec_height(),
            final(self).wf(),
    {
        proof {
            self.lemma_slot(index.0, index.1);
        }
        &mut self.data[index.0 * self.h + index.1]
    }
}

impl<T: Clone> Clone for Vec2D<T> {
    /// A grid of the same dimensions whose cells are clones of this one's.
    fn clone(&self) -> (r: Self)
        ensures
            r.spec_width() == self.spec_width(),
            r.spec_height() == self.spec_height(),
            r@.len() == self@.len(),
            forall|i: int| 0 <= i < self@.len() ==> cloned(self@[i], #[trigger] r@[i]),
            self.wf() ==> r.wf(),
    {
        Vec2D { data: self.data.clone(), w: self.w, h: self.h }
    }
}

impl<T> vstd::std_specs::core::IndexSpecImpl<(usize, usize)> for Vec2D<T> {
    open spec fn index_req(&self, index: &(usize, usize)) -> bool {
        self.wf() && self.in_bounds(index.0 as int, index.1 as int)
    }
}

impl<T> core::ops::Index<(usize, usize)> for Vec2D<T> {
    type Output = T;

    /// The cell at `index`, which is `(x, y)`.
    fn index(&self, index: (usize, usize)) -> (r: &T)
        ensures
            *r == self.at(index.0 as int, index.1 as int),
    {
        proof {
            self.lemma_slot(index.0, index.1);
        }
        &self.data[index.0 * self.h + index.1]
    }
}

} // verus!
