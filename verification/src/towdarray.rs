use vstd::prelude::*;

verus! {

/// A fixed-size two-dimensional container stored in one contiguous vector in
/// row-major order: the element at column `x`, row `y` lives at linear index
/// `y * w + x`, so every in-range coordinate pair maps to exactly one slot.
pub struct TowDArray<T> {
    pub w: usize,
    pub h: usize,
    pub data: Vec<T>,
}

impl<T> View for TowDArray<T> {
    type V = Seq<T>;

    closed spec fn view(&self) -> Seq<T> {
        self.data@
    }
}

impl<T: Copy> TowDArray<T> {
    /// The storage holds exactly one element per coordinate pair.
    pub open spec fn wf(self) -> bool {
        self@.len() == self.w * self.h && self.w * self.h <= usize::MAX
    }

    pub fn new(w: usize, h: usize, init: T) -> (r: Self)
        requires
            w * h <= usize::MAX,
        ensures
            r.wf(),
            r.w == w,
            r.h == h,
            forall|i: int| 0 <= i < r@.len() ==> r@[i] == init,
    {
        let n = w * h;
        let mut data: Vec<T> = Vec::new();
        for k in 0..n
            invariant
                data@.len() == k,
                forall|i: int| 0 <= i < k ==> data@[i] == init,
        {
            data.push(init);
        }
        TowDArray { w, h, data }
    }

    pub fn get(&self, x: usize, y: usize) -> (r: &T)
        requires
            self.wf(),
            x < self.w,
            y < self.h,
        ensures
            *r == self@[y * self.w + x],
    {
        proof {
            lemma_row_major_index_in_range(self.w as int, self.h as int, x as int, y as int);
        }
        &self.data[self.w * y + x]
    }

    pub fn set(&mut self, x: usize, y: usize, value: T)
        requires
            old(self).wf(),
            x < old(self).w,
            y < old(self).h,
        ensures
            final(self).w == old(self).w,
            final(self).h == old(self).h,
            final(self).wf(),
            final(self)@ == old(self)@.update(y * old(self).w + x, value),
    {
        proof {
            lemma_row_major_index_in_range(self.w as int, self.h as int, x as int, y as int);
        }
        let i = self.w * y + x;
        self.data[i] = value;
    }

    pub fn get_mut(&mut self, x: usize, y: usize) -> (r: &mut T)
        requires
            old(self).wf(),
            x < old(self).w,
            y < old(self).h,
        ensures
            *r == old(self)@[y * old(self).w + x],
            final(self).w == old(self).w,
            final(self).h == old(self).h,
            final(self).wf(),
            final(self)@ == old(self)@.update(y * old(self).w + x, *final(r)),
    {
        proof {
            lemma_row_major_index_in_range(self.w as int, self.h as int, x as int, y as int);
        }
        let i = self.w * y + x;
        &mut self.data[i]
    }

    pub fn point_to_position(&self, x: usize, y: usize) -> (r: usize)
        requires
            self.wf(),
            x < self.w,
            y < self.h,
        ensures
            r == y * self.w + x,
            r < self@.len(),
    {
        proof {
            lemma_row_major_index_in_range(self.w as int, self.h as int, x as int, y as int);
        }
        self.w * y + x
    }

    pub fn position_to_point(&self, i: usize) -> (r: (usize, usize))
        requires
            self.w > 0,
        ensures
            r.0 == i as int % self.w as int,
            r.1 == i as int / self.w as int,
            r.1 * self.w + r.0 == i,
            self.wf() && i < self@.len() ==> r.0 < self.w && r.1 < self.h,
    {
        proof {
            vstd::arithmetic::div_mod::lemma_fundamental_div_mod(i as int, self.w as int);
            let q = i as int / self.w as int;
            let m = i as int % self.w as int;
            assert(i as int == self.w as int * q + m);
            assert(q * self.w as int == self.w as int * q);
            if self.wf() && i < self@.len() {
                assert((i as int / self.w as int) < self.h as int) by (nonlinear_arith)
                    requires
                        self.w > 0,
                        i < self.w * self.h,
                ;
            }
        }
        (i % self.w, i / self.w)
    }

    /// Relies on rand's `SliceRandom::shuffle` (a Fisher-Yates swap loop): it
    /// permutes the slice in place, so the length and the multiset of the
    /// elements are preserved and the dimensions are untouched.
    #[verifier::external_body]
    pub(crate) fn shuffle(&mut self)
        ensures
            final(self).w == old(self).w,
            final(self).h == old(self).h,
            final(self)@.len() == old(self)@.len(),
            final(self)@.to_multiset() == old(self)@.to_multiset(),
    {
        rand::seq::SliceRandom::shuffle(self.data.as_mut_slice(), &mut rand::rng());
    }
}

/// For coordinates inside a `w` by `h` rectangle the row-major index stays
/// below `w * h`.
pub proof fn lemma_row_major_index_in_range(w: int, h: int, x: int, y: int)
    requires
        0 <= x < w,
        0 <= y < h,
    ensures
        0 <= y * w + x < w * h,
        0 <= w * y + x < w * h,
        w * y == y * w,
{
    assert(0 <= y * w + x < w * h && w * y == y * w) by (nonlinear_arith)
        requires
            0 <= x < w,
            0 <= y < h,
    ;
}

} // verus!
