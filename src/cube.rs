use vstd::prelude::*;

verus! {

/// A dense three-dimensional array indexed by (timestep, channel, baseline),
/// stored row-major with the baseline axis varying fastest. It holds the
/// visibility cube, whose cells are samples of any word type, and the image
/// and mask buffers of the image-set builder.
pub struct Cube<T> {
    num_timesteps: usize,
    num_chans: usize,
    num_baselines: usize,
    data: Vec<T>,
}

/// Flat position of cell (t, c, b) in a row-major (nt, nc, nb) array.
pub open spec fn flat_index(nc: int, nb: int, t: int, c: int, b: int) -> int {
    (t * nc + c) * nb + b
}

/// Distinct in-range cells have distinct flat positions, and every in-range
/// position lies within the array.
pub proof fn lemma_flat_index(nt: int, nc: int, nb: int, t: int, c: int, b: int, t2: int, c2: int, b2: int)
    requires
        0 <= t < nt,
        0 <= c < nc,
        0 <= b < nb,
        0 <= t2 < nt,
        0 <= c2 < nc,
        0 <= b2 < nb,
    ensures
        0 <= flat_index(nc, nb, t, c, b) < nt * nc * nb,
        0 <= t * nc <= t * nc + c <= flat_index(nc, nb, t, c, b),
        flat_index(nc, nb, t, c, b) == flat_index(nc, nb, t2, c2, b2) ==> (t == t2 && c == c2 && b
            == b2),
{
    assert(0 <= t * nc + c < nt * nc) by (nonlinear_arith)
        requires
            0 <= t < nt,
            0 <= c < nc,
    ;
    assert(0 <= (t * nc + c) * nb + b < (nt * nc) * nb) by (nonlinear_arith)
        requires
            0 <= t * nc + c < nt * nc,
            0 <= b < nb,
    ;
    assert((nt * nc) * nb == nt * nc * nb) by (nonlinear_arith);
    assert(0 <= t * nc) by (nonlinear_arith)
        requires
            0 <= t,
            0 <= nc,
    ;
    assert(t * nc + c <= (t * nc + c) * nb) by (nonlinear_arith)
        requires
            0 <= t * nc + c,
            1 <= nb,
    ;
    if flat_index(nc, nb, t, c, b) == flat_index(nc, nb, t2, c2, b2) {
        let x = t * nc + c;
        let x2 = t2 * nc + c2;
        assert(x == x2 && b == b2) by (nonlinear_arith)
            requires
                x * nb + b == x2 * nb + b2,
                0 <= b < nb,
                0 <= b2 < nb,
        ;
        assert(t == t2 && c == c2) by (nonlinear_arith)
            requires
                t * nc + c == t2 * nc + c2,
                0 <= c < nc,
                0 <= c2 < nc,
        ;
    }
}

impl<T> Cube<T> {
    /// The extent of each axis: (timesteps, channels, baselines).
    pub closed spec fn dims(&self) -> (usize, usize, usize) {
        (self.num_timesteps, self.num_chans, self.num_baselines)
    }

    /// (t, c, b) is a cell of the cube.
    pub open spec fn in_bounds(&self, t: int, c: int, b: int) -> bool {
        0 <= t < self.dims().0 && 0 <= c < self.dims().1 && 0 <= b < self.dims().2
    }

    /// The value held at cell (t, c, b).
    pub closed spec fn at(&self, t: int, c: int, b: int) -> T {
        self.data@[flat_index(self.num_chans as int, self.num_baselines as int, t, c, b)]
    }

    /// The storage holds exactly one value per cell.
    pub closed spec fn wf(&self) -> bool {
        self.data@.len() == self.num_timesteps * self.num_chans * self.num_baselines
            && self.num_timesteps * self.num_chans * self.num_baselines <= usize::MAX
    }

}

impl<T: Copy> Cube<T> {
    /// A cube of the given shape with every cell holding `fill`.
    pub fn new(num_timesteps: usize, num_chans: usize, num_baselines: usize, fill: T) -> (r: Self)
        requires
            num_timesteps * num_chans * num_baselines <= usize::MAX,
        ensures
            r.wf(),
            r.dims() == (num_timesteps, num_chans, num_baselines),
            forall|t: int, c: int, b: int|
                r.in_bounds(t, c, b) ==> #[trigger] r.at(t, c, b) == fill,
    {
        let len: usize = if num_baselines == 0 {
            0
        } else {
            assert(num_timesteps * num_chans <= num_timesteps * num_chans * num_baselines)
                by (nonlinear_arith)
                requires
                    num_baselines >= 1,
            ;
            num_timesteps * num_chans * num_baselines
        };
        assert(len == num_timesteps * num_chans * num_baselines);
        let mut data: Vec<T> = Vec::with_capacity(len);
        let mut i: usize = 0;
        while i < len
            invariant
                i <= len,
                data@.len() == i,
                forall|j: int| 0 <= j < i ==> data@[j] == fill,
            decreases len - i,
        {
            data.push(fill);
            i += 1;
        }
        let r = Cube { num_timesteps, num_chans, num_baselines, data };
        assert forall|t: int, c: int, b: int|  r.in_bounds(t, c, b) implies r.at(t, c, b)
            == fill by {
            lemma_flat_index(
                num_timesteps as int,
                num_chans as int,
                num_baselines as int,
                t,
                c,
                b,
                t,
                c,
                b,
            );
        }
        r
    }
    pub fn num_timesteps(&self) -> (r: usize)
        ensures
            r == self.dims().0,
    {
        self.num_timesteps
    }

    pub fn num_chans(&self) -> (r: usize)
        ensures
            r == self.dims().1,
    {
        self.num_chans
    }

    pub fn num_baselines(&self) -> (r: usize)
        ensures
            r == self.dims().2,
    {
        self.num_baselines
    }

    /// The value at cell (t, c, b).
    pub fn get(&self, t: usize, c: usize, b: usize) -> (r: T)
        requires
            self.wf(),
            self.in_bounds(t as int, c as int, b as int),
        ensures
            r == self.at(t as int, c as int, b as int),
    {
        proof {
            lemma_flat_index(
                self.num_timesteps as int,
                self.num_chans as int,
                self.num_baselines as int,
                t as int,
                c as int,
                b as int,
                t as int,
                c as int,
                b as int,
            );
        }
        self.data[(t * self.num_chans + c) * self.num_baselines + b]
    }

    /// Replaces the value at cell (t, c, b), leaving every other cell as it was.
    pub fn set(&mut self, t: usize, c: usize, b: usize, v: T)
        requires
            old(self).wf(),
            old(self).in_bounds(t as int, c as int, b as int),
        ensures
            final(self).wf(),
            final(self).dims() == old(self).dims(),
            final(self).at(t as int, c as int, b as int) == v,
            forall|t2: int, c2: int, b2: int|
                final(self).in_bounds(t2, c2, b2) && (t2, c2, b2) != (t as int, c as int, b as int)
                    ==> #[trigger] final(self).at(t2, c2, b2) == old(self).at(t2, c2, b2),
    {
        proof {
            lemma_flat_index(
                self.num_timesteps as int,
                self.num_chans as int,
                self.num_baselines as int,
                t as int,
                c as int,
                b as int,
                t as int,
                c as int,
                b as int,
            );
        }
        let i = (t * self.num_chans + c) * self.num_baselines + b;
        self.data.set(i, v);
        proof {
            assert forall|t2: int, c2: int, b2: int|
                self.in_bounds(t2, c2, b2) && (t2, c2, b2) != (t as int, c as int, b as int)
                    implies self.at(t2, c2, b2) == old(self).at(t2, c2, b2) by {
                lemma_flat_index(
                    self.num_timesteps as int,
                    self.num_chans as int,
                    self.num_baselines as int,
                    t as int,
                    c as int,
                    b as int,
                    t2,
                    c2,
                    b2,
                );
                lemma_flat_index(
                    self.num_timesteps as int,
                    self.num_chans as int,
                    self.num_baselines as int,
                    t2,
                    c2,
                    b2,
                    t2,
                    c2,
                    b2,
                );
            }
        }
    }
}

} // verus!
