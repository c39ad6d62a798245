use vstd::prelude::*;

verus! {

/// A flag cube: a (timestep, channel, baseline) array of flags held in an
/// `ndarray::Array3<bool>`, as downstream consumers take it.
#[verifier::external_body]
pub struct FlagArray {
    inner: ndarray::Array3<bool>,
}

/// The shape of a flag array: (timesteps, channels, baselines).
pub uninterp spec fn flag_array_dims(a: FlagArray) -> (usize, usize, usize);

/// The flag held at each (timestep, channel, baseline) of a flag array.
pub uninterp spec fn flag_array_cells(a: FlagArray) -> Map<(int, int, int), bool>;

/// An axis length as it counts towards ndarray's size limit: zero-length
/// axes are left out of the product.
pub open spec fn nonzero_len(n: int) -> int {
    if n == 0 {
        1
    } else {
        n
    }
}

/// ndarray can hold an array of this shape: the product of its non-zero
/// axis lengths does not overflow `isize`.
pub open spec fn ndarray_shape_fits(nt: int, nc: int, nb: int) -> bool {
    nonzero_len(nt) * nonzero_len(nc) * nonzero_len(nb) <= isize::MAX
}

impl FlagArray {
    /// The extent of each axis: (timesteps, channels, baselines).
    pub open spec fn dims(&self) -> (usize, usize, usize) {
        flag_array_dims(*self)
    }

    /// (t, c, b) is a cell of the array.
    pub open spec fn in_bounds(&self, t: int, c: int, b: int) -> bool {
        0 <= t < self.dims().0 && 0 <= c < self.dims().1 && 0 <= b < self.dims().2
    }

    /// The flag at cell (t, c, b).
    pub open spec fn at(&self, t: int, c: int, b: int) -> bool {
        flag_array_cells(*self)[(t, c, b)]
    }

    /// The number of cells fits in memory.
    pub open spec fn wf(&self) -> bool {
        self.dims().0 * self.dims().1 * self.dims().2 <= usize::MAX
    }

    /// Relies on `ndarray::Array3::from_elem`: an array of the given shape
    /// with every cell holding `fill`; it panics only when the product of the
    /// non-zero axis lengths overflows `isize`.
    #[verifier::external_body]
    fn from_elem(num_timesteps: usize, num_chans: usize, num_baselines: usize, fill: bool) -> (r:
        FlagArray)
        requires
            ndarray_shape_fits(num_timesteps as int, num_chans as int, num_baselines as int),
        ensures
            flag_array_dims(r) == (num_timesteps, num_chans, num_baselines),
            forall|t: int, c: int, b: int|
                0 <= t < num_timesteps && 0 <= c < num_chans && 0 <= b < num_baselines
                    ==> #[trigger] flag_array_cells(r)[(t, c, b)] == fill,
    {
        FlagArray { inner: ndarray::Array3::from_elem((num_timesteps, num_chans, num_baselines), fill) }
    }

    /// Relies on `ndarray::ArrayBase::dim`: the shape of the array.
    #[verifier::external_body]
    fn dim(&self) -> (r: (usize, usize, usize))
        ensures
            r == flag_array_dims(*self),
    {
        self.inner.dim()
    }

    /// Relies on ndarray's `Index<[usize; 3]>`: the element at an index
    /// within the shape.
    #[verifier::external_body]
    fn index(&self, t: usize, c: usize, b: usize) -> (r: bool)
        requires
            self.in_bounds(t as int, c as int, b as int),
        ensures
            r == flag_array_cells(*self)[(t as int, c as int, b as int)],
    {
        self.inner[[t, c, b]]
    }

    /// Relies on ndarray's `IndexMut<[usize; 3]>`: writing the element at an
    /// index within the shape changes that element alone.
    #[verifier::external_body]
    fn index_set(&mut self, t: usize, c: usize, b: usize, v: bool)
        requires
            old(self).in_bounds(t as int, c as int, b as int),
        ensures
            flag_array_dims(*final(self)) == flag_array_dims(*old(self)),
            flag_array_cells(*final(self)) == flag_array_cells(*old(self)).insert(
                (t as int, c as int, b as int),
                v,
            ),
    {
        self.inner[[t, c, b]] = v;
    }

    /// A flag array of the given shape with every flag `fill`.
    pub fn new(num_timesteps: usize, num_chans: usize, num_baselines: usize, fill: bool) -> (r: Self)
        requires
            num_timesteps * num_chans * num_baselines <= usize::MAX,
            ndarray_shape_fits(num_timesteps as int, num_chans as int, num_baselines as int),
        ensures
            r.wf(),
            r.dims() == (num_timesteps, num_chans, num_baselines),
            forall|t: int, c: int, b: int| r.in_bounds(t, c, b) ==> #[trigger] r.at(t, c, b) == fill,
    {
        FlagArray::from_elem(num_timesteps, num_chans, num_baselines, fill)
    }

    pub fn num_timesteps(&self) -> (r: usize)
        ensures
            r == self.dims().0,
    {
        self.dim().0
    }

    pub fn num_chans(&self) -> (r: usize)
        ensures
            r == self.dims().1,
    {
        self.dim().1
    }

    pub fn num_baselines(&self) -> (r: usize)
        ensures
            r == self.dims().2,
    {
        self.dim().2
    }

    /// The flag at cell (t, c, b).
    pub fn get(&self, t: usize, c: usize, b: usize) -> (r: bool)
        requires
            self.wf(),
            self.in_bounds(t as int, c as int, b as int),
        ensures
            r == self.at(t as int, c as int, b as int),
    {
        self.index(t, c, b)
    }

    /// Replaces the flag at cell (t, c, b), leaving every other cell as it was.
    pub fn set(&mut self, t: usize, c: usize, b: usize, v: bool)
        requires
            old(self).wf(),
            old(self).in_bounds(t as int, c as int, b as int),
        ensures
            final(self).wf(),
            final(self).dims() == old(self).dims(),
            final(self).at(t as int, c as int, b as int) == v,
            forall|t2: int, c2: int, b2: int|
                final(self).in_bounds(t2, c2, b2) && (t2, c2, b2) != (t as int, c as int, b as int)
                    ==> #[trigger] final(self).at(t2, c2, b2) == old(self).at(t2, c2, b2),
    {
        self.index_set(t, c, b, v);
    }
}

} // verus!
