use vstd::prelude::*;

verus! {

/// Whether a grid axis is an interval or a circle.
#[derive(Clone, Copy, Debug, PartialEq, Eq, Structural)]
pub enum GridAxisTopology {
    Linear,
    Circular,
}

/// One axis of a Marching Squares grid: `size` sample values, either along an interval (linear)
/// or around a circle (circular). The values themselves are left to the caller.
#[derive(Debug)]
pub struct GridAxis<T> {
    pub topology: GridAxisTopology,
    pub size: usize,
    pub values: Vec<T>,
}

/// A grid with a u axis and a v axis.
#[derive(Debug)]
pub struct Grid<T> {
    pub u_axis: GridAxis<T>,
    pub v_axis: GridAxis<T>,
}

impl<T> GridAxis<T> {
    /// The axis has at least one sample.
    pub open spec fn valid(&self) -> bool {
        self.size >= 1
    }

    /// A linear axis of `size` samples has `size - 1` segments; a circular one also has a segment
    /// from its last sample back to its first.
    pub open spec fn spec_num_segments(&self) -> int {
        match self.topology {
            GridAxisTopology::Circular => self.size as int,
            GridAxisTopology::Linear => self.size - 1,
        }
    }

    /// The index itself on a linear axis, the index modulo the size on a circular one.
    pub open spec fn spec_wrap(&self, index: int) -> int {
        match self.topology {
            GridAxisTopology::Circular => index % (self.size as int),
            GridAxisTopology::Linear => index,
        }
    }

    pub fn num_segments(&self) -> (n: usize)
        requires
            self.valid(),
        ensures
            n == self.spec_num_segments(),
    {
        match self.topology {
            GridAxisTopology::Circular => self.size,
            GridAxisTopology::Linear => self.size - 1,
        }
    }

    /// For a linear axis, do nothing. For a circular axis, take the index modulo the size of the
    /// axis.
    pub fn wrap(&self, index: usize) -> (r: usize)
        requires
            self.valid(),
        ensures
            r == self.spec_wrap(index as int),
    {
        match self.topology {
            GridAxisTopology::Circular => index % self.size,
            GridAxisTopology::Linear => index,
        }
    }
}

/// Wrapping gives an index of the axis on a circular axis: it is below the size, leaves the
/// indices of the axis alone, and going once around the axis comes back to the same index. On a
/// linear axis it leaves every index alone.
pub proof fn lemma_wrap<T>(axis: GridAxis<T>, index: int)
    requires
        axis.valid(),
        index >= 0,
    ensures
        axis.topology == GridAxisTopology::Circular ==> {
            &&& 0 <= axis.spec_wrap(index) < axis.size
            &&& index < axis.size ==> axis.spec_wrap(index) == index
            &&& axis.spec_wrap(index + axis.size) == axis.spec_wrap(index)
        },
        axis.topology == GridAxisTopology::Linear ==> axis.spec_wrap(index) == index,
{
    if axis.topology == GridAxisTopology::Circular {
        let n = axis.size as int;
        if index < n {
            vstd::arithmetic::div_mod::lemma_small_mod(index as nat, n as nat);
        }
        vstd::arithmetic::div_mod::lemma_mod_add_multiples_vanish(index, n);
    }
}

impl<T> Grid<T> {
    pub open spec fn valid(&self) -> bool {
        self.u_axis.valid() && self.v_axis.valid()
    }
}

} // verus!
