use vstd::prelude::*;

verus! {

/// Data that two update loops hand back and forth. After a swap each side
/// holds what the other held, and each side is told once that it received
/// new data.
pub struct SystemSwapData<T> {
    data: T,
    swapped: bool,
}

impl<T> SystemSwapData<T> {
    /// The data held.
    pub closed spec fn value(&self) -> T {
        self.data
    }

    /// Whether a swap happened that `swapped` has not yet reported.
    pub closed spec fn is_swapped(&self) -> bool {
        self.swapped
    }

    /// Holds `data`, with no swap to report.
    pub fn new(data: T) -> (r: Self)
        ensures
            r.value() == data,
            !r.is_swapped(),
    {
        SystemSwapData { data, swapped: false }
    }

    /// Exchanges the data of the two sides; both then have a swap to report.
    pub fn swap(&mut self, other: &mut SystemSwapData<T>)
        ensures
            final(self).value() == old(other).value(),
            final(other).value() == old(self).value(),
            final(self).is_swapped(),
            final(other).is_swapped(),
    {
        core::mem::swap(&mut self.data, &mut other.data);
        self.swapped = true;
        other.swapped = true;
    }

    /// Gives mutable access to the data the first time it is called after a
    /// swap, and nothing otherwise.
    pub fn swapped(&mut self) -> (r: Option<&mut T>)
        ensures
            !final(self).is_swapped(),
            old(self).is_swapped() ==> {
                &&& r is Some
                &&& *r->0 == old(self).value()
                &&& final(self).value() == *final(r->0)
            },
            !old(self).is_swapped() ==> r is None && final(self).value() == old(self).value(),
    {
        if self.swapped {
            self.swapped = false;
            Some(&mut self.data)
        } else {
            None
        }
    }

    /// The data held.
    pub fn get(&self) -> (r: &T)
        ensures
            *r == self.value(),
    {
        &self.data
    }

    /// Mutable access to the data held; this does not count as a swap.
    pub fn get_mut(&mut self) -> (r: &mut T)
        ensures
            *r == old(self).value(),
            final(self).value() == *final(r),
            final(self).is_swapped() == old(self).is_swapped(),
    {
        &mut self.data
    }
}

} // verus!
