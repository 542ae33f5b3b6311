use vstd::prelude::*;

verus! {

/// A single-slot memo. It is empty until a construction succeeds; from then on
/// it holds that value for good. A failed construction leaves it empty, so the
/// next request may construct again.
pub struct LazyCell<V> {
    slot: Option<V>,
}

impl<V> LazyCell<V> {
    /// The cached value, if any.
    pub closed spec fn view(&self) -> Option<V> {
        self.slot
    }

    pub fn new() -> (r: Self)
        ensures
            r@ is None,
    {
        LazyCell { slot: None }
    }

    /// The cached value, without constructing anything.
    pub fn get(&self) -> (r: Option<&V>)
        ensures
            r is None <==> self@ is None,
            r matches Some(v) ==> self@ == Some(*v),
    {
        match &self.slot {
            Some(v) => Some(v),
            None => None,
        }
    }

    /// Stores `value` if the cell is still empty; a filled cell keeps its value.
    pub fn fill(&mut self, value: V) -> (stored: bool)
        ensures
            stored == (old(self)@ is None),
            final(self)@ == (if stored { Some(value) } else { old(self)@ }),
    {
        if self.slot.is_none() {
            self.slot = Some(value);
            true
        } else {
            false
        }
    }
}

} // verus!
