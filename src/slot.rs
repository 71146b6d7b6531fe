use vstd::prelude::*;

verus! {

/// One storage position of a map: either vacant or holding a live value.
#[derive(Clone, Copy)]
pub enum Slot<V> {
    Vacant,
    Occupied(V),
}

impl<V: Copy> Slot<V> {
    /// The value held, if any.
    pub open spec fn view(&self) -> Option<V> {
        match self {
            Slot::Vacant => None,
            Slot::Occupied(v) => Some(*v),
        }
    }

    /// A slot that holds nothing.
    pub fn vacant() -> (s: Self)
        ensures
            s@ == None::<V>,
    {
        Slot::Vacant
    }

    /// Stores `v`, replacing whatever was held.
    pub fn write(&mut self, v: V)
        ensures
            final(self)@ == Some(v),
    {
        *self = Slot::Occupied(v);
    }

    /// The held value, or `None` when the slot is vacant.
    pub fn read(&self) -> (r: Option<&V>)
        ensures
            r.is_some() == self@.is_some(),
            r.is_some() ==> *r.unwrap() == self@.unwrap(),
    {
        match self {
            Slot::Vacant => None,
            Slot::Occupied(v) => Some(v),
        }
    }

    /// Marks the slot vacant.
    pub fn clear(&mut self)
        ensures
            final(self)@ == None::<V>,
    {
        *self = Slot::Vacant;
    }

    pub fn is_occupied(&self) -> (r: bool)
        ensures
            r == self@.is_some(),
    {
        matches!(self, Slot::Occupied(_))
    }
}

} // verus!
