//! A single resting price point.

use crate::decimal::Decimal;
use vstd::prelude::*;

verus! {

/// What a [`Level`] stands for: three numbers.
pub struct LevelView {
    pub price: real,
    pub size: real,
    pub value: real,
}

/// All resting interest at one price on one side.
#[derive(Debug)]
pub struct Level {
    pub price: Decimal,
    pub size: Decimal,
    /// The notional: always the exact product of price and size.
    pub value: Decimal,
}

impl View for Level {
    type V = LevelView;

    open spec fn view(&self) -> LevelView {
        LevelView { price: self.price@, size: self.size@, value: self.value@ }
    }
}

impl Clone for Level {
    fn clone(&self) -> (r: Self)
        ensures
            r@ == self@,
            r.wf() == self.wf(),
            r.price.scale == self.price.scale,
            r.size.scale == self.size.scale,
            r.value.scale == self.value.scale,
    {
        Level { price: self.price.clone(), size: self.size.clone(), value: self.value.clone() }
    }
}

/// What a sequence of levels stands for.
pub open spec fn levels_view(v: Seq<Level>) -> Seq<LevelView> {
    v.map_values(|l: Level| l@)
}

impl Level {
    /// The value is the product of price and size, and the scales are in range.
    pub open spec fn wf(&self) -> bool {
        &&& self.price.wf()
        &&& self.size.wf()
        &&& self.value.within(2)
        &&& self.value@ == self.price@ * self.size@
    }

    /// The level of `size` at `price`.
    pub fn new(price: Decimal, size: Decimal) -> (r: Level)
        requires
            price.wf(),
            size.wf(),
        ensures
            r.wf(),
            r.price == price,
            r.size == size,
            r@.price == price@,
            r@.size == size@,
            r@.value == price@ * size@,
    {
        let value = price.times(&size);
        Level { price, size, value }
    }
}

} // verus!
