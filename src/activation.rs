use vstd::prelude::*;

verus! {

/// An activation function paired with its derivative, both plain functions on the
/// element type. The network applies `function` on the way forward and `derivative`
/// to cached values on the way back.
pub struct Activation<F, D> {
    pub function: F,
    pub derivative: D,
}

impl<F, D> Activation<F, D> {
    /// Both functions accept every element value.
    pub open spec fn callable<T>(&self) -> bool where F: Fn(T) -> T, D: Fn(T) -> T {
        &&& forall|x: T| #[trigger] self.function.requires((x,))
        &&& forall|x: T| #[trigger] self.derivative.requires((x,))
    }
}

} // verus!
