//! Transforms: pure functions as a single operation.

use vstd::prelude::*;

verus! {

/// A pure function from `In` to `Out`.
///
/// The result of [`apply`](Transform::apply) depends on the input alone, so
/// it is a function of it in contracts too: [`image`](Transform::image).
pub trait Transform<In, Out> {
    /// Whether the transform can be applied to `input`.
    spec fn takes(&self, input: In) -> bool;

    /// The result of the transform on `input`.
    spec fn image(&self, input: In) -> Out;

    /// Applies the transform.
    fn apply(&self, input: In) -> (out: Out)
        requires
            self.takes(input),
        ensures
            out == self.image(input),
    ;
}

/// Every function of one argument is a transform where it can be called and
/// has one result only.
impl<In, Out, F: Fn(In) -> Out> Transform<In, Out> for F {
    open spec fn takes(&self, input: In) -> bool {
        &&& self.requires((input,))
        &&& forall|first: Out, second: Out|
            self.ensures((input,), first) && self.ensures((input,), second) ==> first == second
    }

    open spec fn image(&self, input: In) -> Out {
        choose|out: Out| self.ensures((input,), out)
    }

    fn apply(&self, input: In) -> (out: Out) {
        self(input)
    }
}

} // verus!
