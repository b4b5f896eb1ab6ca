//! Nodes made of a pairing and a transform.

use vstd::prelude::*;
use vstd::std_specs::ops::AddSpec;
use std::ops::Add;
use crate::compute::Compute;
use crate::map::Mapped;
use crate::transform::Transform;
use crate::zip::Zip;

verus! {

/// The transform that adds the two halves of a pair. It can be applied where
/// the addition by `+` is specified and can be made.
pub struct Sum;

impl<X: Add<Y>, Y> Transform<(X, Y), X::Output> for Sum {
    open spec fn takes(&self, input: (X, Y)) -> bool {
        X::obeys_add_spec() && input.0.add_req(input.1)
    }

    open spec fn image(&self, input: (X, Y)) -> X::Output {
        input.0.add_spec(input.1)
    }

    fn apply(&self, input: (X, Y)) -> (out: X::Output) {
        input.0 + input.1
    }
}

/// The node whose value is the sum of the values of `a` and `b`.
pub fn add<A, B>(a: A, b: B) -> (sum: Mapped<
    Zip<A, B>,
    Sum,
    <A::Output as Add<B::Output>>::Output,
>) where
    A: Compute + 'static,
    B: Compute<Leaf = A::Leaf> + 'static,
    A::Output: Add<B::Output>,
    <A::Output as Add<B::Output>>::Output: 'static,

    ensures
        sum.source().first() == a,
        sum.source().second() == b,
        sum.sources() == a.sources() + b.sources(),
        forall|values: Seq<A::Leaf>| #[trigger]
            sum.ready(values) <==> {
                &&& a.ready(values)
                &&& b.ready(values)
                &&& A::Output::obeys_add_spec()
                &&& a.value(values).add_req(b.value(values))
            },
        forall|values: Seq<A::Leaf>| #[trigger]
            sum.value(values) == a.value(values).add_spec(b.value(values)),
{
    let zipped = crate::zip::zip(a, b);
    crate::map::map(zipped, Sum)
}

} // verus!
