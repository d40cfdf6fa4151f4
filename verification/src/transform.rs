//! Transforms of extracted values.

use crate::value::{Number, Tree, Value};
use vstd::prelude::*;

verus! {

/// A transform as a plain function.
pub type Transform = fn(Option<Value>) -> Option<Value>;

/// Whether `f` can serve as a transform: it takes every input, and what it
/// returns depends on nothing but what its input holds.
pub open spec fn is_transform<F: Fn(Option<Value>) -> Option<Value>>(f: F) -> bool {
    &&& forall|raw: Option<Value>| call_requires(f, (raw,))
    &&& forall|a: Option<Value>, b: Option<Value>, x: Option<Value>, y: Option<Value>|
        #![trigger call_ensures(f, (a,), x), call_ensures(f, (b,), y)]
        a.deep_view() == b.deep_view() && call_ensures(f, (a,), x) && call_ensures(f, (b,), y)
            ==> x.deep_view() == y.deep_view()
}

/// What the transform `f` returns for an input that holds `raw`.
pub open spec fn transformed<F: Fn(Option<Value>) -> Option<Value>>(
    f: F,
    raw: Option<Tree>,
) -> Option<Tree> {
    let (_, out) = choose|a: Option<Value>, x: Option<Value>|
        a.deep_view() == raw && call_ensures(f, (a,), x);
    out.deep_view()
}

/// The function that the transform `f` computes.
pub open spec fn meaning<F: Fn(Option<Value>) -> Option<Value>>(f: F) -> spec_fn(
    Option<Tree>,
) -> Option<Tree> {
    |raw: Option<Tree>| transformed(f, raw)
}

/// What a transform was seen to return is what it returns for every input
/// that holds the same.
pub proof fn lemma_transformed<F: Fn(Option<Value>) -> Option<Value>>(
    f: F,
    raw: Option<Value>,
    out: Option<Value>,
)
    requires
        is_transform(f),
        call_ensures(f, (raw,), out),
    ensures
        transformed(f, raw.deep_view()) == out.deep_view(),
{
}

/// Applies `change` to a number and hands anything else back as it is, an
/// absent value too.
pub fn map_number<G: Fn(Number) -> Number>(val: Option<Value>, change: G) -> (out: Option<Value>)
    requires
        forall|n: Number| call_requires(change, (n,)),
    ensures
        match val {
            Some(Value::Number(n)) => out matches Some(Value::Number(m)) && call_ensures(
                change,
                (n,),
                m,
            ),
            _ => out == val,
        },
{
    match val {
        Some(Value::Number(n)) => Some(Value::Number(change(n))),
        other => other,
    }
}

} // verus!
