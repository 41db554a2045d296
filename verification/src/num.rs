//! Factory operations: building tensor buffers filled with a constant
//! or with externally supplied random values, sized by a dimension
//! chain.  A shape that describes no elements is normalised to a
//! single `(0, 0)` node with the data left unset.

use vstd::prelude::*;

use rand::Rng;

use crate::collective::Collective;
use crate::dimensions::{Dimensions, products_fit_to, total_count};

verus! {

/// Namespace for the factory operations.
pub struct Tensor;

/// Capability an element type must supply to be usable with
/// [`Tensor::ones`]: a designated "one" value.
pub trait One: Sized {
    /// The designated one value, as a mathematical constant.
    spec fn one_spec() -> Self;

    /// Returns the designated one value.
    fn one() -> (r: Self)
        ensures
            r == Self::one_spec(),
    ;
}

impl One for i32 {
    open spec fn one_spec() -> i32 {
        1
    }

    fn one() -> (r: i32) {
        1
    }
}

/// Capability an element type must supply to be usable with
/// [`Tensor::zeros`]: a designated "zero" value.
pub trait Zero: Sized {
    /// The designated zero value, as a mathematical constant.
    spec fn zero_spec() -> Self;

    /// Returns the designated zero value.
    fn zero() -> (r: Self)
        ensures
            r == Self::zero_spec(),
    ;
}

impl Zero for i32 {
    open spec fn zero_spec() -> i32 {
        0
    }

    fn zero() -> (r: i32) {
        0
    }
}

/// What every factory guarantees about its result: over a shape that
/// describes no elements, the data is left unset and the shape is
/// normalised to a single `(0, 0)` node; otherwise the data holds one
/// element per described place and the shape is the given chain,
/// unchanged.
pub open spec fn allocated_result<E>(c: Collective<E>, like: Dimensions) -> bool {
    if total_count(like@) == 0 {
        &&& c.data is None
        &&& c.shape is Some
        &&& c.shape->Some_0@ == seq![(0nat, 0nat)]
    } else {
        &&& c.data is Some
        &&& c.data->Some_0@.len() == total_count(like@)
        &&& c.shape is Some
        &&& *(c.shape->Some_0) == like
    }
}

/// What the constant-filling factories guarantee on top of
/// [`allocated_result`]: every allocated element equals `value`.
pub open spec fn filled_result<E>(c: Collective<E>, like: Dimensions, value: E) -> bool {
    &&& allocated_result(c, like)
    &&& (c.data is Some ==> forall|i: int|
        0 <= i < c.data->Some_0@.len() ==> #[trigger] c.data->Some_0@[i] == value)
}

/// Relies on `rand::thread_rng` and `rand::Rng::gen`: one sample of
/// `E` drawn from rand's standard distribution.  Nothing is promised
/// of the value.
#[verifier::external_body]
fn sample_standard<E: Copy>() -> E where
    rand::distributions::Standard: rand::distributions::Distribution<E>,
 {
    rand::thread_rng().gen::<E>()
}

/// Relies on `rand::Rng::gen_range` over `low..high`: a uniformly
/// drawn value at least `low` and below `high`.  The range must be
/// nonempty, since `gen_range` does not return on an empty one.
#[verifier::external_body]
fn sample_int_range(low: i32, high: i32) -> (r: i32)
    requires
        low < high,
    ensures
        low <= r < high,
{
    rand::thread_rng().gen_range(low..high)
}

impl Tensor {
    /// Builds a buffer with one zero per place the shape describes;
    /// a shape describing no elements yields unset data and the
    /// normalised `(0, 0)` shape.
    #[verifier::loop_isolation(false)]
    pub fn zeros<E: Zero + Copy>(like: Dimensions) -> (c: Collective<E>)
        requires
            products_fit_to(like@, like@.len() as int),
            total_count(like@) <= usize::MAX,
        ensures
            filled_result(c, like, E::zero_spec()),
    {
        let n = like.get_n();
        if n == 0 {
            return Collective { data: None, shape: Some(Box::new(Dimensions::new(0, 0))) };
        }
        let mut data: Vec<E> = Vec::new();
        while data.len() < n
            invariant
                data@.len() <= n,
                forall|i: int| 0 <= i < data@.len() ==> #[trigger] data@[i] == E::zero_spec(),
            decreases n - data@.len(),
        {
            data.push(E::zero());
        }
        Collective { data: Some(data), shape: Some(Box::new(like)) }
    }

    /// Builds a buffer with one one per place the shape describes;
    /// a shape describing no elements yields unset data and the
    /// normalised `(0, 0)` shape.
    #[verifier::loop_isolation(false)]
    pub fn ones<E: One + Copy>(like: Dimensions) -> (c: Collective<E>)
        requires
            products_fit_to(like@, like@.len() as int),
            total_count(like@) <= usize::MAX,
        ensures
            filled_result(c, like, E::one_spec()),
    {
        let n = like.get_n();
        if n == 0 {
            return Collective { data: None, shape: Some(Box::new(Dimensions::new(0, 0))) };
        }
        let mut data: Vec<E> = Vec::new();
        while data.len() < n
            invariant
                data@.len() <= n,
                forall|i: int| 0 <= i < data@.len() ==> #[trigger] data@[i] == E::one_spec(),
            decreases n - data@.len(),
        {
            data.push(E::one());
        }
        Collective { data: Some(data), shape: Some(Box::new(like)) }
    }

    /// Builds a buffer with one sample of rand's standard distribution
    /// per place the shape describes; a shape describing no elements
    /// yields unset data and the normalised `(0, 0)` shape.  Nothing
    /// is promised of the sampled values.
    #[verifier::loop_isolation(false)]
    pub fn randn<E: Copy>(like: Dimensions) -> (c: Collective<E>) where
        rand::distributions::Standard: rand::distributions::Distribution<E>,

        requires
            products_fit_to(like@, like@.len() as int),
            total_count(like@) <= usize::MAX,
        ensures
            allocated_result(c, like),
    {
        let n = like.get_n();
        if n == 0 {
            return Collective { data: None, shape: Some(Box::new(Dimensions::new(0, 0))) };
        }
        let mut data: Vec<E> = Vec::new();
        while data.len() < n
            invariant
                data@.len() <= n,
            decreases n - data@.len(),
        {
            data.push(sample_standard::<E>());
        }
        Collective { data: Some(data), shape: Some(Box::new(like)) }
    }

    /// Builds a buffer of integers drawn from `[low, high)`, one per
    /// place the shape describes; a shape describing no elements
    /// yields unset data and the normalised `(0, 0)` shape.
    #[verifier::loop_isolation(false)]
    pub fn randint(low: i32, high: i32, like: Dimensions) -> (c: Collective<i32>)
        requires
            low < high,
            products_fit_to(like@, like@.len() as int),
            total_count(like@) <= usize::MAX,
        ensures
            allocated_result(c, like),
            c.data is Some ==> forall|i: int|
                0 <= i < c.data->Some_0@.len() ==> low <= #[trigger] c.data->Some_0@[i] < high,
    {
        let n = like.get_n();
        if n == 0 {
            return Collective { data: None, shape: Some(Box::new(Dimensions::new(0, 0))) };
        }
        let mut data: Vec<i32> = Vec::new();
        while data.len() < n
            invariant
                data@.len() <= n,
                forall|i: int| 0 <= i < data@.len() ==> low <= #[trigger] data@[i] < high,
            decreases n - data@.len(),
        {
            data.push(sample_int_range(low, high));
        }
        Collective { data: Some(data), shape: Some(Box::new(like)) }
    }
}

/// Factory façade that reports each outcome as an `Option`; every
/// operation in it succeeds, so the result is always `Some`, but the
/// shape of the interface leaves room for failure reporting.
pub struct Numrs;

impl Numrs {
    /// Builds a zero-filled buffer as [`Tensor::zeros`] does, but
    /// draws the zeros from the element type's default value and
    /// reports the outcome as an `Option`.
    #[verifier::loop_isolation(false)]
    pub fn zeros<E: Default + Copy>(like: Dimensions) -> (r: Option<Collective<E>>)
        requires
            products_fit_to(like@, like@.len() as int),
            total_count(like@) <= usize::MAX,
        ensures
            r is Some,
            allocated_result(r->Some_0, like),
            r->Some_0.data is Some ==> forall|i: int|
                0 <= i < r->Some_0.data->Some_0@.len() ==> call_ensures(
                    E::default,
                    (),
                    #[trigger] r->Some_0.data->Some_0@[i],
                ),
    {
        let n = like.get_n();
        if n == 0 {
            return Some(Collective { data: None, shape: Some(Box::new(Dimensions::new(0, 0))) });
        }
        let mut data: Vec<E> = Vec::new();
        while data.len() < n
            invariant
                data@.len() <= n,
                forall|i: int|
                    0 <= i < data@.len() ==> call_ensures(E::default, (), #[trigger] data@[i]),
            decreases n - data@.len(),
        {
            data.push(E::default());
        }
        Some(Collective { data: Some(data), shape: Some(Box::new(like)) })
    }

    /// [`Tensor::ones`], with the result wrapped in `Some`.
    pub fn ones<E: One + Copy>(like: Dimensions) -> (r: Option<Collective<E>>)
        requires
            products_fit_to(like@, like@.len() as int),
            total_count(like@) <= usize::MAX,
        ensures
            r is Some,
            filled_result(r->Some_0, like, E::one_spec()),
    {
        Some(Tensor::ones(like))
    }

    /// [`Tensor::randn`], with the result wrapped in `Some`.
    pub fn randn<E: Copy>(like: Dimensions) -> (r: Option<Collective<E>>) where
        rand::distributions::Standard: rand::distributions::Distribution<E>,

        requires
            products_fit_to(like@, like@.len() as int),
            total_count(like@) <= usize::MAX,
        ensures
            r is Some,
            allocated_result(r->Some_0, like),
    {
        Some(Tensor::randn(like))
    }
}

/// Over one shape, the zero-filled and the one-filled buffers agree in
/// form: the data of both is set or unset together, with equal lengths
/// and every element equal to the respective constant; over a shape
/// describing no elements, both leave the data unset and normalise the
/// shape to a single `(0, 0)` node.
pub proof fn lemma_zeros_ones_agree<E: Zero + One + Copy>(
    z: Collective<E>,
    o: Collective<E>,
    like: Dimensions,
)
    requires
        filled_result(z, like, E::zero_spec()),
        filled_result(o, like, E::one_spec()),
    ensures
        z.data is Some <==> o.data is Some,
        z.data is Some ==> z.data->Some_0@.len() == o.data->Some_0@.len(),
        z.data is Some ==> forall|i: int|
            0 <= i < z.data->Some_0@.len() ==> #[trigger] z.data->Some_0@[i] == E::zero_spec(),
        o.data is Some ==> forall|i: int|
            0 <= i < o.data->Some_0@.len() ==> #[trigger] o.data->Some_0@[i] == E::one_spec(),
        z.shape is Some && o.shape is Some,
        total_count(like@) == 0 ==> z.data is None && o.data is None && z.shape->Some_0@ == seq![
            (0nat, 0nat),
        ] && o.shape->Some_0@ == seq![(0nat, 0nat)],
{
}

} // verus!
