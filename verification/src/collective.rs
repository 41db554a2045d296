//! Tensor buffers: a flat element buffer paired with the shape that
//! addresses it.  Either part may be deferred — left unset until a
//! later stage of a computation fills it in.

use vstd::prelude::*;

use crate::dimensions::{Dimensions, products_fit_to, total_count};
use crate::header::Axis;

verus! {

/// The ways an access to a tensor buffer can fail.  The first two mark
/// misuse of the buffer; the last marks a feature that is deliberately
/// not available, so callers can tell the two situations apart.
#[derive(Debug, Clone, Copy, PartialEq, Eq)]
pub enum CollectiveError {
    /// An indexed read or write reached a buffer whose data is unset.
    UnallocatedAccess,
    /// A slice request ran backwards or past the end of the data.
    RangeViolation,
    /// A slice along rows or columns is not available.
    UnsupportedAxis,
}

/// A tensor buffer.  Four states are legal: both parts unset (fully
/// deferred), either part alone set, or both set (fully realized).
/// The element count is always derived from the shape, never stored.
pub struct Collective<E> {
    /// The flat element buffer, if allocated.
    pub data: Option<Vec<E>>,
    /// The owned shape that addresses the buffer, if known.
    pub shape: Option<Box<Dimensions>>,
}

impl<E: Default + Copy> Collective<E> {
    /// Direct constructor: accepts any of the four lifecycle states
    /// and performs no validation.
    pub fn new(data: Option<Vec<E>>, shape: Option<Box<Dimensions>>) -> (c: Collective<E>)
        ensures
            c.data == data,
            c.shape == shape,
    {
        Collective { data, shape }
    }

    /// Allocates a buffer with one element per place the shape
    /// describes, each produced by the element type's default, and
    /// pairs it with that shape: the canonical "allocate now" path.
    #[verifier::loop_isolation(false)]
    pub fn from_shape(shape: Box<Dimensions>) -> (c: Collective<E>)
        requires
            products_fit_to(shape@, shape@.len() as int),
            total_count(shape@) <= usize::MAX,
        ensures
            c.data is Some,
            c.data->Some_0@.len() == total_count(shape@),
            forall|i: int|
                0 <= i < c.data->Some_0@.len() ==> call_ensures(
                    E::default,
                    (),
                    #[trigger] c.data->Some_0@[i],
                ),
            c.shape == Some(shape),
    {
        let size = shape.get_n();
        let mut data: Vec<E> = Vec::new();
        while data.len() < size
            invariant
                data@.len() <= size,
                forall|i: int|
                    0 <= i < data@.len() ==> call_ensures(E::default, (), #[trigger] data@[i]),
            decreases size - data@.len(),
        {
            data.push(E::default());
        }
        Collective { data: Some(data), shape: Some(shape) }
    }

    /// Reads the element at the given flat offset.  Fails with
    /// `UnallocatedAccess` when the data is unset and with
    /// `RangeViolation` when the offset is past the end.
    pub fn get(&self, index: usize) -> (r: Result<E, CollectiveError>)
        ensures
            r == (if self.data is None {
                Result::<E, CollectiveError>::Err(CollectiveError::UnallocatedAccess)
            } else if index >= self.data->Some_0@.len() {
                Result::<E, CollectiveError>::Err(CollectiveError::RangeViolation)
            } else {
                Result::<E, CollectiveError>::Ok(self.data->Some_0@[index as int])
            }),
    {
        match &self.data {
            Option::Some(buffer) => {
                if index < buffer.len() {
                    Ok(buffer[index])
                } else {
                    Err(CollectiveError::RangeViolation)
                }
            },
            Option::None => Err(CollectiveError::UnallocatedAccess),
        }
    }

    /// Writes the element at the given flat offset.  Fails exactly as
    /// [`Self::get`] does, and leaves the buffer untouched on failure.
    pub fn set(&mut self, index: usize, value: E) -> (r: Result<(), CollectiveError>)
        ensures
            final(self).shape == old(self).shape,
            old(self).data is None ==> {
                &&& r == Result::<(), CollectiveError>::Err(CollectiveError::UnallocatedAccess)
                &&& final(self).data == old(self).data
            },
            old(self).data is Some && index >= old(self).data->Some_0@.len() ==> {
                &&& r == Result::<(), CollectiveError>::Err(CollectiveError::RangeViolation)
                &&& final(self).data == old(self).data
            },
            old(self).data is Some && index < old(self).data->Some_0@.len() ==> {
                &&& r == Result::<(), CollectiveError>::Ok(())
                &&& final(self).data is Some
                &&& final(self).data->Some_0@ == old(self).data->Some_0@.update(index as int, value)
            },
    {
        match &mut self.data {
            Option::Some(buffer) => {
                if index < buffer.len() {
                    buffer[index] = value;
                    Ok(())
                } else {
                    Err(CollectiveError::RangeViolation)
                }
            },
            Option::None => Err(CollectiveError::UnallocatedAccess),
        }
    }

    /// Copies the half-open element range `[start, end)` into a new
    /// buffer paired with the caller-supplied shape.  Only the
    /// flattening axis is available: a request along rows or columns
    /// reports `UnsupportedAxis`.  A backwards or out-of-range request
    /// over allocated data reports `RangeViolation`; a slice of a
    /// buffer with no data is a buffer with both parts unset.
    #[verifier::loop_isolation(false)]
    pub fn get_slice(&self, start: usize, end: usize, shape: Box<Dimensions>, axis: Axis) -> (r:
        Result<Box<Collective<E>>, CollectiveError>)
        ensures
            match axis {
                Axis::Flatten => match self.data {
                    Option::Some(data) => {
                        if start > end || end > data@.len() {
                            r == Result::<Box<Collective<E>>, CollectiveError>::Err(
                                CollectiveError::RangeViolation,
                            )
                        } else {
                            &&& r is Ok
                            &&& r->Ok_0.data is Some
                            &&& r->Ok_0.data->Some_0@ == data@.subrange(start as int, end as int)
                            &&& r->Ok_0.shape == Some(shape)
                        }
                    },
                    Option::None => r is Ok && r->Ok_0.data is None && r->Ok_0.shape is None,
                },
                Axis::Rows => r == Result::<Box<Collective<E>>, CollectiveError>::Err(
                    CollectiveError::UnsupportedAxis,
                ),
                Axis::Columns => r == Result::<Box<Collective<E>>, CollectiveError>::Err(
                    CollectiveError::UnsupportedAxis,
                ),
            },
    {
        match axis {
            Axis::Flatten => {
                match &self.data {
                    Option::Some(data) => {
                        if start > end || end > data.len() {
                            return Err(CollectiveError::RangeViolation);
                        }
                        let mut buffer: Vec<E> = Vec::new();
                        let mut i = start;
                        while i < end
                            invariant
                                start <= i <= end,
                                buffer@ == data@.subrange(start as int, i as int),
                            decreases end - i,
                        {
                            buffer.push(data[i]);
                            i = i + 1;
                            proof {
                                assert(buffer@ =~= data@.subrange(start as int, i as int));
                            }
                        }
                        Ok(Box::new(Collective { data: Some(buffer), shape: Some(shape) }))
                    },
                    Option::None => Ok(Box::new(Collective { data: None, shape: None })),
                }
            },
            Axis::Rows => Err(CollectiveError::UnsupportedAxis),
            Axis::Columns => Err(CollectiveError::UnsupportedAxis),
        }
    }
}

} // verus!
