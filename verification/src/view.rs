//! Handles that describe a flat run of scalars to a foreign consumer.

use vstd::prelude::*;
use vstd::arithmetic::div_mod::lemma_fundamental_div_mod_converse;
use crate::storable::{flattened, lemma_run_is_flattened, Matrix, Scalar, Storable};

verus! {

/// Describes a run of scalars in this process's memory to a foreign consumer.
///
/// The handle owns nothing and tracks no lifetime. It is good only as long as
/// the buffer it was made from is neither moved, resized nor freed, and the
/// consumer may write through it although the buffer was borrowed shared:
/// hand it over at once and keep no copy.
#[derive(Clone, Copy, Debug, PartialEq, Eq)]
pub struct ForeignViewHandle {
    /// How many scalars the run holds.
    pub length: usize,
}

/// Values that can be shown to a foreign consumer as a run of scalars,
/// without copying them.
pub trait JsBufferView {
    /// The run of scalars that a view of this value covers.
    spec fn viewed(&self) -> Seq<Scalar>;

    /// Makes the handle of a view over this value's memory. The value is
    /// neither changed nor copied.
    ///
    /// The handle is cut loose from the borrow of `self`: see
    /// [`ForeignViewHandle`] for how long it may be used.
    fn js_buffer_view(&self) -> (handle: ForeignViewHandle)
        ensures
            handle.length == self.viewed().len(),
    ;
}

impl JsBufferView for [Scalar] {
    open spec fn viewed(&self) -> Seq<Scalar> {
        self@
    }

    fn js_buffer_view(&self) -> (handle: ForeignViewHandle) {
        ForeignViewHandle { length: self.len() }
    }
}

impl<const R: usize, const C: usize> JsBufferView for [Matrix<R, C>] {
    open spec fn viewed(&self) -> Seq<Scalar> {
        flattened::<Matrix<R, C>>(self@)
    }

    fn js_buffer_view(&self) -> (handle: ForeignViewHandle)
        ensures
            handle.length == self@.len() * R * C,
    {
        let items = <Matrix<R, C> as Storable>::slice_to_items(self);
        proof {
            lemma_run_is_flattened::<Matrix<R, C>>(self@, items@);
        }
        items.js_buffer_view()
    }
}

impl<const R: usize, const C: usize> JsBufferView for Matrix<R, C> {
    open spec fn viewed(&self) -> Seq<Scalar> {
        self.cells()
    }

    fn js_buffer_view(&self) -> (handle: ForeignViewHandle)
        ensures
            handle.length == R * C,
    {
        let alone = single(self);
        proof {
            lemma_flattened_single(*self);
        }
        alone.js_buffer_view()
    }
}

/// `core::slice::from_ref`: the slice of length one that holds the referenced
/// value, in place.
#[verifier::external_body]
fn single<T>(item: &T) -> (alone: &[T])
    ensures
        alone@ == seq![*item],
{
    core::slice::from_ref(item)
}

/// A view of one item covers what a view of the buffer that holds just this
/// item covers: its cells, in stored order.
pub proof fn lemma_flattened_single<T: Storable>(item: T)
    ensures
        flattened::<T>(seq![item]) == item.cells(),
{
    let w = T::width() as int;
    let flat = flattened::<T>(seq![item]);
    item.cells_fill_width();
    assert(flat.len() == 1 * T::width());
    assert forall|k: int| 0 <= k < w implies #[trigger] flat[k] == item.cells()[k] by {
        lemma_fundamental_div_mod_converse(k, w, 0, k);
    }
    assert(flat =~= item.cells());
}

} // verus!
