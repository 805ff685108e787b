//! The transform of an object, made ready for the foreign consumer.

use vstd::prelude::*;
use crate::storable::Matrix;
use crate::view::{ForeignViewHandle, JsBufferView};

verus! {

/// Makes the handle under which the foreign consumer reads an object's 4×4
/// transform: a view of the sixteen scalars of `matrix`, in stored order.
///
/// The caller hands the handle to the consumer's property setter at once:
/// see [`ForeignViewHandle`] for how long it may be used.
pub fn set_object_transform(matrix: &Matrix<4, 4>) -> (handle: ForeignViewHandle)
    ensures
        handle.length == 16,
{
    matrix.js_buffer_view()
}

} // verus!
