//! Zero-copy flat views over buffers of fixed-shape numeric aggregates.
//!
//! A scalar is held as the bit pattern of a single-precision number, an
//! aggregate as `R` rows of `C` scalars. A buffer of aggregates can be read
//! as one flat run of scalars, and a flat run can be described to a foreign
//! consumer by a handle.

pub mod storable;
pub mod view;
pub mod dom;

pub use dom::set_object_transform;
pub use storable::{flattened, Matrix, Scalar, Storable};
pub use view::{ForeignViewHandle, JsBufferView};
