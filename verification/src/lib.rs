//! A backend-agnostic key-value storage library with optional per-entry
//! expiration (TTL), a reference in-memory backend, a TTL overlay that
//! retrofits expiration onto any raw backend, and a typed façade with an
//! order-preserving integer key encoding.

pub mod bigendian;
pub mod codec;
pub mod error;
pub mod keyval;
pub mod keyval_ext;
pub mod memory;
pub mod ttl_wrap;
pub mod types;

pub use codec::Codec;
pub use error::Error;
pub use keyval::KeyVal;
pub use keyval_ext::{SharedStore, StoreExt};
pub use memory::Memory;
pub use ttl_wrap::{TtlWrap, TtlWrapItem};
pub use types::{Integer, Key, Raw, Store, Ttl, TtlStore, Value};
