//! A netlink message header codec over byte buffers, with verified contracts.

pub mod ffi;
pub mod nl;
pub mod nlhdr;
pub mod state;

pub use ffi::{pack_flags, unpack_flags, NlFlags, NlType};
pub use nl::Nl;
pub use nlhdr::{NlEmpty, NlHdr, NlHdrView, NL_HDR_FIXED};
pub use state::{DeError, Endian, NlDeState, NlSerState, SerError};
