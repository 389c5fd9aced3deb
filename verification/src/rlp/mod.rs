//! The recursive length-prefixed encoding that every transaction field uses.

pub mod bigendian;
pub mod concat;
pub mod error;
pub mod fixed;
pub mod header;
pub mod list;
pub mod string;
pub mod uint;
