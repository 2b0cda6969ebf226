//! Recovery of C++ class metadata (inheritance chains and virtual-function
//! tables) from 32-bit little-endian Itanium-ABI binaries.
pub mod error;
pub mod text;
pub mod binreader;
pub mod symbols;
pub mod mangle;
pub mod rtti;
pub mod vtable;
pub mod display;
pub mod present;
pub mod analysis;
