//! Decoding of TETRA Location Information Protocol (LIP) position reports.
//!
//! LIP travels as Type-4 user data of the short data service (SDS), under the protocol
//! identifier 10. This crate decodes the LIP PDUs that report a position, so that what shows or
//! watches positions need not parse SDS messages. It keeps every value exact: angles are
//! fixed-point degrees, and a velocity keeps the form in which it is coded.

pub mod bits;
pub mod fields;
pub mod laws;
pub mod position;
pub mod reader;

pub use crate::fields::HorizontalVelocity;
pub use crate::position::{decode_tetra_lip_position, SdsUserData, TetraLipPosition};
pub use crate::reader::BitReader;
