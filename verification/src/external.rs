//! Standard-library types that the library's errors carry. Verus sees them
//! as opaque values that are only passed along.

use vstd::prelude::*;

verus! {

/// `std::io::Error`, carried by read and thread-spawn failures.
#[verifier::external_type_specification]
#[verifier::external_body]
pub struct ExIoError(std::io::Error);

/// `std::num::ParseIntError`, carried by malformed integer files.
#[verifier::external_type_specification]
#[verifier::external_body]
pub struct ExParseIntError(std::num::ParseIntError);

/// `std::sync::mpsc::RecvError`, carried when worker start-up confirmations stop.
#[verifier::external_type_specification]
#[verifier::external_body]
pub struct ExRecvError(std::sync::mpsc::RecvError);

} // verus!
