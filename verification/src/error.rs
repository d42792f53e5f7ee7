//! Error type for the parser.

use vstd::prelude::*;

verus! {

/// Opaque parse error.
///
/// The parser stops at the first failure: an unexpected token, an
/// unterminated construct, or a malformed integer all report this one
/// error.
#[derive(Clone, Copy, Debug, Eq, PartialEq, Structural)]
pub struct Error;

} // verus!
