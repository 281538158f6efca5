//! Verified core of a weather oracle for a block-based ledger.
//!
//! The library covers the logic with protocol semantics: quantizing a
//! temperature into a bounded fixed-point fraction, scaling coordinates
//! between decimal strings and a signed 16-bit on-ledger form, extracting
//! the temperature from a weather service's JSON reply, the per-block
//! decisions of the inherent-data provider, and the ledger module that
//! validates, stores and expires the data once per block.  The network
//! calls themselves live outside the library; every decision on their
//! results is verified here.

use vstd::prelude::*;

pub mod coords;
pub mod decimal;
pub mod json;
pub mod ledger;
pub mod provider;
pub mod quantize;

verus! {

/// Eight-byte tag under which the quantized temperature travels in the
/// inherent-data bag (the bytes of "weat_orc").
pub const INHERENT_IDENTIFIER: [u8; 8] = [119u8, 101u8, 97u8, 116u8, 95u8, 111u8, 114u8, 99u8];

} // verus!
