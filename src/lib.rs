//! Core logic of a local network reconnaissance toolkit: address and port
//! parsing, the bookkeeping of cancellable host and port scans, capture filter
//! composition and link-layer frame dissection.

use vstd::prelude::*;

pub mod addr;
pub mod capture;
pub mod config;
pub mod discovery;
pub mod dissect;
pub mod ports;
pub mod honey;
pub mod scan;
pub mod wifi;
pub mod terminal;
pub mod text;

verus! {

} // verus!
