pub mod csv_loader;
pub mod database;
pub mod keys;
pub mod scanner;
pub mod utils;
pub mod utxo;

use vstd::prelude::*;
use crate::csv_loader::{AddressIndex, csv_index, fields_view, split_commas};

verus! {

/// Groups the data lines of a previously rendered CSV file by their address
/// field: each address maps to the numbers of the lines that carry it, in
/// order.  The first line is the header and is skipped.
pub fn load_from_csv(lines: &Vec<Vec<u8>>) -> (r: AddressIndex)
    requires
        forall|i: int| 1 <= i < lines@.len() ==> split_commas(lines@[i]@).len() >= 4,
        lines@.len() <= u64::MAX,
    ensures
        r.wf(),
        r@ == csv_index(fields_view(lines@), lines@.len() as int),
{
    csv_loader::load(lines)
}

} // verus!
