use vstd::prelude::*;

verus! {

/// The secondary key-value store that a scan can write decoded records to.
/// Implementations live with the caller, beside the store they wrap; the
/// scan's own logic only hands them finished lines.
pub trait Database {
    /// Opens or creates the store.
    fn new() -> Self where Self: core::marker::Sized;

    /// Stores a line under an address, replacing what was there.
    fn put(&self, header: &String, sequence: &String);

    /// Fetches the line stored under an address, if any.
    fn get(&self, header: &String) -> Option<String>;

    /// Removes an address; says whether the removal went through.
    fn delete(&self, header: &String) -> bool;
}

} // verus!
