//! The array of records that a database query answers with, beside the
//! errors the answer reports.
use std::collections::HashMap;
use vstd::prelude::*;

verus! {

/// An array of records, and the errors reported with it, keyed by kind.
#[derive(Debug, Clone, PartialEq)]
pub struct DataArray<T> {
    pub data: Vec<T>,
    pub error: HashMap<String, String>,
}

/// `HashMap::values` followed by the iterator's `next`: the first value in
/// the map's own order, or `None` for an empty map. That order depends on
/// the map's hasher, which each process seeds at random, so the contract
/// says only that the value is one of the map's values.
#[verifier::external_body]
fn first_value(m: &HashMap<String, String>) -> (v: Option<&String>)
    ensures
        match v {
            Some(s) => m@.values().contains(*s),
            None => m@.dom().len() == 0,
        },
{
    m.values().next()
}

impl<T> DataArray<T> {
    /// One of the errors the answer reports, or `None` when it reports none.
    /// Which one, where there are several, follows the order of the map.
    pub fn error(&self) -> (e: Option<&String>)
        ensures
            match e {
                Some(s) => self.error@.values().contains(*s),
                None => self.error@.dom().len() == 0,
            },
    {
        first_value(&self.error)
    }
}

} // verus!
