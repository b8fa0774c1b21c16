//! Requests and their headers.

use vstd::hash_map::StringHashMap;
use vstd::prelude::*;

verus! {

/// A header with all its values.
pub struct Header {
    pub key: String,
    pub values: Vec<String>,
}

impl Header {
    /// A header with one value.
    pub fn new(key: String, value: String) -> (h: Self)
        ensures
            h.key == key,
            h.values@ == seq![value],
    {
        let mut values: Vec<String> = Vec::new();
        values.push(value);
        assert(values@ =~= seq![value]);
        Header { key, values }
    }

    /// A header with any number of values.
    pub fn with_values(key: String, values: Vec<String>) -> (h: Self)
        ensures
            h == (Header { key, values }),
    {
        Header { key, values }
    }
}

/// A request.
pub struct Request {
    /// The values of each header.
    pub headers: StringHashMap<Vec<String>>,
}

impl Request {
    /// A request without headers.
    pub fn new() -> (req: Self)
        ensures
            req.headers@ == Map::<Seq<char>, Vec<String>>::empty(),
    {
        Request { headers: StringHashMap::new() }
    }

    /// Has no request to set a header of, and does nothing.
    pub fn set_header() {
    }
}

} // verus!
