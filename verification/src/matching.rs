//! Matching the name of a symbol against a query.

use vstd::prelude::*;

use crate::text::{bytes_contain, bytes_eq, contains_bytes};
use crate::unicode::{lowercase, to_lowercase};

verus! {

/// Whether the name `symbol` answers `query`. With `substring` the name must
/// hold the query, without it the two must be equal. Unless `case_sensitive`,
/// both are compared in lower case.
pub open spec fn name_matches(
    symbol: Seq<u8>,
    query: Seq<u8>,
    substring: bool,
    case_sensitive: bool,
) -> bool {
    let s = if case_sensitive { symbol } else { lowercase(symbol) };
    let q = if case_sensitive { query } else { lowercase(query) };
    if substring {
        contains_bytes(s, q)
    } else {
        s == q
    }
}

/// Whether the name `symbol` answers `query`.
pub fn symbol_name_matches(symbol: &[u8], query: &[u8], substring: bool, case_sensitive: bool) -> (r:
    bool)
    ensures
        r == name_matches(symbol@, query@, substring, case_sensitive),
{
    if case_sensitive {
        if substring {
            bytes_contain(symbol, query)
        } else {
            bytes_eq(symbol, query)
        }
    } else {
        let symbol_lower = to_lowercase(symbol);
        let query_lower = to_lowercase(query);
        if substring {
            bytes_contain(symbol_lower.as_slice(), query_lower.as_slice())
        } else {
            bytes_eq(symbol_lower.as_slice(), query_lower.as_slice())
        }
    }
}

} // verus!
