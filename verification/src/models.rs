//! The persistence schema: a record of one fetch. The core never writes it;
//! it exists for a store component that may later wrap the dispatcher.

use vstd::prelude::*;

verus! {

/// One recorded fetch: which site, what was asked, and how it went.
#[derive(Debug, PartialEq)]
pub struct Request {
    pub id: i32,
    pub name: String,
    pub uri: String,
    pub response_status_code: String,
    pub success: bool,
}

} // verus!
