use vstd::prelude::*;

verus! {

/// A bank transaction in the shape shared by the fetching and submitting
/// sides: the amount in whole currency units and the date as seconds since
/// the Unix epoch (UTC).
#[derive(Debug)]
pub struct CommonTransaction {
    pub id: String,
    pub amount: i32,
    pub bank_account_key: String,
    pub date: i64,
    pub memo: String,
    pub payee: String,
}

} // verus!
