//! The bank side: raw transaction records as the SpareBank1 API returns
//! them, their normalised canonical form, and the client that owns the
//! access token. The network calls themselves live outside the library; the
//! normalisation they need is verified here.

use vstd::prelude::*;

verus! {

/// A raw transaction as the bank's transactions endpoint returns it: the
/// amount already rendered as decimal text, optional descriptions, and the
/// date in milliseconds since the Unix epoch.
#[derive(Debug)]
pub struct TransactionResponse {
    pub id: String,
    pub amount_text: String,
    pub description: Option<String>,
    pub cleaned_description: Option<String>,
    pub account_key: String,
    pub date: i64,
}

/// A canonical bank transaction: descriptions normalised to plain strings
/// (empty when the bank sent none) and the date in whole seconds since the
/// Unix epoch, UTC.
#[derive(Debug)]
pub struct Transaction {
    pub id: String,
    pub description: String,
    pub payee: String,
    pub amount_text: String,
    pub date: i64,
    pub account: String,
}

/// The characters of an optional string; empty when it is absent.
pub open spec fn or_empty(o: Option<String>) -> Seq<char> {
    match o {
        Some(s) => s@,
        None => Seq::empty(),
    }
}

/// The canonical transaction `t` is the normalisation of the raw record
/// `raw`: fields copied, missing descriptions turned into empty strings, and
/// the millisecond timestamp divided by 1000 (truncating) into seconds.
pub open spec fn parsed_from(t: Transaction, raw: TransactionResponse) -> bool {
    &&& t.id@ == raw.id@
    &&& t.account@ == raw.account_key@
    &&& t.description@ == or_empty(raw.description)
    &&& t.payee@ == or_empty(raw.cleaned_description)
    &&& t.amount_text@ == raw.amount_text@
    &&& t.date == raw.date / 1000
}

fn clone_or_empty(o: &Option<String>) -> (r: String)
    ensures
        r@ == or_empty(*o),
{
    match o {
        Some(s) => s.clone(),
        None => String::new(),
    }
}

/// The client for the bank's API, holding the bearer token its calls use.
#[derive(Debug, Clone)]
pub struct Sparebanken1Client {
    access_token: String,
}

impl Sparebanken1Client {
    /// The characters of the held access token.
    pub closed spec fn spec_access_token(&self) -> Seq<char> {
        self.access_token@
    }

    /// Create a new client with the provided access token.
    pub fn new(access_token: String) -> (r: Self)
        ensures
            r.spec_access_token() == access_token@,
    {
        Self { access_token }
    }

    /// Update the client with a new access token.
    pub fn with_access_token(&mut self, access_token: String)
        ensures
            final(self).spec_access_token() == access_token@,
    {
        self.access_token = access_token;
    }

    /// Get the current access token.
    pub fn access_token(&self) -> (r: &str)
        ensures
            r@ == self.spec_access_token(),
    {
        self.access_token.as_str()
    }

    /// Normalises one raw transaction record into its canonical form.
    pub fn parse_transaction(&self, transaction: &TransactionResponse) -> (r: Transaction)
        requires
            transaction.date >= 0,
        ensures
            parsed_from(r, *transaction),
    {
        let secs = ((transaction.date as u64) / 1000) as i64;
        Transaction {
            id: transaction.id.clone(),
            account: transaction.account_key.clone(),
            description: clone_or_empty(&transaction.description),
            payee: clone_or_empty(&transaction.cleaned_description),
            amount_text: transaction.amount_text.clone(),
            date: secs,
        }
    }

    /// Normalises a whole response, keeping the order the bank returned.
    pub fn parse_transaction_list(&self, transactions: &Vec<TransactionResponse>) -> (r: Vec<
        Transaction,
    >)
        requires
            forall|i: int|
                0 <= i < transactions@.len() ==> (#[trigger] transactions@[i]).date >= 0,
        ensures
            r@.len() == transactions@.len(),
            forall|i: int|
                0 <= i < transactions@.len() ==> parsed_from(#[trigger] r@[i], transactions@[i]),
    {
        let mut r: Vec<Transaction> = Vec::new();
        let mut i: usize = 0;
        while i < transactions.len()
            invariant
                i <= transactions@.len(),
                r@.len() == i,
                forall|j: int|
                    0 <= j < transactions@.len() ==> (#[trigger] transactions@[j]).date >= 0,
                forall|j: int| 0 <= j < i ==> parsed_from(#[trigger] r@[j], transactions@[j]),
            decreases transactions@.len() - i,
        {
            let t = self.parse_transaction(&transactions[i]);
            r.push(t);
            i += 1;
        }
        r
    }
}

/// The form-encoded body of the OAuth refresh-token exchange that both the
/// one-shot token refresh and the client's own refresh use.
pub fn refresh_token_request_body(refresh_token: &str, client_id: &str, client_secret: &str) -> (r:
    String)
    ensures
        r@ == "grant_type=refresh_token&refresh_token="@ + refresh_token@ + "&client_id="@
            + client_id@ + "&client_secret="@ + client_secret@,
{
    let mut r = String::from_str("grant_type=refresh_token&refresh_token=");
    r.append(refresh_token);
    r.append("&client_id=");
    r.append(client_id);
    r.append("&client_secret=");
    r.append(client_secret);
    proof {
        assert(r@ =~= "grant_type=refresh_token&refresh_token="@ + refresh_token@ + "&client_id="@
            + client_id@ + "&client_secret="@ + client_secret@);
    }
    r
}

} // verus!
