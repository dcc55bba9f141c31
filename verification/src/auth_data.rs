//! The bank's token-refresh response: the pair of tokens the OAuth endpoint
//! hands back when a refresh token is exchanged.

use vstd::prelude::*;

verus! {

/// What the bank's OAuth token endpoint returns: a fresh access token and
/// the refresh token to store for the next run.
#[derive(Debug)]
pub struct Sparebanken1AuthDataResponse {
    access_token: String,
    refresh_token: String,
}

impl Sparebanken1AuthDataResponse {
    /// The characters of the access token.
    pub closed spec fn spec_access_token(&self) -> Seq<char> {
        self.access_token@
    }

    /// The characters of the refresh token.
    pub closed spec fn spec_refresh_token(&self) -> Seq<char> {
        self.refresh_token@
    }

    pub fn new(access_token: String, refresh_token: String) -> (r: Self)
        ensures
            r.spec_access_token() == access_token@,
            r.spec_refresh_token() == refresh_token@,
    {
        Sparebanken1AuthDataResponse { access_token, refresh_token }
    }

    pub fn access_token(&self) -> (r: &str)
        ensures
            r@ == self.spec_access_token(),
    {
        self.access_token.as_str()
    }

    pub fn refresh_token(&self) -> (r: &str)
        ensures
            r@ == self.spec_refresh_token(),
    {
        self.refresh_token.as_str()
    }
}

} // verus!
