//! The run's configuration: a value object built once at process start and
//! handed to the clients, with the validation that construction performs.

use vstd::prelude::*;

verus! {

/// Everything one run needs: bank OAuth credentials, budgeting-service
/// credentials, and where the account mapping and refresh token live.
#[derive(Debug)]
pub struct Config {
    pub sparebank1_client_id: String,
    pub sparebank1_client_secret: String,
    pub sparebank1_fin_inst: String,
    pub ynab_access_token: String,
    pub ynab_budget_id: String,
    pub account_config_path: String,
    pub refresh_token_file_path: String,
    pub initial_refresh_token: String,
    pub dry_run: bool,
}

/// An ASCII whitespace character.
pub open spec fn is_space(c: char) -> bool {
    c == ' ' || c == '\t' || c == '\n' || c == '\r'
}

/// Nothing but whitespace, or nothing at all.
pub open spec fn blank(s: Seq<char>) -> bool {
    forall|i: int| 0 <= i < s.len() ==> is_space(#[trigger] s[i])
}

fn is_blank(s: &String) -> (r: bool)
    ensures
        r == blank(s@),
{
    let n = s.as_str().unicode_len();
    let mut i: usize = 0;
    while i < n
        invariant
            i <= n,
            n == s@.len(),
            forall|j: int| 0 <= j < i ==> is_space(#[trigger] s@[j]),
        decreases n - i,
    {
        let c = s.as_str().get_char(i);
        if !(c == ' ' || c == '\t' || c == '\n' || c == '\r') {
            return false;
        }
        i += 1;
    }
    true
}

/// The message `with_values` rejects a blank setting with; which message
/// depends on the first blank setting in checking order.
pub open spec fn with_values_error(
    client_id: Seq<char>,
    client_secret: Seq<char>,
    ynab_access_token: Seq<char>,
    ynab_budget_id: Seq<char>,
) -> Seq<char> {
    if blank(client_id) {
        "SPAREBANK1_CLIENT_ID must not be empty"@
    } else if blank(client_secret) {
        "SPAREBANK1_CLIENT_SECRET must not be empty"@
    } else if blank(ynab_access_token) {
        "YNAB_ACCESS_TOKEN must not be empty"@
    } else {
        "YNAB_BUDGET_ID must not be empty"@
    }
}

impl Config {
    /// Builds a validated configuration from explicit values. The bank
    /// client credentials and the budgeting-service token and budget id must
    /// not be blank; the refresh-token file path defaults to
    /// `refresh_token.txt`; a fresh configuration is never a dry run.
    pub fn with_values(
        sparebank1_client_id: String,
        sparebank1_client_secret: String,
        sparebank1_fin_inst: String,
        ynab_access_token: String,
        ynab_budget_id: String,
        account_config_path: String,
        refresh_token_file_path: Option<String>,
        initial_refresh_token: String,
    ) -> (r: Result<Config, String>)
        ensures
            r is Ok <==> !blank(sparebank1_client_id@) && !blank(sparebank1_client_secret@)
                && !blank(ynab_access_token@) && !blank(ynab_budget_id@),
            match r {
                Ok(c) => {
                    &&& c.sparebank1_client_id@ == sparebank1_client_id@
                    &&& c.sparebank1_client_secret@ == sparebank1_client_secret@
                    &&& c.sparebank1_fin_inst@ == sparebank1_fin_inst@
                    &&& c.ynab_access_token@ == ynab_access_token@
                    &&& c.ynab_budget_id@ == ynab_budget_id@
                    &&& c.account_config_path@ == account_config_path@
                    &&& c.refresh_token_file_path@ == match refresh_token_file_path {
                        Some(p) => p@,
                        None => "refresh_token.txt"@,
                    }
                    &&& c.initial_refresh_token@ == initial_refresh_token@
                    &&& c.dry_run == false
                },
                Err(e) => e@ == with_values_error(
                    sparebank1_client_id@,
                    sparebank1_client_secret@,
                    ynab_access_token@,
                    ynab_budget_id@,
                ),
            },
    {
        if is_blank(&sparebank1_client_id) {
            return Err(String::from_str("SPAREBANK1_CLIENT_ID must not be empty"));
        }
        if is_blank(&sparebank1_client_secret) {
            return Err(String::from_str("SPAREBANK1_CLIENT_SECRET must not be empty"));
        }
        if is_blank(&ynab_access_token) {
            return Err(String::from_str("YNAB_ACCESS_TOKEN must not be empty"));
        }
        if is_blank(&ynab_budget_id) {
            return Err(String::from_str("YNAB_BUDGET_ID must not be empty"));
        }
        let refresh_token_file_path = match refresh_token_file_path {
            Some(p) => p,
            None => String::from_str("refresh_token.txt"),
        };
        Ok(
            Config {
                sparebank1_client_id,
                sparebank1_client_secret,
                sparebank1_fin_inst,
                ynab_access_token,
                ynab_budget_id,
                account_config_path,
                refresh_token_file_path,
                initial_refresh_token,
                dry_run: false,
            },
        )
    }
}

} // verus!
