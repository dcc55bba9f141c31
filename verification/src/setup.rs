//! The one-time setup flow's logic: command-line arguments, pulling the
//! OAuth `code` and `state` parameters out of the browser's redirect
//! request, and rendering the configuration file. The terminal prompts, the
//! local listener and the file writes live outside the library.

use vstd::prelude::*;

verus! {

/// What the bank's OAuth authorisation flow hands back.
#[derive(Debug)]
pub struct AuthResponse {
    pub access_token: String,
    pub refresh_token: String,
}

/// The command-line arguments of the setup flow.
#[derive(Debug)]
pub struct Arguments {
    pub sparebank1_client_id: String,
    pub sparebank1_client_secret: String,
    pub sparebank1_fin_inst: String,
    pub ynab_access_token: String,
}

impl Arguments {
    /// Builds the setup arguments from the command line (program name
    /// already dropped): exactly four arguments, in order the bank client
    /// id, the bank client secret, the financial institution, and the
    /// budgeting-service access token.
    pub fn from_args(args: Vec<String>) -> (r: Result<Self, String>)
        ensures
            r is Ok <==> args@.len() == 4,
            match r {
                Ok(a) => {
                    &&& a.sparebank1_client_id@ == args@[0]@
                    &&& a.sparebank1_client_secret@ == args@[1]@
                    &&& a.sparebank1_fin_inst@ == args@[2]@
                    &&& a.ynab_access_token@ == args@[3]@
                },
                Err(e) => e@
                    == "Usage: program_name <sparebank1_client_id> <sparebank1_client_secret> <sparebank1_fint_inst> <ynab_access_token>"@,
            },
    {
        if args.len() != 4 {
            return Err(
                String::from_str(
                    "Usage: program_name <sparebank1_client_id> <sparebank1_client_secret> <sparebank1_fint_inst> <ynab_access_token>",
                ),
            );
        }
        Ok(
            Arguments {
                sparebank1_client_id: args[0].clone(),
                sparebank1_client_secret: args[1].clone(),
                sparebank1_fin_inst: args[2].clone(),
                ynab_access_token: args[3].clone(),
            },
        )
    }
}

// ---- pulling query parameters out of the redirect request ----

/// `pat` occurs in `s` starting at position `i`.
pub open spec fn match_at(s: Seq<char>, pat: Seq<char>, i: int) -> bool {
    0 <= i && i + pat.len() <= s.len() && s.subrange(i, i + pat.len()) == pat
}

/// The position of the first occurrence of `pat` in `s` at or after `i`, or
/// `-1` when there is none.
pub open spec fn find_from(s: Seq<char>, pat: Seq<char>, i: int) -> int
    decreases s.len() - i,
{
    if i < 0 || i >= s.len() || i + pat.len() > s.len() {
        -1
    } else if match_at(s, pat, i) {
        i
    } else {
        find_from(s, pat, i + 1)
    }
}

/// The index of the first `'&'` at or after `i`, or `s.len()` if none.
pub open spec fn amp_index(s: Seq<char>, i: int) -> int
    decreases s.len() - i,
{
    if i < 0 || i >= s.len() {
        s.len() as int
    } else if s[i] == '&' {
        i
    } else {
        amp_index(s, i + 1)
    }
}

/// The part of `s` before its first `'&'` (all of `s` when there is none).
pub open spec fn until_amp(s: Seq<char>) -> Seq<char> {
    s.subrange(0, amp_index(s, 0))
}

/// The value of the query parameter that `pat` introduces: what stands after
/// the first occurrence of `pat`, up to the next `'&'` or the end.
pub open spec fn param_after(s: Seq<char>, pat: Seq<char>) -> Seq<char> {
    until_amp(s.skip(find_from(s, pat, 0) + pat.len()))
}

proof fn lemma_find_from_found(s: Seq<char>, pat: Seq<char>, k: int, i: int)
    requires
        pat.len() > 0,
        0 <= k <= i,
        match_at(s, pat, i),
        forall|j: int| k <= j < i ==> !match_at(s, pat, j),
    ensures
        find_from(s, pat, k) == i,
    decreases i - k,
{
    if k < i {
        lemma_find_from_found(s, pat, k + 1, i);
    }
}

proof fn lemma_find_from_none(s: Seq<char>, pat: Seq<char>, k: int)
    requires
        0 <= k <= s.len(),
        forall|j: int| k <= j < s.len() ==> !match_at(s, pat, j),
    ensures
        find_from(s, pat, k) == -1,
    decreases s.len() - k,
{
    if k < s.len() {
        lemma_find_from_none(s, pat, k + 1);
    }
}

proof fn lemma_amp_index_is(s: Seq<char>, k: int, d: int)
    requires
        0 <= k <= d <= s.len(),
        forall|j: int| k <= j < d ==> s[j] != '&',
        d < s.len() ==> s[d] == '&',
    ensures
        amp_index(s, k) == d,
    decreases d - k,
{
    if k < d {
        lemma_amp_index_is(s, k + 1, d);
    }
}

fn matches_at(s: &str, pat: &str, i: usize) -> (r: bool)
    requires
        s@.len() <= usize::MAX,
        i + pat@.len() <= s@.len(),
    ensures
        r == match_at(s@, pat@, i as int),
{
    let plen = pat.unicode_len();
    let mut j: usize = 0;
    while j < plen
        invariant
            j <= plen,
            plen == pat@.len(),
            s@.len() <= usize::MAX,
            i + plen <= s@.len(),
            forall|k: int| 0 <= k < j ==> s@[i + k] == pat@[k],
        decreases plen - j,
    {
        if s.get_char(i + j) != pat.get_char(j) {
            proof {
                assert(s@.subrange(i as int, i as int + plen as int)[j as int] == s@[i + j]);
            }
            return false;
        }
        j += 1;
    }
    proof {
        assert(s@.subrange(i as int, i as int + plen as int) =~= pat@);
    }
    true
}

fn find_substring(s: &str, pat: &str) -> (r: Option<usize>)
    requires
        pat@.len() > 0,
    ensures
        match r {
            Some(i) => i == find_from(s@, pat@, 0) && match_at(s@, pat@, i as int),
            None => find_from(s@, pat@, 0) == -1,
        },
{
    let slen = s.unicode_len();
    let plen = pat.unicode_len();
    if plen > slen {
        proof {
            lemma_find_from_none(s@, pat@, 0);
        }
        return None;
    }
    let mut i: usize = 0;
    while i <= slen - plen
        invariant
            plen == pat@.len(),
            slen == s@.len(),
            1 <= plen <= slen,
            i + plen <= slen + 1,
            forall|j: int| 0 <= j < i ==> !match_at(s@, pat@, j),
        decreases slen - i,
    {
        if matches_at(s, pat, i) {
            proof {
                lemma_find_from_found(s@, pat@, 0, i as int);
            }
            return Some(i);
        }
        i += 1;
    }
    proof {
        assert forall|j: int| 0 <= j < s@.len() implies !match_at(s@, pat@, j) by {
            if j >= i {
                assert(j + pat@.len() > s@.len());
            }
        }
        lemma_find_from_none(s@, pat@, 0);
    }
    None
}

fn extract_param(s: &str, pat: &str) -> (r: Option<String>)
    requires
        pat@.len() > 0,
    ensures
        r is Some <==> find_from(s@, pat@, 0) >= 0,
        match r {
            Some(v) => v@ == param_after(s@, pat@),
            None => true,
        },
{
    let i = match find_substring(s, pat) {
        Some(i) => i,
        None => {
            return None;
        },
    };
    let plen = pat.unicode_len();
    let slen = s.unicode_len();
    let start = i + plen;
    let ghost tail = s@.skip(start as int);
    let mut e = start;
    while e < slen && s.get_char(e) != '&'
        invariant
            start <= e <= slen,
            slen == s@.len(),
            start <= slen,
            forall|k: int| start <= k < e ==> s@[k] != '&',
        decreases slen - e,
    {
        e += 1;
    }
    proof {
        assert(forall|j: int| 0 <= j < e - start ==> tail[j] != '&');
        lemma_amp_index_is(tail, 0, e - start);
    }
    let sub = s.substring_char(start, e);
    proof {
        assert(sub@ =~= until_amp(tail));
    }
    Some(String::from_str(sub))
}

/// Pulls the OAuth `code` and `state` parameters out of the redirect
/// request's first line: each is what stands between its marker and the next
/// `'&'` (or the end). Nothing is returned when either marker is absent.
pub fn get_code_and_state_from_response(response: &str) -> (r: Option<(String, String)>)
    ensures
        r is Some <==> find_from(response@, "code="@, 0) >= 0 && find_from(
            response@,
            "state="@,
            0,
        ) >= 0,
        match r {
            Some(cs) => cs.0@ == param_after(response@, "code="@) && cs.1@ == param_after(
                response@,
                "state="@,
            ),
            None => true,
        },
{
    proof {
        reveal_strlit("code=");
        reveal_strlit("state=");
    }
    let code = match extract_param(response, "code=") {
        Some(c) => c,
        None => {
            return None;
        },
    };
    let state = match extract_param(response, "state=") {
        Some(st) => st,
        None => {
            return None;
        },
    };
    Some((code, state))
}

/// Renders the configuration file that the setup flow writes: one
/// `NAME=value` line per setting, in the order the sync run reads them.
pub fn render_config_file(
    sparebank1_client_id: &str,
    sparebank1_client_secret: &str,
    sparebank1_fin_inst: &str,
    ynab_access_token: &str,
    ynab_budget_id: &str,
    refresh_token: &str,
    account_config_path: &str,
    refresh_token_file_path: &str,
) -> (r: String)
    ensures
        r@ == "SPAREBANK1_CLIENT_ID="@ + sparebank1_client_id@ + "\nSPAREBANK1_CLIENT_SECRET="@
            + sparebank1_client_secret@ + "\nSPAREBANK1_FIN_INST="@ + sparebank1_fin_inst@
            + "\nYNAB_BUDGET_ID="@ + ynab_budget_id@ + "\nYNAB_ACCESS_TOKEN="@ + ynab_access_token@
            + "\nINITIAL_REFRESH_TOKEN="@ + refresh_token@ + "\nACCOUNT_CONFIG_PATH="@
            + account_config_path@ + "\nREFRESH_TOKEN_FILE_PATH="@ + refresh_token_file_path@
            + "\n"@,
{
    let mut r = String::from_str("SPAREBANK1_CLIENT_ID=");
    r.append(sparebank1_client_id);
    r.append("\nSPAREBANK1_CLIENT_SECRET=");
    r.append(sparebank1_client_secret);
    r.append("\nSPAREBANK1_FIN_INST=");
    r.append(sparebank1_fin_inst);
    r.append("\nYNAB_BUDGET_ID=");
    r.append(ynab_budget_id);
    r.append("\nYNAB_ACCESS_TOKEN=");
    r.append(ynab_access_token);
    r.append("\nINITIAL_REFRESH_TOKEN=");
    r.append(refresh_token);
    r.append("\nACCOUNT_CONFIG_PATH=");
    r.append(account_config_path);
    r.append("\nREFRESH_TOKEN_FILE_PATH=");
    r.append(refresh_token_file_path);
    r.append("\n");
    proof {
        assert(r@ =~= "SPAREBANK1_CLIENT_ID="@ + sparebank1_client_id@
            + "\nSPAREBANK1_CLIENT_SECRET="@ + sparebank1_client_secret@ + "\nSPAREBANK1_FIN_INST="@
            + sparebank1_fin_inst@ + "\nYNAB_BUDGET_ID="@ + ynab_budget_id@
            + "\nYNAB_ACCESS_TOKEN="@ + ynab_access_token@ + "\nINITIAL_REFRESH_TOKEN="@
            + refresh_token@ + "\nACCOUNT_CONFIG_PATH="@ + account_config_path@
            + "\nREFRESH_TOKEN_FILE_PATH="@ + refresh_token_file_path@ + "\n"@);
    }
    r
}

} // verus!
