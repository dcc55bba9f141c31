//! Tests of the smaller verified pieces: milliunit parsing edges, counter
//! rendering, prefix tests, raw-record normalisation, the account mapping,
//! the setup parsing, and the rendered request and configuration texts.

use sparebank1_to_ynab::account_config::AccountMapping;
use sparebank1_to_ynab::amount::parse_milliunits;
use sparebank1_to_ynab::setup::{get_code_and_state_from_response, render_config_file, Arguments};
use sparebank1_to_ynab::sparebanken1::{
    refresh_token_request_body, Sparebanken1Client, TransactionResponse,
};
use sparebank1_to_ynab::text::{starts_with, u64_to_string};
use sparebank1_to_ynab::ynab::{filter_open_accounts, pick_budget, Account, Budget};

#[test]
fn milliunits_truncate_toward_zero() {
    // Fractional milliunit remainders are dropped, never rounded.
    assert_eq!(parse_milliunits("1.2345"), 1234);
    assert_eq!(parse_milliunits("-1.2345"), -1234);
    assert_eq!(parse_milliunits("0.0009"), 0);
    assert_eq!(parse_milliunits("-0.0009"), 0);
}

#[test]
fn milliunits_scale_by_thousand() {
    assert_eq!(parse_milliunits("-127.50"), -127500);
    assert_eq!(parse_milliunits("-127.5"), -127500);
    assert_eq!(parse_milliunits("0.01"), 10);
    assert_eq!(parse_milliunits("-0.0"), 0);
    assert_eq!(parse_milliunits("-0"), 0);
    assert_eq!(parse_milliunits("1234.56"), 1234560);
    assert_eq!(parse_milliunits("42"), 42000);
    assert_eq!(parse_milliunits("0.1"), 100);
    assert_eq!(parse_milliunits("0.12"), 120);
    assert_eq!(parse_milliunits("0.123"), 123);
}

#[test]
fn counter_rendering_is_decimal() {
    assert_eq!(u64_to_string(0), "0");
    assert_eq!(u64_to_string(7), "7");
    assert_eq!(u64_to_string(10), "10");
    assert_eq!(u64_to_string(123456789), "123456789");
}

#[test]
fn prefix_test_is_textual() {
    assert!(starts_with(
        &"SB1:-50.0:2024-01-01:1".to_string(),
        &"SB1:-50.0:2024-01-01".to_string()
    ));
    assert!(starts_with(&"abc".to_string(), &"".to_string()));
    assert!(!starts_with(&"ab".to_string(), &"abc".to_string()));
    assert!(!starts_with(
        &"SB1:-50.01:2024-01-01".to_string(),
        &"SB1:-50.0:2024-01-02".to_string()
    ));
}

#[test]
fn raw_records_are_normalised() {
    let client = Sparebanken1Client::new("token".to_string());
    let raw = TransactionResponse {
        id: "t1".to_string(),
        amount_text: "-99.99".to_string(),
        description: None,
        cleaned_description: Some("Shop".to_string()),
        account_key: "acc".to_string(),
        date: 1704067200123, // milliseconds since the epoch
    };
    let t = client.parse_transaction(&raw);
    assert_eq!(t.id, "t1");
    assert_eq!(t.account, "acc");
    assert_eq!(t.description, ""); // missing field becomes empty
    assert_eq!(t.payee, "Shop");
    assert_eq!(t.amount_text, "-99.99");
    assert_eq!(t.date, 1704067200); // truncating division by 1000

    let batch = client.parse_transaction_list(&vec![raw]);
    assert_eq!(batch.len(), 1);
    assert_eq!(batch[0].date, 1704067200);
}

#[test]
fn client_access_token_can_be_replaced() {
    let mut client = Sparebanken1Client::new("first".to_string());
    assert_eq!(client.access_token(), "first");
    client.with_access_token("second".to_string());
    assert_eq!(client.access_token(), "second");
}

#[test]
fn account_mapping_last_insert_wins() {
    let mut m = AccountMapping::new();
    m.insert("k".to_string(), "v1".to_string());
    m.insert("other".to_string(), "x".to_string());
    m.insert("k".to_string(), "v2".to_string());
    assert_eq!(m.get(&"k".to_string()), Some(&"v2".to_string()));
    assert_eq!(m.get(&"other".to_string()), Some(&"x".to_string()));
    assert_eq!(m.get(&"missing".to_string()), None);

    let keys = m.keys();
    assert!(keys.contains(&"k".to_string()));
    assert!(keys.contains(&"other".to_string()));
}

#[test]
fn code_and_state_are_pulled_from_redirect() {
    let line = "GET /?code=abc123&state=456789&scope=all HTTP/1.1";
    let (code, state) = get_code_and_state_from_response(line).unwrap();
    assert_eq!(code, "abc123");
    assert_eq!(state, "456789");
}

#[test]
fn redirect_without_code_yields_nothing() {
    assert!(get_code_and_state_from_response("GET /?state=1 HTTP/1.1").is_none());
    assert!(get_code_and_state_from_response("GET /?code=1 HTTP/1.1").is_none());
    assert!(get_code_and_state_from_response("").is_none());
}

#[test]
fn code_runs_to_end_without_ampersand() {
    let line = "GET /?state=9&code=zzz";
    let (code, state) = get_code_and_state_from_response(line).unwrap();
    assert_eq!(code, "zzz");
    assert_eq!(state, "9");
}

#[test]
fn arguments_need_exactly_four() {
    let ok = Arguments::from_args(vec![
        "id".to_string(),
        "secret".to_string(),
        "fin".to_string(),
        "ynab".to_string(),
    ])
    .unwrap();
    assert_eq!(ok.sparebank1_client_id, "id");
    assert_eq!(ok.sparebank1_client_secret, "secret");
    assert_eq!(ok.sparebank1_fin_inst, "fin");
    assert_eq!(ok.ynab_access_token, "ynab");

    let err = Arguments::from_args(vec!["id".to_string()]).unwrap_err();
    assert!(err.contains("Usage:"));
}

#[test]
fn refresh_body_is_form_encoded() {
    assert_eq!(
        refresh_token_request_body("rt", "cid", "cs"),
        "grant_type=refresh_token&refresh_token=rt&client_id=cid&client_secret=cs"
    );
}

#[test]
fn config_file_rendering_lists_every_setting() {
    let text = render_config_file(
        "cid", "cs", "fin", "ytok", "bud", "rt", "/work/accounts.json", "refresh_token.txt",
    );
    assert_eq!(
        text,
        "SPAREBANK1_CLIENT_ID=cid\nSPAREBANK1_CLIENT_SECRET=cs\nSPAREBANK1_FIN_INST=fin\n\
         YNAB_BUDGET_ID=bud\nYNAB_ACCESS_TOKEN=ytok\nINITIAL_REFRESH_TOKEN=rt\n\
         ACCOUNT_CONFIG_PATH=/work/accounts.json\nREFRESH_TOKEN_FILE_PATH=refresh_token.txt\n"
    );
}

#[test]
fn closed_accounts_are_filtered_out() {
    let accounts = vec![
        Account {
            id: "1".to_string(),
            name: "Open A".to_string(),
            closed: false,
        },
        Account {
            id: "2".to_string(),
            name: "Closed".to_string(),
            closed: true,
        },
        Account {
            id: "3".to_string(),
            name: "Open B".to_string(),
            closed: false,
        },
    ];
    let open = filter_open_accounts(&accounts);
    assert_eq!(open.len(), 2);
    assert_eq!(open[0].id, "1");
    assert_eq!(open[1].id, "3");
}

#[test]
fn single_budget_is_picked_without_choice() {
    let budgets = vec![Budget {
        id: "b1".to_string(),
        name: "Mine".to_string(),
    }];
    let picked = pick_budget(&budgets, 0).unwrap();
    assert_eq!(picked.id, "b1");
}

#[test]
fn budget_choice_counts_from_one() {
    let budgets = vec![
        Budget {
            id: "b1".to_string(),
            name: "First".to_string(),
        },
        Budget {
            id: "b2".to_string(),
            name: "Second".to_string(),
        },
    ];
    assert_eq!(pick_budget(&budgets, 1).unwrap().id, "b1");
    assert_eq!(pick_budget(&budgets, 2).unwrap().id, "b2");
    assert!(pick_budget(&budgets, 0).is_none());
    assert!(pick_budget(&budgets, 3).is_none());
}
