use sparebank1_to_ynab::account_config::AccountMapping;
use sparebank1_to_ynab::sparebanken1::Transaction as Sparebank1Transaction;
use sparebank1_to_ynab::ynab::YnabClient;

fn create_test_transaction(
    id: &str,
    amount_text: &str,
    date_timestamp: i64,
    payee: &str,
    description: &str,
    account: &str,
) -> Sparebank1Transaction {
    Sparebank1Transaction {
        id: id.to_string(),
        description: description.to_string(),
        payee: payee.to_string(),
        amount_text: amount_text.to_string(),
        date: date_timestamp,
        account: account.to_string(),
    }
}

#[test]
fn test_amount_conversion_to_milliunits() {
    // YNAB requires amounts in milliunits (amount * 1000)
    let mut account_config = AccountMapping::new();
    account_config.insert("account1".to_string(), "ynab-id-1".to_string());

    let client = YnabClient::new(
        account_config,
        "test_token".to_string(),
        "test_budget".to_string(),
    );

    // Test positive amount (income)
    let transaction = create_test_transaction(
        "txn1", "1234.56", 1704067200, // 2024-01-01
        "Employer", "Salary", "account1",
    );

    // Test negative amount (expense)
    let transaction2 =
        create_test_transaction("txn2", "-99.99", 1704067200, "Store", "Groceries", "account1");

    // Test zero amount
    let transaction3 = create_test_transaction(
        "txn3",
        "0.0",
        1704067200,
        "Transfer",
        "Internal transfer",
        "account1",
    );

    let payloads = client
        .parse_transactions(&vec![transaction, transaction2, transaction3])
        .unwrap();

    // Expected: 1234.56 * 1000 = 1234560 milliunits
    assert_eq!(payloads[0].amount, 1234560);
    // Expected: -99.99 * 1000 = -99990 milliunits
    assert_eq!(payloads[1].amount, -99990);
    assert_eq!(payloads[2].amount, 0);
}

#[test]
fn test_date_conversion_to_oslo_timezone() {
    // A UTC timestamp for 2024-01-15 10:30:00 UTC
    let timestamp: i64 = 1705314600;

    let transaction = create_test_transaction(
        "txn1",
        "100.0",
        timestamp,
        "Test",
        "Test transaction",
        "account1",
    );

    let mut account_config = AccountMapping::new();
    account_config.insert("account1".to_string(), "ynab-id-1".to_string());
    let client = YnabClient::new(
        account_config,
        "test_token".to_string(),
        "test_budget".to_string(),
    );

    let payloads = client.parse_transactions(&vec![transaction]).unwrap();

    // The formatted date is YYYY-MM-DD in the Oslo timezone (UTC+1 here)
    assert_eq!(payloads[0].date, "2024-01-15");
    assert_eq!(&payloads[0].date[0..4], "2024");
    assert_eq!(&payloads[0].date[5..7], "01");
    assert_eq!(&payloads[0].date[8..10], "15");
}

#[test]
fn test_import_id_generation_format() {
    // Import IDs follow the format: SB1:{amount}:{date}:{occurrence}
    let transaction = create_test_transaction(
        "txn1",
        "-127.5",
        1704067200, // 2024-01-01 00:00:00 UTC
        "REMA 1000",
        "Groceries",
        "account1",
    );

    let mut account_config = AccountMapping::new();
    account_config.insert("account1".to_string(), "ynab-id-1".to_string());
    let client = YnabClient::new(
        account_config,
        "test_token".to_string(),
        "test_budget".to_string(),
    );
    let payloads = client.parse_transactions(&vec![transaction]).unwrap();

    // Expected format: SB1:-127.5:2024-01-01:1 (for first occurrence)
    let expected_prefix = "SB1:-127.5:2024-01-01";
    assert_eq!(payloads[0].import_id, format!("{}:{}", expected_prefix, 1));
    assert!(payloads[0].import_id.starts_with("SB1:"));
}

#[test]
fn test_duplicate_detection_with_same_amount_and_date() {
    // When multiple transactions have the same amount and date,
    // the occurrence counter should increment
    let mut account_config = AccountMapping::new();
    account_config.insert("account1".to_string(), "ynab-id-1".to_string());

    let client = YnabClient::new(
        account_config,
        "test_token".to_string(),
        "test_budget".to_string(),
    );

    // Create three transactions with same amount and date
    let txn1 = create_test_transaction(
        "txn1",
        "-50.0",
        1704067200,
        "Store A",
        "Purchase 1",
        "account1",
    );

    let txn2 = create_test_transaction(
        "txn2",
        "-50.0",
        1704067200,
        "Store B",
        "Purchase 2",
        "account1",
    );

    let txn3 = create_test_transaction(
        "txn3",
        "-50.0",
        1704067200,
        "Store C",
        "Purchase 3",
        "account1",
    );

    let transactions = vec![txn1, txn2, txn3];
    assert_eq!(transactions.len(), 3);

    // All three transactions get different import IDs, unique by the
    // occurrence counter
    let payloads = client.parse_transactions(&transactions).unwrap();
    assert_eq!(payloads[0].import_id, "SB1:-50.0:2024-01-01:1");
    assert_eq!(payloads[1].import_id, "SB1:-50.0:2024-01-01:2");
    assert_eq!(payloads[2].import_id, "SB1:-50.0:2024-01-01:3");
}

#[test]
fn test_account_mapping() {
    let mut account_config = AccountMapping::new();
    account_config.insert("sb1_account_1".to_string(), "ynab_account_1".to_string());
    account_config.insert("sb1_account_2".to_string(), "ynab_account_2".to_string());

    let client = YnabClient::new(
        account_config,
        "test_token".to_string(),
        "test_budget".to_string(),
    );

    // Create transaction for first account
    let transaction1 =
        create_test_transaction("txn1", "100.0", 1704067200, "Test", "Test", "sb1_account_1");

    // Create transaction for second account
    let transaction2 =
        create_test_transaction("txn2", "200.0", 1704067200, "Test", "Test", "sb1_account_2");

    // Verify the account mapping is applied
    let payloads = client
        .parse_transactions(&vec![transaction1, transaction2])
        .unwrap();
    assert_eq!(payloads[0].account_id, "ynab_account_1");
    assert_eq!(payloads[1].account_id, "ynab_account_2");
}

#[test]
fn test_empty_description_handling() {
    let transaction = create_test_transaction(
        "txn1",
        "50.0",
        1704067200,
        "Payee Name",
        "", // Empty description
        "account1",
    );

    assert_eq!(transaction.description, "");
    assert_eq!(transaction.payee, "Payee Name");
}

#[test]
fn test_empty_payee_handling() {
    let transaction = create_test_transaction(
        "txn1",
        "50.0",
        1704067200,
        "", // Empty payee
        "Some description",
        "account1",
    );

    assert_eq!(transaction.payee, "");
    assert_eq!(transaction.description, "Some description");
}

#[test]
fn test_large_amount_conversion() {
    // Test with a very large amount (e.g., salary)
    let transaction = create_test_transaction(
        "txn1",
        "45000.50",
        1704067200,
        "Employer",
        "Monthly salary",
        "account1",
    );

    let mut account_config = AccountMapping::new();
    account_config.insert("account1".to_string(), "ynab-id-1".to_string());
    let client = YnabClient::new(
        account_config,
        "test_token".to_string(),
        "test_budget".to_string(),
    );
    let payloads = client.parse_transactions(&vec![transaction]).unwrap();
    assert_eq!(payloads[0].amount, 45000500);
}

#[test]
fn test_small_fractional_amount() {
    // Test with very small amounts (cents/øre)
    let transaction =
        create_test_transaction("txn1", "0.01", 1704067200, "Test", "One øre", "account1");

    let mut account_config = AccountMapping::new();
    account_config.insert("account1".to_string(), "ynab-id-1".to_string());
    let client = YnabClient::new(
        account_config,
        "test_token".to_string(),
        "test_budget".to_string(),
    );
    let payloads = client.parse_transactions(&vec![transaction]).unwrap();
    assert_eq!(payloads[0].amount, 10);
}

#[test]
fn test_negative_zero_handling() {
    // Edge case: -0.0 should be treated as 0
    let transaction =
        create_test_transaction("txn1", "-0.0", 1704067200, "Test", "Zero amount", "account1");

    let mut account_config = AccountMapping::new();
    account_config.insert("account1".to_string(), "ynab-id-1".to_string());
    let client = YnabClient::new(
        account_config,
        "test_token".to_string(),
        "test_budget".to_string(),
    );
    let payloads = client.parse_transactions(&vec![transaction]).unwrap();
    assert_eq!(payloads[0].amount, 0);
}
