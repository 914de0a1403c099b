use csv::{ReaderBuilder, Trim};
use payments_engine::engine::TransactionEngineService;
use payments_engine::report::REPORT_HEADER;
use payments_engine::transaction::TransactionRecord;

/// Reads CSV text into records, runs them through a fresh engine and returns
/// the report; a batch-mode failure leaves only the header.
fn run_text(content: &str, batch_mode: bool) -> String {
    let mut reader = ReaderBuilder::new()
        .trim(Trim::All)
        .flexible(true)
        .from_reader(content.as_bytes());
    let mut records = Vec::new();
    for row in reader.records() {
        let row = row.expect("readable row");
        let field = |i: usize| row.get(i).unwrap_or("").as_bytes().to_vec();
        let record = TransactionRecord::from_fields(&field(0), &field(1), &field(2), &field(3))
            .expect("well-formed record");
        records.push(record);
    }
    let mut engine = TransactionEngineService::new();
    match engine.begin_transactions(&records, batch_mode) {
        Ok(()) => String::from_utf8(engine.report_four_decimal_places()).unwrap(),
        Err(_) => REPORT_HEADER.to_string(),
    }
}

const SAMPLE_OUTPUT: &str = "\
client,available,held,total,locked
1,1.5000,0.0000,1.5000,false
2,2.0000,0.0000,2.0000,false
";

const SAMPLE_OUTPUT_WITH_WITHDRAWAL: &str = "\
client,available,held,total,locked
1,1.5000,0.0000,1.5000,false
2,1.0000,0.0000,1.0000,false
";

const SAMPLE_TRANSACTIONS: &str = "type, client, tx, amount
deposit, 1, 1, 1.0
deposit, 2, 2, 2.0
deposit, 1, 3, 2.0
withdrawal, 1, 4, 1.5
withdrawal, 2, 5, 3.0
";

const SAMPLE_TRANSACTIONS_WITH_INVALID_DISPUTE: &str = "type, client, tx, amount
deposit, 1, 1, 1.0
deposit, 2, 2, 2.0
dispute, 1, 99,
deposit, 1, 3, 2.0
withdrawal, 1, 4, 1.5
resolve, 2, 2,
chargeback, 1, 3,
withdrawal, 2, 5, 3.0
";

const SAMPLE_TRANSACTIONS_WITH_DISPUTE_WITH_NON_SUFFICIENT_FUND_LEFT: &str = "type, client, tx, amount
deposit, 1, 1, 1.0
deposit, 2, 2, 2.0
deposit, 1, 3, 2.0
withdrawal, 1, 4, 1.5
withdrawal, 2, 5, 1.0
dispute, 2, 2,
";

#[test]
fn test_sample_transactions() {
    let output = run_text(SAMPLE_TRANSACTIONS, false);
    assert_eq!(output, SAMPLE_OUTPUT);

    let output = run_text(SAMPLE_TRANSACTIONS, true);
    assert_eq!(output, "client,available,held,total,locked\n");
}

#[test]
fn test_sample_transactions_with_invalid_disputes() {
    let output = run_text(SAMPLE_TRANSACTIONS_WITH_INVALID_DISPUTE, false);
    assert_eq!(output, SAMPLE_OUTPUT);

    let output = run_text(SAMPLE_TRANSACTIONS_WITH_INVALID_DISPUTE, true);
    assert_eq!(output, "client,available,held,total,locked\n");
}

#[test]
fn test_sample_transaction_with_dismpute_with_non_sufficient_fund_left() {
    let output = run_text(SAMPLE_TRANSACTIONS_WITH_DISPUTE_WITH_NON_SUFFICIENT_FUND_LEFT, false);
    assert_eq!(output, SAMPLE_OUTPUT_WITH_WITHDRAWAL);

    let output = run_text(SAMPLE_TRANSACTIONS_WITH_DISPUTE_WITH_NON_SUFFICIENT_FUND_LEFT, true);
    assert_eq!(output, "client,available,held,total,locked\n");
}

#[test]
fn test_dispute_and_resolve() {
    let csv_content = "type,client,tx,amount
deposit,1,1,100.0
dispute,1,1,
resolve,1,1,
";
    let output = run_text(csv_content, false);
    assert!(output.contains("100.0000"));
    assert!(output.contains("0.0000"));
    assert!(!output.contains("true"), "Account should not be locked after resolve");
}

#[test]
fn test_dispute_and_resolve_with_withdrawal() {
    let csv_content = "type,client,tx,amount
deposit,1,1,100.0
withdrawal,1,2,30.0
dispute,1,1,
resolve,1,1,
";
    let output = run_text(csv_content, false);
    assert!(output.contains("70.0000"));
}

#[test]
fn test_resolve_without_dispute_ignored() {
    let csv_content = "type,client,tx,amount
deposit,1,1,100.0
resolve,1,1,
";
    let output = run_text(csv_content, false);
    assert!(output.contains("100.0000"));
}

#[test]
fn test_multiple_disputes_and_resolves() {
    let csv_content = "type,client,tx,amount
deposit,1,1,100.0
deposit,1,2,50.0
dispute,1,1,
dispute,1,2,
resolve,1,1,
resolve,1,2,
";
    let output = run_text(csv_content, false);
    assert!(output.contains("150.0000"));
    assert!(output.contains("0.0000"));
}

#[test]
fn test_dispute_and_chargeback() {
    let csv_content = "type,client,tx,amount
deposit,1,1,100.0
dispute,1,1,
chargeback,1,1,
";
    let output = run_text(csv_content, false);
    assert!(output.contains("0.0000"));
    assert!(output.contains("true"), "Account should be locked after chargeback");
}

#[test]
fn test_chargeback_locks_account_from_further_operations() {
    let csv_content = "type,client,tx,amount
deposit,1,1,100.0
dispute,1,1,
chargeback,1,1,
deposit,1,2,50.0
";
    let output = run_text(csv_content, false);
    assert!(output.contains("true"), "Account should be locked");
    let lines: Vec<&str> = output.lines().collect();
    let account_line = lines.iter().find(|line| line.starts_with("1,")).unwrap();
    assert!(account_line.contains("0.0000"));
}

#[test]
fn test_chargeback_with_held_funds() {
    let csv_content = "type,client,tx,amount
deposit,1,1,100.0
deposit,1,2,50.0
dispute,1,1,
chargeback,1,1,
";
    let output = run_text(csv_content, false);
    assert!(output.contains("50.0000"));
    assert!(output.contains("0.0000"));
    assert!(output.contains("true"));
}

#[test]
fn test_chargeback_on_non_disputed_ignored() {
    let csv_content = "type,client,tx,amount
deposit,1,1,100.0
chargeback,1,1,
";
    let output = run_text(csv_content, false);
    assert!(output.contains("100.0000"));
    assert!(!output.contains("true"), "Account should not be locked");
}

#[test]
fn test_resolve_after_chargeback_ignored() {
    let csv_content = "type,client,tx,amount
deposit,1,1,100.0
dispute,1,1,
chargeback,1,1,
resolve,1,1,
";
    let output = run_text(csv_content, false);
    assert!(output.contains("true"), "Account should be locked");
    assert!(output.contains("0.0000"));
}

#[test]
fn test_chargeback_after_resolve_ignored() {
    let csv_content = "type,client,tx,amount
deposit,1,1,100.0
dispute,1,1,
resolve,1,1,
chargeback,1,1,
";
    let output = run_text(csv_content, false);
    assert!(!output.contains("true"), "Account should not be locked");
    assert!(output.contains("100.0000"));
}

#[test]
fn test_resolve_with_insufficient_held_batch_mode() {
    let csv_content = "type,client,tx,amount
deposit,1,1,100.0
dispute,1,1,
resolve,1,1,
resolve,1,1,
deposit,1,2,50.0
";
    let output = run_text(csv_content, true);
    assert!(output.contains("150.0000"));
}

#[test]
fn test_chargeback_with_insufficient_held_batch_mode() {
    let csv_content = "type,client,tx,amount
deposit,1,1,100.0
dispute,1,1,
resolve,1,1,
chargeback,1,1,
deposit,1,2,50.0
";
    let output = run_text(csv_content, true);
    assert!(output.contains("150.0000"));
    assert!(!output.contains("true"), "Account should not be locked (chargeback failed)");
}

#[test]
fn test_complex_workflow_multiple_clients() {
    let csv_content = "type,client,tx,amount
deposit,1,1,100.0
deposit,2,2,200.0
dispute,1,1,
deposit,1,3,50.0
resolve,1,1,
withdrawal,2,4,50.0
deposit,2,5,100.0
";
    let output = run_text(csv_content, false);
    assert!(output.contains("150.0000"));
    assert!(output.contains("250.0000"));
}

#[test]
fn test_partial_dispute_with_resolution() {
    let csv_content = "type,client,tx,amount
deposit,1,1,100.0
deposit,1,2,50.0
dispute,1,1,
withdrawal,1,3,40.0
resolve,1,1,
";
    let output = run_text(csv_content, false);
    assert!(output.contains("110.0000"));
}

#[test]
fn test_multiple_transactions_same_client_with_chargeback() {
    let csv_content = "type,client,tx,amount
deposit,1,1,100.0
deposit,1,2,100.0
deposit,1,3,100.0
dispute,1,2,
chargeback,1,2,
";
    let output = run_text(csv_content, false);
    assert!(output.contains("200.0000"));
    assert!(output.contains("true"));
}

#[test]
fn scenario_resolve_restores_balances_exactly() {
    let output = run_text("type,client,tx,amount\ndeposit,1,1,100.0\ndispute,1,1,\nresolve,1,1,\n", false);
    assert_eq!(output, "client,available,held,total,locked\n1,100.0000,0.0000,100.0000,false\n");
}

#[test]
fn scenario_chargeback_empties_and_locks() {
    let output = run_text("type,client,tx,amount\ndeposit,1,1,100.0\ndispute,1,1,\nchargeback,1,1,\n", false);
    assert_eq!(output, "client,available,held,total,locked\n1,0.0000,0.0000,0.0000,true\n");
}

#[test]
fn scenario_deposit_after_chargeback_rejected() {
    let text = "type,client,tx,amount\ndeposit,1,1,100.0\ndispute,1,1,\nchargeback,1,1,\ndeposit,1,2,50.0\n";
    assert_eq!(
        run_text(text, false),
        "client,available,held,total,locked\n1,0.0000,0.0000,0.0000,true\n"
    );
    // In batch mode the refused deposit stops the run.
    assert_eq!(run_text(text, true), "client,available,held,total,locked\n");
}

#[test]
fn scenario_two_clients_interleaved() {
    let output = run_text(
        "type,client,tx,amount\ndeposit,1,1,100.0\ndeposit,2,2,200.0\nwithdrawal,2,4,50.0\n",
        false,
    );
    assert_eq!(
        output,
        "client,available,held,total,locked\n1,100.0000,0.0000,100.0000,false\n2,150.0000,0.0000,150.0000,false\n"
    );
    // The same records with the clients' order swapped give the same report.
    let swapped = run_text(
        "type,client,tx,amount\ndeposit,2,2,200.0\nwithdrawal,2,4,50.0\ndeposit,1,1,100.0\n",
        false,
    );
    assert_eq!(output, swapped);
}

#[test]
fn scenario_same_stream_twice_same_report() {
    let text = "type,client,tx,amount\ndeposit,3,1,5.25\ndeposit,1,2,1.0\ndispute,3,1,\nwithdrawal,1,3,0.5\ndeposit,2,4,7\n";
    let first = run_text(text, false);
    let second = run_text(text, false);
    assert_eq!(first, second);
    assert_eq!(
        first,
        "client,available,held,total,locked\n1,0.5000,0.0000,0.5000,false\n2,7.0000,0.0000,7.0000,false\n3,0.0000,5.2500,5.2500,false\n"
    );
}

#[test]
fn scenario_redispute_after_resolve_allowed() {
    let output = run_text(
        "type,client,tx,amount\ndeposit,1,1,10.0\ndispute,1,1,\nresolve,1,1,\ndispute,1,1,\n",
        false,
    );
    assert_eq!(output, "client,available,held,total,locked\n1,0.0000,10.0000,10.0000,false\n");
}

#[test]
fn scenario_unknown_dispute_changes_nothing() {
    let before = run_text("type,client,tx,amount\ndeposit,1,1,10.0\n", true);
    let after = run_text("type,client,tx,amount\ndeposit,1,1,10.0\ndispute,1,7,\n", true);
    assert_eq!(before, after);
}

#[test]
fn scenario_empty_stream_reports_header_only() {
    assert_eq!(run_text("type,client,tx,amount\n", false), "client,available,held,total,locked\n");
}
