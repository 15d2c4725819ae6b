use ledger_client::report::{Line, Report};
use ledger_client::tx::{
    dry_run_tx, query_raw_bytes, query_result, unwrap_client_response, TxLookup, TxLookupStep,
};

fn text(s: &str) -> String {
    s.to_string()
}

#[test]
fn raw_bytes_are_shown_in_hexadecimal() {
    assert_eq!(
        query_raw_bytes(&text("key"), &vec![0, 9, 10, 15, 16, 171, 255]),
        Report::of(Line::out().text("Found data: 0x").text("00090a0f10abff"))
    );
}

#[test]
fn missing_bytes_are_reported() {
    assert_eq!(
        query_raw_bytes(&text("key"), &vec![]),
        Report::of(Line::out().text("No data found for key ").text("key"))
    );
}

#[test]
fn the_result_of_a_dry_run_is_shown() {
    assert_eq!(
        dry_run_tx(&text("accepted")),
        Report::of(Line::out().text("Dry-run result: ").text("accepted"))
    );
}

#[test]
fn an_applied_transaction_is_found_first() {
    match query_result(TxLookup::Applied, Ok(text("{}"))) {
        TxLookupStep::Found(report) => assert_eq!(
            report,
            Report::of(Line::out().text("Transaction was applied with result: ").text("{}"))
        ),
        _ => panic!(),
    }
}

#[test]
fn an_accepted_transaction_is_looked_up_next() {
    let lookup = match query_result(TxLookup::Applied, Err(text("first"))) {
        TxLookupStep::Next(lookup) => lookup,
        _ => panic!(),
    };
    assert_eq!(lookup, TxLookup::Accepted { applied_error: text("first") });
    match query_result(lookup, Ok(text("{}"))) {
        TxLookupStep::Found(report) => assert_eq!(
            report,
            Report::of(Line::out().text("Transaction was accepted with result: ").text("{}"))
        ),
        _ => panic!(),
    }
}

#[test]
fn both_reasons_are_reported_where_both_lookups_fail() {
    let lookup = TxLookup::Accepted { applied_error: text("first") };
    match query_result(lookup, Err(text("second"))) {
        TxLookupStep::Failed(report) => assert_eq!(
            report,
            Report::of(Line::error().text("first").text("\n").text("second"))
        ),
        _ => panic!(),
    }
}

#[test]
fn a_failed_query_is_reported() {
    assert_eq!(unwrap_client_response::<u8, u8>(Ok(3)), Ok(3));
    assert_eq!(
        unwrap_client_response::<u8, u8>(Err(3)),
        Err(Report::of(Line::error().text("Error in the query")))
    );
}
