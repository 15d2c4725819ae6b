use ledger_client::validity_predicate::VpSentinel;

#[test]
fn default_sentinel_signals_nothing() {
    let sentinel = VpSentinel::default();
    assert!(!sentinel.is_out_of_gas());
    assert!(!sentinel.is_invalid_signature());
    assert!(matches!(sentinel, VpSentinel::NoAction));
}

#[test]
fn last_set_event_is_signalled() {
    let mut sentinel = VpSentinel::default();
    sentinel.set_out_of_gas();
    assert!(sentinel.is_out_of_gas());
    assert!(!sentinel.is_invalid_signature());
    sentinel.set_invalid_signature();
    assert!(sentinel.is_invalid_signature());
    assert!(!sentinel.is_out_of_gas());
}
