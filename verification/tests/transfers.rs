use ledger_client::report::{Line, Report};
use ledger_client::transfers::{query_transfers, relevant, Transfer, TransferOwner};

fn text(s: &str) -> String {
    s.to_string()
}

fn amount(parts: &[(&str, i64)]) -> Vec<(String, i64)> {
    parts.iter().map(|(token, value)| (text(token), *value)).collect()
}

fn transfer() -> Transfer {
    Transfer {
        height: 12,
        index: 3,
        transparent: vec![
            (text("alice"), amount(&[("addr-nam", -5), ("other", 2)])),
            (text("masp"), amount(&[("addr-nam", 5)])),
        ],
        shielded: vec![
            (text("vk"), amount(&[("addr-btc", 5)])),
            (text("unknown"), amount(&[("addr-btc", 0)])),
        ],
    }
}

fn report(owner: TransferOwner, token: Option<&str>) -> Report {
    query_transfers(
        &vec![transfer()],
        &owner,
        &token.map(text),
        &text("masp"),
        &vec![(text("addr-nam"), text("NAM")), (text("addr-btc"), text("BTC"))],
        &vec![(text("vk"), text("xfvk"))],
    )
}

fn lines() -> Vec<Line> {
    vec![
        Line::out()
            .text("Height: ")
            .number(12)
            .text(", Index: ")
            .number(3)
            .text(", Transparent Transfer:"),
        Line::out()
            .text("  ")
            .text("alice")
            .text(":")
            .text(" ")
            .text("-")
            .amount(5)
            .text(" ")
            .text("NAM")
            .text(" ")
            .text("+")
            .amount(2)
            .text(" ")
            .text("other"),
        Line::out()
            .text("  ")
            .text("xfvk")
            .text(":")
            .text(" ")
            .text("+")
            .amount(5)
            .text(" ")
            .text("BTC"),
    ]
}

#[test]
fn a_transfer_is_reported_without_the_shielded_pool() {
    assert_eq!(report(TransferOwner::Any, None).lines, lines());
}

#[test]
fn transfers_are_selected_by_owner() {
    assert_eq!(report(TransferOwner::Address(text("alice")), None).lines, lines());
    assert_eq!(report(TransferOwner::Address(text("vk")), None).lines, vec![]);
    assert_eq!(report(TransferOwner::ViewingKey(text("unknown")), None).lines, lines());
    assert_eq!(report(TransferOwner::ViewingKey(text("alice")), None).lines, vec![]);
    assert_eq!(report(TransferOwner::PaymentAddress, None).lines, vec![]);
}

#[test]
fn transfers_are_selected_by_token() {
    assert_eq!(report(TransferOwner::Any, Some("addr-nam")).lines, lines());
    assert_eq!(report(TransferOwner::Any, Some("addr-btc")).lines, lines());
    assert_eq!(report(TransferOwner::Any, Some("unmoved")).lines, vec![]);
    assert!(!relevant(
        &transfer(),
        &TransferOwner::Address(text("bob")),
        &Some(text("addr-nam"))
    ));
}

#[test]
fn a_value_of_zero_has_no_sign() {
    let report = query_transfers(
        &vec![Transfer {
            height: 1,
            index: 0,
            transparent: vec![(text("a"), amount(&[("t", 0)])), (text("b"), vec![])],
            shielded: vec![],
        }],
        &TransferOwner::Any,
        &None,
        &text("masp"),
        &vec![],
        &vec![],
    );
    assert_eq!(
        report.lines[1],
        Line::out().text("  ").text("a").text(":").text(" ").text("").amount(0).text(" ").text("t")
    );
    assert_eq!(report.lines[2], Line::out().text("  ").text("b").text(":"));
}
