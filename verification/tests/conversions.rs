use ledger_client::assets::AssetType;
use ledger_client::conversions::{can_report, query_conversions, Conversion};
use ledger_client::report::{Line, Report};

fn text(s: &str) -> String {
    s.to_string()
}

fn conversion(id: u8, token: &str, epoch: u64, parts: &[(u8, i64)]) -> Conversion {
    Conversion {
        asset: AssetType([id; 32]),
        token: text(token),
        epoch,
        parts: parts.iter().map(|(id, value)| (AssetType([*id; 32]), *value)).collect(),
    }
}

fn list() -> Vec<Conversion> {
    vec![
        conversion(1, "addr-nam", 1, &[(1, -1), (2, 3)]),
        conversion(2, "addr-nam", 2, &[]),
        conversion(3, "other", 1, &[(3, 2)]),
    ]
}

fn tokens() -> Vec<(String, String)> {
    vec![(text("addr-nam"), text("NAM"))]
}

fn nam_line() -> Line {
    Line::out()
        .text("NAM")
        .text("[")
        .number(1)
        .text("]: ")
        .text("")
        .integer(-1)
        .text(" ")
        .text("NAM")
        .text("[")
        .number(1)
        .text("]")
        .text(" + ")
        .integer(3)
        .text(" ")
        .text("NAM")
        .text("[")
        .number(2)
        .text("]")
        .text(" = 0")
}

fn other_line() -> Line {
    Line::out()
        .text("other")
        .text("[")
        .number(1)
        .text("]: ")
        .text("")
        .integer(2)
        .text(" ")
        .text("other")
        .text("[")
        .number(1)
        .text("]")
        .text(" = 0")
}

#[test]
fn conversions_are_implicit_equations() {
    assert_eq!(
        query_conversions(&list(), &None, None, &tokens()).lines,
        vec![nam_line(), other_line()]
    );
}

#[test]
fn conversions_are_selected_by_token_and_epoch() {
    let lines = |token: Option<&str>, epoch: Option<u64>| {
        query_conversions(&list(), &token.map(text), epoch, &tokens()).lines
    };
    assert_eq!(lines(Some("addr-nam"), None), vec![nam_line()]);
    assert_eq!(lines(Some("other"), Some(1)), vec![other_line()]);
    assert_eq!(lines(None, Some(1)), vec![nam_line(), other_line()]);
    let none =
        vec![Line::out().text("No conversions found satisfying specified criteria.")];
    assert_eq!(lines(Some("addr-nam"), Some(2)), none);
    assert_eq!(lines(Some("third"), None), none);
}

#[test]
fn no_conversions_are_reported_as_such() {
    assert_eq!(
        query_conversions(&vec![], &None, None, &tokens()),
        Report::of(Line::out().text("No conversions found satisfying specified criteria."))
    );
}

#[test]
fn assets_of_conversions_must_be_listed() {
    let open = vec![conversion(1, "a", 1, &[(1, 1), (9, 1)]), conversion(2, "b", 1, &[(2, 1)])];
    assert!(!can_report(&open, &None, None));
    assert!(!can_report(&open, &Some(text("a")), None));
    assert!(can_report(&open, &Some(text("b")), None));
    assert!(can_report(&open, &None, Some(2)));
    assert!(can_report(&list(), &None, None));
}
