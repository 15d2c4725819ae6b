use ledger_client::balances::{
    lookup_alias, print_balances, query_balance, query_transparent_balance,
    transparent_balance_report, BalanceEntry, BalanceKey, BalanceOwner, BalanceQuery,
    PrefixQuery, TokenPrefix, TransparentRequest,
};
use ledger_client::report::{Line, Report};

fn text(s: &str) -> String {
    s.to_string()
}

fn tokens() -> Vec<(String, String)> {
    vec![(text("addr-nam"), text("NAM")), (text("addr-btc"), text("BTC"))]
}

fn aliases() -> Vec<(String, String)> {
    vec![(text("addr-a"), text("albert"))]
}

fn owner(address: &str) -> Option<BalanceOwner> {
    Some(BalanceOwner::Address(text(address)))
}

#[test]
fn balances_are_queried_by_the_sort_of_owner() {
    assert_eq!(
        query_balance(&Some(BalanceOwner::FullViewingKey(text("k")))),
        vec![BalanceQuery::Shielded]
    );
    assert_eq!(query_balance(&owner("a")), vec![BalanceQuery::Transparent]);
    assert_eq!(
        query_balance(&Some(BalanceOwner::PaymentAddress(text("p")))),
        vec![BalanceQuery::Pinned]
    );
    assert_eq!(
        query_balance(&None),
        vec![BalanceQuery::Pinned, BalanceQuery::Shielded, BalanceQuery::Transparent]
    );
}

#[test]
fn one_balance_is_asked_for_by_token_and_owner() {
    assert_eq!(
        query_transparent_balance(Some(text("t")), &owner("a"), Some(text("sub")), &tokens()),
        TransparentRequest::Balance {
            token: text("t"),
            sub_prefix: Some(text("sub")),
            owner: text("a"),
        }
    );
}

fn prefix(token: &str, prefix: TokenPrefix, target: Option<&str>) -> PrefixQuery {
    PrefixQuery { token: text(token), prefix, target: target.map(text) }
}

#[test]
fn several_balances_are_asked_for_by_prefix() {
    assert_eq!(
        query_transparent_balance(None, &owner("a"), None, &tokens()),
        TransparentRequest::Prefixes {
            queries: vec![
                prefix("addr-nam", TokenPrefix::Token, Some("a")),
                prefix("addr-btc", TokenPrefix::Token, Some("a")),
            ],
        }
    );
    assert_eq!(
        query_transparent_balance(Some(text("t")), &None, None, &tokens()),
        TransparentRequest::Prefixes { queries: vec![prefix("t", TokenPrefix::Token, None)] }
    );
    assert_eq!(
        query_transparent_balance(None, &None, None, &tokens()),
        TransparentRequest::Prefixes {
            queries: vec![
                prefix("addr-nam", TokenPrefix::Balance, None),
                prefix("addr-btc", TokenPrefix::Balance, None),
            ],
        }
    );
    let payment = Some(BalanceOwner::PaymentAddress(text("p")));
    assert_eq!(
        query_transparent_balance(None, &payment, None, &vec![]),
        TransparentRequest::Prefixes { queries: vec![] }
    );
}

#[test]
fn a_balance_is_reported() {
    let a = BalanceOwner::Address(text("a"));
    let report = |token: &str, sub: Option<String>, balance: Option<u64>| {
        transparent_balance_report(&text(token), &a, &sub, &tokens(), balance)
    };
    assert_eq!(
        report("addr-btc", None, Some(5)),
        Report::of(Line::out().text("BTC").text(": ").amount(5))
    );
    assert_eq!(
        report("addr-btc", Some(text("sub")), Some(5)),
        Report::of(Line::out().text("BTC").text(" with ").text("sub").text(": ").amount(5))
    );
    assert_eq!(
        report("unnamed", Some(text("sub")), None),
        Report::of(
            Line::out().text("No ").text("unnamed").text(" balance found for ").text("a")
        )
    );
}

#[test]
fn an_alias_stands_for_its_address() {
    assert_eq!(lookup_alias(&aliases(), &text("addr-a")), "albert");
    assert_eq!(lookup_alias(&aliases(), &text("addr-b")), "addr-b");
}

fn entries() -> Vec<BalanceEntry> {
    vec![
        BalanceEntry { key: BalanceKey::Token { owner: text("addr-a") }, balance: 10 },
        BalanceEntry { key: BalanceKey::Other, balance: 99 },
        BalanceEntry {
            key: BalanceKey::Multitoken { sub_prefix: text("sub"), owner: text("addr-b") },
            balance: 20,
        },
    ]
}

#[test]
fn all_balances_of_a_token_are_printed() {
    let report = print_balances(&aliases(), &entries(), &tokens(), &text("addr-nam"), None);
    assert_eq!(
        report.lines,
        vec![
            Line::out().text("Token ").text("NAM"),
            Line::out().text(": ").amount(10).text(", owned by ").text("albert"),
            Line::out()
                .text("with ")
                .text("sub")
                .text(": ")
                .amount(20)
                .text(", owned by ")
                .text("addr-b"),
        ]
    );
}

#[test]
fn balances_of_a_target_are_printed() {
    let target = text("addr-b");
    let report =
        print_balances(&aliases(), &entries(), &tokens(), &text("addr-nam"), Some(&target));
    assert_eq!(report.lines.len(), 2);
    let target = text("addr-a");
    let report = print_balances(&aliases(), &vec![], &tokens(), &text("other"), Some(&target));
    assert_eq!(
        report.lines,
        vec![
            Line::out().text("Token ").text("other"),
            Line::out().text("No balances owned by ").text("albert"),
        ]
    );
}

#[test]
fn a_token_without_balances_is_reported() {
    let other = vec![BalanceEntry { key: BalanceKey::Other, balance: 99 }];
    let report = print_balances(&aliases(), &other, &tokens(), &text("addr-nam"), None);
    assert_eq!(
        report.lines,
        vec![
            Line::out().text("Token ").text("NAM"),
            Line::out().text("No balances for token ").text("NAM"),
        ]
    );
}
