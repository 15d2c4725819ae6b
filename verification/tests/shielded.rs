use ledger_client::assets::{
    asset_name, sign_of, to_amount, unsigned_abs, value_by_address, value_of_token, AssetType,
};
use ledger_client::balances::BalanceOwner;
use ledger_client::report::{Line, Report};
use ledger_client::shielded::{
    group_by_asset, print_decoded_balance, print_decoded_balance_with_epoch,
    query_shielded_balance, token_of_key_report, token_of_keys_report, tokens_of_keys_report,
    AssetGroup, ShieldedReport, ShieldedRequest,
};

fn text(s: &str) -> String {
    s.to_string()
}

fn asset(n: u8) -> AssetType {
    let mut id = [0; 32];
    id[31] = n;
    AssetType(id)
}

fn tokens() -> Vec<(String, String)> {
    vec![(text("addr-nam"), text("NAM")), (text("addr-btc"), text("BTC"))]
}

#[test]
fn components_are_found_by_asset() {
    let amount = vec![(asset(1), 5), (asset(2), -7)];
    assert_eq!(value_by_address(&amount, asset(2)), (asset(2), -7));
    assert_eq!(value_by_address(&amount, asset(3)), (asset(3), 0));
    let amount = vec![(text("a"), 5), (text("b"), -7)];
    assert_eq!(value_of_token(&amount, &text("a")), 5);
    assert_eq!(value_of_token(&amount, &text("c")), 0);
}

#[test]
fn values_are_turned_into_amounts() {
    assert_eq!(to_amount(5), 5);
    assert_eq!(to_amount(-1), u64::MAX);
    assert_eq!(to_amount(i64::MIN), 1 << 63);
    assert_eq!(unsigned_abs(5), 5);
    assert_eq!(unsigned_abs(-5), 5);
    assert_eq!(unsigned_abs(i64::MIN), 1 << 63);
    assert_eq!((sign_of(3), sign_of(0), sign_of(-3)), ("+", "", "-"));
}

#[test]
fn names_of_assets_end_in_the_epoch() {
    assert_eq!(
        asset_name(&vec![9, 8, 7], 0x0102),
        vec![9, 8, 7, 2, 1, 0, 0, 0, 0, 0, 0]
    );
    assert_eq!(asset_name(&vec![], u64::MAX), vec![255; 8]);
}

#[test]
fn names_of_assets_differ() {
    let names = [
        asset_name(&vec![1, 2], 3),
        asset_name(&vec![1, 2], 4),
        asset_name(&vec![1], 3),
        asset_name(&vec![2, 1], 3),
    ];
    for i in 0..names.len() {
        for j in 0..i {
            assert_ne!(names[i], names[j]);
        }
    }
}

#[test]
fn shielded_balances_are_queried_by_key() {
    let key = Some(BalanceOwner::FullViewingKey(text("k")));
    let wallet = || vec![text("w"), text("x")];
    assert_eq!(
        query_shielded_balance(Some(text("t")), &key, false, wallet()),
        ShieldedRequest {
            keys: vec![text("k")],
            exchange: true,
            report: ShieldedReport::TokenOfKey { token: text("t") },
        }
    );
    assert_eq!(
        query_shielded_balance(None, &key, false, wallet()),
        ShieldedRequest {
            keys: vec![text("k")],
            exchange: true,
            report: ShieldedReport::TokensOfKey,
        }
    );
    assert_eq!(
        query_shielded_balance(None, &key, true, wallet()),
        ShieldedRequest {
            keys: vec![text("k")],
            exchange: false,
            report: ShieldedReport::EpochsOfKey,
        }
    );
    assert_eq!(
        query_shielded_balance(Some(text("t")), &None, true, wallet()),
        ShieldedRequest {
            keys: wallet(),
            exchange: false,
            report: ShieldedReport::TokenOfKeys { token: text("t") },
        }
    );
    assert_eq!(
        query_shielded_balance(None, &None, false, wallet()),
        ShieldedRequest { keys: wallet(), exchange: true, report: ShieldedReport::TokensOfKeys }
    );
}

#[test]
fn the_balance_of_a_key_is_reported() {
    let balance = vec![(asset(1), 5)];
    assert_eq!(
        token_of_key_report(&tokens(), &text("addr-nam"), asset(1), &balance),
        Report::of(Line::out().text("NAM").text(": ").amount(5))
    );
    assert_eq!(
        token_of_key_report(&tokens(), &text("other"), asset(2), &balance),
        Report::of(
            Line::out().text("No shielded ").text("other").text(" balance found for given key")
        )
    );
}

#[test]
fn the_balances_of_all_keys_are_reported() {
    let balances = vec![
        (text("k"), vec![(asset(1), 5)]),
        (text("l"), vec![(asset(2), 6)]),
        (text("m"), vec![(asset(2), 1), (asset(1), 7)]),
    ];
    assert_eq!(
        token_of_keys_report(&tokens(), &text("addr-nam"), asset(1), &balances).lines,
        vec![
            Line::out().text("Shielded Token ").text("NAM").text(":"),
            Line::out().text("  ").amount(5).text(", owned by ").text("k"),
            Line::out().text("  ").amount(7).text(", owned by ").text("m"),
        ]
    );
    assert_eq!(
        token_of_keys_report(&tokens(), &text("addr-nam"), asset(3), &balances).lines,
        vec![
            Line::out().text("Shielded Token ").text("NAM").text(":"),
            Line::out()
                .text("No shielded ")
                .text("NAM")
                .text(" balance found for any wallet key"),
        ]
    );
}

#[test]
fn holdings_are_divided_by_asset() {
    let balances = vec![
        (text("k"), vec![(asset(1), 5), (asset(2), 6)]),
        (text("l"), vec![]),
        (text("m"), vec![(asset(2), -1), (asset(1), 7)]),
    ];
    let mut groups = group_by_asset(&balances);
    groups.sort_by_key(|group| group.asset.0);
    assert_eq!(groups.len(), 2);
    assert_eq!(groups[0].asset, asset(1));
    assert_eq!(groups[0].holdings, vec![(text("k"), 5), (text("m"), 7)]);
    assert_eq!(groups[1].asset, asset(2));
    assert_eq!(groups[1].holdings, vec![(text("k"), 6), (text("m"), -1)]);
    assert!(group_by_asset(&vec![]).is_empty());
}

#[test]
fn only_assets_of_the_current_epoch_are_reported() {
    let group = |n: u8, key: &str, value: i64| AssetGroup {
        asset: asset(n),
        holdings: vec![(text(key), value)],
    };
    let groups = vec![group(1, "k", 5), group(2, "l", 6), group(3, "m", 7), group(4, "n", 8)];
    let decoded = vec![
        Some((text("addr-nam"), 3)),
        Some((text("addr-btc"), 2)),
        None,
        Some((text("other"), 3)),
    ];
    assert_eq!(
        tokens_of_keys_report(&groups, &decoded, 3, &tokens()).lines,
        vec![
            Line::out().text("Shielded Token ").text("NAM").text(":"),
            Line::out().text("  ").amount(5).text(", owned by ").text("k"),
            Line::out().text("Shielded Token ").text("other").text(":"),
            Line::out().text("  ").amount(8).text(", owned by ").text("n"),
            Line::out().text("Shielded Token ").text("BTC").text(":"),
            Line::out()
                .text("No shielded ")
                .text("BTC")
                .text(" balance found for any wallet key"),
        ]
    );
}

#[test]
fn outdated_assets_do_not_count() {
    let group = |n: u8| AssetGroup { asset: asset(n), holdings: vec![(text("k"), 5)] };
    let current = Some((text("addr-nam"), 3));
    let outdated = Some((text("addr-btc"), 2));
    let with = tokens_of_keys_report(
        &vec![group(1), group(2)],
        &vec![outdated, current.clone()],
        3,
        &tokens(),
    );
    let without = tokens_of_keys_report(&vec![group(2)], &vec![current], 3, &tokens());
    assert_eq!(with, without);
}

#[test]
fn every_named_token_is_reported() {
    let report = tokens_of_keys_report(&vec![], &vec![], 3, &tokens());
    for (_, name) in tokens() {
        let header = Line::out().text("Shielded Token ").text(&name).text(":");
        assert!(report.lines.contains(&header));
    }
}

#[test]
fn decoded_balances_are_printed() {
    assert_eq!(
        print_decoded_balance(&tokens(), &vec![(text("addr-btc"), 5), (text("other"), -1)]).lines,
        vec![
            Line::out().text("BTC").text(" : ").amount(5),
            Line::out().text("other").text(" : ").amount(u64::MAX),
        ]
    );
    assert_eq!(
        print_decoded_balance_with_epoch(&tokens(), &vec![((text("addr-btc"), 4), 5)]).lines,
        vec![Line::out().text("BTC").text(" | ").number(4).text(" : ").amount(5)]
    );
    let nothing = Report::of(Line::out().text("No shielded balance found for given key"));
    assert_eq!(print_decoded_balance(&tokens(), &vec![]), nothing);
    assert_eq!(print_decoded_balance_with_epoch(&tokens(), &vec![]), nothing);
}
