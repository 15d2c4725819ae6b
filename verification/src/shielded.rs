//! Balances that only the holders of viewing keys can see.

use vstd::prelude::*;

use crate::assets::{as_amount, component, same_asset, to_amount, value_by_address, AssetType};
use crate::balances::BalanceOwner;
use crate::names::{name_of, shown, shown_name};
use crate::report::{out, printed, Line, LineView, PieceView, Report};

verus! {

/// Which report a query for shielded balances ends in.
#[derive(Debug, PartialEq, Eq)]
pub enum ShieldedReport {
    /// That of the balance of one key in one token.
    TokenOfKey { token: String },
    /// That of the balances of one key in all tokens.
    TokensOfKey,
    /// That of the balances of one key in all tokens of all epochs.
    EpochsOfKey,
    /// That of the balances of all keys in one token.
    TokenOfKeys { token: String },
    /// That of the balances of all keys in all tokens.
    TokensOfKeys,
}

/// What a query for shielded balances asks for.
#[derive(Debug, PartialEq, Eq)]
pub struct ShieldedRequest {
    /// The viewing keys whose balances are computed.
    pub keys: Vec<String>,
    /// Whether the balances are computed with all conversions made.
    pub exchange: bool,
    pub report: ShieldedReport,
}

/// The viewing keys whose balances are asked for.
pub open spec fn asked_keys(owner: Option<BalanceOwner>, wallet_keys: Seq<String>) -> Seq<
    String,
> {
    match owner {
        Some(BalanceOwner::FullViewingKey(key)) => seq![key],
        _ => wallet_keys,
    }
}

/// The report that is asked for.
pub open spec fn asked_report(
    token: Option<String>,
    owner: Option<BalanceOwner>,
    no_conversions: bool,
) -> ShieldedReport {
    match (token, owner) {
        (Some(token), Some(BalanceOwner::FullViewingKey(_))) => {
            ShieldedReport::TokenOfKey { token }
        },
        (None, Some(BalanceOwner::FullViewingKey(_))) => if no_conversions {
            ShieldedReport::EpochsOfKey
        } else {
            ShieldedReport::TokensOfKey
        },
        (Some(token), _) => ShieldedReport::TokenOfKeys { token },
        (None, _) => ShieldedReport::TokensOfKeys,
    }
}

/// Query shielded balances: what to ask for. A key is given by an owner that is a viewing
/// key; otherwise the wallet's keys are taken.
pub fn query_shielded_balance(
    token: Option<String>,
    owner: &Option<BalanceOwner>,
    no_conversions: bool,
    wallet_keys: Vec<String>,
) -> (request: ShieldedRequest)
    ensures
        request.exchange == !no_conversions,
        request.keys@ == asked_keys(*owner, wallet_keys@),
        request.report == asked_report(token, *owner, no_conversions),
{
    match owner {
        Some(BalanceOwner::FullViewingKey(key)) => {
            let keys: Vec<String> = vec![key.clone()];
            assert(keys@ =~= seq![*key]);
            let report = match token {
                Some(token) => ShieldedReport::TokenOfKey { token },
                None => if no_conversions {
                    ShieldedReport::EpochsOfKey
                } else {
                    ShieldedReport::TokensOfKey
                },
            };
            ShieldedRequest { keys, exchange: !no_conversions, report }
        },
        _ => {
            let report = match token {
                Some(token) => ShieldedReport::TokenOfKeys { token },
                None => ShieldedReport::TokensOfKeys,
            };
            ShieldedRequest { keys: wallet_keys, exchange: !no_conversions, report }
        },
    }
}

/// The balance of a key: its components by asset.
pub type KeyBalance = (String, Vec<(AssetType, i64)>);

/// The line of the value that one key holds of one token.
pub open spec fn value_line(code: Seq<char>, value: i64) -> LineView {
    if value == 0 {
        out().text("No shielded "@).text(code).text(" balance found for given key"@)
    } else {
        out().text(code).text(": "@).amount(as_amount(value))
    }
}

/// The report of the balance of one key in one token, whose asset is given.
pub fn token_of_key_report(
    tokens: &Vec<(String, String)>,
    token: &String,
    asset: AssetType,
    balance: &Vec<(AssetType, i64)>,
) -> (report: Report)
    ensures
        report@ == seq![
            value_line(shown(tokens@, token@), component(balance@, asset.0@)),
        ],
{
    let code = shown_name(tokens, token);
    let (_, value) = value_by_address(balance, asset);
    if value == 0 {
        Report::of(
            Line::out().text("No shielded ").text(code.as_str()).text(
                " balance found for given key",
            ),
        )
    } else {
        Report::of(Line::out().text(code.as_str()).text(": ").amount(to_amount(value)))
    }
}

/// The line of what a key holds.
pub open spec fn holding_line(key: Seq<char>, value: i64) -> LineView {
    out().text("  "@).amount(as_amount(value)).text(", owned by "@).text(key)
}

/// The lines of what keys hold of an asset, where they hold anything.
pub open spec fn nonzero_lines(balances: Seq<KeyBalance>, asset: Seq<u8>) -> Seq<LineView>
    decreases balances.len(),
{
    if balances.len() == 0 {
        seq![]
    } else {
        let lines = nonzero_lines(balances.drop_last(), asset);
        let value = component(balances.last().1@, asset);
        if value != 0 {
            lines.push(holding_line(balances.last().0@, value))
        } else {
            lines
        }
    }
}

/// The line above balances in a token.
pub open spec fn token_header(code: Seq<char>) -> LineView {
    out().text("Shielded Token "@).text(code).text(":"@)
}

/// The line that tells that no key holds a token.
pub open spec fn nothing_held(code: Seq<char>) -> LineView {
    out().text("No shielded "@).text(code).text(" balance found for any wallet key"@)
}

/// The account of what keys hold of the asset of one token.
pub open spec fn token_lines(
    code: Seq<char>,
    balances: Seq<KeyBalance>,
    asset: Seq<u8>,
) -> Seq<LineView> {
    seq![token_header(code)] + if nonzero_lines(balances, asset).len() > 0 {
        nonzero_lines(balances, asset)
    } else {
        seq![nothing_held(code)]
    }
}

/// The line of what a key holds.
fn line_of_holding(key: &String, value: i64) -> (line: Line)
    ensures
        line@ == holding_line(key@, value),
{
    Line::out().text("  ").amount(to_amount(value)).text(", owned by ").text(key.as_str())
}

/// The report of the balances of all keys in one token, whose asset is given.
pub fn token_of_keys_report(
    tokens: &Vec<(String, String)>,
    token: &String,
    asset: AssetType,
    balances: &Vec<KeyBalance>,
) -> (report: Report)
    ensures
        report@ == token_lines(shown(tokens@, token@), balances@, asset.0@),
{
    let code = shown_name(tokens, token);
    let mut report = Report::of(Line::out().text("Shielded Token ").text(code.as_str()).text(":"));
    let ghost header = report@;
    let mut found_any = false;
    let mut i: usize = 0;
    assert(report@ =~= header + nonzero_lines(balances@.take(0), asset.0@));
    while i < balances.len()
        invariant
            i <= balances.len(),
            report@ == header + nonzero_lines(balances@.take(i as int), asset.0@),
            found_any == (nonzero_lines(balances@.take(i as int), asset.0@).len() > 0),
        decreases balances.len() - i,
    {
        assert(balances@.take(i + 1).drop_last() =~= balances@.take(i as int));
        let (_, value) = value_by_address(&balances[i].1, asset);
        if value != 0 {
            report.push(line_of_holding(&balances[i].0, value));
            found_any = true;
        }
        assert(report@ =~= header + nonzero_lines(balances@.take(i + 1), asset.0@));
        i = i + 1;
    }
    assert(balances@.take(i as int) =~= balances@);
    if !found_any {
        report.push(
            Line::out().text("No shielded ").text(code.as_str()).text(
                " balance found for any wallet key",
            ),
        );
    }
    assert(report@ =~= header + if nonzero_lines(balances@, asset.0@).len() > 0 {
        nonzero_lines(balances@, asset.0@)
    } else {
        seq![nothing_held(shown(tokens@, token@))]
    });
    report
}

/// What keys hold of an asset.
#[derive(Debug)]
pub struct AssetGroup {
    pub asset: AssetType,
    /// Pairs of a key and the value that it holds.
    pub holdings: Vec<(String, i64)>,
}

/// A value of an asset that a key holds.
pub type Holding = (String, AssetType, i64);

/// The values that keys hold, key by key.
pub open spec fn holdings_of_keys(balances: Seq<KeyBalance>) -> Seq<Holding>
    decreases balances.len(),
{
    if balances.len() == 0 {
        seq![]
    } else {
        let last = balances.last();
        holdings_of_keys(balances.drop_last()) + last.1@.map_values(
            |c: (AssetType, i64)| (last.0, c.0, c.1),
        )
    }
}

/// What is held of an asset, in the order of the holdings.
pub open spec fn held_of(holdings: Seq<Holding>, asset: Seq<u8>) -> Seq<(String, i64)>
    decreases holdings.len(),
{
    if holdings.len() == 0 {
        seq![]
    } else {
        let held = held_of(holdings.drop_last(), asset);
        let last = holdings.last();
        if last.1.0@ == asset {
            held.push((last.0, last.2))
        } else {
            held
        }
    }
}

/// Whether groups divide holdings by asset: there is one group for each asset that is held,
/// and none for another, and it has what is held of the asset.
pub open spec fn is_division(holdings: Seq<Holding>, groups: Seq<AssetGroup>) -> bool {
    &&& forall|i: int, j: int|
        0 <= i < j < groups.len() ==> (#[trigger] groups[i]).asset.0@ != (
        #[trigger] groups[j]).asset.0@
    &&& forall|i: int|
        0 <= i < groups.len() ==> (#[trigger] groups[i]).holdings@ == held_of(
            holdings,
            groups[i].asset.0@,
        ) && groups[i].holdings@.len() > 0
    &&& forall|k: int|
        0 <= k < holdings.len() ==> has_group(groups, (#[trigger] holdings[k]).1.0@)
}

/// Whether there is a group for an asset.
pub open spec fn has_group(groups: Seq<AssetGroup>, asset: Seq<u8>) -> bool {
    exists|i: int| 0 <= i < groups.len() && (#[trigger] groups[i]).asset.0@ == asset
}

/// The place of the group of an asset.
fn group_of(groups: &Vec<AssetGroup>, asset: &AssetType) -> (place: Option<usize>)
    ensures
        match place {
            Some(i) => i < groups@.len() && groups@[i as int].asset.0@ == asset.0@,
            None => !has_group(groups@, asset.0@),
        },
{
    let mut i: usize = 0;
    while i < groups.len()
        invariant
            i <= groups.len(),
            forall|j: int| 0 <= j < i ==> (#[trigger] groups@[j]).asset.0@ != asset.0@,
        decreases groups.len() - i,
    {
        if same_asset(&groups[i].asset, asset) {
            return Some(i);
        }
        i = i + 1;
    }
    None
}

/// Nothing is held of an asset that is in no holding.
proof fn lemma_not_held(holdings: Seq<Holding>, asset: Seq<u8>)
    requires
        forall|k: int| 0 <= k < holdings.len() ==> (#[trigger] holdings[k]).1.0@ != asset,
    ensures
        held_of(holdings, asset).len() == 0,
    decreases holdings.len(),
{
    if holdings.len() > 0 {
        assert forall|k: int| 0 <= k < holdings.len() - 1 implies (
        #[trigger] holdings.drop_last()[k]).1.0@ != asset by {
            assert(holdings.drop_last()[k] == holdings[k]);
        }
        assert(holdings[holdings.len() - 1].1.0@ != asset);
        lemma_not_held(holdings.drop_last(), asset);
    }
}

/// Divides holdings by asset.
fn divide(holdings: &Vec<Holding>) -> (groups: Vec<AssetGroup>)
    ensures
        is_division(holdings@, groups@),
{
    let mut groups: Vec<AssetGroup> = Vec::new();
    let mut i: usize = 0;
    while i < holdings.len()
        invariant
            i <= holdings.len(),
            is_division(holdings@.take(i as int), groups@),
        decreases holdings.len() - i,
    {
        let holding = &holdings[i];
        let ghost seen = holdings@.take(i as int);
        let ghost next = holdings@.take(i + 1);
        let ghost before = groups@;
        assert(next.drop_last() =~= seen);
        match group_of(&groups, &holding.1) {
            Some(place) => {
                groups[place].holdings.push((holding.0.clone(), holding.2));
                proof {
                    assert forall|g: int| 0 <= g < before.len() implies (
                    #[trigger] groups@[g]).asset == before[g].asset by {}
                    assert forall|k: int| 0 <= k < next.len() implies has_group(
                        groups@,
                        (#[trigger] next[k]).1.0@,
                    ) by {
                        if k < i {
                            assert(seen[k] == next[k]);
                            assert(has_group(before, seen[k].1.0@));
                            let g = choose|g: int|
                                0 <= g < before.len() && (#[trigger] before[g]).asset.0@
                                    == seen[k].1.0@;
                            assert(groups@[g].asset.0@ == seen[k].1.0@);
                        } else {
                            assert(groups@[place as int].asset.0@ == next[k].1.0@);
                        }
                    }
                    assert(is_division(next, groups@));
                }
            },
            None => {
                let mut held: Vec<(String, i64)> = Vec::new();
                held.push((holding.0.clone(), holding.2));
                groups.push(AssetGroup { asset: holding.1, holdings: held });
                proof {
                    let asset = holding.1.0@;
                    assert forall|k: int| 0 <= k < seen.len() implies (
                    #[trigger] seen[k]).1.0@ != asset by {
                        assert(has_group(before, seen[k].1.0@));
                    }
                    lemma_not_held(seen, asset);
                    assert(held_of(next, asset) =~= held@);
                    assert(groups@[before.len() as int].holdings@ == held_of(next, asset));
                    assert forall|g: int| 0 <= g < groups@.len() implies (
                    #[trigger] groups@[g]).holdings@ == held_of(next, groups@[g].asset.0@)
                        && groups@[g].holdings@.len() > 0 by {
                        if g < before.len() {
                            assert(groups@[g] == before[g]);
                        }
                    }
                    assert forall|k: int| 0 <= k < next.len() implies has_group(
                        groups@,
                        (#[trigger] next[k]).1.0@,
                    ) by {
                        if k < i {
                            assert(seen[k] == next[k]);
                            assert(has_group(before, seen[k].1.0@));
                            let g = choose|g: int|
                                0 <= g < before.len() && (#[trigger] before[g]).asset.0@
                                    == seen[k].1.0@;
                            assert(groups@[g].asset.0@ == seen[k].1.0@);
                        } else {
                            assert(groups@[before.len() as int].asset.0@ == next[k].1.0@);
                        }
                    }
                    assert(is_division(next, groups@));
                }
            },
        }
        i = i + 1;
    }
    assert(holdings@.take(i as int) =~= holdings@);
    groups
}

/// Divides what keys hold by asset.
pub fn group_by_asset(balances: &Vec<KeyBalance>) -> (groups: Vec<AssetGroup>)
    ensures
        is_division(holdings_of_keys(balances@), groups@),
{
    let mut holdings: Vec<Holding> = Vec::new();
    let mut i: usize = 0;
    while i < balances.len()
        invariant
            i <= balances.len(),
            holdings@ == holdings_of_keys(balances@.take(i as int)),
        decreases balances.len() - i,
    {
        let balance = &balances[i];
        let ghost before = holdings@;
        let ghost more = balance.1@.map_values(|c: (AssetType, i64)| (balance.0, c.0, c.1));
        assert(balances@.take(i + 1).drop_last() =~= balances@.take(i as int));
        let mut j: usize = 0;
        assert(holdings@ =~= before + more.take(0));
        while j < balance.1.len()
            invariant
                j <= balance.1.len(),
                more == balance.1@.map_values(|c: (AssetType, i64)| (balance.0, c.0, c.1)),
                holdings@ == before + more.take(j as int),
            decreases balance.1.len() - j,
        {
            holdings.push((balance.0.clone(), balance.1[j].0, balance.1[j].1));
            assert(holdings@ =~= before + more.take(j + 1));
            j = j + 1;
        }
        assert(more.take(j as int) =~= more);
        i = i + 1;
    }
    assert(balances@.take(i as int) =~= balances@);
    divide(&holdings)
}

/// What is held of an asset is among the holdings of it.
proof fn lemma_held(holdings: Seq<Holding>, asset: Seq<u8>, k: int)
    requires
        0 <= k < holdings.len(),
        holdings[k].1.0@ == asset,
    ensures
        held_of(holdings, asset).contains((holdings[k].0, holdings[k].2)),
    decreases holdings.len(),
{
    let held = held_of(holdings, asset);
    if k == holdings.len() - 1 {
        assert(held[held.len() - 1] == (holdings[k].0, holdings[k].2));
    } else {
        lemma_held(holdings.drop_last(), asset, k);
        let before = held_of(holdings.drop_last(), asset);
        let j = choose|j: int|
            0 <= j < before.len() && before[j] == (holdings[k].0, holdings[k].2);
        assert(held[j] == (holdings[k].0, holdings[k].2));
    }
}

/// Dividing holdings loses none of them: each is in the group of its asset.
pub proof fn lemma_division_keeps_holdings(
    holdings: Seq<Holding>,
    groups: Seq<AssetGroup>,
    k: int,
)
    requires
        is_division(holdings, groups),
        0 <= k < holdings.len(),
    ensures
        exists|i: int|
            0 <= i < groups.len() && (#[trigger] groups[i]).asset.0@ == holdings[k].1.0@
                && groups[i].holdings@.contains((holdings[k].0, holdings[k].2)),
{
    assert(has_group(groups, holdings[k].1.0@));
    lemma_held(holdings, holdings[k].1.0@, k);
}

/// The token that an asset stands for in an epoch.
pub open spec fn current_token(decoded: Option<(String, u64)>, epoch: u64) -> Option<Seq<char>> {
    match decoded {
        Some((token, asset_epoch)) => if asset_epoch == epoch {
            Some(token@)
        } else {
            None
        },
        None => None,
    }
}

/// The lines of what keys hold.
pub open spec fn holding_lines(holdings: Seq<(String, i64)>) -> Seq<LineView> {
    holdings.map_values(|h: (String, i64)| holding_line(h.0@, h.1))
}

/// The account of a group, where its asset stands for a token in the epoch.
pub open spec fn group_lines(
    group: AssetGroup,
    decoded: Option<(String, u64)>,
    epoch: u64,
    tokens: Seq<(String, String)>,
) -> Seq<LineView> {
    match current_token(decoded, epoch) {
        Some(token) => seq![token_header(shown(tokens, token))] + holding_lines(group.holdings@),
        None => seq![],
    }
}

/// The accounts of several groups.
pub open spec fn groups_lines(
    groups: Seq<AssetGroup>,
    decoded: Seq<Option<(String, u64)>>,
    epoch: u64,
    tokens: Seq<(String, String)>,
) -> Seq<LineView>
    decreases groups.len(),
{
    if groups.len() == 0 {
        seq![]
    } else {
        groups_lines(groups.drop_last(), decoded, epoch, tokens) + group_lines(
            groups.last(),
            decoded[groups.len() - 1],
            epoch,
            tokens,
        )
    }
}

/// Whether an asset stands for a token in the epoch.
pub open spec fn is_read(
    decoded: Seq<Option<(String, u64)>>,
    epoch: u64,
    token: Seq<char>,
) -> bool {
    exists|i: int|
        0 <= i < decoded.len() && current_token(#[trigger] decoded[i], epoch) == Some(token)
}

/// The lines of the tokens for which no asset stands in the epoch.
pub open spec fn unread_lines(
    decoded: Seq<Option<(String, u64)>>,
    epoch: u64,
    tokens: Seq<(String, String)>,
) -> Seq<LineView>
    decreases tokens.len(),
{
    if tokens.len() == 0 {
        seq![]
    } else {
        let lines = unread_lines(decoded, epoch, tokens.drop_last());
        if is_read(decoded, epoch, tokens.last().0@) {
            lines
        } else {
            lines.push(token_header(tokens.last().1@)).push(nothing_held(tokens.last().1@))
        }
    }
}

/// Whether an asset stands for a token in the epoch.
fn read(decoded: &Vec<Option<(String, u64)>>, epoch: u64, token: &String) -> (yes: bool)
    ensures
        yes == is_read(decoded@, epoch, token@),
{
    let mut i: usize = 0;
    while i < decoded.len()
        invariant
            i <= decoded.len(),
            forall|j: int|
                0 <= j < i ==> current_token(#[trigger] decoded@[j], epoch) != Some(token@),
        decreases decoded.len() - i,
    {
        if let Some(decoded_token) = &decoded[i] {
            if decoded_token.1 == epoch && decoded_token.0 == *token {
                assert(current_token(decoded@[i as int], epoch) == Some(token@));
                return true;
            }
        }
        i = i + 1;
    }
    false
}

/// The account of all groups, and of the tokens for which no asset stands in the epoch.
pub open spec fn all_tokens_lines(
    groups: Seq<AssetGroup>,
    decoded: Seq<Option<(String, u64)>>,
    epoch: u64,
    tokens: Seq<(String, String)>,
) -> Seq<LineView> {
    groups_lines(groups, decoded, epoch, tokens) + unread_lines(decoded, epoch, tokens)
}

/// The report of the balances of all keys in all tokens, given what each asset was decoded
/// to: the token and the epoch it stands for. Only assets of the current epoch count; for
/// tokens without any, that is said. There are no groups without holdings, as there are none
/// among those of [`group_by_asset`].
pub fn tokens_of_keys_report(
    groups: &Vec<AssetGroup>,
    decoded: &Vec<Option<(String, u64)>>,
    epoch: u64,
    tokens: &Vec<(String, String)>,
) -> (report: Report)
    requires
        groups@.len() == decoded@.len(),
        forall|i: int| 0 <= i < groups@.len() ==> (#[trigger] groups@[i]).holdings@.len() > 0,
    ensures
        report@ == all_tokens_lines(groups@, decoded@, epoch, tokens@),
{
    let mut report = Report::new();
    let mut i: usize = 0;
    while i < groups.len()
        invariant
            i <= groups.len(),
            groups@.len() == decoded@.len(),
            report@ == groups_lines(groups@.take(i as int), decoded@, epoch, tokens@),
        decreases groups.len() - i,
    {
        let group = &groups[i];
        let ghost before = report@;
        assert(groups@.take(i + 1).drop_last() =~= groups@.take(i as int));
        if let Some(token) = &decoded[i] {
            if token.1 == epoch {
                let code = shown_name(tokens, &token.0);
                report.push(Line::out().text("Shielded Token ").text(code.as_str()).text(":"));
                let ghost header = report@;
                let mut j: usize = 0;
                assert(report@ =~= header + holding_lines(group.holdings@).take(0));
                while j < group.holdings.len()
                    invariant
                        j <= group.holdings.len(),
                        report@ == header + holding_lines(group.holdings@).take(j as int),
                    decreases group.holdings.len() - j,
                {
                    report.push(line_of_holding(&group.holdings[j].0, group.holdings[j].1));
                    assert(report@ =~= header + holding_lines(group.holdings@).take(j + 1));
                    j = j + 1;
                }
                assert(holding_lines(group.holdings@).take(j as int) =~= holding_lines(
                    group.holdings@,
                ));
            }
        }
        assert(report@ =~= before + group_lines(*group, decoded@[i as int], epoch, tokens@));
        i = i + 1;
    }
    assert(groups@.take(i as int) =~= groups@);
    let ghost shown_groups = report@;
    let mut k: usize = 0;
    assert(report@ =~= shown_groups + unread_lines(decoded@, epoch, tokens@.take(0)));
    while k < tokens.len()
        invariant
            k <= tokens.len(),
            report@ == shown_groups + unread_lines(decoded@, epoch, tokens@.take(k as int)),
        decreases tokens.len() - k,
    {
        assert(tokens@.take(k + 1).drop_last() =~= tokens@.take(k as int));
        if !read(decoded, epoch, &tokens[k].0) {
            let code = &tokens[k].1;
            report.push(Line::out().text("Shielded Token ").text(code.as_str()).text(":"));
            report.push(
                Line::out().text("No shielded ").text(code.as_str()).text(
                    " balance found for any wallet key",
                ),
            );
        }
        assert(report@ =~= shown_groups + unread_lines(decoded@, epoch, tokens@.take(k + 1)));
        k = k + 1;
    }
    assert(tokens@.take(k as int) =~= tokens@);
    report
}

/// The accounts of groups depend on what their own assets were decoded to alone.
proof fn lemma_groups_lines_agree(
    groups: Seq<AssetGroup>,
    a: Seq<Option<(String, u64)>>,
    b: Seq<Option<(String, u64)>>,
    epoch: u64,
    tokens: Seq<(String, String)>,
)
    requires
        groups.len() <= a.len(),
        groups.len() <= b.len(),
        forall|k: int| 0 <= k < groups.len() ==> #[trigger] a[k] == b[k],
    ensures
        groups_lines(groups, a, epoch, tokens) == groups_lines(groups, b, epoch, tokens),
    decreases groups.len(),
{
    if groups.len() > 0 {
        lemma_groups_lines_agree(groups.drop_last(), a, b, epoch, tokens);
        assert(a[groups.len() - 1] == b[groups.len() - 1]);
    }
}

/// The accounts of groups stay the same without one whose asset is not current.
proof fn lemma_outdated_group(
    groups: Seq<AssetGroup>,
    decoded: Seq<Option<(String, u64)>>,
    epoch: u64,
    tokens: Seq<(String, String)>,
    i: int,
)
    requires
        groups.len() <= decoded.len(),
        0 <= i < groups.len(),
        current_token(decoded[i], epoch) is None,
    ensures
        groups_lines(groups.remove(i), decoded.remove(i), epoch, tokens) == groups_lines(
            groups,
            decoded,
            epoch,
            tokens,
        ),
    decreases groups.len(),
{
    let last = groups.len() - 1;
    let rest = groups.drop_last();
    if i == last {
        assert(groups.remove(i) =~= rest);
        lemma_groups_lines_agree(rest, decoded.remove(i), decoded, epoch, tokens);
        assert(groups_lines(groups, decoded, epoch, tokens) =~= groups_lines(
            rest,
            decoded,
            epoch,
            tokens,
        ));
    } else {
        lemma_outdated_group(rest, decoded, epoch, tokens, i);
        assert(groups.remove(i).drop_last() =~= rest.remove(i));
        assert(groups.remove(i).last() == groups.last());
        assert(decoded.remove(i)[last - 1] == decoded[last]);
    }
}

/// The tokens without an asset stay the same without an asset that is not current.
proof fn lemma_outdated_unread(
    decoded: Seq<Option<(String, u64)>>,
    epoch: u64,
    tokens: Seq<(String, String)>,
    i: int,
)
    requires
        0 <= i < decoded.len(),
        current_token(decoded[i], epoch) is None,
    ensures
        unread_lines(decoded.remove(i), epoch, tokens) == unread_lines(decoded, epoch, tokens),
    decreases tokens.len(),
{
    if tokens.len() > 0 {
        lemma_outdated_unread(decoded, epoch, tokens.drop_last(), i);
        let token = tokens.last().0@;
        let rest = decoded.remove(i);
        if is_read(decoded, epoch, token) {
            let k = choose|k: int|
                0 <= k < decoded.len() && current_token(#[trigger] decoded[k], epoch) == Some(
                    token,
                );
            let to = if k < i {
                k
            } else {
                k - 1
            };
            assert(rest[to] == decoded[k]);
        }
        if is_read(rest, epoch, token) {
            let k = choose|k: int|
                0 <= k < rest.len() && current_token(#[trigger] rest[k], epoch) == Some(token);
            let from = if k < i {
                k
            } else {
                k + 1
            };
            assert(decoded[from] == rest[k]);
        }
    }
}

/// Only assets of the current epoch count: the report of all balances stays the same without
/// one that is of another epoch, or that stands for no token.
pub proof fn lemma_outdated_assets_do_not_count(
    groups: Seq<AssetGroup>,
    decoded: Seq<Option<(String, u64)>>,
    epoch: u64,
    tokens: Seq<(String, String)>,
    i: int,
)
    requires
        groups.len() == decoded.len(),
        0 <= i < groups.len(),
        current_token(decoded[i], epoch) is None,
    ensures
        all_tokens_lines(groups.remove(i), decoded.remove(i), epoch, tokens) == all_tokens_lines(
            groups,
            decoded,
            epoch,
            tokens,
        ),
{
    lemma_outdated_group(groups, decoded, epoch, tokens, i);
    lemma_outdated_unread(decoded, epoch, tokens, i);
}

/// The lines for a token that is not read are among those for all of them.
proof fn lemma_unread_lines(
    decoded: Seq<Option<(String, u64)>>,
    epoch: u64,
    tokens: Seq<(String, String)>,
    k: int,
)
    requires
        0 <= k < tokens.len(),
        !is_read(decoded, epoch, tokens[k].0@),
    ensures
        unread_lines(decoded, epoch, tokens).contains(token_header(tokens[k].1@)),
    decreases tokens.len(),
{
    let lines = unread_lines(decoded, epoch, tokens);
    if k == tokens.len() - 1 {
        assert(lines[lines.len() - 2] == token_header(tokens[k].1@));
    } else {
        let before = unread_lines(decoded, epoch, tokens.drop_last());
        lemma_unread_lines(decoded, epoch, tokens.drop_last(), k);
        let j = choose|j: int|
            0 <= j < before.len() && before[j] == token_header(tokens[k].1@);
        assert(lines[j] == token_header(tokens[k].1@));
    }
}

/// The header of a group whose asset stands for a token is among the lines of all groups.
proof fn lemma_group_header(
    groups: Seq<AssetGroup>,
    decoded: Seq<Option<(String, u64)>>,
    epoch: u64,
    tokens: Seq<(String, String)>,
    i: int,
)
    requires
        0 <= i < groups.len(),
        current_token(decoded[i], epoch) is Some,
    ensures
        groups_lines(groups, decoded, epoch, tokens).contains(
            token_header(shown(tokens, current_token(decoded[i], epoch)->0)),
        ),
    decreases groups.len(),
{
    let header = token_header(shown(tokens, current_token(decoded[i], epoch)->0));
    let lines = groups_lines(groups, decoded, epoch, tokens);
    let before = groups_lines(groups.drop_last(), decoded, epoch, tokens);
    if i == groups.len() - 1 {
        assert(lines[before.len() as int] == header);
    } else {
        lemma_group_header(groups.drop_last(), decoded, epoch, tokens, i);
        let j = choose|j: int| 0 <= j < before.len() && before[j] == header;
        assert(lines[j] == header);
    }
}

/// Every token with a name is reported on, whether anybody holds it or not.
pub proof fn lemma_every_token_is_reported(
    groups: Seq<AssetGroup>,
    decoded: Seq<Option<(String, u64)>>,
    epoch: u64,
    tokens: Seq<(String, String)>,
    k: int,
)
    requires
        groups.len() == decoded.len(),
        0 <= k < tokens.len(),
        name_of(tokens, tokens[k].0@) == Some(tokens[k].1@),
    ensures
        all_tokens_lines(groups, decoded, epoch, tokens).contains(token_header(tokens[k].1@)),
{
    let header = token_header(tokens[k].1@);
    let first = groups_lines(groups, decoded, epoch, tokens);
    let second = unread_lines(decoded, epoch, tokens);
    if is_read(decoded, epoch, tokens[k].0@) {
        let i = choose|i: int|
            0 <= i < decoded.len() && current_token(#[trigger] decoded[i], epoch) == Some(
                tokens[k].0@,
            );
        lemma_group_header(groups, decoded, epoch, tokens, i);
        let j = choose|j: int| 0 <= j < first.len() && first[j] == header;
        assert((first + second)[j] == header);
    } else {
        lemma_unread_lines(decoded, epoch, tokens, k);
        let j = choose|j: int| 0 <= j < second.len() && second[j] == header;
        assert((first + second)[first.len() + j] == header);
    }
}

/// The lines of a decoded balance.
pub open spec fn decoded_lines(
    balance: Seq<(String, i64)>,
    tokens: Seq<(String, String)>,
) -> Seq<LineView> {
    if balance.len() == 0 {
        seq![out().text("No shielded balance found for given key"@)]
    } else {
        balance.map_values(
            |c: (String, i64)|
                out().text(shown(tokens, c.0@)).text(" : "@).amount(as_amount(c.1)),
        )
    }
}

/// Print a balance by token.
pub fn print_decoded_balance(
    tokens: &Vec<(String, String)>,
    decoded_balance: &Vec<(String, i64)>,
) -> (report: Report)
    ensures
        report@ == decoded_lines(decoded_balance@, tokens@),
{
    let mut report = Report::new();
    let mut i: usize = 0;
    while i < decoded_balance.len()
        invariant
            i <= decoded_balance.len(),
            i > 0 ==> report@ == decoded_lines(decoded_balance@, tokens@).take(i as int),
            i == 0 ==> report@.len() == 0,
        decreases decoded_balance.len() - i,
    {
        let part = &decoded_balance[i];
        let code = shown_name(tokens, &part.0);
        report.push(Line::out().text(code.as_str()).text(" : ").amount(to_amount(part.1)));
        assert(report@ =~= decoded_lines(decoded_balance@, tokens@).take(i + 1));
        i = i + 1;
    }
    if decoded_balance.len() == 0 {
        report.push(Line::out().text("No shielded balance found for given key"));
    }
    assert(report@ =~= decoded_lines(decoded_balance@, tokens@));
    report
}

/// The lines of a decoded balance with epochs.
pub open spec fn decoded_epoch_lines(
    balance: Seq<((String, u64), i64)>,
    tokens: Seq<(String, String)>,
) -> Seq<LineView> {
    if balance.len() == 0 {
        seq![out().text("No shielded balance found for given key"@)]
    } else {
        balance.map_values(
            |c: ((String, u64), i64)|
                out().text(shown(tokens, c.0.0@)).text(" | "@).number(c.0.1).text(" : "@).amount(
                    as_amount(c.1),
                ),
        )
    }
}

/// Print a balance by token and epoch.
pub fn print_decoded_balance_with_epoch(
    tokens: &Vec<(String, String)>,
    decoded_balance: &Vec<((String, u64), i64)>,
) -> (report: Report)
    ensures
        report@ == decoded_epoch_lines(decoded_balance@, tokens@),
{
    let mut report = Report::new();
    let mut i: usize = 0;
    while i < decoded_balance.len()
        invariant
            i <= decoded_balance.len(),
            i > 0 ==> report@ == decoded_epoch_lines(decoded_balance@, tokens@).take(i as int),
            i == 0 ==> report@.len() == 0,
        decreases decoded_balance.len() - i,
    {
        let part = &decoded_balance[i];
        let code = shown_name(tokens, &part.0.0);
        report.push(
            Line::out().text(code.as_str()).text(" | ").number(part.0.1).text(" : ").amount(
                to_amount(part.1),
            ),
        );
        assert(report@ =~= decoded_epoch_lines(decoded_balance@, tokens@).take(i + 1));
        i = i + 1;
    }
    if decoded_balance.len() == 0 {
        report.push(Line::out().text("No shielded balance found for given key"));
    }
    assert(report@ =~= decoded_epoch_lines(decoded_balance@, tokens@));
    report
}

/// The line of what a key holds is its amount and the key, above it stands the name of the
/// token, and where nobody holds a token that is said of it.
pub proof fn lemma_lines_of_holdings(key: Seq<char>, value: i64, code: Seq<char>)
    ensures
        holding_line(key, value) == printed(
            seq![
                PieceView::Text("  "@),
                PieceView::Amount(as_amount(value)),
                PieceView::Text(", owned by "@),
                PieceView::Text(key),
            ],
        ),
        token_header(code) == printed(
            seq![
                PieceView::Text("Shielded Token "@),
                PieceView::Text(code),
                PieceView::Text(":"@),
            ],
        ),
        nothing_held(code) == printed(
            seq![
                PieceView::Text("No shielded "@),
                PieceView::Text(code),
                PieceView::Text(" balance found for any wallet key"@),
            ],
        ),
        value != 0 ==> value_line(code, value) == printed(
            seq![
                PieceView::Text(code),
                PieceView::Text(": "@),
                PieceView::Amount(as_amount(value)),
            ],
        ),
        value_line(code, 0) == printed(
            seq![
                PieceView::Text("No shielded "@),
                PieceView::Text(code),
                PieceView::Text(" balance found for given key"@),
            ],
        ),
{
}

/// Every key with anything of an asset is shown with it, in order, and no other.
pub proof fn lemma_keys_with_anything_are_shown(
    first: Seq<KeyBalance>,
    second: Seq<KeyBalance>,
    balance: KeyBalance,
    asset: Seq<u8>,
)
    ensures
        nonzero_lines(first + second, asset) == nonzero_lines(first, asset) + nonzero_lines(
            second,
            asset,
        ),
        nonzero_lines(seq![balance], asset) == if component(balance.1@, asset) == 0 {
            Seq::empty()
        } else {
            seq![holding_line(balance.0@, component(balance.1@, asset))]
        },
    decreases second.len(),
{
    assert(seq![balance].drop_last() =~= Seq::<KeyBalance>::empty());
    assert(nonzero_lines(Seq::<KeyBalance>::empty(), asset) =~= seq![]);
    if second.len() == 0 {
        assert(first + second =~= first);
    } else {
        assert((first + second).drop_last() =~= first + second.drop_last());
        lemma_keys_with_anything_are_shown(first, second.drop_last(), balance, asset);
    }
    assert(nonzero_lines(first + second, asset) =~= nonzero_lines(first, asset) + nonzero_lines(
        second,
        asset,
    ));
}

/// Whether any key has anything of an asset.
pub open spec fn anything_held(balances: Seq<KeyBalance>, asset: Seq<u8>) -> bool {
    exists|i: int| 0 <= i < balances.len() && component((#[trigger] balances[i]).1@, asset) != 0
}

/// Lines are shown exactly where any key has anything.
proof fn lemma_shown_where_held(balances: Seq<KeyBalance>, asset: Seq<u8>)
    ensures
        nonzero_lines(balances, asset).len() > 0 <==> anything_held(balances, asset),
    decreases balances.len(),
{
    if balances.len() > 0 {
        let rest = balances.drop_last();
        lemma_shown_where_held(rest, asset);
        if anything_held(rest, asset) {
            let i = choose|i: int| 0 <= i < rest.len() && component(
                (#[trigger] rest[i]).1@,
                asset,
            ) != 0;
            assert(balances[i] == rest[i]);
        }
        if anything_held(balances, asset) {
            let i = choose|i: int| 0 <= i < balances.len() && component(
                (#[trigger] balances[i]).1@,
                asset,
            ) != 0;
            if i < rest.len() {
                assert(rest[i] == balances[i]);
            }
        } else {
            assert(component(balances[balances.len() - 1].1@, asset) == 0);
        }
        if component(balances.last().1@, asset) != 0 {
            assert(component(balances[balances.len() - 1].1@, asset) != 0);
        }
    }
}

/// The balances in a token stand under its name; that there are none is said exactly where no
/// key has anything of it.
pub proof fn lemma_report_of_a_token(
    code: Seq<char>,
    balances: Seq<KeyBalance>,
    asset: Seq<u8>,
)
    ensures
        anything_held(balances, asset) ==> token_lines(code, balances, asset) == seq![
            token_header(code),
        ] + nonzero_lines(balances, asset),
        !anything_held(balances, asset) ==> token_lines(code, balances, asset) == seq![
            token_header(code),
        ] + seq![nothing_held(code)],
{
    lemma_shown_where_held(balances, asset);
}

/// The groups of joined lists are reported list by list.
pub proof fn lemma_groups_lines_join(
    first: Seq<AssetGroup>,
    first_decoded: Seq<Option<(String, u64)>>,
    second: Seq<AssetGroup>,
    second_decoded: Seq<Option<(String, u64)>>,
    epoch: u64,
    tokens: Seq<(String, String)>,
)
    requires
        first.len() == first_decoded.len(),
        second.len() == second_decoded.len(),
    ensures
        groups_lines(first + second, first_decoded + second_decoded, epoch, tokens)
            == groups_lines(first, first_decoded, epoch, tokens) + groups_lines(
            second,
            second_decoded,
            epoch,
            tokens,
        ),
    decreases second.len(),
{
    let decoded = first_decoded + second_decoded;
    if second.len() == 0 {
        assert(first + second =~= first);
        assert(decoded =~= first_decoded);
    } else {
        let rest = second.drop_last();
        let rest_decoded = second_decoded.drop_last();
        assert((first + second).drop_last() =~= first + rest);
        lemma_groups_lines_join(first, first_decoded, rest, rest_decoded, epoch, tokens);
        lemma_groups_lines_agree(
            first + rest,
            decoded,
            first_decoded + rest_decoded,
            epoch,
            tokens,
        );
        lemma_groups_lines_agree(rest, second_decoded, rest_decoded, epoch, tokens);
        assert(decoded[(first + second).len() - 1] == second_decoded[second.len() - 1]);
    }
    assert(groups_lines(first + second, decoded, epoch, tokens) =~= groups_lines(
        first,
        first_decoded,
        epoch,
        tokens,
    ) + groups_lines(second, second_decoded, epoch, tokens));
}

/// A group whose asset stands for a token in the epoch is reported under the token's name with
/// one line for each of its holdings, in order, which has that holding's value and key. No
/// other group is reported.
pub proof fn lemma_report_of_one_group(
    group: AssetGroup,
    decoded: Option<(String, u64)>,
    epoch: u64,
    tokens: Seq<(String, String)>,
)
    ensures
        ({
            let lines = groups_lines(seq![group], seq![decoded], epoch, tokens);
            let current = decoded is Some && decoded->Some_0.1 == epoch;
            &&& !current ==> lines.len() == 0
            &&& current ==> {
                &&& lines.len() == 1 + group.holdings@.len()
                &&& lines[0] == printed(
                    seq![
                        PieceView::Text("Shielded Token "@),
                        PieceView::Text(shown(tokens, decoded->Some_0.0@)),
                        PieceView::Text(":"@),
                    ],
                )
                &&& forall|i: int|
                    0 <= i < group.holdings@.len() ==> #[trigger] lines[i + 1] == printed(
                        seq![
                            PieceView::Text("  "@),
                            PieceView::Amount(as_amount(group.holdings@[i].1)),
                            PieceView::Text(", owned by "@),
                            PieceView::Text(group.holdings@[i].0@),
                        ],
                    )
            }
        }),
{
    assert(seq![group].drop_last() =~= Seq::<AssetGroup>::empty());
    assert(groups_lines(Seq::<AssetGroup>::empty(), seq![decoded], epoch, tokens) =~= seq![]);
    let lines = groups_lines(seq![group], seq![decoded], epoch, tokens);
    assert(lines =~= group_lines(group, decoded, epoch, tokens));
    if decoded is Some && decoded->Some_0.1 == epoch {
        lemma_lines_of_holdings(Seq::empty(), 0, shown(tokens, decoded->Some_0.0@));
        assert forall|i: int| 0 <= i < group.holdings@.len() implies #[trigger] lines[i + 1]
            == printed(
            seq![
                PieceView::Text("  "@),
                PieceView::Amount(as_amount(group.holdings@[i].1)),
                PieceView::Text(", owned by "@),
                PieceView::Text(group.holdings@[i].0@),
            ],
        ) by {
            lemma_lines_of_holdings(group.holdings@[i].0@, group.holdings@[i].1, Seq::empty());
            assert(lines[i + 1] == holding_line(group.holdings@[i].0@, group.holdings@[i].1));
        }
    }
}

/// The tokens of joined lists of which nobody holds anything are reported list by list: one is
/// where no asset was decoded to it and the epoch.
pub proof fn lemma_unread_lines_join(
    decoded: Seq<Option<(String, u64)>>,
    epoch: u64,
    first: Seq<(String, String)>,
    second: Seq<(String, String)>,
    token: (String, String),
)
    ensures
        unread_lines(decoded, epoch, first + second) == unread_lines(decoded, epoch, first)
            + unread_lines(decoded, epoch, second),
        ({
            let found = exists|i: int|
                0 <= i < decoded.len() && (#[trigger] decoded[i]) is Some && decoded[i]->Some_0.0@
                    == token.0@ && decoded[i]->Some_0.1 == epoch;
            unread_lines(decoded, epoch, seq![token]) == if found {
                Seq::empty()
            } else {
                seq![token_header(token.1@)] + seq![nothing_held(token.1@)]
            }
        }),
    decreases second.len(),
{
    assert(seq![token].drop_last() =~= Seq::<(String, String)>::empty());
    assert(unread_lines(decoded, epoch, Seq::<(String, String)>::empty()) =~= seq![]);
    if exists|i: int|
        0 <= i < decoded.len() && (#[trigger] decoded[i]) is Some && decoded[i]->Some_0.0@
            == token.0@
            && decoded[i]->Some_0.1 == epoch {
        let i = choose|i: int|
            0 <= i < decoded.len() && (#[trigger] decoded[i]) is Some && decoded[i]->Some_0.0@
                == token.0@ && decoded[i]->Some_0.1 == epoch;
        assert(current_token(decoded[i], epoch) == Some(token.0@));
        assert(is_read(decoded, epoch, token.0@));
    } else if is_read(decoded, epoch, token.0@) {
        let i = choose|i: int|
            0 <= i < decoded.len() && current_token(#[trigger] decoded[i], epoch) == Some(
                token.0@,
            );
        assert(decoded[i] is Some);
    }
    assert(unread_lines(decoded, epoch, seq![token]) =~= if is_read(decoded, epoch, token.0@) {
        Seq::empty()
    } else {
        seq![token_header(token.1@)] + seq![nothing_held(token.1@)]
    });
    if second.len() == 0 {
        assert(first + second =~= first);
    } else {
        assert((first + second).drop_last() =~= first + second.drop_last());
        lemma_unread_lines_join(decoded, epoch, first, second.drop_last(), token);
    }
    assert(unread_lines(decoded, epoch, first + second) =~= unread_lines(decoded, epoch, first)
        + unread_lines(decoded, epoch, second));
}

/// What keys hold is listed key by key, and of one key part by part.
pub proof fn lemma_holdings_of_keys_join(
    first: Seq<KeyBalance>,
    second: Seq<KeyBalance>,
    balance: KeyBalance,
)
    ensures
        holdings_of_keys(first + second) == holdings_of_keys(first) + holdings_of_keys(second),
        holdings_of_keys(seq![balance]) == Seq::new(
            balance.1@.len(),
            |i: int| (balance.0, balance.1@[i].0, balance.1@[i].1),
        ),
    decreases second.len(),
{
    assert(seq![balance].drop_last() =~= Seq::<KeyBalance>::empty());
    assert(holdings_of_keys(Seq::<KeyBalance>::empty()) =~= seq![]);
    assert(holdings_of_keys(seq![balance]) =~= Seq::new(
        balance.1@.len(),
        |i: int| (balance.0, balance.1@[i].0, balance.1@[i].1),
    ));
    if second.len() == 0 {
        assert(first + second =~= first);
    } else {
        assert((first + second).drop_last() =~= first + second.drop_last());
        lemma_holdings_of_keys_join(first, second.drop_last(), balance);
    }
    assert(holdings_of_keys(first + second) =~= holdings_of_keys(first) + holdings_of_keys(
        second,
    ));
}

/// What is held of an asset is what the joined lists hold of it, and of one holding its key
/// and value where it is one of the asset.
pub proof fn lemma_held_join(
    first: Seq<Holding>,
    second: Seq<Holding>,
    holding: Holding,
    asset: Seq<u8>,
)
    ensures
        held_of(first + second, asset) == held_of(first, asset) + held_of(second, asset),
        held_of(seq![holding], asset) == if holding.1.0@ == asset {
            seq![(holding.0, holding.2)]
        } else {
            Seq::empty()
        },
    decreases second.len(),
{
    assert(seq![holding].drop_last() =~= Seq::<Holding>::empty());
    assert(held_of(Seq::<Holding>::empty(), asset) =~= seq![]);
    if second.len() == 0 {
        assert(first + second =~= first);
    } else {
        assert((first + second).drop_last() =~= first + second.drop_last());
        lemma_held_join(first, second.drop_last(), holding, asset);
    }
    assert(held_of(first + second, asset) =~= held_of(first, asset) + held_of(second, asset));
}

/// Dividing holdings by asset makes one group for each asset, with all that is held of it and
/// with something.
pub proof fn lemma_one_group_for_each_asset(
    holdings: Seq<Holding>,
    groups: Seq<AssetGroup>,
    i: int,
    j: int,
)
    requires
        is_division(holdings, groups),
        0 <= i < groups.len(),
        0 <= j < groups.len(),
    ensures
        groups[i].asset.0@ == groups[j].asset.0@ ==> i == j,
        groups[i].holdings@ == held_of(holdings, groups[i].asset.0@),
        groups[i].holdings@.len() > 0,
{
    if i < j {
        assert(groups[i].asset.0@ != groups[j].asset.0@);
    } else if j < i {
        assert(groups[j].asset.0@ != groups[i].asset.0@);
    }
}

/// A decoded balance is printed with one line for each of its parts, in order, each with the
/// name of its token and its amount; that there is none is said exactly where it has no parts.
pub proof fn lemma_lines_of_a_decoded_balance(
    balance: Seq<(String, i64)>,
    dated: Seq<((String, u64), i64)>,
    tokens: Seq<(String, String)>,
)
    ensures
        ({
            let none = printed(seq![PieceView::Text("No shielded balance found for given key"@)]);
            let lines = decoded_lines(balance, tokens);
            let dated_lines = decoded_epoch_lines(dated, tokens);
            &&& balance.len() == 0 ==> lines == seq![none]
            &&& balance.len() > 0 ==> lines.len() == balance.len()
            &&& forall|i: int|
                0 <= i < balance.len() ==> #[trigger] lines[i] == printed(
                    seq![
                        PieceView::Text(shown(tokens, balance[i].0@)),
                        PieceView::Text(" : "@),
                        PieceView::Amount(as_amount(balance[i].1)),
                    ],
                )
            &&& dated.len() == 0 ==> dated_lines == seq![none]
            &&& dated.len() > 0 ==> dated_lines.len() == dated.len()
            &&& forall|i: int|
                0 <= i < dated.len() ==> #[trigger] dated_lines[i] == printed(
                    seq![
                        PieceView::Text(shown(tokens, dated[i].0.0@)),
                        PieceView::Text(" | "@),
                        PieceView::Number(dated[i].0.1),
                        PieceView::Text(" : "@),
                        PieceView::Amount(as_amount(dated[i].1)),
                    ],
                )
        }),
{
    assert(out().text("No shielded balance found for given key"@) =~= printed(
        seq![PieceView::Text("No shielded balance found for given key"@)],
    ));
    assert forall|i: int| 0 <= i < balance.len() implies #[trigger] decoded_lines(
        balance,
        tokens,
    )[i] == printed(
        seq![
            PieceView::Text(shown(tokens, balance[i].0@)),
            PieceView::Text(" : "@),
            PieceView::Amount(as_amount(balance[i].1)),
        ],
    ) by {
        assert(decoded_lines(balance, tokens)[i] =~= printed(
            seq![
                PieceView::Text(shown(tokens, balance[i].0@)),
                PieceView::Text(" : "@),
                PieceView::Amount(as_amount(balance[i].1)),
            ],
        ));
    }
    assert forall|i: int| 0 <= i < dated.len() implies #[trigger] decoded_epoch_lines(
        dated,
        tokens,
    )[i] == printed(
        seq![
            PieceView::Text(shown(tokens, dated[i].0.0@)),
            PieceView::Text(" | "@),
            PieceView::Number(dated[i].0.1),
            PieceView::Text(" : "@),
            PieceView::Amount(as_amount(dated[i].1)),
        ],
    ) by {
        assert(decoded_epoch_lines(dated, tokens)[i] =~= printed(
            seq![
                PieceView::Text(shown(tokens, dated[i].0.0@)),
                PieceView::Text(" | "@),
                PieceView::Number(dated[i].0.1),
                PieceView::Text(" : "@),
                PieceView::Amount(as_amount(dated[i].1)),
            ],
        ));
    }
}

/// A viewing key that is given is asked for alone; for any other owner, and for none, the keys
/// of the wallet are. A token that is given is reported on alone. Epochs are told apart
/// exactly for one key and all tokens without conversions.
pub proof fn lemma_what_is_asked_for(
    token: Option<String>,
    owner: Option<BalanceOwner>,
    no_conversions: bool,
    wallet_keys: Seq<String>,
)
    ensures
        ({
            let one_key = owner is Some && owner->0 is FullViewingKey;
            let report = asked_report(token, owner, no_conversions);
            &&& one_key ==> asked_keys(owner, wallet_keys) == seq![owner->0->FullViewingKey_0]
            &&& !one_key ==> asked_keys(owner, wallet_keys) == wallet_keys
            &&& one_key && token is Some ==> report == (ShieldedReport::TokenOfKey {
                token: token->0,
            })
            &&& !one_key && token is Some ==> report == (ShieldedReport::TokenOfKeys {
                token: token->0,
            })
            &&& report is TokensOfKeys <==> !one_key && token is None
            &&& report is TokensOfKey <==> one_key && token is None && !no_conversions
            &&& report is EpochsOfKey <==> one_key && token is None && no_conversions
        }),
{
}

/// A group more adds its account to the report of all balances, behind those of the groups
/// before it, and takes its token from those of which nobody holds anything.
pub proof fn lemma_one_group_more(
    groups: Seq<AssetGroup>,
    decoded: Seq<Option<(String, u64)>>,
    group: AssetGroup,
    group_decoded: Option<(String, u64)>,
    epoch: u64,
    tokens: Seq<(String, String)>,
)
    requires
        groups.len() == decoded.len(),
    ensures
        all_tokens_lines(groups.push(group), decoded.push(group_decoded), epoch, tokens)
            == groups_lines(groups, decoded, epoch, tokens) + groups_lines(
            seq![group],
            seq![group_decoded],
            epoch,
            tokens,
        ) + unread_lines(decoded.push(group_decoded), epoch, tokens),
{
    lemma_groups_lines_join(
        groups,
        decoded,
        seq![group],
        seq![group_decoded],
        epoch,
        tokens,
    );
    assert(groups.push(group) =~= groups + seq![group]);
    assert(decoded.push(group_decoded) =~= decoded + seq![group_decoded]);
}

} // verus!
