//! Balances that everybody can see.

use vstd::prelude::*;

use crate::names::{shown, shown_name};
use crate::report::{out, printed, Line, LineView, PieceView, Report};

verus! {

/// The owner of a balance, each in its text form.
#[derive(Clone, Debug, PartialEq, Eq)]
pub enum BalanceOwner {
    FullViewingKey(String),
    Address(String),
    PaymentAddress(String),
}

/// The text form of an owner.
pub open spec fn owner_text(owner: BalanceOwner) -> Seq<char> {
    match owner {
        BalanceOwner::FullViewingKey(text) => text@,
        BalanceOwner::Address(text) => text@,
        BalanceOwner::PaymentAddress(text) => text@,
    }
}

impl BalanceOwner {
    /// The text form of the owner.
    pub fn text(&self) -> (text: &String)
        ensures
            text@ == owner_text(*self),
    {
        match self {
            BalanceOwner::FullViewingKey(text) => text,
            BalanceOwner::Address(text) => text,
            BalanceOwner::PaymentAddress(text) => text,
        }
    }
}

/// A query for balances of one sort.
#[derive(Clone, Copy, Debug, PartialEq, Eq, Structural)]
pub enum BalanceQuery {
    Pinned,
    Shielded,
    Transparent,
}

/// The queries that a query for the balances of an owner consists of: that for the owner's
/// sort of account, or all of them where no owner is given.
pub open spec fn balance_queries(owner: Option<BalanceOwner>) -> Seq<BalanceQuery> {
    match owner {
        Some(BalanceOwner::FullViewingKey(_)) => seq![BalanceQuery::Shielded],
        Some(BalanceOwner::Address(_)) => seq![BalanceQuery::Transparent],
        Some(BalanceOwner::PaymentAddress(_)) => seq![BalanceQuery::Pinned],
        None => seq![BalanceQuery::Pinned, BalanceQuery::Shielded, BalanceQuery::Transparent],
    }
}

/// Query token balances: the queries that this consists of, in order.
pub fn query_balance(owner: &Option<BalanceOwner>) -> (queries: Vec<BalanceQuery>)
    ensures
        queries@ == balance_queries(*owner),
{
    let queries: Vec<BalanceQuery> = match owner {
        Some(BalanceOwner::FullViewingKey(_)) => vec![BalanceQuery::Shielded],
        Some(BalanceOwner::Address(_)) => vec![BalanceQuery::Transparent],
        Some(BalanceOwner::PaymentAddress(_)) => vec![BalanceQuery::Pinned],
        None => vec![BalanceQuery::Pinned, BalanceQuery::Shielded, BalanceQuery::Transparent],
    };
    assert(queries@ =~= balance_queries(*owner));
    queries
}

/// Which keys of a token are asked for.
#[derive(Clone, Copy, Debug, PartialEq, Eq, Structural)]
pub enum TokenPrefix {
    /// All keys of the token.
    Token,
    /// The keys of the token's balances.
    Balance,
}

/// A query for balances of a token, of which those of the target are shown, or all where
/// there is no target.
#[derive(Debug, PartialEq, Eq)]
pub struct PrefixQuery {
    pub token: String,
    pub prefix: TokenPrefix,
    pub target: Option<String>,
}

/// What a query for transparent balances asks the ledger for.
#[derive(Debug, PartialEq, Eq)]
pub enum TransparentRequest {
    /// The balance of an owner in a token, or in a part of it.
    Balance { token: String, sub_prefix: Option<String>, owner: String },
    /// Balances of several tokens.
    Prefixes { queries: Vec<PrefixQuery> },
}

/// The address of an owner.
pub open spec fn owner_address(owner: BalanceOwner) -> Option<String> {
    match owner {
        BalanceOwner::Address(address) => Some(address),
        _ => None,
    }
}

/// One query for each of the tokens.
pub open spec fn prefix_queries(
    tokens: Seq<(String, String)>,
    prefix: TokenPrefix,
    target: Option<String>,
) -> Seq<PrefixQuery> {
    tokens.map_values(
        |token: (String, String)| PrefixQuery { token: token.0, prefix, target },
    )
}

/// A copy of an optional text.
fn copy_of(text: &Option<String>) -> (copy: Option<String>)
    ensures
        copy == *text,
{
    match text {
        Some(text) => Some(text.clone()),
        None => None,
    }
}

/// One query for each of the tokens.
fn queries_for(
    tokens: &Vec<(String, String)>,
    prefix: TokenPrefix,
    target: &Option<String>,
) -> (queries: Vec<PrefixQuery>)
    ensures
        queries@ == prefix_queries(tokens@, prefix, *target),
{
    let mut queries: Vec<PrefixQuery> = Vec::new();
    let ghost all = prefix_queries(tokens@, prefix, *target);
    let mut i: usize = 0;
    while i < tokens.len()
        invariant
            i <= tokens.len(),
            all == prefix_queries(tokens@, prefix, *target),
            queries@ == all.take(i as int),
        decreases tokens.len() - i,
    {
        queries.push(
            PrefixQuery { token: tokens[i].0.clone(), prefix, target: copy_of(target) },
        );
        assert(queries@ =~= all.take(i + 1));
        i = i + 1;
    }
    assert(queries@ =~= all);
    queries
}

/// The mathematical content of a [`TransparentRequest`].
pub enum TransparentRequestView {
    Balance { token: String, sub_prefix: Option<String>, owner: String },
    Prefixes { queries: Seq<PrefixQuery> },
}

impl View for TransparentRequest {
    type V = TransparentRequestView;

    open spec fn view(&self) -> TransparentRequestView {
        match *self {
            TransparentRequest::Balance { token, sub_prefix, owner } => {
                TransparentRequestView::Balance { token, sub_prefix, owner }
            },
            TransparentRequest::Prefixes { queries } => TransparentRequestView::Prefixes {
                queries: queries@,
            },
        }
    }
}

/// What a query for transparent balances asks the ledger for.
pub open spec fn transparent_request(
    token: Option<String>,
    owner: Option<BalanceOwner>,
    sub_prefix: Option<String>,
    tokens: Seq<(String, String)>,
) -> TransparentRequestView {
    match (token, owner) {
        (Some(token), Some(owner)) => TransparentRequestView::Balance {
            token,
            sub_prefix,
            owner: owner_address(owner)->0,
        },
        (None, Some(owner)) => TransparentRequestView::Prefixes {
            queries: prefix_queries(tokens, TokenPrefix::Token, owner_address(owner)),
        },
        (Some(token), None) => TransparentRequestView::Prefixes {
            queries: seq![PrefixQuery { token, prefix: TokenPrefix::Token, target: None }],
        },
        (None, None) => TransparentRequestView::Prefixes {
            queries: prefix_queries(tokens, TokenPrefix::Balance, None),
        },
    }
}

/// Query transparent balances: what to ask the ledger for. The balance of an owner in a
/// token is asked for by the owner's address, which only an address has.
pub fn query_transparent_balance(
    token: Option<String>,
    owner: &Option<BalanceOwner>,
    sub_prefix: Option<String>,
    tokens: &Vec<(String, String)>,
) -> (request: TransparentRequest)
    requires
        token is Some && owner is Some ==> owner_address(owner->0) is Some,
    ensures
        request@ == transparent_request(token, *owner, sub_prefix, tokens@),
{
    let address = match owner {
        Some(BalanceOwner::Address(address)) => Some(address.clone()),
        _ => None,
    };
    match token {
        Some(token) => match address {
            Some(owner) => TransparentRequest::Balance { token, sub_prefix, owner },
            None => {
                let queries: Vec<PrefixQuery> = vec![
                    PrefixQuery { token, prefix: TokenPrefix::Token, target: None },
                ];
                assert(queries@ =~= seq![
                    PrefixQuery { token, prefix: TokenPrefix::Token, target: None },
                ]);
                TransparentRequest::Prefixes { queries }
            },
        },
        None => if owner.is_some() {
            TransparentRequest::Prefixes {
                queries: queries_for(tokens, TokenPrefix::Token, &address),
            }
        } else {
            TransparentRequest::Prefixes {
                queries: queries_for(tokens, TokenPrefix::Balance, &None),
            }
        },
    }
}

/// The line of the balance of an owner in a token, or in a part of it.
pub open spec fn answer_line(
    token: Seq<char>,
    owner: BalanceOwner,
    sub_prefix: Option<String>,
    tokens: Seq<(String, String)>,
    balance: Option<u64>,
) -> LineView {
    match (balance, sub_prefix) {
        (Some(balance), Some(sub_prefix)) => out().text(shown(tokens, token)).text(" with "@).text(
            sub_prefix@,
        ).text(": "@).amount(balance),
        (Some(balance), None) => out().text(shown(tokens, token)).text(": "@).amount(balance),
        (None, _) => out().text("No "@).text(shown(tokens, token)).text(
            " balance found for "@,
        ).text(owner_text(owner)),
    }
}

/// The report of the balance of an owner in a token, or in a part of it.
pub fn transparent_balance_report(
    token: &String,
    owner: &BalanceOwner,
    sub_prefix: &Option<String>,
    tokens: &Vec<(String, String)>,
    balance: Option<u64>,
) -> (report: Report)
    ensures
        report@ == seq![answer_line(token@, *owner, *sub_prefix, tokens@, balance)],
{
    let code = shown_name(tokens, token);
    match balance {
        Some(balance) => match sub_prefix {
            Some(sub_prefix) => Report::of(
                Line::out().text(code.as_str()).text(" with ").text(sub_prefix.as_str()).text(
                    ": ",
                ).amount(balance),
            ),
            None => Report::of(Line::out().text(code.as_str()).text(": ").amount(balance)),
        },
        None => Report::of(
            Line::out().text("No ").text(code.as_str()).text(" balance found for ").text(
                owner.text().as_str(),
            ),
        ),
    }
}

/// Try to find an alias for a given address. If there is none, the address itself.
pub fn lookup_alias(aliases: &Vec<(String, String)>, addr: &String) -> (name: String)
    ensures
        name@ == shown(aliases@, addr@),
{
    shown_name(aliases, addr)
}

/// What a storage key says of a balance.
#[derive(Debug, PartialEq, Eq)]
pub enum BalanceKey {
    /// It is that of an owner in a part of a token.
    Multitoken { sub_prefix: String, owner: String },
    /// It is that of an owner in a token.
    Token { owner: String },
    /// The key is not that of a balance.
    Other,
}

/// A stored balance.
#[derive(Debug, PartialEq, Eq)]
pub struct BalanceEntry {
    pub key: BalanceKey,
    pub balance: u64,
}

/// The line of a balance with its owner.
pub open spec fn balance_line(
    entry: BalanceEntry,
    aliases: Seq<(String, String)>,
) -> Option<(Seq<char>, LineView)> {
    match entry.key {
        BalanceKey::Multitoken { sub_prefix, owner } => Some(
            (
                owner@,
                out().text("with "@).text(sub_prefix@).text(": "@).amount(entry.balance).text(
                    ", owned by "@,
                ).text(shown(aliases, owner@)),
            ),
        ),
        BalanceKey::Token { owner } => Some(
            (
                owner@,
                out().text(": "@).amount(entry.balance).text(", owned by "@).text(
                    shown(aliases, owner@),
                ),
            ),
        ),
        BalanceKey::Other => None,
    }
}

/// Whether balances of an owner are shown.
pub open spec fn is_target(target: Option<&String>, owner: Seq<char>) -> bool {
    match target {
        Some(target) => target@ == owner,
        None => true,
    }
}

/// The lines of the balances that are shown.
pub open spec fn balance_lines(
    balances: Seq<BalanceEntry>,
    aliases: Seq<(String, String)>,
    target: Option<&String>,
) -> Seq<LineView>
    decreases balances.len(),
{
    if balances.len() == 0 {
        seq![]
    } else {
        let lines = balance_lines(balances.drop_last(), aliases, target);
        match balance_line(balances.last(), aliases) {
            Some((owner, line)) => if is_target(target, owner) {
                lines.push(line)
            } else {
                lines
            },
            None => lines,
        }
    }
}

/// The report of balances of a token.
pub open spec fn balances_report(
    balances: Seq<BalanceEntry>,
    aliases: Seq<(String, String)>,
    tokens: Seq<(String, String)>,
    token: Seq<char>,
    target: Option<&String>,
) -> Seq<LineView> {
    let lines = balance_lines(balances, aliases, target);
    seq![out().text("Token "@).text(shown(tokens, token))] + if lines.len() > 0 {
        lines
    } else {
        match target {
            Some(target) => seq![
                out().text("No balances owned by "@).text(shown(aliases, target@)),
            ],
            None => seq![out().text("No balances for token "@).text(shown(tokens, token))],
        }
    }
}

/// Whether balances of an owner are shown.
fn targets(target: Option<&String>, owner: &String) -> (yes: bool)
    ensures
        yes == is_target(target, owner@),
{
    match target {
        Some(target) => *target == *owner,
        None => true,
    }
}

/// Print balances of a token: the report of those of the target, or of all of them where
/// there is no target.
pub fn print_balances(
    aliases: &Vec<(String, String)>,
    balances: &Vec<BalanceEntry>,
    tokens: &Vec<(String, String)>,
    token: &String,
    target: Option<&String>,
) -> (report: Report)
    ensures
        report@ == balances_report(balances@, aliases@, tokens@, token@, target),
{
    let code = shown_name(tokens, token);
    let mut report = Report::of(Line::out().text("Token ").text(code.as_str()));
    let ghost header = report@;
    let mut print_num: usize = 0;
    let mut i: usize = 0;
    assert(report@ =~= header + balance_lines(balances@.take(0), aliases@, target));
    while i < balances.len()
        invariant
            i <= balances.len(),
            print_num <= i,
            header == seq![out().text("Token "@).text(shown(tokens@, token@))],
            report@ == header + balance_lines(balances@.take(i as int), aliases@, target),
            print_num == balance_lines(balances@.take(i as int), aliases@, target).len(),
        decreases balances.len() - i,
    {
        let entry = &balances[i];
        let ghost before = balance_lines(balances@.take(i as int), aliases@, target);
        assert(balances@.take(i + 1).drop_last() =~= balances@.take(i as int));
        match &entry.key {
            BalanceKey::Multitoken { sub_prefix, owner } => {
                if targets(target, owner) {
                    let alias = lookup_alias(aliases, owner);
                    report.push(
                        Line::out().text("with ").text(sub_prefix.as_str()).text(": ").amount(
                            entry.balance,
                        ).text(", owned by ").text(alias.as_str()),
                    );
                    print_num = print_num + 1;
                }
            },
            BalanceKey::Token { owner } => {
                if targets(target, owner) {
                    let alias = lookup_alias(aliases, owner);
                    report.push(
                        Line::out().text(": ").amount(entry.balance).text(", owned by ").text(
                            alias.as_str(),
                        ),
                    );
                    print_num = print_num + 1;
                }
            },
            BalanceKey::Other => {},
        }
        assert(report@ =~= header + balance_lines(balances@.take(i + 1), aliases@, target));
        i = i + 1;
    }
    assert(balances@.take(i as int) =~= balances@);
    if print_num == 0 {
        match target {
            Some(target) => {
                let alias = lookup_alias(aliases, target);
                report.push(Line::out().text("No balances owned by ").text(alias.as_str()));
            },
            None => {
                report.push(Line::out().text("No balances for token ").text(code.as_str()));
            },
        }
    }
    assert(report@ =~= balances_report(balances@, aliases@, tokens@, token@, target));
    report
}

/// The balances of joined lists are shown list by list.
pub proof fn lemma_balance_lines_join(
    first: Seq<BalanceEntry>,
    second: Seq<BalanceEntry>,
    aliases: Seq<(String, String)>,
    target: Option<&String>,
)
    ensures
        balance_lines(first + second, aliases, target) == balance_lines(first, aliases, target)
            + balance_lines(second, aliases, target),
    decreases second.len(),
{
    if second.len() == 0 {
        assert(first + second =~= first);
    } else {
        assert((first + second).drop_last() =~= first + second.drop_last());
        lemma_balance_lines_join(first, second.drop_last(), aliases, target);
    }
    assert(balance_lines(first + second, aliases, target) =~= balance_lines(
        first,
        aliases,
        target,
    ) + balance_lines(second, aliases, target));
}

/// The owner that a stored balance has, if it is one.
pub open spec fn entry_owner(entry: BalanceEntry) -> Option<Seq<char>> {
    if entry.key is Multitoken {
        Some(entry.key->Multitoken_owner@)
    } else if entry.key is Token {
        Some(entry.key->Token_owner@)
    } else {
        None
    }
}

/// A stored balance is shown exactly where it has an owner, and that is the target where there
/// is one: with its amount and its owner, and with the part of the token where it is in one.
pub proof fn lemma_line_of_one_balance(
    entry: BalanceEntry,
    aliases: Seq<(String, String)>,
    target: Option<&String>,
)
    ensures
        ({
            let owner = entry_owner(entry);
            let lines = balance_lines(seq![entry], aliases, target);
            let asked = owner is Some && (target is None || target->0@ == owner->0);
            &&& !asked ==> lines.len() == 0
            &&& asked && entry.key is Multitoken ==> lines == seq![
                printed(
                    seq![
                        PieceView::Text("with "@),
                        PieceView::Text(entry.key->sub_prefix@),
                        PieceView::Text(": "@),
                        PieceView::Amount(entry.balance),
                        PieceView::Text(", owned by "@),
                        PieceView::Text(shown(aliases, owner->0)),
                    ],
                ),
            ]
            &&& asked && entry.key is Token ==> lines == seq![
                printed(
                    seq![
                        PieceView::Text(": "@),
                        PieceView::Amount(entry.balance),
                        PieceView::Text(", owned by "@),
                        PieceView::Text(shown(aliases, owner->0)),
                    ],
                ),
            ]
        }),
{
    assert(seq![entry].drop_last() =~= Seq::<BalanceEntry>::empty());
    assert(balance_lines(Seq::<BalanceEntry>::empty(), aliases, target) =~= seq![]);
    match entry.key {
        BalanceKey::Multitoken { sub_prefix, owner } => {
            let shown_line = balance_line(entry, aliases)->0;
            assert(shown_line.1 =~= printed(
                seq![
                    PieceView::Text("with "@),
                    PieceView::Text(sub_prefix@),
                    PieceView::Text(": "@),
                    PieceView::Amount(entry.balance),
                    PieceView::Text(", owned by "@),
                    PieceView::Text(shown(aliases, owner@)),
                ],
            ));
        },
        BalanceKey::Token { owner } => {
            let shown_line = balance_line(entry, aliases)->0;
            assert(shown_line.1 =~= printed(
                seq![
                    PieceView::Text(": "@),
                    PieceView::Amount(entry.balance),
                    PieceView::Text(", owned by "@),
                    PieceView::Text(shown(aliases, owner@)),
                ],
            ));
        },
        BalanceKey::Other => {},
    }
}

/// Whether any of the stored balances is owned by the target, or by anybody where there is
/// no target.
pub open spec fn any_owned(balances: Seq<BalanceEntry>, target: Option<&String>) -> bool {
    exists|i: int|
        0 <= i < balances.len() && entry_owner(#[trigger] balances[i]) is Some && (target is None
            || target->0@ == entry_owner(balances[i])->0)
}

/// Balances are shown exactly where any is owned by whom is asked for.
proof fn lemma_shown_where_owned(
    balances: Seq<BalanceEntry>,
    aliases: Seq<(String, String)>,
    target: Option<&String>,
)
    ensures
        balance_lines(balances, aliases, target).len() > 0 <==> any_owned(balances, target),
    decreases balances.len(),
{
    if balances.len() > 0 {
        let rest = balances.drop_last();
        let last = balances[balances.len() - 1];
        lemma_shown_where_owned(rest, aliases, target);
        lemma_line_of_one_balance(last, aliases, target);
        lemma_balance_lines_join(rest, seq![last], aliases, target);
        assert(rest + seq![last] =~= balances);
        if any_owned(rest, target) {
            let i = choose|i: int|
                0 <= i < rest.len() && entry_owner(#[trigger] rest[i]) is Some && (target is None
                    || target->0@ == entry_owner(rest[i])->0);
            assert(balances[i] == rest[i]);
        }
        if any_owned(balances, target) {
            let i = choose|i: int|
                0 <= i < balances.len() && entry_owner(#[trigger] balances[i]) is Some && (
                target is None || target->0@ == entry_owner(balances[i])->0);
            if i < rest.len() {
                assert(rest[i] == balances[i]);
            }
        }
    }
}

/// The report of balances names the token, and has the line of every balance that is asked
/// for. It says that there are none exactly where none of the balances is owned by the
/// target, or by anybody where there is no target.
pub proof fn lemma_report_of_balances(
    balances: Seq<BalanceEntry>,
    aliases: Seq<(String, String)>,
    tokens: Seq<(String, String)>,
    token: Seq<char>,
    target: Option<&String>,
)
    ensures
        ({
            let header = printed(
                seq![PieceView::Text("Token "@), PieceView::Text(shown(tokens, token))],
            );
            let none = match target {
                Some(target) => seq![
                    PieceView::Text("No balances owned by "@),
                    PieceView::Text(shown(aliases, target@)),
                ],
                None => seq![
                    PieceView::Text("No balances for token "@),
                    PieceView::Text(shown(tokens, token)),
                ],
            };
            let report = balances_report(balances, aliases, tokens, token, target);
            &&& any_owned(balances, target) ==> report == seq![header] + balance_lines(
                balances,
                aliases,
                target,
            )
            &&& !any_owned(balances, target) ==> report == seq![header] + seq![printed(none)]
        }),
{
    lemma_shown_where_owned(balances, aliases, target);
    assert(out().text("Token "@).text(shown(tokens, token)) =~= printed(
        seq![PieceView::Text("Token "@), PieceView::Text(shown(tokens, token))],
    ));
    match target {
        Some(target) => {
            assert(out().text("No balances owned by "@).text(shown(aliases, target@)) =~= printed(
                seq![
                    PieceView::Text("No balances owned by "@),
                    PieceView::Text(shown(aliases, target@)),
                ],
            ));
        },
        None => {
            assert(out().text("No balances for token "@).text(shown(tokens, token)) =~= printed(
                seq![
                    PieceView::Text("No balances for token "@),
                    PieceView::Text(shown(tokens, token)),
                ],
            ));
        },
    }
}

/// Each sort of balance is asked for exactly where the owner has that sort of account or no
/// owner is given, once and in a fixed order.
pub proof fn lemma_balances_asked_for(owner: Option<BalanceOwner>)
    ensures
        ({
            let queries = balance_queries(owner);
            &&& (exists|i: int| 0 <= i < queries.len() && #[trigger] queries[i] is Pinned) <==> (
            owner is None || owner->0 is PaymentAddress)
            &&& (exists|i: int| 0 <= i < queries.len() && #[trigger] queries[i] is Shielded) <==> (
            owner is None || owner->0 is FullViewingKey)
            &&& (exists|i: int| 0 <= i < queries.len() && #[trigger] queries[i] is Transparent)
                <==> (owner is None || owner->0 is Address)
            &&& forall|i: int, j: int|
                0 <= i < j < queries.len() ==> {
                    ||| #[trigger] queries[i] is Pinned && !(#[trigger] queries[j] is Pinned)
                    ||| queries[i] is Shielded && queries[j] is Transparent
                }
        }),
{
    let queries = balance_queries(owner);
    if owner is None {
        assert(queries[0] is Pinned);
        assert(queries[1] is Shielded);
        assert(queries[2] is Transparent);
    } else {
        assert(queries.len() == 1);
        assert(queries[0] is Pinned || queries[0] is Shielded || queries[0] is Transparent);
    }
}

/// Every token is asked for, in order, each with the same prefix and target.
pub proof fn lemma_every_token_is_asked_for(
    tokens: Seq<(String, String)>,
    prefix: TokenPrefix,
    target: Option<String>,
    i: int,
)
    requires
        0 <= i < tokens.len(),
    ensures
        prefix_queries(tokens, prefix, target).len() == tokens.len(),
        prefix_queries(tokens, prefix, target)[i].token == tokens[i].0,
        prefix_queries(tokens, prefix, target)[i].prefix == prefix,
        prefix_queries(tokens, prefix, target)[i].target == target,
{
}

/// Only an owner that is an address has one, and every owner is shown as it was given.
pub proof fn lemma_owners(text: String)
    ensures
        owner_address(BalanceOwner::Address(text)) == Some(text),
        owner_address(BalanceOwner::FullViewingKey(text)) is None,
        owner_address(BalanceOwner::PaymentAddress(text)) is None,
        owner_text(BalanceOwner::Address(text)) == text@,
        owner_text(BalanceOwner::FullViewingKey(text)) == text@,
        owner_text(BalanceOwner::PaymentAddress(text)) == text@,
{
}

/// A balance that is there is shown as it is, though it be zero, with the part of the token
/// where one is asked for; that there is none is said of its token and owner.
pub proof fn lemma_line_of_an_answer(
    token: Seq<char>,
    owner: BalanceOwner,
    sub_prefix: String,
    tokens: Seq<(String, String)>,
    balance: u64,
)
    ensures
        answer_line(token, owner, None, tokens, Some(balance)) == printed(
            seq![
                PieceView::Text(shown(tokens, token)),
                PieceView::Text(": "@),
                PieceView::Amount(balance),
            ],
        ),
        answer_line(token, owner, Some(sub_prefix), tokens, Some(balance)) == printed(
            seq![
                PieceView::Text(shown(tokens, token)),
                PieceView::Text(" with "@),
                PieceView::Text(sub_prefix@),
                PieceView::Text(": "@),
                PieceView::Amount(balance),
            ],
        ),
        answer_line(token, owner, None, tokens, None) == printed(
            seq![
                PieceView::Text("No "@),
                PieceView::Text(shown(tokens, token)),
                PieceView::Text(" balance found for "@),
                PieceView::Text(owner_text(owner)),
            ],
        ),
        answer_line(token, owner, Some(sub_prefix), tokens, None) == answer_line(
            token,
            owner,
            None,
            tokens,
            None,
        ),
{
}

/// One balance is asked for exactly where a token and an owner are given: in that token, and
/// in the part of it where one is given, by the owner's address. Otherwise balances are asked
/// for token by token, of the token that is given or of all, and shown for the owner alone
/// where it has an address.
pub proof fn lemma_what_the_ledger_is_asked_for(
    token: Option<String>,
    owner: Option<BalanceOwner>,
    sub_prefix: Option<String>,
    tokens: Seq<(String, String)>,
)
    ensures
        ({
            let request = transparent_request(token, owner, sub_prefix, tokens);
            &&& token is Some && owner is Some <==> request is Balance
            &&& request matches TransparentRequestView::Balance {
                token: t,
                sub_prefix: p,
                owner: o,
            } ==> {
                &&& t == token->0
                &&& p == sub_prefix
                &&& owner->0 matches BalanceOwner::Address(address) ==> o == address
            }
            &&& request matches TransparentRequestView::Prefixes { queries } ==> {
                &&& token is Some ==> queries.len() == 1 && queries[0].token == token->0
                &&& token is None ==> queries.len() == tokens.len()
                &&& token is None ==> forall|i: int|
                    0 <= i < tokens.len() ==> (#[trigger] queries[i]).token == tokens[i].0
                &&& forall|i: int|
                    0 <= i < queries.len() ==> {
                        &&& (#[trigger] queries[i]).prefix is Balance <==> token is None
                            && owner is None
                        &&& queries[i].target is Some <==> owner is Some && owner->0 is Address
                        &&& queries[i].target is Some ==> queries[i].target->0
                            == owner->0->Address_0
                    }
            }
        }),
{
}

/// What a request asks for is in its content.
pub proof fn lemma_content_of_transparent_requests(request: TransparentRequest)
    ensures
        match (request, request@) {
            (
                TransparentRequest::Balance { token, sub_prefix, owner },
                TransparentRequestView::Balance { token: t, sub_prefix: s, owner: o },
            ) => token == t && sub_prefix == s && owner == o,
            (
                TransparentRequest::Prefixes { queries },
                TransparentRequestView::Prefixes { queries: q },
            ) => queries@ == q,
            _ => false,
        },
{
}

} // verus!
