//! Balances that are pinned to payment addresses.

use vstd::prelude::*;

use crate::assets::{as_amount, component, to_amount, value_by_address, AssetType};
use crate::balances::BalanceOwner;
use crate::names::{shown, shown_name};
use crate::report::{complained, error, out, printed, Line, LineView, PieceView, Report};

verus! {

/// A payment address of the wallet.
#[derive(Debug, PartialEq, Eq)]
pub struct PaymentAddress {
    pub address: String,
    /// Whether a transaction can be pinned to it.
    pub pinned: bool,
}

/// The pinned ones of payment addresses.
pub open spec fn pinned_addresses(addresses: Seq<PaymentAddress>) -> Seq<String>
    decreases addresses.len(),
{
    if addresses.len() == 0 {
        seq![]
    } else {
        let pinned = pinned_addresses(addresses.drop_last());
        if addresses.last().pinned {
            pinned.push(addresses.last().address)
        } else {
            pinned
        }
    }
}

/// The payment addresses whose balances are asked for.
pub open spec fn asked_addresses(
    owner: Option<BalanceOwner>,
    wallet: Seq<PaymentAddress>,
) -> Seq<String> {
    match owner {
        Some(BalanceOwner::PaymentAddress(address)) => seq![address],
        _ => pinned_addresses(wallet),
    }
}

/// The payment addresses whose balances are asked for: the owner where it is one, and
/// otherwise the pinned ones of the wallet.
pub fn pinned_owners(owner: &Option<BalanceOwner>, wallet: &Vec<PaymentAddress>) -> (owners: Vec<
    String,
>)
    ensures
        owners@ == asked_addresses(*owner, wallet@),
{
    if let Some(BalanceOwner::PaymentAddress(address)) = owner {
        let owners: Vec<String> = vec![address.clone()];
        assert(owners@ =~= seq![*address]);
        return owners;
    }
    let mut owners: Vec<String> = Vec::new();
    let mut i: usize = 0;
    while i < wallet.len()
        invariant
            i <= wallet.len(),
            owners@ == pinned_addresses(wallet@.take(i as int)),
        decreases wallet.len() - i,
    {
        assert(wallet@.take(i + 1).drop_last() =~= wallet@.take(i as int));
        if wallet[i].pinned {
            owners.push(wallet[i].address.clone());
        }
        i = i + 1;
    }
    assert(wallet@.take(i as int) =~= wallet@);
    owners
}

/// What comes of computing a pinned balance with a viewing key.
#[derive(Debug, PartialEq, Eq)]
pub enum PinnedBalance {
    /// The key does not belong to the payment address.
    InvalidViewingKey,
    /// No transaction is pinned to the payment address.
    NoTransactionPinned,
    /// What was received, and when.
    Received { balance: Vec<(AssetType, i64)>, epoch: u64 },
}

/// What is known of a pinned balance in the end.
#[derive(Debug, PartialEq, Eq)]
pub enum PinnedResult {
    /// What was entered is not a viewing key.
    NotAKey,
    /// The entered key does not belong to the payment address.
    InvalidViewingKey,
    /// No transaction is pinned to the payment address.
    NoTransactionPinned,
    /// What was received of the token that is asked for.
    OfToken { value: i64, epoch: u64 },
    /// What was received, by token.
    OfTokens { received: Vec<(String, i64)>, epoch: u64 },
}

/// How far the balance of a payment address is known, and what to do next.
#[derive(Debug, PartialEq, Eq)]
pub enum PinnedState {
    /// Compute the balance with a key of the wallet.
    TryKey { key: usize },
    /// Ask the user for a viewing key.
    AskKey,
    /// Compute the balance with the key that the user entered.
    TryEnteredKey,
    /// Find the asset of the token that is asked for.
    FindAsset { balance: Vec<(AssetType, i64)>, epoch: u64 },
    /// Find the tokens of the balance's assets.
    Decode { balance: Vec<(AssetType, i64)>, epoch: u64 },
    /// Show the result.
    Show { result: PinnedResult },
}

/// What comes of what a [`PinnedState`] asks for.
#[derive(Debug, PartialEq, Eq)]
pub enum PinnedReply {
    Balance(PinnedBalance),
    /// Whether what the user entered is a viewing key.
    Entered(bool),
    Asset(AssetType),
    Decoded(Vec<(String, i64)>),
}

/// Whether a reply is one to what the state asks for.
pub open spec fn fits(state: PinnedState, reply: PinnedReply) -> bool {
    match state {
        PinnedState::TryKey { .. } => reply is Balance,
        PinnedState::AskKey => reply is Entered,
        PinnedState::TryEnteredKey => reply is Balance,
        PinnedState::FindAsset { .. } => reply is Asset,
        PinnedState::Decode { .. } => reply is Decoded,
        PinnedState::Show { .. } => false,
    }
}

/// The key of the wallet to try, or, where all `keys` of them were tried, the user to ask.
pub open spec fn key_state(key: int, keys: usize) -> PinnedState {
    if key < keys {
        PinnedState::TryKey { key: key as usize }
    } else {
        PinnedState::AskKey
    }
}

/// The state once a balance was computed with the last key there is to try.
pub open spec fn settled(balance: PinnedBalance, token_given: bool) -> PinnedState {
    match balance {
        PinnedBalance::InvalidViewingKey => PinnedState::Show {
            result: PinnedResult::InvalidViewingKey,
        },
        PinnedBalance::NoTransactionPinned => PinnedState::Show {
            result: PinnedResult::NoTransactionPinned,
        },
        PinnedBalance::Received { balance, epoch } => if token_given {
            PinnedState::FindAsset { balance, epoch }
        } else {
            PinnedState::Decode { balance, epoch }
        },
    }
}

/// The state behind a reply. The wallet's keys are tried in turn until one belongs to the
/// payment address; where none does, the user is asked. Without a key the search ends.
pub open spec fn state_after(
    keys: usize,
    token_given: bool,
    state: PinnedState,
    reply: PinnedReply,
) -> PinnedState {
    match (state, reply) {
        (
            PinnedState::TryKey { key },
            PinnedReply::Balance(PinnedBalance::InvalidViewingKey),
        ) => key_state(key + 1, keys),
        (PinnedState::TryKey { .. }, PinnedReply::Balance(balance)) => settled(
            balance,
            token_given,
        ),
        (PinnedState::AskKey, PinnedReply::Entered(true)) => PinnedState::TryEnteredKey,
        (PinnedState::TryEnteredKey, PinnedReply::Balance(balance)) => settled(
            balance,
            token_given,
        ),
        (
            PinnedState::FindAsset { balance, epoch },
            PinnedReply::Asset(asset),
        ) => PinnedState::Show {
            result: PinnedResult::OfToken { value: component(balance@, asset.0@), epoch },
        },
        (PinnedState::Decode { epoch, .. }, PinnedReply::Decoded(received)) => {
            PinnedState::Show { result: PinnedResult::OfTokens { received, epoch } }
        },
        _ => PinnedState::Show { result: PinnedResult::NotAKey },
    }
}

/// The state in which the search for the balance of a payment address begins.
pub fn first_state(keys: usize) -> (state: PinnedState)
    ensures
        state == key_state(0, keys),
{
    if keys > 0 {
        PinnedState::TryKey { key: 0 }
    } else {
        PinnedState::AskKey
    }
}

/// The state once a balance was computed with the last key there is to try.
fn settle(balance: PinnedBalance, token_given: bool) -> (state: PinnedState)
    ensures
        state == settled(balance, token_given),
{
    match balance {
        PinnedBalance::InvalidViewingKey => PinnedState::Show {
            result: PinnedResult::InvalidViewingKey,
        },
        PinnedBalance::NoTransactionPinned => PinnedState::Show {
            result: PinnedResult::NoTransactionPinned,
        },
        PinnedBalance::Received { balance, epoch } => if token_given {
            PinnedState::FindAsset { balance, epoch }
        } else {
            PinnedState::Decode { balance, epoch }
        },
    }
}

/// The state behind a reply.
pub fn next_pinned_state(
    keys: usize,
    token_given: bool,
    state: PinnedState,
    reply: PinnedReply,
) -> (next: PinnedState)
    requires
        fits(state, reply),
        state matches PinnedState::TryKey { key } ==> key < keys,
    ensures
        next == state_after(keys, token_given, state, reply),
        next matches PinnedState::TryKey { key } ==> key < keys,
{
    match (state, reply) {
        (
            PinnedState::TryKey { key },
            PinnedReply::Balance(PinnedBalance::InvalidViewingKey),
        ) => if key + 1 < keys {
            PinnedState::TryKey { key: key + 1 }
        } else {
            PinnedState::AskKey
        },
        (PinnedState::TryKey { .. }, PinnedReply::Balance(balance)) => settle(
            balance,
            token_given,
        ),
        (PinnedState::AskKey, PinnedReply::Entered(true)) => PinnedState::TryEnteredKey,
        (PinnedState::TryEnteredKey, PinnedReply::Balance(balance)) => settle(
            balance,
            token_given,
        ),
        (PinnedState::FindAsset { balance, epoch }, PinnedReply::Asset(asset)) => {
            let (_, value) = value_by_address(&balance, asset);
            PinnedState::Show { result: PinnedResult::OfToken { value, epoch } }
        },
        (PinnedState::Decode { balance: _, epoch }, PinnedReply::Decoded(received)) => {
            PinnedState::Show { result: PinnedResult::OfTokens { received, epoch } }
        },
        _ => PinnedState::Show { result: PinnedResult::NotAKey },
    }
}

/// How many replies a search in a state still waits for at most.
pub open spec fn waits_for(keys: usize, state: PinnedState) -> int {
    match state {
        PinnedState::TryKey { key } => keys - key + 3,
        PinnedState::AskKey => 3,
        PinnedState::TryEnteredKey => 2,
        PinnedState::FindAsset { .. } => 1,
        PinnedState::Decode { .. } => 1,
        PinnedState::Show { .. } => 0,
    }
}

/// Every search ends: each reply brings it closer to its result.
pub proof fn lemma_search_ends(
    keys: usize,
    token_given: bool,
    state: PinnedState,
    reply: PinnedReply,
)
    requires
        fits(state, reply),
        state matches PinnedState::TryKey { key } ==> key < keys,
    ensures
        0 <= waits_for(keys, state_after(keys, token_given, state, reply)) < waits_for(
            keys,
            state,
        ),
{
}

/// The state behind several replies, from the first state on.
pub open spec fn reached(
    keys: usize,
    token_given: bool,
    replies: Seq<PinnedReply>,
) -> PinnedState
    decreases replies.len(),
{
    if replies.len() == 0 {
        key_state(0, keys)
    } else {
        state_after(
            keys,
            token_given,
            reached(keys, token_given, replies.drop_last()),
            replies.last(),
        )
    }
}

/// The keys of the wallet are tried one after the other, and the user is asked for a key
/// only when every one of them was tried in vain.
pub proof fn lemma_user_is_asked_last(
    keys: usize,
    token_given: bool,
    replies: Seq<PinnedReply>,
)
    requires
        reached(keys, token_given, replies) is TryKey || reached(
            keys,
            token_given,
            replies,
        ) is AskKey,
    ensures
        reached(keys, token_given, replies) == key_state(replies.len() as int, keys),
        replies.len() <= keys,
        forall|i: int|
            0 <= i < replies.len() ==> #[trigger] replies[i] == PinnedReply::Balance(
                PinnedBalance::InvalidViewingKey,
            ),
    decreases replies.len(),
{
    if replies.len() > 0 {
        lemma_user_is_asked_last(keys, token_given, replies.drop_last());
        assert forall|i: int| 0 <= i < replies.len() implies #[trigger] replies[i]
            == PinnedReply::Balance(PinnedBalance::InvalidViewingKey) by {
            if i < replies.len() - 1 {
                assert(replies.drop_last()[i] == replies[i]);
            }
        }
    }
}

/// The line that asks the user for a viewing key; the reply is entered behind it.
pub fn key_prompt(owner: &String) -> (line: Line)
    ensures
        line@ == out().text("Enter the viewing key for "@).text(owner@).text(": "@),
{
    Line::out().text("Enter the viewing key for ").text(owner.as_str()).text(": ")
}

/// How the line about a consumed payment address begins.
pub open spec fn consumed(owner: Seq<char>, epoch: u64) -> LineView {
    out().text("Payment address "@).text(owner).text(" was consumed during epoch "@).number(
        epoch,
    )
}

/// The lines of what was received, by token.
pub open spec fn received_lines(
    received: Seq<(String, i64)>,
    tokens: Seq<(String, String)>,
) -> Seq<LineView> {
    received.map_values(
        |part: (String, i64)|
            out().text("  "@).text(shown(tokens, part.0@)).text(": "@).amount(as_amount(part.1)),
    )
}

/// The report of a pinned balance.
pub open spec fn pinned_report(
    owner: Seq<char>,
    token: Option<Seq<char>>,
    tokens: Seq<(String, String)>,
    result: PinnedResult,
) -> Seq<LineView> {
    match result {
        PinnedResult::NotAKey => seq![error().text("Invalid viewing key entered"@)],
        PinnedResult::InvalidViewingKey => seq![
            out().text(
                "Supplied viewing key cannot decode transactions to given payment address."@,
            ),
        ],
        PinnedResult::NoTransactionPinned => seq![
            out().text("Payment address "@).text(owner).text(" has not yet been consumed."@),
        ],
        PinnedResult::OfToken { value, epoch } => {
            let code = shown(tokens, token->0);
            if value == 0 {
                seq![consumed(owner, epoch).text(". Received no shielded "@).text(code)]
            } else {
                seq![
                    consumed(owner, epoch).text(". Received "@).amount(as_amount(value)).text(
                        " "@,
                    ).text(code),
                ]
            }
        },
        PinnedResult::OfTokens { received, epoch } => if received@.len() == 0 {
            seq![consumed(owner, epoch).text(". Received no shielded assets."@)]
        } else {
            seq![consumed(owner, epoch).text(". Received:"@)] + received_lines(received@, tokens)
        },
    }
}

/// How the line about a consumed payment address begins.
fn consumed_line(owner: &String, epoch: u64) -> (line: Line)
    ensures
        line@ == consumed(owner@, epoch),
{
    Line::out().text("Payment address ").text(owner.as_str()).text(
        " was consumed during epoch ",
    ).number(epoch)
}

/// The text of an optional token.
pub open spec fn token_text(token: Option<String>) -> Option<Seq<char>> {
    match token {
        Some(token) => Some(token@),
        None => None,
    }
}

/// Query the pinned balance of a payment address: the report of what is known of it in the
/// end.
pub fn query_pinned_balance(
    owner: &String,
    token: &Option<String>,
    tokens: &Vec<(String, String)>,
    result: &PinnedResult,
) -> (report: Report)
    requires
        result is OfToken ==> token is Some,
    ensures
        report@ == pinned_report(owner@, token_text(*token), tokens@, *result),
{
    match result {
        PinnedResult::NotAKey => Report::of(Line::error().text("Invalid viewing key entered")),
        PinnedResult::InvalidViewingKey => Report::of(
            Line::out().text(
                "Supplied viewing key cannot decode transactions to given payment address.",
            ),
        ),
        PinnedResult::NoTransactionPinned => Report::of(
            Line::out().text("Payment address ").text(owner.as_str()).text(
                " has not yet been consumed.",
            ),
        ),
        PinnedResult::OfToken { value, epoch } => {
            let code = match token {
                Some(token) => shown_name(tokens, token),
                None => String::new(),
            };
            if *value == 0 {
                Report::of(
                    consumed_line(owner, *epoch).text(". Received no shielded ").text(
                        code.as_str(),
                    ),
                )
            } else {
                Report::of(
                    consumed_line(owner, *epoch).text(". Received ").amount(
                        to_amount(*value),
                    ).text(" ").text(code.as_str()),
                )
            }
        },
        PinnedResult::OfTokens { received, epoch } => {
            if received.len() == 0 {
                return Report::of(
                    consumed_line(owner, *epoch).text(". Received no shielded assets."),
                );
            }
            let mut report = Report::of(consumed_line(owner, *epoch).text(". Received:"));
            let ghost header = report@;
            let ghost lines = received_lines(received@, tokens@);
            let mut i: usize = 0;
            assert(report@ =~= header + lines.take(0));
            while i < received.len()
                invariant
                    i <= received.len(),
                    lines == received_lines(received@, tokens@),
                    report@ == header + lines.take(i as int),
                decreases received.len() - i,
            {
                let code = shown_name(tokens, &received[i].0);
                report.push(
                    Line::out().text("  ").text(code.as_str()).text(": ").amount(
                        to_amount(received[i].1),
                    ),
                );
                assert(report@ =~= header + lines.take(i + 1));
                i = i + 1;
            }
            assert(lines.take(i as int) =~= lines);
            report
        },
    }
}

/// The pinned ones of joined lists are those of the lists, and an address is one exactly where
/// it is pinned.
pub proof fn lemma_pinned_addresses_join(
    first: Seq<PaymentAddress>,
    second: Seq<PaymentAddress>,
    address: PaymentAddress,
)
    ensures
        pinned_addresses(first + second) == pinned_addresses(first) + pinned_addresses(second),
        pinned_addresses(seq![address]) == if address.pinned {
            seq![address.address]
        } else {
            Seq::empty()
        },
    decreases second.len(),
{
    assert(seq![address].drop_last() =~= Seq::<PaymentAddress>::empty());
    assert(pinned_addresses(Seq::<PaymentAddress>::empty()) =~= seq![]);
    if second.len() == 0 {
        assert(first + second =~= first);
    } else {
        assert((first + second).drop_last() =~= first + second.drop_last());
        lemma_pinned_addresses_join(first, second.drop_last(), address);
    }
    assert(pinned_addresses(first + second) =~= pinned_addresses(first) + pinned_addresses(
        second,
    ));
}

/// The replies to a number of keys none of which belongs to the payment address.
pub open spec fn refusals(count: nat) -> Seq<PinnedReply> {
    Seq::new(count, |i: int| PinnedReply::Balance(PinnedBalance::InvalidViewingKey))
}

/// While keys are refused the next one is tried, and when all were the user is asked.
pub proof fn lemma_refused_keys(keys: usize, token_given: bool, count: nat)
    requires
        count <= keys,
    ensures
        count < keys ==> reached(keys, token_given, refusals(count)) == (PinnedState::TryKey {
            key: count as usize,
        }),
        count == keys ==> reached(keys, token_given, refusals(count)) == PinnedState::AskKey,
    decreases count,
{
    if count > 0 {
        let before = (count - 1) as nat;
        lemma_refused_keys(keys, token_given, before);
        assert(refusals(count).drop_last() =~= refusals(before));
    }
}

/// The state in which what a key shows is worked out further, or shown.
pub open spec fn decided(balance: PinnedBalance, token_given: bool, next: PinnedState) -> bool {
    match balance {
        PinnedBalance::InvalidViewingKey => next matches PinnedState::Show { result }
            && result is InvalidViewingKey,
        PinnedBalance::NoTransactionPinned => next matches PinnedState::Show { result }
            && result is NoTransactionPinned,
        PinnedBalance::Received { balance, epoch } => {
            &&& token_given ==> next == (PinnedState::FindAsset { balance, epoch })
            &&& !token_given ==> next == (PinnedState::Decode { balance, epoch })
        },
    }
}

/// The first key of the wallet that belongs to the payment address decides: neither the keys
/// behind it nor the user matter.
pub proof fn lemma_first_fitting_key_decides(
    keys: usize,
    token_given: bool,
    key: nat,
    balance: PinnedBalance,
)
    requires
        key < keys,
        !(balance is InvalidViewingKey),
    ensures
        decided(
            balance,
            token_given,
            reached(keys, token_given, refusals(key).push(PinnedReply::Balance(balance))),
        ),
{
    lemma_refused_keys(keys, token_given, key);
    let replies = refusals(key).push(PinnedReply::Balance(balance));
    assert(replies.drop_last() =~= refusals(key));
}

/// Where no key of the wallet belongs to the payment address, the key that the user enters
/// decides, and without one the search ends.
pub proof fn lemma_entered_key_decides(keys: usize, token_given: bool, balance: PinnedBalance)
    ensures
        reached(keys, token_given, refusals(keys as nat).push(PinnedReply::Entered(false))) == (
        PinnedState::Show { result: PinnedResult::NotAKey }),
        decided(
            balance,
            token_given,
            reached(
                keys,
                token_given,
                refusals(keys as nat).push(PinnedReply::Entered(true)).push(
                    PinnedReply::Balance(balance),
                ),
            ),
        ),
{
    lemma_refused_keys(keys, token_given, keys as nat);
    let refused = refusals(keys as nat);
    let no = refused.push(PinnedReply::Entered(false));
    let yes = refused.push(PinnedReply::Entered(true));
    let tried = yes.push(PinnedReply::Balance(balance));
    assert(no.drop_last() =~= refused);
    assert(yes.drop_last() =~= refused);
    assert(tried.drop_last() =~= yes);
    assert(reached(keys, token_given, yes) == PinnedState::TryEnteredKey);
}

/// What was received of the token's asset is shown, or all that was received, by token; the
/// epoch is that in which it was.
pub proof fn lemma_what_was_received_is_shown(
    keys: usize,
    token_given: bool,
    balance: Vec<(AssetType, i64)>,
    epoch: u64,
    asset: AssetType,
    received: Vec<(String, i64)>,
)
    ensures
        state_after(
            keys,
            token_given,
            PinnedState::FindAsset { balance, epoch },
            PinnedReply::Asset(asset),
        ) == (PinnedState::Show {
            result: PinnedResult::OfToken { value: component(balance@, asset.0@), epoch },
        }),
        state_after(
            keys,
            token_given,
            PinnedState::Decode { balance, epoch },
            PinnedReply::Decoded(received),
        ) == (PinnedState::Show { result: PinnedResult::OfTokens { received, epoch } }),
{
}

/// The report tells of a failed search why it failed, and of any other in which epoch the
/// payment address was consumed and what was received: of the token, which nothing was exactly
/// where its value is zero, or part by part, in order, unless there are none.
pub proof fn lemma_reports_of_pinned_balances(
    owner: Seq<char>,
    token: Seq<char>,
    tokens: Seq<(String, String)>,
    value: i64,
    received: Vec<(String, i64)>,
    epoch: u64,
    asked: Option<Seq<char>>,
)
    ensures
        pinned_report(owner, asked, tokens, PinnedResult::NotAKey) == seq![
            complained(seq![PieceView::Text("Invalid viewing key entered"@)]),
        ],
        pinned_report(owner, asked, tokens, PinnedResult::InvalidViewingKey) == seq![
            printed(
                seq![
                    PieceView::Text(
                        "Supplied viewing key cannot decode transactions to given payment address."@,
                    ),
                ],
            ),
        ],
        pinned_report(owner, asked, tokens, PinnedResult::NoTransactionPinned) == seq![
            printed(
                seq![
                    PieceView::Text("Payment address "@),
                    PieceView::Text(owner),
                    PieceView::Text(" has not yet been consumed."@),
                ],
            ),
        ],
        ({
            let start = seq![
                PieceView::Text("Payment address "@),
                PieceView::Text(owner),
                PieceView::Text(" was consumed during epoch "@),
                PieceView::Number(epoch),
            ];
            let of_token = pinned_report(
                owner,
                Some(token),
                tokens,
                PinnedResult::OfToken { value, epoch },
            );
            let of_tokens = pinned_report(
                owner,
                asked,
                tokens,
                PinnedResult::OfTokens { received, epoch },
            );
            &&& value == 0 ==> of_token == seq![
                printed(
                    start + seq![
                        PieceView::Text(". Received no shielded "@),
                        PieceView::Text(shown(tokens, token)),
                    ],
                ),
            ]
            &&& value != 0 ==> of_token == seq![
                printed(
                    start + seq![
                        PieceView::Text(". Received "@),
                        PieceView::Amount(as_amount(value)),
                        PieceView::Text(" "@),
                        PieceView::Text(shown(tokens, token)),
                    ],
                ),
            ]
            &&& received@.len() == 0 ==> of_tokens == seq![
                printed(start + seq![PieceView::Text(". Received no shielded assets."@)]),
            ]
            &&& received@.len() > 0 ==> {
                &&& of_tokens.len() == 1 + received@.len()
                &&& of_tokens[0] == printed(start + seq![PieceView::Text(". Received:"@)])
                &&& forall|i: int|
                    0 <= i < received@.len() ==> #[trigger] of_tokens[i + 1] == printed(
                        seq![
                            PieceView::Text("  "@),
                            PieceView::Text(shown(tokens, received@[i].0@)),
                            PieceView::Text(": "@),
                            PieceView::Amount(as_amount(received@[i].1)),
                        ],
                    )
            }
        }),
{
    let start = seq![
        PieceView::Text("Payment address "@),
        PieceView::Text(owner),
        PieceView::Text(" was consumed during epoch "@),
        PieceView::Number(epoch),
    ];
    let code = shown(tokens, token);
    assert(error().text("Invalid viewing key entered"@) =~= complained(
        seq![PieceView::Text("Invalid viewing key entered"@)],
    ));
    assert(out().text(
        "Supplied viewing key cannot decode transactions to given payment address."@,
    ) =~= printed(
        seq![
            PieceView::Text(
                "Supplied viewing key cannot decode transactions to given payment address."@,
            ),
        ],
    ));
    assert(out().text("Payment address "@).text(owner).text(" has not yet been consumed."@)
        =~= printed(
        seq![
            PieceView::Text("Payment address "@),
            PieceView::Text(owner),
            PieceView::Text(" has not yet been consumed."@),
        ],
    ));
    assert(consumed(owner, epoch) =~= printed(start));
    assert(consumed(owner, epoch).text(". Received no shielded "@).text(code) =~= printed(
        start + seq![PieceView::Text(". Received no shielded "@), PieceView::Text(code)],
    ));
    assert(consumed(owner, epoch).text(". Received "@).amount(as_amount(value)).text(" "@).text(
        code,
    ) =~= printed(
        start + seq![
            PieceView::Text(". Received "@),
            PieceView::Amount(as_amount(value)),
            PieceView::Text(" "@),
            PieceView::Text(code),
        ],
    ));
    assert(consumed(owner, epoch).text(". Received no shielded assets."@) =~= printed(
        start + seq![PieceView::Text(". Received no shielded assets."@)],
    ));
    assert(consumed(owner, epoch).text(". Received:"@) =~= printed(
        start + seq![PieceView::Text(". Received:"@)],
    ));
    if received@.len() > 0 {
        let lines = pinned_report(
            owner,
            asked,
            tokens,
            PinnedResult::OfTokens { received, epoch },
        );
        assert forall|i: int| 0 <= i < received@.len() implies #[trigger] lines[i + 1] == printed(
            seq![
                PieceView::Text("  "@),
                PieceView::Text(shown(tokens, received@[i].0@)),
                PieceView::Text(": "@),
                PieceView::Amount(as_amount(received@[i].1)),
            ],
        ) by {
            assert(lines[i + 1] =~= printed(
                seq![
                    PieceView::Text("  "@),
                    PieceView::Text(shown(tokens, received@[i].0@)),
                    PieceView::Text(": "@),
                    PieceView::Amount(as_amount(received@[i].1)),
                ],
            ));
        }
    }
}

/// A payment address that is given is asked for alone, pinned or not; for any other owner, and
/// for none, the pinned ones of the wallet are.
pub proof fn lemma_addresses_asked_for(owner: Option<BalanceOwner>, wallet: Seq<PaymentAddress>)
    ensures
        owner is Some && owner->0 is PaymentAddress ==> asked_addresses(owner, wallet) == seq![
            owner->0->PaymentAddress_0,
        ],
        owner is None || !(owner->0 is PaymentAddress) ==> asked_addresses(owner, wallet)
            == pinned_addresses(wallet),
{
}

} // verus!
