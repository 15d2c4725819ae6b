use ledger_client::assets::AssetType;
use ledger_client::balances::BalanceOwner;
use ledger_client::pinned::{
    first_state, key_prompt, next_pinned_state, pinned_owners, query_pinned_balance,
    PaymentAddress, PinnedBalance, PinnedReply, PinnedResult, PinnedState,
};
use ledger_client::report::{Line, Report};

fn text(s: &str) -> String {
    s.to_string()
}

fn received() -> PinnedBalance {
    PinnedBalance::Received { balance: vec![(AssetType([1; 32]), 9)], epoch: 4 }
}

fn invalid() -> PinnedReply {
    PinnedReply::Balance(PinnedBalance::InvalidViewingKey)
}

#[test]
fn the_owner_or_all_pinned_addresses_are_asked_for() {
    let wallet = vec![
        PaymentAddress { address: text("a"), pinned: true },
        PaymentAddress { address: text("b"), pinned: false },
        PaymentAddress { address: text("c"), pinned: true },
    ];
    assert_eq!(
        pinned_owners(&Some(BalanceOwner::PaymentAddress(text("p"))), &wallet),
        vec![text("p")]
    );
    assert_eq!(pinned_owners(&None, &wallet), vec![text("a"), text("c")]);
}

#[test]
fn the_keys_of_the_wallet_are_tried_in_turn() {
    let mut state = first_state(3);
    for key in 0..3 {
        assert_eq!(state, PinnedState::TryKey { key });
        state = next_pinned_state(3, true, state, invalid());
    }
    assert_eq!(state, PinnedState::AskKey);
    assert_eq!(first_state(0), PinnedState::AskKey);
}

#[test]
fn the_first_key_that_fits_is_taken() {
    let state = next_pinned_state(3, true, first_state(3), invalid());
    let state = next_pinned_state(3, true, state, PinnedReply::Balance(received()));
    assert_eq!(
        state,
        PinnedState::FindAsset { balance: vec![(AssetType([1; 32]), 9)], epoch: 4 }
    );
    let state = next_pinned_state(3, true, state, PinnedReply::Asset(AssetType([1; 32])));
    assert_eq!(
        state,
        PinnedState::Show { result: PinnedResult::OfToken { value: 9, epoch: 4 } }
    );
}

#[test]
fn all_tokens_are_decoded_where_none_is_asked_for() {
    let state =
        next_pinned_state(1, false, first_state(1), PinnedReply::Balance(received()));
    assert_eq!(
        state,
        PinnedState::Decode { balance: vec![(AssetType([1; 32]), 9)], epoch: 4 }
    );
    let tokens = vec![(text("t"), 9)];
    let state = next_pinned_state(1, false, state, PinnedReply::Decoded(tokens));
    assert_eq!(
        state,
        PinnedState::Show {
            result: PinnedResult::OfTokens { received: vec![(text("t"), 9)], epoch: 4 }
        }
    );
}

#[test]
fn an_entered_key_is_tried_once() {
    let state = next_pinned_state(0, true, PinnedState::AskKey, PinnedReply::Entered(true));
    assert_eq!(state, PinnedState::TryEnteredKey);
    let state = next_pinned_state(0, true, state, invalid());
    assert_eq!(state, PinnedState::Show { result: PinnedResult::InvalidViewingKey });
    let state = next_pinned_state(0, true, PinnedState::AskKey, PinnedReply::Entered(false));
    assert_eq!(state, PinnedState::Show { result: PinnedResult::NotAKey });
}

#[test]
fn an_address_without_a_transaction_is_not_searched_further() {
    let reply = PinnedReply::Balance(PinnedBalance::NoTransactionPinned);
    assert_eq!(
        next_pinned_state(5, true, first_state(5), reply),
        PinnedState::Show { result: PinnedResult::NoTransactionPinned }
    );
}

#[test]
fn the_user_is_asked_for_a_key() {
    assert_eq!(
        key_prompt(&text("p")),
        Line::out().text("Enter the viewing key for ").text("p").text(": ")
    );
}

fn report(token: Option<&str>, result: PinnedResult) -> Report {
    let tokens = vec![(text("addr-nam"), text("NAM"))];
    query_pinned_balance(&text("p"), &token.map(text), &tokens, &result)
}

fn consumed() -> Line {
    Line::out()
        .text("Payment address ")
        .text("p")
        .text(" was consumed during epoch ")
        .number(4)
}

#[test]
fn failed_searches_are_reported() {
    assert_eq!(
        report(None, PinnedResult::NotAKey),
        Report::of(Line::error().text("Invalid viewing key entered"))
    );
    assert_eq!(
        report(None, PinnedResult::InvalidViewingKey),
        Report::of(Line::out().text(
            "Supplied viewing key cannot decode transactions to given payment address."
        ))
    );
    assert_eq!(
        report(None, PinnedResult::NoTransactionPinned),
        Report::of(
            Line::out().text("Payment address ").text("p").text(" has not yet been consumed.")
        )
    );
}

#[test]
fn what_was_received_of_a_token_is_reported() {
    assert_eq!(
        report(Some("addr-nam"), PinnedResult::OfToken { value: 9, epoch: 4 }),
        Report::of(consumed().text(". Received ").amount(9).text(" ").text("NAM"))
    );
    assert_eq!(
        report(Some("other"), PinnedResult::OfToken { value: 0, epoch: 4 }),
        Report::of(consumed().text(". Received no shielded ").text("other"))
    );
}

#[test]
fn what_was_received_of_all_tokens_is_reported() {
    let received = vec![(text("addr-nam"), 9), (text("other"), 3)];
    assert_eq!(
        report(None, PinnedResult::OfTokens { received, epoch: 4 }).lines,
        vec![
            consumed().text(". Received:"),
            Line::out().text("  ").text("NAM").text(": ").amount(9),
            Line::out().text("  ").text("other").text(": ").amount(3),
        ]
    );
    assert_eq!(
        report(None, PinnedResult::OfTokens { received: vec![], epoch: 4 }),
        Report::of(consumed().text(". Received no shielded assets."))
    );
}
