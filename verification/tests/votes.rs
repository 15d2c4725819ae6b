use ledger_client::address_map::AddressMap;
use ledger_client::deltas::Bond;
use ledger_client::report::Rate;
use ledger_client::slashing::Slash;
use ledger_client::votes::{
    checked_delegated_amount, checked_get_proposal_offline_votes, get_proposal_offline_votes,
    vote_route, Ballot, Delegation, OfflineVote, Route,
};

const PROPOSAL: ledger_client::validity_predicate::Hash =
    ledger_client::validity_predicate::Hash([1; 32]);

fn text(s: &str) -> String {
    s.to_string()
}

fn vote(address: &str, yay: bool) -> OfflineVote {
    OfflineVote { address: text(address), proposal_hash: PROPOSAL, yay, signature_valid: true }
}

fn delegation(validator: &str, pos_deltas: Vec<(u64, u64)>, neg_deltas: u64) -> Delegation {
    Delegation { validator: text(validator), bond: Bond { pos_deltas, neg_deltas }, slashes: None }
}

fn ballot(address: &str, yay: bool, delegations: Vec<Delegation>) -> Ballot {
    Ballot { vote: vote(address, yay), stake: 1000, delegator: true, delegations }
}

fn half(epoch: u64) -> Slash {
    Slash {
        epoch,
        block_height: 0,
        kind: text("Duplicate vote"),
        rate: Rate { mantissa: 50, scale: 2 },
    }
}

fn power(map: &AddressMap<AddressMap<u128>>, voter: &str, validator: &str) -> Option<u128> {
    map.get(&text(voter)).and_then(|inner| inner.get(&text(validator))).copied()
}

#[test]
fn votes_are_routed() {
    let validators = vec![text("v")];
    assert_eq!(vote_route(&vote("v", true), &PROPOSAL, &validators), Route::Validator);
    assert_eq!(vote_route(&vote("v", false), &PROPOSAL, &validators), Route::Delegator);
    assert_eq!(vote_route(&vote("d", true), &PROPOSAL, &validators), Route::Delegator);
    let mut forged = vote("v", true);
    forged.signature_valid = false;
    assert_eq!(vote_route(&forged, &PROPOSAL, &validators), Route::Rejected);
    let mut other = PROPOSAL;
    other.0[31] = 2;
    assert_eq!(vote_route(&vote("v", true), &other, &validators), Route::Rejected);
}

#[test]
fn unbonded_amounts_are_deducted_oldest_first() {
    let amount = |pos: Vec<(u64, u64)>, neg: u64, slashes: Vec<Slash>| {
        checked_delegated_amount(&Bond { pos_deltas: pos, neg_deltas: neg }, &slashes)
    };
    assert_eq!(amount(vec![(3, 30), (1, 10), (2, 20)], 0, vec![]), Some(60));
    assert_eq!(amount(vec![(3, 30), (1, 10), (2, 20)], 15, vec![]), Some(45));
    assert_eq!(amount(vec![(3, 30), (1, 10)], 10, vec![]), Some(30));
    assert_eq!(amount(vec![(1, 10)], 11, vec![]), Some(0));
    // The amount of epoch 1 is gone, and so is a part of that of epoch 2, whose rest is
    // halved.
    assert_eq!(amount(vec![(3, 30), (1, 10), (2, 20)], 14, vec![half(2)]), Some(38));
}

#[test]
fn delegated_amounts_must_be_amounts() {
    let bond = Bond { pos_deltas: vec![(1, u64::MAX), (2, 1)], neg_deltas: 0 };
    assert_eq!(checked_delegated_amount(&bond, &vec![]), None);
    let bond = Bond { pos_deltas: vec![(1, u64::MAX), (2, 1)], neg_deltas: 1 };
    assert_eq!(checked_delegated_amount(&bond, &vec![]), Some(u64::MAX));
    let mut double = half(5);
    double.rate = Rate { mantissa: 2, scale: 0 };
    let bond = Bond { pos_deltas: vec![(1, 10)], neg_deltas: 0 };
    assert_eq!(checked_delegated_amount(&bond, &vec![double]), None);
}

#[test]
fn validators_count_with_their_stake() {
    let votes = get_proposal_offline_votes(
        &PROPOSAL,
        &vec![text("v"), text("w")],
        &vec![ballot("v", true, vec![]), ballot("x", true, vec![])],
    );
    assert_eq!(votes.yay_validators.len(), 1);
    assert_eq!(votes.yay_validators.get(&text("v")), Some(&1000));
    assert_eq!(votes.yay_delegators.len(), 0);
    assert_eq!(votes.nay_delegators.len(), 0);
}

#[test]
fn delegators_count_with_their_delegations() {
    let ballots = vec![
        ballot("d", true, vec![delegation("v", vec![(1, 10)], 3), delegation("w", vec![(1, 5)], 0)]),
        ballot("e", false, vec![delegation("v", vec![(1, 8)], 0)]),
        ballot("v", false, vec![delegation("v", vec![(1, 100)], 0)]),
    ];
    let votes = get_proposal_offline_votes(&PROPOSAL, &vec![text("v")], &ballots);
    assert_eq!(votes.yay_validators.len(), 0);
    assert_eq!(votes.yay_delegators.len(), 1);
    assert_eq!(power(&votes.yay_delegators, "d", "v"), Some(7));
    assert_eq!(power(&votes.yay_delegators, "d", "w"), Some(5));
    assert_eq!(votes.nay_delegators.len(), 2);
    assert_eq!(power(&votes.nay_delegators, "e", "v"), Some(8));
    assert_eq!(power(&votes.nay_delegators, "v", "v"), Some(100));
    assert_eq!(power(&votes.nay_delegators, "d", "v"), None);
}

#[test]
fn slashes_lower_the_power_of_delegations() {
    let mut slashed = delegation("v", vec![(1, 10), (5, 20)], 0);
    slashed.slashes = Some(vec![half(4)]);
    let votes =
        get_proposal_offline_votes(&PROPOSAL, &vec![], &vec![ballot("d", true, vec![slashed])]);
    assert_eq!(power(&votes.yay_delegators, "d", "v"), Some(25));
}

#[test]
fn who_is_no_delegator_does_not_count_with_delegations() {
    let mut stranger = ballot("d", true, vec![delegation("v", vec![(1, 10)], 0)]);
    stranger.delegator = false;
    let votes = get_proposal_offline_votes(&PROPOSAL, &vec![], &vec![stranger]);
    assert_eq!(votes.yay_delegators.len(), 0);
    assert_eq!(votes.nay_delegators.len(), 0);
}

#[test]
fn rejected_ballots_do_not_count() {
    let mut forged = ballot("v", true, vec![]);
    forged.vote.signature_valid = false;
    let mut elsewhere = ballot("d", false, vec![delegation("v", vec![(1, 10)], 0)]);
    elsewhere.vote.proposal_hash = ledger_client::validity_predicate::Hash([2; 32]);
    let votes =
        get_proposal_offline_votes(&PROPOSAL, &vec![text("v")], &vec![forged, elsewhere]);
    assert_eq!(votes.yay_validators.len(), 0);
    assert_eq!(votes.yay_delegators.len(), 0);
    assert_eq!(votes.nay_delegators.len(), 0);
}

#[test]
fn a_later_ballot_replaces_the_power_of_an_earlier_one() {
    let mut again = ballot("v", true, vec![]);
    again.stake = 7;
    let ballots = vec![
        ballot("v", true, vec![]),
        again,
        ballot("d", true, vec![delegation("v", vec![(1, 10)], 0)]),
        ballot("d", true, vec![delegation("v", vec![(1, 11)], 0), delegation("w", vec![(1, 1)], 0)]),
    ];
    let votes = get_proposal_offline_votes(&PROPOSAL, &vec![text("v")], &ballots);
    assert_eq!(votes.yay_validators.get(&text("v")), Some(&7));
    assert_eq!(power(&votes.yay_delegators, "d", "v"), Some(11));
    assert_eq!(power(&votes.yay_delegators, "d", "w"), Some(1));
}

#[test]
fn ballots_with_delegations_out_of_range_are_none() {
    let huge = || vec![delegation("v", vec![(1, u64::MAX), (2, u64::MAX)], 0)];
    let counts = |b: Ballot| {
        checked_get_proposal_offline_votes(&PROPOSAL, &vec![text("v")], &vec![b]).is_some()
    };
    assert!(!counts(ballot("d", true, huge())));
    // The delegations of a validator that votes for the proposal are not read.
    assert!(counts(ballot("v", true, huge())));
    let mut forged = ballot("d", true, huge());
    forged.vote.signature_valid = false;
    assert!(counts(forged));
    let mut stranger = ballot("d", true, huge());
    stranger.delegator = false;
    assert!(counts(stranger));
}

#[test]
fn a_map_holds_one_value_for_an_address() {
    let mut map: AddressMap<u8> = AddressMap::new();
    assert_eq!(map.len(), 0);
    map.insert(text("a"), 1);
    map.insert(text("b"), 2);
    map.insert(text("a"), 3);
    assert_eq!(map.len(), 2);
    assert_eq!(map.get(&text("a")), Some(&3));
    assert_eq!(map.get(&text("c")), None);
    let mut seen: Vec<(String, u8)> =
        (0..map.len()).map(|i| (map.entry(i).0.clone(), *map.entry(i).1)).collect();
    seen.sort();
    assert_eq!(seen, vec![(text("a"), 3), (text("b"), 2)]);
    assert_eq!(map.remove(&text("a")), Some(3));
    assert_eq!(map.remove(&text("a")), None);
    assert_eq!(map.len(), 1);
    assert_eq!(map.get(&text("b")), Some(&2));
}
