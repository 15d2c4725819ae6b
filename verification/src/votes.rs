//! Votes on a proposal that were cast in files.

use vstd::prelude::*;

use crate::address_map::AddressMap;
use crate::bond_query::slashes_of;
use crate::deltas::{
    bond_rows, bonded_sum, lemma_bond_rows_add_up, raw_total, Bond, Row,
};
use crate::slashing::{
    after_slashes, amount_after_slashes, lemma_slashing_never_adds, Slash,
};

verus! {

/// A vote that was cast in a file.
#[derive(Debug)]
pub struct OfflineVote {
    /// The voter.
    pub address: String,
    /// The hash of the proposal that is voted on.
    pub proposal_hash: crate::validity_predicate::Hash,
    /// Whether the vote is for the proposal.
    pub yay: bool,
    /// Whether the voter's public key confirms the vote's signature.
    pub signature_valid: bool,
}

/// What a voter has delegated to a validator.
#[derive(Debug)]
pub struct Delegation {
    pub validator: String,
    /// The bond in the epoch of the tally.
    pub bond: Bond,
    /// The validator's slashes, if any are stored.
    pub slashes: Option<Vec<Slash>>,
}

/// A vote with the ledger's records of the voter.
#[derive(Debug)]
pub struct Ballot {
    pub vote: OfflineVote,
    /// The voter's stake; only read of a validator.
    pub stake: u64,
    /// Whether the voter is a delegator in the epoch of the tally; not read of a validator
    /// that votes for the proposal.
    pub delegator: bool,
    /// The voter's delegations; only read of a delegator.
    pub delegations: Vec<Delegation>,
}

/// How a vote is counted.
#[derive(Clone, Copy, Debug, PartialEq, Eq, Structural)]
pub enum Route {
    /// It is not.
    Rejected,
    /// With the voter's stake.
    Validator,
    /// With the voter's delegations, if the voter is a delegator.
    Delegator,
}

/// Counted votes.
#[derive(Debug)]
pub struct Votes {
    /// The stakes of validators that voted for the proposal.
    pub yay_validators: AddressMap<u128>,
    /// What delegators that voted for the proposal delegated, by validator.
    pub yay_delegators: AddressMap<AddressMap<u128>>,
    /// What delegators that voted against the proposal delegated, by validator.
    pub nay_delegators: AddressMap<AddressMap<u128>>,
}

/// The mathematical content of [`Votes`].
#[verifier::ext_equal]
pub struct VotesView {
    pub yay_validators: Map<Seq<char>, u128>,
    pub yay_delegators: Map<Seq<char>, Map<Seq<char>, u128>>,
    pub nay_delegators: Map<Seq<char>, Map<Seq<char>, u128>>,
}

/// The powers in a map of maps.
pub open spec fn powers(map: AddressMap<AddressMap<u128>>) -> Map<Seq<char>, Map<Seq<char>, u128>> {
    map@.map_values(|inner: AddressMap<u128>| inner@)
}

/// No address occurs twice in the map, nor in the maps that it holds.
pub open spec fn powers_wf(map: AddressMap<AddressMap<u128>>) -> bool {
    &&& map.wf()
    &&& forall|key: Seq<char>| #[trigger] map@.contains_key(key) ==> map@[key].wf()
}

impl View for Votes {
    type V = VotesView;

    open spec fn view(&self) -> VotesView {
        VotesView {
            yay_validators: self.yay_validators@,
            yay_delegators: powers(self.yay_delegators),
            nay_delegators: powers(self.nay_delegators),
        }
    }
}

impl Votes {
    /// No address occurs twice in a map.
    pub open spec fn wf(self) -> bool {
        &&& self.yay_validators.wf()
        &&& powers_wf(self.yay_delegators)
        &&& powers_wf(self.nay_delegators)
    }
}

/// The power of one more validator among those of a delegator.
pub open spec fn with_power(
    map: Map<Seq<char>, Map<Seq<char>, u128>>,
    delegator: Seq<char>,
    validator: Seq<char>,
    power: u128,
) -> Map<Seq<char>, Map<Seq<char>, u128>> {
    let inner = if map.contains_key(delegator) {
        map[delegator]
    } else {
        Map::empty()
    };
    map.insert(delegator, inner.insert(validator, power))
}

/// What is still to be deducted from a bond, and what is delegated by the rows walked.
pub struct Deduction {
    pub to_deduct: u64,
    pub amount: int,
}

/// Deducts an amount from the rows, oldest first, and adds up what the slashes leave of
/// the rest; `None` where that cannot be computed.
pub open spec fn deduct(
    rows: Seq<Row>,
    to_deduct: u64,
    slashes: Seq<Slash>,
) -> Option<Deduction>
    decreases rows.len(),
{
    if rows.len() == 0 {
        Some(Deduction { to_deduct, amount: 0 })
    } else {
        let row = rows.last();
        match deduct(rows.drop_last(), to_deduct, slashes) {
            Some(before) => if before.to_deduct > row.2 {
                Some(
                    Deduction {
                        to_deduct: (before.to_deduct - row.2) as u64,
                        amount: before.amount,
                    },
                )
            } else {
                match after_slashes(slashes, (row.2 - before.to_deduct) as u64, row.0, None) {
                    Some(left) => Some(Deduction { to_deduct: 0, amount: before.amount + left }),
                    None => None,
                }
            },
            None => None,
        }
    }
}

/// What is delegated by a bond.
pub open spec fn delegated(bond: Bond, slashes: Seq<Slash>) -> int {
    deduct(bond_rows(bond), bond.neg_deltas, slashes)->0.amount
}

/// Whether what is delegated by a bond can be computed and is an amount.
pub open spec fn delegated_in_range(bond: Bond, slashes: Seq<Slash>) -> bool {
    match deduct(bond_rows(bond), bond.neg_deltas, slashes) {
        Some(deduction) => deduction.amount <= u64::MAX,
        None => false,
    }
}

/// A deduction from some rows exists where that from more of them does, and what they
/// delegate is no more.
proof fn lemma_deduct_prefix(rows: Seq<Row>, count: int, to_deduct: u64, slashes: Seq<Slash>)
    requires
        0 <= count <= rows.len(),
        deduct(rows, to_deduct, slashes) is Some,
    ensures
        deduct(rows.take(count), to_deduct, slashes) is Some,
        0 <= deduct(rows.take(count), to_deduct, slashes)->0.amount <= deduct(
            rows,
            to_deduct,
            slashes,
        )->0.amount,
    decreases rows.len(),
{
    if rows.len() > 0 {
        if count == rows.len() {
            assert(rows.take(count) =~= rows);
            lemma_deduct_prefix(rows.drop_last(), 0, to_deduct, slashes);
        } else {
            assert(rows.drop_last().take(count) =~= rows.take(count));
            lemma_deduct_prefix(rows.drop_last(), count, to_deduct, slashes);
        }
    } else {
        assert(rows.take(count) =~= rows);
    }
}

/// What is delegated by a bond in the epoch of a tally: its amounts, less what was
/// unbonded, less the validator's slashes; `None` where that is no amount.
pub fn checked_delegated_amount(bond: &Bond, slashes: &Vec<Slash>) -> (amount: Option<u64>)
    ensures
        amount is Some == delegated_in_range(*bond, slashes@),
        amount matches Some(amount) ==> amount == delegated(*bond, slashes@),
{
    let rows = bond.rows();
    let mut to_deduct: u64 = bond.neg_deltas;
    let mut amount: u64 = 0;
    let mut i: usize = 0;
    while i < rows.len()
        invariant
            i <= rows.len(),
            rows@ == bond_rows(*bond),
            deduct(rows@.take(i as int), bond.neg_deltas, slashes@) == Some(
                Deduction { to_deduct, amount: amount as int },
            ),
        decreases rows.len() - i,
    {
        let row = rows[i];
        proof {
            assert(rows@.take(i + 1).drop_last() =~= rows@.take(i as int));
            if deduct(rows@, bond.neg_deltas, slashes@) is Some {
                lemma_deduct_prefix(rows@, i + 1, bond.neg_deltas, slashes@);
            }
        }
        if to_deduct > row.2 {
            to_deduct = to_deduct - row.2;
        } else {
            let rest: u64 = row.2 - to_deduct;
            to_deduct = 0;
            match amount_after_slashes(slashes, rest, row.0, None) {
                Some(left) => match amount.checked_add(left) {
                    Some(sum) => {
                        amount = sum;
                    },
                    None => {
                        return None;
                    },
                },
                None => {
                    return None;
                },
            }
        }
        i = i + 1;
    }
    assert(rows@.take(i as int) =~= rows@);
    Some(amount)
}

/// Whether two hashes are the same.
fn same_hash(a: &crate::validity_predicate::Hash, b: &crate::validity_predicate::Hash) -> (same:
    bool)
    ensures
        same == (a.0@ == b.0@),
{
    let mut i: usize = 0;
    while i < 32
        invariant
            i <= 32,
            forall|j: int| 0 <= j < i ==> a.0@[j] == b.0@[j],
        decreases 32 - i,
    {
        if a.0[i] != b.0[i] {
            return false;
        }
        i = i + 1;
    }
    assert(a.0@ =~= b.0@);
    true
}

/// Whether an address is listed.
pub open spec fn listed(addresses: Seq<String>, address: Seq<char>) -> bool {
    exists|i: int| 0 <= i < addresses.len() && (#[trigger] addresses[i])@ == address
}

/// Whether an address is listed.
fn is_listed(addresses: &Vec<String>, address: &String) -> (yes: bool)
    ensures
        yes == listed(addresses@, address@),
{
    let mut i: usize = 0;
    while i < addresses.len()
        invariant
            i <= addresses.len(),
            forall|j: int| 0 <= j < i ==> (#[trigger] addresses@[j])@ != address@,
        decreases addresses.len() - i,
    {
        if addresses[i] == *address {
            return true;
        }
        i = i + 1;
    }
    false
}

/// How a vote on the proposal with the given hash is counted: not at all where it is for
/// another proposal or its signature is bad, with the voter's stake where a validator
/// votes for the proposal, and with the voter's delegations otherwise.
pub open spec fn route(
    vote: OfflineVote,
    proposal_hash: crate::validity_predicate::Hash,
    validators: Seq<String>,
) -> Route {
    if vote.proposal_hash.0@ != proposal_hash.0@ || !vote.signature_valid {
        Route::Rejected
    } else if vote.yay && listed(validators, vote.address@) {
        Route::Validator
    } else {
        Route::Delegator
    }
}

/// How a vote is counted.
pub fn vote_route(
    vote: &OfflineVote,
    proposal_hash: &crate::validity_predicate::Hash,
    validators: &Vec<String>,
) -> (result: Route)
    ensures
        result == route(*vote, *proposal_hash, validators@),
{
    if !same_hash(&vote.proposal_hash, proposal_hash) || !vote.signature_valid {
        Route::Rejected
    } else if vote.yay && is_listed(validators, &vote.address) {
        Route::Validator
    } else {
        Route::Delegator
    }
}

/// The powers with those of a voter's delegations added.
pub open spec fn with_delegations(
    map: Map<Seq<char>, Map<Seq<char>, u128>>,
    voter: Seq<char>,
    delegations: Seq<Delegation>,
) -> Map<Seq<char>, Map<Seq<char>, u128>>
    decreases delegations.len(),
{
    if delegations.len() == 0 {
        map
    } else {
        let last = delegations.last();
        with_power(
            with_delegations(map, voter, delegations.drop_last()),
            voter,
            last.validator@,
            delegated(last.bond, slashes_of(last.slashes)) as u128,
        )
    }
}

/// The votes with a ballot counted.
pub open spec fn with_ballot(
    votes: VotesView,
    ballot: Ballot,
    proposal_hash: crate::validity_predicate::Hash,
    validators: Seq<String>,
) -> VotesView {
    let voter = ballot.vote.address@;
    match route(ballot.vote, proposal_hash, validators) {
        Route::Rejected => votes,
        Route::Validator => VotesView {
            yay_validators: votes.yay_validators.insert(voter, ballot.stake as u128),
            ..votes
        },
        Route::Delegator => if !ballot.delegator {
            votes
        } else if ballot.vote.yay {
            VotesView {
                yay_delegators: with_delegations(
                    votes.yay_delegators,
                    voter,
                    ballot.delegations@,
                ),
                ..votes
            }
        } else {
            VotesView {
                nay_delegators: with_delegations(
                    votes.nay_delegators,
                    voter,
                    ballot.delegations@,
                ),
                ..votes
            }
        },
    }
}

/// The votes before any ballot is counted.
pub open spec fn no_votes() -> VotesView {
    VotesView {
        yay_validators: Map::empty(),
        yay_delegators: Map::empty(),
        nay_delegators: Map::empty(),
    }
}

/// The votes of the ballots, counted in order.
pub open spec fn counted(
    ballots: Seq<Ballot>,
    proposal_hash: crate::validity_predicate::Hash,
    validators: Seq<String>,
) -> VotesView
    decreases ballots.len(),
{
    if ballots.len() == 0 {
        no_votes()
    } else {
        with_ballot(
            counted(ballots.drop_last(), proposal_hash, validators),
            ballots.last(),
            proposal_hash,
            validators,
        )
    }
}

/// Whether what each delegation of a ballot is worth is an amount, where that is read.
pub open spec fn ballot_in_range(
    ballot: Ballot,
    proposal_hash: crate::validity_predicate::Hash,
    validators: Seq<String>,
) -> bool {
    route(ballot.vote, proposal_hash, validators) is Delegator && ballot.delegator
        ==> delegations_in_range(ballot.delegations@)
}

/// Whether what each delegation is worth is an amount.
pub open spec fn delegations_in_range(delegations: Seq<Delegation>) -> bool {
    forall|i: int|
        0 <= i < delegations.len() ==> delegated_in_range(
            (#[trigger] delegations[i]).bond,
            slashes_of(delegations[i].slashes),
        )
}

/// Whether what each delegation read of the ballots is worth is an amount.
pub open spec fn ballots_in_range(
    ballots: Seq<Ballot>,
    proposal_hash: crate::validity_predicate::Hash,
    validators: Seq<String>,
) -> bool {
    forall|i: int|
        0 <= i < ballots.len() ==> ballot_in_range(
            #[trigger] ballots[i],
            proposal_hash,
            validators,
        )
}

/// Adds the power of one more validator to those of a delegator.
fn add_power(
    map: &mut AddressMap<AddressMap<u128>>,
    delegator: &String,
    validator: &String,
    power: u128,
)
    requires
        powers_wf(*old(map)),
    ensures
        powers_wf(*final(map)),
        powers(*final(map)) == with_power(powers(*old(map)), delegator@, validator@, power),
{
    let ghost before = *map;
    let mut inner = match map.remove(delegator) {
        Some(inner) => inner,
        None => AddressMap::new(),
    };
    inner.insert(validator.clone(), power);
    map.insert(delegator.clone(), inner);
    proof {
        let expected = with_power(powers(before), delegator@, validator@, power);
        assert(powers(*map) =~= expected);
    }
}

/// Adds the powers of a voter's delegations.
fn add_delegations(
    map: &mut AddressMap<AddressMap<u128>>,
    voter: &String,
    delegations: &Vec<Delegation>,
)
    requires
        powers_wf(*old(map)),
        delegations_in_range(delegations@),
    ensures
        powers_wf(*final(map)),
        powers(*final(map)) == with_delegations(powers(*old(map)), voter@, delegations@),
{
    let none: Vec<Slash> = Vec::new();
    let mut i: usize = 0;
    assert(delegations@.take(0) =~= seq![]);
    while i < delegations.len()
        invariant
            i <= delegations.len(),
            none@.len() == 0,
            powers_wf(*map),
            delegations_in_range(delegations@),
            powers(*map) == with_delegations(
                powers(*old(map)),
                voter@,
                delegations@.take(i as int),
            ),
        decreases delegations.len() - i,
    {
        let delegation = &delegations[i];
        let slashes = match &delegation.slashes {
            Some(slashes) => slashes,
            None => &none,
        };
        assert(slashes@ =~= slashes_of(delegation.slashes));
        assert(delegated_in_range(delegations@[i as int].bond, slashes@));
        assert(delegations@.take(i + 1).drop_last() =~= delegations@.take(i as int));
        if let Some(amount) = checked_delegated_amount(&delegation.bond, slashes) {
            add_power(map, voter, &delegation.validator, amount as u128);
        }
        i = i + 1;
    }
    assert(delegations@.take(i as int) =~= delegations@);
}

/// Counts the votes that were cast in files on the proposal with the given hash, given the
/// validators in the epoch of the tally.
pub fn get_proposal_offline_votes(
    proposal_hash: &crate::validity_predicate::Hash,
    validators: &Vec<String>,
    ballots: &Vec<Ballot>,
) -> (votes: Votes)
    requires
        ballots_in_range(ballots@, *proposal_hash, validators@),
    ensures
        votes.wf(),
        votes@ == counted(ballots@, *proposal_hash, validators@),
{
    let mut votes = Votes {
        yay_validators: AddressMap::new(),
        yay_delegators: AddressMap::new(),
        nay_delegators: AddressMap::new(),
    };
    assert(votes@ =~= no_votes());
    let mut i: usize = 0;
    while i < ballots.len()
        invariant
            i <= ballots.len(),
            ballots_in_range(ballots@, *proposal_hash, validators@),
            votes.wf(),
            votes@ == counted(ballots@.take(i as int), *proposal_hash, validators@),
        decreases ballots.len() - i,
    {
        let ballot = &ballots[i];
        assert(ballots@.take(i + 1).drop_last() =~= ballots@.take(i as int));
        assert(ballot_in_range(ballots@[i as int], *proposal_hash, validators@));
        match vote_route(&ballot.vote, proposal_hash, validators) {
            Route::Rejected => {},
            Route::Validator => {
                votes.yay_validators.insert(ballot.vote.address.clone(), ballot.stake as u128);
            },
            Route::Delegator => {
                if ballot.delegator && ballot.vote.yay {
                    add_delegations(
                        &mut votes.yay_delegators,
                        &ballot.vote.address,
                        &ballot.delegations,
                    );
                } else if ballot.delegator {
                    add_delegations(
                        &mut votes.nay_delegators,
                        &ballot.vote.address,
                        &ballot.delegations,
                    );
                }
            },
        }
        i = i + 1;
    }
    assert(ballots@.take(i as int) =~= ballots@);
    votes
}

/// Whether what each delegation is worth is an amount.
fn check_delegations(delegations: &Vec<Delegation>) -> (yes: bool)
    ensures
        yes == delegations_in_range(delegations@),
{
    let none: Vec<Slash> = Vec::new();
    let mut i: usize = 0;
    while i < delegations.len()
        invariant
            i <= delegations.len(),
            none@.len() == 0,
            forall|j: int|
                0 <= j < i ==> delegated_in_range(
                    (#[trigger] delegations@[j]).bond,
                    slashes_of(delegations@[j].slashes),
                ),
        decreases delegations.len() - i,
    {
        let delegation = &delegations[i];
        let slashes = match &delegation.slashes {
            Some(slashes) => slashes,
            None => &none,
        };
        assert(slashes@ =~= slashes_of(delegation.slashes));
        if checked_delegated_amount(&delegation.bond, slashes).is_none() {
            assert(!delegated_in_range(
                delegations@[i as int].bond,
                slashes_of(delegations@[i as int].slashes),
            ));
            return false;
        }
        i = i + 1;
    }
    true
}

/// As [`get_proposal_offline_votes`], with `None` where a delegation is worth no amount.
pub fn checked_get_proposal_offline_votes(
    proposal_hash: &crate::validity_predicate::Hash,
    validators: &Vec<String>,
    ballots: &Vec<Ballot>,
) -> (votes: Option<Votes>)
    ensures
        votes is Some == ballots_in_range(ballots@, *proposal_hash, validators@),
        votes matches Some(votes) ==> {
            &&& votes.wf()
            &&& votes@ == counted(ballots@, *proposal_hash, validators@)
        },
{
    let mut i: usize = 0;
    while i < ballots.len()
        invariant
            i <= ballots.len(),
            forall|j: int|
                0 <= j < i ==> ballot_in_range(
                    #[trigger] ballots@[j],
                    *proposal_hash,
                    validators@,
                ),
        decreases ballots.len() - i,
    {
        let ballot = &ballots[i];
        let delegator = match vote_route(&ballot.vote, proposal_hash, validators) {
            Route::Delegator => ballot.delegator,
            _ => false,
        };
        if delegator && !check_delegations(&ballot.delegations) {
            assert(!ballot_in_range(ballots@[i as int], *proposal_hash, validators@));
            return None;
        }
        i = i + 1;
    }
    Some(get_proposal_offline_votes(proposal_hash, validators, ballots))
}

/// What is delegated by rows is never more than what was bonded less what was unbonded.
pub proof fn lemma_delegated_within_bonded(rows: Seq<Row>, to_deduct: u64, slashes: Seq<Slash>)
    ensures
        deduct(rows, to_deduct, slashes) matches Some(deduction) ==> {
            &&& 0 <= deduction.amount
            &&& deduction.amount <= if raw_total(rows) > to_deduct {
                raw_total(rows) - to_deduct
            } else {
                0
            }
            &&& deduction.to_deduct == if raw_total(rows) < to_deduct {
                to_deduct - raw_total(rows)
            } else {
                0
            }
        },
    decreases rows.len(),
{
    if rows.len() > 0 {
        lemma_delegated_within_bonded(rows.drop_last(), to_deduct, slashes);
        if let Some(before) = deduct(rows.drop_last(), to_deduct, slashes) {
            if before.to_deduct <= rows.last().2 {
                lemma_slashing_never_adds(
                    slashes,
                    (rows.last().2 - before.to_deduct) as u64,
                    rows.last().0,
                    None,
                );
            }
        }
    }
}

/// Without slashes, exactly what was bonded less what was unbonded is delegated.
pub proof fn lemma_delegated_unslashed(rows: Seq<Row>, to_deduct: u64)
    ensures
        deduct(rows, to_deduct, seq![]) is Some,
        deduct(rows, to_deduct, seq![])->0.amount == if raw_total(rows) > to_deduct {
            raw_total(rows) - to_deduct
        } else {
            0
        },
    decreases rows.len(),
{
    lemma_delegated_within_bonded(rows, to_deduct, seq![]);
    if rows.len() > 0 {
        lemma_delegated_unslashed(rows.drop_last(), to_deduct);
        lemma_delegated_within_bonded(rows.drop_last(), to_deduct, seq![]);
    }
}

/// A ballot that is rejected counts for nothing, wherever it stands among the others.
pub proof fn lemma_rejected_ballots_do_not_count(
    before: Seq<Ballot>,
    rejected: Ballot,
    after: Seq<Ballot>,
    proposal_hash: crate::validity_predicate::Hash,
    validators: Seq<String>,
)
    requires
        rejected.vote.proposal_hash.0@ != proposal_hash.0@ || !rejected.vote.signature_valid,
    ensures
        counted(before + seq![rejected] + after, proposal_hash, validators) == counted(
            before + after,
            proposal_hash,
            validators,
        ),
    decreases after.len(),
{
    let with = before + seq![rejected] + after;
    if after.len() == 0 {
        assert(with.drop_last() =~= before + after);
    } else {
        assert(with.drop_last() =~= before + seq![rejected] + after.drop_last());
        assert((before + after).drop_last() =~= before + after.drop_last());
        lemma_rejected_ballots_do_not_count(
            before,
            rejected,
            after.drop_last(),
            proposal_hash,
            validators,
        );
    }
}

/// Only validators that voted for the proposal, in a ballot that was not rejected, are
/// counted with their stake.
pub proof fn lemma_only_validators_count_with_stake(
    ballots: Seq<Ballot>,
    proposal_hash: crate::validity_predicate::Hash,
    validators: Seq<String>,
    address: Seq<char>,
)
    requires
        counted(ballots, proposal_hash, validators).yay_validators.contains_key(address),
    ensures
        listed(validators, address),
        exists|i: int|
            0 <= i < ballots.len() && (#[trigger] ballots[i]).vote.address@ == address && route(
                ballots[i].vote,
                proposal_hash,
                validators,
            ) is Validator && counted(
                ballots,
                proposal_hash,
                validators,
            ).yay_validators[address] == ballots[i].stake,
    decreases ballots.len(),
{
    let last = ballots.last();
    if route(last.vote, proposal_hash, validators) is Validator && last.vote.address@ == address {
        assert(ballots[ballots.len() - 1].vote.address@ == address);
    } else {
        let rest = ballots.drop_last();
        lemma_only_validators_count_with_stake(rest, proposal_hash, validators, address);
        let i = choose|i: int|
            0 <= i < rest.len() && (#[trigger] rest[i]).vote.address@ == address && route(
                rest[i].vote,
                proposal_hash,
                validators,
            ) is Validator && counted(
                rest,
                proposal_hash,
                validators,
            ).yay_validators[address] == rest[i].stake;
        assert(ballots[i] == rest[i]);
    }
}

/// The delegations of a voter leave the powers of others as they were.
proof fn lemma_delegations_of_others(
    map: Map<Seq<char>, Map<Seq<char>, u128>>,
    voter: Seq<char>,
    delegations: Seq<Delegation>,
    other: Seq<char>,
)
    requires
        other != voter,
    ensures
        with_delegations(map, voter, delegations).contains_key(other) == map.contains_key(other),
        map.contains_key(other) ==> with_delegations(map, voter, delegations)[other]
            == map[other],
    decreases delegations.len(),
{
    if delegations.len() > 0 {
        lemma_delegations_of_others(map, voter, delegations.drop_last(), other);
    }
}

/// A ballot leaves what is counted of other voters as it was.
pub proof fn lemma_ballots_are_independent(
    votes: VotesView,
    ballot: Ballot,
    proposal_hash: crate::validity_predicate::Hash,
    validators: Seq<String>,
    other: Seq<char>,
)
    requires
        other != ballot.vote.address@,
    ensures
        ({
            let after = with_ballot(votes, ballot, proposal_hash, validators);
            &&& after.yay_validators.contains_key(other) == votes.yay_validators.contains_key(other)
            &&& votes.yay_validators.contains_key(other) ==> after.yay_validators[other]
                == votes.yay_validators[other]
            &&& after.yay_delegators.contains_key(other) == votes.yay_delegators.contains_key(other)
            &&& votes.yay_delegators.contains_key(other) ==> after.yay_delegators[other]
                == votes.yay_delegators[other]
            &&& after.nay_delegators.contains_key(other) == votes.nay_delegators.contains_key(other)
            &&& votes.nay_delegators.contains_key(other) ==> after.nay_delegators[other]
                == votes.nay_delegators[other]
        }),
{
    let voter = ballot.vote.address@;
    lemma_delegations_of_others(votes.yay_delegators, voter, ballot.delegations@, other);
    lemma_delegations_of_others(votes.nay_delegators, voter, ballot.delegations@, other);
}

/// Delegations to other validators leave what a voter has with a validator as it was.
proof fn lemma_delegations_to_others(
    map: Map<Seq<char>, Map<Seq<char>, u128>>,
    voter: Seq<char>,
    delegations: Seq<Delegation>,
    validator: Seq<char>,
)
    requires
        map.contains_key(voter),
        map[voter].contains_key(validator),
        forall|j: int|
            0 <= j < delegations.len() ==> (#[trigger] delegations[j]).validator@ != validator,
    ensures
        with_delegations(map, voter, delegations).contains_key(voter),
        with_delegations(map, voter, delegations)[voter].contains_key(validator),
        with_delegations(map, voter, delegations)[voter][validator] == map[voter][validator],
    decreases delegations.len(),
{
    if delegations.len() > 0 {
        let rest = delegations.drop_last();
        assert forall|j: int| 0 <= j < rest.len() implies (#[trigger] rest[j]).validator@
            != validator by {
            assert(rest[j] == delegations[j]);
        }
        assert(delegations[delegations.len() - 1].validator@ != validator);
        lemma_delegations_to_others(map, voter, rest, validator);
    }
}

/// Every delegation of a voter is counted with what is delegated by it, where the voter has
/// no later one to the same validator.
pub proof fn lemma_every_delegation_counts(
    map: Map<Seq<char>, Map<Seq<char>, u128>>,
    voter: Seq<char>,
    delegations: Seq<Delegation>,
    i: int,
)
    requires
        0 <= i < delegations.len(),
        forall|j: int|
            i < j < delegations.len() ==> (#[trigger] delegations[j]).validator@
                != delegations[i].validator@,
    ensures
        with_delegations(map, voter, delegations).contains_key(voter),
        with_delegations(map, voter, delegations)[voter].contains_key(
            delegations[i].validator@,
        ),
        with_delegations(map, voter, delegations)[voter][delegations[i].validator@] == delegated(
            delegations[i].bond,
            slashes_of(delegations[i].slashes),
        ) as u128,
    decreases delegations.len(),
{
    if i < delegations.len() - 1 {
        let rest = delegations.drop_last();
        assert forall|j: int| i < j < rest.len() implies (#[trigger] rest[j]).validator@
            != rest[i].validator@ by {
            assert(rest[j] == delegations[j]);
        }
        assert(delegations[delegations.len() - 1].validator@ != delegations[i].validator@);
        lemma_every_delegation_counts(map, voter, rest, i);
    }
}

/// Votes against the proposal leave the powers for it as they were, and votes for it those
/// against it.
pub proof fn lemma_sides_are_apart(
    votes: VotesView,
    ballot: Ballot,
    proposal_hash: crate::validity_predicate::Hash,
    validators: Seq<String>,
)
    ensures
        ({
            let after = with_ballot(votes, ballot, proposal_hash, validators);
            &&& !ballot.vote.yay ==> after.yay_validators == votes.yay_validators
                && after.yay_delegators == votes.yay_delegators
            &&& ballot.vote.yay ==> after.nay_delegators == votes.nay_delegators
        }),
{
}

/// Every validator that is listed, wherever it stands in the list, and casts a ballot for the
/// proposal with the proposal's hash and a valid signature counts with the stake of its last
/// such ballot.
pub proof fn lemma_every_validator_counts(
    ballots: Seq<Ballot>,
    proposal_hash: crate::validity_predicate::Hash,
    validators: Seq<String>,
    i: int,
    k: int,
)
    requires
        0 <= i < ballots.len(),
        0 <= k < validators.len(),
        validators[k]@ == ballots[i].vote.address@,
        ballots[i].vote.yay,
        ballots[i].vote.signature_valid,
        ballots[i].vote.proposal_hash.0@ == proposal_hash.0@,
        forall|j: int|
            i < j < ballots.len() && (#[trigger] ballots[j]).vote.address@
                == ballots[i].vote.address@ && ballots[j].vote.yay ==> !(
            ballots[j].vote.signature_valid && ballots[j].vote.proposal_hash.0@
                == proposal_hash.0@),
    ensures
        counted(ballots, proposal_hash, validators).yay_validators.contains_key(
            ballots[i].vote.address@,
        ),
        counted(ballots, proposal_hash, validators).yay_validators[ballots[i].vote.address@]
            == ballots[i].stake,
    decreases ballots.len(),
{
    let address = ballots[i].vote.address@;
    assert(listed(validators, address));
    if i < ballots.len() - 1 {
        let rest = ballots.drop_last();
        let last = ballots[ballots.len() - 1];
        assert(rest[i] == ballots[i]);
        assert forall|j: int|
            i < j < rest.len() && (#[trigger] rest[j]).vote.address@ == rest[i].vote.address@
                && rest[j].vote.yay implies !(rest[j].vote.signature_valid
            && rest[j].vote.proposal_hash.0@ == proposal_hash.0@) by {
            assert(rest[j] == ballots[j]);
        }
        lemma_every_validator_counts(rest, proposal_hash, validators, i, k);
        assert(last == ballots.last());
    }
}

/// How the votes are counted depends on who the validators are, and not on the order in which
/// they are listed or on how often.
pub proof fn lemma_order_of_validators_does_not_matter(
    ballots: Seq<Ballot>,
    proposal_hash: crate::validity_predicate::Hash,
    a: Seq<String>,
    b: Seq<String>,
)
    requires
        forall|i: int| 0 <= i < a.len() ==> is_among(b, (#[trigger] a[i])@),
        forall|i: int| 0 <= i < b.len() ==> is_among(a, (#[trigger] b[i])@),
    ensures
        counted(ballots, proposal_hash, a) == counted(ballots, proposal_hash, b),
    decreases ballots.len(),
{
    if ballots.len() > 0 {
        lemma_order_of_validators_does_not_matter(ballots.drop_last(), proposal_hash, a, b);
        let address = ballots.last().vote.address@;
        if listed(a, address) {
            let i = choose|i: int| 0 <= i < a.len() && (#[trigger] a[i])@ == address;
            assert(is_among(b, a[i]@));
            let j = choose|j: int| 0 <= j < b.len() && (#[trigger] b[j])@ == address;
            assert(b[j]@ == address);
        }
        if listed(b, address) {
            let i = choose|i: int| 0 <= i < b.len() && (#[trigger] b[i])@ == address;
            assert(is_among(a, b[i]@));
            let j = choose|j: int| 0 <= j < a.len() && (#[trigger] a[j])@ == address;
            assert(a[j]@ == address);
        }
    }
}

/// Whether a text is among others.
pub open spec fn is_among(texts: Seq<String>, text: Seq<char>) -> bool {
    exists|i: int| 0 <= i < texts.len() && (#[trigger] texts[i])@ == text
}

/// The powers of the delegators on one side.
pub open spec fn side(votes: VotesView, yay: bool) -> Map<Seq<char>, Map<Seq<char>, u128>> {
    if yay {
        votes.yay_delegators
    } else {
        votes.nay_delegators
    }
}

/// Every delegator whose ballot has the proposal's hash and a valid signature, and is not
/// counted with a stake, counts on the side of the vote with what is delegated to each
/// validator, until a later such delegation of the same voter to that validator, in the same
/// ballot or in another on that side, takes its place.
pub proof fn lemma_every_delegator_counts(
    ballots: Seq<Ballot>,
    proposal_hash: crate::validity_predicate::Hash,
    validators: Seq<String>,
    i: int,
    d: int,
)
    requires
        0 <= i < ballots.len(),
        ballots[i].vote.signature_valid,
        ballots[i].vote.proposal_hash.0@ == proposal_hash.0@,
        !ballots[i].vote.yay || !is_among(validators, ballots[i].vote.address@),
        ballots[i].delegator,
        0 <= d < ballots[i].delegations@.len(),
        forall|e: int|
            d < e < ballots[i].delegations@.len() ==> (
            #[trigger] ballots[i].delegations@[e]).validator@
                != ballots[i].delegations@[d].validator@,
        forall|j: int, e: int|
            i < j < ballots.len() && 0 <= e < ballots[j].delegations@.len()
                && ballots[j].delegator && ballots[j].vote.signature_valid
                && ballots[j].vote.proposal_hash.0@ == proposal_hash.0@
                && ballots[j].vote.address@ == ballots[i].vote.address@ && ballots[j].vote.yay
                == ballots[i].vote.yay ==> (#[trigger] ballots[j].delegations@[e]).validator@
                != ballots[i].delegations@[d].validator@,
    ensures
        ({
            let powers = side(
                counted(ballots, proposal_hash, validators),
                ballots[i].vote.yay,
            );
            let delegation = ballots[i].delegations@[d];
            &&& powers.contains_key(ballots[i].vote.address@)
            &&& powers[ballots[i].vote.address@].contains_key(delegation.validator@)
            &&& powers[ballots[i].vote.address@][delegation.validator@] == delegated(
                delegation.bond,
                slashes_of(delegation.slashes),
            ) as u128
        }),
    decreases ballots.len(),
{
    let address = ballots[i].vote.address@;
    let rest = ballots.drop_last();
    let before = counted(rest, proposal_hash, validators);
    let last = ballots[ballots.len() - 1];
    assert(last == ballots.last());
    if i < ballots.len() - 1 {
        assert(rest[i] == ballots[i]);
        assert forall|j: int, e: int|
            i < j < rest.len() && 0 <= e < rest[j].delegations@.len() && rest[j].delegator
                && rest[j].vote.signature_valid && rest[j].vote.proposal_hash.0@
                == proposal_hash.0@ && rest[j].vote.address@ == rest[i].vote.address@
                && rest[j].vote.yay == rest[i].vote.yay implies (
        #[trigger] rest[j].delegations@[e]).validator@ != rest[i].delegations@[d].validator@ by {
            assert(rest[j] == ballots[j]);
            assert(ballots[j].delegations@[e].validator@ != ballots[i].delegations@[d].validator@);
        }
        lemma_every_delegator_counts(rest, proposal_hash, validators, i, d);
        if last.vote.address@ != address {
            lemma_ballots_are_independent(before, last, proposal_hash, validators, address);
        } else if last.vote.yay != ballots[i].vote.yay {
            lemma_sides_are_apart(before, last, proposal_hash, validators);
        } else if route(last.vote, proposal_hash, validators) is Delegator && last.delegator {
            let validator = ballots[i].delegations@[d].validator@;
            assert forall|e: int| 0 <= e < last.delegations@.len() implies (
            #[trigger] last.delegations@[e]).validator@ != validator by {
                assert(ballots[ballots.len() - 1].delegations@[e].validator@ != validator);
            }
            lemma_delegations_to_others(
                side(before, last.vote.yay),
                address,
                last.delegations@,
                validator,
            );
        }
    } else {
        if listed(validators, address) {
            let k = choose|k: int| 0 <= k < validators.len() && (#[trigger] validators[k])@
                == address;
            assert(validators[k]@ == address);
        }
        lemma_every_delegation_counts(
            side(before, last.vote.yay),
            address,
            last.delegations@,
            d,
        );
    }
}

/// A power among those of delegations is that of one of them, or was there before.
proof fn lemma_powers_come_from_delegations(
    map: Map<Seq<char>, Map<Seq<char>, u128>>,
    voter: Seq<char>,
    delegations: Seq<Delegation>,
    delegator: Seq<char>,
    validator: Seq<char>,
)
    requires
        with_delegations(map, voter, delegations).contains_key(delegator),
        with_delegations(map, voter, delegations)[delegator].contains_key(validator),
    ensures
        ({
            let power = with_delegations(map, voter, delegations)[delegator][validator];
            ||| map.contains_key(delegator) && map[delegator].contains_key(validator)
                && map[delegator][validator] == power
            ||| delegator == voter && exists|d: int|
                0 <= d < delegations.len() && (#[trigger] delegations[d]).validator@ == validator
                    && power == delegated(
                    delegations[d].bond,
                    slashes_of(delegations[d].slashes),
                ) as u128
        }),
    decreases delegations.len(),
{
    if delegations.len() > 0 {
        let last = delegations[delegations.len() - 1];
        let rest = delegations.drop_last();
        if delegator == voter && last.validator@ == validator {
            assert(delegations.last() == last);
        } else {
            lemma_powers_come_from_delegations(map, voter, rest, delegator, validator);
            let power = with_delegations(map, voter, rest)[delegator][validator];
            if exists|d: int|
                0 <= d < rest.len() && (#[trigger] rest[d]).validator@ == validator && power
                    == delegated(rest[d].bond, slashes_of(rest[d].slashes)) as u128 {
                let d = choose|d: int|
                    0 <= d < rest.len() && (#[trigger] rest[d]).validator@ == validator && power
                        == delegated(rest[d].bond, slashes_of(rest[d].slashes)) as u128;
                assert(delegations[d] == rest[d]);
            }
        }
    }
}

/// Whether a ballot counts on a side with a power for a validator: it has the proposal's hash
/// and a valid signature, is on that side, is that of a delegator, and has a delegation to
/// the validator by which that much is delegated.
pub open spec fn gives_power(
    ballot: Ballot,
    proposal_hash: crate::validity_predicate::Hash,
    yay: bool,
    delegator: Seq<char>,
    validator: Seq<char>,
    power: u128,
) -> bool {
    &&& ballot.vote.signature_valid
    &&& ballot.vote.proposal_hash.0@ == proposal_hash.0@
    &&& ballot.vote.yay == yay
    &&& ballot.vote.address@ == delegator
    &&& ballot.delegator
    &&& exists|d: int|
        0 <= d < ballot.delegations@.len() && (#[trigger] ballot.delegations@[d]).validator@
            == validator && power == delegated(
            ballot.delegations@[d].bond,
            slashes_of(ballot.delegations@[d].slashes),
        ) as u128
}

/// Every power that is counted for a delegator comes from one of the ballots, and on yay's
/// side from none of a listed validator.
pub proof fn lemma_only_delegations_count(
    ballots: Seq<Ballot>,
    proposal_hash: crate::validity_predicate::Hash,
    validators: Seq<String>,
    yay: bool,
    delegator: Seq<char>,
    validator: Seq<char>,
)
    requires
        side(counted(ballots, proposal_hash, validators), yay).contains_key(delegator),
        side(counted(ballots, proposal_hash, validators), yay)[delegator].contains_key(validator),
    ensures
        exists|i: int|
            0 <= i < ballots.len() && gives_power(
                #[trigger] ballots[i],
                proposal_hash,
                yay,
                delegator,
                validator,
                side(counted(ballots, proposal_hash, validators), yay)[delegator][validator],
            ),
        yay ==> !is_among(validators, delegator),
    decreases ballots.len(),
{
    if ballots.len() > 0 {
        let rest = ballots.drop_last();
        let last = ballots[ballots.len() - 1];
        let before = side(counted(rest, proposal_hash, validators), yay);
        let power = side(counted(ballots, proposal_hash, validators), yay)[delegator][validator];
        let r = route(last.vote, proposal_hash, validators);
        assert(last == ballots.last());
        let mut from_last = false;
        if r is Delegator && last.delegator && last.vote.yay == yay {
            lemma_powers_come_from_delegations(
                before,
                last.vote.address@,
                last.delegations@,
                delegator,
                validator,
            );
            if !(before.contains_key(delegator) && before[delegator].contains_key(validator)
                && before[delegator][validator] == power) {
                from_last = true;
                assert(gives_power(last, proposal_hash, yay, delegator, validator, power));
                if yay && is_among(validators, delegator) {
                    let k = choose|k: int| 0 <= k < validators.len() && (#[trigger] validators[k])@
                        == delegator;
                    assert(validators[k]@ == delegator);
                    assert(listed(validators, delegator));
                }
            }
        }
        if !from_last {
            lemma_only_delegations_count(
                rest,
                proposal_hash,
                validators,
                yay,
                delegator,
                validator,
            );
            let i = choose|i: int|
                0 <= i < rest.len() && gives_power(
                    #[trigger] rest[i],
                    proposal_hash,
                    yay,
                    delegator,
                    validator,
                    before[delegator][validator],
                );
            assert(ballots[i] == rest[i]);
        }
    } else {
        assert(counted(ballots, proposal_hash, validators) == no_votes());
    }
}

/// Without ballots nobody counts.
pub proof fn lemma_nobody_counts_without_ballots(
    proposal_hash: crate::validity_predicate::Hash,
    validators: Seq<String>,
)
    ensures
        counted(Seq::empty(), proposal_hash, validators).yay_validators =~= Map::empty(),
        counted(Seq::empty(), proposal_hash, validators).yay_delegators =~= Map::empty(),
        counted(Seq::empty(), proposal_hash, validators).nay_delegators =~= Map::empty(),
{
}

/// Amounts are deducted from older rows first: what the older rows leave to be deducted is
/// deducted from the newer ones, and what both delegate adds up.
pub proof fn lemma_deductions_join(
    older: Seq<Row>,
    newer: Seq<Row>,
    to_deduct: u64,
    slashes: Seq<Slash>,
)
    ensures
        deduct(older + newer, to_deduct, slashes) == match deduct(older, to_deduct, slashes) {
            Some(first) => match deduct(newer, first.to_deduct, slashes) {
                Some(second) => Some(
                    Deduction {
                        to_deduct: second.to_deduct,
                        amount: first.amount + second.amount,
                    },
                ),
                None => None,
            },
            None => None,
        },
    decreases newer.len(),
{
    if newer.len() == 0 {
        assert(older + newer =~= older);
    } else {
        assert((older + newer).drop_last() =~= older + newer.drop_last());
        lemma_deductions_join(older, newer.drop_last(), to_deduct, slashes);
    }
}

/// From one row the amount is deducted as far as it goes, and what is left of the row then is
/// delegated, less the slashes since its epoch; nothing is where the row is used up.
pub proof fn lemma_deduction_from_one_row(row: Row, to_deduct: u64, slashes: Seq<Slash>)
    ensures
        row.2 < to_deduct ==> deduct(seq![row], to_deduct, slashes) is Some && deduct(
            seq![row],
            to_deduct,
            slashes,
        )->0.amount == 0 && deduct(seq![row], to_deduct, slashes)->0.to_deduct + row.2
            == to_deduct,
        row.2 >= to_deduct ==> {
            let left = after_slashes(slashes, (row.2 - to_deduct) as u64, row.0, None);
            let deduction = deduct(seq![row], to_deduct, slashes);
            &&& deduction is Some == left is Some
            &&& left is Some ==> deduction->0.amount == left->0 && deduction->0.to_deduct == 0
        },
{
    assert(seq![row].drop_last() =~= Seq::<Row>::empty());
    assert(deduct(Seq::<Row>::empty(), to_deduct, slashes) == Some(
        Deduction { to_deduct, amount: 0 },
    ));
}

/// Without slashes a bond delegates what was bonded less what was unbonded, and never more
/// with them. That is in range exactly where it is an amount.
pub proof fn lemma_delegated_by_a_bond(bond: Bond, slashes: Seq<Slash>)
    ensures
        delegated(bond, seq![]) == if bonded_sum(bond.pos_deltas@) > bond.neg_deltas {
            bonded_sum(bond.pos_deltas@) - bond.neg_deltas
        } else {
            0
        },
        delegated_in_range(bond, seq![]) <==> bonded_sum(bond.pos_deltas@) - bond.neg_deltas
            < 0x1_0000_0000_0000_0000,
        delegated_in_range(bond, slashes) ==> 0 <= delegated(bond, slashes) <= delegated(
            bond,
            seq![],
        ),
        delegated_in_range(bond, slashes) <==> {
            let deduction = deduct(bond_rows(bond), bond.neg_deltas, slashes);
            deduction is Some && deduction->0.amount < 0x1_0000_0000_0000_0000
        },
        delegated_in_range(bond, slashes) ==> Some(delegated(bond, slashes)) == match deduct(
            bond_rows(bond),
            bond.neg_deltas,
            slashes,
        ) {
            Some(deduction) => Some(deduction.amount),
            None => None,
        },
{
    lemma_bond_rows_add_up(bond);
    lemma_delegated_unslashed(bond_rows(bond), bond.neg_deltas);
    lemma_delegated_within_bonded(bond_rows(bond), bond.neg_deltas, slashes);
}

/// Votes can be counted exactly where what every delegation is worth that is read is an
/// amount: those of delegators whose ballots have the proposal's hash and a valid signature
/// and are not counted with a stake.
pub proof fn lemma_range_of_ballots(
    ballots: Seq<Ballot>,
    proposal_hash: crate::validity_predicate::Hash,
    validators: Seq<String>,
)
    ensures
        ballots_in_range(ballots, proposal_hash, validators) <==> forall|i: int, d: int|
            0 <= i < ballots.len() && 0 <= d < ballots[i].delegations@.len()
                && ballots[i].vote.signature_valid && ballots[i].vote.proposal_hash.0@
                == proposal_hash.0@ && ballots[i].delegator && (!ballots[i].vote.yay || !is_among(
                validators,
                ballots[i].vote.address@,
            )) ==> delegated_in_range(
                (#[trigger] ballots[i].delegations@[d]).bond,
                slashes_of(ballots[i].delegations@[d].slashes),
            ),
{
    assert forall|address: Seq<char>| #[trigger] listed(validators, address) == is_among(
        validators,
        address,
    ) by {
        if listed(validators, address) {
            let k = choose|k: int| 0 <= k < validators.len() && (#[trigger] validators[k])@
                == address;
            assert(validators[k]@ == address);
        }
        if is_among(validators, address) {
            let k = choose|k: int| 0 <= k < validators.len() && (#[trigger] validators[k])@
                == address;
            assert(validators[k]@ == address);
        }
    }
    if ballots_in_range(ballots, proposal_hash, validators) {
        assert forall|i: int, d: int|
            0 <= i < ballots.len() && 0 <= d < ballots[i].delegations@.len()
                && ballots[i].vote.signature_valid && ballots[i].vote.proposal_hash.0@
                == proposal_hash.0@ && ballots[i].delegator && (!ballots[i].vote.yay || !is_among(
                validators,
                ballots[i].vote.address@,
            )) implies delegated_in_range(
            (#[trigger] ballots[i].delegations@[d]).bond,
            slashes_of(ballots[i].delegations@[d].slashes),
        ) by {
            assert(ballot_in_range(ballots[i], proposal_hash, validators));
            assert(listed(validators, ballots[i].vote.address@) == is_among(
                validators,
                ballots[i].vote.address@,
            ));
            assert(delegations_in_range(ballots[i].delegations@));
        }
    } else {
        let i = choose|i: int|
            0 <= i < ballots.len() && !ballot_in_range(
                #[trigger] ballots[i],
                proposal_hash,
                validators,
            );
        assert(listed(validators, ballots[i].vote.address@) == is_among(
            validators,
            ballots[i].vote.address@,
        ));
        let d = choose|d: int|
            0 <= d < ballots[i].delegations@.len() && !delegated_in_range(
                (#[trigger] ballots[i].delegations@[d]).bond,
                slashes_of(ballots[i].delegations@[d].slashes),
            );
        assert(!delegated_in_range(
            ballots[i].delegations@[d].bond,
            slashes_of(ballots[i].delegations@[d].slashes),
        ));
    }
}

/// The powers that were counted are in the content of the votes, side by side.
pub proof fn lemma_content_of_votes(votes: Votes, voter: Seq<char>)
    ensures
        votes@.yay_validators == votes.yay_validators@,
        votes@.yay_delegators.contains_key(voter) == votes.yay_delegators@.contains_key(voter),
        votes.yay_delegators@.contains_key(voter) ==> votes@.yay_delegators[voter]
            == votes.yay_delegators@[voter]@,
        votes@.nay_delegators.contains_key(voter) == votes.nay_delegators@.contains_key(voter),
        votes.nay_delegators@.contains_key(voter) ==> votes@.nay_delegators[voter]
            == votes.nay_delegators@[voter]@,
{
}

} // verus!
