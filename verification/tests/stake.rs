use ledger_client::params::{
    parameter_keys, query_protocol_parameters, ParameterKey, ProtocolParameters,
};
use ledger_client::report::{Line, Rate, Report};
use ledger_client::slashing::Slash;
use ledger_client::stake::{
    query_bonded_stake, query_commission_rate, query_slashes, Commission, SlashesEntry,
    SlashesFound, StakeTarget, WeightedValidator,
};

fn text(s: &str) -> String {
    s.to_string()
}

fn rate(mantissa: i128, scale: u32) -> Rate {
    Rate { mantissa, scale }
}

fn validator(address: &str, bonded_stake: u64) -> WeightedValidator {
    WeightedValidator { address: text(address), bonded_stake }
}

fn stake_of(address: &str, stake: Option<i128>) -> Vec<Line> {
    let target = StakeTarget::Validator { address: text(address), stake };
    query_bonded_stake(&target, &vec![validator("a", 5)], &vec![validator("b", 6)], 11).lines
}

fn total() -> Line {
    Line::out().text("Total bonded stake: ").number(11)
}

#[test]
fn the_stake_of_a_validator_is_reported() {
    let line = |address: &str, state: &str, stake: u64| {
        Line::out()
            .text("Validator ")
            .text(address)
            .text(" is ")
            .text(state)
            .text(", bonded stake: ")
            .number(stake)
    };
    assert_eq!(stake_of("a", Some(5)), vec![line("a", "active", 5), total()]);
    assert_eq!(stake_of("b", Some(6)), vec![line("b", "inactive", 6), total()]);
    assert_eq!(stake_of("a", Some(6)), vec![line("a", "inactive", 6), total()]);
    assert_eq!(
        stake_of("c", None),
        vec![Line::out().text("No bonded stake found for ").text("c"), total()]
    );
}

#[test]
fn the_stakes_of_all_validators_are_reported() {
    let row = |address: &str, stake: u64| {
        Line::out().text("  ").text(address).text(": ").number(stake)
    };
    let active = vec![validator("a", 5), validator("c", 0)];
    let report = query_bonded_stake(&StakeTarget::All, &active, &vec![validator("b", 6)], 11);
    assert_eq!(
        report.lines,
        vec![
            Line::out().text("Active validators:"),
            row("a", 5),
            row("c", 0),
            Line::out().text("Inactive validators:"),
            row("b", 6),
            total(),
        ]
    );
    let report = query_bonded_stake(&StakeTarget::All, &vec![], &vec![], 11);
    assert_eq!(report.lines, vec![Line::out().text("Active validators:"), total()]);
}

#[test]
fn commission_rates_are_reported() {
    let known = Commission::Rate { rate: Some(rate(5, 2)), max_change: rate(1, 2) };
    assert_eq!(
        query_commission_rate(&text("v"), 4, known),
        Report::of(
            Line::out()
                .text("Validator ")
                .text("v")
                .text(" commission rate: ")
                .rate(rate(5, 2))
                .text(", max change per epoch: ")
                .rate(rate(1, 2))
        )
    );
    let unknown = Commission::Rate { rate: None, max_change: rate(1, 2) };
    assert_eq!(
        query_commission_rate(&text("v"), 4, unknown),
        Report::of(
            Line::out()
                .text("No commission rate found for ")
                .text("v")
                .text(" in epoch ")
                .number(4)
        )
    );
    assert_eq!(
        query_commission_rate(&text("v"), 4, Commission::NotValidator),
        Report::of(Line::out().text("Cannot find validator with address ").text("v"))
    );
}

fn slash(epoch: u64) -> Slash {
    Slash { epoch, block_height: 40, kind: text("Duplicate vote"), rate: rate(1, 3) }
}

#[test]
fn the_slashes_of_a_validator_are_reported() {
    let line = |epoch: u64| {
        Line::out()
            .text("Slash epoch ")
            .number(epoch)
            .text(", rate ")
            .rate(rate(1, 3))
            .text(", type ")
            .text("Duplicate vote")
    };
    let found =
        SlashesFound::Validator { address: text("v"), slashes: Some(vec![slash(2), slash(1)]) };
    assert_eq!(query_slashes(&found).lines, vec![line(2), line(1)]);
    let found = SlashesFound::Validator { address: text("v"), slashes: None };
    assert_eq!(
        query_slashes(&found),
        Report::of(Line::out().text("No slashes found for ").text("v"))
    );
}

#[test]
fn the_slashes_of_all_validators_are_reported() {
    let entry = |key: &str, validator: Option<&str>| SlashesEntry {
        key: text(key),
        validator: validator.map(text),
        slashes: vec![slash(2)],
    };
    let found = SlashesFound::All {
        entries: Some(vec![entry("slashes/v", Some("v")), entry("stray", None)]),
    };
    assert_eq!(
        query_slashes(&found).lines,
        vec![
            Line::out()
                .text("Slash epoch ")
                .number(2)
                .text(", block height ")
                .number(40)
                .text(", rate ")
                .rate(rate(1, 3))
                .text(", type ")
                .text("Duplicate vote")
                .text(", validator ")
                .text("v"),
            Line::error().text("Unexpected slashes key ").text("stray"),
        ]
    );
    assert_eq!(
        query_slashes(&SlashesFound::All { entries: None }),
        Report::of(Line::out().text("No slashes found"))
    );
}

#[test]
fn parameters_are_asked_for_in_order() {
    assert_eq!(
        parameter_keys(),
        vec![
            ParameterKey::Governance,
            ParameterKey::EpochDuration,
            ParameterKey::MaxExpectedTimePerBlock,
            ParameterKey::TxWhitelist,
            ParameterKey::TxWhitelist,
            ParameterKey::PosParams,
        ]
    );
}

#[test]
fn parameters_are_reported() {
    let parameters = ProtocolParameters {
        governance: text("all of them"),
        min_duration: text("60"),
        min_num_of_blocks: 1,
        max_block_duration: 2,
        vp_whitelist: vec![text("vp")],
        tx_whitelist: vec![],
        block_proposer_reward: rate(125, 3),
        block_vote_reward: rate(1, 1),
        duplicate_vote_min_slash_rate: rate(2, 3),
        light_client_attack_min_slash_rate: rate(3, 3),
        max_validator_slots: 3,
        pipeline_len: 4,
        unbonding_len: 5,
        tm_votes_per_token: rate(1, 0),
    };
    assert_eq!(
        query_protocol_parameters(&parameters).lines,
        vec![
            Line::out().text("Governance Parameters\n ").text("all of them"),
            Line::out().text("Protocol parameters"),
            Line::out().text("    Min. epoch duration: ").text("60"),
            Line::out().text("    Min. number of blocks: ").number(1),
            Line::out().text("    Max. block duration: ").number(2),
            Line::out().text("    VP whitelist: ").list(&vec![text("vp")]),
            Line::out().text("    Transactions whitelist: ").list(&vec![]),
            Line::out().text("PoS parameters"),
            Line::out().text("    Block proposer reward: ").rate(rate(125, 3)),
            Line::out().text("    Block vote reward: ").rate(rate(1, 1)),
            Line::out().text("    Duplicate vote minimum slash rate: ").rate(rate(2, 3)),
            Line::out().text("    Light client attack minimum slash rate: ").rate(rate(3, 3)),
            Line::out().text("    Max. validator slots: ").number(3),
            Line::out().text("    Pipeline length: ").number(4),
            Line::out().text("    Unbonding length: ").number(5),
            Line::out().text("    Votes per token: ").rate(rate(1, 0)),
        ]
    );
}
