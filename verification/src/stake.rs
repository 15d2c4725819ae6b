//! Reports of validators' stakes, commission rates and slashes.

use vstd::prelude::*;

use crate::report::{
    complained, error, out, printed, Line, LineView, PieceView, Rate, Report,
};
use crate::slashing::Slash;

verus! {

/// A validator with its stake.
#[derive(Debug, PartialEq, Eq)]
pub struct WeightedValidator {
    pub address: String,
    pub bonded_stake: u64,
}

/// Whose stake is asked for.
#[derive(Debug, PartialEq, Eq)]
pub enum StakeTarget {
    /// That of one validator: the sum of its stake changes up to the epoch, if any are
    /// stored.
    Validator { address: String, stake: Option<i128> },
    /// That of every validator.
    All,
}

/// Whether a set holds a validator with a stake.
pub open spec fn holds(
    set: Seq<WeightedValidator>,
    address: Seq<char>,
    bonded_stake: u64,
) -> bool {
    exists|i: int|
        0 <= i < set.len() && (#[trigger] set[i]).address@ == address && set[i].bonded_stake
            == bonded_stake
}

/// The lines of the validators of a set.
pub open spec fn validator_lines(set: Seq<WeightedValidator>) -> Seq<LineView> {
    set.map_values(
        |v: WeightedValidator|
            out().text("  "@).text(v.address@).text(": "@).number(v.bonded_stake),
    )
}

/// The report of the stakes asked for.
pub open spec fn stake_report(
    target: StakeTarget,
    active: Seq<WeightedValidator>,
    inactive: Seq<WeightedValidator>,
) -> Seq<LineView> {
    match target {
        StakeTarget::Validator { address, stake: Some(stake) } => seq![
            out().text("Validator "@).text(address@).text(" is "@).text(
                if holds(active, address@, stake as u64) {
                    "active"@
                } else {
                    "inactive"@
                },
            ).text(", bonded stake: "@).number(stake as u64),
        ],
        StakeTarget::Validator { address, stake: None } => seq![
            out().text("No bonded stake found for "@).text(address@),
        ],
        StakeTarget::All => seq![out().text("Active validators:"@)] + validator_lines(active)
            + if inactive.len() == 0 {
            seq![]
        } else {
            seq![out().text("Inactive validators:"@)] + validator_lines(inactive)
        },
    }
}

/// Whether a stake is an amount.
pub open spec fn is_amount(stake: i128) -> bool {
    0 <= stake <= u64::MAX
}

/// Whether a set holds a validator with a stake.
fn set_holds(set: &Vec<WeightedValidator>, address: &String, bonded_stake: u64) -> (yes: bool)
    ensures
        yes == holds(set@, address@, bonded_stake),
{
    let mut i: usize = 0;
    while i < set.len()
        invariant
            i <= set.len(),
            forall|j: int|
                0 <= j < i ==> !((#[trigger] set@[j]).address@ == address@ && set@[j].bonded_stake
                    == bonded_stake),
        decreases set.len() - i,
    {
        if set[i].address == *address && set[i].bonded_stake == bonded_stake {
            return true;
        }
        i = i + 1;
    }
    false
}

/// Adds the lines of the validators of a set.
fn push_validators(report: &mut Report, set: &Vec<WeightedValidator>)
    ensures
        final(report)@ == old(report)@ + validator_lines(set@),
{
    let mut i: usize = 0;
    assert(report@ =~= old(report)@ + validator_lines(set@).take(0));
    while i < set.len()
        invariant
            i <= set.len(),
            report@ == old(report)@ + validator_lines(set@).take(i as int),
        decreases set.len() - i,
    {
        report.push(
            Line::out().text("  ").text(set[i].address.as_str()).text(": ").number(
                set[i].bonded_stake,
            ),
        );
        assert(report@ =~= old(report)@ + validator_lines(set@).take(i + 1));
        i = i + 1;
    }
    assert(validator_lines(set@).take(i as int) =~= validator_lines(set@));
}

/// The report of the stakes asked for, and of the total.
pub open spec fn bonded_stake_report(
    target: StakeTarget,
    active: Seq<WeightedValidator>,
    inactive: Seq<WeightedValidator>,
    total: i128,
) -> Seq<LineView> {
    stake_report(target, active, inactive).push(
        out().text("Total bonded stake: "@).number(total as u64),
    )
}

/// Query bonded stake: that of the target, given the validators that are active and those
/// that are not, and the total.
pub fn query_bonded_stake(
    target: &StakeTarget,
    active: &Vec<WeightedValidator>,
    inactive: &Vec<WeightedValidator>,
    total: i128,
) -> (report: Report)
    requires
        target matches StakeTarget::Validator { address: _, stake: Some(stake) } ==> is_amount(
            *stake,
        ),
        is_amount(total),
    ensures
        report@ == bonded_stake_report(*target, active@, inactive@, total),
{
    let mut report = Report::new();
    match target {
        StakeTarget::Validator { address, stake } => match stake {
            Some(stake) => {
                let bonded_stake: u64 = *stake as u64;
                let state = if set_holds(active, address, bonded_stake) {
                    "active"
                } else {
                    "inactive"
                };
                report.push(
                    Line::out().text("Validator ").text(address.as_str()).text(" is ").text(
                        state,
                    ).text(", bonded stake: ").number(bonded_stake),
                );
            },
            None => {
                report.push(
                    Line::out().text("No bonded stake found for ").text(address.as_str()),
                );
            },
        },
        StakeTarget::All => {
            report.push(Line::out().text("Active validators:"));
            push_validators(&mut report, active);
            if inactive.len() > 0 {
                report.push(Line::out().text("Inactive validators:"));
                push_validators(&mut report, inactive);
            }
        },
    }
    assert(report@ =~= stake_report(*target, active@, inactive@));
    report.push(Line::out().text("Total bonded stake: ").number(total as u64));
    report
}

/// What is known of a validator's commission.
#[derive(Clone, Copy, Debug, PartialEq, Eq)]
pub enum Commission {
    /// The address is not that of a validator.
    NotValidator,
    /// The rate in the epoch, if there is one, and its largest change per epoch.
    Rate { rate: Option<Rate>, max_change: Rate },
}

/// The line of what is known of a validator's commission.
pub open spec fn commission_line(
    validator: Seq<char>,
    epoch: u64,
    commission: Commission,
) -> LineView {
    match commission {
        Commission::Rate { rate: Some(rate), max_change } => out().text("Validator "@).text(
            validator,
        ).text(" commission rate: "@).rate(rate).text(", max change per epoch: "@).rate(
            max_change,
        ),
        Commission::Rate { rate: None, max_change: _ } => out().text(
            "No commission rate found for "@,
        ).text(validator).text(" in epoch "@).number(epoch),
        Commission::NotValidator => out().text("Cannot find validator with address "@).text(
            validator,
        ),
    }
}

/// Query a validator's commission rate in an epoch.
pub fn query_commission_rate(validator: &String, epoch: u64, commission: Commission) -> (report:
    Report)
    ensures
        report@ == seq![commission_line(validator@, epoch, commission)],
{
    match commission {
        Commission::Rate { rate, max_change } => match rate {
            Some(rate) => Report::of(
                Line::out().text("Validator ").text(validator.as_str()).text(
                    " commission rate: ",
                ).rate(rate).text(", max change per epoch: ").rate(max_change),
            ),
            None => Report::of(
                Line::out().text("No commission rate found for ").text(validator.as_str()).text(
                    " in epoch ",
                ).number(epoch),
            ),
        },
        Commission::NotValidator => Report::of(
            Line::out().text("Cannot find validator with address ").text(validator.as_str()),
        ),
    }
}

/// Slashes stored under a key.
#[derive(Debug, PartialEq, Eq)]
pub struct SlashesEntry {
    pub key: String,
    /// The validator that the key names, if it is a key for slashes.
    pub validator: Option<String>,
    pub slashes: Vec<Slash>,
}

/// Slashes that the ledger holds.
#[derive(Debug, PartialEq, Eq)]
pub enum SlashesFound {
    /// Those of one validator.
    Validator { address: String, slashes: Option<Vec<Slash>> },
    /// Those of all validators.
    All { entries: Option<Vec<SlashesEntry>> },
}

/// The lines of one validator's slashes.
pub open spec fn own_slash_lines(slashes: Seq<Slash>) -> Seq<LineView> {
    slashes.map_values(
        |slash: Slash|
            out().text("Slash epoch "@).number(slash.epoch).text(", rate "@).rate(
                slash.rate,
            ).text(", type "@).text(slash.kind@),
    )
}

/// The lines of a validator's slashes among those of others.
pub open spec fn listed_slash_lines(slashes: Seq<Slash>, validator: Seq<char>) -> Seq<LineView> {
    slashes.map_values(
        |slash: Slash|
            out().text("Slash epoch "@).number(slash.epoch).text(", block height "@).number(
                slash.block_height,
            ).text(", rate "@).rate(slash.rate).text(", type "@).text(slash.kind@).text(
                ", validator "@,
            ).text(validator),
    )
}

/// The lines of an entry.
pub open spec fn entry_lines(entry: SlashesEntry) -> Seq<LineView> {
    match entry.validator {
        Some(validator) => listed_slash_lines(entry.slashes@, validator@),
        None => seq![error().text("Unexpected slashes key "@).text(entry.key@)],
    }
}

/// The lines of several entries.
pub open spec fn entries_lines(entries: Seq<SlashesEntry>) -> Seq<LineView>
    decreases entries.len(),
{
    if entries.len() == 0 {
        seq![]
    } else {
        entries_lines(entries.drop_last()) + entry_lines(entries.last())
    }
}

/// The report of a query for slashes.
pub open spec fn slashes_report(found: SlashesFound) -> Seq<LineView> {
    match found {
        SlashesFound::Validator { address: _, slashes: Some(slashes) } => own_slash_lines(
            slashes@,
        ),
        SlashesFound::Validator { address, slashes: None } => seq![
            out().text("No slashes found for "@).text(address@),
        ],
        SlashesFound::All { entries: Some(entries) } => entries_lines(entries@),
        SlashesFound::All { entries: None } => seq![out().text("No slashes found"@)],
    }
}

/// Query slashes: the report of what the ledger holds.
pub fn query_slashes(found: &SlashesFound) -> (report: Report)
    ensures
        report@ == slashes_report(*found),
{
    let mut report = Report::new();
    match found {
        SlashesFound::Validator { address, slashes } => match slashes {
            Some(slashes) => {
                let mut i: usize = 0;
                while i < slashes.len()
                    invariant
                        i <= slashes.len(),
                        report@ == own_slash_lines(slashes@).take(i as int),
                    decreases slashes.len() - i,
                {
                    let slash = &slashes[i];
                    report.push(
                        Line::out().text("Slash epoch ").number(slash.epoch).text(", rate ").rate(
                            slash.rate,
                        ).text(", type ").text(slash.kind.as_str()),
                    );
                    assert(report@ =~= own_slash_lines(slashes@).take(i + 1));
                    i = i + 1;
                }
                assert(report@ =~= own_slash_lines(slashes@));
            },
            None => {
                report.push(Line::out().text("No slashes found for ").text(address.as_str()));
            },
        },
        SlashesFound::All { entries } => match entries {
            Some(entries) => {
                let mut i: usize = 0;
                while i < entries.len()
                    invariant
                        i <= entries.len(),
                        report@ == entries_lines(entries@.take(i as int)),
                    decreases entries.len() - i,
                {
                    report.append(slashes_of_entry(&entries[i]));
                    assert(entries@.take(i + 1).drop_last() =~= entries@.take(i as int));
                    i = i + 1;
                }
                assert(entries@.take(i as int) =~= entries@);
            },
            None => {
                report.push(Line::out().text("No slashes found"));
            },
        },
    }
    report
}

/// The lines of an entry.
fn slashes_of_entry(entry: &SlashesEntry) -> (report: Report)
    ensures
        report@ == entry_lines(*entry),
{
    match &entry.validator {
        Some(validator) => {
            let mut report = Report::new();
            let mut i: usize = 0;
            while i < entry.slashes.len()
                invariant
                    i <= entry.slashes.len(),
                    report@ == listed_slash_lines(entry.slashes@, validator@).take(i as int),
                decreases entry.slashes.len() - i,
            {
                let slash = &entry.slashes[i];
                report.push(
                    Line::out().text("Slash epoch ").number(slash.epoch).text(
                        ", block height ",
                    ).number(slash.block_height).text(", rate ").rate(slash.rate).text(
                        ", type ",
                    ).text(slash.kind.as_str()).text(", validator ").text(validator.as_str()),
                );
                assert(report@ =~= listed_slash_lines(entry.slashes@, validator@).take(i + 1));
                i = i + 1;
            }
            assert(report@ =~= listed_slash_lines(entry.slashes@, validator@));
            report
        },
        None => Report::of(
            Line::error().text("Unexpected slashes key ").text(entry.key.as_str()),
        ),
    }
}

/// A validator is shown with its stake, as active exactly where it is among the active ones
/// with that stake, wherever it stands there.
pub proof fn lemma_stake_of_a_validator(
    address: String,
    stake: i128,
    active: Seq<WeightedValidator>,
    inactive: Seq<WeightedValidator>,
)
    requires
        0 <= stake < 0x1_0000_0000_0000_0000,
    ensures
        ({
            let is_active = exists|i: int|
                0 <= i < active.len() && (#[trigger] active[i]).address@ == address@
                    && active[i].bonded_stake == stake;
            stake_report(
                StakeTarget::Validator { address, stake: Some(stake) },
                active,
                inactive,
            ) == seq![
                printed(
                    seq![
                        PieceView::Text("Validator "@),
                        PieceView::Text(address@),
                        PieceView::Text(" is "@),
                        PieceView::Text(
                            if is_active {
                                "active"@
                            } else {
                                "inactive"@
                            },
                        ),
                        PieceView::Text(", bonded stake: "@),
                        PieceView::Number(stake as u64),
                    ],
                ),
            ]
        }),
        stake_report(StakeTarget::Validator { address, stake: None }, active, inactive) == seq![
            printed(
                seq![PieceView::Text("No bonded stake found for "@), PieceView::Text(address@)],
            ),
        ],
        is_amount(stake),
        !is_amount((stake + 0x1_0000_0000_0000_0000) as i128),
        !is_amount((-1 - stake) as i128),
{
    let is_active = exists|i: int|
        0 <= i < active.len() && (#[trigger] active[i]).address@ == address@
            && active[i].bonded_stake == stake;
    if is_active {
        let i = choose|i: int|
            0 <= i < active.len() && (#[trigger] active[i]).address@ == address@
                && active[i].bonded_stake == stake;
        assert(active[i].bonded_stake == stake as u64);
        assert(holds(active, address@, stake as u64));
    } else if holds(active, address@, stake as u64) {
        let i = choose|i: int|
            0 <= i < active.len() && (#[trigger] active[i]).address@ == address@
                && active[i].bonded_stake == stake as u64;
        assert(active[i].bonded_stake == stake);
    }
    let line = stake_report(
        StakeTarget::Validator { address, stake: Some(stake) },
        active,
        inactive,
    )[0];
    assert(line =~= printed(
        seq![
            PieceView::Text("Validator "@),
            PieceView::Text(address@),
            PieceView::Text(" is "@),
            PieceView::Text(
                if is_active {
                    "active"@
                } else {
                    "inactive"@
                },
            ),
            PieceView::Text(", bonded stake: "@),
            PieceView::Number(stake as u64),
        ],
    ));
    assert(out().text("No bonded stake found for "@).text(address@) =~= printed(
        seq![PieceView::Text("No bonded stake found for "@), PieceView::Text(address@)],
    ));
}

/// The line of a validator with its stake.
pub open spec fn validator_entry(validator: WeightedValidator) -> LineView {
    printed(
        seq![
            PieceView::Text("  "@),
            PieceView::Text(validator.address@),
            PieceView::Text(": "@),
            PieceView::Number(validator.bonded_stake),
        ],
    )
}

/// All validators are shown with their stakes, in order: the active ones, and below them the
/// others where there are any.
pub proof fn lemma_stakes_of_all_validators(
    active: Seq<WeightedValidator>,
    inactive: Seq<WeightedValidator>,
)
    ensures
        stake_report(StakeTarget::All, active, inactive) == seq![
            printed(seq![PieceView::Text("Active validators:"@)]),
        ] + Seq::new(active.len(), |i: int| validator_entry(active[i])) + if inactive.len() > 0 {
            seq![printed(seq![PieceView::Text("Inactive validators:"@)])] + Seq::new(
                inactive.len(),
                |i: int| validator_entry(inactive[i]),
            )
        } else {
            Seq::empty()
        },
{
    assert(out().text("Active validators:"@) =~= printed(
        seq![PieceView::Text("Active validators:"@)],
    ));
    assert(out().text("Inactive validators:"@) =~= printed(
        seq![PieceView::Text("Inactive validators:"@)],
    ));
    lemma_validator_lines(active);
    lemma_validator_lines(inactive);
}

/// The lines of validators are those of each.
proof fn lemma_validator_lines(set: Seq<WeightedValidator>)
    ensures
        validator_lines(set) == Seq::new(set.len(), |i: int| validator_entry(set[i])),
{
    assert forall|i: int| 0 <= i < set.len() implies #[trigger] validator_lines(set)[i]
        == validator_entry(set[i]) by {
        assert(validator_lines(set)[i] =~= validator_entry(set[i]));
    }
    assert(validator_lines(set) =~= Seq::new(set.len(), |i: int| validator_entry(set[i])));
}

/// A rate that is known is shown with its largest change; otherwise it is said that there is
/// none in the epoch, or that the address is no validator's.
pub proof fn lemma_lines_of_commissions(
    validator: Seq<char>,
    epoch: u64,
    rate: Rate,
    max_change: Rate,
)
    ensures
        commission_line(validator, epoch, Commission::Rate { rate: Some(rate), max_change })
            == printed(
            seq![
                PieceView::Text("Validator "@),
                PieceView::Text(validator),
                PieceView::Text(" commission rate: "@),
                PieceView::Rate(rate),
                PieceView::Text(", max change per epoch: "@),
                PieceView::Rate(max_change),
            ],
        ),
        commission_line(validator, epoch, Commission::Rate { rate: None, max_change }) == printed(
            seq![
                PieceView::Text("No commission rate found for "@),
                PieceView::Text(validator),
                PieceView::Text(" in epoch "@),
                PieceView::Number(epoch),
            ],
        ),
        commission_line(validator, epoch, Commission::NotValidator) == printed(
            seq![
                PieceView::Text("Cannot find validator with address "@),
                PieceView::Text(validator),
            ],
        ),
{
}

/// The slashes of one validator are shown each, in order, with epoch, rate and type; that
/// none are stored is said of the validator.
pub proof fn lemma_slashes_of_a_validator(address: String, slashes: Vec<Slash>)
    ensures
        ({
            let lines = slashes_report(
                SlashesFound::Validator { address, slashes: Some(slashes) },
            );
            &&& lines.len() == slashes@.len()
            &&& forall|i: int|
                0 <= i < slashes@.len() ==> #[trigger] lines[i] == printed(
                    seq![
                        PieceView::Text("Slash epoch "@),
                        PieceView::Number(slashes@[i].epoch),
                        PieceView::Text(", rate "@),
                        PieceView::Rate(slashes@[i].rate),
                        PieceView::Text(", type "@),
                        PieceView::Text(slashes@[i].kind@),
                    ],
                )
        }),
        slashes_report(SlashesFound::Validator { address, slashes: None }) == seq![
            printed(seq![PieceView::Text("No slashes found for "@), PieceView::Text(address@)]),
        ],
        slashes_report(SlashesFound::All { entries: None }) == seq![
            printed(seq![PieceView::Text("No slashes found"@)]),
        ],
{
    let lines = slashes_report(SlashesFound::Validator { address, slashes: Some(slashes) });
    assert forall|i: int| 0 <= i < slashes@.len() implies #[trigger] lines[i] == printed(
        seq![
            PieceView::Text("Slash epoch "@),
            PieceView::Number(slashes@[i].epoch),
            PieceView::Text(", rate "@),
            PieceView::Rate(slashes@[i].rate),
            PieceView::Text(", type "@),
            PieceView::Text(slashes@[i].kind@),
        ],
    ) by {
        assert(lines[i] =~= printed(
            seq![
                PieceView::Text("Slash epoch "@),
                PieceView::Number(slashes@[i].epoch),
                PieceView::Text(", rate "@),
                PieceView::Rate(slashes@[i].rate),
                PieceView::Text(", type "@),
                PieceView::Text(slashes@[i].kind@),
            ],
        ));
    }
    assert(out().text("No slashes found for "@).text(address@) =~= printed(
        seq![PieceView::Text("No slashes found for "@), PieceView::Text(address@)],
    ));
    assert(out().text("No slashes found"@) =~= printed(
        seq![PieceView::Text("No slashes found"@)],
    ));
}

/// The entries of joined lists are shown list by list. One entry is shown with each of its
/// slashes, in order, and the validator that its key names; where the key names none, that is
/// complained of and its slashes are left out.
pub proof fn lemma_slashes_of_all_validators(
    first: Seq<SlashesEntry>,
    second: Seq<SlashesEntry>,
    entry: SlashesEntry,
)
    ensures
        entries_lines(first + second) == entries_lines(first) + entries_lines(second),
        entry.validator is None ==> entries_lines(seq![entry]) == seq![
            complained(
                seq![PieceView::Text("Unexpected slashes key "@), PieceView::Text(entry.key@)],
            ),
        ],
        entry.validator is Some ==> {
            let lines = entries_lines(seq![entry]);
            &&& lines.len() == entry.slashes@.len()
            &&& forall|i: int|
                0 <= i < entry.slashes@.len() ==> #[trigger] lines[i] == printed(
                    seq![
                        PieceView::Text("Slash epoch "@),
                        PieceView::Number(entry.slashes@[i].epoch),
                        PieceView::Text(", block height "@),
                        PieceView::Number(entry.slashes@[i].block_height),
                        PieceView::Text(", rate "@),
                        PieceView::Rate(entry.slashes@[i].rate),
                        PieceView::Text(", type "@),
                        PieceView::Text(entry.slashes@[i].kind@),
                        PieceView::Text(", validator "@),
                        PieceView::Text(entry.validator->0@),
                    ],
                )
        },
    decreases second.len(),
{
    assert(seq![entry].drop_last() =~= Seq::<SlashesEntry>::empty());
    assert(entries_lines(Seq::<SlashesEntry>::empty()) =~= seq![]);
    let lines = entries_lines(seq![entry]);
    assert(lines =~= entry_lines(entry));
    if entry.validator is Some {
        assert forall|i: int| 0 <= i < entry.slashes@.len() implies #[trigger] lines[i] == printed(
            seq![
                PieceView::Text("Slash epoch "@),
                PieceView::Number(entry.slashes@[i].epoch),
                PieceView::Text(", block height "@),
                PieceView::Number(entry.slashes@[i].block_height),
                PieceView::Text(", rate "@),
                PieceView::Rate(entry.slashes@[i].rate),
                PieceView::Text(", type "@),
                PieceView::Text(entry.slashes@[i].kind@),
                PieceView::Text(", validator "@),
                PieceView::Text(entry.validator->0@),
            ],
        ) by {
            assert(lines[i] =~= printed(
                seq![
                    PieceView::Text("Slash epoch "@),
                    PieceView::Number(entry.slashes@[i].epoch),
                    PieceView::Text(", block height "@),
                    PieceView::Number(entry.slashes@[i].block_height),
                    PieceView::Text(", rate "@),
                    PieceView::Rate(entry.slashes@[i].rate),
                    PieceView::Text(", type "@),
                    PieceView::Text(entry.slashes@[i].kind@),
                    PieceView::Text(", validator "@),
                    PieceView::Text(entry.validator->0@),
                ],
            ));
        }
    } else {
        assert(error().text("Unexpected slashes key "@).text(entry.key@) =~= complained(
            seq![PieceView::Text("Unexpected slashes key "@), PieceView::Text(entry.key@)],
        ));
    }
    if second.len() == 0 {
        assert(first + second =~= first);
    } else {
        assert((first + second).drop_last() =~= first + second.drop_last());
        lemma_slashes_of_all_validators(first, second.drop_last(), entry);
    }
    assert(entries_lines(first + second) =~= entries_lines(first) + entries_lines(second));
}

/// All entries that are found are reported on.
pub proof fn lemma_all_entries_are_reported(entries: Vec<SlashesEntry>)
    ensures
        slashes_report(SlashesFound::All { entries: Some(entries) }) == entries_lines(entries@),
{
}

/// Whatever stakes are asked for, they are all shown, and the total stands below them.
pub proof fn lemma_total_stake_comes_last(
    target: StakeTarget,
    active: Seq<WeightedValidator>,
    inactive: Seq<WeightedValidator>,
    total: i128,
)
    requires
        0 <= total < 0x1_0000_0000_0000_0000,
    ensures
        ({
            let report = bonded_stake_report(target, active, inactive, total);
            &&& report.drop_last() == stake_report(target, active, inactive)
            &&& report.last().channel == printed(Seq::empty()).channel
            &&& report.last().pieces.len() == 2
            &&& report.last().pieces[0] == PieceView::Text("Total bonded stake: "@)
            &&& report.last().pieces[1] matches PieceView::Number(shown) && shown == total
        }),
{
    let report = bonded_stake_report(target, active, inactive, total);
    assert(report.drop_last() =~= stake_report(target, active, inactive));
}

} // verus!
