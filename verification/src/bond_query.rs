//! The query for bonds: what to ask the ledger for, and the report of what it holds.

use vstd::prelude::*;

use crate::bonds::{
    add_sums, closing_lines, come_rows, in_range, lemma_closing_lines,
    lemma_due_is_the_total_of_what_has_come, lemma_due_within_total,
    lemma_what_is_to_come_is_not_due, process_bonds_query,
    process_unbonds_query, rows_report, sums, Position, Sums,
};
use crate::deltas::{
    all_bond_rows, all_unbond_rows, rows_of_bonds, rows_of_unbonds, Bond, Row, Unbond,
};
use crate::report::{out, printed, Line, LineView, PieceView, Report};
use crate::slashing::Slash;

verus! {

/// What a query for bonds asks the ledger for.
#[derive(Debug, PartialEq, Eq)]
pub enum BondsRequest {
    /// The bonds of an owner with a validator, with the validator's slashes.
    Delegation { owner: String, validator: String },
    /// The bonds of a validator with itself, with its slashes.
    SelfBonds { validator: String },
    /// The bonds of an owner with any validator, each with the validator's slashes.
    Source { owner: String },
    /// All bonds, each with the validator's slashes.
    All,
}

/// What a query for bonds with the given owner and validator asks the ledger for.
pub fn bonds_request(owner: Option<String>, validator: Option<String>) -> (request: BondsRequest)
    ensures
        request == match (owner, validator) {
            (Some(owner), Some(validator)) => BondsRequest::Delegation { owner, validator },
            (None, Some(validator)) => BondsRequest::SelfBonds { validator },
            (Some(owner), None) => BondsRequest::Source { owner },
            (None, None) => BondsRequest::All,
        },
{
    match (owner, validator) {
        (Some(owner), Some(validator)) => BondsRequest::Delegation { owner, validator },
        (None, Some(validator)) => BondsRequest::SelfBonds { validator },
        (Some(owner), None) => BondsRequest::Source { owner },
        (None, None) => BondsRequest::All,
    }
}

/// The bonds of a source with a validator.
#[derive(Debug, PartialEq, Eq)]
pub struct BondEntry {
    pub source: String,
    pub validator: String,
    pub bonds: Vec<Bond>,
    /// The validator's slashes, if any are stored.
    pub slashes: Option<Vec<Slash>>,
}

/// The unbonds of a source from a validator.
#[derive(Debug, PartialEq, Eq)]
pub struct UnbondEntry {
    pub source: String,
    pub validator: String,
    pub unbonds: Vec<Unbond>,
    /// The validator's slashes, if any are stored.
    pub slashes: Option<Vec<Slash>>,
}

/// What the ledger holds for a [`BondsRequest`].
#[derive(Debug, PartialEq, Eq)]
pub enum BondsFound {
    Delegation {
        owner: String,
        validator: String,
        bonds: Option<Vec<Bond>>,
        unbonds: Option<Vec<Unbond>>,
        slashes: Option<Vec<Slash>>,
    },
    SelfBonds {
        validator: String,
        bonds: Option<Vec<Bond>>,
        unbonds: Option<Vec<Unbond>>,
        slashes: Option<Vec<Slash>>,
    },
    Source {
        owner: String,
        bonds: Option<Vec<BondEntry>>,
        unbonds: Option<Vec<UnbondEntry>>,
    },
    All { bonds: Option<Vec<BondEntry>>, unbonds: Option<Vec<UnbondEntry>> },
}

/// The stored slashes, or none where nothing is stored.
pub open spec fn slashes_of(slashes: Option<Vec<Slash>>) -> Seq<Slash> {
    match slashes {
        Some(slashes) => slashes@,
        None => seq![],
    }
}

/// What a source holds with a validator.
pub struct Holding {
    pub source: Seq<char>,
    pub validator: Seq<char>,
    pub rows: Seq<Row>,
    pub slashes: Seq<Slash>,
}

/// The holding that an entry stands for.
pub open spec fn bond_holding(entry: BondEntry) -> Holding {
    Holding {
        source: entry.source@,
        validator: entry.validator@,
        rows: all_bond_rows(entry.bonds@),
        slashes: slashes_of(entry.slashes),
    }
}

/// The holding that an entry stands for.
pub open spec fn unbond_holding(entry: UnbondEntry) -> Holding {
    Holding {
        source: entry.source@,
        validator: entry.validator@,
        rows: all_unbond_rows(entry.unbonds@),
        slashes: slashes_of(entry.slashes),
    }
}

/// The holdings that the entries stand for.
pub open spec fn bond_holdings(entries: Option<Vec<BondEntry>>) -> Seq<Holding> {
    match entries {
        Some(entries) => entries@.map_values(|e: BondEntry| bond_holding(e)),
        None => seq![],
    }
}

/// The holdings that the entries stand for.
pub open spec fn unbond_holdings(entries: Option<Vec<UnbondEntry>>) -> Seq<Holding> {
    match entries {
        Some(entries) => entries@.map_values(|e: UnbondEntry| unbond_holding(e)),
        None => seq![],
    }
}

/// The sums over several holdings; `None` where those of one of them do not exist.
pub open spec fn holdings_sums(
    position: Position,
    holdings: Seq<Holding>,
    epoch: u64,
) -> Option<Sums>
    decreases holdings.len(),
{
    if holdings.len() == 0 {
        Some(Sums { total: 0, due: 0 })
    } else {
        match (
            holdings_sums(position, holdings.drop_last(), epoch),
            sums(position, holdings.last().rows, holdings.last().slashes, epoch),
        ) {
            (Some(before), Some(sums)) => Some(
                Sums { total: before.total + sums.total, due: before.due + sums.due },
            ),
            _ => None,
        }
    }
}

/// Whether the sums over several holdings exist and are amounts.
pub open spec fn holdings_in_range(
    position: Position,
    holdings: Seq<Holding>,
    epoch: u64,
) -> bool {
    match holdings_sums(position, holdings, epoch) {
        Some(sums) => sums.total <= u64::MAX && sums.due <= u64::MAX,
        None => false,
    }
}

/// Which holdings a listing shows: those of one owner, or all of them.
#[derive(Clone, Copy, Debug, PartialEq, Eq, Structural)]
pub enum Listing {
    Source,
    All,
}

/// The line above a holding.
pub open spec fn holding_header(
    position: Position,
    listing: Listing,
    source: Seq<char>,
    validator: Seq<char>,
) -> LineView {
    match (position, listing) {
        (Position::Bonded, Listing::Source) => if source == validator {
            out().text("Self-bonds:"@)
        } else {
            out().text("Delegations from "@).text(source).text(" to "@).text(validator).text(":"@)
        },
        (Position::Bonded, Listing::All) => if source == validator {
            out().text("Self-bonds for "@).text(validator).text(":"@)
        } else {
            out().text("Delegations from "@).text(source).text(" to validator "@).text(
                validator,
            ).text(":"@)
        },
        (Position::Unbonded, Listing::Source) => if source == validator {
            out().text("Unbonded self-bonds:"@)
        } else {
            out().text("Unbonded delegations from "@).text(source).text(":"@)
        },
        (Position::Unbonded, Listing::All) => if source == validator {
            out().text("Unbonded self-bonds for "@).text(validator).text(":"@)
        } else {
            out().text("Unbonded delegations from "@).text(source).text(" to validator "@).text(
                validator,
            ).text(":"@)
        },
    }
}

/// The account of one holding.
pub open spec fn holding_report(
    position: Position,
    listing: Listing,
    holding: Holding,
    epoch: u64,
) -> Seq<LineView> {
    seq![holding_header(position, listing, holding.source, holding.validator)] + (rows_report(
        position,
        holding.rows,
        holding.slashes,
    ) + closing_lines(
        position,
        Some(holding.source),
        sums(position, holding.rows, holding.slashes, epoch)->0.total as u64,
        0,
        0,
    ))
}

/// The accounts of several holdings.
pub open spec fn holdings_report(
    position: Position,
    listing: Listing,
    holdings: Seq<Holding>,
    epoch: u64,
) -> Seq<LineView>
    decreases holdings.len(),
{
    if holdings.len() == 0 {
        seq![]
    } else {
        holdings_report(position, listing, holdings.drop_last(), epoch) + holding_report(
            position,
            listing,
            holdings.last(),
            epoch,
        )
    }
}

/// The totals below the holdings of a listing.
pub open spec fn listing_totals(
    position: Position,
    listing: Listing,
    total: u64,
    due: u64,
) -> Seq<LineView> {
    match (position, listing) {
        (Position::Bonded, Listing::Source) => if due != 0 && due != total {
            seq![out().text("Active bonds total: "@).amount(due)]
        } else {
            seq![]
        },
        (Position::Bonded, Listing::All) => (if due != 0 && due != total {
            seq![out().text("Bond total active: "@).amount(due)]
        } else {
            seq![]
        }).push(out().text("Bond total: "@).amount(total)),
        (Position::Unbonded, Listing::Source) => if due != 0 {
            seq![out().text("Withdrawable total: "@).amount(due)]
        } else {
            seq![]
        },
        (Position::Unbonded, Listing::All) => (if due != 0 {
            seq![out().text("Withdrawable total: "@).amount(due)]
        } else {
            seq![]
        }).push(out().text("Unbonded total: "@).amount(total)),
    }
}

/// The accounts of several holdings with their totals.
pub open spec fn listing_report(
    position: Position,
    listing: Listing,
    holdings: Seq<Holding>,
    epoch: u64,
) -> Seq<LineView> {
    let sums = holdings_sums(position, holdings, epoch)->0;
    holdings_report(position, listing, holdings, epoch) + listing_totals(
        position,
        listing,
        sums.total as u64,
        sums.due as u64,
    )
}

/// The line above the bonds or unbonds of one pair of owner and validator.
pub open spec fn pair_header(position: Position, own: bool) -> LineView {
    match position {
        Position::Bonded => if own {
            out().text("Self-bonds:"@)
        } else {
            out().text("Delegations:"@)
        },
        Position::Unbonded => if own {
            out().text("Unbonded self-bonds:"@)
        } else {
            out().text("Unbonded delegations:"@)
        },
    }
}

/// The account of the bonds or unbonds of one pair of owner and validator.
pub open spec fn pair_part(
    position: Position,
    own: bool,
    rows: Option<Seq<Row>>,
    slashes: Seq<Slash>,
    epoch: u64,
) -> Seq<LineView> {
    match rows {
        Some(rows) => {
            let sums = sums(position, rows, slashes, epoch)->0;
            seq![pair_header(position, own)] + (rows_report(position, rows, slashes)
                + closing_lines(
                position,
                None,
                sums.total as u64,
                sums.total as u64,
                sums.due as u64,
            ))
        },
        None => seq![],
    }
}

/// The rows of the bonds that were found.
pub open spec fn found_bond_rows(bonds: Option<Vec<Bond>>) -> Option<Seq<Row>> {
    match bonds {
        Some(bonds) => Some(all_bond_rows(bonds@)),
        None => None,
    }
}

/// The rows of the unbonds that were found.
pub open spec fn found_unbond_rows(unbonds: Option<Vec<Unbond>>) -> Option<Seq<Row>> {
    match unbonds {
        Some(unbonds) => Some(all_unbond_rows(unbonds@)),
        None => None,
    }
}

/// The account of one pair of owner and validator.
pub open spec fn pair_report(
    own: bool,
    bonds: Option<Vec<Bond>>,
    unbonds: Option<Vec<Unbond>>,
    slashes: Seq<Slash>,
    epoch: u64,
    nothing: LineView,
) -> Seq<LineView> {
    pair_part(Position::Bonded, own, found_bond_rows(bonds), slashes, epoch) + pair_part(
        Position::Unbonded,
        own,
        found_unbond_rows(unbonds),
        slashes,
        epoch,
    ) + if bonds is None && unbonds is None {
        seq![nothing]
    } else {
        seq![]
    }
}

/// The report of a query for bonds.
pub open spec fn bonds_report(found: BondsFound, epoch: u64) -> Seq<LineView> {
    match found {
        BondsFound::Delegation { owner, validator, bonds, unbonds, slashes } => pair_report(
            owner@ == validator@,
            bonds,
            unbonds,
            slashes_of(slashes),
            epoch,
            out().text("No delegations found for "@).text(owner@).text(" to validator "@).text(
                validator@,
            ),
        ),
        BondsFound::SelfBonds { validator, bonds, unbonds, slashes } => pair_report(
            true,
            bonds,
            unbonds,
            slashes_of(slashes),
            epoch,
            out().text("No self-bonds found for validator "@).text(validator@),
        ),
        BondsFound::Source { owner, bonds, unbonds } => listing_report(
            Position::Bonded,
            Listing::Source,
            bond_holdings(bonds),
            epoch,
        ) + listing_report(Position::Unbonded, Listing::Source, unbond_holdings(unbonds), epoch)
            + if bond_holdings(bonds).len() == 0 && unbond_holdings(unbonds).len() == 0 {
            seq![out().text("No self-bonds or delegations found for "@).text(owner@)]
        } else {
            seq![]
        },
        BondsFound::All { bonds, unbonds } => listing_report(
            Position::Bonded,
            Listing::All,
            bond_holdings(bonds),
            epoch,
        ) + listing_report(Position::Unbonded, Listing::All, unbond_holdings(unbonds), epoch),
    }
}

/// Whether the sums over some rows, if there are any, are amounts.
pub open spec fn rows_in_range(
    position: Position,
    rows: Option<Seq<Row>>,
    slashes: Seq<Slash>,
    epoch: u64,
) -> bool {
    rows matches Some(rows) ==> in_range(position, rows, slashes, epoch, 0, 0)
}

/// Whether all sums in the report of a query for bonds are amounts.
pub open spec fn bonds_in_range(found: BondsFound, epoch: u64) -> bool {
    match found {
        BondsFound::Delegation { owner: _, validator: _, bonds, unbonds, slashes } => {
            &&& rows_in_range(
                Position::Bonded,
                found_bond_rows(bonds),
                slashes_of(slashes),
                epoch,
            )
            &&& rows_in_range(
                Position::Unbonded,
                found_unbond_rows(unbonds),
                slashes_of(slashes),
                epoch,
            )
        },
        BondsFound::SelfBonds { validator: _, bonds, unbonds, slashes } => {
            &&& rows_in_range(
                Position::Bonded,
                found_bond_rows(bonds),
                slashes_of(slashes),
                epoch,
            )
            &&& rows_in_range(
                Position::Unbonded,
                found_unbond_rows(unbonds),
                slashes_of(slashes),
                epoch,
            )
        },
        BondsFound::Source { owner: _, bonds, unbonds } => {
            &&& holdings_in_range(Position::Bonded, bond_holdings(bonds), epoch)
            &&& holdings_in_range(Position::Unbonded, unbond_holdings(unbonds), epoch)
        },
        BondsFound::All { bonds, unbonds } => {
            &&& holdings_in_range(Position::Bonded, bond_holdings(bonds), epoch)
            &&& holdings_in_range(Position::Unbonded, unbond_holdings(unbonds), epoch)
        },
    }
}

/// The sums over some holdings exist where those over more of them do, and are no larger.
proof fn lemma_holdings_prefix(
    position: Position,
    holdings: Seq<Holding>,
    count: int,
    epoch: u64,
)
    requires
        0 <= count <= holdings.len(),
        holdings_sums(position, holdings, epoch) is Some,
    ensures
        holdings_sums(position, holdings.take(count), epoch) is Some,
        holdings_sums(position, holdings.take(count), epoch)->0.total <= holdings_sums(
            position,
            holdings,
            epoch,
        )->0.total,
        holdings_sums(position, holdings.take(count), epoch)->0.due <= holdings_sums(
            position,
            holdings,
            epoch,
        )->0.due,
    decreases holdings.len(),
{
    if count == holdings.len() {
        assert(holdings.take(count) =~= holdings);
    } else {
        assert(holdings.drop_last().take(count) =~= holdings.take(count));
        lemma_holdings_prefix(position, holdings.drop_last(), count, epoch);
        lemma_due_within_total(
            position,
            holdings.last().rows,
            holdings.last().slashes,
            epoch,
        );
    }
}

/// What is active or withdrawable in several holdings is at most their total, and neither
/// is negative.
pub proof fn lemma_holdings_due_within_total(
    position: Position,
    holdings: Seq<Holding>,
    epoch: u64,
)
    ensures
        holdings_sums(position, holdings, epoch) matches Some(sums) ==> 0 <= sums.due
            <= sums.total,
    decreases holdings.len(),
{
    if holdings.len() > 0 {
        lemma_holdings_due_within_total(position, holdings.drop_last(), epoch);
        lemma_due_within_total(
            position,
            holdings.last().rows,
            holdings.last().slashes,
            epoch,
        );
    }
}

/// What an owner has delegated to itself is reported as its self-bonds are, where there is
/// anything to report.
pub proof fn lemma_delegation_to_oneself_is_self_bond(
    owner: String,
    validator: String,
    bonds: Option<Vec<Bond>>,
    unbonds: Option<Vec<Unbond>>,
    slashes: Option<Vec<Slash>>,
    epoch: u64,
)
    requires
        owner@ == validator@,
        bonds is Some || unbonds is Some,
    ensures
        bonds_report(
            BondsFound::Delegation { owner, validator, bonds, unbonds, slashes },
            epoch,
        ) == bonds_report(BondsFound::SelfBonds { validator, bonds, unbonds, slashes }, epoch),
        bonds_in_range(
            BondsFound::Delegation { owner, validator, bonds, unbonds, slashes },
            epoch,
        ) == bonds_in_range(BondsFound::SelfBonds { validator, bonds, unbonds, slashes }, epoch),
{
}

/// The line above a holding.
fn header_line(
    position: Position,
    listing: Listing,
    source: &String,
    validator: &String,
) -> (line: Line)
    ensures
        line@ == holding_header(position, listing, source@, validator@),
{
    let own = *source == *validator;
    match (position, listing) {
        (Position::Bonded, Listing::Source) => if own {
            Line::out().text("Self-bonds:")
        } else {
            Line::out().text("Delegations from ").text(source.as_str()).text(" to ").text(
                validator.as_str(),
            ).text(":")
        },
        (Position::Bonded, Listing::All) => if own {
            Line::out().text("Self-bonds for ").text(validator.as_str()).text(":")
        } else {
            Line::out().text("Delegations from ").text(source.as_str()).text(
                " to validator ",
            ).text(validator.as_str()).text(":")
        },
        (Position::Unbonded, Listing::Source) => if own {
            Line::out().text("Unbonded self-bonds:")
        } else {
            Line::out().text("Unbonded delegations from ").text(source.as_str()).text(":")
        },
        (Position::Unbonded, Listing::All) => if own {
            Line::out().text("Unbonded self-bonds for ").text(validator.as_str()).text(":")
        } else {
            Line::out().text("Unbonded delegations from ").text(source.as_str()).text(
                " to validator ",
            ).text(validator.as_str()).text(":")
        },
    }
}

/// The account of several bonds: their total, what of it is active, and the lines.
fn list_bonds(
    entries: &Vec<BondEntry>,
    epoch: u64,
    listing: Listing,
) -> (result: (u64, u64, Report))
    requires
        holdings_in_range(
            Position::Bonded,
            entries@.map_values(|e: BondEntry| bond_holding(e)),
            epoch,
        ),
    ensures
        ({
            let holdings = entries@.map_values(|e: BondEntry| bond_holding(e));
            let sums = holdings_sums(Position::Bonded, holdings, epoch)->0;
            &&& result.0 == sums.total
            &&& result.1 == sums.due
            &&& result.2@ == holdings_report(Position::Bonded, listing, holdings, epoch)
        }),
{
    let ghost holdings = entries@.map_values(|e: BondEntry| bond_holding(e));
    let none: Vec<Slash> = Vec::new();
    let mut total: u64 = 0;
    let mut due: u64 = 0;
    let mut report = Report::new();
    let mut i: usize = 0;
    while i < entries.len()
        invariant
            i <= entries.len(),
            holdings == entries@.map_values(|e: BondEntry| bond_holding(e)),
            holdings_in_range(Position::Bonded, holdings, epoch),
            none@.len() == 0,
            holdings_sums(Position::Bonded, holdings.take(i as int), epoch) is Some,
            total == holdings_sums(Position::Bonded, holdings.take(i as int), epoch)->0.total,
            due == holdings_sums(Position::Bonded, holdings.take(i as int), epoch)->0.due,
            report@ == holdings_report(
                Position::Bonded,
                listing,
                holdings.take(i as int),
                epoch,
            ),
        decreases entries.len() - i,
    {
        let entry = &entries[i];
        let slashes = match &entry.slashes {
            Some(slashes) => slashes,
            None => &none,
        };
        proof {
            assert(slashes@ =~= slashes_of(entry.slashes));
            assert(holdings.take(i + 1).drop_last() =~= holdings.take(i as int));
            lemma_holdings_prefix(Position::Bonded, holdings, i + 1, epoch);
        }
        let ghost before = report@;
        report.push(
            header_line(Position::Bonded, listing, &entry.source, &entry.validator),
        );
        let (new_total, new_due, account) = process_bonds_query(
            &entry.bonds,
            slashes,
            epoch,
            Some(&entry.source),
            Some(total),
            Some(due),
        );
        report.append(account);
        assert(report@ =~= before + holding_report(
            Position::Bonded,
            listing,
            holdings[i as int],
            epoch,
        ));
        total = new_total;
        due = new_due;
        i = i + 1;
    }
    assert(holdings.take(i as int) =~= holdings);
    (total, due, report)
}

/// Whether the sums over several bonds are amounts.
fn bonds_listing_in_range(entries: &Vec<BondEntry>, epoch: u64) -> (yes: bool)
    ensures
        yes == holdings_in_range(
            Position::Bonded,
            entries@.map_values(|e: BondEntry| bond_holding(e)),
            epoch,
        ),
{
    let ghost holdings = entries@.map_values(|e: BondEntry| bond_holding(e));
    let none: Vec<Slash> = Vec::new();
    let mut total: u64 = 0;
    let mut due: u64 = 0;
    let mut i: usize = 0;
    while i < entries.len()
        invariant
            i <= entries.len(),
            holdings == entries@.map_values(|e: BondEntry| bond_holding(e)),
            none@.len() == 0,
            holdings_sums(Position::Bonded, holdings.take(i as int), epoch) is Some,
            total == holdings_sums(Position::Bonded, holdings.take(i as int), epoch)->0.total,
            due == holdings_sums(Position::Bonded, holdings.take(i as int), epoch)->0.due,
        decreases entries.len() - i,
    {
        let entry = &entries[i];
        let slashes = match &entry.slashes {
            Some(slashes) => slashes,
            None => &none,
        };
        proof {
            assert(slashes@ =~= slashes_of(entry.slashes));
            assert(holdings.take(i + 1).drop_last() =~= holdings.take(i as int));
            if holdings_sums(Position::Bonded, holdings, epoch) is Some {
                lemma_holdings_prefix(Position::Bonded, holdings, i + 1, epoch);
            }
        }
        let rows = rows_of_bonds(&entry.bonds);
        match add_sums(Position::Bonded, &rows, slashes, epoch, total, due) {
            Some((new_total, new_due)) => {
                total = new_total;
                due = new_due;
            },
            None => {
                return false;
            },
        }
        i = i + 1;
    }
    assert(holdings.take(i as int) =~= holdings);
    true
}

/// The account of several unbonds: their total, what of it is withdrawable, and the lines.
fn list_unbonds(
    entries: &Vec<UnbondEntry>,
    epoch: u64,
    listing: Listing,
) -> (result: (u64, u64, Report))
    requires
        holdings_in_range(
            Position::Unbonded,
            entries@.map_values(|e: UnbondEntry| unbond_holding(e)),
            epoch,
        ),
    ensures
        ({
            let holdings = entries@.map_values(|e: UnbondEntry| unbond_holding(e));
            let sums = holdings_sums(Position::Unbonded, holdings, epoch)->0;
            &&& result.0 == sums.total
            &&& result.1 == sums.due
            &&& result.2@ == holdings_report(Position::Unbonded, listing, holdings, epoch)
        }),
{
    let ghost holdings = entries@.map_values(|e: UnbondEntry| unbond_holding(e));
    let none: Vec<Slash> = Vec::new();
    let mut total: u64 = 0;
    let mut due: u64 = 0;
    let mut report = Report::new();
    let mut i: usize = 0;
    while i < entries.len()
        invariant
            i <= entries.len(),
            holdings == entries@.map_values(|e: UnbondEntry| unbond_holding(e)),
            holdings_in_range(Position::Unbonded, holdings, epoch),
            none@.len() == 0,
            holdings_sums(Position::Unbonded, holdings.take(i as int), epoch) is Some,
            total == holdings_sums(Position::Unbonded, holdings.take(i as int), epoch)->0.total,
            due == holdings_sums(Position::Unbonded, holdings.take(i as int), epoch)->0.due,
            report@ == holdings_report(
                Position::Unbonded,
                listing,
                holdings.take(i as int),
                epoch,
            ),
        decreases entries.len() - i,
    {
        let entry = &entries[i];
        let slashes = match &entry.slashes {
            Some(slashes) => slashes,
            None => &none,
        };
        proof {
            assert(slashes@ =~= slashes_of(entry.slashes));
            assert(holdings.take(i + 1).drop_last() =~= holdings.take(i as int));
            lemma_holdings_prefix(Position::Unbonded, holdings, i + 1, epoch);
        }
        let ghost before = report@;
        report.push(
            header_line(Position::Unbonded, listing, &entry.source, &entry.validator),
        );
        let (new_total, new_due, account) = process_unbonds_query(
            &entry.unbonds,
            slashes,
            epoch,
            Some(&entry.source),
            Some(total),
            Some(due),
        );
        report.append(account);
        assert(report@ =~= before + holding_report(
            Position::Unbonded,
            listing,
            holdings[i as int],
            epoch,
        ));
        total = new_total;
        due = new_due;
        i = i + 1;
    }
    assert(holdings.take(i as int) =~= holdings);
    (total, due, report)
}

/// Whether the sums over several unbonds are amounts.
fn unbonds_listing_in_range(entries: &Vec<UnbondEntry>, epoch: u64) -> (yes: bool)
    ensures
        yes == holdings_in_range(
            Position::Unbonded,
            entries@.map_values(|e: UnbondEntry| unbond_holding(e)),
            epoch,
        ),
{
    let ghost holdings = entries@.map_values(|e: UnbondEntry| unbond_holding(e));
    let none: Vec<Slash> = Vec::new();
    let mut total: u64 = 0;
    let mut due: u64 = 0;
    let mut i: usize = 0;
    while i < entries.len()
        invariant
            i <= entries.len(),
            holdings == entries@.map_values(|e: UnbondEntry| unbond_holding(e)),
            none@.len() == 0,
            holdings_sums(Position::Unbonded, holdings.take(i as int), epoch) is Some,
            total == holdings_sums(Position::Unbonded, holdings.take(i as int), epoch)->0.total,
            due == holdings_sums(Position::Unbonded, holdings.take(i as int), epoch)->0.due,
        decreases entries.len() - i,
    {
        let entry = &entries[i];
        let slashes = match &entry.slashes {
            Some(slashes) => slashes,
            None => &none,
        };
        proof {
            assert(slashes@ =~= slashes_of(entry.slashes));
            assert(holdings.take(i + 1).drop_last() =~= holdings.take(i as int));
            if holdings_sums(Position::Unbonded, holdings, epoch) is Some {
                lemma_holdings_prefix(Position::Unbonded, holdings, i + 1, epoch);
            }
        }
        let rows = rows_of_unbonds(&entry.unbonds);
        match add_sums(Position::Unbonded, &rows, slashes, epoch, total, due) {
            Some((new_total, new_due)) => {
                total = new_total;
                due = new_due;
            },
            None => {
                return false;
            },
        }
        i = i + 1;
    }
    assert(holdings.take(i as int) =~= holdings);
    true
}

/// The totals below the holdings of a listing.
fn totals_report(position: Position, listing: Listing, total: u64, due: u64) -> (report: Report)
    ensures
        report@ == listing_totals(position, listing, total, due),
{
    let mut report = Report::new();
    match (position, listing) {
        (Position::Bonded, Listing::Source) => {
            if due != 0 && due != total {
                report.push(Line::out().text("Active bonds total: ").amount(due));
            }
        },
        (Position::Bonded, Listing::All) => {
            if due != 0 && due != total {
                report.push(Line::out().text("Bond total active: ").amount(due));
            }
            report.push(Line::out().text("Bond total: ").amount(total));
        },
        (Position::Unbonded, Listing::Source) => {
            if due != 0 {
                report.push(Line::out().text("Withdrawable total: ").amount(due));
            }
        },
        (Position::Unbonded, Listing::All) => {
            if due != 0 {
                report.push(Line::out().text("Withdrawable total: ").amount(due));
            }
            report.push(Line::out().text("Unbonded total: ").amount(total));
        },
    }
    assert(report@ =~= listing_totals(position, listing, total, due));
    report
}

/// The account of all bonds and unbonds of a listing.
fn query_listing(
    bonds: &Option<Vec<BondEntry>>,
    unbonds: &Option<Vec<UnbondEntry>>,
    epoch: u64,
    listing: Listing,
) -> (report: Report)
    requires
        holdings_in_range(Position::Bonded, bond_holdings(*bonds), epoch),
        holdings_in_range(Position::Unbonded, unbond_holdings(*unbonds), epoch),
    ensures
        report@ == listing_report(Position::Bonded, listing, bond_holdings(*bonds), epoch)
            + listing_report(Position::Unbonded, listing, unbond_holdings(*unbonds), epoch),
{
    let no_bonds: Vec<BondEntry> = Vec::new();
    let bond_entries = match bonds {
        Some(bonds) => bonds,
        None => &no_bonds,
    };
    assert(bond_entries@.map_values(|e: BondEntry| bond_holding(e)) =~= bond_holdings(*bonds));
    let (total, active, mut report) = list_bonds(bond_entries, epoch, listing);
    report.append(totals_report(Position::Bonded, listing, total, active));
    let no_unbonds: Vec<UnbondEntry> = Vec::new();
    let unbond_entries = match unbonds {
        Some(unbonds) => unbonds,
        None => &no_unbonds,
    };
    assert(unbond_entries@.map_values(|e: UnbondEntry| unbond_holding(e)) =~= unbond_holdings(
        *unbonds,
    ));
    let (total, withdrawable, unbonded) = list_unbonds(unbond_entries, epoch, listing);
    report.append(unbonded);
    report.append(totals_report(Position::Unbonded, listing, total, withdrawable));
    assert(report@ =~= listing_report(Position::Bonded, listing, bond_holdings(*bonds), epoch)
        + listing_report(Position::Unbonded, listing, unbond_holdings(*unbonds), epoch));
    report
}

/// The account of one pair of owner and validator, with the line to show where nothing
/// was found.
fn query_pair(
    own: bool,
    bonds: &Option<Vec<Bond>>,
    unbonds: &Option<Vec<Unbond>>,
    slashes: &Option<Vec<Slash>>,
    epoch: u64,
    nothing: Line,
) -> (report: Report)
    requires
        rows_in_range(
            Position::Bonded,
            found_bond_rows(*bonds),
            slashes_of(*slashes),
            epoch,
        ),
        rows_in_range(
            Position::Unbonded,
            found_unbond_rows(*unbonds),
            slashes_of(*slashes),
            epoch,
        ),
    ensures
        report@ == pair_report(own, *bonds, *unbonds, slashes_of(*slashes), epoch, nothing@),
{
    let none: Vec<Slash> = Vec::new();
    let slash_list = match slashes {
        Some(slashes) => slashes,
        None => &none,
    };
    assert(slash_list@ =~= slashes_of(*slashes));
    let mut report = Report::new();
    if let Some(bonds) = bonds {
        if own {
            report.push(Line::out().text("Self-bonds:"));
        } else {
            report.push(Line::out().text("Delegations:"));
        }
        let (_, _, account) = process_bonds_query(bonds, slash_list, epoch, None, None, None);
        report.append(account);
    }
    assert(report@ =~= pair_part(
        Position::Bonded,
        own,
        found_bond_rows(*bonds),
        slash_list@,
        epoch,
    ));
    let ghost bonded = report@;
    if let Some(unbonds) = unbonds {
        if own {
            report.push(Line::out().text("Unbonded self-bonds:"));
        } else {
            report.push(Line::out().text("Unbonded delegations:"));
        }
        let (_, _, account) = process_unbonds_query(
            unbonds,
            slash_list,
            epoch,
            None,
            None,
            None,
        );
        report.append(account);
    }
    assert(report@ =~= bonded + pair_part(
        Position::Unbonded,
        own,
        found_unbond_rows(*unbonds),
        slash_list@,
        epoch,
    ));
    if bonds.is_none() && unbonds.is_none() {
        report.push(nothing);
    }
    assert(report@ =~= pair_report(own, *bonds, *unbonds, slash_list@, epoch, nothing@));
    report
}

/// Query bonds: the report of what the ledger holds.
pub fn query_bonds(found: &BondsFound, epoch: u64) -> (report: Report)
    requires
        bonds_in_range(*found, epoch),
    ensures
        report@ == bonds_report(*found, epoch),
{
    match found {
        BondsFound::Delegation { owner, validator, bonds, unbonds, slashes } => query_pair(
            *owner == *validator,
            bonds,
            unbonds,
            slashes,
            epoch,
            Line::out().text("No delegations found for ").text(owner.as_str()).text(
                " to validator ",
            ).text(validator.as_str()),
        ),
        BondsFound::SelfBonds { validator, bonds, unbonds, slashes } => query_pair(
            true,
            bonds,
            unbonds,
            slashes,
            epoch,
            Line::out().text("No self-bonds found for validator ").text(validator.as_str()),
        ),
        BondsFound::Source { owner, bonds, unbonds } => {
            let mut report = query_listing(bonds, unbonds, epoch, Listing::Source);
            let ghost listed = report@;
            let any_bonds = match bonds {
                Some(bonds) => bonds.len() > 0,
                None => false,
            };
            let any_unbonds = match unbonds {
                Some(unbonds) => unbonds.len() > 0,
                None => false,
            };
            if !any_bonds && !any_unbonds {
                report.push(
                    Line::out().text("No self-bonds or delegations found for ").text(
                        owner.as_str(),
                    ),
                );
            }
            assert(report@ =~= bonds_report(*found, epoch));
            report
        },
        BondsFound::All { bonds, unbonds } => query_listing(
            bonds,
            unbonds,
            epoch,
            Listing::All,
        ),
    }
}

/// Whether the sums over bonds, if there are any, are amounts.
fn pair_in_range(
    bonds: &Option<Vec<Bond>>,
    unbonds: &Option<Vec<Unbond>>,
    slashes: &Option<Vec<Slash>>,
    epoch: u64,
) -> (yes: bool)
    ensures
        yes == (rows_in_range(
            Position::Bonded,
            found_bond_rows(*bonds),
            slashes_of(*slashes),
            epoch,
        ) && rows_in_range(
            Position::Unbonded,
            found_unbond_rows(*unbonds),
            slashes_of(*slashes),
            epoch,
        )),
{
    let none: Vec<Slash> = Vec::new();
    let slash_list = match slashes {
        Some(slashes) => slashes,
        None => &none,
    };
    assert(slash_list@ =~= slashes_of(*slashes));
    let bonded = match bonds {
        Some(bonds) => {
            let rows = rows_of_bonds(bonds);
            add_sums(Position::Bonded, &rows, slash_list, epoch, 0, 0).is_some()
        },
        None => true,
    };
    let unbonded = match unbonds {
        Some(unbonds) => {
            let rows = rows_of_unbonds(unbonds);
            add_sums(Position::Unbonded, &rows, slash_list, epoch, 0, 0).is_some()
        },
        None => true,
    };
    bonded && unbonded
}

/// Whether the sums over all bonds and unbonds of a listing are amounts.
fn listing_in_range(
    bonds: &Option<Vec<BondEntry>>,
    unbonds: &Option<Vec<UnbondEntry>>,
    epoch: u64,
) -> (yes: bool)
    ensures
        yes == (holdings_in_range(Position::Bonded, bond_holdings(*bonds), epoch)
            && holdings_in_range(Position::Unbonded, unbond_holdings(*unbonds), epoch)),
{
    let bonded = match bonds {
        Some(bonds) => bonds_listing_in_range(bonds, epoch),
        None => true,
    };
    let unbonded = match unbonds {
        Some(unbonds) => unbonds_listing_in_range(unbonds, epoch),
        None => true,
    };
    bonded && unbonded
}

/// As [`query_bonds`], with `None` where a sum leaves the range of amounts.
pub fn checked_query_bonds(found: &BondsFound, epoch: u64) -> (report: Option<Report>)
    ensures
        report is Some == bonds_in_range(*found, epoch),
        report matches Some(report) ==> report@ == bonds_report(*found, epoch),
{
    let fits = match found {
        BondsFound::Delegation { owner: _, validator: _, bonds, unbonds, slashes } => {
            pair_in_range(bonds, unbonds, slashes, epoch)
        },
        BondsFound::SelfBonds { validator: _, bonds, unbonds, slashes } => pair_in_range(
            bonds,
            unbonds,
            slashes,
            epoch,
        ),
        BondsFound::Source { owner: _, bonds, unbonds } => listing_in_range(
            bonds,
            unbonds,
            epoch,
        ),
        BondsFound::All { bonds, unbonds } => listing_in_range(bonds, unbonds, epoch),
    };
    if fits {
        Some(query_bonds(found, epoch))
    } else {
        None
    }
}

/// The holdings with the amounts only of which the epoch has come.
pub open spec fn come_holdings(position: Position, holdings: Seq<Holding>, epoch: u64) -> Seq<
    Holding,
> {
    holdings.map_values(
        |holding: Holding|
            Holding { rows: come_rows(position, holding.rows, epoch), ..holding },
    )
}

/// The sums over joined lists of holdings add up, and those over one holding are those over
/// its amounts with its slashes.
pub proof fn lemma_holdings_sums_join(
    position: Position,
    first: Seq<Holding>,
    second: Seq<Holding>,
    holding: Holding,
    epoch: u64,
)
    ensures
        holdings_sums(position, first + second, epoch) == match (
            holdings_sums(position, first, epoch),
            holdings_sums(position, second, epoch),
        ) {
            (Some(a), Some(b)) => Some(Sums { total: a.total + b.total, due: a.due + b.due }),
            _ => None,
        },
        holdings_sums(position, seq![holding], epoch) == sums(
            position,
            holding.rows,
            holding.slashes,
            epoch,
        ),
    decreases second.len(),
{
    assert(seq![holding].drop_last() =~= Seq::<Holding>::empty());
    assert(holdings_sums(position, Seq::<Holding>::empty(), epoch) == Some(
        Sums { total: 0, due: 0 },
    ));
    if second.len() == 0 {
        assert(first + second =~= first);
    } else {
        assert((first + second).drop_last() =~= first + second.drop_last());
        lemma_holdings_sums_join(position, first, second.drop_last(), holding, epoch);
    }
}

/// What is active or withdrawable in holdings is the total of their amounts of which the epoch
/// has come.
pub proof fn lemma_holdings_due_is_the_total_of_what_has_come(
    position: Position,
    holdings: Seq<Holding>,
    epoch: u64,
)
    requires
        holdings_sums(position, holdings, epoch) is Some,
    ensures
        holdings_sums(position, come_holdings(position, holdings, epoch), epoch) is Some,
        holdings_sums(position, come_holdings(position, holdings, epoch), epoch)->0.total
            == holdings_sums(position, holdings, epoch)->0.due,
    decreases holdings.len(),
{
    let come = come_holdings(position, holdings, epoch);
    if holdings.len() > 0 {
        let last = holdings.last();
        lemma_holdings_due_is_the_total_of_what_has_come(position, holdings.drop_last(), epoch);
        lemma_due_is_the_total_of_what_has_come(position, last.rows, last.slashes, epoch);
        assert(come.drop_last() =~= come_holdings(position, holdings.drop_last(), epoch));
    }
}

/// Where anything is left of an amount of which the epoch has not come, what is due in
/// holdings is less than their total.
pub proof fn lemma_what_is_to_come_in_holdings_is_not_due(
    position: Position,
    holdings: Seq<Holding>,
    epoch: u64,
    h: int,
    i: int,
)
    requires
        holdings_sums(position, holdings, epoch) is Some,
        0 <= h < holdings.len(),
        0 <= i < holdings[h].rows.len(),
        position is Bonded ==> epoch < holdings[h].rows[i].0,
        position is Unbonded ==> epoch <= holdings[h].rows[i].1,
        sums(position, seq![holdings[h].rows[i]], holdings[h].slashes, epoch)->0.total > 0,
    ensures
        holdings_sums(position, holdings, epoch)->0.due < holdings_sums(
            position,
            holdings,
            epoch,
        )->0.total,
    decreases holdings.len(),
{
    let rest = holdings.drop_last();
    let last = holdings.last();
    lemma_holdings_due_within_total(position, rest, epoch);
    lemma_due_within_total(position, last.rows, last.slashes, epoch);
    if h < holdings.len() - 1 {
        assert(rest[h] == holdings[h]);
        lemma_what_is_to_come_in_holdings_is_not_due(position, rest, epoch, h, i);
    } else {
        lemma_what_is_to_come_is_not_due(position, last.rows, last.slashes, epoch, i);
    }
}

/// A listing ends in its totals. The amount shown as active or withdrawable is the total of
/// the amounts of which the epoch has come, and is shown where there is any, and of bonds
/// where some are still to come. All holdings together are shown with their total behind that.
pub proof fn lemma_totals_of_a_listing(
    position: Position,
    listing: Listing,
    holdings: Seq<Holding>,
    epoch: u64,
)
    requires
        holdings_in_range(position, holdings, epoch),
    ensures
        ({
            let total = holdings_sums(position, holdings, epoch)->0.total as u64;
            let come = holdings_sums(
                position,
                come_holdings(position, holdings, epoch),
                epoch,
            )->0.total as u64;
            let come_text = match (position, listing) {
                (Position::Bonded, Listing::Source) => "Active bonds total: "@,
                (Position::Bonded, Listing::All) => "Bond total active: "@,
                (Position::Unbonded, _) => "Withdrawable total: "@,
            };
            let total_text = match position {
                Position::Bonded => "Bond total: "@,
                Position::Unbonded => "Unbonded total: "@,
            };
            let come_lines = if come != 0 && (position is Unbonded || come != total) {
                seq![printed(seq![PieceView::Text(come_text), PieceView::Amount(come)])]
            } else {
                Seq::empty()
            };
            let total_lines = if listing is All {
                seq![printed(seq![PieceView::Text(total_text), PieceView::Amount(total)])]
            } else {
                Seq::empty()
            };
            listing_report(position, listing, holdings, epoch) == holdings_report(
                position,
                listing,
                holdings,
                epoch,
            ) + come_lines + total_lines
        }),
{
    lemma_holdings_due_is_the_total_of_what_has_come(position, holdings, epoch);
    let sums = holdings_sums(position, holdings, epoch)->0;
    let total = sums.total as u64;
    let due = sums.due as u64;
    lemma_holdings_due_within_total(position, holdings, epoch);
    assert(out().text("Active bonds total: "@).amount(due) =~= printed(
        seq![PieceView::Text("Active bonds total: "@), PieceView::Amount(due)],
    ));
    assert(out().text("Bond total active: "@).amount(due) =~= printed(
        seq![PieceView::Text("Bond total active: "@), PieceView::Amount(due)],
    ));
    assert(out().text("Withdrawable total: "@).amount(due) =~= printed(
        seq![PieceView::Text("Withdrawable total: "@), PieceView::Amount(due)],
    ));
    assert(out().text("Bond total: "@).amount(total) =~= printed(
        seq![PieceView::Text("Bond total: "@), PieceView::Amount(total)],
    ));
    assert(out().text("Unbonded total: "@).amount(total) =~= printed(
        seq![PieceView::Text("Unbonded total: "@), PieceView::Amount(total)],
    ));
}

/// The holdings of joined lists are reported list by list.
pub proof fn lemma_holdings_reports_join(
    position: Position,
    listing: Listing,
    first: Seq<Holding>,
    second: Seq<Holding>,
    epoch: u64,
)
    ensures
        holdings_report(position, listing, first + second, epoch) == holdings_report(
            position,
            listing,
            first,
            epoch,
        ) + holdings_report(position, listing, second, epoch),
    decreases second.len(),
{
    if second.len() == 0 {
        assert(first + second =~= first);
    } else {
        assert((first + second).drop_last() =~= first + second.drop_last());
        lemma_holdings_reports_join(position, listing, first, second.drop_last(), epoch);
    }
    assert(holdings_report(position, listing, first + second, epoch) =~= holdings_report(
        position,
        listing,
        first,
        epoch,
    ) + holdings_report(position, listing, second, epoch));
}

/// A holding stands under a line that names whose it is. Only its owner is named where that is
/// the validator too, and where what one owner has unbonded is listed; nobody is named where
/// both hold.
pub proof fn lemma_headers_of_holdings(source: Seq<char>, validator: Seq<char>)
    ensures
        source == validator ==> {
            &&& holding_header(Position::Bonded, Listing::Source, source, validator) == printed(
                seq![PieceView::Text("Self-bonds:"@)],
            )
            &&& holding_header(Position::Unbonded, Listing::Source, source, validator) == printed(
                seq![PieceView::Text("Unbonded self-bonds:"@)],
            )
            &&& holding_header(Position::Bonded, Listing::All, source, validator) == printed(
                seq![
                    PieceView::Text("Self-bonds for "@),
                    PieceView::Text(source),
                    PieceView::Text(":"@),
                ],
            )
            &&& holding_header(Position::Unbonded, Listing::All, source, validator) == printed(
                seq![
                    PieceView::Text("Unbonded self-bonds for "@),
                    PieceView::Text(source),
                    PieceView::Text(":"@),
                ],
            )
        },
        source != validator ==> {
            &&& holding_header(Position::Bonded, Listing::Source, source, validator) == printed(
                seq![
                    PieceView::Text("Delegations from "@),
                    PieceView::Text(source),
                    PieceView::Text(" to "@),
                    PieceView::Text(validator),
                    PieceView::Text(":"@),
                ],
            )
            &&& holding_header(Position::Unbonded, Listing::Source, source, validator) == printed(
                seq![
                    PieceView::Text("Unbonded delegations from "@),
                    PieceView::Text(source),
                    PieceView::Text(":"@),
                ],
            )
            &&& holding_header(Position::Bonded, Listing::All, source, validator) == printed(
                seq![
                    PieceView::Text("Delegations from "@),
                    PieceView::Text(source),
                    PieceView::Text(" to validator "@),
                    PieceView::Text(validator),
                    PieceView::Text(":"@),
                ],
            )
            &&& holding_header(Position::Unbonded, Listing::All, source, validator) == printed(
                seq![
                    PieceView::Text("Unbonded delegations from "@),
                    PieceView::Text(source),
                    PieceView::Text(" to validator "@),
                    PieceView::Text(validator),
                    PieceView::Text(":"@),
                ],
            )
        },
{
}

/// One holding is reported under its line, with all its amounts, and closed by what the
/// slashes leave of them together.
pub proof fn lemma_report_of_one_holding(
    position: Position,
    listing: Listing,
    holding: Holding,
    epoch: u64,
)
    ensures
        holdings_report(position, listing, seq![holding], epoch) == seq![
            holding_header(position, listing, holding.source, holding.validator),
        ] + rows_report(position, holding.rows, holding.slashes) + seq![
            printed(
                seq![
                    PieceView::Text(
                        if position is Bonded {
                            "  Bonded total from "@
                        } else {
                            "  Unbonded total from "@
                        },
                    ),
                    PieceView::Text(holding.source),
                    PieceView::Text(": "@),
                    PieceView::Amount(
                        sums(position, holding.rows, holding.slashes, epoch)->0.total as u64,
                    ),
                ],
            ),
        ],
{
    let total = sums(position, holding.rows, holding.slashes, epoch)->0.total as u64;
    assert(seq![holding].drop_last() =~= Seq::<Holding>::empty());
    assert(holdings_report(position, listing, Seq::<Holding>::empty(), epoch) =~= seq![]);
    lemma_closing_lines(position, holding.source, total, 0, 0);
    assert(holdings_report(position, listing, seq![holding], epoch) =~= holding_report(
        position,
        listing,
        holding,
        epoch,
    ));
}

/// What a query finds for one pair of owner and validator, bonds and unbonds, is reported one
/// behind the other, as each would be alone.
pub proof fn lemma_bonds_and_unbonds_of_a_pair(
    owner: String,
    validator: String,
    bonds: Vec<Bond>,
    unbonds: Vec<Unbond>,
    slashes: Option<Vec<Slash>>,
    epoch: u64,
)
    ensures
        bonds_report(
            BondsFound::Delegation {
                owner,
                validator,
                bonds: Some(bonds),
                unbonds: Some(unbonds),
                slashes,
            },
            epoch,
        ) == bonds_report(
            BondsFound::Delegation {
                owner,
                validator,
                bonds: Some(bonds),
                unbonds: None,
                slashes,
            },
            epoch,
        ) + bonds_report(
            BondsFound::Delegation {
                owner,
                validator,
                bonds: None,
                unbonds: Some(unbonds),
                slashes,
            },
            epoch,
        ),
{
}

/// The stored slashes as a list.
pub open spec fn stored_slashes(slashes: Option<Vec<Slash>>) -> Seq<Slash> {
    if slashes is Some {
        slashes->0@
    } else {
        Seq::empty()
    }
}

/// The bonds of one pair are reported under a line that tells whether the owner is the
/// validator, with all amounts, slashed as the validator was, and closed by their sums.
pub proof fn lemma_bonds_of_a_pair(
    owner: String,
    validator: String,
    bonds: Vec<Bond>,
    unbonds: Vec<Unbond>,
    slashes: Option<Vec<Slash>>,
    epoch: u64,
)
    ensures
        ({
            let own = owner@ == validator@;
            let rows = all_bond_rows(bonds@);
            let found = sums(Position::Bonded, rows, stored_slashes(slashes), epoch)->0;
            bonds_report(
                BondsFound::Delegation {
                    owner,
                    validator,
                    bonds: Some(bonds),
                    unbonds: None,
                    slashes,
                },
                epoch,
            ) == seq![
                printed(
                    seq![
                        PieceView::Text(
                            if own {
                                "Self-bonds:"@
                            } else {
                                "Delegations:"@
                            },
                        ),
                    ],
                ),
            ] + rows_report(Position::Bonded, rows, stored_slashes(slashes)) + closing_lines(
                Position::Bonded,
                None,
                0,
                found.total as u64,
                found.due as u64,
            )
        }),
        ({
            let own = owner@ == validator@;
            let rows = all_unbond_rows(unbonds@);
            let found = sums(Position::Unbonded, rows, stored_slashes(slashes), epoch)->0;
            bonds_report(
                BondsFound::Delegation {
                    owner,
                    validator,
                    bonds: None,
                    unbonds: Some(unbonds),
                    slashes,
                },
                epoch,
            ) == seq![
                printed(
                    seq![
                        PieceView::Text(
                            if own {
                                "Unbonded self-bonds:"@
                            } else {
                                "Unbonded delegations:"@
                            },
                        ),
                    ],
                ),
            ] + rows_report(Position::Unbonded, rows, stored_slashes(slashes)) + closing_lines(
                Position::Unbonded,
                None,
                0,
                found.total as u64,
                found.due as u64,
            )
        }),
{
    assert(slashes_of(slashes) =~= stored_slashes(slashes));
    assert(out().text("Self-bonds:"@) =~= printed(seq![PieceView::Text("Self-bonds:"@)]));
    assert(out().text("Delegations:"@) =~= printed(seq![PieceView::Text("Delegations:"@)]));
    assert(out().text("Unbonded self-bonds:"@) =~= printed(
        seq![PieceView::Text("Unbonded self-bonds:"@)],
    ));
    assert(out().text("Unbonded delegations:"@) =~= printed(
        seq![PieceView::Text("Unbonded delegations:"@)],
    ));
}

/// What is asked for in vain is said: where a pair has neither bonds nor unbonds, and where a
/// source has none with any validator.
pub proof fn lemma_missing_bonds_are_reported(
    owner: String,
    validator: String,
    slashes: Option<Vec<Slash>>,
    epoch: u64,
)
    ensures
        bonds_report(
            BondsFound::Delegation { owner, validator, bonds: None, unbonds: None, slashes },
            epoch,
        ) == seq![
            printed(
                seq![
                    PieceView::Text("No delegations found for "@),
                    PieceView::Text(owner@),
                    PieceView::Text(" to validator "@),
                    PieceView::Text(validator@),
                ],
            ),
        ],
        bonds_report(
            BondsFound::SelfBonds { validator, bonds: None, unbonds: None, slashes },
            epoch,
        ) == seq![
            printed(
                seq![
                    PieceView::Text("No self-bonds found for validator "@),
                    PieceView::Text(validator@),
                ],
            ),
        ],
        bonds_report(BondsFound::Source { owner, bonds: None, unbonds: None }, epoch) == seq![
            printed(
                seq![
                    PieceView::Text("No self-bonds or delegations found for "@),
                    PieceView::Text(owner@),
                ],
            ),
        ],
{
    assert(out().text("No delegations found for "@).text(owner@).text(" to validator "@).text(
        validator@,
    ) =~= printed(
        seq![
            PieceView::Text("No delegations found for "@),
            PieceView::Text(owner@),
            PieceView::Text(" to validator "@),
            PieceView::Text(validator@),
        ],
    ));
    assert(out().text("No self-bonds found for validator "@).text(validator@) =~= printed(
        seq![
            PieceView::Text("No self-bonds found for validator "@),
            PieceView::Text(validator@),
        ],
    ));
    assert(out().text("No self-bonds or delegations found for "@).text(owner@) =~= printed(
        seq![
            PieceView::Text("No self-bonds or delegations found for "@),
            PieceView::Text(owner@),
        ],
    ));
}

/// Every entry that is found is a holding of the listing: the amounts of all its bonds, with
/// the stored slashes. The bonds of a source, and all bonds, are reported as such listings,
/// the bonds first; that a source has none is said only where no entry is found.
pub proof fn lemma_listings_of_entries(
    owner: String,
    bonds: Vec<BondEntry>,
    unbonds: Vec<UnbondEntry>,
    epoch: u64,
)
    ensures
        ({
            let bonded = Seq::new(
                bonds@.len(),
                |i: int|
                    Holding {
                        source: bonds@[i].source@,
                        validator: bonds@[i].validator@,
                        rows: all_bond_rows(bonds@[i].bonds@),
                        slashes: stored_slashes(bonds@[i].slashes),
                    },
            );
            let unbonded = Seq::new(
                unbonds@.len(),
                |i: int|
                    Holding {
                        source: unbonds@[i].source@,
                        validator: unbonds@[i].validator@,
                        rows: all_unbond_rows(unbonds@[i].unbonds@),
                        slashes: stored_slashes(unbonds@[i].slashes),
                    },
            );
            let all = BondsFound::All { bonds: Some(bonds), unbonds: Some(unbonds) };
            let of_source = BondsFound::Source {
                owner,
                bonds: Some(bonds),
                unbonds: Some(unbonds),
            };
            let listed = listing_report(Position::Bonded, Listing::Source, bonded, epoch)
                + listing_report(Position::Unbonded, Listing::Source, unbonded, epoch);
            &&& bonds_report(all, epoch) == listing_report(
                Position::Bonded,
                Listing::All,
                bonded,
                epoch,
            ) + listing_report(Position::Unbonded, Listing::All, unbonded, epoch)
            &&& bonds@.len() + unbonds@.len() > 0 ==> bonds_report(of_source, epoch) == listed
            &&& bonds_in_range(all, epoch) == bonds_in_range(of_source, epoch)
            &&& bonds_in_range(all, epoch) == (holdings_in_range(Position::Bonded, bonded, epoch)
                && holdings_in_range(Position::Unbonded, unbonded, epoch))
        }),
{
    assert forall|i: int| 0 <= i < bonds@.len() implies slashes_of(
        #[trigger] bonds@[i].slashes,
    ) == stored_slashes(bonds@[i].slashes) by {
        assert(slashes_of(bonds@[i].slashes) =~= stored_slashes(bonds@[i].slashes));
    }
    assert forall|i: int| 0 <= i < unbonds@.len() implies slashes_of(
        #[trigger] unbonds@[i].slashes,
    ) == stored_slashes(unbonds@[i].slashes) by {
        assert(slashes_of(unbonds@[i].slashes) =~= stored_slashes(unbonds@[i].slashes));
    }
    assert(bond_holdings(Some(bonds)) =~= Seq::new(
        bonds@.len(),
        |i: int|
            Holding {
                source: bonds@[i].source@,
                validator: bonds@[i].validator@,
                rows: all_bond_rows(bonds@[i].bonds@),
                slashes: stored_slashes(bonds@[i].slashes),
            },
    ));
    assert(unbond_holdings(Some(unbonds)) =~= Seq::new(
        unbonds@.len(),
        |i: int|
            Holding {
                source: unbonds@[i].source@,
                validator: unbonds@[i].validator@,
                rows: all_unbond_rows(unbonds@[i].unbonds@),
                slashes: stored_slashes(unbonds@[i].slashes),
            },
    ));
}

/// A query for bonds can be reported on exactly where every sum in its report exists and does
/// not exceed the largest amount.
pub proof fn lemma_range_of_a_query(
    owner: String,
    validator: String,
    bonds: Vec<Bond>,
    unbonds: Vec<Unbond>,
    slashes: Option<Vec<Slash>>,
    position: Position,
    holdings: Seq<Holding>,
    epoch: u64,
)
    ensures
        ({
            let bonded = sums(
                Position::Bonded,
                all_bond_rows(bonds@),
                stored_slashes(slashes),
                epoch,
            );
            let unbonded = sums(
                Position::Unbonded,
                all_unbond_rows(unbonds@),
                stored_slashes(slashes),
                epoch,
            );
            let bonded_fits = bonded is Some && bonded->0.total < 0x1_0000_0000_0000_0000;
            let unbonded_fits = unbonded is Some && unbonded->0.total < 0x1_0000_0000_0000_0000;
            &&& bonds_in_range(
                BondsFound::Delegation {
                    owner,
                    validator,
                    bonds: Some(bonds),
                    unbonds: None,
                    slashes,
                },
                epoch,
            ) == bonded_fits
            &&& bonds_in_range(
                BondsFound::Delegation {
                    owner,
                    validator,
                    bonds: None,
                    unbonds: Some(unbonds),
                    slashes,
                },
                epoch,
            ) == unbonded_fits
            &&& bonds_in_range(
                BondsFound::Delegation {
                    owner,
                    validator,
                    bonds: Some(bonds),
                    unbonds: Some(unbonds),
                    slashes,
                },
                epoch,
            ) == (bonded_fits && unbonded_fits)
            &&& bonds_in_range(
                BondsFound::Delegation { owner, validator, bonds: None, unbonds: None, slashes },
                epoch,
            )
            &&& bonds_in_range(
                BondsFound::SelfBonds { validator, bonds: None, unbonds: None, slashes },
                epoch,
            )
        }),
        ({
            let found = holdings_sums(position, holdings, epoch);
            holdings_in_range(position, holdings, epoch) == (found is Some && found->0.total
                < 0x1_0000_0000_0000_0000)
        }),
{
    assert(slashes_of(slashes) =~= stored_slashes(slashes));
    lemma_due_within_total(
        Position::Bonded,
        all_bond_rows(bonds@),
        stored_slashes(slashes),
        epoch,
    );
    lemma_due_within_total(
        Position::Unbonded,
        all_unbond_rows(unbonds@),
        stored_slashes(slashes),
        epoch,
    );
    lemma_holdings_due_within_total(position, holdings, epoch);
}

/// That nothing is stored is reported as an empty list is.
pub proof fn lemma_nothing_stored_is_nothing_held(
    owner: String,
    bonds: Option<Vec<BondEntry>>,
    unbonds: Option<Vec<UnbondEntry>>,
    no_bonds: Vec<BondEntry>,
    no_unbonds: Vec<UnbondEntry>,
    epoch: u64,
)
    requires
        no_bonds@.len() == 0,
        no_unbonds@.len() == 0,
    ensures
        bonds_report(BondsFound::All { bonds: None, unbonds }, epoch) == bonds_report(
            BondsFound::All { bonds: Some(no_bonds), unbonds },
            epoch,
        ),
        bonds_report(BondsFound::All { bonds, unbonds: None }, epoch) == bonds_report(
            BondsFound::All { bonds, unbonds: Some(no_unbonds) },
            epoch,
        ),
        bonds_report(BondsFound::Source { owner, bonds: None, unbonds }, epoch) == bonds_report(
            BondsFound::Source { owner, bonds: Some(no_bonds), unbonds },
            epoch,
        ),
        bonds_report(BondsFound::Source { owner, bonds, unbonds: None }, epoch) == bonds_report(
            BondsFound::Source { owner, bonds, unbonds: Some(no_unbonds) },
            epoch,
        ),
        bonds_in_range(BondsFound::All { bonds: None, unbonds }, epoch) == bonds_in_range(
            BondsFound::All { bonds: Some(no_bonds), unbonds },
            epoch,
        ),
        bonds_in_range(BondsFound::All { bonds, unbonds: None }, epoch) == bonds_in_range(
            BondsFound::All { bonds, unbonds: Some(no_unbonds) },
            epoch,
        ),
        bonds_in_range(BondsFound::All { bonds, unbonds }, epoch) == bonds_in_range(
            BondsFound::Source { owner, bonds, unbonds },
            epoch,
        ),
{
    assert(bond_holdings(Some(no_bonds)) =~= bond_holdings(None));
    assert(unbond_holdings(Some(no_unbonds)) =~= unbond_holdings(None));
}

} // verus!
