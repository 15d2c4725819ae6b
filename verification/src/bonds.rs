//! Totals and reports of bonds and unbonds.

use vstd::prelude::*;

use crate::deltas::{
    all_bond_rows, all_unbond_rows, raw_total, rows_of_bonds, rows_of_unbonds, Bond, Row, Unbond,
};
use crate::report::{out, printed, Line, LineView, PieceView, Report};
use crate::slashing::{
    after_slashes, amount_after_slashes, apply_slashes, lemma_slashing_never_adds,
    slashing_report, Slash,
};

verus! {

/// Whether amounts are bonded or were unbonded.
#[derive(Clone, Copy, Debug, PartialEq, Eq, Structural)]
pub enum Position {
    Bonded,
    Unbonded,
}

/// The epoch from which an amount can be withdrawn: the one behind its last, where it was
/// unbonded.
pub open spec fn withdraw_epoch(position: Position, row: Row) -> Option<u64> {
    match position {
        Position::Bonded => None,
        Position::Unbonded => Some((row.1 + 1) as u64),
    }
}

/// Whether an amount is due in an epoch: active where it is bonded, withdrawable where it
/// was unbonded.
pub open spec fn is_due(position: Position, row: Row, epoch: u64) -> bool {
    match position {
        Position::Bonded => epoch >= row.0,
        Position::Unbonded => epoch > row.1,
    }
}

/// What the slashes leave of an amount; `None` where that cannot be computed: where one
/// of their cuts cannot be taken off or no epoch comes behind the amount's last.
pub open spec fn row_left(position: Position, row: Row, slashes: Seq<Slash>) -> Option<u64> {
    if position is Unbonded && row.1 == u64::MAX {
        None
    } else {
        after_slashes(slashes, row.2, row.0, withdraw_epoch(position, row))
    }
}

/// What the slashes leave of several amounts, and the part of it that is due.
pub struct Sums {
    pub total: int,
    pub due: int,
}

/// The sums over several amounts; `None` where one of them cannot be computed.
pub open spec fn sums(
    position: Position,
    rows: Seq<Row>,
    slashes: Seq<Slash>,
    epoch: u64,
) -> Option<Sums>
    decreases rows.len(),
{
    if rows.len() == 0 {
        Some(Sums { total: 0, due: 0 })
    } else {
        match (
            sums(position, rows.drop_last(), slashes, epoch),
            row_left(position, rows.last(), slashes),
        ) {
            (Some(before), Some(left)) => Some(
                Sums {
                    total: before.total + left,
                    due: before.due + if is_due(position, rows.last(), epoch) {
                        left as int
                    } else {
                        0
                    },
                },
            ),
            _ => None,
        }
    }
}

/// Whether the sums exist and stay amounts when they are added to those carried along.
pub open spec fn in_range(
    position: Position,
    rows: Seq<Row>,
    slashes: Seq<Slash>,
    epoch: u64,
    total: u64,
    due: u64,
) -> bool {
    match sums(position, rows, slashes, epoch) {
        Some(sums) => total + sums.total <= u64::MAX && due + sums.due <= u64::MAX,
        None => false,
    }
}

/// The line that announces an amount.
pub open spec fn row_line(position: Position, row: Row) -> LineView {
    match position {
        Position::Bonded => out().text("  Active from epoch "@).number(row.0).text(
            ": Δ "@,
        ).amount(row.2),
        Position::Unbonded => out().text("  Withdrawable from epoch "@).number(
            (row.1 + 1) as u64,
        ).text(" (active from "@).number(row.0).text("): Δ "@).amount(row.2),
    }
}

/// The line of an amount and the account of its slashes.
pub open spec fn row_report(position: Position, row: Row, slashes: Seq<Slash>) -> Seq<LineView> {
    seq![row_line(position, row)] + slashing_report(
        slashes,
        row.2,
        row.0,
        withdraw_epoch(position, row),
    )
}

/// The lines of several amounts and the accounts of their slashes.
pub open spec fn rows_report(
    position: Position,
    rows: Seq<Row>,
    slashes: Seq<Slash>,
) -> Seq<LineView>
    decreases rows.len(),
{
    if rows.len() == 0 {
        seq![]
    } else {
        rows_report(position, rows.drop_last(), slashes) + row_report(
            position,
            rows.last(),
            slashes,
        )
    }
}

/// The sums over some amounts exist where those over more of them do, and are no larger.
proof fn lemma_sums_prefix(
    position: Position,
    rows: Seq<Row>,
    count: int,
    slashes: Seq<Slash>,
    epoch: u64,
)
    requires
        0 <= count <= rows.len(),
        sums(position, rows, slashes, epoch) is Some,
    ensures
        sums(position, rows.take(count), slashes, epoch) is Some,
        sums(position, rows.take(count), slashes, epoch)->0.total <= sums(
            position,
            rows,
            slashes,
            epoch,
        )->0.total,
        sums(position, rows.take(count), slashes, epoch)->0.due <= sums(
            position,
            rows,
            slashes,
            epoch,
        )->0.due,
    decreases rows.len(),
{
    if count == rows.len() {
        assert(rows.take(count) =~= rows);
    } else {
        assert(rows.drop_last().take(count) =~= rows.take(count));
        lemma_sums_prefix(position, rows.drop_last(), count, slashes, epoch);
    }
}

/// The part that is due is at most the total, and neither is negative.
pub proof fn lemma_due_within_total(
    position: Position,
    rows: Seq<Row>,
    slashes: Seq<Slash>,
    epoch: u64,
)
    ensures
        sums(position, rows, slashes, epoch) matches Some(sums) ==> 0 <= sums.due <= sums.total,
    decreases rows.len(),
{
    if rows.len() > 0 {
        lemma_due_within_total(position, rows.drop_last(), slashes, epoch);
    }
}

/// The sums over joined lists of amounts are the sums over the lists added up.
pub proof fn lemma_sums_join(
    position: Position,
    first: Seq<Row>,
    second: Seq<Row>,
    slashes: Seq<Slash>,
    epoch: u64,
)
    ensures
        sums(position, first + second, slashes, epoch) == match (
            sums(position, first, slashes, epoch),
            sums(position, second, slashes, epoch),
        ) {
            (Some(a), Some(b)) => Some(Sums { total: a.total + b.total, due: a.due + b.due }),
            _ => None,
        },
    decreases second.len(),
{
    if second.len() == 0 {
        assert(first + second =~= first);
    } else {
        assert((first + second).drop_last() =~= first + second.drop_last());
        lemma_sums_join(position, first, second.drop_last(), slashes, epoch);
    }
}

/// The total is never more than what was bonded.
pub proof fn lemma_total_within_bonded(
    position: Position,
    rows: Seq<Row>,
    slashes: Seq<Slash>,
    epoch: u64,
)
    ensures
        sums(position, rows, slashes, epoch) matches Some(sums) ==> sums.total <= raw_total(rows),
    decreases rows.len(),
{
    if rows.len() > 0 {
        lemma_total_within_bonded(position, rows.drop_last(), slashes, epoch);
        let row = rows.last();
        lemma_slashing_never_adds(slashes, row.2, row.0, withdraw_epoch(position, row));
    }
}

/// Without slashes the total is what was bonded.
pub proof fn lemma_unslashed_total(position: Position, rows: Seq<Row>, epoch: u64)
    requires
        position is Unbonded ==> forall|i: int|
            0 <= i < rows.len() ==> (#[trigger] rows[i]).1 < u64::MAX,
    ensures
        sums(position, rows, seq![], epoch) is Some,
        sums(position, rows, seq![], epoch)->0.total == raw_total(rows),
    decreases rows.len(),
{
    if rows.len() > 0 {
        assert forall|i: int| position is Unbonded && 0 <= i < rows.len() - 1 implies (
        #[trigger] rows.drop_last()[i]).1 < u64::MAX by {
            assert(rows.drop_last()[i] == rows[i]);
        }
        lemma_unslashed_total(position, rows.drop_last(), epoch);
    }
}

/// With time bonds become active and unbonds withdrawable, and none ceases to be; the
/// total does not depend on the epoch.
pub proof fn lemma_due_grows_with_time(
    position: Position,
    rows: Seq<Row>,
    slashes: Seq<Slash>,
    earlier: u64,
    later: u64,
)
    requires
        earlier <= later,
    ensures
        sums(position, rows, slashes, earlier) is Some == sums(
            position,
            rows,
            slashes,
            later,
        ) is Some,
        sums(position, rows, slashes, earlier) is Some ==> {
            let before = sums(position, rows, slashes, earlier)->0;
            let after = sums(position, rows, slashes, later)->0;
            before.total == after.total && before.due <= after.due
        },
    decreases rows.len(),
{
    if rows.len() > 0 {
        lemma_due_grows_with_time(position, rows.drop_last(), slashes, earlier, later);
    }
}

/// What is left of an amount, or `None` where that cannot be computed.
fn amount_left(position: Position, row: Row, slashes: &Vec<Slash>) -> (left: Option<u64>)
    ensures
        left == row_left(position, row, slashes@),
{
    match position {
        Position::Bonded => amount_after_slashes(slashes, row.2, row.0, None),
        Position::Unbonded => if row.1 == u64::MAX {
            None
        } else {
            amount_after_slashes(slashes, row.2, row.0, Some(row.1 + 1))
        },
    }
}

/// Whether an amount is due.
fn row_due(position: Position, row: Row, epoch: u64) -> (due: bool)
    ensures
        due == is_due(position, row, epoch),
{
    match position {
        Position::Bonded => epoch >= row.0,
        Position::Unbonded => epoch > row.1,
    }
}

/// Adds the sums over the amounts to those carried along, or gives `None` where that
/// leaves the range of amounts.
pub fn add_sums(
    position: Position,
    rows: &Vec<Row>,
    slashes: &Vec<Slash>,
    epoch: u64,
    total: u64,
    due: u64,
) -> (result: Option<(u64, u64)>)
    ensures
        result is Some == in_range(position, rows@, slashes@, epoch, total, due),
        result matches Some(result) ==> {
            &&& result.0 == total + sums(position, rows@, slashes@, epoch)->0.total
            &&& result.1 == due + sums(position, rows@, slashes@, epoch)->0.due
        },
{
    let mut new_total: u64 = total;
    let mut new_due: u64 = due;
    let mut i: usize = 0;
    while i < rows.len()
        invariant
            i <= rows.len(),
            sums(position, rows@.take(i as int), slashes@, epoch) is Some,
            new_total == total + sums(position, rows@.take(i as int), slashes@, epoch)->0.total,
            new_due == due + sums(position, rows@.take(i as int), slashes@, epoch)->0.due,
        decreases rows.len() - i,
    {
        let row = rows[i];
        assert(rows@.take(i + 1).drop_last() =~= rows@.take(i as int));
        proof {
            if sums(position, rows@, slashes@, epoch) is Some {
                lemma_sums_prefix(position, rows@, i + 1, slashes@, epoch);
            }
        }
        let left: u64 = match amount_left(position, row, slashes) {
            Some(left) => left,
            None => {
                return None;
            },
        };
        new_total = match new_total.checked_add(left) {
            Some(sum) => sum,
            None => {
                return None;
            },
        };
        if row_due(position, row, epoch) {
            new_due = match new_due.checked_add(left) {
                Some(sum) => sum,
                None => {
                    return None;
                },
            };
        }
        i = i + 1;
    }
    assert(rows@.take(i as int) =~= rows@);
    Some((new_total, new_due))
}

/// Walks the amounts: their total, what is due added to what is carried along, and the
/// account of them.
fn walk(
    position: Position,
    rows: &Vec<Row>,
    slashes: &Vec<Slash>,
    epoch: u64,
    due: u64,
) -> (result: (u64, u64, Report))
    requires
        in_range(position, rows@, slashes@, epoch, 0, due),
    ensures
        result.0 == sums(position, rows@, slashes@, epoch)->0.total,
        result.1 == due + sums(position, rows@, slashes@, epoch)->0.due,
        result.2@ == rows_report(position, rows@, slashes@),
{
    let mut total: u64 = 0;
    let mut new_due: u64 = due;
    let mut report = Report::new();
    let mut i: usize = 0;
    while i < rows.len()
        invariant
            i <= rows.len(),
            in_range(position, rows@, slashes@, epoch, 0, due),
            sums(position, rows@.take(i as int), slashes@, epoch) is Some,
            total == sums(position, rows@.take(i as int), slashes@, epoch)->0.total,
            new_due == due + sums(position, rows@.take(i as int), slashes@, epoch)->0.due,
            report@ == rows_report(position, rows@.take(i as int), slashes@),
        decreases rows.len() - i,
    {
        let row = rows[i];
        assert(rows@.take(i + 1).drop_last() =~= rows@.take(i as int));
        proof {
            lemma_sums_prefix(position, rows@, i + 1, slashes@, epoch);
        }
        let line = match position {
            Position::Bonded => Line::out().text("  Active from epoch ").number(row.0).text(
                ": Δ ",
            ).amount(row.2),
            Position::Unbonded => Line::out().text("  Withdrawable from epoch ").number(
                row.1 + 1,
            ).text(" (active from ").number(row.0).text("): Δ ").amount(row.2),
        };
        let until: Option<u64> = match position {
            Position::Bonded => None,
            Position::Unbonded => Some(row.1 + 1),
        };
        let ghost before = report@;
        report.push(line);
        let (left, account) = apply_slashes(slashes, row.2, row.0, until);
        report.append(account);
        assert(report@ =~= before + row_report(position, row, slashes@));
        total = total + left;
        if row_due(position, row, epoch) {
            new_due = new_due + left;
        }
        i = i + 1;
    }
    assert(rows@.take(i as int) =~= rows@);
    (total, new_due, report)
}

/// A value, or zero where there is none.
pub open spec fn or_zero(value: Option<u64>) -> u64 {
    match value {
        Some(value) => value,
        None => 0,
    }
}

/// A value, or zero where there is none.
fn value_or_zero(value: Option<u64>) -> (result: u64)
    ensures
        result == or_zero(value),
{
    match value {
        Some(value) => value,
        None => 0,
    }
}

/// The lines behind the amounts: what was found for a source, or the totals where no
/// source is named.
pub open spec fn closing_lines(
    position: Position,
    source: Option<Seq<char>>,
    current: u64,
    total: u64,
    due: u64,
) -> Seq<LineView> {
    match (position, source) {
        (Position::Bonded, Some(source)) => seq![
            out().text("  Bonded total from "@).text(source).text(": "@).amount(current),
        ],
        (Position::Bonded, None) => (if due != 0 && due != total {
            seq![out().text("Active bonds total: "@).amount(due)]
        } else {
            seq![]
        }).push(out().text("Bonds total: "@).amount(total)),
        (Position::Unbonded, Some(source)) => seq![
            out().text("  Unbonded total from "@).text(source).text(": "@).amount(current),
        ],
        (Position::Unbonded, None) => (if due != 0 {
            seq![out().text("Withdrawable total: "@).amount(due)]
        } else {
            seq![]
        }).push(out().text("Unbonded total: "@).amount(total)),
    }
}

/// The text of an optional source.
pub open spec fn source_text(source: Option<&String>) -> Option<Seq<char>> {
    match source {
        Some(source) => Some(source@),
        None => None,
    }
}

/// Process the result of a bonds query to determine total bonds and total active bonds,
/// each added to what is carried along. This takes into account the slashes since the
/// start of each bond.
pub fn process_bonds_query(
    bonds: &Vec<Bond>,
    slashes: &Vec<Slash>,
    epoch: u64,
    source: Option<&String>,
    total: Option<u64>,
    total_active: Option<u64>,
) -> (result: (u64, u64, Report))
    requires
        in_range(
            Position::Bonded,
            all_bond_rows(bonds@),
            slashes@,
            epoch,
            or_zero(total),
            or_zero(total_active),
        ),
    ensures
        ({
            let rows = all_bond_rows(bonds@);
            let sums = sums(Position::Bonded, rows, slashes@, epoch)->0;
            &&& result.0 == or_zero(total) + sums.total
            &&& result.1 == or_zero(total_active) + sums.due
            &&& result.2@ == rows_report(Position::Bonded, rows, slashes@) + closing_lines(
                Position::Bonded,
                source_text(source),
                sums.total as u64,
                result.0,
                result.1,
            )
        }),
{
    let rows = rows_of_bonds(bonds);
    proof {
        lemma_due_within_total(Position::Bonded, rows@, slashes@, epoch);
    }
    let (current, active, mut report) = walk(
        Position::Bonded,
        &rows,
        slashes,
        epoch,
        value_or_zero(total_active),
    );
    let sum: u64 = value_or_zero(total) + current;
    let ghost walked = report@;
    match source {
        Some(source) => {
            report.push(
                Line::out().text("  Bonded total from ").text(source.as_str()).text(": ").amount(
                    current,
                ),
            );
        },
        None => {
            if active != 0 && active != sum {
                report.push(Line::out().text("Active bonds total: ").amount(active));
            }
            report.push(Line::out().text("Bonds total: ").amount(sum));
        },
    }
    assert(report@ =~= walked + closing_lines(
        Position::Bonded,
        source_text(source),
        current,
        sum,
        active,
    ));
    (sum, active, report)
}

/// Process the result of an unbonds query to determine total unbonds and total
/// withdrawable unbonds, each added to what is carried along. This takes into account the
/// slashes since the start of each bond up until its withdrawal epoch.
pub fn process_unbonds_query(
    unbonds: &Vec<Unbond>,
    slashes: &Vec<Slash>,
    epoch: u64,
    source: Option<&String>,
    total: Option<u64>,
    total_withdrawable: Option<u64>,
) -> (result: (u64, u64, Report))
    requires
        in_range(
            Position::Unbonded,
            all_unbond_rows(unbonds@),
            slashes@,
            epoch,
            or_zero(total),
            or_zero(total_withdrawable),
        ),
    ensures
        ({
            let rows = all_unbond_rows(unbonds@);
            let sums = sums(Position::Unbonded, rows, slashes@, epoch)->0;
            &&& result.0 == or_zero(total) + sums.total
            &&& result.1 == or_zero(total_withdrawable) + sums.due
            &&& result.2@ == rows_report(Position::Unbonded, rows, slashes@) + closing_lines(
                Position::Unbonded,
                source_text(source),
                sums.total as u64,
                result.0,
                result.1,
            )
        }),
{
    let rows = rows_of_unbonds(unbonds);
    proof {
        lemma_due_within_total(Position::Unbonded, rows@, slashes@, epoch);
    }
    let (current, withdrawable, mut report) = walk(
        Position::Unbonded,
        &rows,
        slashes,
        epoch,
        value_or_zero(total_withdrawable),
    );
    let sum: u64 = value_or_zero(total) + current;
    let ghost walked = report@;
    match source {
        Some(source) => {
            report.push(
                Line::out().text("  Unbonded total from ").text(source.as_str()).text(
                    ": ",
                ).amount(current),
            );
        },
        None => {
            if withdrawable != 0 {
                report.push(Line::out().text("Withdrawable total: ").amount(withdrawable));
            }
            report.push(Line::out().text("Unbonded total: ").amount(sum));
        },
    }
    assert(report@ =~= walked + closing_lines(
        Position::Unbonded,
        source_text(source),
        current,
        sum,
        withdrawable,
    ));
    (sum, withdrawable, report)
}

/// As [`process_bonds_query`], with `None` where a sum leaves the range of amounts.
pub fn checked_process_bonds_query(
    bonds: &Vec<Bond>,
    slashes: &Vec<Slash>,
    epoch: u64,
    source: Option<&String>,
    total: Option<u64>,
    total_active: Option<u64>,
) -> (result: Option<(u64, u64, Report)>)
    ensures
        result is Some == in_range(
            Position::Bonded,
            all_bond_rows(bonds@),
            slashes@,
            epoch,
            or_zero(total),
            or_zero(total_active),
        ),
        result matches Some(result) ==> {
            let rows = all_bond_rows(bonds@);
            let sums = sums(Position::Bonded, rows, slashes@, epoch)->0;
            &&& result.0 == or_zero(total) + sums.total
            &&& result.1 == or_zero(total_active) + sums.due
            &&& result.2@ == rows_report(Position::Bonded, rows, slashes@) + closing_lines(
                Position::Bonded,
                source_text(source),
                sums.total as u64,
                result.0,
                result.1,
            )
        },
{
    let rows = rows_of_bonds(bonds);
    match add_sums(
        Position::Bonded,
        &rows,
        slashes,
        epoch,
        value_or_zero(total),
        value_or_zero(total_active),
    ) {
        Some(_) => Some(
            process_bonds_query(bonds, slashes, epoch, source, total, total_active),
        ),
        None => None,
    }
}

/// As [`process_unbonds_query`], with `None` where a sum leaves the range of amounts or no
/// epoch comes behind the last epoch of an unbond.
pub fn checked_process_unbonds_query(
    unbonds: &Vec<Unbond>,
    slashes: &Vec<Slash>,
    epoch: u64,
    source: Option<&String>,
    total: Option<u64>,
    total_withdrawable: Option<u64>,
) -> (result: Option<(u64, u64, Report)>)
    ensures
        result is Some == in_range(
            Position::Unbonded,
            all_unbond_rows(unbonds@),
            slashes@,
            epoch,
            or_zero(total),
            or_zero(total_withdrawable),
        ),
        result matches Some(result) ==> {
            let rows = all_unbond_rows(unbonds@);
            let sums = sums(Position::Unbonded, rows, slashes@, epoch)->0;
            &&& result.0 == or_zero(total) + sums.total
            &&& result.1 == or_zero(total_withdrawable) + sums.due
            &&& result.2@ == rows_report(Position::Unbonded, rows, slashes@) + closing_lines(
                Position::Unbonded,
                source_text(source),
                sums.total as u64,
                result.0,
                result.1,
            )
        },
{
    let rows = rows_of_unbonds(unbonds);
    match add_sums(
        Position::Unbonded,
        &rows,
        slashes,
        epoch,
        value_or_zero(total),
        value_or_zero(total_withdrawable),
    ) {
        Some(_) => Some(
            process_unbonds_query(unbonds, slashes, epoch, source, total, total_withdrawable),
        ),
        None => None,
    }
}

/// The sums over one amount that is bonded: what the slashes since its first epoch leave,
/// active once that epoch has come. An amount that was unbonded is slashed until the epoch
/// behind its last, and withdrawable from that epoch on.
pub proof fn lemma_sums_of_one_row(row: Row, slashes: Seq<Slash>, epoch: u64)
    ensures
        sums(Position::Bonded, seq![row], slashes, epoch) == match after_slashes(
            slashes,
            row.2,
            row.0,
            None,
        ) {
            Some(left) => Some(
                Sums {
                    total: left as int,
                    due: if row.0 <= epoch {
                        left as int
                    } else {
                        0
                    },
                },
            ),
            None => None,
        },
        row.1 == u64::MAX ==> sums(Position::Unbonded, seq![row], slashes, epoch) is None,
        row.1 < u64::MAX ==> sums(Position::Unbonded, seq![row], slashes, epoch)
            == match after_slashes(slashes, row.2, row.0, Some((row.1 + 1) as u64)) {
            Some(left) => Some(
                Sums {
                    total: left as int,
                    due: if row.1 + 1 <= epoch {
                        left as int
                    } else {
                        0
                    },
                },
            ),
            None => None,
        },
{
    assert(seq![row].drop_last() =~= Seq::<Row>::empty());
    assert(sums(Position::Bonded, Seq::<Row>::empty(), slashes, epoch) == Some(
        Sums { total: 0, due: 0 },
    ));
    assert(sums(Position::Unbonded, Seq::<Row>::empty(), slashes, epoch) == Some(
        Sums { total: 0, due: 0 },
    ));
}

/// The amounts of which the epoch has come: that from which they are bonded, or the one behind
/// their last.
pub open spec fn come_rows(position: Position, rows: Seq<Row>, epoch: u64) -> Seq<Row> {
    match position {
        Position::Bonded => rows.filter(|row: Row| row.0 <= epoch),
        Position::Unbonded => rows.filter(|row: Row| row.1 < epoch),
    }
}

/// What is active or withdrawable is the total of the amounts of which the epoch has come.
pub proof fn lemma_due_is_the_total_of_what_has_come(
    position: Position,
    rows: Seq<Row>,
    slashes: Seq<Slash>,
    epoch: u64,
)
    requires
        sums(position, rows, slashes, epoch) is Some,
    ensures
        sums(position, come_rows(position, rows, epoch), slashes, epoch) is Some,
        sums(position, come_rows(position, rows, epoch), slashes, epoch)->0.total == sums(
            position,
            rows,
            slashes,
            epoch,
        )->0.due,
    decreases rows.len(),
{
    reveal(Seq::filter);
    if rows.len() > 0 {
        lemma_due_is_the_total_of_what_has_come(position, rows.drop_last(), slashes, epoch);
        let come = come_rows(position, rows.drop_last(), epoch);
        assert(come.push(rows.last()).drop_last() =~= come);
    }
}

/// Where anything is left of an amount of which the epoch has not come, what is due is less
/// than the total.
pub proof fn lemma_what_is_to_come_is_not_due(
    position: Position,
    rows: Seq<Row>,
    slashes: Seq<Slash>,
    epoch: u64,
    i: int,
)
    requires
        sums(position, rows, slashes, epoch) is Some,
        0 <= i < rows.len(),
        position is Bonded ==> epoch < rows[i].0,
        position is Unbonded ==> epoch <= rows[i].1,
        sums(position, seq![rows[i]], slashes, epoch)->0.total > 0,
    ensures
        sums(position, rows, slashes, epoch)->0.due < sums(
            position,
            rows,
            slashes,
            epoch,
        )->0.total,
    decreases rows.len(),
{
    let rest = rows.drop_last();
    lemma_sums_of_one_row(rows[i], slashes, epoch);
    lemma_due_within_total(position, rest, slashes, epoch);
    if i < rows.len() - 1 {
        assert(rest[i] == rows[i]);
        lemma_what_is_to_come_is_not_due(position, rest, slashes, epoch, i);
    }
}

/// One amount is reported by its epochs and itself, and the account of its slashes.
pub proof fn lemma_report_of_one_row(row: Row, slashes: Seq<Slash>)
    requires
        row.1 < u64::MAX,
    ensures
        rows_report(Position::Bonded, seq![row], slashes) == seq![
            printed(
                seq![
                    PieceView::Text("  Active from epoch "@),
                    PieceView::Number(row.0),
                    PieceView::Text(": Δ "@),
                    PieceView::Amount(row.2),
                ],
            ),
        ] + slashing_report(slashes, row.2, row.0, None),
        rows_report(Position::Unbonded, seq![row], slashes) == seq![
            printed(
                seq![
                    PieceView::Text("  Withdrawable from epoch "@),
                    PieceView::Number((row.1 + 1) as u64),
                    PieceView::Text(" (active from "@),
                    PieceView::Number(row.0),
                    PieceView::Text("): Δ "@),
                    PieceView::Amount(row.2),
                ],
            ),
        ] + slashing_report(slashes, row.2, row.0, Some((row.1 + 1) as u64)),
{
    assert(seq![row].drop_last() =~= Seq::<Row>::empty());
    assert(rows_report(Position::Bonded, Seq::<Row>::empty(), slashes) =~= seq![]);
    assert(rows_report(Position::Unbonded, Seq::<Row>::empty(), slashes) =~= seq![]);
    assert(row_line(Position::Bonded, row) =~= printed(
        seq![
            PieceView::Text("  Active from epoch "@),
            PieceView::Number(row.0),
            PieceView::Text(": Δ "@),
            PieceView::Amount(row.2),
        ],
    ));
    assert(row_line(Position::Unbonded, row) =~= printed(
        seq![
            PieceView::Text("  Withdrawable from epoch "@),
            PieceView::Number((row.1 + 1) as u64),
            PieceView::Text(" (active from "@),
            PieceView::Number(row.0),
            PieceView::Text("): Δ "@),
            PieceView::Amount(row.2),
        ],
    ));
}

/// The amounts of joined lists are reported list by list.
pub proof fn lemma_rows_reports_join(
    position: Position,
    first: Seq<Row>,
    second: Seq<Row>,
    slashes: Seq<Slash>,
)
    ensures
        rows_report(position, first + second, slashes) == rows_report(position, first, slashes)
            + rows_report(position, second, slashes),
    decreases second.len(),
{
    if second.len() == 0 {
        assert(first + second =~= first);
    } else {
        assert((first + second).drop_last() =~= first + second.drop_last());
        lemma_rows_reports_join(position, first, second.drop_last(), slashes);
    }
    assert(rows_report(position, first + second, slashes) =~= rows_report(
        position,
        first,
        slashes,
    ) + rows_report(position, second, slashes));
}

/// For a source, one line closes the amounts: what was found for it. Without one, the last
/// line is the total, and the line before it what is due, where there is anything due and,
/// of bonds, where that is not the total.
pub proof fn lemma_closing_lines(
    position: Position,
    source: Seq<char>,
    current: u64,
    total: u64,
    due: u64,
)
    ensures
        closing_lines(position, Some(source), current, total, due) == seq![
            printed(
                seq![
                    PieceView::Text(
                        if position is Bonded {
                            "  Bonded total from "@
                        } else {
                            "  Unbonded total from "@
                        },
                    ),
                    PieceView::Text(source),
                    PieceView::Text(": "@),
                    PieceView::Amount(current),
                ],
            ),
        ],
        ({
            let lines = closing_lines(position, None, current, total, due);
            let shown = due != 0 && (position is Unbonded || due != total);
            &&& lines.len() == if shown {
                2nat
            } else {
                1nat
            }
            &&& lines.last() == printed(
                seq![
                    PieceView::Text(
                        if position is Bonded {
                            "Bonds total: "@
                        } else {
                            "Unbonded total: "@
                        },
                    ),
                    PieceView::Amount(total),
                ],
            )
            &&& shown ==> lines[0] == printed(
                seq![
                    PieceView::Text(
                        if position is Bonded {
                            "Active bonds total: "@
                        } else {
                            "Withdrawable total: "@
                        },
                    ),
                    PieceView::Amount(due),
                ],
            )
        }),
{
    let lines = closing_lines(position, None, current, total, due);
    match position {
        Position::Bonded => {
            assert(out().text("  Bonded total from "@).text(source).text(": "@).amount(current)
                =~= printed(
                seq![
                    PieceView::Text("  Bonded total from "@),
                    PieceView::Text(source),
                    PieceView::Text(": "@),
                    PieceView::Amount(current),
                ],
            ));
            assert(out().text("Bonds total: "@).amount(total) =~= printed(
                seq![PieceView::Text("Bonds total: "@), PieceView::Amount(total)],
            ));
            assert(out().text("Active bonds total: "@).amount(due) =~= printed(
                seq![PieceView::Text("Active bonds total: "@), PieceView::Amount(due)],
            ));
        },
        Position::Unbonded => {
            assert(out().text("  Unbonded total from "@).text(source).text(": "@).amount(current)
                =~= printed(
                seq![
                    PieceView::Text("  Unbonded total from "@),
                    PieceView::Text(source),
                    PieceView::Text(": "@),
                    PieceView::Amount(current),
                ],
            ));
            assert(out().text("Unbonded total: "@).amount(total) =~= printed(
                seq![PieceView::Text("Unbonded total: "@), PieceView::Amount(total)],
            ));
            assert(out().text("Withdrawable total: "@).amount(due) =~= printed(
                seq![PieceView::Text("Withdrawable total: "@), PieceView::Amount(due)],
            ));
        },
    }
}

/// Sums can be reported exactly where they exist and, with what is carried along, do not
/// exceed the largest amount.
pub proof fn lemma_range_of_sums(
    position: Position,
    rows: Seq<Row>,
    slashes: Seq<Slash>,
    epoch: u64,
    total: u64,
    due: u64,
)
    ensures
        in_range(position, rows, slashes, epoch, total, due) <==> {
            let s = sums(position, rows, slashes, epoch);
            s is Some && total + s->0.total < 0x1_0000_0000_0000_0000 && due + s->0.due
                < 0x1_0000_0000_0000_0000
        },
        or_zero(None) == 0,
        or_zero(Some(total)) == total,
        source_text(None) is None,
{
}

} // verus!
