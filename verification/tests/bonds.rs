use ledger_client::bonds::{
    add_sums, checked_process_bonds_query, checked_process_unbonds_query, process_bonds_query,
    process_unbonds_query, Position,
};
use ledger_client::deltas::{rows_of_bonds, rows_of_unbonds, Bond, Unbond};
use ledger_client::report::{Line, Rate, Report};
use ledger_client::slashing::Slash;

fn bond(pos_deltas: Vec<(u64, u64)>) -> Bond {
    Bond { pos_deltas, neg_deltas: 0 }
}

fn tenth(epoch: u64) -> Slash {
    Slash {
        epoch,
        block_height: 1,
        kind: "Light client attack".to_string(),
        rate: Rate { mantissa: 1, scale: 1 },
    }
}

fn active(epoch: u64, amount: u64) -> Line {
    Line::out().text("  Active from epoch ").number(epoch).text(": Δ ").amount(amount)
}

fn withdrawable(withdraw: u64, start: u64, amount: u64) -> Line {
    Line::out()
        .text("  Withdrawable from epoch ")
        .number(withdraw)
        .text(" (active from ")
        .number(start)
        .text("): Δ ")
        .amount(amount)
}

fn slashed(epoch: u64, lost: u64, left: u64) -> Vec<Line> {
    vec![
        Line::out()
            .text("    ⚠ Slash: ")
            .rate(Rate { mantissa: 1, scale: 1 })
            .text(" from epoch ")
            .number(epoch),
        Line::out().text("    ⚠ Slash total: ").amount(lost),
        Line::out().text("    ⚠ After slashing: Δ ").amount(left),
    ]
}

#[test]
fn rows_come_in_ascending_order() {
    let rows = bond(vec![(9, 1), (2, 5), (4, 3), (2, 4)]).rows();
    assert_eq!(rows, vec![(2, 0, 4), (2, 0, 5), (4, 0, 3), (9, 0, 1)]);
    let unbond = Unbond { deltas: vec![((3, 8), 1), ((3, 5), 9), ((1, 9), 2)] };
    assert_eq!(unbond.rows(), vec![(1, 9, 2), (3, 5, 9), (3, 8, 1)]);
}

#[test]
fn rows_do_not_depend_on_the_order_of_the_amounts() {
    assert_eq!(
        bond(vec![(1, 2), (3, 4), (5, 6)]).rows(),
        bond(vec![(5, 6), (1, 2), (3, 4)]).rows()
    );
    let a = Unbond { deltas: vec![((1, 2), 3), ((4, 5), 6)] };
    let b = Unbond { deltas: vec![((4, 5), 6), ((1, 2), 3)] };
    assert_eq!(a.rows(), b.rows());
}

#[test]
fn rows_of_several_bonds_are_listed_bond_by_bond() {
    let bonds = vec![bond(vec![(9, 1), (8, 2)]), bond(vec![(1, 3)])];
    assert_eq!(rows_of_bonds(&bonds), vec![(8, 0, 2), (9, 0, 1), (1, 0, 3)]);
    let unbonds = vec![
        Unbond { deltas: vec![((9, 9), 1)] },
        Unbond { deltas: vec![((5, 6), 1), ((1, 2), 3)] },
    ];
    assert_eq!(rows_of_unbonds(&unbonds), vec![(9, 9, 1), (1, 2, 3), (5, 6, 1)]);
}

#[test]
fn bonds_are_active_from_their_first_epoch() {
    let bonds = vec![bond(vec![(5, 30), (4, 20), (3, 10)])];
    let (total, total_active, report) = process_bonds_query(&bonds, &vec![], 4, None, None, None);
    assert_eq!((total, total_active), (60, 30));
    assert_eq!(
        report,
        Report {
            lines: vec![
                active(3, 10),
                active(4, 20),
                active(5, 30),
                Line::out().text("Active bonds total: ").amount(30),
                Line::out().text("Bonds total: ").amount(60),
            ],
        }
    );
}

#[test]
fn the_active_total_is_left_out_where_it_says_nothing() {
    let bonds = vec![bond(vec![(5, 30)])];
    let (_, _, report) = process_bonds_query(&bonds, &vec![], 5, None, None, None);
    assert_eq!(
        report.lines,
        vec![active(5, 30), Line::out().text("Bonds total: ").amount(30)]
    );
    let (total, total_active, report) = process_bonds_query(&bonds, &vec![], 4, None, None, None);
    assert_eq!((total, total_active), (30, 0));
    assert_eq!(
        report.lines,
        vec![active(5, 30), Line::out().text("Bonds total: ").amount(30)]
    );
}

#[test]
fn totals_are_carried_along_for_a_source() {
    let source = "source".to_string();
    let bonds = vec![bond(vec![(1, 100)])];
    let (total, total_active, report) =
        process_bonds_query(&bonds, &vec![tenth(2)], 9, Some(&source), Some(7), Some(3));
    assert_eq!((total, total_active), (97, 93));
    let mut lines = vec![active(1, 100)];
    lines.extend(slashed(2, 10, 90));
    lines.push(Line::out().text("  Bonded total from ").text("source").text(": ").amount(90));
    assert_eq!(report.lines, lines);
}

#[test]
fn unbonds_are_withdrawable_behind_their_last_epoch() {
    let unbonds = vec![Unbond { deltas: vec![((2, 6), 40), ((1, 4), 10)] }];
    let (total, due, report) = process_unbonds_query(&unbonds, &vec![], 5, None, None, None);
    assert_eq!((total, due), (50, 10));
    assert_eq!(
        report.lines,
        vec![
            withdrawable(5, 1, 10),
            withdrawable(7, 2, 40),
            Line::out().text("Withdrawable total: ").amount(10),
            Line::out().text("Unbonded total: ").amount(50),
        ]
    );
    let (_, due, report) = process_unbonds_query(&unbonds, &vec![], 4, None, None, None);
    assert_eq!(due, 0);
    assert_eq!(report.lines.len(), 3);
}

#[test]
fn unbonds_are_slashed_up_to_their_withdrawal() {
    let source = "s".to_string();
    let unbonds = vec![Unbond { deltas: vec![((2, 4), 100)] }];
    let slashes = vec![tenth(1), tenth(4), tenth(5)];
    let (total, due, report) =
        process_unbonds_query(&unbonds, &slashes, 5, Some(&source), Some(1), None);
    assert_eq!((total, due), (91, 90));
    let mut lines = vec![withdrawable(5, 2, 100)];
    lines.extend(slashed(4, 10, 90));
    lines.push(Line::out().text("  Unbonded total from ").text("s").text(": ").amount(90));
    assert_eq!(report.lines, lines);
}

#[test]
fn sums_beyond_the_range_of_amounts_are_none() {
    let bonds = vec![bond(vec![(1, u64::MAX), (2, 1)])];
    assert_eq!(checked_process_bonds_query(&bonds, &vec![], 5, None, None, None), None);
    let bonds = vec![bond(vec![(1, u64::MAX)])];
    assert_eq!(checked_process_bonds_query(&bonds, &vec![], 5, None, Some(1), None), None);
    assert_eq!(checked_process_bonds_query(&bonds, &vec![], 5, None, None, Some(1)), None);
    assert_eq!(
        checked_process_bonds_query(&bonds, &vec![], 0, None, None, Some(1)),
        Some(process_bonds_query(&bonds, &vec![], 0, None, None, Some(1)))
    );
}

#[test]
fn there_is_no_withdrawal_behind_the_last_epoch_of_all() {
    let unbonds = vec![Unbond { deltas: vec![((1, u64::MAX), 1)] }];
    assert_eq!(checked_process_unbonds_query(&unbonds, &vec![], 5, None, None, None), None);
    let unbonds = vec![Unbond { deltas: vec![((1, u64::MAX - 1), 1)] }];
    assert_eq!(
        checked_process_unbonds_query(&unbonds, &vec![], 5, None, None, None),
        Some(process_unbonds_query(&unbonds, &vec![], 5, None, None, None))
    );
}

#[test]
fn what_is_due_is_within_the_total_and_grows() {
    let rows = vec![(1, 3, 10), (2, 5, 20), (4, 9, 30)];
    let slashes = vec![tenth(2)];
    let mut before = 0;
    for epoch in 0..12 {
        for position in [Position::Bonded, Position::Unbonded] {
            let (total, due) = add_sums(position, &rows, &slashes, epoch, 0, 0).unwrap();
            assert_eq!(total, 57);
            assert!(due <= total);
            if position == Position::Unbonded {
                assert!(before <= due);
                before = due;
            }
        }
    }
    assert_eq!(before, 57);
}

#[test]
fn sums_over_joined_rows_add_up() {
    let first = vec![(1, 3, 10), (2, 5, 20)];
    let second = vec![(4, 9, 30)];
    let joined = vec![(1, 3, 10), (2, 5, 20), (4, 9, 30)];
    let slashes = vec![tenth(4)];
    let (total, due) = add_sums(Position::Unbonded, &first, &slashes, 6, 0, 0).unwrap();
    assert_eq!(
        add_sums(Position::Unbonded, &second, &slashes, 6, total, due),
        add_sums(Position::Unbonded, &joined, &slashes, 6, 0, 0)
    );
}

#[test]
fn without_slashes_the_total_is_what_was_bonded() {
    let rows = vec![(1, 3, 10), (2, 5, 20), (4, 9, 30)];
    assert_eq!(add_sums(Position::Bonded, &rows, &vec![], 0, 0, 0), Some((60, 0)));
    let slashed = add_sums(Position::Bonded, &rows, &vec![tenth(9)], 0, 0, 0).unwrap();
    assert!(slashed.0 <= 60);
}
