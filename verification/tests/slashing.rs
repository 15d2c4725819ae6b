use ledger_client::report::{Line, Rate, Report};
use ledger_client::slashing::{
    amount_after_slashes, apply_slashes, checked_apply_slashes, slash_cut, Slash,
};

fn rate(mantissa: i128, scale: u32) -> Rate {
    Rate { mantissa, scale }
}

fn slash(epoch: u64, mantissa: i128, scale: u32) -> Slash {
    Slash {
        epoch,
        block_height: 7,
        kind: "Duplicate vote".to_string(),
        rate: rate(mantissa, scale),
    }
}

fn slash_line(slash: &Slash) -> Line {
    Line::out()
        .text("    ⚠ Slash: ")
        .rate(slash.rate)
        .text(" from epoch ")
        .number(slash.epoch)
}

fn total_lines(slashed: u64, left: u64) -> Vec<Line> {
    vec![
        Line::out().text("    ⚠ Slash total: ").amount(slashed),
        Line::out().text("    ⚠ After slashing: Δ ").amount(left),
    ]
}

#[test]
fn a_cut_is_the_product_of_rate_and_amount() {
    assert_eq!(slash_cut(rate(5, 2), 1000), Some(50));
    assert_eq!(slash_cut(rate(1, 0), 42), Some(42));
    assert_eq!(slash_cut(rate(0, 0), 42), Some(0));
    assert_eq!(slash_cut(rate(5, 1), 0), Some(0));
    assert_eq!(slash_cut(rate(25, 1), 100), Some(250));
}

#[test]
fn a_cut_is_rounded_down() {
    assert_eq!(slash_cut(rate(3333, 4), 10), Some(3));
    assert_eq!(slash_cut(rate(1, 2), 99), Some(0));
    assert_eq!(slash_cut(rate(1, 2), 199), Some(1));
    assert_eq!(slash_cut(rate(999999, 6), 1), Some(0));
}

#[test]
fn there_is_no_cut_for_what_is_no_amount() {
    assert_eq!(slash_cut(rate(-1, 1), 10), None);
    assert_eq!(slash_cut(rate(10, 0), u64::MAX), None);
    assert_eq!(slash_cut(rate(79228162514264337593543950335, 0), u64::MAX), None);
}

#[test]
fn there_is_no_cut_for_what_is_no_decimal() {
    assert_eq!(slash_cut(rate(1, 29), 10), None);
    assert_eq!(slash_cut(rate(79228162514264337593543950336, 28), 10), None);
    assert_eq!(slash_cut(rate(-79228162514264337593543950336, 28), 10), None);
}

#[test]
fn a_fraction_never_cuts_more_than_there_is() {
    let scale_28 = rate(9999999999999999999999999999, 28);
    assert!(slash_cut(scale_28, u64::MAX).unwrap() <= u64::MAX);
    assert_eq!(slash_cut(rate(10000000000000000000000000000, 28), u64::MAX), Some(u64::MAX));
    let third = rate(3333333333333333333333333333, 28);
    assert_eq!(slash_cut(third, 3_000_000), Some(999_999));
}

#[test]
fn slashes_compound_on_what_is_left() {
    let slashes = vec![slash(10, 1, 1), slash(11, 1, 1)];
    let (left, report) = apply_slashes(&slashes, 1000, 5, None);
    assert_eq!(left, 810);
    let mut lines = vec![slash_line(&slashes[0]), slash_line(&slashes[1])];
    lines.extend(total_lines(190, 810));
    assert_eq!(report, Report { lines });

    let first = amount_after_slashes(&slashes[..1].to_vec(), 1000, 5, None).unwrap();
    let second = amount_after_slashes(&slashes[1..].to_vec(), first, 5, None).unwrap();
    assert_eq!(second, left);
}

#[test]
fn slashes_before_the_bond_do_not_count() {
    let slashes = vec![slash(4, 5, 1), slash(5, 5, 1)];
    let (left, report) = apply_slashes(&slashes, 100, 5, None);
    assert_eq!(left, 50);
    let mut lines = vec![slash_line(&slashes[1])];
    lines.extend(total_lines(50, 50));
    assert_eq!(report.lines, lines);
}

#[test]
fn slashes_from_the_withdrawal_on_do_not_count() {
    let slashes = vec![slash(7, 5, 1), slash(8, 5, 1), slash(9, 5, 1)];
    assert_eq!(amount_after_slashes(&slashes, 100, 5, Some(8)), Some(50));
    assert_eq!(amount_after_slashes(&slashes, 100, 5, Some(7)), Some(100));
    assert_eq!(amount_after_slashes(&slashes, 100, 5, None), Some(13));
}

#[test]
fn without_a_withdrawal_every_slash_from_the_start_on_counts() {
    let slashes = vec![slash(u64::MAX, 5, 1)];
    assert_eq!(amount_after_slashes(&slashes, 100, 1, None), Some(50));
    assert_eq!(amount_after_slashes(&slashes, 100, u64::MAX, None), Some(50));
    assert_eq!(amount_after_slashes(&slashes, 100, 1, Some(u64::MAX)), Some(100));
    let (left, report) = apply_slashes(&slashes, 100, 1, None);
    assert_eq!(left, 50);
    let mut lines = vec![slash_line(&slashes[0])];
    lines.extend(total_lines(50, 50));
    assert_eq!(report.lines, lines);
}

#[test]
fn a_longer_window_never_leaves_more() {
    let slashes = vec![slash(9, 1, 2), slash(3, 5, 1), slash(6, 333, 3), slash(1, 1, 0)];
    for delta in [0, 1, 2, 99, 100, 101, u64::MAX] {
        let mut before = delta;
        for end in 0..12 {
            let left = amount_after_slashes(&slashes, delta, 2, Some(end)).unwrap();
            assert!(left <= before);
            before = left;
        }
        assert!(amount_after_slashes(&slashes, delta, 2, None).unwrap() <= before);
        assert_eq!(amount_after_slashes(&slashes, delta, 2, Some(3)), Some(delta));
    }
}

#[test]
fn rates_with_nine_decimals_cut_exactly() {
    let nearly_all = rate(999_999_999, 9);
    assert_eq!(slash_cut(nearly_all, u64::MAX), Some(18446744055262807541));
    assert_eq!(slash_cut(nearly_all, 1), Some(0));
}

#[test]
fn nothing_is_said_of_slashes_that_do_not_count() {
    let slashes = vec![slash(1, 5, 1), slash(2, 5, 1)];
    let (left, report) = apply_slashes(&slashes, 100, 3, None);
    assert_eq!(left, 100);
    assert_eq!(report.lines, vec![]);
}

#[test]
fn no_totals_are_shown_where_nothing_was_lost() {
    let slashes = vec![slash(3, 1, 2)];
    let (left, report) = apply_slashes(&slashes, 99, 3, None);
    assert_eq!(left, 99);
    assert_eq!(report.lines, vec![slash_line(&slashes[0])]);
}

#[test]
fn a_cut_beyond_the_amount_cannot_be_taken_off() {
    let slashes = vec![slash(3, 2, 0), slash(4, 1, 1)];
    assert_eq!(amount_after_slashes(&slashes, 100, 0, None), None);
    assert_eq!(checked_apply_slashes(&slashes, 100, 0, None), None);
    assert_eq!(amount_after_slashes(&slashes, 100, 4, None), Some(90));
    assert_eq!(
        checked_apply_slashes(&slashes, 100, 4, None),
        Some(apply_slashes(&slashes, 100, 4, None))
    );
}

#[test]
fn slashing_never_adds() {
    for delta in [0, 1, 3, 100, u64::MAX] {
        let slashes = vec![slash(1, 123456789, 9), slash(2, 1, 0)];
        assert!(amount_after_slashes(&slashes, delta, 0, None).unwrap() <= delta);
    }
    assert_eq!(amount_after_slashes(&vec![slash(2, 1, 0)], 5, 0, None), Some(0));
}
