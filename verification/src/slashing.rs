//! Slashes and what they leave of a token amount.

use rust_decimal::prelude::ToPrimitive;
use rust_decimal::Decimal;
use vstd::arithmetic::div_mod::{
    lemma_div_is_ordered, lemma_div_multiples_vanish, lemma_hoist_over_denominator,
};
use vstd::arithmetic::power::{lemma_pow_increases, lemma_pow_positive, pow};
use vstd::prelude::*;

use crate::report::{out, printed, Line, LineView, PieceView, Rate, Report};

verus! {

/// A punishment of a validator.
#[derive(Clone, Debug, PartialEq, Eq)]
pub struct Slash {
    /// The epoch in which the offence happened.
    pub epoch: u64,
    /// The height of the block in which the offence happened.
    pub block_height: u64,
    /// The offence, as it is shown.
    pub kind: String,
    /// The part of the stake that is lost.
    pub rate: Rate,
}

/// The largest mantissa that a decimal number holds.
pub const MAX_MANTISSA: i128 = 79228162514264337593543950335;

/// The largest scale that a decimal number holds.
pub const MAX_SCALE: u32 = 28;

/// The decimal `mantissa / 10^scale` times `factor`, multiplied as decimals and cut off
/// after the decimal point; `None` where there is no such decimal, where the product
/// is no decimal, and where it does not fit in 64 bits.
pub uninterp spec fn decimal_product(mantissa: i128, scale: u32, factor: u64) -> Option<u64>;

/// Whether the rate is a decimal number.
pub open spec fn is_decimal(rate: Rate) -> bool {
    -MAX_MANTISSA <= rate.mantissa <= MAX_MANTISSA && rate.scale <= MAX_SCALE
}

/// Whether the rate lies between zero and one.
pub open spec fn is_fraction(rate: Rate) -> bool {
    is_decimal(rate) && 0 <= rate.mantissa <= pow(10, rate.scale as nat)
}

/// Whether the product of the rate and `factor` is held without rounding.
pub open spec fn is_exact(rate: Rate, factor: u64) -> bool {
    is_decimal(rate) && -MAX_MANTISSA <= rate.mantissa * factor <= MAX_MANTISSA
}

/// The product of the rate and `factor`, cut off after the decimal point, where it is held
/// without rounding: there is none for a negative product or one beyond 64 bits.
pub open spec fn exact_product(rate: Rate, factor: u64) -> Option<u64> {
    let floor = (rate.mantissa * factor) / pow(10, rate.scale as nat);
    if 0 <= rate.mantissa * factor && floor <= u64::MAX {
        Some(floor as u64)
    } else {
        None
    }
}

/// The product of the rate and `factor`, cut off after the decimal point: the exact one where
/// it is held without rounding, and otherwise that of the rounded decimals.
pub open spec fn rate_product(rate: Rate, factor: u64) -> Option<u64> {
    if is_exact(rate, factor) {
        exact_product(rate, factor)
    } else {
        decimal_product(rate.mantissa, rate.scale, factor)
    }
}

/// Multiplies a decimal with an integer through `Decimal::checked_mul` and cuts the
/// product off with `Decimal::to_u64`. The result depends on the three arguments alone.
/// A product that fits a decimal's mantissa is exact, so that the result is its floor.
/// A product that does not fit is rounded to fewer decimals by the crate; a rate between
/// zero and one never yields more than `factor`, for `factor` itself is a decimal with any
/// number of decimals that the crate keeps.
#[verifier::external_body]
fn decimal_mult_u64(mantissa: i128, scale: u32, factor: u64) -> (product: Option<u64>)
    ensures
        product == decimal_product(mantissa, scale, factor),
        is_exact(Rate { mantissa, scale }, factor) ==> product == exact_product(
            Rate { mantissa, scale },
            factor,
        ),
        is_fraction(Rate { mantissa, scale }) ==> product is Some && product->0 <= factor,
{
    Decimal::try_from_i128_with_scale(mantissa, scale)
        .ok()
        .and_then(|rate| rate.checked_mul(Decimal::from(factor)))
        .and_then(|product| product.to_u64())
}

/// What a slash of the given rate takes from an amount: their product, cut off after the
/// decimal point, or `None` where that is no amount.
pub fn slash_cut(rate: Rate, amount: u64) -> (cut: Option<u64>)
    ensures
        cut == rate_product(rate, amount),
        cut == decimal_product(rate.mantissa, rate.scale, amount),
        is_fraction(rate) ==> cut is Some && cut->0 <= amount,
{
    decimal_mult_u64(rate.mantissa, rate.scale, amount)
}

/// Whether a slash counts for tokens bonded from `epoch_start` and, optionally,
/// withdrawn in `withdraw_epoch`; without a withdrawal every slash from the start on does.
pub open spec fn counts(slash: Slash, epoch_start: u64, withdraw_epoch: Option<u64>) -> bool {
    &&& epoch_start <= slash.epoch
    &&& match withdraw_epoch {
        Some(epoch) => slash.epoch < epoch,
        None => true,
    }
}

/// What one slash leaves of `delta`; `None` where its cut cannot be taken off.
pub open spec fn after_slash(slash: Slash, delta: u64) -> Option<u64> {
    match rate_product(slash.rate, delta) {
        Some(cut) => if cut <= delta {
            Some((delta - cut) as u64)
        } else {
            None
        },
        None => None,
    }
}

/// What the slashes that count leave of `delta`, taken one after the other; `None` where
/// one of their cuts cannot be taken off.
pub open spec fn after_slashes(
    slashes: Seq<Slash>,
    delta: u64,
    epoch_start: u64,
    withdraw_epoch: Option<u64>,
) -> Option<u64>
    decreases slashes.len(),
{
    if slashes.len() == 0 {
        Some(delta)
    } else {
        match after_slashes(slashes.drop_last(), delta, epoch_start, withdraw_epoch) {
            Some(left) => if counts(slashes.last(), epoch_start, withdraw_epoch) {
                after_slash(slashes.last(), left)
            } else {
                Some(left)
            },
            None => None,
        }
    }
}

/// The line that announces a slash.
pub open spec fn slash_line(slash: Slash) -> LineView {
    out().text("    ⚠ Slash: "@).rate(slash.rate).text(" from epoch "@).number(slash.epoch)
}

/// One line for each slash that counts.
pub open spec fn slash_lines(
    slashes: Seq<Slash>,
    epoch_start: u64,
    withdraw_epoch: Option<u64>,
) -> Seq<LineView>
    decreases slashes.len(),
{
    if slashes.len() == 0 {
        seq![]
    } else {
        let lines = slash_lines(slashes.drop_last(), epoch_start, withdraw_epoch);
        if counts(slashes.last(), epoch_start, withdraw_epoch) {
            lines.push(slash_line(slashes.last()))
        } else {
            lines
        }
    }
}

/// The lines that close an account of slashes: what was lost and what is left, unless
/// nothing was lost.
pub open spec fn slash_total_lines(delta: u64, left: u64) -> Seq<LineView> {
    if left == delta {
        seq![]
    } else {
        seq![
            out().text("    ⚠ Slash total: "@).amount((delta - left) as u64),
            out().text("    ⚠ After slashing: Δ "@).amount(left),
        ]
    }
}

/// The whole account of the slashes of `delta`.
pub open spec fn slashing_report(
    slashes: Seq<Slash>,
    delta: u64,
    epoch_start: u64,
    withdraw_epoch: Option<u64>,
) -> Seq<LineView> {
    slash_lines(slashes, epoch_start, withdraw_epoch) + slash_total_lines(
        delta,
        after_slashes(slashes, delta, epoch_start, withdraw_epoch)->0,
    )
}

/// Whether a slash counts.
fn slash_counts(slash: &Slash, epoch_start: u64, withdraw_epoch: Option<u64>) -> (yes: bool)
    ensures
        yes == counts(*slash, epoch_start, withdraw_epoch),
{
    let withdrawn = match withdraw_epoch {
        Some(epoch) => slash.epoch >= epoch,
        None => false,
    };
    slash.epoch >= epoch_start && !withdrawn
}

/// What the slashes that count leave of `delta`, or `None` where one of their cuts cannot
/// be taken off. There is always something to return where every rate lies between zero
/// and one.
pub fn amount_after_slashes(
    slashes: &Vec<Slash>,
    delta: u64,
    epoch_start: u64,
    withdraw_epoch: Option<u64>,
) -> (left: Option<u64>)
    ensures
        left == after_slashes(slashes@, delta, epoch_start, withdraw_epoch),
        left matches Some(left) ==> left <= delta,
        (forall|i: int| 0 <= i < slashes@.len() ==> is_fraction(#[trigger] slashes@[i].rate))
            ==> left is Some,
{
    let mut left: u64 = delta;
    let mut i: usize = 0;
    while i < slashes.len()
        invariant
            i <= slashes.len(),
            left <= delta,
            after_slashes(slashes@.take(i as int), delta, epoch_start, withdraw_epoch) == Some(
                left,
            ),
        decreases slashes.len() - i,
    {
        let slash = &slashes[i];
        assert(slashes@.take(i + 1).drop_last() =~= slashes@.take(i as int));
        if slash_counts(slash, epoch_start, withdraw_epoch) {
            let cut = slash_cut(slash.rate, left);
            match cut {
                Some(cut) if cut <= left => {
                    left = left - cut;
                },
                _ => {
                    proof {
                        lemma_after_slashes_stuck(
                            slashes@,
                            i as int,
                            delta,
                            epoch_start,
                            withdraw_epoch,
                        );
                        assert(!is_fraction(slashes@[i as int].rate));
                    }
                    return None;
                },
            }
        }
        i = i + 1;
    }
    assert(slashes@.take(i as int) =~= slashes@);
    Some(left)
}

/// Where a slash cannot be taken off, none of those behind it changes that.
proof fn lemma_after_slashes_stuck(
    slashes: Seq<Slash>,
    at: int,
    delta: u64,
    epoch_start: u64,
    withdraw_epoch: Option<u64>,
)
    requires
        0 <= at < slashes.len(),
        after_slashes(slashes.take(at + 1), delta, epoch_start, withdraw_epoch) is None,
    ensures
        after_slashes(slashes, delta, epoch_start, withdraw_epoch) is None,
    decreases slashes.len(),
{
    if at + 1 == slashes.len() {
        assert(slashes.take(at + 1) =~= slashes);
    } else {
        assert(slashes.drop_last().take(at + 1) =~= slashes.take(at + 1));
        lemma_after_slashes_stuck(slashes.drop_last(), at, delta, epoch_start, withdraw_epoch);
    }
}

/// What is left of a whole list of slashes exists only where it does for every part of
/// the list that comes first.
pub proof fn lemma_after_slashes_prefix(
    slashes: Seq<Slash>,
    count: int,
    delta: u64,
    epoch_start: u64,
    withdraw_epoch: Option<u64>,
)
    requires
        0 <= count <= slashes.len(),
        after_slashes(slashes, delta, epoch_start, withdraw_epoch) is Some,
    ensures
        after_slashes(slashes.take(count), delta, epoch_start, withdraw_epoch) is Some,
{
    if count > 0 && after_slashes(
        slashes.take(count),
        delta,
        epoch_start,
        withdraw_epoch,
    ) is None {
        lemma_after_slashes_stuck(slashes, count - 1, delta, epoch_start, withdraw_epoch);
    }
}

/// Accumulates the slashes from `epoch_start` until (optionally) `withdraw_epoch`, applies
/// them to the token amount `delta`, and gives what is left with an account of it.
pub fn apply_slashes(
    slashes: &Vec<Slash>,
    delta: u64,
    epoch_start: u64,
    withdraw_epoch: Option<u64>,
) -> (result: (u64, Report))
    requires
        after_slashes(slashes@, delta, epoch_start, withdraw_epoch) is Some,
    ensures
        Some(result.0) == after_slashes(slashes@, delta, epoch_start, withdraw_epoch),
        result.0 <= delta,
        result.1@ == slashing_report(slashes@, delta, epoch_start, withdraw_epoch),
{
    let mut report = Report::new();
    let mut left: u64 = delta;
    let mut slashed: u64 = 0;
    let mut i: usize = 0;
    while i < slashes.len()
        invariant
            i <= slashes.len(),
            left + slashed == delta,
            after_slashes(slashes@, delta, epoch_start, withdraw_epoch) is Some,
            after_slashes(slashes@.take(i as int), delta, epoch_start, withdraw_epoch) == Some(
                left,
            ),
            report@ == slash_lines(slashes@.take(i as int), epoch_start, withdraw_epoch),
        decreases slashes.len() - i,
    {
        let slash = &slashes[i];
        assert(slashes@.take(i + 1).drop_last() =~= slashes@.take(i as int));
        if slash_counts(slash, epoch_start, withdraw_epoch) {
            report.push(
                Line::out().text("    ⚠ Slash: ").rate(slash.rate).text(" from epoch ").number(
                    slash.epoch,
                ),
            );
            let cut = slash_cut(slash.rate, left);
            proof {
                lemma_after_slashes_prefix(
                    slashes@,
                    i + 1,
                    delta,
                    epoch_start,
                    withdraw_epoch,
                );
            }
            if let Some(cut) = cut {
                slashed = slashed + cut;
                left = left - cut;
            }
        }
        i = i + 1;
    }
    assert(slashes@.take(i as int) =~= slashes@);
    if slashed != 0 {
        report.push(Line::out().text("    ⚠ Slash total: ").amount(slashed));
        report.push(Line::out().text("    ⚠ After slashing: Δ ").amount(left));
    }
    assert(report@ =~= slashing_report(slashes@, delta, epoch_start, withdraw_epoch));
    (left, report)
}

/// As [`apply_slashes`], with `None` where one of the cuts cannot be taken off.
pub fn checked_apply_slashes(
    slashes: &Vec<Slash>,
    delta: u64,
    epoch_start: u64,
    withdraw_epoch: Option<u64>,
) -> (result: Option<(u64, Report)>)
    ensures
        result is Some == after_slashes(slashes@, delta, epoch_start, withdraw_epoch) is Some,
        result matches Some(result) ==> {
            &&& Some(result.0) == after_slashes(slashes@, delta, epoch_start, withdraw_epoch)
            &&& result.1@ == slashing_report(slashes@, delta, epoch_start, withdraw_epoch)
        },
{
    match amount_after_slashes(slashes, delta, epoch_start, withdraw_epoch) {
        Some(_) => Some(apply_slashes(slashes, delta, epoch_start, withdraw_epoch)),
        None => None,
    }
}

/// Slashing never adds to an amount.
pub proof fn lemma_slashing_never_adds(
    slashes: Seq<Slash>,
    delta: u64,
    epoch_start: u64,
    withdraw_epoch: Option<u64>,
)
    ensures
        after_slashes(slashes, delta, epoch_start, withdraw_epoch) matches Some(left) ==> left
            <= delta,
    decreases slashes.len(),
{
    if slashes.len() > 0 {
        lemma_slashing_never_adds(slashes.drop_last(), delta, epoch_start, withdraw_epoch);
    }
}

/// Slashes from before the tokens were bonded, or from their withdrawal on, leave the
/// amount as it was, and nothing is said of them.
pub proof fn lemma_uncounted_slashes_change_nothing(
    slashes: Seq<Slash>,
    delta: u64,
    epoch_start: u64,
    withdraw_epoch: Option<u64>,
)
    requires
        forall|i: int|
            0 <= i < slashes.len() ==> !counts(#[trigger] slashes[i], epoch_start, withdraw_epoch),
    ensures
        after_slashes(slashes, delta, epoch_start, withdraw_epoch) == Some(delta),
        slashing_report(slashes, delta, epoch_start, withdraw_epoch) == Seq::<LineView>::empty(),
    decreases slashes.len(),
{
    if slashes.len() > 0 {
        lemma_uncounted_slashes_change_nothing(
            slashes.drop_last(),
            delta,
            epoch_start,
            withdraw_epoch,
        );
    }
}

/// Slashes compound: taking off two lists one after the other is the same as taking off
/// the joined list, each later cut being made from what the earlier ones left.
pub proof fn lemma_slashes_compound(
    first: Seq<Slash>,
    second: Seq<Slash>,
    delta: u64,
    epoch_start: u64,
    withdraw_epoch: Option<u64>,
)
    ensures
        after_slashes(first + second, delta, epoch_start, withdraw_epoch) == match after_slashes(
            first,
            delta,
            epoch_start,
            withdraw_epoch,
        ) {
            Some(left) => after_slashes(second, left, epoch_start, withdraw_epoch),
            None => None,
        },
    decreases second.len(),
{
    if second.len() == 0 {
        assert(first + second =~= first);
    } else {
        assert((first + second).drop_last() =~= first + second.drop_last());
        lemma_slashes_compound(first, second.drop_last(), delta, epoch_start, withdraw_epoch);
    }
}

/// Whether a window that ends with the withdrawal in `earlier` ends no later than one that
/// ends with the withdrawal in `later`. A window without a withdrawal has no end.
pub open spec fn ends_by(earlier: Option<u64>, later: Option<u64>) -> bool {
    match (earlier, later) {
        (Some(earlier), Some(later)) => earlier <= later,
        (_, None) => true,
        (None, Some(_)) => false,
    }
}

/// Where products are exact, a slash leaves no more of a smaller amount, and a rate between
/// zero and one can be taken off every amount.
proof fn lemma_exact_cuts_keep_order(slash: Slash, smaller: u64, larger: u64, limit: u64)
    requires
        smaller <= larger <= limit,
        is_exact(slash.rate, limit),
    ensures
        after_slash(slash, smaller) is Some && after_slash(slash, larger) is Some ==> after_slash(
            slash,
            smaller,
        )->0 <= after_slash(slash, larger)->0,
        is_fraction(slash.rate) ==> after_slash(slash, smaller) is Some && after_slash(
            slash,
            larger,
        ) is Some,
{
    let mantissa = slash.rate.mantissa as int;
    let unit = pow(10, slash.rate.scale as nat);
    lemma_pow_positive(10, slash.rate.scale as nat);
    let a = smaller as int;
    let b = larger as int;
    assert(-MAX_MANTISSA <= mantissa * a <= MAX_MANTISSA && -MAX_MANTISSA <= mantissa * b
        <= MAX_MANTISSA) by (nonlinear_arith)
        requires
            0 <= a <= limit,
            0 <= b <= limit,
            -MAX_MANTISSA <= mantissa * limit <= MAX_MANTISSA,
    ;
    if mantissa < 0 {
        assert(mantissa * a < 0 || a == 0) by (nonlinear_arith)
            requires
                mantissa < 0,
                0 <= a,
        ;
        assert(mantissa * b < 0 || b == 0) by (nonlinear_arith)
            requires
                mantissa < 0,
                0 <= b,
        ;
    } else if mantissa <= unit {
        lemma_floor_within(mantissa, unit, 0, a);
        lemma_floor_within(mantissa, unit, 0, b);
        lemma_floor_within(mantissa, unit, a, b);
        lemma_div_multiples_vanish(0, unit);
    } else {
        lemma_floor_beyond(mantissa, unit, a);
        lemma_floor_beyond(mantissa, unit, b);
    }
}

/// Between two amounts the product with a fraction grows by no more than the amount does.
proof fn lemma_floor_within(mantissa: int, unit: int, a: int, b: int)
    requires
        0 <= mantissa <= unit,
        0 < unit,
        0 <= a <= b,
    ensures
        0 <= mantissa * a,
        0 <= mantissa * b,
        (mantissa * b) / unit <= (mantissa * a) / unit + (b - a),
{
    assert(0 <= mantissa * a && 0 <= mantissa * b && mantissa * b <= mantissa * a + unit * (b
        - a)) by (nonlinear_arith)
        requires
            0 <= mantissa <= unit,
            0 <= a <= b,
    ;
    lemma_div_is_ordered(mantissa * b, unit * (b - a) + mantissa * a, unit);
    lemma_hoist_over_denominator(mantissa * a, b - a, unit as nat);
    assert(unit * (b - a) == (b - a) * unit) by (nonlinear_arith);
    assert(unit * (b - a) + mantissa * a == mantissa * a + (b - a) * unit);
}

/// A product with a rate above one is at least the amount.
proof fn lemma_floor_beyond(mantissa: int, unit: int, a: int)
    requires
        0 < unit < mantissa,
        0 <= a,
    ensures
        0 <= mantissa * a,
        (mantissa * a) / unit >= a,
{
    assert(0 <= mantissa * a && unit * a <= mantissa * a) by (nonlinear_arith)
        requires
            0 < unit < mantissa,
            0 <= a,
    ;
    lemma_div_is_ordered(unit * a, mantissa * a, unit);
    lemma_div_multiples_vanish(a, unit);
}

/// Rates between zero and one with up to nine decimals have exact products with all amounts.
pub proof fn lemma_short_rates_are_exact(rate: Rate, factor: u64)
    requires
        is_fraction(rate),
        rate.scale <= 9,
    ensures
        is_exact(rate, factor),
{
    lemma_pow_increases(10, rate.scale as nat, 9);
    assert(pow(10, 9) == 1_000_000_000) by {
        reveal_with_fuel(pow, 10);
    }
    assert(0 <= rate.mantissa * factor <= 1_000_000_000 * 0xffff_ffff_ffff_ffff)
        by (nonlinear_arith)
        requires
            0 <= rate.mantissa <= 1_000_000_000,
    ;
}

/// Where the products of the rates with the amount are held without rounding, a longer window
/// never leaves more, and none leaves more than there was: all of it where no slash falls in
/// the window. Rates between zero and one can always be taken off.
pub proof fn lemma_longer_windows_leave_no_more(
    slashes: Seq<Slash>,
    delta: u64,
    epoch_start: u64,
    earlier: Option<u64>,
    later: Option<u64>,
)
    requires
        ends_by(earlier, later),
        forall|i: int|
            0 <= i < slashes.len() && counts(#[trigger] slashes[i], epoch_start, later)
                ==> is_exact(slashes[i].rate, delta),
    ensures
        ({
            let longer = after_slashes(slashes, delta, epoch_start, later);
            let shorter = after_slashes(slashes, delta, epoch_start, earlier);
            &&& longer is Some && shorter is Some ==> longer->0 <= shorter->0 <= delta
            &&& (forall|i: int|
                0 <= i < slashes.len() ==> is_fraction(#[trigger] slashes[i].rate))
                ==> longer is Some && shorter is Some
            &&& (forall|i: int|
                0 <= i < slashes.len() ==> !counts(#[trigger] slashes[i], epoch_start, earlier))
                ==> shorter == Some(delta)
        }),
    decreases slashes.len(),
{
    lemma_slashing_never_adds(slashes, delta, epoch_start, earlier);
    if slashes.len() > 0 {
        let rest = slashes.drop_last();
        let last = slashes.last();
        assert forall|i: int|
            0 <= i < rest.len() && counts(#[trigger] rest[i], epoch_start, later) implies is_exact(
            rest[i].rate,
            delta,
        ) by {
            assert(rest[i] == slashes[i]);
        }
        lemma_longer_windows_leave_no_more(rest, delta, epoch_start, earlier, later);
        lemma_slashing_never_adds(rest, delta, epoch_start, earlier);
        lemma_slashing_never_adds(rest, delta, epoch_start, later);
        let longer = after_slashes(rest, delta, epoch_start, later);
        let shorter = after_slashes(rest, delta, epoch_start, earlier);
        assert(slashes[slashes.len() - 1] == last);
        if longer is Some && shorter is Some && counts(last, epoch_start, later) {
            lemma_exact_cuts_keep_order(last, longer->0, shorter->0, delta);
        }
        if forall|i: int| 0 <= i < slashes.len() ==> is_fraction(#[trigger] slashes[i].rate) {
            assert forall|i: int| 0 <= i < rest.len() implies is_fraction(
                #[trigger] rest[i].rate,
            ) by {
                assert(rest[i] == slashes[i]);
            }
        }
        if forall|i: int|
            0 <= i < slashes.len() ==> !counts(#[trigger] slashes[i], epoch_start, earlier) {
            lemma_uncounted_slashes_change_nothing(slashes, delta, epoch_start, earlier);
        }
    }
}

/// A slash within the window takes its share and no more: the largest whole amount that is
/// no larger than the product of its rate and the amount, where that product is held without
/// rounding. It cannot be taken off exactly where that share is negative or larger than the
/// amount.
pub proof fn lemma_one_slash_takes_its_share(
    slash: Slash,
    delta: u64,
    epoch_start: u64,
    withdraw_epoch: Option<u64>,
)
    requires
        epoch_start <= slash.epoch,
        withdraw_epoch matches Some(epoch) ==> slash.epoch < epoch,
        -MAX_MANTISSA <= slash.rate.mantissa <= MAX_MANTISSA,
        slash.rate.scale <= MAX_SCALE,
        -MAX_MANTISSA <= slash.rate.mantissa * delta <= MAX_MANTISSA,
    ensures
        ({
            let product = slash.rate.mantissa * delta;
            let unit = pow(10, slash.rate.scale as nat);
            match after_slashes(seq![slash], delta, epoch_start, withdraw_epoch) {
                Some(left) => left <= delta && (delta - left) * unit <= product < (delta - left
                    + 1) * unit,
                None => product < 0 || product >= (delta + 1) * unit,
            }
        }),
{
    let product = slash.rate.mantissa * delta;
    let unit = pow(10, slash.rate.scale as nat);
    lemma_pow_positive(10, slash.rate.scale as nat);
    assert(seq![slash].drop_last() =~= Seq::<Slash>::empty());
    assert(after_slashes(Seq::<Slash>::empty(), delta, epoch_start, withdraw_epoch) == Some(delta));
    vstd::arithmetic::div_mod::lemma_fundamental_div_mod(product, unit);
    vstd::arithmetic::div_mod::lemma_mod_bound(product, unit);
    let floor = product / unit;
    assert(floor * unit <= product < (floor + 1) * unit) by (nonlinear_arith)
        requires
            product == unit * floor + product % unit,
            0 <= product % unit < unit,
    ;
    if floor > delta {
        assert((delta + 1) * unit <= floor * unit) by (nonlinear_arith)
            requires
                delta + 1 <= floor,
                0 < unit,
        ;
    }
}

/// A slash within the window whose product with the amount is rounded takes the rounded
/// product, where that is no larger than the amount.
pub proof fn lemma_one_slash_takes_the_rounded_share(
    slash: Slash,
    delta: u64,
    epoch_start: u64,
    withdraw_epoch: Option<u64>,
)
    requires
        epoch_start <= slash.epoch,
        withdraw_epoch matches Some(epoch) ==> slash.epoch < epoch,
        slash.rate.mantissa * delta > MAX_MANTISSA || slash.rate.mantissa * delta
            < -MAX_MANTISSA,
    ensures
        ({
            let left = after_slashes(seq![slash], delta, epoch_start, withdraw_epoch);
            match decimal_product(slash.rate.mantissa, slash.rate.scale, delta) {
                Some(cut) => if cut <= delta {
                    left is Some && left->0 + cut == delta
                } else {
                    left is None
                },
                None => left is None,
            }
        }),
{
    assert(seq![slash].drop_last() =~= Seq::<Slash>::empty());
    assert(after_slashes(Seq::<Slash>::empty(), delta, epoch_start, withdraw_epoch) == Some(delta));
}

/// A slash from before the start, or from the withdrawal on, is neither taken off nor
/// announced; any other is announced with its rate and its epoch.
pub proof fn lemma_one_slash_is_announced(
    slash: Slash,
    delta: u64,
    epoch_start: u64,
    withdraw_epoch: Option<u64>,
)
    ensures
        slash.epoch < epoch_start || (withdraw_epoch is Some && slash.epoch
            >= withdraw_epoch->0) ==> {
            &&& after_slashes(seq![slash], delta, epoch_start, withdraw_epoch) == Some(delta)
            &&& slash_lines(seq![slash], epoch_start, withdraw_epoch).len() == 0
        },
        epoch_start <= slash.epoch && (withdraw_epoch is None || slash.epoch < withdraw_epoch->0)
            ==> slash_lines(seq![slash], epoch_start, withdraw_epoch) == seq![
            printed(
                seq![
                    PieceView::Text("    ⚠ Slash: "@),
                    PieceView::Rate(slash.rate),
                    PieceView::Text(" from epoch "@),
                    PieceView::Number(slash.epoch),
                ],
            ),
        ],
{
    assert(seq![slash].drop_last() =~= Seq::<Slash>::empty());
    assert(after_slashes(Seq::<Slash>::empty(), delta, epoch_start, withdraw_epoch) == Some(delta));
    assert(slash_lines(Seq::<Slash>::empty(), epoch_start, withdraw_epoch) =~= seq![]);
    let line = printed(
        seq![
            PieceView::Text("    ⚠ Slash: "@),
            PieceView::Rate(slash.rate),
            PieceView::Text(" from epoch "@),
            PieceView::Number(slash.epoch),
        ],
    );
    assert(slash_line(slash) =~= line);
}

/// The slashes of joined lists are announced list by list.
pub proof fn lemma_slash_lines_join(
    first: Seq<Slash>,
    second: Seq<Slash>,
    epoch_start: u64,
    withdraw_epoch: Option<u64>,
)
    ensures
        slash_lines(first + second, epoch_start, withdraw_epoch) == slash_lines(
            first,
            epoch_start,
            withdraw_epoch,
        ) + slash_lines(second, epoch_start, withdraw_epoch),
    decreases second.len(),
{
    if second.len() == 0 {
        assert(first + second =~= first);
    } else {
        assert((first + second).drop_last() =~= first + second.drop_last());
        lemma_slash_lines_join(first, second.drop_last(), epoch_start, withdraw_epoch);
    }
    assert(slash_lines(first + second, epoch_start, withdraw_epoch) =~= slash_lines(
        first,
        epoch_start,
        withdraw_epoch,
    ) + slash_lines(second, epoch_start, withdraw_epoch));
}

/// The account of slashes announces them and ends, where anything was lost, in two lines: what
/// was lost and what is left, which together are the amount.
pub proof fn lemma_slashing_account_adds_up(
    slashes: Seq<Slash>,
    delta: u64,
    epoch_start: u64,
    withdraw_epoch: Option<u64>,
    left: u64,
)
    requires
        after_slashes(slashes, delta, epoch_start, withdraw_epoch) == Some(left),
    ensures
        ({
            let announced = slash_lines(slashes, epoch_start, withdraw_epoch);
            let account = slashing_report(slashes, delta, epoch_start, withdraw_epoch);
            &&& left == delta ==> account == announced
            &&& left != delta ==> left < delta && account == announced + seq![
                printed(
                    seq![
                        PieceView::Text("    ⚠ Slash total: "@),
                        PieceView::Amount((delta - left) as u64),
                    ],
                ),
                printed(
                    seq![PieceView::Text("    ⚠ After slashing: Δ "@), PieceView::Amount(left)],
                ),
            ]
        }),
{
    lemma_slashing_never_adds(slashes, delta, epoch_start, withdraw_epoch);
    let announced = slash_lines(slashes, epoch_start, withdraw_epoch);
    let account = slashing_report(slashes, delta, epoch_start, withdraw_epoch);
    if left == delta {
        assert(account =~= announced);
    } else {
        let lost = (delta - left) as u64;
        let a = printed(
            seq![PieceView::Text("    ⚠ Slash total: "@), PieceView::Amount(lost)],
        );
        let b = printed(
            seq![PieceView::Text("    ⚠ After slashing: Δ "@), PieceView::Amount(left)],
        );
        assert(out().text("    ⚠ Slash total: "@).amount(lost) =~= a);
        assert(out().text("    ⚠ After slashing: Δ "@).amount(left) =~= b);
        assert(account =~= announced + seq![a, b]);
    }
}

} // verus!
