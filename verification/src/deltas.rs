//! Bonded and unbonded token amounts by epoch.

use itertools::Itertools;
use vstd::prelude::*;
use vstd::relations::{sorted_by, total_ordering};
use vstd::seq_lib::lemma_sorted_unique;

verus! {

/// A bond: what was bonded from each epoch on, and what was unbonded since.
#[derive(Clone, Debug, PartialEq, Eq)]
pub struct Bond {
    /// Pairs of the epoch from which an amount is bonded and the amount.
    pub pos_deltas: Vec<(u64, u64)>,
    /// The amount that was unbonded.
    pub neg_deltas: u64,
}

/// An unbond: amounts by the epochs from which and until which they were bonded.
#[derive(Clone, Debug, PartialEq, Eq)]
pub struct Unbond {
    /// Pairs of the first and last epoch of an amount, and the amount.
    pub deltas: Vec<((u64, u64), u64)>,
}

/// An amount with the epochs between which it was bonded: first epoch, last epoch, amount.
/// The last epoch of an amount that is still bonded is zero.
pub type Row = (u64, u64, u64);

/// The order of rows: by first epoch, last epoch and amount.
pub open spec fn row_leq(a: Row, b: Row) -> bool {
    a.0 < b.0 || (a.0 == b.0 && (a.1 < b.1 || (a.1 == b.1 && a.2 <= b.2)))
}

/// [`row_leq`] as a relation.
pub open spec fn row_order() -> spec_fn(Row, Row) -> bool {
    |a: Row, b: Row| row_leq(a, b)
}

/// The rows in ascending order.
pub open spec fn sorted(rows: Seq<Row>) -> Seq<Row> {
    rows.sort_by(row_order())
}

/// The rows of a bond in ascending order.
pub open spec fn bond_rows(bond: Bond) -> Seq<Row> {
    sorted(bond.pos_deltas@.map_values(|d: (u64, u64)| (d.0, 0u64, d.1)))
}

/// The rows of an unbond in ascending order.
pub open spec fn unbond_rows(unbond: Unbond) -> Seq<Row> {
    sorted(unbond.deltas@.map_values(|d: ((u64, u64), u64)| (d.0.0, d.0.1, d.1)))
}

/// The rows of several bonds, bond by bond.
pub open spec fn all_bond_rows(bonds: Seq<Bond>) -> Seq<Row>
    decreases bonds.len(),
{
    if bonds.len() == 0 {
        seq![]
    } else {
        all_bond_rows(bonds.drop_last()) + bond_rows(bonds.last())
    }
}

/// The rows of several unbonds, unbond by unbond.
pub open spec fn all_unbond_rows(unbonds: Seq<Unbond>) -> Seq<Row>
    decreases unbonds.len(),
{
    if unbonds.len() == 0 {
        seq![]
    } else {
        all_unbond_rows(unbonds.drop_last()) + unbond_rows(unbonds.last())
    }
}

/// The amounts of the rows added up.
pub open spec fn raw_total(rows: Seq<Row>) -> int
    decreases rows.len(),
{
    if rows.len() == 0 {
        0
    } else {
        raw_total(rows.drop_last()) + rows.last().2
    }
}

/// Sorts rows through `Itertools::sorted`: what comes out are the items that went in, in
/// the ascending order of triples of integers.
#[verifier::external_body]
fn sort_ascending(rows: Vec<Row>) -> (ascending: Vec<Row>)
    ensures
        ascending@.to_multiset() == rows@.to_multiset(),
        sorted_by(ascending@, row_order()),
{
    rows.into_iter().sorted().collect()
}

/// The order of rows is total.
proof fn lemma_row_order_total()
    ensures
        total_ordering(row_order()),
{
}

/// Rows that hold the same items in whatever order are the same in ascending order.
proof fn lemma_sorted_ignores_order(a: Seq<Row>, b: Seq<Row>)
    requires
        a.to_multiset() == b.to_multiset(),
    ensures
        sorted(a) == sorted(b),
{
    lemma_row_order_total();
    a.lemma_sort_by_ensures(row_order());
    b.lemma_sort_by_ensures(row_order());
    lemma_sorted_unique(sorted(a), sorted(b), row_order());
}

/// Lists that hold the same items in whatever order still do so once each item is mapped.
proof fn lemma_mapped_multisets<A, B>(a: Seq<A>, b: Seq<A>, f: spec_fn(A) -> B)
    requires
        a.to_multiset() == b.to_multiset(),
    ensures
        a.map_values(f).to_multiset() == b.map_values(f).to_multiset(),
    decreases a.len(),
{
    broadcast use {vstd::seq_lib::group_to_multiset_ensures, vstd::multiset::group_multiset_axioms};

    assert(a.to_multiset().len() == a.len());
    assert(b.to_multiset().len() == b.len());
    if a.len() == 0 {
        assert(a.map_values(f) =~= b.map_values(f));
    } else {
        let x = a.last();
        assert(a.contains(x));
        assert(a.to_multiset().count(x) > 0);
        assert(b.contains(x));
        let i = choose|i: int| 0 <= i < b.len() && b[i] == x;
        assert(a.remove(a.len() - 1) =~= a.drop_last());
        lemma_mapped_multisets(a.drop_last(), b.remove(i), f);
        assert(a.map_values(f).remove(a.len() - 1) =~= a.drop_last().map_values(f));
        assert(b.map_values(f).remove(i) =~= b.remove(i).map_values(f));
        assert(a.map_values(f).to_multiset() =~= a.map_values(f).remove(
            a.len() - 1,
        ).to_multiset().insert(f(x)));
        assert(b.map_values(f).to_multiset() =~= b.map_values(f).remove(i).to_multiset().insert(
            f(x),
        ));
    }
}

/// The rows of a bond do not depend on the order in which its amounts are listed.
pub proof fn lemma_bond_rows_ignore_order(a: Bond, b: Bond)
    requires
        a.pos_deltas@.to_multiset() == b.pos_deltas@.to_multiset(),
    ensures
        bond_rows(a) == bond_rows(b),
{
    let f = |d: (u64, u64)| (d.0, 0u64, d.1);
    lemma_mapped_multisets(a.pos_deltas@, b.pos_deltas@, f);
    lemma_sorted_ignores_order(a.pos_deltas@.map_values(f), b.pos_deltas@.map_values(f));
}

/// The rows of an unbond do not depend on the order in which its amounts are listed.
pub proof fn lemma_unbond_rows_ignore_order(a: Unbond, b: Unbond)
    requires
        a.deltas@.to_multiset() == b.deltas@.to_multiset(),
    ensures
        unbond_rows(a) == unbond_rows(b),
{
    let f = |d: ((u64, u64), u64)| (d.0.0, d.0.1, d.1);
    lemma_mapped_multisets(a.deltas@, b.deltas@, f);
    lemma_sorted_ignores_order(a.deltas@.map_values(f), b.deltas@.map_values(f));
}

/// Rows in ascending order.
fn sort_rows(rows: Vec<Row>) -> (ascending: Vec<Row>)
    ensures
        ascending@ == sorted(rows@),
{
    let ascending = sort_ascending(rows);
    proof {
        lemma_row_order_total();
        rows@.lemma_sort_by_ensures(row_order());
        lemma_sorted_unique(ascending@, sorted(rows@), row_order());
    }
    ascending
}

impl Bond {
    /// The rows of the bond in ascending order.
    pub fn rows(&self) -> (rows: Vec<Row>)
        ensures
            rows@ == bond_rows(*self),
    {
        let mut rows: Vec<Row> = Vec::new();
        let ghost all = self.pos_deltas@.map_values(|d: (u64, u64)| (d.0, 0u64, d.1));
        let mut i: usize = 0;
        while i < self.pos_deltas.len()
            invariant
                i <= self.pos_deltas.len(),
                all == self.pos_deltas@.map_values(|d: (u64, u64)| (d.0, 0u64, d.1)),
                rows@ == all.take(i as int),
            decreases self.pos_deltas.len() - i,
        {
            let delta = self.pos_deltas[i];
            rows.push((delta.0, 0, delta.1));
            assert(rows@ =~= all.take(i + 1));
            i = i + 1;
        }
        assert(rows@ =~= all);
        sort_rows(rows)
    }
}

impl Unbond {
    /// The rows of the unbond in ascending order.
    pub fn rows(&self) -> (rows: Vec<Row>)
        ensures
            rows@ == unbond_rows(*self),
    {
        let mut rows: Vec<Row> = Vec::new();
        let ghost all = self.deltas@.map_values(|d: ((u64, u64), u64)| (d.0.0, d.0.1, d.1));
        let mut i: usize = 0;
        while i < self.deltas.len()
            invariant
                i <= self.deltas.len(),
                all == self.deltas@.map_values(|d: ((u64, u64), u64)| (d.0.0, d.0.1, d.1)),
                rows@ == all.take(i as int),
            decreases self.deltas.len() - i,
        {
            let delta = self.deltas[i];
            rows.push((delta.0.0, delta.0.1, delta.1));
            assert(rows@ =~= all.take(i + 1));
            i = i + 1;
        }
        assert(rows@ =~= all);
        sort_rows(rows)
    }
}

/// The rows of several bonds, bond by bond.
pub fn rows_of_bonds(bonds: &Vec<Bond>) -> (rows: Vec<Row>)
    ensures
        rows@ == all_bond_rows(bonds@),
{
    let mut rows: Vec<Row> = Vec::new();
    let mut i: usize = 0;
    while i < bonds.len()
        invariant
            i <= bonds.len(),
            rows@ == all_bond_rows(bonds@.take(i as int)),
        decreases bonds.len() - i,
    {
        let mut more = bonds[i].rows();
        rows.append(&mut more);
        assert(bonds@.take(i + 1).drop_last() =~= bonds@.take(i as int));
        i = i + 1;
    }
    assert(bonds@.take(i as int) =~= bonds@);
    rows
}

/// The rows of several unbonds, unbond by unbond.
pub fn rows_of_unbonds(unbonds: &Vec<Unbond>) -> (rows: Vec<Row>)
    ensures
        rows@ == all_unbond_rows(unbonds@),
{
    let mut rows: Vec<Row> = Vec::new();
    let mut i: usize = 0;
    while i < unbonds.len()
        invariant
            i <= unbonds.len(),
            rows@ == all_unbond_rows(unbonds@.take(i as int)),
        decreases unbonds.len() - i,
    {
        let mut more = unbonds[i].rows();
        rows.append(&mut more);
        assert(unbonds@.take(i + 1).drop_last() =~= unbonds@.take(i as int));
        i = i + 1;
    }
    assert(unbonds@.take(i as int) =~= unbonds@);
    rows
}

/// Mapping items that are told apart afterwards keeps how often each occurs.
proof fn lemma_mapped_count<A, B>(a: Seq<A>, f: spec_fn(A) -> B, x: A)
    requires
        forall|y: A| #[trigger] f(y) == f(x) ==> y == x,
    ensures
        a.map_values(f).to_multiset().count(f(x)) == a.to_multiset().count(x),
    decreases a.len(),
{
    broadcast use {vstd::seq_lib::group_to_multiset_ensures, vstd::multiset::group_multiset_axioms};

    if a.len() == 0 {
        assert(a.to_multiset().len() == 0);
        assert(a.map_values(f).to_multiset().len() == 0);
        assert(a.to_multiset().count(x) == 0);
        assert(a.map_values(f).to_multiset().count(f(x)) == 0);
    } else {
        lemma_mapped_count(a.drop_last(), f, x);
        assert(a =~= a.drop_last().push(a.last()));
        assert(a.map_values(f) =~= a.drop_last().map_values(f).push(f(a.last())));
        assert(a.to_multiset() =~= a.drop_last().to_multiset().insert(a.last()));
        assert(a.map_values(f).to_multiset() =~= a.drop_last().map_values(f).to_multiset().insert(
            f(a.last()),
        ));
    }
}

/// The rows of a bond are its amounts, each as often as the bond has it, by ascending epoch
/// and amount.
pub proof fn lemma_bond_rows_are_its_amounts(bond: Bond, epoch: u64, amount: u64)
    ensures
        bond_rows(bond).to_multiset().count((epoch, 0, amount))
            == bond.pos_deltas@.to_multiset().count((epoch, amount)),
        bond_rows(bond).len() == bond.pos_deltas@.len(),
        forall|i: int, j: int|
            0 <= i < j < bond_rows(bond).len() ==> {
                let a = #[trigger] bond_rows(bond)[i];
                let b = #[trigger] bond_rows(bond)[j];
                a.0 < b.0 || (a.0 == b.0 && (a.1 < b.1 || (a.1 == b.1 && a.2 <= b.2)))
            },
{
    broadcast use vstd::seq_lib::group_to_multiset_ensures;

    let f = |d: (u64, u64)| (d.0, 0u64, d.1);
    let rows = bond.pos_deltas@.map_values(f);
    lemma_row_order_total();
    rows.lemma_sort_by_ensures(row_order());
    lemma_mapped_count(bond.pos_deltas@, f, (epoch, amount));
    assert(sorted(rows).to_multiset().len() == rows.to_multiset().len());
    let ascending = bond_rows(bond);
    assert forall|i: int, j: int| 0 <= i < j < ascending.len() implies {
        let a = #[trigger] ascending[i];
        let b = #[trigger] ascending[j];
        a.0 < b.0 || (a.0 == b.0 && (a.1 < b.1 || (a.1 == b.1 && a.2 <= b.2)))
    } by {
        assert((row_order())(ascending[i], ascending[j]));
    }
}

/// The rows of an unbond are its amounts, each as often as the unbond has it, by ascending
/// epochs and amount.
pub proof fn lemma_unbond_rows_are_its_amounts(unbond: Unbond, start: u64, end: u64, amount: u64)
    ensures
        unbond_rows(unbond).to_multiset().count((start, end, amount))
            == unbond.deltas@.to_multiset().count(((start, end), amount)),
        unbond_rows(unbond).len() == unbond.deltas@.len(),
        forall|i: int, j: int|
            0 <= i < j < unbond_rows(unbond).len() ==> {
                let a = #[trigger] unbond_rows(unbond)[i];
                let b = #[trigger] unbond_rows(unbond)[j];
                a.0 < b.0 || (a.0 == b.0 && (a.1 < b.1 || (a.1 == b.1 && a.2 <= b.2)))
            },
{
    broadcast use vstd::seq_lib::group_to_multiset_ensures;

    let f = |d: ((u64, u64), u64)| (d.0.0, d.0.1, d.1);
    let rows = unbond.deltas@.map_values(f);
    lemma_row_order_total();
    rows.lemma_sort_by_ensures(row_order());
    lemma_mapped_count(unbond.deltas@, f, ((start, end), amount));
    assert(sorted(rows).to_multiset().len() == rows.to_multiset().len());
    let ascending = unbond_rows(unbond);
    assert forall|i: int, j: int| 0 <= i < j < ascending.len() implies {
        let a = #[trigger] ascending[i];
        let b = #[trigger] ascending[j];
        a.0 < b.0 || (a.0 == b.0 && (a.1 < b.1 || (a.1 == b.1 && a.2 <= b.2)))
    } by {
        assert((row_order())(ascending[i], ascending[j]));
    }
}

/// The rows of joined lists of bonds are those of the lists, one behind the other, and those
/// of one bond are the bond's.
pub proof fn lemma_rows_of_bonds_join(first: Seq<Bond>, second: Seq<Bond>, bond: Bond)
    ensures
        all_bond_rows(first + second) == all_bond_rows(first) + all_bond_rows(second),
        all_bond_rows(seq![bond]) == bond_rows(bond),
    decreases second.len(),
{
    assert(seq![bond].drop_last() =~= Seq::<Bond>::empty());
    assert(all_bond_rows(Seq::<Bond>::empty()) =~= seq![]);
    assert(all_bond_rows(seq![bond]) =~= bond_rows(bond));
    if second.len() == 0 {
        assert(first + second =~= first);
    } else {
        assert((first + second).drop_last() =~= first + second.drop_last());
        lemma_rows_of_bonds_join(first, second.drop_last(), bond);
    }
    assert(all_bond_rows(first + second) =~= all_bond_rows(first) + all_bond_rows(second));
}

/// The rows of joined lists of unbonds are those of the lists, one behind the other, and those
/// of one unbond are the unbond's.
pub proof fn lemma_rows_of_unbonds_join(first: Seq<Unbond>, second: Seq<Unbond>, unbond: Unbond)
    ensures
        all_unbond_rows(first + second) == all_unbond_rows(first) + all_unbond_rows(second),
        all_unbond_rows(seq![unbond]) == unbond_rows(unbond),
    decreases second.len(),
{
    assert(seq![unbond].drop_last() =~= Seq::<Unbond>::empty());
    assert(all_unbond_rows(Seq::<Unbond>::empty()) =~= seq![]);
    assert(all_unbond_rows(seq![unbond]) =~= unbond_rows(unbond));
    if second.len() == 0 {
        assert(first + second =~= first);
    } else {
        assert((first + second).drop_last() =~= first + second.drop_last());
        lemma_rows_of_unbonds_join(first, second.drop_last(), unbond);
    }
    assert(all_unbond_rows(first + second) =~= all_unbond_rows(first) + all_unbond_rows(second));
}

/// The amounts of joined rows add up, and one row counts with its amount.
pub proof fn lemma_raw_totals_add_up(first: Seq<Row>, second: Seq<Row>, row: Row)
    ensures
        raw_total(first + second) == raw_total(first) + raw_total(second),
        raw_total(seq![row]) == row.2,
    decreases second.len(),
{
    assert(seq![row].drop_last() =~= Seq::<Row>::empty());
    assert(raw_total(Seq::<Row>::empty()) == 0);
    if second.len() == 0 {
        assert(first + second =~= first);
    } else {
        assert((first + second).drop_last() =~= first + second.drop_last());
        lemma_raw_totals_add_up(first, second.drop_last(), row);
    }
}

/// The amounts of rows add up to the same in whatever order they stand.
proof fn lemma_raw_total_ignores_order(a: Seq<Row>, b: Seq<Row>)
    requires
        a.to_multiset() == b.to_multiset(),
    ensures
        raw_total(a) == raw_total(b),
    decreases a.len(),
{
    broadcast use {vstd::seq_lib::group_to_multiset_ensures, vstd::multiset::group_multiset_axioms};

    assert(a.to_multiset().len() == a.len());
    assert(b.to_multiset().len() == b.len());
    if a.len() > 0 {
        let x = a.last();
        assert(a.contains(x));
        assert(a.to_multiset().count(x) > 0);
        assert(b.contains(x));
        let i = choose|i: int| 0 <= i < b.len() && b[i] == x;
        assert(a.remove(a.len() - 1) =~= a.drop_last());
        lemma_raw_total_ignores_order(a.drop_last(), b.remove(i));
        assert(b =~= b.take(i) + seq![x] + b.skip(i + 1));
        assert(b.remove(i) =~= b.take(i) + b.skip(i + 1));
        lemma_raw_totals_add_up(b.take(i) + seq![x], b.skip(i + 1), x);
        lemma_raw_totals_add_up(b.take(i), seq![x], x);
        lemma_raw_totals_add_up(b.take(i), b.skip(i + 1), x);
    }
}

/// What was bonded in all.
pub open spec fn bonded_sum(pos_deltas: Seq<(u64, u64)>) -> int
    decreases pos_deltas.len(),
{
    if pos_deltas.len() == 0 {
        0
    } else {
        pos_deltas[0].1 + bonded_sum(pos_deltas.skip(1))
    }
}

/// The rows of a list of amounts add up to what was bonded in all.
proof fn lemma_mapped_rows_total(pos_deltas: Seq<(u64, u64)>)
    ensures
        raw_total(pos_deltas.map_values(|d: (u64, u64)| (d.0, 0u64, d.1))) == bonded_sum(
            pos_deltas,
        ),
    decreases pos_deltas.len(),
{
    let f = |d: (u64, u64)| (d.0, 0u64, d.1);
    if pos_deltas.len() > 0 {
        let rest = pos_deltas.skip(1);
        lemma_mapped_rows_total(rest);
        let row = f(pos_deltas[0]);
        assert(pos_deltas.map_values(f) =~= seq![row] + rest.map_values(f));
        lemma_raw_totals_add_up(seq![row], rest.map_values(f), row);
    }
}

/// The rows of a bond add up to what was bonded in all.
pub proof fn lemma_bond_rows_add_up(bond: Bond)
    ensures
        raw_total(bond_rows(bond)) == bonded_sum(bond.pos_deltas@),
{
    let rows = bond.pos_deltas@.map_values(|d: (u64, u64)| (d.0, 0u64, d.1));
    lemma_row_order_total();
    rows.lemma_sort_by_ensures(row_order());
    lemma_raw_total_ignores_order(bond_rows(bond), rows);
    lemma_mapped_rows_total(bond.pos_deltas@);
}

} // verus!
