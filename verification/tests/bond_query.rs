use ledger_client::bond_query::{
    bonds_request, checked_query_bonds, query_bonds, BondEntry, BondsFound, BondsRequest,
    UnbondEntry,
};
use ledger_client::deltas::{Bond, Unbond};
use ledger_client::report::{Channel, Line, Piece, Rate, Report};
use ledger_client::slashing::Slash;

fn text(s: &str) -> String {
    s.to_string()
}

/// The lines as plain text, amounts in angle brackets.
fn plain(report: &Report) -> Vec<String> {
    report.lines.iter().map(plain_line).collect()
}

fn plain_line(line: &Line) -> String {
    assert_eq!(line.channel, Channel::Out);
    line.pieces
        .iter()
        .map(|piece| match piece {
            Piece::Text(s) => s.clone(),
            Piece::Number(n) => format!("{}", n),
            Piece::Amount(n) => format!("<{}>", n),
            other => format!("{:?}", other),
        })
        .collect()
}

fn bonds(deltas: Vec<(u64, u64)>) -> Vec<Bond> {
    vec![Bond { pos_deltas: deltas, neg_deltas: 0 }]
}

fn unbonds(deltas: Vec<((u64, u64), u64)>) -> Vec<Unbond> {
    vec![Unbond { deltas }]
}

fn half(epoch: u64) -> Slash {
    Slash {
        epoch,
        block_height: 0,
        kind: text("Duplicate vote"),
        rate: Rate { mantissa: 5, scale: 1 },
    }
}

#[test]
fn requests_depend_on_what_is_given() {
    assert_eq!(
        bonds_request(Some(text("o")), Some(text("v"))),
        BondsRequest::Delegation { owner: text("o"), validator: text("v") }
    );
    assert_eq!(
        bonds_request(None, Some(text("v"))),
        BondsRequest::SelfBonds { validator: text("v") }
    );
    assert_eq!(bonds_request(Some(text("o")), None), BondsRequest::Source { owner: text("o") });
    assert_eq!(bonds_request(None, None), BondsRequest::All);
}

#[test]
fn a_delegation_is_reported() {
    let found = BondsFound::Delegation {
        owner: text("o"),
        validator: text("v"),
        bonds: Some(bonds(vec![(2, 10)])),
        unbonds: Some(unbonds(vec![((1, 2), 4)])),
        slashes: Some(vec![half(3)]),
    };
    let report = query_bonds(&found, 3);
    assert_eq!(
        plain(&report),
        vec![
            "Delegations:",
            "  Active from epoch 2: Δ <10>",
            "    ⚠ Slash: Rate(Rate { mantissa: 5, scale: 1 }) from epoch 3",
            "    ⚠ Slash total: <5>",
            "    ⚠ After slashing: Δ <5>",
            "Bonds total: <5>",
            "Unbonded delegations:",
            "  Withdrawable from epoch 3 (active from 1): Δ <4>",
            "Withdrawable total: <4>",
            "Unbonded total: <4>",
        ]
    );
}

#[test]
fn a_delegation_to_oneself_is_a_self_bond() {
    let found = BondsFound::Delegation {
        owner: text("v"),
        validator: text("v"),
        bonds: Some(bonds(vec![])),
        unbonds: Some(unbonds(vec![])),
        slashes: None,
    };
    assert_eq!(
        plain(&query_bonds(&found, 3)),
        vec![
            "Self-bonds:",
            "Bonds total: <0>",
            "Unbonded self-bonds:",
            "Unbonded total: <0>",
        ]
    );
}

#[test]
fn a_delegation_to_oneself_is_reported_as_self_bonds() {
    let held = || (Some(bonds(vec![(3, 8), (1, 2)])), Some(unbonds(vec![((1, 2), 4)])));
    let (own_bonds, own_unbonds) = held();
    let delegation = BondsFound::Delegation {
        owner: text("v"),
        validator: text("v"),
        bonds: own_bonds,
        unbonds: own_unbonds,
        slashes: Some(vec![half(2)]),
    };
    let (own_bonds, own_unbonds) = held();
    let self_bonds = BondsFound::SelfBonds {
        validator: text("v"),
        bonds: own_bonds,
        unbonds: own_unbonds,
        slashes: Some(vec![half(2)]),
    };
    assert_eq!(query_bonds(&delegation, 2), query_bonds(&self_bonds, 2));
}

#[test]
fn a_missing_delegation_is_reported() {
    let found = BondsFound::Delegation {
        owner: text("o"),
        validator: text("v"),
        bonds: None,
        unbonds: None,
        slashes: None,
    };
    assert_eq!(
        plain(&query_bonds(&found, 3)),
        vec!["No delegations found for o to validator v"]
    );
    let found =
        BondsFound::SelfBonds { validator: text("v"), bonds: None, unbonds: None, slashes: None };
    assert_eq!(plain(&query_bonds(&found, 3)), vec!["No self-bonds found for validator v"]);
}

#[test]
fn self_bonds_are_reported() {
    let found = BondsFound::SelfBonds {
        validator: text("v"),
        bonds: Some(bonds(vec![(1, 2), (9, 3)])),
        unbonds: None,
        slashes: None,
    };
    assert_eq!(
        plain(&query_bonds(&found, 3)),
        vec![
            "Self-bonds:",
            "  Active from epoch 1: Δ <2>",
            "  Active from epoch 9: Δ <3>",
            "Active bonds total: <2>",
            "Bonds total: <5>",
        ]
    );
}

fn entries() -> (Vec<BondEntry>, Vec<UnbondEntry>) {
    (
        vec![
            BondEntry {
                source: text("o"),
                validator: text("v"),
                bonds: bonds(vec![(1, 10)]),
                slashes: None,
            },
            BondEntry {
                source: text("o"),
                validator: text("o"),
                bonds: bonds(vec![(7, 20)]),
                slashes: Some(vec![half(8)]),
            },
        ],
        vec![
            UnbondEntry {
                source: text("o"),
                validator: text("v"),
                unbonds: unbonds(vec![((1, 3), 6)]),
                slashes: None,
            },
            UnbondEntry {
                source: text("o"),
                validator: text("o"),
                unbonds: unbonds(vec![((1, 8), 5)]),
                slashes: None,
            },
        ],
    )
}

#[test]
fn the_bonds_of_a_source_are_listed() {
    let (bonds, unbonds) = entries();
    let found =
        BondsFound::Source { owner: text("o"), bonds: Some(bonds), unbonds: Some(unbonds) };
    assert_eq!(
        plain(&query_bonds(&found, 4)),
        vec![
            "Delegations from o to v:",
            "  Active from epoch 1: Δ <10>",
            "  Bonded total from o: <10>",
            "Self-bonds:",
            "  Active from epoch 7: Δ <20>",
            "    ⚠ Slash: Rate(Rate { mantissa: 5, scale: 1 }) from epoch 8",
            "    ⚠ Slash total: <10>",
            "    ⚠ After slashing: Δ <10>",
            "  Bonded total from o: <10>",
            "Active bonds total: <10>",
            "Unbonded delegations from o:",
            "  Withdrawable from epoch 4 (active from 1): Δ <6>",
            "  Unbonded total from o: <6>",
            "Unbonded self-bonds:",
            "  Withdrawable from epoch 9 (active from 1): Δ <5>",
            "  Unbonded total from o: <5>",
            "Withdrawable total: <6>",
        ]
    );
}

#[test]
fn all_bonds_are_listed() {
    let (bonds, unbonds) = entries();
    let found = BondsFound::All { bonds: Some(bonds), unbonds: Some(unbonds) };
    assert_eq!(
        plain(&query_bonds(&found, 9)),
        vec![
            "Delegations from o to validator v:",
            "  Active from epoch 1: Δ <10>",
            "  Bonded total from o: <10>",
            "Self-bonds for o:",
            "  Active from epoch 7: Δ <20>",
            "    ⚠ Slash: Rate(Rate { mantissa: 5, scale: 1 }) from epoch 8",
            "    ⚠ Slash total: <10>",
            "    ⚠ After slashing: Δ <10>",
            "  Bonded total from o: <10>",
            "Bond total: <20>",
            "Unbonded delegations from o to validator v:",
            "  Withdrawable from epoch 4 (active from 1): Δ <6>",
            "  Unbonded total from o: <6>",
            "Unbonded self-bonds for o:",
            "  Withdrawable from epoch 9 (active from 1): Δ <5>",
            "  Unbonded total from o: <5>",
            "Withdrawable total: <11>",
            "Unbonded total: <11>",
        ]
    );
}

#[test]
fn a_source_without_bonds_is_reported() {
    for (bonds, unbonds) in [(None, None), (Some(vec![]), Some(vec![]))] {
        let found = BondsFound::Source { owner: text("o"), bonds, unbonds };
        assert_eq!(
            plain(&query_bonds(&found, 4)),
            vec!["No self-bonds or delegations found for o"]
        );
    }
    let found = BondsFound::All { bonds: None, unbonds: None };
    assert_eq!(plain(&query_bonds(&found, 4)), vec!["Bond total: <0>", "Unbonded total: <0>"]);
}

#[test]
fn totals_over_several_holdings_must_be_amounts() {
    let huge = |source: &str| BondEntry {
        source: text(source),
        validator: text("v"),
        bonds: bonds(vec![(1, u64::MAX)]),
        slashes: None,
    };
    let one = BondsFound::All { bonds: Some(vec![huge("a")]), unbonds: None };
    assert_eq!(checked_query_bonds(&one, 4), Some(query_bonds(&one, 4)));
    let two = BondsFound::All { bonds: Some(vec![huge("a"), huge("b")]), unbonds: None };
    assert_eq!(checked_query_bonds(&two, 4), None);
    let found = BondsFound::SelfBonds {
        validator: text("v"),
        bonds: None,
        unbonds: Some(unbonds(vec![((1, u64::MAX), 4)])),
        slashes: None,
    };
    assert_eq!(checked_query_bonds(&found, 4), None);
}
