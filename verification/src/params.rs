//! The report of the ledger's parameters.

use vstd::prelude::*;

use crate::report::{out, printed, texts, Line, LineView, PieceView, Rate, Report};

verus! {

/// A stored value that the report of the parameters is made of.
#[derive(Clone, Copy, Debug, PartialEq, Eq, Structural)]
pub enum ParameterKey {
    Governance,
    EpochDuration,
    MaxExpectedTimePerBlock,
    TxWhitelist,
    PosParams,
}

/// The stored values in the order in which they are asked for. Both lists of the report
/// are read from the whitelist of transactions.
pub fn parameter_keys() -> (keys: Vec<ParameterKey>)
    ensures
        keys@ == seq![
            ParameterKey::Governance,
            ParameterKey::EpochDuration,
            ParameterKey::MaxExpectedTimePerBlock,
            ParameterKey::TxWhitelist,
            ParameterKey::TxWhitelist,
            ParameterKey::PosParams,
        ],
{
    let keys: Vec<ParameterKey> = vec![
        ParameterKey::Governance,
        ParameterKey::EpochDuration,
        ParameterKey::MaxExpectedTimePerBlock,
        ParameterKey::TxWhitelist,
        ParameterKey::TxWhitelist,
        ParameterKey::PosParams,
    ];
    assert(keys@ =~= seq![
        ParameterKey::Governance,
        ParameterKey::EpochDuration,
        ParameterKey::MaxExpectedTimePerBlock,
        ParameterKey::TxWhitelist,
        ParameterKey::TxWhitelist,
        ParameterKey::PosParams,
    ]);
    keys
}

/// The ledger's parameters.
#[derive(Debug)]
pub struct ProtocolParameters {
    /// The parameters of governance, as they are shown.
    pub governance: String,
    /// The shortest duration of an epoch, as it is shown.
    pub min_duration: String,
    pub min_num_of_blocks: u64,
    pub max_block_duration: u64,
    pub vp_whitelist: Vec<String>,
    pub tx_whitelist: Vec<String>,
    pub block_proposer_reward: Rate,
    pub block_vote_reward: Rate,
    pub duplicate_vote_min_slash_rate: Rate,
    pub light_client_attack_min_slash_rate: Rate,
    pub max_validator_slots: u64,
    pub pipeline_len: u64,
    pub unbonding_len: u64,
    pub tm_votes_per_token: Rate,
}

/// The report of the parameters.
pub open spec fn parameters_report(p: ProtocolParameters) -> Seq<LineView> {
    seq![
        out().text("Governance Parameters\n "@).text(p.governance@),
        out().text("Protocol parameters"@),
        out().text("    Min. epoch duration: "@).text(p.min_duration@),
        out().text("    Min. number of blocks: "@).number(p.min_num_of_blocks),
        out().text("    Max. block duration: "@).number(p.max_block_duration),
        out().text("    VP whitelist: "@).list(texts(p.vp_whitelist@)),
        out().text("    Transactions whitelist: "@).list(texts(p.tx_whitelist@)),
        out().text("PoS parameters"@),
        out().text("    Block proposer reward: "@).rate(p.block_proposer_reward),
        out().text("    Block vote reward: "@).rate(p.block_vote_reward),
        out().text("    Duplicate vote minimum slash rate: "@).rate(
            p.duplicate_vote_min_slash_rate,
        ),
        out().text("    Light client attack minimum slash rate: "@).rate(
            p.light_client_attack_min_slash_rate,
        ),
        out().text("    Max. validator slots: "@).number(p.max_validator_slots),
        out().text("    Pipeline length: "@).number(p.pipeline_len),
        out().text("    Unbonding length: "@).number(p.unbonding_len),
        out().text("    Votes per token: "@).rate(p.tm_votes_per_token),
    ]
}

/// Query the ledger's parameters: the report of them.
pub fn query_protocol_parameters(p: &ProtocolParameters) -> (report: Report)
    ensures
        report@ == parameters_report(*p),
{
    let mut report = Report::new();
    report.push(Line::out().text("Governance Parameters\n ").text(p.governance.as_str()));
    report.push(Line::out().text("Protocol parameters"));
    report.push(Line::out().text("    Min. epoch duration: ").text(p.min_duration.as_str()));
    report.push(Line::out().text("    Min. number of blocks: ").number(p.min_num_of_blocks));
    report.push(Line::out().text("    Max. block duration: ").number(p.max_block_duration));
    report.push(Line::out().text("    VP whitelist: ").list(&p.vp_whitelist));
    report.push(Line::out().text("    Transactions whitelist: ").list(&p.tx_whitelist));
    report.push(Line::out().text("PoS parameters"));
    report.push(Line::out().text("    Block proposer reward: ").rate(p.block_proposer_reward));
    report.push(Line::out().text("    Block vote reward: ").rate(p.block_vote_reward));
    report.push(
        Line::out().text("    Duplicate vote minimum slash rate: ").rate(
            p.duplicate_vote_min_slash_rate,
        ),
    );
    report.push(
        Line::out().text("    Light client attack minimum slash rate: ").rate(
            p.light_client_attack_min_slash_rate,
        ),
    );
    report.push(Line::out().text("    Max. validator slots: ").number(p.max_validator_slots));
    report.push(Line::out().text("    Pipeline length: ").number(p.pipeline_len));
    report.push(Line::out().text("    Unbonding length: ").number(p.unbonding_len));
    report.push(Line::out().text("    Votes per token: ").rate(p.tm_votes_per_token));
    assert(report@ =~= parameters_report(*p));
    report
}

/// Nothing that is shown of the parameters is lost: parameters with the same report are the
/// same in everything.
pub proof fn lemma_reports_tell_parameters_apart(p: ProtocolParameters, q: ProtocolParameters)
    requires
        parameters_report(p) == parameters_report(q),
    ensures
        p.governance@ == q.governance@,
        p.min_duration@ == q.min_duration@,
        p.min_num_of_blocks == q.min_num_of_blocks,
        p.max_block_duration == q.max_block_duration,
        texts(p.vp_whitelist@) == texts(q.vp_whitelist@),
        texts(p.tx_whitelist@) == texts(q.tx_whitelist@),
        p.block_proposer_reward == q.block_proposer_reward,
        p.block_vote_reward == q.block_vote_reward,
        p.duplicate_vote_min_slash_rate == q.duplicate_vote_min_slash_rate,
        p.light_client_attack_min_slash_rate == q.light_client_attack_min_slash_rate,
        p.max_validator_slots == q.max_validator_slots,
        p.pipeline_len == q.pipeline_len,
        p.unbonding_len == q.unbonding_len,
        p.tm_votes_per_token == q.tm_votes_per_token,
{
    let a = parameters_report(p);
    let b = parameters_report(q);
    assert(a[0].pieces[1] == b[0].pieces[1]);
    assert(a[2].pieces[1] == b[2].pieces[1]);
    assert(a[3].pieces[1] == b[3].pieces[1]);
    assert(a[4].pieces[1] == b[4].pieces[1]);
    assert(a[5].pieces[1] == b[5].pieces[1]);
    assert(a[6].pieces[1] == b[6].pieces[1]);
    assert(a[8].pieces[1] == b[8].pieces[1]);
    assert(a[9].pieces[1] == b[9].pieces[1]);
    assert(a[10].pieces[1] == b[10].pieces[1]);
    assert(a[11].pieces[1] == b[11].pieces[1]);
    assert(a[12].pieces[1] == b[12].pieces[1]);
    assert(a[13].pieces[1] == b[13].pieces[1]);
    assert(a[14].pieces[1] == b[14].pieces[1]);
    assert(a[15].pieces[1] == b[15].pieces[1]);
}

/// The report of the parameters shows them in a fixed order, each behind its name.
pub proof fn lemma_report_of_parameters(p: ProtocolParameters)
    ensures
        parameters_report(p) == seq![
            named("Governance Parameters\n "@, PieceView::Text(p.governance@)),
            printed(seq![PieceView::Text("Protocol parameters"@)]),
            named("    Min. epoch duration: "@, PieceView::Text(p.min_duration@)),
            named("    Min. number of blocks: "@, PieceView::Number(p.min_num_of_blocks)),
            named("    Max. block duration: "@, PieceView::Number(p.max_block_duration)),
            named("    VP whitelist: "@, PieceView::List(texts(p.vp_whitelist@))),
            named("    Transactions whitelist: "@, PieceView::List(texts(p.tx_whitelist@))),
            printed(seq![PieceView::Text("PoS parameters"@)]),
            named("    Block proposer reward: "@, PieceView::Rate(p.block_proposer_reward)),
            named("    Block vote reward: "@, PieceView::Rate(p.block_vote_reward)),
            named(
                "    Duplicate vote minimum slash rate: "@,
                PieceView::Rate(p.duplicate_vote_min_slash_rate),
            ),
            named(
                "    Light client attack minimum slash rate: "@,
                PieceView::Rate(p.light_client_attack_min_slash_rate),
            ),
            named("    Max. validator slots: "@, PieceView::Number(p.max_validator_slots)),
            named("    Pipeline length: "@, PieceView::Number(p.pipeline_len)),
            named("    Unbonding length: "@, PieceView::Number(p.unbonding_len)),
            named("    Votes per token: "@, PieceView::Rate(p.tm_votes_per_token)),
        ],
{
    assert forall|name: Seq<char>, piece: PieceView| #[trigger] named(name, piece) == out().text(
        name,
    ).piece(piece) by {
        assert(named(name, piece) =~= out().text(name).piece(piece));
    }
    assert(out().text("Protocol parameters"@) =~= printed(
        seq![PieceView::Text("Protocol parameters"@)],
    ));
    assert(out().text("PoS parameters"@) =~= printed(seq![PieceView::Text("PoS parameters"@)]));
}

/// The line of a value behind its name.
pub open spec fn named(name: Seq<char>, piece: PieceView) -> LineView {
    printed(seq![PieceView::Text(name), piece])
}

} // verus!
