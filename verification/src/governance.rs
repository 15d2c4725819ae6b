//! Proposals and their results.

use vstd::prelude::*;

use crate::report::{complained, error, out, printed, Line, LineView, PieceView, Report};

verus! {

/// A proposal to be shown.
#[derive(Clone, Copy, Debug, PartialEq, Eq, Structural)]
pub struct ProposalQuery {
    pub id: u64,
    pub current_epoch: u64,
    /// Whether the content and the votes are shown too.
    pub details: bool,
}

/// Which proposals are to be shown.
#[derive(Clone, Copy, Debug, PartialEq, Eq, Structural)]
pub enum ProposalSelection {
    /// One proposal.
    One(u64),
    /// All proposals whose identifiers are below the ledger's counter.
    Below(u64),
}

/// The proposal to show after the one with the identifier `previous`, or first where there
/// is none. One proposal is shown with its details, several without.
pub open spec fn next_proposal(
    selection: ProposalSelection,
    current_epoch: u64,
    previous: Option<u64>,
) -> Option<ProposalQuery> {
    match (selection, previous) {
        (ProposalSelection::One(id), None) => Some(
            ProposalQuery { id, current_epoch, details: true },
        ),
        (ProposalSelection::One(_), Some(_)) => None,
        (ProposalSelection::Below(count), None) => if count > 0 {
            Some(ProposalQuery { id: 0, current_epoch, details: false })
        } else {
            None
        },
        (ProposalSelection::Below(count), Some(previous)) => if previous + 1 < count {
            Some(ProposalQuery { id: (previous + 1) as u64, current_epoch, details: false })
        } else {
            None
        },
    }
}

/// The identifier of the proposal that is shown after `steps` others.
pub open spec fn shown_after(
    selection: ProposalSelection,
    current_epoch: u64,
    steps: nat,
) -> Option<u64>
    decreases steps,
{
    if steps == 0 {
        match next_proposal(selection, current_epoch, None) {
            Some(query) => Some(query.id),
            None => None,
        }
    } else {
        match shown_after(selection, current_epoch, (steps - 1) as nat) {
            Some(previous) => match next_proposal(selection, current_epoch, Some(previous)) {
                Some(query) => Some(query.id),
                None => None,
            },
            None => None,
        }
    }
}

/// All proposals below the ledger's counter are shown, each once and in order, and no other.
pub proof fn lemma_all_proposals_are_shown(count: u64, current_epoch: u64, steps: nat)
    ensures
        shown_after(ProposalSelection::Below(count), current_epoch, steps) == if steps < count {
            Some(steps as u64)
        } else {
            None
        },
    decreases steps,
{
    if steps > 0 {
        lemma_all_proposals_are_shown(count, current_epoch, (steps - 1) as nat);
    }
}

/// Query proposals: the proposal to show next, after the one with the identifier
/// `previous`. One proposal is shown with its details, several without.
pub fn query_proposal(
    selection: ProposalSelection,
    current_epoch: u64,
    previous: Option<u64>,
) -> (next: Option<ProposalQuery>)
    ensures
        next == next_proposal(selection, current_epoch, previous),
{
    match selection {
        ProposalSelection::One(id) => if previous.is_none() {
            Some(ProposalQuery { id, current_epoch, details: true })
        } else {
            None
        },
        ProposalSelection::Below(count) => {
            let id: u64 = match previous {
                Some(previous) => if previous < count {
                    previous + 1
                } else {
                    return None;
                },
                None => 0,
            };
            if id < count {
                Some(ProposalQuery { id, current_epoch, details: false })
            } else {
                None
            }
        },
    }
}

/// What is shown of a proposal with details only.
#[derive(Debug, PartialEq, Eq)]
pub struct ProposalDetails {
    /// The entries of the proposal's content.
    pub content: Vec<(String, String)>,
    pub grace_epoch: u64,
}

/// A proposal as the ledger holds it.
#[derive(Debug, PartialEq, Eq)]
pub struct Proposal {
    pub author: String,
    pub start_epoch: u64,
    pub end_epoch: u64,
    pub details: Option<ProposalDetails>,
}

/// The result of a tally.
#[derive(Debug, PartialEq, Eq)]
pub struct ProposalResult {
    pub total_yay_power: u128,
    pub total_nay_power: u128,
    /// The whole result, as it is shown.
    pub shown: String,
}

/// How far the voting on a proposal is.
#[derive(Clone, Copy, Debug, PartialEq, Eq, Structural)]
pub enum ProposalStatus {
    Pending,
    OnGoing,
    Done,
}

/// The status of a proposal: on-going from its first to its last epoch.
pub open spec fn status(start_epoch: u64, end_epoch: u64, current_epoch: u64) -> ProposalStatus {
    if current_epoch < start_epoch {
        ProposalStatus::Pending
    } else if current_epoch <= end_epoch {
        ProposalStatus::OnGoing
    } else {
        ProposalStatus::Done
    }
}

/// The status of a proposal.
pub fn proposal_status(start_epoch: u64, end_epoch: u64, current_epoch: u64) -> (result:
    ProposalStatus)
    ensures
        result == status(start_epoch, end_epoch, current_epoch),
{
    if start_epoch > current_epoch {
        ProposalStatus::Pending
    } else if start_epoch <= current_epoch && current_epoch <= end_epoch {
        ProposalStatus::OnGoing
    } else {
        ProposalStatus::Done
    }
}

/// How far a proposal has been looked up, and what to ask the ledger for next.
#[derive(Debug, PartialEq, Eq)]
pub enum ProposalState {
    /// Its author.
    Author,
    /// The epoch in which the voting starts.
    StartEpoch { author: String },
    /// The epoch in which the voting ends.
    EndEpoch { author: String, start_epoch: u64 },
    /// Its content.
    Content { author: String, start_epoch: u64, end_epoch: u64 },
    /// Its grace epoch.
    GraceEpoch {
        author: String,
        start_epoch: u64,
        end_epoch: u64,
        content: Vec<(String, String)>,
    },
    /// The tally of its votes in the epoch in which the voting starts.
    Tally { proposal: Proposal },
    /// Nothing: it is known.
    Complete { proposal: Proposal, result: Option<ProposalResult> },
    /// Nothing: the ledger does not hold it.
    Missing,
}

/// The ledger's reply to what a [`ProposalState`] asks for.
#[derive(Debug, PartialEq, Eq)]
pub enum ProposalReply {
    Author(Option<String>),
    Epoch(Option<u64>),
    Content(Option<Vec<(String, String)>>),
    Tally(ProposalResult),
}

/// Whether a reply is one to what the state asks for.
pub open spec fn answers(state: ProposalState, reply: ProposalReply) -> bool {
    match state {
        ProposalState::Author => reply is Author,
        ProposalState::StartEpoch { .. } => reply is Epoch,
        ProposalState::EndEpoch { .. } => reply is Epoch,
        ProposalState::Content { .. } => reply is Content,
        ProposalState::GraceEpoch { .. } => reply is Epoch,
        ProposalState::Tally { .. } => reply is Tally,
        ProposalState::Complete { .. } => false,
        ProposalState::Missing => false,
    }
}

/// The state behind a reply. A proposal of which anything is missing is missing; votes are
/// tallied only once the voting has started, and only for the details.
pub open spec fn next_state(
    query: ProposalQuery,
    state: ProposalState,
    reply: ProposalReply,
) -> ProposalState {
    match (state, reply) {
        (ProposalState::Author, ProposalReply::Author(Some(author))) => {
            ProposalState::StartEpoch { author }
        },
        (
            ProposalState::StartEpoch { author },
            ProposalReply::Epoch(Some(start_epoch)),
        ) => ProposalState::EndEpoch { author, start_epoch },
        (
            ProposalState::EndEpoch { author, start_epoch },
            ProposalReply::Epoch(Some(end_epoch)),
        ) => if query.details {
            ProposalState::Content { author, start_epoch, end_epoch }
        } else {
            ProposalState::Complete {
                proposal: Proposal { author, start_epoch, end_epoch, details: None },
                result: None,
            }
        },
        (
            ProposalState::Content { author, start_epoch, end_epoch },
            ProposalReply::Content(Some(content)),
        ) => ProposalState::GraceEpoch { author, start_epoch, end_epoch, content },
        (
            ProposalState::GraceEpoch { author, start_epoch, end_epoch, content },
            ProposalReply::Epoch(Some(grace_epoch)),
        ) => {
            let proposal = Proposal {
                author,
                start_epoch,
                end_epoch,
                details: Some(ProposalDetails { content, grace_epoch }),
            };
            if status(start_epoch, end_epoch, query.current_epoch) is Pending {
                ProposalState::Complete { proposal, result: None }
            } else {
                ProposalState::Tally { proposal }
            }
        },
        (ProposalState::Tally { proposal }, ProposalReply::Tally(result)) => {
            ProposalState::Complete { proposal, result: Some(result) }
        },
        _ => ProposalState::Missing,
    }
}

/// Whether what is known of a proposal is what the query needs: details exactly where they
/// are shown, and a result exactly where votes were tallied for them.
pub open spec fn suffices(
    query: ProposalQuery,
    proposal: Proposal,
    result: Option<ProposalResult>,
) -> bool {
    &&& proposal.details is Some == query.details
    &&& result is Some == (query.details && !(status(
        proposal.start_epoch,
        proposal.end_epoch,
        query.current_epoch,
    ) is Pending))
}

/// Whether a state is one that a lookup for the query can be in.
pub open spec fn is_state_of(query: ProposalQuery, state: ProposalState) -> bool {
    match state {
        ProposalState::Content { .. } => query.details,
        ProposalState::GraceEpoch { .. } => query.details,
        ProposalState::Tally { proposal } => {
            &&& query.details
            &&& proposal.details is Some
            &&& !(status(
                proposal.start_epoch,
                proposal.end_epoch,
                query.current_epoch,
            ) is Pending)
        },
        ProposalState::Complete { proposal, result } => suffices(query, proposal, result),
        _ => true,
    }
}

/// How many replies a lookup in a state still waits for at most.
pub open spec fn replies_left(state: ProposalState) -> nat {
    match state {
        ProposalState::Author => 6,
        ProposalState::StartEpoch { .. } => 5,
        ProposalState::EndEpoch { .. } => 4,
        ProposalState::Content { .. } => 3,
        ProposalState::GraceEpoch { .. } => 2,
        ProposalState::Tally { .. } => 1,
        ProposalState::Complete { .. } => 0,
        ProposalState::Missing => 0,
    }
}

/// Every lookup ends: each reply brings it closer to a state that asks for nothing, and
/// what it then knows is what the query needs.
pub proof fn lemma_lookup_ends(query: ProposalQuery, state: ProposalState, reply: ProposalReply)
    requires
        is_state_of(query, state),
        answers(state, reply),
    ensures
        is_state_of(query, next_state(query, state, reply)),
        replies_left(next_state(query, state, reply)) < replies_left(state),
{
}

/// The state behind a reply.
pub fn advance(query: ProposalQuery, state: ProposalState, reply: ProposalReply) -> (next:
    ProposalState)
    requires
        is_state_of(query, state),
        answers(state, reply),
    ensures
        next == next_state(query, state, reply),
        is_state_of(query, next),
{
    match (state, reply) {
        (ProposalState::Author, ProposalReply::Author(Some(author))) => {
            ProposalState::StartEpoch { author }
        },
        (
            ProposalState::StartEpoch { author },
            ProposalReply::Epoch(Some(start_epoch)),
        ) => ProposalState::EndEpoch { author, start_epoch },
        (
            ProposalState::EndEpoch { author, start_epoch },
            ProposalReply::Epoch(Some(end_epoch)),
        ) => if query.details {
            ProposalState::Content { author, start_epoch, end_epoch }
        } else {
            ProposalState::Complete {
                proposal: Proposal { author, start_epoch, end_epoch, details: None },
                result: None,
            }
        },
        (
            ProposalState::Content { author, start_epoch, end_epoch },
            ProposalReply::Content(Some(content)),
        ) => ProposalState::GraceEpoch { author, start_epoch, end_epoch, content },
        (
            ProposalState::GraceEpoch { author, start_epoch, end_epoch, content },
            ProposalReply::Epoch(Some(grace_epoch)),
        ) => {
            let proposal = Proposal {
                author,
                start_epoch,
                end_epoch,
                details: Some(ProposalDetails { content, grace_epoch }),
            };
            match proposal_status(start_epoch, end_epoch, query.current_epoch) {
                ProposalStatus::Pending => ProposalState::Complete { proposal, result: None },
                _ => ProposalState::Tally { proposal },
            }
        },
        (ProposalState::Tally { proposal }, ProposalReply::Tally(result)) => {
            ProposalState::Complete { proposal, result: Some(result) }
        },
        _ => ProposalState::Missing,
    }
}

/// What the ledger replies whenever it is asked for something of a proposal.
pub struct ProposalRecord {
    pub author: Option<String>,
    pub start_epoch: Option<u64>,
    pub end_epoch: Option<u64>,
    pub content: Option<Vec<(String, String)>>,
    pub grace_epoch: Option<u64>,
    pub tally: ProposalResult,
}

/// The reply to what a state asks for.
pub open spec fn reply_of(record: ProposalRecord, state: ProposalState) -> ProposalReply {
    match state {
        ProposalState::Author => ProposalReply::Author(record.author),
        ProposalState::StartEpoch { .. } => ProposalReply::Epoch(record.start_epoch),
        ProposalState::EndEpoch { .. } => ProposalReply::Epoch(record.end_epoch),
        ProposalState::Content { .. } => ProposalReply::Content(record.content),
        ProposalState::GraceEpoch { .. } => ProposalReply::Epoch(record.grace_epoch),
        _ => ProposalReply::Tally(record.tally),
    }
}

/// Whether a lookup in a state asks for nothing more.
pub open spec fn is_over(state: ProposalState) -> bool {
    state is Complete || state is Missing
}

/// Where a lookup in a state ends.
pub open spec fn end_state(
    query: ProposalQuery,
    record: ProposalRecord,
    state: ProposalState,
) -> ProposalState
    decreases replies_left(state),
{
    if is_over(state) {
        state
    } else {
        end_state(query, record, next_state(query, state, reply_of(record, state)))
    }
}

/// Whether the ledger lacks anything that a query shows of a proposal: its author or one of
/// the epochs of the voting, or, with details, its content or its grace epoch.
pub open spec fn lacks_anything(query: ProposalQuery, record: ProposalRecord) -> bool {
    ||| record.author is None
    ||| record.start_epoch is None
    ||| record.end_epoch is None
    ||| query.details && (record.content is None || record.grace_epoch is None)
}

/// A whole lookup finds a proposal missing exactly where the ledger lacks anything that the
/// query shows. Otherwise it finds what the ledger holds, with the details where they are
/// shown, and with the tally where they are and the voting has started.
pub proof fn lemma_whole_lookup(query: ProposalQuery, record: ProposalRecord)
    ensures
        end_state(query, record, ProposalState::Author) == if lacks_anything(query, record) {
            ProposalState::Missing
        } else {
            ProposalState::Complete {
                proposal: Proposal {
                    author: record.author->0,
                    start_epoch: record.start_epoch->0,
                    end_epoch: record.end_epoch->0,
                    details: if query.details {
                        Some(
                            ProposalDetails {
                                content: record.content->0,
                                grace_epoch: record.grace_epoch->0,
                            },
                        )
                    } else {
                        None
                    },
                },
                result: if query.details && !(status(
                    record.start_epoch->0,
                    record.end_epoch->0,
                    query.current_epoch,
                ) is Pending) {
                    Some(record.tally)
                } else {
                    None
                },
            }
        },
{
    reveal_with_fuel(end_state, 8);
}

/// The state behind several replies, from the first state on.
pub open spec fn state_behind(query: ProposalQuery, replies: Seq<ProposalReply>) -> ProposalState
    decreases replies.len(),
{
    if replies.len() == 0 {
        ProposalState::Author
    } else {
        next_state(query, state_behind(query, replies.drop_last()), replies.last())
    }
}

/// Whether each of several replies is one to what the state before it asks for.
pub open spec fn in_turn(query: ProposalQuery, replies: Seq<ProposalReply>) -> bool
    decreases replies.len(),
{
    replies.len() > 0 ==> in_turn(query, replies.drop_last()) && answers(
        state_behind(query, replies.drop_last()),
        replies.last(),
    )
}

/// Whether the ledger holds nothing of what it was asked for.
pub open spec fn holds_nothing(reply: ProposalReply) -> bool {
    match reply {
        ProposalReply::Author(author) => author is None,
        ProposalReply::Epoch(epoch) => epoch is None,
        ProposalReply::Content(content) => content is None,
        ProposalReply::Tally(_) => false,
    }
}

/// Replies in turn leave a proposal missing exactly where one of them holds nothing.
pub proof fn lemma_missing_exactly_where_nothing_is_held(
    query: ProposalQuery,
    replies: Seq<ProposalReply>,
)
    requires
        in_turn(query, replies),
    ensures
        state_behind(query, replies) is Missing <==> exists|i: int|
            0 <= i < replies.len() && holds_nothing(#[trigger] replies[i]),
    decreases replies.len(),
{
    if replies.len() > 0 {
        let rest = replies.drop_last();
        lemma_missing_exactly_where_nothing_is_held(query, rest);
        assert forall|i: int| 0 <= i < rest.len() implies !holds_nothing(
            #[trigger] replies[i],
        ) by {
            assert(rest[i] == replies[i]);
        }
        if holds_nothing(replies.last()) {
            assert(holds_nothing(replies[replies.len() - 1]));
        }
    }
}

/// The lines of a proposal's content.
pub open spec fn content_lines(content: Seq<(String, String)>) -> Seq<LineView> {
    content.map_values(
        |entry: (String, String)|
            out().text("        "@).text(entry.0@).text(": "@).text(entry.1@),
    )
}

/// The lines that tell how far the voting on a proposal is, with the votes where there is
/// a result.
pub open spec fn status_lines(
    status: ProposalStatus,
    result: Option<ProposalResult>,
) -> Seq<LineView> {
    match (status, result) {
        (ProposalStatus::Pending, _) => seq![out().text("    Status: pending"@)],
        (ProposalStatus::OnGoing, Some(result)) => seq![
            out().text("    Yay votes: "@).power(result.total_yay_power),
            out().text("    Nay votes: "@).power(result.total_nay_power),
            out().text("    Status: on-going"@),
        ],
        (ProposalStatus::OnGoing, None) => seq![out().text("    Status: on-going"@)],
        (ProposalStatus::Done, Some(result)) => seq![
            out().text("    Status: done"@),
            out().text("    Result: "@).text(result.shown@),
        ],
        (ProposalStatus::Done, None) => seq![out().text("    Status: done"@)],
    }
}

/// The report of a proposal.
pub open spec fn proposal_report(
    query: ProposalQuery,
    proposal: Proposal,
    result: Option<ProposalResult>,
) -> Seq<LineView> {
    let epochs = seq![
        out().text("    Start Epoch: "@).number(proposal.start_epoch),
        out().text("    End Epoch: "@).number(proposal.end_epoch),
    ];
    seq![
        out().text("Proposal: "@).number(query.id),
        out().text("    Author: "@).text(proposal.author@),
    ] + match proposal.details {
        Some(details) => seq![out().text("    Content:"@)] + content_lines(details.content@)
            + epochs + seq![out().text("    Grace Epoch: "@).number(details.grace_epoch)],
        None => epochs,
    } + status_lines(
        status(proposal.start_epoch, proposal.end_epoch, query.current_epoch),
        result,
    )
}

/// The report of a lookup that asks for nothing more.
pub open spec fn lookup_report(query: ProposalQuery, state: ProposalState) -> Seq<LineView> {
    match state {
        ProposalState::Complete { proposal, result } => proposal_report(query, proposal, result),
        _ => seq![error().text("No valid proposal was found with id "@).number(query.id)],
    }
}

/// Adds the lines of a proposal's content.
fn push_content(report: &mut Report, content: &Vec<(String, String)>)
    ensures
        final(report)@ == old(report)@ + content_lines(content@),
{
    let mut i: usize = 0;
    assert(report@ =~= old(report)@ + content_lines(content@).take(0));
    while i < content.len()
        invariant
            i <= content.len(),
            report@ == old(report)@ + content_lines(content@).take(i as int),
        decreases content.len() - i,
    {
        report.push(
            Line::out().text("        ").text(content[i].0.as_str()).text(": ").text(
                content[i].1.as_str(),
            ),
        );
        assert(report@ =~= old(report)@ + content_lines(content@).take(i + 1));
        i = i + 1;
    }
    assert(content_lines(content@).take(i as int) =~= content_lines(content@));
}

/// The lines that tell how far the voting on a proposal is.
fn status_report(status: ProposalStatus, result: &Option<ProposalResult>) -> (report: Report)
    ensures
        report@ == status_lines(status, *result),
{
    let mut report = Report::new();
    match status {
        ProposalStatus::Pending => {
            report.push(Line::out().text("    Status: pending"));
        },
        ProposalStatus::OnGoing => {
            if let Some(result) = result {
                report.push(Line::out().text("    Yay votes: ").power(result.total_yay_power));
                report.push(Line::out().text("    Nay votes: ").power(result.total_nay_power));
            }
            report.push(Line::out().text("    Status: on-going"));
        },
        ProposalStatus::Done => {
            report.push(Line::out().text("    Status: done"));
            if let Some(result) = result {
                report.push(Line::out().text("    Result: ").text(result.shown.as_str()));
            }
        },
    }
    assert(report@ =~= status_lines(status, *result));
    report
}

/// Print a proposal: the report of a lookup that asks for nothing more.
pub fn print_proposal(query: ProposalQuery, state: &ProposalState) -> (report: Report)
    requires
        is_state_of(query, *state),
        state is Complete || state is Missing,
    ensures
        report@ == lookup_report(query, *state),
{
    match state {
        ProposalState::Complete { proposal, result } => {
            let mut report = Report::new();
            report.push(Line::out().text("Proposal: ").number(query.id));
            report.push(Line::out().text("    Author: ").text(proposal.author.as_str()));
            if let Some(details) = &proposal.details {
                report.push(Line::out().text("    Content:"));
                push_content(&mut report, &details.content);
            }
            report.push(Line::out().text("    Start Epoch: ").number(proposal.start_epoch));
            report.push(Line::out().text("    End Epoch: ").number(proposal.end_epoch));
            if let Some(details) = &proposal.details {
                report.push(Line::out().text("    Grace Epoch: ").number(details.grace_epoch));
            }
            report.append(
                status_report(
                    proposal_status(
                        proposal.start_epoch,
                        proposal.end_epoch,
                        query.current_epoch,
                    ),
                    result,
                ),
            );
            assert(report@ =~= proposal_report(query, *proposal, *result));
            report
        },
        _ => Report::of(
            Line::error().text("No valid proposal was found with id ").number(query.id),
        ),
    }
}

/// Where the result of a proposal is found.
#[derive(Debug)]
pub enum ResultRequest {
    /// On the ledger, by the proposal's identifier.
    OnChain { id: u64 },
    /// In a folder.
    Offline { folder: String },
    /// Nowhere: the client reports why and fails.
    Failed(Report),
}

/// The mathematical content of a [`ResultRequest`].
pub enum ResultRequestView {
    OnChain { id: u64 },
    Offline { folder: Seq<char> },
    Failed(Seq<LineView>),
}

impl View for ResultRequest {
    type V = ResultRequestView;

    open spec fn view(&self) -> ResultRequestView {
        match self {
            ResultRequest::OnChain { id } => ResultRequestView::OnChain { id: *id },
            ResultRequest::Offline { folder } => ResultRequestView::Offline { folder: folder@ },
            ResultRequest::Failed(report) => ResultRequestView::Failed(report@),
        }
    }
}

/// Where the result of a proposal is found.
pub open spec fn result_request(
    proposal_id: Option<u64>,
    offline: bool,
    folder: Option<Seq<char>>,
) -> ResultRequestView {
    match (proposal_id, offline, folder) {
        (Some(id), _, _) => ResultRequestView::OnChain { id },
        (None, true, Some(folder)) => ResultRequestView::Offline { folder },
        (None, true, None) => ResultRequestView::Failed(
            seq![error().text("Offline flag must be followed by data-path."@)],
        ),
        (None, false, _) => ResultRequestView::Failed(
            seq![
                error().text(
                    "Either --proposal-id or --data-path should be provided as arguments."@,
                ),
            ],
        ),
    }
}

/// Query a proposal's result: where it is found, given the arguments.
pub fn query_proposal_result(
    proposal_id: Option<u64>,
    offline: bool,
    proposal_folder: Option<String>,
) -> (request: ResultRequest)
    ensures
        request@ == result_request(
            proposal_id,
            offline,
            match proposal_folder {
                Some(folder) => Some(folder@),
                None => None,
            },
        ),
        request matches ResultRequest::Offline { folder } ==> proposal_folder == Some(folder),
{
    match proposal_id {
        Some(id) => ResultRequest::OnChain { id },
        None => if offline {
            match proposal_folder {
                Some(folder) => ResultRequest::Offline { folder },
                None => ResultRequest::Failed(
                    Report::of(
                        Line::error().text("Offline flag must be followed by data-path."),
                    ),
                ),
            }
        } else {
            ResultRequest::Failed(
                Report::of(
                    Line::error().text(
                        "Either --proposal-id or --data-path should be provided as arguments.",
                    ),
                ),
            )
        },
    }
}

/// The epoch in which the votes on a proposal are tallied, or the line that tells why there is
/// none.
pub open spec fn epoch_of_tally(current_epoch: u64, end_epoch: Option<u64>) -> Result<
    u64,
    LineView,
> {
    match end_epoch {
        Some(end_epoch) => if current_epoch > end_epoch {
            Ok(end_epoch)
        } else {
            Err(error().text("Proposal is still in progress."@))
        },
        None => Err(error().text("Error while retriving proposal."@)),
    }
}

/// The epoch in which the votes on a proposal are tallied: its last, once that is past.
/// Otherwise the client reports why there is no result and fails.
pub fn tally_epoch(current_epoch: u64, end_epoch: Option<u64>) -> (result: Result<u64, Report>)
    ensures
        match epoch_of_tally(current_epoch, end_epoch) {
            Ok(epoch) => result == Ok::<u64, Report>(epoch),
            Err(line) => result matches Err(report) && report@ == seq![line],
        },
{
    match end_epoch {
        Some(end_epoch) => if current_epoch > end_epoch {
            Ok(end_epoch)
        } else {
            Err(Report::of(Line::error().text("Proposal is still in progress.")))
        },
        None => Err(Report::of(Line::error().text("Error while retriving proposal."))),
    }
}

/// The lines of a proposal's result, with the proposal's identifier where it is on the ledger.
pub open spec fn result_lines(id: Option<u64>, shown: Seq<char>) -> Seq<LineView> {
    (match id {
        Some(id) => seq![out().text("Proposal: "@).number(id)],
        None => seq![],
    }).push(out().text("    Result: "@).text(shown))
}

/// The report of a proposal's result, with the proposal's identifier where it is on the
/// ledger.
pub fn result_report(id: Option<u64>, shown: &String) -> (report: Report)
    ensures
        report@ == result_lines(id, shown@),
{
    let mut report = Report::new();
    if let Some(id) = id {
        report.push(Line::out().text("Proposal: ").number(id));
    }
    report.push(Line::out().text("    Result: ").text(shown.as_str()));
    report
}

/// An entry of the folder of an offline proposal.
#[derive(Debug, PartialEq, Eq)]
pub enum FolderEntry {
    Entry { name: String, is_file: bool },
    /// Its type could not be read, for the reason given.
    Untyped { reason: String },
    /// It could not be read, for the reason given.
    Unread { reason: String },
}

/// Whether an entry is the proposal.
pub open spec fn is_proposal(entry: FolderEntry) -> bool {
    entry matches FolderEntry::Entry { name, is_file } && is_file && name@ == "proposal"@
}

/// Whether an entry is a vote.
pub open spec fn is_vote(entry: FolderEntry) -> bool {
    &&& entry matches FolderEntry::Entry { name, is_file }
    &&& is_file
    &&& name@ != "proposal"@
    &&& "proposal-vote-"@.is_prefix_of(name@)
}

/// The line that tells why an entry could not be read.
pub open spec fn entry_failure(entry: FolderEntry) -> Option<LineView> {
    match entry {
        FolderEntry::Entry { .. } => None,
        FolderEntry::Untyped { reason } => Some(
            error().text("Can't read entry type: "@).text(reason@).text("."@),
        ),
        FolderEntry::Unread { reason } => Some(
            error().text("Can't read entry: "@).text(reason@).text("."@),
        ),
    }
}

/// The line that tells why the first entry that could not be read was not.
pub open spec fn first_failure(entries: Seq<FolderEntry>) -> Option<LineView>
    decreases entries.len(),
{
    if entries.len() == 0 {
        None
    } else {
        match first_failure(entries.drop_last()) {
            Some(line) => Some(line),
            None => entry_failure(entries.last()),
        }
    }
}

/// The places of the votes among the entries.
pub open spec fn vote_places(entries: Seq<FolderEntry>) -> Seq<usize>
    decreases entries.len(),
{
    if entries.len() == 0 {
        seq![]
    } else {
        let places = vote_places(entries.drop_last());
        if is_vote(entries.last()) {
            places.push((entries.len() - 1) as usize)
        } else {
            places
        }
    }
}

/// Whether the proposal is among the entries.
pub open spec fn has_proposal(entries: Seq<FolderEntry>) -> bool {
    exists|i: int| 0 <= i < entries.len() && is_proposal(#[trigger] entries[i])
}

/// Whether a text starts with another.
fn starts_with(s: &str, prefix: &str) -> (yes: bool)
    ensures
        yes == prefix@.is_prefix_of(s@),
{
    let len: usize = prefix.unicode_len();
    if s.unicode_len() < len {
        return false;
    }
    let mut i: usize = 0;
    while i < len
        invariant
            i <= len,
            len == prefix@.len(),
            len <= s@.len(),
            forall|j: int| 0 <= j < i ==> s@[j] == prefix@[j],
        decreases len - i,
    {
        if s.get_char(i) != prefix.get_char(i) {
            return false;
        }
        i = i + 1;
    }
    assert(s@.subrange(0, prefix@.len() as int) =~= prefix@);
    true
}

/// A failure does not go away when more entries are read.
proof fn lemma_failure_stays(entries: Seq<FolderEntry>, count: int)
    requires
        0 <= count <= entries.len(),
        first_failure(entries.take(count)) is Some,
    ensures
        first_failure(entries) == first_failure(entries.take(count)),
    decreases entries.len(),
{
    if count == entries.len() {
        assert(entries.take(count) =~= entries);
    } else {
        assert(entries.drop_last().take(count) =~= entries.take(count));
        lemma_failure_stays(entries.drop_last(), count);
    }
}

/// The places of the votes in a folder, or the line that tells why it cannot be used.
pub open spec fn folder_scan(entries: Seq<FolderEntry>) -> Result<Seq<usize>, LineView> {
    match first_failure(entries) {
        Some(line) => Err(line),
        None => if has_proposal(entries) {
            Ok(vote_places(entries))
        } else {
            Err(
                error().text(
                    "The folder must contain the offline proposal in a file named \"proposal\""@,
                ),
            )
        },
    }
}

/// Looks through the folder of an offline proposal for the votes: their places among the
/// entries. Where an entry could not be read, or the proposal is not there, the client
/// reports that and fails. Other files than the proposal and the votes do not matter.
pub fn scan_folder(entries: &Vec<FolderEntry>) -> (result: Result<Vec<usize>, Report>)
    ensures
        match folder_scan(entries@) {
            Ok(places) => result matches Ok(found) && found@ == places,
            Err(line) => result matches Err(report) && report@ == seq![line],
        },
{
    let mut places: Vec<usize> = Vec::new();
    let mut is_proposal_present = false;
    let mut i: usize = 0;
    while i < entries.len()
        invariant
            i <= entries.len(),
            first_failure(entries@.take(i as int)) is None,
            places@ == vote_places(entries@.take(i as int)),
            is_proposal_present == has_proposal(entries@.take(i as int)),
        decreases entries.len() - i,
    {
        proof {
            assert(entries@.take(i + 1).drop_last() =~= entries@.take(i as int));
            if first_failure(entries@.take(i + 1)) is Some {
                lemma_failure_stays(entries@, i + 1);
            }
            assert forall|j: int| 0 <= j < i implies entries@.take(i as int)[j] == entries@.take(
                i + 1,
            )[j] by {}
            assert(entries@.take(i + 1)[i as int] == entries@[i as int]);
            if has_proposal(entries@.take(i as int)) {
                let j = choose|j: int|
                    0 <= j < i && is_proposal(#[trigger] entries@.take(i as int)[j]);
                assert(is_proposal(entries@.take(i + 1)[j]));
            }
            if is_proposal(entries@[i as int]) {
                assert(is_proposal(entries@.take(i + 1)[i as int]));
            }
            if has_proposal(entries@.take(i + 1)) {
                let j = choose|j: int|
                    0 <= j < i + 1 && is_proposal(#[trigger] entries@.take(i + 1)[j]);
                if j < i {
                    assert(is_proposal(entries@.take(i as int)[j]));
                }
            }
        }
        match &entries[i] {
            FolderEntry::Entry { name, is_file } => {
                if *is_file {
                    if *name == "proposal".to_owned() {
                        is_proposal_present = true;
                    } else if starts_with(name.as_str(), "proposal-vote-") {
                        places.push(i);
                    }
                }
            },
            FolderEntry::Untyped { reason } => {
                return Err(
                    Report::of(
                        Line::error().text("Can't read entry type: ").text(reason.as_str()).text(
                            ".",
                        ),
                    ),
                );
            },
            FolderEntry::Unread { reason } => {
                return Err(
                    Report::of(
                        Line::error().text("Can't read entry: ").text(reason.as_str()).text("."),
                    ),
                );
            },
        }
        i = i + 1;
    }
    assert(entries@.take(i as int) =~= entries@);
    if is_proposal_present {
        Ok(places)
    } else {
        Err(
            Report::of(
                Line::error().text(
                    "The folder must contain the offline proposal in a file named \"proposal\"",
                ),
            ),
        )
    }
}

/// The places of the votes are those of the entries that are votes, in ascending order.
pub proof fn lemma_vote_places(entries: Seq<FolderEntry>)
    requires
        entries.len() <= usize::MAX,
    ensures
        forall|i: int|
            0 <= i < entries.len() ==> (is_vote(#[trigger] entries[i]) <==> vote_places(
                entries,
            ).contains(i as usize)),
        forall|k: int|
            0 <= k < vote_places(entries).len() ==> #[trigger] vote_places(entries)[k]
                < entries.len(),
        forall|j: int, k: int|
            0 <= j < k < vote_places(entries).len() ==> #[trigger] vote_places(entries)[j]
                < #[trigger] vote_places(entries)[k],
    decreases entries.len(),
{
    if entries.len() > 0 {
        let rest = entries.drop_last();
        let before = vote_places(rest);
        let places = vote_places(entries);
        let last = (entries.len() - 1) as usize;
        lemma_vote_places(rest);
        assert forall|i: int| 0 <= i < entries.len() implies (is_vote(#[trigger] entries[i])
            <==> places.contains(i as usize)) by {
            if i < last {
                assert(rest[i] == entries[i]);
                if before.contains(i as usize) {
                    let k = choose|k: int| 0 <= k < before.len() && before[k] == i as usize;
                    assert(places[k] == i as usize);
                }
                if places.contains(i as usize) {
                    let k = choose|k: int| 0 <= k < places.len() && places[k] == i as usize;
                    assert(before[k] == i as usize);
                }
            } else {
                if is_vote(entries[i]) {
                    assert(places[places.len() - 1] == i as usize);
                }
                if places.contains(i as usize) && !is_vote(entries[i]) {
                    let k = choose|k: int| 0 <= k < places.len() && places[k] == i as usize;
                    assert(before[k] < rest.len());
                }
            }
        }
    }
}

/// Lets an offline proposal pass only where its author's public key confirms its
/// signature. Otherwise the client reports that and fails.
pub fn check_proposal_signature(valid: bool) -> (result: Result<(), Report>)
    ensures
        valid ==> result is Ok,
        !valid ==> (result matches Err(report) && report@ == seq![
            error().text("Bad proposal signature."@),
        ]),
{
    if valid {
        Ok(())
    } else {
        Err(Report::of(Line::error().text("Bad proposal signature.")))
    }
}

/// The status of a proposal never goes back as epochs pass.
pub proof fn lemma_status_moves_on(start_epoch: u64, end_epoch: u64, earlier: u64, later: u64)
    requires
        earlier <= later,
    ensures
        status(start_epoch, end_epoch, earlier) is Done ==> status(
            start_epoch,
            end_epoch,
            later,
        ) is Done,
        status(start_epoch, end_epoch, later) is Pending ==> status(
            start_epoch,
            end_epoch,
            earlier,
        ) is Pending,
{
}

/// A proposal that is given is shown alone and with its details; several are shown without.
/// The epoch is the current one.
pub proof fn lemma_what_is_shown_of_proposals(
    id: u64,
    count: u64,
    current_epoch: u64,
    previous: Option<u64>,
)
    ensures
        next_proposal(ProposalSelection::One(id), current_epoch, None) is Some,
        next_proposal(ProposalSelection::One(id), current_epoch, None)->0.id == id,
        next_proposal(ProposalSelection::One(id), current_epoch, None)->0.details,
        next_proposal(ProposalSelection::One(id), current_epoch, None)->0.current_epoch
            == current_epoch,
        previous is Some ==> next_proposal(
            ProposalSelection::One(id),
            current_epoch,
            previous,
        ) is None,
        next_proposal(ProposalSelection::Below(count), current_epoch, previous) matches Some(
            query,
        ) ==> !query.details && query.current_epoch == current_epoch && query.id < count,
{
}

/// Voting is to come before its first epoch, over behind its last, and on between them.
pub proof fn lemma_when_voting_is_on(start_epoch: u64, end_epoch: u64, current_epoch: u64)
    ensures
        status(start_epoch, end_epoch, current_epoch) is Pending <==> current_epoch < start_epoch,
        status(start_epoch, end_epoch, current_epoch) is OnGoing <==> start_epoch <= current_epoch
            <= end_epoch,
        status(start_epoch, end_epoch, current_epoch) is Done <==> start_epoch <= current_epoch
            && end_epoch < current_epoch,
{
}

/// How far the voting is is said in one line. Where votes were tallied, both powers stand
/// above it while the voting is on, and the result below it when it is over.
pub proof fn lemma_lines_of_a_status(result: ProposalResult)
    ensures
        forall|r: Option<ProposalResult>|
            #[trigger] status_lines(ProposalStatus::Pending, r) == seq![
                printed(seq![PieceView::Text("    Status: pending"@)]),
            ],
        status_lines(ProposalStatus::OnGoing, None) == seq![
            printed(seq![PieceView::Text("    Status: on-going"@)]),
        ],
        status_lines(ProposalStatus::Done, None) == seq![
            printed(seq![PieceView::Text("    Status: done"@)]),
        ],
        status_lines(ProposalStatus::OnGoing, Some(result)) == seq![
            printed(
                seq![
                    PieceView::Text("    Yay votes: "@),
                    PieceView::Power(result.total_yay_power),
                ],
            ),
            printed(
                seq![
                    PieceView::Text("    Nay votes: "@),
                    PieceView::Power(result.total_nay_power),
                ],
            ),
            printed(seq![PieceView::Text("    Status: on-going"@)]),
        ],
        status_lines(ProposalStatus::Done, Some(result)) == seq![
            printed(seq![PieceView::Text("    Status: done"@)]),
            printed(seq![PieceView::Text("    Result: "@), PieceView::Text(result.shown@)]),
        ],
{
    assert(out().text("    Status: pending"@) =~= printed(
        seq![PieceView::Text("    Status: pending"@)],
    ));
    assert(out().text("    Status: on-going"@) =~= printed(
        seq![PieceView::Text("    Status: on-going"@)],
    ));
    assert(out().text("    Status: done"@) =~= printed(
        seq![PieceView::Text("    Status: done"@)],
    ));
    assert(out().text("    Yay votes: "@).power(result.total_yay_power) =~= printed(
        seq![PieceView::Text("    Yay votes: "@), PieceView::Power(result.total_yay_power)],
    ));
    assert(out().text("    Nay votes: "@).power(result.total_nay_power) =~= printed(
        seq![PieceView::Text("    Nay votes: "@), PieceView::Power(result.total_nay_power)],
    ));
    assert(out().text("    Result: "@).text(result.shown@) =~= printed(
        seq![PieceView::Text("    Result: "@), PieceView::Text(result.shown@)],
    ));
}

/// A proposal is reported with its identifier, its author and the epochs of its voting, and
/// with every entry of its content, in order, and its grace epoch where there are details.
/// How far the voting is comes last. A proposal that is missing is complained of.
pub proof fn lemma_report_of_a_proposal(
    query: ProposalQuery,
    proposal: Proposal,
    result: Option<ProposalResult>,
)
    ensures
        ({
            let top = seq![
                printed(seq![PieceView::Text("Proposal: "@), PieceView::Number(query.id)]),
                printed(
                    seq![PieceView::Text("    Author: "@), PieceView::Text(proposal.author@)],
                ),
            ];
            let epochs = seq![
                printed(
                    seq![
                        PieceView::Text("    Start Epoch: "@),
                        PieceView::Number(proposal.start_epoch),
                    ],
                ),
                printed(
                    seq![
                        PieceView::Text("    End Epoch: "@),
                        PieceView::Number(proposal.end_epoch),
                    ],
                ),
            ];
            let bottom = status_lines(
                status(proposal.start_epoch, proposal.end_epoch, query.current_epoch),
                result,
            );
            let report = lookup_report(query, ProposalState::Complete { proposal, result });
            &&& proposal.details is None ==> report == top + epochs + bottom
            &&& proposal.details matches Some(details) ==> report == top + seq![
                printed(seq![PieceView::Text("    Content:"@)]),
            ] + Seq::new(details.content@.len(), |i: int| content_entry(details.content@[i]))
                + epochs + seq![
                printed(
                    seq![
                        PieceView::Text("    Grace Epoch: "@),
                        PieceView::Number(details.grace_epoch),
                    ],
                ),
            ] + bottom
        }),
        lookup_report(query, ProposalState::Missing) == seq![
            complained(
                seq![
                    PieceView::Text("No valid proposal was found with id "@),
                    PieceView::Number(query.id),
                ],
            ),
        ],
{
    assert(out().text("Proposal: "@).number(query.id) =~= printed(
        seq![PieceView::Text("Proposal: "@), PieceView::Number(query.id)],
    ));
    assert(out().text("    Author: "@).text(proposal.author@) =~= printed(
        seq![PieceView::Text("    Author: "@), PieceView::Text(proposal.author@)],
    ));
    assert(out().text("    Start Epoch: "@).number(proposal.start_epoch) =~= printed(
        seq![PieceView::Text("    Start Epoch: "@), PieceView::Number(proposal.start_epoch)],
    ));
    assert(out().text("    End Epoch: "@).number(proposal.end_epoch) =~= printed(
        seq![PieceView::Text("    End Epoch: "@), PieceView::Number(proposal.end_epoch)],
    ));
    assert(error().text("No valid proposal was found with id "@).number(query.id) =~= complained(
        seq![
            PieceView::Text("No valid proposal was found with id "@),
            PieceView::Number(query.id),
        ],
    ));
    let report = lookup_report(query, ProposalState::Complete { proposal, result });
    let bottom = status_lines(
        status(proposal.start_epoch, proposal.end_epoch, query.current_epoch),
        result,
    );
    match proposal.details {
        Some(details) => {
            assert(out().text("    Content:"@) =~= printed(
                seq![PieceView::Text("    Content:"@)],
            ));
            assert(out().text("    Grace Epoch: "@).number(details.grace_epoch) =~= printed(
                seq![
                    PieceView::Text("    Grace Epoch: "@),
                    PieceView::Number(details.grace_epoch),
                ],
            ));
            let content = details.content@;
            assert forall|i: int| 0 <= i < content.len() implies #[trigger] content_lines(
                content,
            )[i] == content_entry(content[i]) by {
                assert(content_lines(content)[i] =~= content_entry(content[i]));
            }
            assert(content_lines(content) =~= Seq::new(
                content.len(),
                |i: int| content_entry(content[i]),
            ));
        },
        None => {},
    }
}

/// The line of an entry of a proposal's content.
pub open spec fn content_entry(entry: (String, String)) -> LineView {
    printed(
        seq![
            PieceView::Text("        "@),
            PieceView::Text(entry.0@),
            PieceView::Text(": "@),
            PieceView::Text(entry.1@),
        ],
    )
}

/// A proposal that is given by its identifier is looked for on the ledger, whatever else is
/// given. Otherwise a folder is looked in where the offline flag and a folder are given, and
/// what is wanting is complained of.
pub proof fn lemma_where_results_are_found(
    id: u64,
    offline: bool,
    folder: Option<Seq<char>>,
    path: Seq<char>,
)
    ensures
        result_request(Some(id), offline, folder) == (ResultRequestView::OnChain { id }),
        result_request(None, true, Some(path)) == (ResultRequestView::Offline { folder: path }),
        result_request(None, true, None) == ResultRequestView::Failed(
            seq![
                complained(
                    seq![PieceView::Text("Offline flag must be followed by data-path."@)],
                ),
            ],
        ),
        result_request(None, false, folder) == ResultRequestView::Failed(
            seq![
                complained(
                    seq![
                        PieceView::Text(
                            "Either --proposal-id or --data-path should be provided as arguments."@,
                        ),
                    ],
                ),
            ],
        ),
{
    assert(error().text("Offline flag must be followed by data-path."@) =~= complained(
        seq![PieceView::Text("Offline flag must be followed by data-path."@)],
    ));
    assert(error().text(
        "Either --proposal-id or --data-path should be provided as arguments."@,
    ) =~= complained(
        seq![
            PieceView::Text(
                "Either --proposal-id or --data-path should be provided as arguments."@,
            ),
        ],
    ));
}

/// Votes are tallied as of the last epoch of the voting, in every epoch behind it and in none
/// before.
pub proof fn lemma_when_votes_are_tallied(current_epoch: u64, end_epoch: u64)
    ensures
        end_epoch < current_epoch ==> epoch_of_tally(current_epoch, Some(end_epoch)) == Ok::<
            u64,
            LineView,
        >(end_epoch),
        current_epoch <= end_epoch ==> epoch_of_tally(current_epoch, Some(end_epoch)) == Err::<
            u64,
            LineView,
        >(complained(seq![PieceView::Text("Proposal is still in progress."@)])),
        epoch_of_tally(current_epoch, None) == Err::<u64, LineView>(
            complained(seq![PieceView::Text("Error while retriving proposal."@)]),
        ),
{
    assert(error().text("Proposal is still in progress."@) =~= complained(
        seq![PieceView::Text("Proposal is still in progress."@)],
    ));
    assert(error().text("Error while retriving proposal."@) =~= complained(
        seq![PieceView::Text("Error while retriving proposal."@)],
    ));
}

/// The proposal is the file of that name, and the votes are the files whose names begin with
/// what names of votes begin with; no other entry is either.
pub proof fn lemma_what_entries_are(name: String, is_file: bool, reason: String)
    ensures
        is_proposal(FolderEntry::Entry { name, is_file }) <==> is_file && name@ == "proposal"@,
        is_vote(FolderEntry::Entry { name, is_file }) <==> is_file && name@.len() >= 14
            && forall|i: int| 0 <= i < 14 ==> #[trigger] name@[i] == "proposal-vote-"@[i],
        !is_proposal(FolderEntry::Untyped { reason }),
        !is_proposal(FolderEntry::Unread { reason }),
        !is_vote(FolderEntry::Untyped { reason }),
        !is_vote(FolderEntry::Unread { reason }),
{
    reveal_strlit("proposal-vote-");
    reveal_strlit("proposal");
    let prefix = "proposal-vote-"@;
    assert(prefix.len() == 14);
    assert("proposal"@.len() == 8);
    if name@.len() >= 14 && forall|i: int| 0 <= i < 14 ==> #[trigger] name@[i] == prefix[i] {
        assert(name@.subrange(0, 14) =~= prefix);
    }
    if prefix.is_prefix_of(name@) {
        assert forall|i: int| 0 <= i < 14 implies #[trigger] name@[i] == prefix[i] by {
            assert(name@.subrange(0, 14)[i] == name@[i]);
        }
    }
}

/// The first entry that could not be read is complained of, with its reason, and nothing else
/// is looked at.
pub proof fn lemma_first_failure_is_told(entries: Seq<FolderEntry>, i: int)
    requires
        0 <= i < entries.len(),
        forall|j: int| 0 <= j < i ==> #[trigger] entries[j] is Entry,
        !(entries[i] is Entry),
    ensures
        folder_scan(entries) == Err::<Seq<usize>, LineView>(
            complained(
                match entries[i] {
                    FolderEntry::Untyped { reason } => seq![
                        PieceView::Text("Can't read entry type: "@),
                        PieceView::Text(reason@),
                        PieceView::Text("."@),
                    ],
                    FolderEntry::Unread { reason } => seq![
                        PieceView::Text("Can't read entry: "@),
                        PieceView::Text(reason@),
                        PieceView::Text("."@),
                    ],
                    FolderEntry::Entry { .. } => Seq::empty(),
                },
            ),
        ),
{
    let upto = entries.take(i + 1);
    lemma_no_failure(entries.take(i));
    assert(upto.drop_last() =~= entries.take(i));
    assert(upto.last() == entries[i]);
    assert(first_failure(upto) == entry_failure(entries[i]));
    lemma_failure_stays(entries, i + 1);
    match entries[i] {
        FolderEntry::Untyped { reason } => {
            assert(error().text("Can't read entry type: "@).text(reason@).text("."@)
                =~= complained(
                seq![
                    PieceView::Text("Can't read entry type: "@),
                    PieceView::Text(reason@),
                    PieceView::Text("."@),
                ],
            ));
        },
        FolderEntry::Unread { reason } => {
            assert(error().text("Can't read entry: "@).text(reason@).text("."@) =~= complained(
                seq![
                    PieceView::Text("Can't read entry: "@),
                    PieceView::Text(reason@),
                    PieceView::Text("."@),
                ],
            ));
        },
        FolderEntry::Entry { .. } => {},
    }
}

/// There is no failure where all entries could be read.
proof fn lemma_no_failure(entries: Seq<FolderEntry>)
    requires
        forall|j: int| 0 <= j < entries.len() ==> #[trigger] entries[j] is Entry,
    ensures
        first_failure(entries) is None,
    decreases entries.len(),
{
    if entries.len() > 0 {
        let rest = entries.drop_last();
        assert forall|j: int| 0 <= j < rest.len() implies #[trigger] rest[j] is Entry by {
            assert(rest[j] == entries[j]);
        }
        lemma_no_failure(rest);
        assert(entries[entries.len() - 1] is Entry);
    }
}

/// A folder whose entries could all be read gives its votes exactly where the proposal is
/// among the entries, wherever it stands; otherwise that is complained of.
pub proof fn lemma_folder_with_the_proposal(entries: Seq<FolderEntry>)
    requires
        forall|j: int| 0 <= j < entries.len() ==> #[trigger] entries[j] is Entry,
    ensures
        (exists|i: int| 0 <= i < entries.len() && is_proposal(#[trigger] entries[i]))
            ==> folder_scan(entries) == Ok::<Seq<usize>, LineView>(vote_places(entries)),
        (forall|i: int| 0 <= i < entries.len() ==> !is_proposal(#[trigger] entries[i]))
            ==> folder_scan(entries) == Err::<Seq<usize>, LineView>(
            complained(
                seq![
                    PieceView::Text(
                        "The folder must contain the offline proposal in a file named \"proposal\""@,
                    ),
                ],
            ),
        ),
{
    lemma_no_failure(entries);
    assert(error().text(
        "The folder must contain the offline proposal in a file named \"proposal\""@,
    ) =~= complained(
        seq![
            PieceView::Text(
                "The folder must contain the offline proposal in a file named \"proposal\""@,
            ),
        ],
    ));
}

/// The result of a proposal on the ledger stands below the proposal's identifier, and is shown
/// as that of one in a folder is.
pub proof fn lemma_lines_of_a_result(id: u64, shown: Seq<char>)
    ensures
        result_lines(Some(id), shown) == seq![
            printed(seq![PieceView::Text("Proposal: "@), PieceView::Number(id)]),
        ] + result_lines(None, shown),
        result_lines(None, shown) == seq![
            printed(seq![PieceView::Text("    Result: "@), PieceView::Text(shown)]),
        ],
{
    assert(out().text("Proposal: "@).number(id) =~= printed(
        seq![PieceView::Text("Proposal: "@), PieceView::Number(id)],
    ));
    assert(out().text("    Result: "@).text(shown) =~= printed(
        seq![PieceView::Text("    Result: "@), PieceView::Text(shown)],
    ));
}

/// What a request asks for, or why there is none, is in its content.
pub proof fn lemma_content_of_result_requests(request: ResultRequest)
    ensures
        match (request, request@) {
            (ResultRequest::OnChain { id }, ResultRequestView::OnChain { id: i }) => id == i,
            (
                ResultRequest::Offline { folder },
                ResultRequestView::Offline { folder: f },
            ) => folder@ == f,
            (ResultRequest::Failed(report), ResultRequestView::Failed(lines)) => report@ == lines,
            _ => false,
        },
{
}

} // verus!
