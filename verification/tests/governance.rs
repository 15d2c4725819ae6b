use ledger_client::governance::{
    advance, check_proposal_signature, print_proposal, proposal_status, query_proposal,
    query_proposal_result, result_report, scan_folder, tally_epoch, FolderEntry, ProposalQuery,
    ProposalReply, ProposalResult, ProposalSelection, ProposalState, ProposalStatus,
    ResultRequest,
};
use ledger_client::report::{Line, Report};

fn text(s: &str) -> String {
    s.to_string()
}

fn query(current_epoch: u64, details: bool) -> ProposalQuery {
    ProposalQuery { id: 7, current_epoch, details }
}

fn result() -> ProposalResult {
    ProposalResult {
        total_yay_power: 30,
        total_nay_power: 12,
        shown: text("passed with 30 yay votes"),
    }
}

/// Runs a lookup with the given replies and reports it.
fn report(query: ProposalQuery, replies: Vec<ProposalReply>) -> Report {
    let mut state = ProposalState::Author;
    for reply in replies {
        state = advance(query, state, reply);
    }
    print_proposal(query, &state)
}

fn short_replies() -> Vec<ProposalReply> {
    vec![
        ProposalReply::Author(Some(text("author"))),
        ProposalReply::Epoch(Some(5)),
        ProposalReply::Epoch(Some(8)),
    ]
}

fn long_replies() -> Vec<ProposalReply> {
    let mut replies = short_replies();
    replies.push(ProposalReply::Content(Some(vec![
        (text("title"), text("a title")),
        (text("license"), text("MIT")),
    ])));
    replies.push(ProposalReply::Epoch(Some(11)));
    replies
}

#[test]
fn one_proposal_is_shown_with_details() {
    let one = ProposalSelection::One(3);
    let expected = ProposalQuery { id: 3, current_epoch: 9, details: true };
    assert_eq!(query_proposal(one, 9, None), Some(expected));
    assert_eq!(query_proposal(one, 9, Some(3)), None);
}

#[test]
fn all_proposals_below_the_counter_are_shown() {
    let all = ProposalSelection::Below(3);
    let mut previous = None;
    let mut shown = vec![];
    while let Some(query) = query_proposal(all, 9, previous) {
        assert!(!query.details);
        assert_eq!(query.current_epoch, 9);
        shown.push(query.id);
        previous = Some(query.id);
    }
    assert_eq!(shown, vec![0, 1, 2]);
    assert_eq!(query_proposal(ProposalSelection::Below(0), 9, None), None);
    assert_eq!(query_proposal(ProposalSelection::Below(3), 9, Some(u64::MAX)), None);
}

#[test]
fn a_proposal_is_on_going_from_its_first_to_its_last_epoch() {
    let statuses: Vec<ProposalStatus> = (4..10).map(|epoch| proposal_status(5, 8, epoch)).collect();
    assert_eq!(
        statuses,
        vec![
            ProposalStatus::Pending,
            ProposalStatus::OnGoing,
            ProposalStatus::OnGoing,
            ProposalStatus::OnGoing,
            ProposalStatus::OnGoing,
            ProposalStatus::Done,
        ]
    );
}

#[test]
fn a_short_report_has_no_votes() {
    let lines = |status: &str| {
        vec![
            Line::out().text("Proposal: ").number(7),
            Line::out().text("    Author: ").text("author"),
            Line::out().text("    Start Epoch: ").number(5),
            Line::out().text("    End Epoch: ").number(8),
            Line::out().text(status),
        ]
    };
    assert_eq!(report(query(4, false), short_replies()).lines, lines("    Status: pending"));
    assert_eq!(report(query(5, false), short_replies()).lines, lines("    Status: on-going"));
    assert_eq!(report(query(9, false), short_replies()).lines, lines("    Status: done"));
}

fn long_lines() -> Vec<Line> {
    vec![
        Line::out().text("Proposal: ").number(7),
        Line::out().text("    Author: ").text("author"),
        Line::out().text("    Content:"),
        Line::out().text("        ").text("title").text(": ").text("a title"),
        Line::out().text("        ").text("license").text(": ").text("MIT"),
        Line::out().text("    Start Epoch: ").number(5),
        Line::out().text("    End Epoch: ").number(8),
        Line::out().text("    Grace Epoch: ").number(11),
    ]
}

#[test]
fn a_pending_proposal_is_not_tallied() {
    let mut lines = long_lines();
    lines.push(Line::out().text("    Status: pending"));
    assert_eq!(report(query(4, true), long_replies()).lines, lines);
}

#[test]
fn an_on_going_proposal_is_reported_with_its_votes() {
    let mut replies = long_replies();
    replies.push(ProposalReply::Tally(result()));
    let mut lines = long_lines();
    lines.push(Line::out().text("    Yay votes: ").power(30));
    lines.push(Line::out().text("    Nay votes: ").power(12));
    lines.push(Line::out().text("    Status: on-going"));
    assert_eq!(report(query(8, true), replies).lines, lines);
}

#[test]
fn a_done_proposal_is_reported_with_its_result() {
    let mut replies = long_replies();
    replies.push(ProposalReply::Tally(result()));
    let mut lines = long_lines();
    lines.push(Line::out().text("    Status: done"));
    lines.push(Line::out().text("    Result: ").text("passed with 30 yay votes"));
    assert_eq!(report(query(9, true), replies).lines, lines);
}

#[test]
fn a_proposal_of_which_anything_is_missing_is_missing() {
    let missing = Report::of(Line::error().text("No valid proposal was found with id ").number(7));
    for (i, reply) in [
        ProposalReply::Author(None),
        ProposalReply::Epoch(None),
        ProposalReply::Epoch(None),
        ProposalReply::Content(None),
        ProposalReply::Epoch(None),
    ]
    .into_iter()
    .enumerate()
    {
        let mut replies = long_replies();
        replies.truncate(i);
        replies.push(reply);
        assert_eq!(report(query(8, true), replies), missing);
    }
}

#[test]
fn a_short_lookup_does_not_ask_for_details() {
    let mut state = ProposalState::Author;
    for reply in short_replies() {
        state = advance(query(8, false), state, reply);
    }
    assert!(matches!(state, ProposalState::Complete { result: None, .. }));
}

#[test]
fn a_long_lookup_ends_in_a_tally_once_the_voting_has_started() {
    for (epoch, tallied) in [(4, false), (5, true), (8, true), (9, true)] {
        let mut state = ProposalState::Author;
        for reply in long_replies() {
            state = advance(query(epoch, true), state, reply);
        }
        assert_eq!(matches!(state, ProposalState::Tally { .. }), tallied);
        assert_eq!(matches!(state, ProposalState::Complete { .. }), !tallied);
    }
}

#[test]
fn results_are_found_on_the_ledger_or_in_a_folder() {
    assert!(matches!(
        query_proposal_result(Some(4), true, Some(text("folder"))),
        ResultRequest::OnChain { id: 4 }
    ));
    match query_proposal_result(None, true, Some(text("folder"))) {
        ResultRequest::Offline { folder } => assert_eq!(folder, "folder"),
        _ => panic!(),
    }
    match query_proposal_result(None, true, None) {
        ResultRequest::Failed(report) => assert_eq!(
            report,
            Report::of(Line::error().text("Offline flag must be followed by data-path."))
        ),
        _ => panic!(),
    }
    match query_proposal_result(None, false, Some(text("folder"))) {
        ResultRequest::Failed(report) => assert_eq!(
            report,
            Report::of(Line::error().text(
                "Either --proposal-id or --data-path should be provided as arguments."
            ))
        ),
        _ => panic!(),
    }
}

#[test]
fn votes_are_tallied_once_the_voting_is_over() {
    assert_eq!(tally_epoch(9, Some(8)), Ok(8));
    assert_eq!(
        tally_epoch(8, Some(8)),
        Err(Report::of(Line::error().text("Proposal is still in progress.")))
    );
    assert_eq!(
        tally_epoch(8, None),
        Err(Report::of(Line::error().text("Error while retriving proposal.")))
    );
}

#[test]
fn results_are_reported() {
    assert_eq!(
        result_report(Some(4), &text("passed")).lines,
        vec![
            Line::out().text("Proposal: ").number(4),
            Line::out().text("    Result: ").text("passed"),
        ]
    );
    assert_eq!(
        result_report(None, &text("rejected")).lines,
        vec![Line::out().text("    Result: ").text("rejected")]
    );
}

fn file(name: &str) -> FolderEntry {
    FolderEntry::Entry { name: text(name), is_file: true }
}

#[test]
fn a_folder_is_scanned_for_votes() {
    let entries = vec![
        file("proposal-vote-a"),
        file("notes"),
        FolderEntry::Entry { name: text("proposal-vote-dir"), is_file: false },
        file("proposal"),
        file("proposal-vote-"),
        file("proposal-vote"),
    ];
    assert_eq!(scan_folder(&entries), Ok(vec![0, 4]));
}

#[test]
fn a_folder_without_the_proposal_fails() {
    let failure = Err(Report::of(
        Line::error()
            .text("The folder must contain the offline proposal in a file named \"proposal\""),
    ));
    assert_eq!(scan_folder(&vec![]), failure);
    assert_eq!(
        scan_folder(&vec![
            file("proposal-vote-a"),
            FolderEntry::Entry { name: text("proposal"), is_file: false },
        ]),
        failure
    );
}

#[test]
fn an_unreadable_entry_fails() {
    let entries = vec![
        file("proposal"),
        FolderEntry::Untyped { reason: text("gone") },
        FolderEntry::Unread { reason: text("later") },
    ];
    assert_eq!(
        scan_folder(&entries),
        Err(Report::of(Line::error().text("Can't read entry type: ").text("gone").text(".")))
    );
    let entries = vec![FolderEntry::Unread { reason: text("denied") }];
    assert_eq!(
        scan_folder(&entries),
        Err(Report::of(Line::error().text("Can't read entry: ").text("denied").text(".")))
    );
}

#[test]
fn a_bad_signature_fails() {
    assert_eq!(check_proposal_signature(true), Ok(()));
    assert_eq!(
        check_proposal_signature(false),
        Err(Report::of(Line::error().text("Bad proposal signature.")))
    );
}
