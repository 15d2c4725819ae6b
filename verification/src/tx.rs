//! Transactions, raw storage and failed queries.

use data_encoding::HEXLOWER;
use vstd::prelude::*;

use crate::report::{complained, error, out, printed, Line, LineView, PieceView, Report};

verus! {

/// The hexadecimal digit of a number below sixteen, in lower case.
pub open spec fn hex_digit(n: int) -> char {
    if n < 10 {
        ('0' as int + n) as char
    } else {
        ('a' as int + n - 10) as char
    }
}

/// The hexadecimal form of bytes: two digits for each, the high one first.
pub open spec fn hex(bytes: Seq<u8>) -> Seq<char> {
    Seq::new(
        2 * bytes.len(),
        |i: int|
            if i % 2 == 0 {
                hex_digit(bytes[i / 2] as int / 16)
            } else {
                hex_digit(bytes[i / 2] as int % 16)
            },
    )
}

/// Encodes bytes with `HEXLOWER.encode`: base sixteen in lower case, without padding. The
/// crate panics on inputs longer than the bound.
#[verifier::external_body]
fn hex_lower(bytes: &[u8]) -> (encoded: String)
    requires
        bytes@.len() <= usize::MAX / 512,
    ensures
        encoded@ == hex(bytes@),
{
    HEXLOWER.encode(bytes)
}

/// The line of the bytes of a storage key.
pub open spec fn bytes_line(storage_key: Seq<char>, data: Seq<u8>) -> LineView {
    if data.len() > 0 {
        out().text("Found data: 0x"@).text(hex(data))
    } else {
        out().text("No data found for key "@).text(storage_key)
    }
}

/// Query the raw bytes of a storage key: the report of the bytes that the ledger holds.
pub fn query_raw_bytes(storage_key: &String, data: &Vec<u8>) -> (report: Report)
    requires
        data@.len() <= usize::MAX / 512,
    ensures
        report@ == seq![bytes_line(storage_key@, data@)],
{
    if data.len() > 0 {
        let encoded = hex_lower(data.as_slice());
        Report::of(Line::out().text("Found data: 0x").text(encoded.as_str()))
    } else {
        Report::of(Line::out().text("No data found for key ").text(storage_key.as_str()))
    }
}

/// Dry run a transaction: the report of its result.
pub fn dry_run_tx(result: &String) -> (report: Report)
    ensures
        report@ == seq![out().text("Dry-run result: "@).text(result@)],
{
    Report::of(Line::out().text("Dry-run result: ").text(result.as_str()))
}

/// Which event of a transaction is looked up.
#[derive(Debug, PartialEq, Eq)]
pub enum TxLookup {
    /// Its application.
    Applied,
    /// Its acceptance, after the lookup of its application failed.
    Accepted { applied_error: String },
}

/// What follows a lookup of a transaction's event.
#[derive(Debug)]
pub enum TxLookupStep {
    /// The event was found.
    Found(Report),
    /// Another event is looked up.
    Next(TxLookup),
    /// There is no other event to look up: the client reports that and fails.
    Failed(Report),
}

/// The mathematical content of a [`TxLookupStep`].
pub enum TxLookupStepView {
    Found(Seq<LineView>),
    Next(TxLookup),
    Failed(Seq<LineView>),
}

impl View for TxLookupStep {
    type V = TxLookupStepView;

    open spec fn view(&self) -> TxLookupStepView {
        match *self {
            TxLookupStep::Found(report) => TxLookupStepView::Found(report@),
            TxLookupStep::Next(lookup) => TxLookupStepView::Next(lookup),
            TxLookupStep::Failed(report) => TxLookupStepView::Failed(report@),
        }
    }
}

/// What follows a lookup of a transaction's event.
pub open spec fn lookup_step(lookup: TxLookup, response: Result<String, String>)
    -> TxLookupStepView {
    match (lookup, response) {
        (TxLookup::Applied, Ok(result)) => TxLookupStepView::Found(
            seq![out().text("Transaction was applied with result: "@).text(result@)],
        ),
        (TxLookup::Applied, Err(reason)) => TxLookupStepView::Next(
            TxLookup::Accepted { applied_error: reason },
        ),
        (TxLookup::Accepted { applied_error: _ }, Ok(result)) => TxLookupStepView::Found(
            seq![out().text("Transaction was accepted with result: "@).text(result@)],
        ),
        (TxLookup::Accepted { applied_error }, Err(reason)) => TxLookupStepView::Failed(
            seq![error().text(applied_error@).text("\n"@).text(reason@)],
        ),
    }
}

/// Lookup the results of applying a transaction: first the event of its application, and
/// if that fails the event of its acceptance. The response is the event's result or the
/// reason why there is none.
pub fn query_result(lookup: TxLookup, response: Result<String, String>) -> (step: TxLookupStep)
    ensures
        step@ == lookup_step(lookup, response),
{
    match (lookup, response) {
        (TxLookup::Applied, Ok(result)) => TxLookupStep::Found(
            Report::of(
                Line::out().text("Transaction was applied with result: ").text(result.as_str()),
            ),
        ),
        (TxLookup::Applied, Err(reason)) => TxLookupStep::Next(
            TxLookup::Accepted { applied_error: reason },
        ),
        (TxLookup::Accepted { applied_error: _ }, Ok(result)) => TxLookupStep::Found(
            Report::of(
                Line::out().text("Transaction was accepted with result: ").text(result.as_str()),
            ),
        ),
        (TxLookup::Accepted { applied_error }, Err(reason)) => TxLookupStep::Failed(
            Report::of(Line::error().text(applied_error.as_str()).text("\n").text(reason.as_str())),
        ),
    }
}

/// Unwrap a client's response. A failed query is reported, and the client fails.
pub fn unwrap_client_response<T, E>(response: Result<T, E>) -> (result: Result<T, Report>)
    ensures
        match (response, result) {
            (Ok(value), Ok(unwrapped)) => unwrapped == value,
            (Err(_), Err(report)) => report@ == seq![error().text("Error in the query"@)],
            _ => false,
        },
{
    match response {
        Ok(value) => Ok(value),
        Err(_) => Err(Report::of(Line::error().text("Error in the query"))),
    }
}

/// The value of a hexadecimal digit.
pub open spec fn digit_value(digit: char) -> int {
    if digit as int >= 'a' as int {
        digit as int - 'a' as int + 10
    } else {
        digit as int - '0' as int
    }
}

/// The hexadecimal form has two digits for each byte, in order, and they are the byte's value
/// to the base sixteen.
pub proof fn lemma_digits_of_bytes(bytes: Seq<u8>, i: int)
    requires
        0 <= i < bytes.len(),
    ensures
        hex(bytes).len() == 2 * bytes.len(),
        bytes[i] == 16 * digit_value(hex(bytes)[2 * i]) + digit_value(hex(bytes)[2 * i + 1]),
        0 <= digit_value(hex(bytes)[2 * i]) < 16,
        0 <= digit_value(hex(bytes)[2 * i + 1]) < 16,
{
    assert((2 * i) / 2 == i && (2 * i) % 2 == 0);
    assert((2 * i + 1) / 2 == i && (2 * i + 1) % 2 == 1);
}

/// Bytes that are there are shown in their hexadecimal form, and of a key without any that is
/// said.
pub proof fn lemma_line_of_bytes(storage_key: Seq<char>, data: Seq<u8>)
    ensures
        data.len() != 0 ==> bytes_line(storage_key, data) == printed(
            seq![PieceView::Text("Found data: 0x"@), PieceView::Text(hex(data))],
        ),
        bytes_line(storage_key, Seq::empty()) == printed(
            seq![PieceView::Text("No data found for key "@), PieceView::Text(storage_key)],
        ),
{
}

/// A transaction that was applied is reported as applied, and one that was only accepted as
/// accepted, after its application was looked up in vain. Where both lookups fail, both
/// reasons are complained of, the first one first.
pub proof fn lemma_lookups_of_a_transaction(result: String, first: String, second: String)
    ensures
        lookup_step(TxLookup::Applied, Ok(result)) == TxLookupStepView::Found(
            seq![
                printed(
                    seq![
                        PieceView::Text("Transaction was applied with result: "@),
                        PieceView::Text(result@),
                    ],
                ),
            ],
        ),
        lookup_step(TxLookup::Applied, Err(first)) matches TxLookupStepView::Next(lookup) && {
            &&& lookup_step(lookup, Ok(result)) == TxLookupStepView::Found(
                seq![
                    printed(
                        seq![
                            PieceView::Text("Transaction was accepted with result: "@),
                            PieceView::Text(result@),
                        ],
                    ),
                ],
            )
            &&& lookup_step(lookup, Err(second)) == TxLookupStepView::Failed(
                seq![
                    complained(
                        seq![
                            PieceView::Text(first@),
                            PieceView::Text("\n"@),
                            PieceView::Text(second@),
                        ],
                    ),
                ],
            )
        },
{
    assert(out().text("Transaction was applied with result: "@).text(result@) =~= printed(
        seq![
            PieceView::Text("Transaction was applied with result: "@),
            PieceView::Text(result@),
        ],
    ));
    assert(out().text("Transaction was accepted with result: "@).text(result@) =~= printed(
        seq![
            PieceView::Text("Transaction was accepted with result: "@),
            PieceView::Text(result@),
        ],
    ));
    assert(error().text(first@).text("\n"@).text(second@) =~= complained(
        seq![PieceView::Text(first@), PieceView::Text("\n"@), PieceView::Text(second@)],
    ));
}

/// What a step reports, or looks for next, is in its content.
pub proof fn lemma_content_of_lookup_steps(step: TxLookupStep)
    ensures
        match (step, step@) {
            (TxLookupStep::Found(report), TxLookupStepView::Found(lines)) => report@ == lines,
            (TxLookupStep::Next(lookup), TxLookupStepView::Next(next)) => lookup == next,
            (TxLookupStep::Failed(report), TxLookupStepView::Failed(lines)) => report@ == lines,
            _ => false,
        },
{
}

} // verus!
