//! Accepted transfers.

use vstd::prelude::*;

use crate::assets::{magnitude, sign, sign_of, token_component, unsigned_abs, value_of_token};
use crate::names::{
    find_name, lemma_first_entry_names, lemma_unlisted_shown_itself, name_of, shown, shown_name,
};
use crate::report::{out, printed, Line, LineView, PieceView, Report};

verus! {

/// What a transfer changes in an account: a value for each token.
pub type Change = (String, Vec<(String, i64)>);

/// A transfer with the changes that it makes.
#[derive(Debug, PartialEq, Eq)]
pub struct Transfer {
    pub height: u64,
    pub index: u64,
    /// The changes in transparent accounts, by address.
    pub transparent: Vec<Change>,
    /// The changes in shielded accounts, by viewing key.
    pub shielded: Vec<Change>,
}

/// Whose transfers are asked for.
#[derive(Debug, PartialEq, Eq)]
pub enum TransferOwner {
    /// Those of the account that a viewing key sees.
    ViewingKey(String),
    /// Those of an address.
    Address(String),
    /// Those of a payment address; no transfer is known to be one.
    PaymentAddress,
    /// Those of any account.
    Any,
}

/// Whether an account is among changed ones.
pub open spec fn changes(list: Seq<Change>, account: Seq<char>) -> bool {
    exists|i: int| 0 <= i < list.len() && (#[trigger] list[i]).0@ == account
}

/// Whether a token is moved by any of the changes.
pub open spec fn moves(list: Seq<Change>, token: Seq<char>) -> bool {
    exists|i: int| 0 <= i < list.len() && token_component((#[trigger] list[i]).1@, token) != 0
}

/// Whether a transfer is one that is asked for: it changes the owner's account, and it moves
/// the token.
pub open spec fn is_relevant(
    transfer: Transfer,
    owner: TransferOwner,
    token: Option<String>,
) -> bool {
    &&& match owner {
        TransferOwner::ViewingKey(key) => changes(transfer.shielded@, key@),
        TransferOwner::Address(address) => changes(transfer.transparent@, address@),
        TransferOwner::PaymentAddress => false,
        TransferOwner::Any => true,
    }
    &&& match token {
        Some(token) => moves(transfer.transparent@, token@) || moves(transfer.shielded@, token@),
        None => true,
    }
}

/// Whether an account is among changed ones.
fn has_change(list: &Vec<Change>, account: &String) -> (yes: bool)
    ensures
        yes == changes(list@, account@),
{
    let mut i: usize = 0;
    while i < list.len()
        invariant
            i <= list.len(),
            forall|j: int| 0 <= j < i ==> (#[trigger] list@[j]).0@ != account@,
        decreases list.len() - i,
    {
        if list[i].0 == *account {
            return true;
        }
        i = i + 1;
    }
    false
}

/// Whether a token is moved by any of the changes.
fn moves_token(list: &Vec<Change>, token: &String) -> (yes: bool)
    ensures
        yes == moves(list@, token@),
{
    let mut i: usize = 0;
    while i < list.len()
        invariant
            i <= list.len(),
            forall|j: int|
                0 <= j < i ==> token_component((#[trigger] list@[j]).1@, token@) == 0,
        decreases list.len() - i,
    {
        if value_of_token(&list[i].1, token) != 0 {
            return true;
        }
        i = i + 1;
    }
    false
}

/// Whether a transfer is one that is asked for.
pub fn relevant(transfer: &Transfer, owner: &TransferOwner, token: &Option<String>) -> (yes: bool)
    ensures
        yes == is_relevant(*transfer, *owner, *token),
{
    let of_owner = match owner {
        TransferOwner::ViewingKey(key) => has_change(&transfer.shielded, key),
        TransferOwner::Address(address) => has_change(&transfer.transparent, address),
        TransferOwner::PaymentAddress => false,
        TransferOwner::Any => true,
    };
    let of_token = match token {
        Some(token) => {
            moves_token(&transfer.transparent, token) || moves_token(&transfer.shielded, token)
        },
        None => true,
    };
    of_owner && of_token
}

/// A line with the parts of an amount added, each with its sign.
pub open spec fn signed_parts(
    line: LineView,
    amount: Seq<(String, i64)>,
    tokens: Seq<(String, String)>,
) -> LineView
    decreases amount.len(),
{
    if amount.len() == 0 {
        line
    } else {
        let part = amount.last();
        signed_parts(line, amount.drop_last(), tokens).text(" "@).text(sign(part.1)).amount(
            magnitude(part.1),
        ).text(" "@).text(shown(tokens, part.0@))
    }
}

/// The line of the change of an account.
pub open spec fn change_line(
    account: Seq<char>,
    amount: Seq<(String, i64)>,
    tokens: Seq<(String, String)>,
) -> LineView {
    signed_parts(out().text("  "@).text(account).text(":"@), amount, tokens)
}

/// The lines of the changes of transparent accounts, without that of the shielded pool.
pub open spec fn transparent_lines(
    list: Seq<Change>,
    masp: Seq<char>,
    tokens: Seq<(String, String)>,
) -> Seq<LineView>
    decreases list.len(),
{
    if list.len() == 0 {
        seq![]
    } else {
        let lines = transparent_lines(list.drop_last(), masp, tokens);
        let (account, amount) = list.last();
        if account@ != masp {
            lines.push(change_line(account@, amount@, tokens))
        } else {
            lines
        }
    }
}

/// The lines of the changes of the shielded accounts whose full viewing keys are known.
pub open spec fn shielded_lines(
    list: Seq<Change>,
    full_keys: Seq<(String, String)>,
    tokens: Seq<(String, String)>,
) -> Seq<LineView>
    decreases list.len(),
{
    if list.len() == 0 {
        seq![]
    } else {
        let lines = shielded_lines(list.drop_last(), full_keys, tokens);
        let (account, amount) = list.last();
        match name_of(full_keys, account@) {
            Some(full_key) => lines.push(change_line(full_key, amount@, tokens)),
            None => lines,
        }
    }
}

/// The account of a transfer.
pub open spec fn transfer_lines(
    transfer: Transfer,
    masp: Seq<char>,
    tokens: Seq<(String, String)>,
    full_keys: Seq<(String, String)>,
) -> Seq<LineView> {
    seq![
        out().text("Height: "@).number(transfer.height).text(", Index: "@).number(
            transfer.index,
        ).text(", Transparent Transfer:"@),
    ] + transparent_lines(transfer.transparent@, masp, tokens) + shielded_lines(
        transfer.shielded@,
        full_keys,
        tokens,
    )
}

/// The account of the transfers that are asked for.
pub open spec fn transfers_report(
    transfers: Seq<Transfer>,
    owner: TransferOwner,
    token: Option<String>,
    masp: Seq<char>,
    tokens: Seq<(String, String)>,
    full_keys: Seq<(String, String)>,
) -> Seq<LineView>
    decreases transfers.len(),
{
    if transfers.len() == 0 {
        seq![]
    } else {
        let before = transfers_report(
            transfers.drop_last(),
            owner,
            token,
            masp,
            tokens,
            full_keys,
        );
        if is_relevant(transfers.last(), owner, token) {
            before + transfer_lines(transfers.last(), masp, tokens, full_keys)
        } else {
            before
        }
    }
}

/// The line of the change of an account.
fn line_of_change(
    account: &String,
    amount: &Vec<(String, i64)>,
    tokens: &Vec<(String, String)>,
) -> (line: Line)
    ensures
        line@ == change_line(account@, amount@, tokens@),
{
    let mut line = Line::out().text("  ").text(account.as_str()).text(":");
    let ghost start = line@;
    let mut i: usize = 0;
    while i < amount.len()
        invariant
            i <= amount.len(),
            line@ == signed_parts(start, amount@.take(i as int), tokens@),
        decreases amount.len() - i,
    {
        assert(amount@.take(i + 1).drop_last() =~= amount@.take(i as int));
        let readable = shown_name(tokens, &amount[i].0);
        line = line.text(" ").text(sign_of(amount[i].1)).amount(unsigned_abs(amount[i].1)).text(
            " ",
        ).text(readable.as_str());
        i = i + 1;
    }
    assert(amount@.take(i as int) =~= amount@);
    line
}

/// The account of a transfer.
fn transfer_report(
    transfer: &Transfer,
    masp: &String,
    tokens: &Vec<(String, String)>,
    full_keys: &Vec<(String, String)>,
) -> (report: Report)
    ensures
        report@ == transfer_lines(*transfer, masp@, tokens@, full_keys@),
{
    let mut report = Report::of(
        Line::out().text("Height: ").number(transfer.height).text(", Index: ").number(
            transfer.index,
        ).text(", Transparent Transfer:"),
    );
    let ghost header = report@;
    let mut i: usize = 0;
    assert(report@ =~= header + transparent_lines(transfer.transparent@.take(0), masp@, tokens@));
    while i < transfer.transparent.len()
        invariant
            i <= transfer.transparent.len(),
            report@ == header + transparent_lines(
                transfer.transparent@.take(i as int),
                masp@,
                tokens@,
            ),
        decreases transfer.transparent.len() - i,
    {
        let change = &transfer.transparent[i];
        assert(transfer.transparent@.take(i + 1).drop_last() =~= transfer.transparent@.take(
            i as int,
        ));
        if change.0 != *masp {
            report.push(line_of_change(&change.0, &change.1, tokens));
        }
        assert(report@ =~= header + transparent_lines(
            transfer.transparent@.take(i + 1),
            masp@,
            tokens@,
        ));
        i = i + 1;
    }
    assert(transfer.transparent@.take(i as int) =~= transfer.transparent@);
    let ghost upper = report@;
    let mut k: usize = 0;
    assert(report@ =~= upper + shielded_lines(transfer.shielded@.take(0), full_keys@, tokens@));
    while k < transfer.shielded.len()
        invariant
            k <= transfer.shielded.len(),
            report@ == upper + shielded_lines(
                transfer.shielded@.take(k as int),
                full_keys@,
                tokens@,
            ),
        decreases transfer.shielded.len() - k,
    {
        let change = &transfer.shielded[k];
        assert(transfer.shielded@.take(k + 1).drop_last() =~= transfer.shielded@.take(k as int));
        if let Some(full_key) = find_name(full_keys, &change.0) {
            report.push(line_of_change(&full_key, &change.1, tokens));
        }
        assert(report@ =~= upper + shielded_lines(
            transfer.shielded@.take(k + 1),
            full_keys@,
            tokens@,
        ));
        k = k + 1;
    }
    assert(transfer.shielded@.take(k as int) =~= transfer.shielded@);
    report
}

/// Query the accepted transfers: the report of those that are asked for. The shielded pool
/// has the address `masp`, and the pairs of `full_keys` are viewing keys and the full viewing
/// keys by which they are shown.
pub fn query_transfers(
    transfers: &Vec<Transfer>,
    owner: &TransferOwner,
    token: &Option<String>,
    masp: &String,
    tokens: &Vec<(String, String)>,
    full_keys: &Vec<(String, String)>,
) -> (report: Report)
    ensures
        report@ == transfers_report(
            transfers@,
            *owner,
            *token,
            masp@,
            tokens@,
            full_keys@,
        ),
{
    let mut report = Report::new();
    let mut i: usize = 0;
    while i < transfers.len()
        invariant
            i <= transfers.len(),
            report@ == transfers_report(
                transfers@.take(i as int),
                *owner,
                *token,
                masp@,
                tokens@,
                full_keys@,
            ),
        decreases transfers.len() - i,
    {
        assert(transfers@.take(i + 1).drop_last() =~= transfers@.take(i as int));
        if relevant(&transfers[i], owner, token) {
            report.append(transfer_report(&transfers[i], masp, tokens, full_keys));
        }
        i = i + 1;
    }
    assert(transfers@.take(i as int) =~= transfers@);
    report
}

/// A value shown with its sign is the value: the sign and the magnitude determine it.
pub proof fn lemma_sign_and_magnitude(a: i64, b: i64)
    requires
        sign(a) == sign(b),
        magnitude(a) == magnitude(b),
    ensures
        a == b,
{
    reveal_strlit("+");
    reveal_strlit("-");
    reveal_strlit("");
    assert("+"@.len() == 1 && "-"@.len() == 1 && ""@.len() == 0);
    assert("+"@[0] != "-"@[0]);
}

/// Nothing is reported where payment addresses are asked for.
pub proof fn lemma_payment_addresses_have_no_transfers(
    transfers: Seq<Transfer>,
    token: Option<String>,
    masp: Seq<char>,
    tokens: Seq<(String, String)>,
    full_keys: Seq<(String, String)>,
)
    ensures
        transfers_report(
            transfers,
            TransferOwner::PaymentAddress,
            token,
            masp,
            tokens,
            full_keys,
        ).len() == 0,
    decreases transfers.len(),
{
    if transfers.len() > 0 {
        lemma_payment_addresses_have_no_transfers(
            transfers.drop_last(),
            token,
            masp,
            tokens,
            full_keys,
        );
    }
}

/// The transfers of joined lists are reported list by list.
pub proof fn lemma_transfers_reports_join(
    first: Seq<Transfer>,
    second: Seq<Transfer>,
    owner: TransferOwner,
    token: Option<String>,
    masp: Seq<char>,
    tokens: Seq<(String, String)>,
    full_keys: Seq<(String, String)>,
)
    ensures
        transfers_report(first + second, owner, token, masp, tokens, full_keys)
            == transfers_report(first, owner, token, masp, tokens, full_keys) + transfers_report(
            second,
            owner,
            token,
            masp,
            tokens,
            full_keys,
        ),
    decreases second.len(),
{
    if second.len() == 0 {
        assert(first + second =~= first);
    } else {
        assert((first + second).drop_last() =~= first + second.drop_last());
        lemma_transfers_reports_join(
            first,
            second.drop_last(),
            owner,
            token,
            masp,
            tokens,
            full_keys,
        );
    }
    assert(transfers_report(first + second, owner, token, masp, tokens, full_keys)
        =~= transfers_report(first, owner, token, masp, tokens, full_keys) + transfers_report(
        second,
        owner,
        token,
        masp,
        tokens,
        full_keys,
    ));
}

/// One transfer is reported exactly where it is asked for: where it changes the owner's
/// account, among the shielded ones for a viewing key and the transparent ones for an address,
/// and moves the token in any account. Its height and index stand above the changes, the
/// transparent ones first.
pub proof fn lemma_report_of_one_transfer(
    transfer: Transfer,
    owner: TransferOwner,
    token: Option<String>,
    masp: Seq<char>,
    tokens: Seq<(String, String)>,
    full_keys: Seq<(String, String)>,
)
    ensures
        ({
            let of_owner = match owner {
                TransferOwner::ViewingKey(key) => exists|i: int|
                    0 <= i < transfer.shielded@.len() && (#[trigger] transfer.shielded@[i]).0@
                        == key@,
                TransferOwner::Address(address) => exists|i: int|
                    0 <= i < transfer.transparent@.len() && (
                    #[trigger] transfer.transparent@[i]).0@ == address@,
                TransferOwner::PaymentAddress => false,
                TransferOwner::Any => true,
            };
            let of_token = match token {
                Some(token) => {
                    ||| exists|i: int|
                        0 <= i < transfer.transparent@.len() && token_component(
                            (#[trigger] transfer.transparent@[i]).1@,
                            token@,
                        ) != 0
                    ||| exists|i: int|
                        0 <= i < transfer.shielded@.len() && token_component(
                            (#[trigger] transfer.shielded@[i]).1@,
                            token@,
                        ) != 0
                },
                None => true,
            };
            let report = transfers_report(
                seq![transfer],
                owner,
                token,
                masp,
                tokens,
                full_keys,
            );
            &&& !(of_owner && of_token) ==> report.len() == 0
            &&& of_owner && of_token ==> report == seq![
                printed(
                    seq![
                        PieceView::Text("Height: "@),
                        PieceView::Number(transfer.height),
                        PieceView::Text(", Index: "@),
                        PieceView::Number(transfer.index),
                        PieceView::Text(", Transparent Transfer:"@),
                    ],
                ),
            ] + transparent_lines(transfer.transparent@, masp, tokens) + shielded_lines(
                transfer.shielded@,
                full_keys,
                tokens,
            )
        }),
{
    assert(seq![transfer].drop_last() =~= Seq::<Transfer>::empty());
    assert(transfers_report(Seq::<Transfer>::empty(), owner, token, masp, tokens, full_keys)
        =~= seq![]);
    let header = printed(
        seq![
            PieceView::Text("Height: "@),
            PieceView::Number(transfer.height),
            PieceView::Text(", Index: "@),
            PieceView::Number(transfer.index),
            PieceView::Text(", Transparent Transfer:"@),
        ],
    );
    assert(transfer_lines(transfer, masp, tokens, full_keys)[0] =~= header);
    assert(transfer_lines(transfer, masp, tokens, full_keys) =~= seq![header] + transparent_lines(
        transfer.transparent@,
        masp,
        tokens,
    ) + shielded_lines(transfer.shielded@, full_keys, tokens));
}

/// Every transparent account but that of the shielded pool is shown with its change, in order.
pub proof fn lemma_transparent_lines_join(
    first: Seq<Change>,
    second: Seq<Change>,
    change: Change,
    masp: Seq<char>,
    tokens: Seq<(String, String)>,
)
    ensures
        transparent_lines(first + second, masp, tokens) == transparent_lines(first, masp, tokens)
            + transparent_lines(second, masp, tokens),
        transparent_lines(seq![change], masp, tokens) == if change.0@ == masp {
            Seq::empty()
        } else {
            seq![change_line(change.0@, change.1@, tokens)]
        },
    decreases second.len(),
{
    assert(seq![change].drop_last() =~= Seq::<Change>::empty());
    assert(transparent_lines(Seq::<Change>::empty(), masp, tokens) =~= seq![]);
    if second.len() == 0 {
        assert(first + second =~= first);
    } else {
        assert((first + second).drop_last() =~= first + second.drop_last());
        lemma_transparent_lines_join(first, second.drop_last(), change, masp, tokens);
    }
    assert(transparent_lines(first + second, masp, tokens) =~= transparent_lines(
        first,
        masp,
        tokens,
    ) + transparent_lines(second, masp, tokens));
}

/// The shielded accounts of joined lists are shown list by list.
pub proof fn lemma_shielded_lines_join(
    first: Seq<Change>,
    second: Seq<Change>,
    full_keys: Seq<(String, String)>,
    tokens: Seq<(String, String)>,
)
    ensures
        shielded_lines(first + second, full_keys, tokens) == shielded_lines(
            first,
            full_keys,
            tokens,
        ) + shielded_lines(second, full_keys, tokens),
    decreases second.len(),
{
    if second.len() == 0 {
        assert(first + second =~= first);
    } else {
        assert((first + second).drop_last() =~= first + second.drop_last());
        lemma_shielded_lines_join(first, second.drop_last(), full_keys, tokens);
    }
    assert(shielded_lines(first + second, full_keys, tokens) =~= shielded_lines(
        first,
        full_keys,
        tokens,
    ) + shielded_lines(second, full_keys, tokens));
}

/// One shielded account is shown by the full viewing key that is listed for its viewing key.
pub proof fn lemma_known_shielded_account(
    change: Change,
    full_keys: Seq<(String, String)>,
    tokens: Seq<(String, String)>,
    k: int,
)
    requires
        0 <= k < full_keys.len(),
        full_keys[k].0@ == change.0@,
        forall|j: int| 0 <= j < k ==> (#[trigger] full_keys[j]).0@ != change.0@,
    ensures
        shielded_lines(seq![change], full_keys, tokens) == seq![
            change_line(full_keys[k].1@, change.1@, tokens),
        ],
{
    lemma_first_entry_names(full_keys, change.0@, k);
    assert(seq![change].drop_last() =~= Seq::<Change>::empty());
    assert(shielded_lines(Seq::<Change>::empty(), full_keys, tokens) =~= seq![]);
}

/// A shielded account without a listed full viewing key is not shown.
pub proof fn lemma_unknown_shielded_account(
    change: Change,
    full_keys: Seq<(String, String)>,
    tokens: Seq<(String, String)>,
)
    requires
        forall|j: int| 0 <= j < full_keys.len() ==> (#[trigger] full_keys[j]).0@ != change.0@,
    ensures
        shielded_lines(seq![change], full_keys, tokens).len() == 0,
{
    lemma_unlisted_shown_itself(full_keys, change.0@);
    assert(seq![change].drop_last() =~= Seq::<Change>::empty());
    assert(shielded_lines(Seq::<Change>::empty(), full_keys, tokens) =~= seq![]);
}

/// The line of a change names the account and then every part of the change in order, each
/// with its sign, how much it is and the name of its token.
pub proof fn lemma_line_of_a_change(
    account: Seq<char>,
    first: Seq<(String, i64)>,
    second: Seq<(String, i64)>,
    part: (String, i64),
    tokens: Seq<(String, String)>,
)
    ensures
        change_line(account, Seq::empty(), tokens) == printed(
            seq![PieceView::Text("  "@), PieceView::Text(account), PieceView::Text(":"@)],
        ),
        change_line(account, seq![part], tokens) == printed(
            seq![
                PieceView::Text("  "@),
                PieceView::Text(account),
                PieceView::Text(":"@),
                PieceView::Text(" "@),
                PieceView::Text(sign(part.1)),
                PieceView::Amount(magnitude(part.1)),
                PieceView::Text(" "@),
                PieceView::Text(shown(tokens, part.0@)),
            ],
        ),
        change_line(account, first + second, tokens) == printed(
            change_line(account, first, tokens).pieces + change_line(
                account,
                second,
                tokens,
            ).pieces.skip(3),
        ),
        change_line(account, second, tokens).pieces.len() == 3 + 5 * second.len(),
    decreases second.len(),
{
    let start = out().text("  "@).text(account).text(":"@);
    assert(start =~= printed(
        seq![PieceView::Text("  "@), PieceView::Text(account), PieceView::Text(":"@)],
    ));
    assert(seq![part].drop_last() =~= Seq::<(String, i64)>::empty());
    assert(change_line(account, Seq::empty(), tokens) == start);
    assert(change_line(account, seq![part], tokens) =~= printed(
        seq![
            PieceView::Text("  "@),
            PieceView::Text(account),
            PieceView::Text(":"@),
            PieceView::Text(" "@),
            PieceView::Text(sign(part.1)),
            PieceView::Amount(magnitude(part.1)),
            PieceView::Text(" "@),
            PieceView::Text(shown(tokens, part.0@)),
        ],
    ));
    lemma_parts_are_printed(account, first, tokens);
    if second.len() == 0 {
        assert(first + second =~= first);
    } else {
        assert((first + second).drop_last() =~= first + second.drop_last());
        lemma_line_of_a_change(account, first, second.drop_last(), part, tokens);
    }
    assert(change_line(account, first + second, tokens) =~= printed(
        change_line(account, first, tokens).pieces + change_line(
            account,
            second,
            tokens,
        ).pieces.skip(3),
    ));
}

/// The line of a change is printed on the standard output.
proof fn lemma_parts_are_printed(
    account: Seq<char>,
    amount: Seq<(String, i64)>,
    tokens: Seq<(String, String)>,
)
    ensures
        change_line(account, amount, tokens).channel == out().channel,
    decreases amount.len(),
{
    if amount.len() > 0 {
        lemma_parts_are_printed(account, amount.drop_last(), tokens);
    }
}

} // verus!
