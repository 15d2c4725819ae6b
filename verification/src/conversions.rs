//! Conversions between the assets of a token in different epochs.

use vstd::prelude::*;

use crate::assets::{same_asset, AssetType};
use crate::names::{shown, shown_name};
use crate::report::{out, printed, Line, LineView, PieceView, Report};

verus! {

/// The conversion of an asset.
#[derive(Debug, PartialEq, Eq)]
pub struct Conversion {
    pub asset: AssetType,
    /// The token that the asset stands for.
    pub token: String,
    /// The epoch in which the asset stands for the token.
    pub epoch: u64,
    /// What may be converted: amounts of assets that add up to nothing. A conversion
    /// without parts changes nothing.
    pub parts: Vec<(AssetType, i64)>,
}

/// Whether a conversion is listed for an asset at a place, and none before it.
pub open spec fn is_place_of(list: Seq<Conversion>, asset: Seq<u8>, i: int) -> bool {
    &&& 0 <= i < list.len()
    &&& list[i].asset.0@ == asset
    &&& forall|j: int| 0 <= j < i ==> (#[trigger] list[j]).asset.0@ != asset
}

/// Whether any conversion is listed for an asset.
pub open spec fn is_listed(list: Seq<Conversion>, asset: Seq<u8>) -> bool {
    exists|i: int| 0 <= i < list.len() && (#[trigger] list[i]).asset.0@ == asset
}

/// The conversion that is listed for an asset.
pub open spec fn conversion_of(list: Seq<Conversion>, asset: Seq<u8>) -> Conversion {
    list[choose|i: int| is_place_of(list, asset, i)]
}

/// Whether a conversion is asked for: it is one of the token and of the epoch, where these
/// are given, and changes anything.
pub open spec fn is_selected(
    conversion: Conversion,
    token: Option<String>,
    epoch: Option<u64>,
) -> bool {
    &&& token matches Some(token) ==> token@ == conversion.token@
    &&& epoch matches Some(epoch) ==> epoch == conversion.epoch
    &&& conversion.parts@.len() > 0
}

/// A line with the name of a token in an epoch added.
pub open spec fn dated(
    line: LineView,
    conversion: Conversion,
    tokens: Seq<(String, String)>,
) -> LineView {
    line.text(shown(tokens, conversion.token@)).text("["@).number(conversion.epoch)
}

/// A line with parts of a conversion added, as a sum.
pub open spec fn sum(
    line: LineView,
    parts: Seq<(AssetType, i64)>,
    list: Seq<Conversion>,
    tokens: Seq<(String, String)>,
) -> LineView
    decreases parts.len(),
{
    if parts.len() == 0 {
        line
    } else {
        let (asset, value) = parts.last();
        dated(
            sum(line, parts.drop_last(), list, tokens).text(
                if parts.len() == 1 {
                    ""@
                } else {
                    " + "@
                },
            ).integer(value).text(" "@),
            conversion_of(list, asset.0@),
            tokens,
        ).text("]"@)
    }
}

/// The line of a conversion: an implicit equation.
pub open spec fn conversion_line(
    conversion: Conversion,
    list: Seq<Conversion>,
    tokens: Seq<(String, String)>,
) -> LineView {
    sum(
        dated(out(), conversion, tokens).text("]: "@),
        conversion.parts@,
        list,
        tokens,
    ).text(" = 0"@)
}

/// The lines of the selected ones of conversions.
pub open spec fn conversion_lines(
    conversions: Seq<Conversion>,
    list: Seq<Conversion>,
    token: Option<String>,
    epoch: Option<u64>,
    tokens: Seq<(String, String)>,
) -> Seq<LineView>
    decreases conversions.len(),
{
    if conversions.len() == 0 {
        seq![]
    } else {
        let lines = conversion_lines(conversions.drop_last(), list, token, epoch, tokens);
        if is_selected(conversions.last(), token, epoch) {
            lines.push(conversion_line(conversions.last(), list, tokens))
        } else {
            lines
        }
    }
}

/// The report of conversions.
pub open spec fn conversions_report(
    list: Seq<Conversion>,
    token: Option<String>,
    epoch: Option<u64>,
    tokens: Seq<(String, String)>,
) -> Seq<LineView> {
    let lines = conversion_lines(list, list, token, epoch, tokens);
    if lines.len() > 0 {
        lines
    } else {
        seq![out().text("No conversions found satisfying specified criteria."@)]
    }
}

/// Whether conversions are listed for all assets of a conversion.
pub open spec fn is_closed(conversion: Conversion, list: Seq<Conversion>) -> bool {
    forall|i: int|
        0 <= i < conversion.parts@.len() ==> is_listed(
            list,
            (#[trigger] conversion.parts@[i]).0.0@,
        )
}

/// Whether conversions are listed for all assets of the selected conversions.
pub open spec fn selection_is_closed(
    list: Seq<Conversion>,
    token: Option<String>,
    epoch: Option<u64>,
) -> bool {
    forall|i: int|
        0 <= i < list.len() && is_selected(#[trigger] list[i], token, epoch) ==> is_closed(
            list[i],
            list,
        )
}

/// An asset is listed at one place.
proof fn lemma_conversion_of(list: Seq<Conversion>, asset: Seq<u8>, i: int)
    requires
        is_place_of(list, asset, i),
    ensures
        conversion_of(list, asset) == list[i],
{
    let k = choose|k: int| is_place_of(list, asset, k);
    if k < i {
        assert(list[k].asset.0@ == asset);
    } else if i < k {
        assert(list[i].asset.0@ == asset);
    }
}

/// The conversion that is listed for an asset.
fn find_conversion<'a>(list: &'a Vec<Conversion>, asset: &AssetType) -> (found: Option<
    &'a Conversion,
>)
    ensures
        match found {
            Some(conversion) => is_listed(list@, asset.0@) && *conversion == conversion_of(
                list@,
                asset.0@,
            ),
            None => !is_listed(list@, asset.0@),
        },
{
    let mut i: usize = 0;
    while i < list.len()
        invariant
            i <= list.len(),
            forall|j: int| 0 <= j < i ==> (#[trigger] list@[j]).asset.0@ != asset.0@,
        decreases list.len() - i,
    {
        if same_asset(&list[i].asset, asset) {
            proof {
                lemma_conversion_of(list@, asset.0@, i as int);
            }
            return Some(&list[i]);
        }
        i = i + 1;
    }
    None
}

/// Whether a conversion is asked for.
fn selected(conversion: &Conversion, token: &Option<String>, epoch: Option<u64>) -> (yes: bool)
    ensures
        yes == is_selected(*conversion, *token, epoch),
{
    let of_token = match token {
        Some(token) => *token == conversion.token,
        None => true,
    };
    let of_epoch = match epoch {
        Some(epoch) => epoch == conversion.epoch,
        None => true,
    };
    of_token && of_epoch && conversion.parts.len() > 0
}

/// A line with the name of a token in an epoch added.
fn add_dated(line: Line, conversion: &Conversion, tokens: &Vec<(String, String)>) -> (result: Line)
    ensures
        result@ == dated(line@, *conversion, tokens@),
{
    let name = shown_name(tokens, &conversion.token);
    line.text(name.as_str()).text("[").number(conversion.epoch)
}

/// The line of a conversion.
fn line_of_conversion(
    conversion: &Conversion,
    list: &Vec<Conversion>,
    tokens: &Vec<(String, String)>,
) -> (line: Line)
    requires
        is_closed(*conversion, list@),
    ensures
        line@ == conversion_line(*conversion, list@, tokens@),
{
    let parts = &conversion.parts;
    let mut line = add_dated(Line::out(), conversion, tokens).text("]: ");
    let ghost start = line@;
    let mut i: usize = 0;
    while i < parts.len()
        invariant
            i <= parts.len(),
            parts@ == conversion.parts@,
            is_closed(*conversion, list@),
            line@ == sum(start, parts@.take(i as int), list@, tokens@),
        decreases parts.len() - i,
    {
        assert(parts@.take(i + 1).drop_last() =~= parts@.take(i as int));
        assert(is_listed(list@, conversion.parts@[i as int].0.0@));
        let prefix = if i == 0 {
            ""
        } else {
            " + "
        };
        line = line.text(prefix).integer(parts[i].1).text(" ");
        if let Some(part) = find_conversion(list, &parts[i].0) {
            line = add_dated(line, part, tokens).text("]");
        }
        i = i + 1;
    }
    assert(parts@.take(i as int) =~= parts@);
    line.text(" = 0")
}

/// Query for conversions: the report of those of a token and of an epoch, where these are
/// given.
pub fn query_conversions(
    conversions: &Vec<Conversion>,
    token: &Option<String>,
    epoch: Option<u64>,
    tokens: &Vec<(String, String)>,
) -> (report: Report)
    requires
        selection_is_closed(conversions@, *token, epoch),
    ensures
        report@ == conversions_report(conversions@, *token, epoch, tokens@),
{
    let mut report = Report::new();
    let mut conversions_found = false;
    let mut i: usize = 0;
    while i < conversions.len()
        invariant
            i <= conversions.len(),
            selection_is_closed(conversions@, *token, epoch),
            report@ == conversion_lines(
                conversions@.take(i as int),
                conversions@,
                *token,
                epoch,
                tokens@,
            ),
            conversions_found == (report@.len() > 0),
        decreases conversions.len() - i,
    {
        assert(conversions@.take(i + 1).drop_last() =~= conversions@.take(i as int));
        if selected(&conversions[i], token, epoch) {
            report.push(line_of_conversion(&conversions[i], conversions, tokens));
            conversions_found = true;
        }
        i = i + 1;
    }
    assert(conversions@.take(i as int) =~= conversions@);
    if !conversions_found {
        report.push(
            Line::out().text("No conversions found satisfying specified criteria."),
        );
        assert(report@ =~= seq![
            out().text("No conversions found satisfying specified criteria."@),
        ]);
    }
    report
}

/// Whether conversions are listed for all assets of the selected conversions; only then can
/// they be reported on.
pub fn can_report(
    conversions: &Vec<Conversion>,
    token: &Option<String>,
    epoch: Option<u64>,
) -> (yes: bool)
    ensures
        yes == selection_is_closed(conversions@, *token, epoch),
{
    let mut i: usize = 0;
    while i < conversions.len()
        invariant
            i <= conversions.len(),
            forall|k: int|
                0 <= k < i && is_selected(#[trigger] conversions@[k], *token, epoch)
                    ==> is_closed(conversions@[k], conversions@),
        decreases conversions.len() - i,
    {
        if selected(&conversions[i], token, epoch) {
            let parts = &conversions[i].parts;
            let mut j: usize = 0;
            while j < parts.len()
                invariant
                    i < conversions.len(),
                    j <= parts.len(),
                    parts@ == conversions@[i as int].parts@,
                    is_selected(conversions@[i as int], *token, epoch),
                    forall|k: int|
                        0 <= k < j ==> is_listed(conversions@, (#[trigger] parts@[k]).0.0@),
                decreases parts.len() - j,
            {
                if find_conversion(conversions, &parts[j].0).is_none() {
                    assert(!is_listed(
                        conversions@,
                        conversions@[i as int].parts@[j as int].0.0@,
                    ));
                    assert(!is_closed(conversions@[i as int], conversions@));
                    return false;
                }
                j = j + 1;
            }
        }
        i = i + 1;
    }
    true
}

/// What is reported of a token and an epoch is also reported where no epoch, no token or
/// neither is given.
pub proof fn lemma_narrower_queries_report_no_more(
    conversions: Seq<Conversion>,
    list: Seq<Conversion>,
    token: Option<String>,
    wider_token: Option<String>,
    epoch: Option<u64>,
    wider_epoch: Option<u64>,
    tokens: Seq<(String, String)>,
    line: LineView,
)
    requires
        wider_token is None || wider_token == token,
        wider_epoch is None || wider_epoch == epoch,
        conversion_lines(conversions, list, token, epoch, tokens).contains(line),
    ensures
        conversion_lines(conversions, list, wider_token, wider_epoch, tokens).contains(line),
    decreases conversions.len(),
{
    let narrow = conversion_lines(conversions, list, token, epoch, tokens);
    let wide = conversion_lines(conversions, list, wider_token, wider_epoch, tokens);
    let i = choose|i: int| 0 <= i < narrow.len() && narrow[i] == line;
    let last = conversions.last();
    let rest = conversions.drop_last();
    if is_selected(last, token, epoch) && i == narrow.len() - 1 {
        assert(wide[wide.len() - 1] == line);
    } else {
        assert(conversion_lines(rest, list, token, epoch, tokens)[i] == line);
        lemma_narrower_queries_report_no_more(
            rest,
            list,
            token,
            wider_token,
            epoch,
            wider_epoch,
            tokens,
            line,
        );
        let before = conversion_lines(rest, list, wider_token, wider_epoch, tokens);
        let k = choose|k: int| 0 <= k < before.len() && before[k] == line;
        assert(wide[k] == line);
    }
}

/// The first conversion that is listed for an asset is the asset's, whatever stands around it.
pub proof fn lemma_first_listed_conversion(list: Seq<Conversion>, asset: Seq<u8>, i: int)
    requires
        0 <= i < list.len(),
        list[i].asset.0@ == asset,
        forall|j: int| 0 <= j < i ==> (#[trigger] list[j]).asset.0@ != asset,
    ensures
        conversion_of(list, asset) == list[i],
        is_listed(list, asset),
{
    assert(is_place_of(list, asset, i));
    lemma_conversion_of(list, asset, i);
}

/// Conversions can be reported exactly where every asset of those that are asked for is
/// itself that of a listed conversion.
pub proof fn lemma_what_can_be_reported(
    list: Seq<Conversion>,
    token: Option<String>,
    epoch: Option<u64>,
)
    ensures
        selection_is_closed(list, token, epoch) <==> forall|i: int, k: int|
            0 <= i < list.len() && 0 <= k < list[i].parts@.len() && (token is None || token->0@
                == list[i].token@) && (epoch is None || epoch->0 == list[i].epoch)
                ==> has_conversion(list, (#[trigger] list[i].parts@[k]).0.0@),
{
    assert forall|asset: Seq<u8>| #[trigger] is_listed(list, asset) == has_conversion(
        list,
        asset,
    ) by {
        if is_listed(list, asset) {
            let j = choose|j: int| 0 <= j < list.len() && (#[trigger] list[j]).asset.0@ == asset;
            assert(list[j].asset.0@ == asset);
        }
        if has_conversion(list, asset) {
            let j = choose|j: int| 0 <= j < list.len() && (#[trigger] list[j]).asset.0@ == asset;
            assert(list[j].asset.0@ == asset);
        }
    }
    if selection_is_closed(list, token, epoch) {
        assert forall|i: int, k: int|
            0 <= i < list.len() && 0 <= k < list[i].parts@.len() && (token is None || token->0@
                == list[i].token@) && (epoch is None || epoch->0
                == list[i].epoch) implies has_conversion(
            list,
            (#[trigger] list[i].parts@[k]).0.0@,
        ) by {
            assert(is_selected(list[i], token, epoch));
            assert(is_closed(list[i], list));
            assert(is_listed(list, list[i].parts@[k].0.0@));
        }
    } else {
        let i = choose|i: int|
            0 <= i < list.len() && is_selected(#[trigger] list[i], token, epoch) && !is_closed(
                list[i],
                list,
            );
        let k = choose|k: int|
            0 <= k < list[i].parts@.len() && !is_listed(
                list,
                (#[trigger] list[i].parts@[k]).0.0@,
            );
        assert(!has_conversion(list, list[i].parts@[k].0.0@));
    }
}

/// Whether an asset is that of any of the conversions.
pub open spec fn has_conversion(list: Seq<Conversion>, asset: Seq<u8>) -> bool {
    exists|j: int| 0 <= j < list.len() && (#[trigger] list[j]).asset.0@ == asset
}

/// Whether a conversion is one of the token and of the epoch that are asked for, and has
/// parts.
pub open spec fn asked_for(
    conversion: Conversion,
    token: Option<String>,
    epoch: Option<u64>,
) -> bool {
    &&& token is None || conversion.token@ == token->0@
    &&& epoch is None || conversion.epoch == epoch->0
    &&& conversion.parts@.len() != 0
}

/// Every conversion that is asked for is reported, in order, and no other.
pub proof fn lemma_conversion_lines_join(
    first: Seq<Conversion>,
    second: Seq<Conversion>,
    conversion: Conversion,
    list: Seq<Conversion>,
    token: Option<String>,
    epoch: Option<u64>,
    tokens: Seq<(String, String)>,
)
    ensures
        conversion_lines(first + second, list, token, epoch, tokens) == conversion_lines(
            first,
            list,
            token,
            epoch,
            tokens,
        ) + conversion_lines(second, list, token, epoch, tokens),
        conversion_lines(seq![conversion], list, token, epoch, tokens) == if asked_for(
            conversion,
            token,
            epoch,
        ) {
            seq![conversion_line(conversion, list, tokens)]
        } else {
            Seq::empty()
        },
    decreases second.len(),
{
    assert(seq![conversion].drop_last() =~= Seq::<Conversion>::empty());
    assert(conversion_lines(Seq::<Conversion>::empty(), list, token, epoch, tokens) =~= seq![]);
    if second.len() == 0 {
        assert(first + second =~= first);
    } else {
        assert((first + second).drop_last() =~= first + second.drop_last());
        lemma_conversion_lines_join(
            first,
            second.drop_last(),
            conversion,
            list,
            token,
            epoch,
            tokens,
        );
    }
    assert(conversion_lines(first + second, list, token, epoch, tokens) =~= conversion_lines(
        first,
        list,
        token,
        epoch,
        tokens,
    ) + conversion_lines(second, list, token, epoch, tokens));
}

/// Lines are shown exactly where any conversion is asked for.
proof fn lemma_shown_where_asked_for(
    conversions: Seq<Conversion>,
    list: Seq<Conversion>,
    token: Option<String>,
    epoch: Option<u64>,
    tokens: Seq<(String, String)>,
)
    ensures
        conversion_lines(conversions, list, token, epoch, tokens).len() > 0 <==> exists|i: int|
            0 <= i < conversions.len() && asked_for(#[trigger] conversions[i], token, epoch),
    decreases conversions.len(),
{
    if conversions.len() > 0 {
        let rest = conversions.drop_last();
        lemma_shown_where_asked_for(rest, list, token, epoch, tokens);
        if exists|i: int| 0 <= i < rest.len() && asked_for(#[trigger] rest[i], token, epoch) {
            let i = choose|i: int|
                0 <= i < rest.len() && asked_for(#[trigger] rest[i], token, epoch);
            assert(conversions[i] == rest[i]);
        }
        if exists|i: int|
            0 <= i < conversions.len() && asked_for(#[trigger] conversions[i], token, epoch) {
            let i = choose|i: int|
                0 <= i < conversions.len() && asked_for(#[trigger] conversions[i], token, epoch);
            if i < rest.len() {
                assert(rest[i] == conversions[i]);
            }
        } else {
            assert(!asked_for(conversions[conversions.len() - 1], token, epoch));
        }
        if asked_for(conversions.last(), token, epoch) {
            assert(asked_for(conversions[conversions.len() - 1], token, epoch));
        }
    }
}

/// That there are no conversions is said exactly where none that is listed is asked for.
pub proof fn lemma_report_of_conversions(
    list: Seq<Conversion>,
    token: Option<String>,
    epoch: Option<u64>,
    tokens: Seq<(String, String)>,
)
    ensures
        ({
            let any = exists|i: int|
                0 <= i < list.len() && asked_for(#[trigger] list[i], token, epoch);
            &&& any ==> conversions_report(list, token, epoch, tokens) == conversion_lines(
                list,
                list,
                token,
                epoch,
                tokens,
            )
            &&& !any ==> conversions_report(list, token, epoch, tokens) == seq![
                printed(
                    seq![
                        PieceView::Text("No conversions found satisfying specified criteria."@),
                    ],
                ),
            ]
        }),
{
    lemma_shown_where_asked_for(list, list, token, epoch, tokens);
    assert(out().text("No conversions found satisfying specified criteria."@) =~= printed(
        seq![PieceView::Text("No conversions found satisfying specified criteria."@)],
    ));
}

/// The sum of some parts is as long as they are many, and the part at a place is shown there:
/// its value and the token and epoch of its asset, behind a plus unless it is the first.
pub proof fn lemma_part_of_a_sum(
    line: LineView,
    parts: Seq<(AssetType, i64)>,
    list: Seq<Conversion>,
    tokens: Seq<(String, String)>,
    i: int,
)
    requires
        0 <= i < parts.len(),
    ensures
        ({
            let pieces = sum(line, parts, list, tokens).pieces;
            let start = line.pieces.len() + 7 * i;
            let conversion = conversion_of(list, parts[i].0.0@);
            &&& sum(line, parts, list, tokens).channel == line.channel
            &&& pieces.len() == line.pieces.len() + 7 * parts.len()
            &&& pieces.subrange(0, line.pieces.len() as int) == line.pieces
            &&& pieces.subrange(start, start + 7) == seq![
                PieceView::Text(
                    if i == 0 {
                        ""@
                    } else {
                        " + "@
                    },
                ),
                PieceView::Integer(parts[i].1),
                PieceView::Text(" "@),
                PieceView::Text(shown(tokens, conversion.token@)),
                PieceView::Text("["@),
                PieceView::Number(conversion.epoch),
                PieceView::Text("]"@),
            ]
        }),
    decreases parts.len(),
{
    let rest = parts.drop_last();
    let pieces = sum(line, parts, list, tokens).pieces;
    let before = sum(line, rest, list, tokens).pieces;
    let start = line.pieces.len() + 7 * i;
    if rest.len() > 0 {
        lemma_part_of_a_sum(
            line,
            rest,
            list,
            tokens,
            if i < rest.len() {
                i
            } else {
                0
            },
        );
    } else {
        assert(sum(line, rest, list, tokens) == line);
    }
    assert(pieces.len() == before.len() + 7);
    assert(pieces.subrange(0, before.len() as int) =~= before);
    assert(pieces.subrange(0, line.pieces.len() as int) =~= before.subrange(
        0,
        line.pieces.len() as int,
    ));
    if i < rest.len() {
        assert(rest[i] == parts[i]);
        assert(pieces.subrange(start, start + 7) =~= before.subrange(start, start + 7));
    } else {
        let conversion = conversion_of(list, parts[i].0.0@);
        assert(pieces.subrange(start, start + 7) =~= seq![
            PieceView::Text(
                if i == 0 {
                    ""@
                } else {
                    " + "@
                },
            ),
            PieceView::Integer(parts[i].1),
            PieceView::Text(" "@),
            PieceView::Text(shown(tokens, conversion.token@)),
            PieceView::Text("["@),
            PieceView::Number(conversion.epoch),
            PieceView::Text("]"@),
        ]);
    }
}

/// The line of a conversion names its token and epoch, and behind that says of the sum of its
/// parts that it is zero.
pub proof fn lemma_conversions_are_equations(
    conversion: Conversion,
    list: Seq<Conversion>,
    tokens: Seq<(String, String)>,
)
    ensures
        conversion_line(conversion, list, tokens).pieces == sum(
            printed(
                seq![
                    PieceView::Text(shown(tokens, conversion.token@)),
                    PieceView::Text("["@),
                    PieceView::Number(conversion.epoch),
                    PieceView::Text("]: "@),
                ],
            ),
            conversion.parts@,
            list,
            tokens,
        ).pieces.push(PieceView::Text(" = 0"@)),
        conversion_line(conversion, list, tokens).channel == sum(
            out(),
            conversion.parts@,
            list,
            tokens,
        ).channel,
{
    assert(dated(out(), conversion, tokens).text("]: "@) =~= printed(
        seq![
            PieceView::Text(shown(tokens, conversion.token@)),
            PieceView::Text("["@),
            PieceView::Number(conversion.epoch),
            PieceView::Text("]: "@),
        ],
    ));
    if conversion.parts@.len() > 0 {
        lemma_part_of_a_sum(
            dated(out(), conversion, tokens).text("]: "@),
            conversion.parts@,
            list,
            tokens,
            0,
        );
        lemma_part_of_a_sum(out(), conversion.parts@, list, tokens, 0);
    }
}

} // verus!
