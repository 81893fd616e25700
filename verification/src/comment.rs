use crate::board::{BoardConfig, BoardConfigView};
use crate::number::{int_text, push_int, push_signed, signed_text};
use crate::scene::{Scene, SceneMetric, SceneView};
use crate::text::{
    contains_text, joined, lemma_occurs_at_end, lemma_occurs_before, lemma_occurs_behind, occurs_in,
    to_chars,
};
use vstd::prelude::*;
use vstd::string::StringExecFns;

verus! {

/// The results of one board as a report shows them: the board, the scenes of
/// the current run, and their comparison with the baseline.
pub type BoardReport = (BoardConfig, Vec<Scene>, Vec<Scene>);

/// The mathematical value of a [`BoardReport`].
pub type BoardReportView = (BoardConfigView, Seq<SceneView>, Seq<SceneView>);

/// The line above all boards.
pub open spec fn title_text() -> Seq<char> {
    "## Benchmark Results\n"@
}

/// The two lines above the rows of a board: the names of the columns, and
/// the rule under them.
pub open spec fn table_head_text() -> Seq<char> {
    "| Scene Name | Avg CPU (%) | Avg FPS | Avg Time (ms) | Render Time (ms) | Flush Time (ms) |\n|---|---|---|---|---|---|\n"@
}

/// The change behind a value: in brackets and with its sign, `(0)` for no
/// change, and nothing where no comparison was made.
pub open spec fn change_text(delta: Option<SceneView>, metric: SceneMetric) -> Seq<char> {
    match delta {
        Some(d) => " ("@ + signed_text(d.value(metric)) + ")"@,
        None => Seq::empty(),
    }
}

/// One cell of a row: the current value of `metric` with its change.
pub open spec fn cell_text(current: SceneView, delta: Option<SceneView>, metric: SceneMetric) -> Seq<
    char,
> {
    " "@ + int_text(current.value(metric)) + change_text(delta, metric) + " |"@
}

/// One cell of the row of a scene that only the baseline has: no current
/// value, and the baseline's value of `metric`.
pub open spec fn gone_cell_text(baseline: SceneView, metric: SceneMetric) -> Seq<char> {
    " N/A (was "@ + int_text(baseline.value(metric)) + ") |"@
}

/// The row of a current scene: its name, and its five values, each with its
/// change.
pub open spec fn row_text(current: SceneView, delta: Option<SceneView>) -> Seq<char> {
    "| "@ + current.scene_name + " |"@ + cell_text(current, delta, SceneMetric::CPU) + cell_text(
        current,
        delta,
        SceneMetric::FPS,
    ) + cell_text(current, delta, SceneMetric::AvgTime) + cell_text(
        current,
        delta,
        SceneMetric::RenderTime,
    ) + cell_text(current, delta, SceneMetric::FlushTime) + "\n"@
}

/// The row of a scene that only the baseline has: its name, and in place of
/// every value the note that there is none, with the baseline's.
pub open spec fn gone_row_text(baseline: SceneView) -> Seq<char> {
    "| "@ + baseline.scene_name + " |"@ + gone_cell_text(baseline, SceneMetric::CPU)
        + gone_cell_text(baseline, SceneMetric::FPS) + gone_cell_text(
        baseline,
        SceneMetric::AvgTime,
    ) + gone_cell_text(baseline, SceneMetric::RenderTime) + gone_cell_text(
        baseline,
        SceneMetric::FlushTime,
    ) + "\n"@
}

/// How many rows the table of a board has: one for every current scene, and
/// one for every entry of the comparison behind them.
pub open spec fn row_count(current: Seq<SceneView>, delta: Seq<SceneView>) -> int {
    if delta.len() > current.len() {
        delta.len() as int
    } else {
        current.len() as int
    }
}

/// Row number `i` of the table of a board. The entry of the comparison at the
/// position of a current scene holds its changes; the entries behind the
/// current scenes are scenes that only the baseline has.
pub open spec fn nth_row_text(current: Seq<SceneView>, delta: Seq<SceneView>, i: int) -> Seq<char> {
    if i < current.len() {
        row_text(
            current[i],
            if i < delta.len() {
                Some(delta[i])
            } else {
                None
            },
        )
    } else {
        gone_row_text(delta[i])
    }
}

/// The first `upto` rows of the table of a board.
pub open spec fn rows_text(current: Seq<SceneView>, delta: Seq<SceneView>, upto: int) -> Seq<char>
    decreases upto,
{
    if upto <= 0 {
        Seq::empty()
    } else {
        rows_text(current, delta, upto - 1) + nth_row_text(current, delta, upto - 1)
    }
}

/// The heading of a board: its name, and its tags where it has any.
pub open spec fn heading_text(board: BoardConfigView) -> Seq<char> {
    "\n#### "@ + board.name + if board.tags.len() > 0 {
        " - "@ + joined(board.tags, ", "@)
    } else {
        Seq::empty()
    } + "\n\n"@
}

/// The part of the report that shows one board: heading, table head, rows.
pub open spec fn section_text(report: BoardReportView) -> Seq<char> {
    heading_text(report.0) + table_head_text() + rows_text(
        report.1,
        report.2,
        row_count(report.1, report.2),
    )
}

/// The parts of the report that show the first `upto` boards.
pub open spec fn sections_text(reports: Seq<BoardReportView>, upto: int) -> Seq<char>
    decreases upto,
{
    if upto <= 0 {
        Seq::empty()
    } else {
        sections_text(reports, upto - 1) + section_text(reports[upto - 1])
    }
}

/// The report: the title, and one part for every board in the order given.
pub open spec fn comment_text(reports: Seq<BoardReportView>) -> Seq<char> {
    title_text() + sections_text(reports, reports.len() as int)
}

/// The value of a scene that may be absent.
pub open spec fn view_of(scene: Option<&Scene>) -> Option<SceneView> {
    match scene {
        Some(s) => Some(s@),
        None => None,
    }
}

/// Appends one cell of a row.
pub fn push_cell(out: &mut String, current: &Scene, delta: Option<&Scene>, metric: &SceneMetric)
    ensures
        final(out)@ == old(out)@ + cell_text(current@, view_of(delta), *metric),
{
    out.append(" ");
    push_int(out, current.get_value(metric));
    match delta {
        Some(d) => {
            out.append(" (");
            push_signed(out, d.get_value(metric));
            out.append(")");
        },
        None => {},
    }
    out.append(" |");
    assert(out@ == old(out)@ + cell_text(current@, view_of(delta), *metric));
}

/// Appends one cell of the row of a scene that only the baseline has.
pub fn push_gone_cell(out: &mut String, baseline: &Scene, metric: &SceneMetric)
    ensures
        final(out)@ == old(out)@ + gone_cell_text(baseline@, *metric),
{
    out.append(" N/A (was ");
    push_int(out, baseline.get_value(metric));
    out.append(") |");
    assert(out@ == old(out)@ + gone_cell_text(baseline@, *metric));
}

/// Appends the row of a current scene.
pub fn push_row(out: &mut String, current: &Scene, delta: Option<&Scene>)
    ensures
        final(out)@ == old(out)@ + row_text(current@, view_of(delta)),
{
    out.append("| ");
    out.append(current.scene_name.as_str());
    out.append(" |");
    push_cell(out, current, delta, &SceneMetric::CPU);
    push_cell(out, current, delta, &SceneMetric::FPS);
    push_cell(out, current, delta, &SceneMetric::AvgTime);
    push_cell(out, current, delta, &SceneMetric::RenderTime);
    push_cell(out, current, delta, &SceneMetric::FlushTime);
    out.append("\n");
    assert(out@ == old(out)@ + row_text(current@, view_of(delta)));
}

/// Appends the row of a scene that only the baseline has.
pub fn push_gone_row(out: &mut String, baseline: &Scene)
    ensures
        final(out)@ == old(out)@ + gone_row_text(baseline@),
{
    out.append("| ");
    out.append(baseline.scene_name.as_str());
    out.append(" |");
    push_gone_cell(out, baseline, &SceneMetric::CPU);
    push_gone_cell(out, baseline, &SceneMetric::FPS);
    push_gone_cell(out, baseline, &SceneMetric::AvgTime);
    push_gone_cell(out, baseline, &SceneMetric::RenderTime);
    push_gone_cell(out, baseline, &SceneMetric::FlushTime);
    out.append("\n");
    assert(out@ == old(out)@ + gone_row_text(baseline@));
}

/// Appends the heading of a board.
pub fn push_heading(out: &mut String, board: &BoardConfig)
    ensures
        final(out)@ == old(out)@ + heading_text(board@),
{
    let ghost tags = board.tags.deep_view();
    out.append("\n#### ");
    out.append(board.name.as_str());
    if board.tags.len() > 0 {
        out.append(" - ");
        let ghost before = out@;
        let mut k: usize = 0;
        assert(tags.take(0) == Seq::<Seq<char>>::empty());
        assert(before + Seq::<char>::empty() == before);
        while k < board.tags.len()
            invariant
                tags == board.tags.deep_view(),
                tags.len() == board.tags@.len(),
                k <= board.tags@.len(),
                out@ == before + joined(tags.take(k as int), ", "@),
            decreases board.tags@.len() - k,
        {
            proof {
                assert(tags[k as int] == board.tags@[k as int]@);
                assert(tags.take(k + 1).drop_last() == tags.take(k as int));
                assert(tags.take(k + 1).last() == tags[k as int]);
            }
            let ghost so_far = joined(tags.take(k as int), ", "@);
            if k > 0 {
                out.append(", ");
            } else {
                assert(so_far == Seq::<char>::empty());
            }
            out.append(board.tags[k].as_str());
            assert(out@ == before + joined(tags.take(k + 1), ", "@));
            k += 1;
        }
        assert(tags.take(board.tags@.len() as int) == tags);
    }
    out.append("\n\n");
    assert(out@ == old(out)@ + heading_text(board@));
}

/// Appends the part of the report that shows one board.
pub fn push_section(out: &mut String, report: &BoardReport)
    ensures
        final(out)@ == old(out)@ + section_text(report.deep_view()),
{
    let ghost current = report.1.deep_view();
    let ghost delta = report.2.deep_view();
    push_heading(out, &report.0);
    out.append(
        "| Scene Name | Avg CPU (%) | Avg FPS | Avg Time (ms) | Render Time (ms) | Flush Time (ms) |\n|---|---|---|---|---|---|\n",
    );
    let ghost before = out@;
    let rows = if report.2.len() > report.1.len() {
        report.2.len()
    } else {
        report.1.len()
    };
    let mut i: usize = 0;
    assert(before + Seq::<char>::empty() == before);
    while i < rows
        invariant
            current == report.1.deep_view(),
            delta == report.2.deep_view(),
            current.len() == report.1@.len(),
            delta.len() == report.2@.len(),
            rows == row_count(current, delta),
            i <= rows,
            out@ == before + rows_text(current, delta, i as int),
        decreases rows - i,
    {
        let ghost so_far = rows_text(current, delta, i as int);
        if i < report.1.len() {
            assert(current[i as int] == report.1@[i as int]@);
            if i < report.2.len() {
                assert(delta[i as int] == report.2@[i as int]@);
                push_row(out, &report.1[i], Some(&report.2[i]));
            } else {
                push_row(out, &report.1[i], None);
            }
        } else {
            assert(delta[i as int] == report.2@[i as int]@);
            push_gone_row(out, &report.2[i]);
        }
        assert(out@ == before + (so_far + nth_row_text(current, delta, i as int)));
        i += 1;
    }
    assert(out@ == old(out)@ + section_text(report.deep_view()));
}

/// Writes the report on the results of a run: for every board, in the order
/// given, a table with one row for every current scene, in their order, that
/// shows each value with its change against the baseline, and behind them
/// one row for every scene that only the baseline has.
pub fn generate_comment(results: &Vec<BoardReport>) -> (comment: String)
    ensures
        comment@ == comment_text(results.deep_view()),
{
    let ghost reports = results.deep_view();
    let mut out = "## Benchmark Results\n".to_owned();
    let mut b: usize = 0;
    assert(title_text() + Seq::<char>::empty() == title_text());
    while b < results.len()
        invariant
            reports == results.deep_view(),
            reports.len() == results@.len(),
            b <= results@.len(),
            out@ == title_text() + sections_text(reports, b as int),
        decreases results@.len() - b,
    {
        let ghost so_far = sections_text(reports, b as int);
        assert(reports[b as int] == results@[b as int].deep_view());
        push_section(&mut out, &results[b]);
        assert(out@ == title_text() + (so_far + section_text(reports[b as int])));
        b += 1;
    }
    out
}

/// Row number `i` of a board's table occurs in its first `upto` rows, where
/// `i` is below `upto`.
pub proof fn lemma_rows_show_row(
    current: Seq<SceneView>,
    delta: Seq<SceneView>,
    upto: int,
    i: int,
)
    requires
        0 <= i < upto,
    ensures
        occurs_in(nth_row_text(current, delta, i), rows_text(current, delta, upto)),
    decreases upto,
{
    let before = rows_text(current, delta, upto - 1);
    let last = nth_row_text(current, delta, upto - 1);
    if i == upto - 1 {
        lemma_occurs_at_end(before, last);
    } else {
        lemma_rows_show_row(current, delta, upto - 1, i);
        lemma_occurs_before(nth_row_text(current, delta, i), before, last);
    }
}

/// The part that shows board number `b` occurs in the parts of the first
/// `upto` boards, where `b` is below `upto`.
pub proof fn lemma_sections_show_section(reports: Seq<BoardReportView>, upto: int, b: int)
    requires
        0 <= b < upto,
    ensures
        occurs_in(section_text(reports[b]), sections_text(reports, upto)),
    decreases upto,
{
    let before = sections_text(reports, upto - 1);
    let last = section_text(reports[upto - 1]);
    if b == upto - 1 {
        lemma_occurs_at_end(before, last);
    } else {
        lemma_sections_show_section(reports, upto - 1, b);
        lemma_occurs_before(section_text(reports[b]), before, last);
    }
}

/// The report shows every scene: for every board, the row of each of its
/// current scenes, with the scene's name, its values and their changes, and
/// the row of each scene that only the baseline has, stand in the report as
/// they are.
pub proof fn lemma_comment_shows_row(reports: Seq<BoardReportView>, b: int, i: int)
    requires
        0 <= b < reports.len(),
        0 <= i < row_count(reports[b].1, reports[b].2),
    ensures
        occurs_in(nth_row_text(reports[b].1, reports[b].2, i), comment_text(reports)),
{
    let current = reports[b].1;
    let delta = reports[b].2;
    let row = nth_row_text(current, delta, i);
    let rows = rows_text(current, delta, row_count(current, delta));
    lemma_rows_show_row(current, delta, row_count(current, delta), i);
    lemma_occurs_behind(row, rows, heading_text(reports[b].0) + table_head_text());
    let section = section_text(reports[b]);
    assert(occurs_in(row, section));
    lemma_sections_show_section(reports, reports.len() as int, b);
    let sections = sections_text(reports, reports.len() as int);
    let at = choose|at: int| crate::text::occurs_at(section, sections, at);
    let before = sections.subrange(0, at);
    let after = sections.subrange(at + section.len(), sections.len() as int);
    assert(sections == before + section + after);
    lemma_occurs_behind(row, section, before);
    lemma_occurs_before(row, before + section, after);
    lemma_occurs_behind(row, sections, title_text());
}

/// The mark that stands for `signature` at the end of a report. A reader of
/// the rendered report does not see it.
pub open spec fn signature_text(signature: Seq<char>) -> Seq<char> {
    "\n<!-- "@ + signature + " -->"@
}

/// Puts the mark of `signature` behind `comment`, so that the report is
/// found again among the comments of a pull request.
pub fn add_comment_signature(comment: String, signature: &str) -> (signed: String)
    ensures
        signed@ == comment@ + signature_text(signature@),
{
    let mut signed = comment;
    signed.append("\n<!-- ");
    signed.append(signature);
    signed.append(" -->");
    assert(signed@ == comment@ + signature_text(signature@));
    signed
}

/// Whether the mark of `signature` stands in `body`.
pub fn has_comment_signature(body: &str, signature: &str) -> (found: bool)
    ensures
        found == occurs_in(signature_text(signature@), body@),
{
    let mark = add_comment_signature(String::new(), signature);
    assert(mark@ == signature_text(signature@));
    contains_text(to_chars(body).as_slice(), to_chars(mark.as_str()).as_slice())
}

/// A report that was given the mark of a signature is found by it.
pub proof fn lemma_signature_found(comment: Seq<char>, signature: Seq<char>)
    ensures
        occurs_in(signature_text(signature), comment + signature_text(signature)),
{
    lemma_occurs_at_end(comment, signature_text(signature));
}

} // verus!
