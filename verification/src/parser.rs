use crate::board::{BoardConfig, BoardConfigView};
use crate::error::{Error, ErrorView};
use crate::number::{parse_i32, parse_i32_text};
use crate::scene::{Scene, SceneView};
use crate::text::{
    is_free_of, joined, lemma_split_joined, split, split_on, starts_with, texts, to_chars, to_text,
    trim, trimmed,
};
use vstd::prelude::*;

verus! {

/// Where the reader stands in a report.
#[derive(Debug, Clone, Copy, PartialEq, Eq, Structural)]
pub enum Phase {
    /// The table has not begun: lines are passed over.
    Preamble,
    /// The table's title was seen: the next line holds the column headings.
    Header,
    /// The headings were seen: lines are data rows.
    Rows,
}

/// The least number of columns of a data row.
pub const MIN_COLUMNS: usize = 6;

/// The text with which the table's title line begins.
pub open spec fn marker() -> Seq<char> {
    "Benchmark Summary"@
}

/// Whether `line` is a title line of the table.
pub open spec fn is_marker_line(line: Seq<char>) -> bool {
    marker().is_prefix_of(line)
}

/// The columns of a line: its text without surrounding whitespace, cut at
/// every comma.
pub open spec fn columns(line: Seq<char>) -> Seq<Seq<char>> {
    split_on(trimmed(line), ',')
}

/// Whether `line` has the columns of a data row.
pub open spec fn is_row(line: Seq<char>) -> bool {
    columns(line).len() >= MIN_COLUMNS
}

/// Whether `text` ends with a percent sign.
pub open spec fn has_percent(text: Seq<char>) -> bool {
    text.len() > 0 && text.last() == '%'
}

/// The integer in column `col`, whitespace around it set aside, or the error
/// that names the data row, the column and the column's text.
pub open spec fn int_column(cols: Seq<Seq<char>>, row: nat, col: nat) -> Result<int, ErrorView> {
    match parse_i32_text(trimmed(cols[col as int])) {
        Ok(v) => Ok(v),
        Err(kind) => Err(ErrorView::ParseIntFailed(row, col, cols[col as int], kind)),
    }
}

/// The columns with the percent sign taken off the end of the second.
pub open spec fn without_percent(cols: Seq<Seq<char>>) -> Seq<Seq<char>> {
    cols.update(1, cols[1].drop_last())
}

/// The scene that the columns of data row number `row` describe. The first
/// column is the name as it stands. The second must end with a percent sign.
/// The second to the sixth are integers; of several faults the leftmost is
/// reported. Columns behind the sixth are not read.
pub open spec fn row_scene(cols: Seq<Seq<char>>, row: nat) -> Result<SceneView, ErrorView> {
    let c = without_percent(cols);
    if !has_percent(cols[1]) {
        Err(ErrorView::InvalidResultColumn(row, 1, cols[1]))
    } else if int_column(c, row, 1) is Err {
        Err(int_column(c, row, 1)->Err_0)
    } else if int_column(c, row, 2) is Err {
        Err(int_column(c, row, 2)->Err_0)
    } else if int_column(c, row, 3) is Err {
        Err(int_column(c, row, 3)->Err_0)
    } else if int_column(c, row, 4) is Err {
        Err(int_column(c, row, 4)->Err_0)
    } else if int_column(c, row, 5) is Err {
        Err(int_column(c, row, 5)->Err_0)
    } else {
        Ok(
            SceneView {
                scene_name: c[0],
                avg_cpu: int_column(c, row, 1)->Ok_0,
                avg_fps: int_column(c, row, 2)->Ok_0,
                avg_time: int_column(c, row, 3)->Ok_0,
                render_time: int_column(c, row, 4)->Ok_0,
                flush_time: int_column(c, row, 5)->Ok_0,
            },
        )
    }
}

/// What reading `lines` from line `i` on yields, in phase `phase` and with the
/// scenes `acc` read so far.
///
/// Lines are passed over up to the first title line, which opens the table.
/// The line behind it holds the headings and is passed over whatever it
/// holds. From then on every line is judged by its columns alone: one with
/// fewer than six ends the table, and every other is a data row whose number
/// is the count of scenes read before it. The first faulty row fails the
/// whole. The title text means nothing behind the title line.
pub open spec fn scenes_from(
    lines: Seq<Seq<char>>,
    i: int,
    phase: Phase,
    acc: Seq<SceneView>,
) -> Result<Seq<SceneView>, ErrorView>
    decreases lines.len() - i,
{
    if i < 0 || i >= lines.len() {
        Ok(acc)
    } else {
        match phase {
            Phase::Preamble => scenes_from(
                lines,
                i + 1,
                if is_marker_line(lines[i]) {
                    Phase::Header
                } else {
                    Phase::Preamble
                },
                acc,
            ),
            Phase::Header => scenes_from(lines, i + 1, Phase::Rows, acc),
            Phase::Rows => if !is_row(lines[i]) {
                Ok(acc)
            } else {
                match row_scene(columns(lines[i]), acc.len()) {
                    Ok(scene) => scenes_from(lines, i + 1, Phase::Rows, acc.push(scene)),
                    Err(e) => Err(e),
                }
            },
        }
    }
}

/// The scenes of the report in `lines`, read from its first line.
pub open spec fn scenes_of_lines(lines: Seq<Seq<char>>) -> Result<Seq<SceneView>, ErrorView> {
    scenes_from(lines, 0, Phase::Preamble, Seq::empty())
}

/// The scenes of the report `text`, whose lines end with a line feed.
pub open spec fn scenes_of(text: Seq<char>) -> Result<Seq<SceneView>, ErrorView> {
    scenes_of_lines(split_on(text, '\n'))
}

/// Whether `r` is what [`parse_scenes`] returns for the report `text`.
pub open spec fn is_parse_of(text: Seq<char>, r: Result<Vec<Scene>, Error>) -> bool {
    match r {
        Ok(scenes) => scenes_of(text) == Ok::<Seq<SceneView>, ErrorView>(scenes.deep_view()),
        Err(e) => scenes_of(text) == Err::<Seq<SceneView>, ErrorView>(e@),
    }
}

/// Whether every line of `rows` is a data row that reads as a scene, the
/// first as row 0.
pub open spec fn are_rows(rows: Seq<Seq<char>>) -> bool {
    forall|k: int|
        0 <= k < rows.len() ==> is_row(#[trigger] rows[k]) && row_scene(
            columns(rows[k]),
            k as nat,
        ) is Ok
}

/// The scenes of the data rows `rows`, one for each and in their order.
pub open spec fn row_scenes(rows: Seq<Seq<char>>) -> Seq<SceneView> {
    Seq::new(rows.len(), |k: int| row_scene(columns(rows[k]), k as nat)->Ok_0)
}

/// A report up to its last data row: lines before the table, the title line,
/// the headings, and the data rows.
pub open spec fn table_lines(
    preamble: Seq<Seq<char>>,
    title: Seq<char>,
    header: Seq<char>,
    rows: Seq<Seq<char>>,
) -> Seq<Seq<char>> {
    preamble + seq![title, header] + rows
}

/// Whether the lines are those of a table with its surroundings: no line of
/// the preamble is a title line, `title` is one, and `rows` are data rows
/// that read as scenes. The headings may be any line.
pub open spec fn is_table(
    preamble: Seq<Seq<char>>,
    title: Seq<char>,
    rows: Seq<Seq<char>>,
) -> bool {
    &&& forall|i: int| 0 <= i < preamble.len() ==> !is_marker_line(#[trigger] preamble[i])
    &&& is_marker_line(title)
    &&& are_rows(rows)
}

/// Lines before the table that are no title lines are passed over.
proof fn lemma_skip_preamble(lines: Seq<Seq<char>>, k: int, p: int, acc: Seq<SceneView>)
    requires
        0 <= k <= p <= lines.len(),
        forall|j: int| 0 <= j < p ==> !is_marker_line(#[trigger] lines[j]),
    ensures
        scenes_from(lines, k, Phase::Preamble, acc) == scenes_from(lines, p, Phase::Preamble, acc),
    decreases p - k,
{
    if k < p {
        lemma_skip_preamble(lines, k + 1, p, acc);
    }
}

/// Data rows that read as scenes are read one after the other, each adding
/// its scene.
proof fn lemma_read_rows(lines: Seq<Seq<char>>, start: int, rows: Seq<Seq<char>>, k: int)
    requires
        0 <= start,
        0 <= k <= rows.len(),
        start + rows.len() <= lines.len(),
        forall|j: int| 0 <= j < rows.len() ==> #[trigger] lines[start + j] == rows[j],
        are_rows(rows),
    ensures
        scenes_from(lines, start + k, Phase::Rows, row_scenes(rows).take(k)) == scenes_from(
            lines,
            start + rows.len(),
            Phase::Rows,
            row_scenes(rows),
        ),
    decreases rows.len() - k,
{
    if k < rows.len() {
        assert(lines[start + k] == rows[k]);
        assert(row_scenes(rows).take(k).push(row_scenes(rows)[k]) == row_scenes(rows).take(k + 1));
        lemma_read_rows(lines, start, rows, k + 1);
    } else {
        assert(row_scenes(rows).take(k) == row_scenes(rows));
    }
}

/// Reading a report whose table has the data rows `rows` comes to the line
/// behind the last of them with one scene for each row, in their order,
/// whatever stands before the title line and whatever follows the rows.
pub proof fn lemma_table_read(
    preamble: Seq<Seq<char>>,
    title: Seq<char>,
    header: Seq<char>,
    rows: Seq<Seq<char>>,
    rest: Seq<Seq<char>>,
)
    requires
        is_table(preamble, title, rows),
    ensures
        scenes_of_lines(table_lines(preamble, title, header, rows) + rest) == scenes_from(
            table_lines(preamble, title, header, rows) + rest,
            table_lines(preamble, title, header, rows).len() as int,
            Phase::Rows,
            row_scenes(rows),
        ),
{
    let lines = table_lines(preamble, title, header, rows) + rest;
    let p = preamble.len() as int;
    assert forall|j: int| 0 <= j < p implies !is_marker_line(#[trigger] lines[j]) by {
        assert(lines[j] == preamble[j]);
    }
    lemma_skip_preamble(lines, 0, p, Seq::empty());
    assert(lines[p] == title);
    assert(lines[p + 1] == header);
    assert forall|j: int| 0 <= j < rows.len() implies #[trigger] lines[p + 2 + j] == rows[j] by {}
    let none = Seq::<SceneView>::empty();
    assert(scenes_from(lines, p, Phase::Preamble, none) == scenes_from(
        lines,
        p + 1,
        Phase::Header,
        none,
    ));
    assert(scenes_from(lines, p + 1, Phase::Header, none) == scenes_from(
        lines,
        p + 2,
        Phase::Rows,
        none,
    ));
    assert(row_scenes(rows).take(0) == none);
    lemma_read_rows(lines, p + 2, rows, 0);
    assert(table_lines(preamble, title, header, rows).len() == p + 2 + rows.len());
}

/// A table of N data rows reads as N scenes, in the order of the rows,
/// whatever stands before the title line. The table ends with the report or
/// with a line of fewer than six columns, behind which anything may stand.
pub proof fn lemma_table_scenes(
    preamble: Seq<Seq<char>>,
    title: Seq<char>,
    header: Seq<char>,
    rows: Seq<Seq<char>>,
    rest: Seq<Seq<char>>,
)
    requires
        is_table(preamble, title, rows),
        rest.len() > 0 ==> !is_row(rest[0]),
    ensures
        scenes_of_lines(table_lines(preamble, title, header, rows) + rest) == Ok::<
            Seq<SceneView>,
            ErrorView,
        >(row_scenes(rows)),
        row_scenes(rows).len() == rows.len(),
{
    lemma_table_read(preamble, title, header, rows, rest);
    let table = table_lines(preamble, title, header, rows);
    if rest.len() > 0 {
        assert((table + rest)[table.len() as int] == rest[0]);
    }
}

/// The text of a report with the lines `lines`: a line feed stands between
/// one line and the next.
pub open spec fn report_text(lines: Seq<Seq<char>>) -> Seq<char> {
    joined(lines, seq!['\n'])
}

/// The scenes of a report are those of its lines: what holds of reading the
/// lines holds of reading the text in which a line feed ends each of them.
pub proof fn lemma_report_lines(lines: Seq<Seq<char>>)
    requires
        lines.len() > 0,
        forall|i: int| 0 <= i < lines.len() ==> is_free_of(#[trigger] lines[i], '\n'),
    ensures
        scenes_of(report_text(lines)) == scenes_of_lines(lines),
{
    lemma_split_joined(lines, '\n');
}

/// A report whose table has N data rows reads as N scenes, in the order of
/// the rows, whatever text stands before the title line. The table ends with
/// the report or with a line of fewer than six columns, behind which anything
/// may stand.
pub proof fn lemma_report_scenes(
    preamble: Seq<Seq<char>>,
    title: Seq<char>,
    header: Seq<char>,
    rows: Seq<Seq<char>>,
    rest: Seq<Seq<char>>,
)
    requires
        is_table(preamble, title, rows),
        rest.len() > 0 ==> !is_row(rest[0]),
        forall|i: int|
            0 <= i < (table_lines(preamble, title, header, rows) + rest).len() ==> is_free_of(
                #[trigger] (table_lines(preamble, title, header, rows) + rest)[i],
                '\n',
            ),
    ensures
        scenes_of(report_text(table_lines(preamble, title, header, rows) + rest)) == Ok::<
            Seq<SceneView>,
            ErrorView,
        >(row_scenes(rows)),
        row_scenes(rows).len() == rows.len(),
{
    let lines = table_lines(preamble, title, header, rows) + rest;
    lemma_split_joined(lines, '\n');
    lemma_table_scenes(preamble, title, header, rows, rest);
}

/// The first faulty data row fails the whole report with its own error,
/// whatever stands before the title line and whatever follows the row: no
/// scene is returned, and the row is not passed over.
pub proof fn lemma_faulty_row(
    preamble: Seq<Seq<char>>,
    title: Seq<char>,
    header: Seq<char>,
    rows: Seq<Seq<char>>,
    bad: Seq<char>,
    rest: Seq<Seq<char>>,
)
    requires
        is_table(preamble, title, rows),
        is_row(bad),
        row_scene(columns(bad), rows.len()) is Err,
    ensures
        scenes_of_lines(table_lines(preamble, title, header, rows) + seq![bad] + rest) == Err::<
            Seq<SceneView>,
            ErrorView,
        >(row_scene(columns(bad), rows.len())->Err_0),
{
    let table = table_lines(preamble, title, header, rows);
    lemma_table_read(preamble, title, header, rows, seq![bad] + rest);
    assert(table + (seq![bad] + rest) == table + seq![bad] + rest);
    assert((table + seq![bad] + rest)[table.len() as int] == bad);
}

/// A data row whose second column does not end with a percent sign fails the
/// whole report, with the error that names the row's index among the data
/// rows, the column 1, and the column's text as it stands.
pub proof fn lemma_missing_percent(
    preamble: Seq<Seq<char>>,
    title: Seq<char>,
    header: Seq<char>,
    rows: Seq<Seq<char>>,
    bad: Seq<char>,
    rest: Seq<Seq<char>>,
)
    requires
        is_table(preamble, title, rows),
        is_row(bad),
        !has_percent(columns(bad)[1]),
    ensures
        scenes_of_lines(table_lines(preamble, title, header, rows) + seq![bad] + rest) == Err::<
            Seq<SceneView>,
            ErrorView,
        >(ErrorView::InvalidResultColumn(rows.len(), 1, columns(bad)[1])),
{
    lemma_faulty_row(preamble, title, header, rows, bad, rest);
}

/// A report that ends with its title line holds no scene, and is no error.
pub proof fn lemma_title_at_the_end(preamble: Seq<Seq<char>>, title: Seq<char>)
    requires
        forall|i: int| 0 <= i < preamble.len() ==> !is_marker_line(#[trigger] preamble[i]),
        is_marker_line(title),
    ensures
        scenes_of_lines(preamble + seq![title]) == Ok::<Seq<SceneView>, ErrorView>(Seq::empty()),
{
    let lines = preamble + seq![title];
    let p = preamble.len() as int;
    let none = Seq::<SceneView>::empty();
    assert forall|j: int| 0 <= j < p implies !is_marker_line(#[trigger] lines[j]) by {
        assert(lines[j] == preamble[j]);
    }
    lemma_skip_preamble(lines, 0, p, none);
    assert(lines[p] == title);
    assert(scenes_from(lines, p, Phase::Preamble, none) == scenes_from(
        lines,
        p + 1,
        Phase::Header,
        none,
    ));
}

/// A report none of whose lines is a title line holds no scene, and is no
/// error.
pub proof fn lemma_no_table(text: Seq<char>)
    requires
        forall|i: int|
            0 <= i < split_on(text, '\n').len() ==> !is_marker_line(
                #[trigger] split_on(text, '\n')[i],
            ),
    ensures
        scenes_of(text) == Ok::<Seq<SceneView>, ErrorView>(Seq::empty()),
{
    let lines = split_on(text, '\n');
    lemma_skip_preamble(lines, 0, lines.len() as int, Seq::empty());
}

/// Reads column `col_num` of data row `line_num` as an integer.
fn parse_int_col(cols: &Vec<&[char]>, line_num: usize, col_num: usize) -> (r: Result<
    i32,
    Error,
>)
    requires
        col_num < cols@.len(),
    ensures
        match r {
            Ok(v) => int_column(texts(cols@), line_num as nat, col_num as nat) == Ok::<
                int,
                ErrorView,
            >(v as int),
            Err(e) => int_column(texts(cols@), line_num as nat, col_num as nat) == Err::<
                int,
                ErrorView,
            >(e@),
        },
{
    match parse_i32(trim(cols[col_num])) {
        Ok(v) => Ok(v),
        Err(kind) => Err(Error::ParseIntFailed(line_num, col_num, to_text(cols[col_num]), kind)),
    }
}

/// Reads the columns of data row `line_num` as a scene.
fn parse_row(cols: Vec<&[char]>, line_num: usize) -> (r: Result<Scene, Error>)
    requires
        cols@.len() >= MIN_COLUMNS,
    ensures
        match r {
            Ok(scene) => row_scene(texts(cols@), line_num as nat) == Ok::<SceneView, ErrorView>(
                scene@,
            ),
            Err(e) => row_scene(texts(cols@), line_num as nat) == Err::<SceneView, ErrorView>(e@),
        },
{
    let mut cols = cols;
    let ghost given = texts(cols@);
    let second = cols[1];
    let len = second.len();
    if len == 0 || second[len - 1] != '%' {
        return Err(Error::InvalidResultColumn(line_num, 1, to_text(second)));
    }
    cols.set(1, vstd::slice::slice_subrange(second, 0, len - 1));
    assert(texts(cols@) == without_percent(given));
    let avg_cpu = match parse_int_col(&cols, line_num, 1) {
        Ok(v) => v,
        Err(e) => {
            return Err(e);
        },
    };
    let avg_fps = match parse_int_col(&cols, line_num, 2) {
        Ok(v) => v,
        Err(e) => {
            return Err(e);
        },
    };
    let avg_time = match parse_int_col(&cols, line_num, 3) {
        Ok(v) => v,
        Err(e) => {
            return Err(e);
        },
    };
    let render_time = match parse_int_col(&cols, line_num, 4) {
        Ok(v) => v,
        Err(e) => {
            return Err(e);
        },
    };
    let flush_time = match parse_int_col(&cols, line_num, 5) {
        Ok(v) => v,
        Err(e) => {
            return Err(e);
        },
    };
    Ok(Scene { scene_name: to_text(cols[0]), avg_cpu, avg_fps, avg_time, render_time, flush_time })
}

/// Reads the scenes of a benchmark report.
///
/// Whatever stands before the table is passed over, so the whole output of a
/// benchmark may be handed in. A report without a table holds no scene. The
/// table begins with the first line that begins with `Benchmark Summary`;
/// the line behind it holds the headings; the rows follow up to the first
/// line of fewer than six columns, behind which anything may stand.
pub fn parse_scenes(result: &str) -> (r: Result<Vec<Scene>, Error>)
    ensures
        is_parse_of(result@, r),
{
    let text = to_chars(result);
    let lines = split(text.as_slice(), '\n');
    let title = to_chars("Benchmark Summary");
    let mut phase = Phase::Preamble;
    let mut scenes: Vec<Scene> = Vec::new();
    let mut i: usize = 0;
    assert(scenes.deep_view() == Seq::<SceneView>::empty());
    while i < lines.len()
        invariant
            i <= lines@.len(),
            title@ == marker(),
            texts(lines@) == split_on(result@, '\n'),
            scenes_of(result@) == scenes_from(texts(lines@), i as int, phase, scenes.deep_view()),
        decreases lines@.len() - i,
    {
        let line = lines[i];
        match phase {
            Phase::Preamble => {
                if starts_with(line, title.as_slice()) {
                    phase = Phase::Header;
                }
            },
            Phase::Header => {
                phase = Phase::Rows;
            },
            Phase::Rows => {
                let cols = split(trim(line), ',');
                if cols.len() < MIN_COLUMNS {
                    return Ok(scenes);
                }
                let ghost before = scenes.deep_view();
                match parse_row(cols, scenes.len()) {
                    Ok(scene) => {
                        scenes.push(scene);
                        assert(scenes.deep_view() == before.push(scene@));
                    },
                    Err(e) => {
                        return Err(e);
                    },
                }
            },
        }
        i += 1;
    }
    Ok(scenes)
}

/// Whether `r` is what [`parse_run_result`] returns for the reports
/// `results`: every board with the scenes of its report, in the order given,
/// where every report reads; else the error of the first report that does
/// not.
pub open spec fn is_run_parse_of(
    results: Seq<(BoardConfigView, Seq<char>)>,
    r: Result<Vec<(BoardConfig, Vec<Scene>)>, Error>,
) -> bool {
    match r {
        Ok(boards) => {
            &&& boards.deep_view().len() == results.len()
            &&& forall|i: int|
                0 <= i < results.len() ==> (#[trigger] boards.deep_view()[i]).0 == results[i].0
                    && scenes_of(results[i].1) == Ok::<Seq<SceneView>, ErrorView>(
                    boards.deep_view()[i].1,
                )
        },
        Err(e) => exists|k: int|
            {
                &&& 0 <= k < results.len()
                &&& #[trigger] scenes_of(results[k].1) == Err::<Seq<SceneView>, ErrorView>(e@)
                &&& forall|j: int| 0 <= j < k ==> (#[trigger] scenes_of(results[j].1)) is Ok
            },
    }
}

/// Reads the reports of a run, one for each board.
pub fn parse_run_result(results: Vec<(BoardConfig, String)>) -> (r: Result<
    Vec<(BoardConfig, Vec<Scene>)>,
    Error,
>)
    ensures
        is_run_parse_of(results.deep_view(), r),
{
    let ghost reports = results.deep_view();
    let ghost given = results@;
    let mut boards: Vec<(BoardConfig, Vec<Scene>)> = Vec::new();
    for entry in it: results
        invariant
            it.seq() == given,
            reports == results.deep_view(),
            reports.len() == given.len(),
            forall|k: int| 0 <= k < given.len() ==> #[trigger] reports[k] == given[k].deep_view(),
            boards.deep_view().len() == it.index(),
            forall|k: int|
                0 <= k < it.index() ==> (#[trigger] boards.deep_view()[k]).0 == reports[k].0
                    && scenes_of(reports[k].1) == Ok::<Seq<SceneView>, ErrorView>(
                    boards.deep_view()[k].1,
                ),
    {
        let ghost i = it.index() as int;
        let ghost before = boards.deep_view();
        let (board_config, report) = entry;
        assert(reports[i] == (board_config@, report@));
        match parse_scenes(report.as_str()) {
            Ok(scenes) => {
                let ghost next = (board_config@, scenes.deep_view());
                boards.push((board_config, scenes));
                assert(boards.deep_view() == before.push(next));
            },
            Err(e) => {
                assert(scenes_of(reports[i].1) == Err::<Seq<SceneView>, ErrorView>(e@));
                assert forall|j: int| 0 <= j < i implies (#[trigger] scenes_of(
                    reports[j].1,
                )) is Ok by {
                    assert(boards.deep_view()[j].0 == reports[j].0);
                }
                return Err(e);
            },
        }
    }
    Ok(boards)
}

} // verus!
