use crate::error::{Error, ErrorView};
use crate::scene::{Scene, SceneMetric, SceneView};
use crate::text::joined;
use vstd::prelude::*;
use vstd::string::StringExecFns;

verus! {

/// A named group of scenes: one run among those that a chart compares.
#[derive(Debug, PartialEq, Eq)]
pub struct RunResult {
    run_name: String,
    scenes: Vec<Scene>,
}

/// The mathematical value of a [`RunResult`].
pub struct RunResultView {
    pub run_name: Seq<char>,
    pub scenes: Seq<SceneView>,
}

impl View for RunResult {
    type V = RunResultView;

    closed spec fn view(&self) -> RunResultView {
        RunResultView { run_name: self.run_name@, scenes: self.scenes.deep_view() }
    }
}

impl RunResult {
    /// The run named `name` with the scenes `results`.
    pub fn new(name: &str, results: Vec<Scene>) -> (run: Self)
        ensures
            run@ == (RunResultView { run_name: name@, scenes: results.deep_view() }),
    {
        Self { run_name: name.to_owned(), scenes: results }
    }
}

/// A color by its red, green and blue parts.
#[derive(Debug, Clone, Copy, PartialEq, Eq, Structural)]
pub struct Rgb {
    pub r: u8,
    pub g: u8,
    pub b: u8,
}

/// How many colors the palette holds.
pub const PALETTE_SIZE: usize = 9;

/// The palette from which runs get their colors: muted red, green and blue,
/// warm yellow, muted cyan, soft magenta, tangerine, teal and lilac.
pub open spec fn palette() -> Seq<Rgb> {
    seq![
        Rgb { r: 220, g: 80, b: 80 },
        Rgb { r: 100, g: 180, b: 100 },
        Rgb { r: 100, g: 150, b: 230 },
        Rgb { r: 240, g: 210, b: 90 },
        Rgb { r: 100, g: 200, b: 200 },
        Rgb { r: 200, g: 100, b: 200 },
        Rgb { r: 255, g: 160, b: 90 },
        Rgb { r: 90, g: 180, b: 180 },
        Rgb { r: 180, g: 140, b: 210 },
    ]
}

/// The colors of the palette, in order.
pub fn colors() -> (out: Vec<Rgb>)
    ensures
        out@ == palette(),
{
    let mut out: Vec<Rgb> = Vec::new();
    out.push(Rgb { r: 220, g: 80, b: 80 });
    out.push(Rgb { r: 100, g: 180, b: 100 });
    out.push(Rgb { r: 100, g: 150, b: 230 });
    out.push(Rgb { r: 240, g: 210, b: 90 });
    out.push(Rgb { r: 100, g: 200, b: 200 });
    out.push(Rgb { r: 200, g: 100, b: 200 });
    out.push(Rgb { r: 255, g: 160, b: 90 });
    out.push(Rgb { r: 90, g: 180, b: 180 });
    out.push(Rgb { r: 180, g: 140, b: 210 });
    assert(out@ == palette());
    out
}

/// One color for each of `run_count` runs, by position: the palette, and
/// behind it the palette again as often as it takes. There are never fewer
/// colors than the palette holds.
pub fn run_colors(run_count: usize) -> (out: Vec<Rgb>)
    ensures
        out@.len() == if run_count > PALETTE_SIZE {
            run_count
        } else {
            PALETTE_SIZE
        },
        forall|k: int| 0 <= k < out@.len() ==> #[trigger] out@[k] == palette()[k % 9],
{
    let mut out = colors();
    let mut i: usize = 0;
    while run_count > out.len()
        invariant
            out@.len() >= PALETTE_SIZE,
            out@.len() <= run_count || out@.len() == PALETTE_SIZE,
            i < out@.len(),
            i == out@.len() - PALETTE_SIZE,
            forall|k: int| 0 <= k < out@.len() ==> #[trigger] out@[k] == palette()[k % 9],
        decreases run_count - out@.len(),
    {
        let color = out[i];
        out.push(color);
        proof {
            vstd::arithmetic::div_mod::lemma_small_mod((i + 1) as nat, out@.len());
        }
        i = (i + 1) % out.len();
    }
    out
}

/// The largest of `least` and the numbers of `values`.
pub open spec fn largest(values: Seq<int>, least: int) -> int
    decreases values.len(),
{
    if values.len() == 0 {
        least
    } else {
        let before = largest(values.drop_last(), least);
        if values.last() > before {
            values.last()
        } else {
            before
        }
    }
}

/// [`largest`] is no less than `least` and than every number of `values`, and
/// it is one of them.
pub proof fn lemma_largest(values: Seq<int>, least: int)
    ensures
        largest(values, least) >= least,
        forall|i: int| 0 <= i < values.len() ==> largest(values, least) >= #[trigger] values[i],
        largest(values, least) == least || values.contains(largest(values, least)),
    decreases values.len(),
{
    if values.len() > 0 {
        let init = values.drop_last();
        lemma_largest(init, least);
        assert forall|i: int| 0 <= i < values.len() implies largest(values, least)
            >= #[trigger] values[i] by {
            if i < init.len() {
                assert(init[i] == values[i]);
            }
        }
        let m = largest(init, least);
        if values.last() > m {
            assert(values[values.len() - 1] == values.last());
        } else if m != least {
            let k = choose|k: int| 0 <= k < init.len() && init[k] == m;
            assert(values[k] == m);
        }
    }
}

/// What `metric` measures in each of `scenes`.
pub open spec fn metric_values(scenes: Seq<SceneView>, metric: SceneMetric) -> Seq<int> {
    scenes.map_values(|s: SceneView| s.value(metric))
}

/// The largest value of `metric` among `scenes`, and zero where none is
/// above it.
pub fn get_max_value(scenes: &Vec<Scene>, metric: &SceneMetric) -> (max: i32)
    ensures
        max == largest(metric_values(scenes.deep_view(), *metric), 0),
{
    let ghost values = metric_values(scenes.deep_view(), *metric);
    let mut max: i32 = 0;
    let mut i: usize = 0;
    assert(values.take(0) == Seq::<int>::empty());
    while i < scenes.len()
        invariant
            i <= scenes@.len(),
            values == metric_values(scenes.deep_view(), *metric),
            values.len() == scenes@.len(),
            max == largest(values.take(i as int), 0),
        decreases scenes@.len() - i,
    {
        let value = scenes[i].get_value(metric);
        proof {
            assert(scenes.deep_view()[i as int] == scenes@[i as int]@);
            assert(values.take(i + 1).drop_last() == values.take(i as int));
        }
        if value > max {
            max = value;
        }
        i += 1;
    }
    assert(values.take(scenes@.len() as int) == values);
    max
}

/// The runs that a slice of run results stands for.
pub open spec fn runs_of(results: Seq<RunResult>) -> Seq<RunResultView> {
    results.map_values(|run: RunResult| run@)
}

/// The first position at or behind `from` at which `a` and `b` do not hold
/// scenes of one name: where the names differ, or where one of the two ends.
pub open spec fn first_mismatch(a: Seq<SceneView>, b: Seq<SceneView>, from: int) -> int
    decreases a.len() - from,
{
    if from < 0 || from >= a.len() || from >= b.len() || a[from].scene_name
        != b[from].scene_name {
        from
    } else {
        first_mismatch(a, b, from + 1)
    }
}

/// The name of the scene that one of the two lacks at the first position at
/// which they differ: that of `a` there, or that of `b` where `a` has ended.
/// There is none where both hold the same names in the same order.
pub open spec fn missing_scene(a: Seq<SceneView>, b: Seq<SceneView>) -> Option<Seq<char>> {
    let i = first_mismatch(a, b, 0);
    if 0 <= i < a.len() {
        Some(a[i].scene_name)
    } else if 0 <= i < b.len() {
        Some(b[i].scene_name)
    } else {
        None
    }
}

/// The first run at or behind `from` whose scenes are not those of the first
/// run by name and order, or the number of runs where there is none.
pub open spec fn first_unaligned(runs: Seq<RunResultView>, from: int) -> int
    decreases runs.len() - from,
{
    if from < 0 || from >= runs.len() {
        runs.len() as int
    } else if missing_scene(runs[0].scenes, runs[from].scenes) is Some {
        from
    } else {
        first_unaligned(runs, from + 1)
    }
}

/// Why no chart can be laid out for `runs`, if that is so: there is no run,
/// or a run does not hold the scenes of the first run.
pub open spec fn chart_error(runs: Seq<RunResultView>) -> Option<ErrorView> {
    if runs.len() == 0 {
        Some(ErrorView::ResultSliceEmpty)
    } else {
        let r = first_unaligned(runs, 0);
        if r < runs.len() {
            Some(ErrorView::SceneMissing(missing_scene(runs[0].scenes, runs[r].scenes)->0))
        } else {
            None
        }
    }
}

/// Whether `a` and `b` hold scenes of the same names in the same order.
pub open spec fn same_scenes(a: Seq<SceneView>, b: Seq<SceneView>) -> bool {
    &&& a.len() == b.len()
    &&& forall|i: int| 0 <= i < a.len() ==> (#[trigger] a[i]).scene_name == b[i].scene_name
}

/// Whether every run holds the scenes of the first run, by name and order.
pub open spec fn aligned(runs: Seq<RunResultView>) -> bool {
    forall|r: int| 0 <= r < runs.len() ==> same_scenes(runs[0].scenes, (#[trigger] runs[r]).scenes)
}

/// The width of a bar along the scene axis.
pub const BAR_WIDTH: u64 = 2;

/// The gap between the bars of one scene and those of the next.
pub const SCENE_GAP: u64 = 1;

/// How far behind the longest bar of a scene its name stands.
pub const LABEL_MARGIN: i64 = 10;

/// The room that one scene takes along the scene axis: a bar for every run,
/// and the gap.
pub open spec fn band_width(run_count: int) -> int {
    run_count * BAR_WIDTH + SCENE_GAP
}

/// Where the bar of run number `run` for scene number `scene` begins along
/// the scene axis.
pub open spec fn bar_start(run_count: int, scene: int, run: int) -> int {
    scene * band_width(run_count) + run * BAR_WIDTH
}

/// Where the name of scene number `scene` stands along the scene axis: in
/// the middle of the scene's bars.
pub open spec fn label_height(run_count: int, scene: int) -> int {
    scene * band_width(run_count) + run_count
}

/// The largest value of `metric` in the chart, and zero where none is above
/// it.
pub open spec fn chart_max(runs: Seq<RunResultView>, metric: SceneMetric) -> int {
    largest(runs.map_values(|run: RunResultView| largest(metric_values(run.scenes, metric), 0)), 0)
}

/// The largest value of `metric` that a run has for scene number `scene`.
pub open spec fn band_max(runs: Seq<RunResultView>, scene: int, metric: SceneMetric) -> int {
    largest(
        runs.map_values(|run: RunResultView| run.scenes[scene].value(metric)),
        runs[0].scenes[scene].value(metric),
    )
}

/// The names of the runs, in order.
pub open spec fn run_names(runs: Seq<RunResultView>) -> Seq<Seq<char>> {
    runs.map_values(|run: RunResultView| run.run_name)
}

/// The chart's caption: the metric's label, and the names of all runs.
pub open spec fn caption_of(runs: Seq<RunResultView>, metric: SceneMetric) -> Seq<char> {
    metric.label_text() + " Comparison ["@ + joined(run_names(runs), ", "@) + "]"@
}

/// A bar of the chart: it reaches from zero to `value` along the value axis
/// and from `y0` to `y1` along the scene axis. The value is also written at
/// the bar, at zero on the value axis and `y1` on the scene axis.
#[derive(Debug, Clone, Copy, PartialEq, Eq, Structural)]
pub struct Bar {
    pub y0: u64,
    pub y1: u64,
    pub value: i32,
}

/// The bars of one run, one for each of its scenes in their order, with the
/// color in which they are drawn and the name under which the legend lists
/// them.
#[derive(Debug, PartialEq, Eq)]
pub struct Series {
    pub run_name: String,
    pub color: Rgb,
    pub bars: Vec<Bar>,
}

/// The name of a scene and the place at which it is written.
#[derive(Debug, PartialEq, Eq)]
pub struct SceneLabel {
    pub scene_name: String,
    /// The place along the value axis.
    pub x: i64,
    /// The place along the scene axis.
    pub y: u64,
}

/// A grouped bar chart that compares one metric over several runs, as
/// numbers that a drawing backend takes.
#[derive(Debug, PartialEq, Eq)]
pub struct Chart {
    pub caption: String,
    /// What the value axis is labeled with.
    pub value_label: String,
    /// The largest value shown, and zero where none is above it.
    pub max_value: i32,
    /// Ten times the end of the value axis, which lies at 1.2 times the
    /// largest value, so that no bar touches the edge.
    pub value_axis_end_tenths: i64,
    /// The end of the scene axis.
    pub scene_axis_end: u64,
    /// The room of one scene along the scene axis.
    pub band_width: u64,
    /// The bars, run by run. A run behind the last color is not drawn.
    pub series: Vec<Series>,
    /// The scenes' names, one for each scene of the first run.
    pub labels: Vec<SceneLabel>,
}

/// Whether `series` holds the bars of run number `index` among `run_count`
/// runs, in `color`.
pub open spec fn is_series_of(
    series: Series,
    run: RunResultView,
    color: Rgb,
    index: int,
    run_count: int,
    metric: SceneMetric,
) -> bool {
    &&& series.run_name@ == run.run_name
    &&& series.color == color
    &&& series.bars@.len() == run.scenes.len()
    &&& forall|i: int|
        0 <= i < run.scenes.len() ==> {
            &&& (#[trigger] series.bars@[i]).y0 == bar_start(run_count, i, index)
            &&& series.bars@[i].y1 == bar_start(run_count, i, index) + BAR_WIDTH
            &&& series.bars@[i].value == run.scenes[i].value(metric)
        }
}

/// Whether `label` names scene number `scene` of the chart.
pub open spec fn is_label_of(
    label: SceneLabel,
    runs: Seq<RunResultView>,
    scene: int,
    metric: SceneMetric,
) -> bool {
    &&& label.scene_name@ == runs[0].scenes[scene].scene_name
    &&& label.x == band_max(runs, scene, metric) + LABEL_MARGIN
    &&& label.y == label_height(runs.len() as int, scene)
}

/// Whether `chart` is the chart of `metric` over `runs`, drawn with
/// `colors`: the run at position r has the color at position r.
pub open spec fn is_chart_of(
    chart: Chart,
    runs: Seq<RunResultView>,
    metric: SceneMetric,
    colors: Seq<Rgb>,
) -> bool {
    &&& chart.caption@ == caption_of(runs, metric)
    &&& chart.value_label@ == metric.label_text()
    &&& chart.max_value == chart_max(runs, metric)
    &&& chart.value_axis_end_tenths == 12 * chart_max(runs, metric)
    &&& chart.scene_axis_end == runs[0].scenes.len() * band_width(runs.len() as int)
    &&& chart.band_width == band_width(runs.len() as int)
    &&& chart.series@.len() == if colors.len() < runs.len() {
        colors.len()
    } else {
        runs.len()
    }
    &&& forall|r: int|
        0 <= r < chart.series@.len() ==> is_series_of(
            #[trigger] chart.series@[r],
            runs[r],
            colors[r],
            r,
            runs.len() as int,
            metric,
        )
    &&& chart.labels@.len() == runs[0].scenes.len()
    &&& forall|i: int|
        0 <= i < chart.labels@.len() ==> is_label_of(#[trigger] chart.labels@[i], runs, i, metric)
}

/// Whether the places of the chart of `runs` are 64-bit numbers.
pub open spec fn layout_fits(runs: Seq<RunResultView>) -> bool {
    runs.len() > 0 ==> band_width(runs.len() as int) <= u64::MAX && runs[0].scenes.len()
        * band_width(runs.len() as int) <= u64::MAX
}

/// What [`first_mismatch`] finds is in the range of both, and up to it the
/// names agree.
pub proof fn lemma_first_mismatch(a: Seq<SceneView>, b: Seq<SceneView>, from: int)
    requires
        0 <= from <= a.len(),
        from <= b.len(),
    ensures
        from <= first_mismatch(a, b, from) <= a.len(),
        first_mismatch(a, b, from) <= b.len(),
        forall|i: int|
            from <= i < first_mismatch(a, b, from) ==> (#[trigger] a[i]).scene_name
                == b[i].scene_name,
        first_mismatch(a, b, from) < a.len() && first_mismatch(a, b, from) < b.len() ==> a[first_mismatch(
            a,
            b,
            from,
        )].scene_name != b[first_mismatch(a, b, from)].scene_name,
    decreases a.len() - from,
{
    if from < a.len() && from < b.len() && a[from].scene_name == b[from].scene_name {
        lemma_first_mismatch(a, b, from + 1);
    }
}

/// No scene is missing exactly where both hold the same names in the same
/// order.
pub proof fn lemma_missing_scene(a: Seq<SceneView>, b: Seq<SceneView>)
    ensures
        missing_scene(a, b) is None <==> same_scenes(a, b),
{
    lemma_first_mismatch(a, b, 0);
    let i = first_mismatch(a, b, 0);
    if same_scenes(a, b) && i < a.len() {
        assert(a[i].scene_name == b[i].scene_name);
    }
}

/// What [`first_unaligned`] finds is a run that lacks a scene, and no run
/// before it from `from` on does.
pub proof fn lemma_first_unaligned(runs: Seq<RunResultView>, from: int)
    requires
        0 <= from <= runs.len(),
    ensures
        from <= first_unaligned(runs, from) <= runs.len(),
        first_unaligned(runs, from) < runs.len() ==> missing_scene(
            runs[0].scenes,
            runs[first_unaligned(runs, from)].scenes,
        ) is Some,
        forall|r: int|
            from <= r < first_unaligned(runs, from) ==> missing_scene(
                runs[0].scenes,
                (#[trigger] runs[r]).scenes,
            ) is None,
    decreases runs.len() - from,
{
    if from < runs.len() && missing_scene(runs[0].scenes, runs[from].scenes) is None {
        lemma_first_unaligned(runs, from + 1);
    }
}

/// A chart can be laid out exactly where there is a run and every run holds
/// the scenes of the first, by name and order.
pub proof fn lemma_chart_error(runs: Seq<RunResultView>)
    ensures
        chart_error(runs) is None <==> runs.len() > 0 && aligned(runs),
        runs.len() == 0 <==> chart_error(runs) == Some(ErrorView::ResultSliceEmpty),
{
    if runs.len() > 0 {
        lemma_first_unaligned(runs, 0);
        let k = first_unaligned(runs, 0);
        if k < runs.len() {
            lemma_missing_scene(runs[0].scenes, runs[k].scenes);
        } else {
            assert forall|r: int| 0 <= r < runs.len() implies same_scenes(
                runs[0].scenes,
                (#[trigger] runs[r]).scenes,
            ) by {
                lemma_missing_scene(runs[0].scenes, runs[r].scenes);
            }
        }
    }
}

/// Looks for the first position at which `first` and `other` do not hold
/// scenes of one name, and gives the name of the scene that is missing
/// there.
pub fn check_scenes(first: &Vec<Scene>, other: &Vec<Scene>) -> (missing: Option<String>)
    ensures
        match missing {
            Some(name) => missing_scene(first.deep_view(), other.deep_view()) == Some(name@),
            None => missing_scene(first.deep_view(), other.deep_view()) is None,
        },
{
    let ghost a = first.deep_view();
    let ghost b = other.deep_view();
    let mut i: usize = 0;
    while i < first.len() && i < other.len()
        invariant
            a == first.deep_view(),
            b == other.deep_view(),
            i <= first@.len(),
            i <= other@.len(),
            first_mismatch(a, b, 0) == first_mismatch(a, b, i as int),
        decreases first@.len() - i,
    {
        assert(a[i as int] == first@[i as int]@);
        assert(b[i as int] == other@[i as int]@);
        if first[i].scene_name != other[i].scene_name {
            return Some(first[i].scene_name.clone());
        }
        i += 1;
    }
    if i < first.len() {
        assert(a[i as int] == first@[i as int]@);
        Some(first[i].scene_name.clone())
    } else if i < other.len() {
        assert(b[i as int] == other@[i as int]@);
        Some(other[i].scene_name.clone())
    } else {
        None
    }
}

/// Looks for what stands against a chart of `results`.
pub fn check_runs(results: &[RunResult]) -> (found: Option<Error>)
    ensures
        match found {
            Some(e) => chart_error(runs_of(results@)) == Some(e@),
            None => chart_error(runs_of(results@)) is None,
        },
{
    let ghost runs = runs_of(results@);
    if results.len() == 0 {
        return Some(Error::ResultSliceEmpty);
    }
    let mut r: usize = 0;
    while r < results.len()
        invariant
            runs == runs_of(results@),
            0 < results@.len(),
            r <= results@.len(),
            first_unaligned(runs, 0) == first_unaligned(runs, r as int),
        decreases results@.len() - r,
    {
        assert(runs[r as int] == results@[r as int]@);
        assert(runs[0] == results@[0]@);
        match check_scenes(&results[0].scenes, &results[r].scenes) {
            Some(name) => {
                return Some(Error::SceneMissing(name));
            },
            None => {},
        }
        r += 1;
    }
    None
}

/// The largest value of `metric` over all runs, and zero where none is above
/// it.
pub fn overall_max(results: &[RunResult], metric: &SceneMetric) -> (max: i32)
    ensures
        max == chart_max(runs_of(results@), *metric),
{
    let ghost runs = runs_of(results@);
    let ghost maxima = runs.map_values(
        |run: RunResultView| largest(metric_values(run.scenes, *metric), 0),
    );
    let mut max: i32 = 0;
    let mut r: usize = 0;
    assert(maxima.take(0) == Seq::<int>::empty());
    while r < results.len()
        invariant
            runs == runs_of(results@),
            maxima == runs.map_values(
                |run: RunResultView| largest(metric_values(run.scenes, *metric), 0),
            ),
            r <= results@.len(),
            max == largest(maxima.take(r as int), 0),
        decreases results@.len() - r,
    {
        let value = get_max_value(&results[r].scenes, metric);
        proof {
            assert(runs[r as int] == results@[r as int]@);
            assert(maxima.take(r + 1).drop_last() == maxima.take(r as int));
        }
        if value > max {
            max = value;
        }
        r += 1;
    }
    assert(maxima.take(results@.len() as int) == maxima);
    max
}

/// The caption of the chart of `metric` over `results`.
pub fn make_caption(results: &[RunResult], metric: &SceneMetric) -> (caption: String)
    ensures
        caption@ == caption_of(runs_of(results@), *metric),
{
    let ghost names = run_names(runs_of(results@));
    let mut list = String::new();
    let mut r: usize = 0;
    assert(names.take(0) == Seq::<Seq<char>>::empty());
    while r < results.len()
        invariant
            names == run_names(runs_of(results@)),
            r <= results@.len(),
            list@ == joined(names.take(r as int), ", "@),
        decreases results@.len() - r,
    {
        proof {
            assert(names[r as int] == results@[r as int]@.run_name);
            assert(names.take(r + 1).drop_last() == names.take(r as int));
            assert(names.take(r + 1).last() == names[r as int]);
        }
        if r > 0 {
            list.append(", ");
        } else {
            assert(Seq::<char>::empty() + names[0] == names[0]);
        }
        list.append(results[r].run_name.as_str());
        r += 1;
    }
    assert(names.take(results@.len() as int) == names);
    let mut caption = metric.label().to_owned();
    caption.append(" Comparison [");
    caption.append(list.as_str());
    caption.append("]");
    caption
}

/// The bars of `run`, the run at position `index` of `run_count`, in
/// `color`.
fn make_series(
    run: &RunResult,
    color: Rgb,
    index: usize,
    run_count: usize,
    metric: &SceneMetric,
) -> (series: Series)
    requires
        index < run_count,
        band_width(run_count as int) <= u64::MAX,
        run@.scenes.len() * band_width(run_count as int) <= u64::MAX,
    ensures
        is_series_of(series, run@, color, index as int, run_count as int, *metric),
{
    let band: u64 = run_count as u64 * BAR_WIDTH + SCENE_GAP;
    let offset: u64 = index as u64 * BAR_WIDTH;
    let count = run.scenes.len();
    let mut bars: Vec<Bar> = Vec::new();
    let mut i: usize = 0;
    while i < count
        invariant
            i <= count == run@.scenes.len(),
            count == run.scenes@.len(),
            band == band_width(run_count as int),
            offset == index * BAR_WIDTH,
            offset + BAR_WIDTH < band,
            count * band <= u64::MAX,
            bars@.len() == i,
            forall|k: int|
                0 <= k < i ==> {
                    &&& (#[trigger] bars@[k]).y0 == bar_start(run_count as int, k, index as int)
                    &&& bars@[k].y1 == bar_start(run_count as int, k, index as int) + BAR_WIDTH
                    &&& bars@[k].value == run@.scenes[k].value(*metric)
                },
        decreases count - i,
    {
        assert(i * band + band <= count * band) by (nonlinear_arith)
            requires
                i < count,
                band >= 0,
        ;
        assert(run@.scenes[i as int] == run.scenes@[i as int]@);
        let y0: u64 = i as u64 * band + offset;
        let value = run.scenes[i].get_value(metric);
        bars.push(Bar { y0, y1: y0 + BAR_WIDTH, value });
        i += 1;
    }
    Series { run_name: run.run_name.clone(), color, bars }
}

/// The name of scene number `scene` with its place in the chart.
fn make_label(results: &[RunResult], scene: usize, metric: &SceneMetric) -> (label: SceneLabel)
    requires
        results@.len() > 0,
        aligned(runs_of(results@)),
        scene < runs_of(results@)[0].scenes.len(),
        layout_fits(runs_of(results@)),
    ensures
        is_label_of(label, runs_of(results@), scene as int, *metric),
{
    let ghost runs = runs_of(results@);
    let ghost values = runs.map_values(|run: RunResultView| run.scenes[scene as int].value(*metric));
    let run_count = results.len();
    assert(runs[0] == results@[0]@);
    assert(runs[0].scenes[scene as int] == results@[0].scenes@[scene as int]@);
    let first = &results[0].scenes[scene];
    let mut max: i32 = first.get_value(metric);
    let mut r: usize = 0;
    assert(values.take(0) == Seq::<int>::empty());
    while r < run_count
        invariant
            runs == runs_of(results@),
            values == runs.map_values(
                |run: RunResultView| run.scenes[scene as int].value(*metric),
            ),
            run_count == results@.len(),
            aligned(runs),
            scene < runs[0].scenes.len(),
            r <= run_count,
            max == largest(values.take(r as int), runs[0].scenes[scene as int].value(*metric)),
        decreases run_count - r,
    {
        proof {
            assert(runs[r as int] == results@[r as int]@);
            assert(same_scenes(runs[0].scenes, runs[r as int].scenes));
            assert(runs[r as int].scenes[scene as int] == results@[r as int].scenes@[scene as int]@);
            assert(values.take(r + 1).drop_last() == values.take(r as int));
        }
        let value = results[r].scenes[scene].get_value(metric);
        if value > max {
            max = value;
        }
        r += 1;
    }
    assert(values.take(run_count as int) == values);
    let band: u64 = run_count as u64 * BAR_WIDTH + SCENE_GAP;
    assert(scene * band + band <= runs[0].scenes.len() * band) by (nonlinear_arith)
        requires
            scene < runs[0].scenes.len(),
            band >= 0,
    ;
    SceneLabel {
        scene_name: first.scene_name.clone(),
        x: max as i64 + LABEL_MARGIN,
        y: scene as u64 * band + run_count as u64,
    }
}

/// Lays out the grouped bar chart that compares `metric` over the runs
/// `results`. The run at position r is drawn in the color at position r of
/// `colors`, and a run behind the last color is not drawn.
///
/// There must be a run, and every run must hold the scenes of the first run,
/// by name and in the same order: else the chart's labels would not fit its
/// bars, and no chart is laid out.
pub fn create_comparison_chart(results: &[RunResult], metric: &SceneMetric, colors: &[Rgb]) -> (r:
    Result<Chart, Error>)
    requires
        layout_fits(runs_of(results@)),
    ensures
        match r {
            Ok(chart) => chart_error(runs_of(results@)) is None && is_chart_of(
                chart,
                runs_of(results@),
                *metric,
                colors@,
            ),
            Err(e) => chart_error(runs_of(results@)) == Some(e@),
        },
{
    let ghost runs = runs_of(results@);
    match check_runs(results) {
        Some(e) => {
            return Err(e);
        },
        None => {},
    }
    proof {
        lemma_chart_error(runs);
        assert(runs[0] == results@[0]@);
    }
    let run_count = results.len();
    let scene_count = results[0].scenes.len();
    let max_value = overall_max(results, metric);
    proof {
        lemma_largest(
            runs.map_values(|run: RunResultView| largest(metric_values(run.scenes, *metric), 0)),
            0,
        );
    }
    let band: u64 = run_count as u64 * BAR_WIDTH + SCENE_GAP;
    let drawn = if colors.len() < run_count {
        colors.len()
    } else {
        run_count
    };
    let mut series: Vec<Series> = Vec::new();
    let mut k: usize = 0;
    while k < drawn
        invariant
            runs == runs_of(results@),
            run_count == results@.len(),
            drawn <= run_count,
            drawn <= colors@.len(),
            k <= drawn,
            aligned(runs),
            layout_fits(runs),
            series@.len() == k,
            forall|j: int|
                0 <= j < k ==> is_series_of(
                    #[trigger] series@[j],
                    runs[j],
                    colors@[j],
                    j,
                    run_count as int,
                    *metric,
                ),
        decreases drawn - k,
    {
        proof {
            assert(runs[k as int] == results@[k as int]@);
            assert(same_scenes(runs[0].scenes, runs[k as int].scenes));
        }
        let next = make_series(&results[k], colors[k], k, run_count, metric);
        series.push(next);
        k += 1;
    }
    let mut labels: Vec<SceneLabel> = Vec::new();
    let mut i: usize = 0;
    while i < scene_count
        invariant
            runs == runs_of(results@),
            results@.len() > 0,
            scene_count == runs[0].scenes.len(),
            i <= scene_count,
            aligned(runs),
            layout_fits(runs),
            labels@.len() == i,
            forall|j: int| 0 <= j < i ==> is_label_of(#[trigger] labels@[j], runs, j, *metric),
        decreases scene_count - i,
    {
        let next = make_label(results, i, metric);
        labels.push(next);
        i += 1;
    }
    Ok(
        Chart {
            caption: make_caption(results, metric),
            value_label: metric.label().to_owned(),
            max_value,
            value_axis_end_tenths: 12 * (max_value as i64),
            scene_axis_end: scene_count as u64 * band,
            band_width: band,
            series,
            labels,
        },
    )
}

/// Decides whether the places of the chart of `results` are 64-bit numbers.
pub fn layout_in_range(results: &[RunResult]) -> (ok: bool)
    ensures
        ok == layout_fits(runs_of(results@)),
{
    if results.len() == 0 {
        return true;
    }
    assert(runs_of(results@)[0] == results@[0]@);
    let band: u128 = results.len() as u128 * (BAR_WIDTH as u128) + (SCENE_GAP as u128);
    if band > u64::MAX as u128 {
        return false;
    }
    let scenes: u128 = results[0].scenes.len() as u128;
    assert(scenes * band <= 0xFFFF_FFFF_FFFF_FFFF * 0xFFFF_FFFF_FFFF_FFFF) by (nonlinear_arith)
        requires
            0 <= scenes <= 0xFFFF_FFFF_FFFF_FFFF,
            0 <= band <= 0xFFFF_FFFF_FFFF_FFFF,
    ;
    scenes * band <= u64::MAX as u128
}

/// The bars of a chart keep apart: every bar lies within the room of its
/// scene and before the gap, and two bars of one chart do not overlap.
pub proof fn lemma_bars_apart(run_count: int, scene: int, run: int, other_scene: int, other_run: int)
    requires
        0 <= run < run_count,
        0 <= other_run < run_count,
        0 <= scene,
        0 <= other_scene,
        scene != other_scene || run != other_run,
    ensures
        scene * band_width(run_count) <= bar_start(run_count, scene, run),
        bar_start(run_count, scene, run) + BAR_WIDTH + SCENE_GAP <= (scene + 1) * band_width(
            run_count,
        ),
        bar_start(run_count, scene, run) + BAR_WIDTH <= bar_start(
            run_count,
            other_scene,
            other_run,
        ) || bar_start(run_count, other_scene, other_run) + BAR_WIDTH <= bar_start(
            run_count,
            scene,
            run,
        ),
{
    let band = band_width(run_count);
    assert((scene + 1) * band == scene * band + band) by (nonlinear_arith);
    if scene < other_scene {
        assert((scene + 1) * band <= other_scene * band) by (nonlinear_arith)
            requires
                scene + 1 <= other_scene,
                band >= 0,
        ;
    } else if other_scene < scene {
        assert((other_scene + 1) * band == other_scene * band + band) by (nonlinear_arith);
        assert((other_scene + 1) * band <= scene * band) by (nonlinear_arith)
            requires
                other_scene + 1 <= scene,
                band >= 0,
        ;
    }
}

/// The longest bar ends before the value axis does, and no bar of a chart
/// reaches behind the scene axis.
pub proof fn lemma_chart_holds_bars(
    chart: Chart,
    runs: Seq<RunResultView>,
    metric: SceneMetric,
    colors: Seq<Rgb>,
    r: int,
    i: int,
)
    requires
        runs.len() > 0,
        aligned(runs),
        is_chart_of(chart, runs, metric, colors),
        0 <= r < chart.series@.len(),
        0 <= i < runs[0].scenes.len(),
    ensures
        chart.series@[r].bars@[i].y1 <= chart.scene_axis_end,
        10 * chart.series@[r].bars@[i].value <= chart.value_axis_end_tenths,
        chart.max_value > 0 ==> 10 * chart.series@[r].bars@[i].value < chart.value_axis_end_tenths,
{
    let n = runs.len() as int;
    let band = band_width(n);
    let count = runs[0].scenes.len() as int;
    assert(same_scenes(runs[0].scenes, runs[r].scenes));
    assert(is_series_of(chart.series@[r], runs[r], colors[r], r, n, metric));
    assert((i + 1) * band == i * band + band) by (nonlinear_arith);
    assert((i + 1) * band <= count * band) by (nonlinear_arith)
        requires
            i + 1 <= count,
            band >= 0,
    ;
    let maxima = runs.map_values(|run: RunResultView| largest(metric_values(run.scenes, metric), 0));
    let values = metric_values(runs[r].scenes, metric);
    lemma_largest(maxima, 0);
    lemma_largest(values, 0);
    assert(maxima[r] == largest(values, 0));
    assert(values[i] == runs[r].scenes[i].value(metric));
}

} // verus!
