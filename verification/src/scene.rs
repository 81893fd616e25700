use crate::error::{Error, ErrorView};
use crate::text::{same_text, to_chars};
use std::str::FromStr;
use vstd::prelude::*;

verus! {

/// The measured metrics of one benchmark scenario for a single run.
///
/// The metrics are signed because the same record also carries differences
/// between two runs, which may be negative.
#[derive(Debug, PartialEq, Eq)]
pub struct Scene {
    pub scene_name: String,
    pub avg_cpu: i32,
    pub avg_fps: i32,
    pub avg_time: i32,
    pub render_time: i32,
    pub flush_time: i32,
}

/// The mathematical value of a [`Scene`]: its name as a sequence of characters
/// and its metrics as unbounded integers.
pub struct SceneView {
    pub scene_name: Seq<char>,
    pub avg_cpu: int,
    pub avg_fps: int,
    pub avg_time: int,
    pub render_time: int,
    pub flush_time: int,
}

/// Selects one of the five metrics of a scene.
#[derive(Debug, Clone, Copy, PartialEq, Eq, Structural)]
pub enum SceneMetric {
    FPS,
    CPU,
    AvgTime,
    RenderTime,
    FlushTime,
}

impl SceneView {
    /// The metric that `metric` selects.
    pub open spec fn value(self, metric: SceneMetric) -> int {
        match metric {
            SceneMetric::FPS => self.avg_fps,
            SceneMetric::CPU => self.avg_cpu,
            SceneMetric::AvgTime => self.avg_time,
            SceneMetric::RenderTime => self.render_time,
            SceneMetric::FlushTime => self.flush_time,
        }
    }

    /// Whether every metric fits the executable record.
    pub open spec fn fits(self) -> bool {
        &&& i32::MIN <= self.avg_cpu <= i32::MAX
        &&& i32::MIN <= self.avg_fps <= i32::MAX
        &&& i32::MIN <= self.avg_time <= i32::MAX
        &&& i32::MIN <= self.render_time <= i32::MAX
        &&& i32::MIN <= self.flush_time <= i32::MAX
    }

    /// Same name, every metric the difference `self - other`.
    pub open spec fn minus(self, other: SceneView) -> SceneView {
        SceneView {
            scene_name: self.scene_name,
            avg_cpu: self.avg_cpu - other.avg_cpu,
            avg_fps: self.avg_fps - other.avg_fps,
            avg_time: self.avg_time - other.avg_time,
            render_time: self.render_time - other.render_time,
            flush_time: self.flush_time - other.flush_time,
        }
    }

    /// Whether all five metrics are zero.
    pub open spec fn is_zero(self) -> bool {
        &&& self.avg_cpu == 0
        &&& self.avg_fps == 0
        &&& self.avg_time == 0
        &&& self.render_time == 0
        &&& self.flush_time == 0
    }

    /// Whether every metric of `self` is the negation of that metric of `other`.
    pub open spec fn negates(self, other: SceneView) -> bool {
        &&& self.avg_cpu == -other.avg_cpu
        &&& self.avg_fps == -other.avg_fps
        &&& self.avg_time == -other.avg_time
        &&& self.render_time == -other.render_time
        &&& self.flush_time == -other.flush_time
    }
}

impl View for Scene {
    type V = SceneView;

    open spec fn view(&self) -> SceneView {
        SceneView {
            scene_name: self.scene_name@,
            avg_cpu: self.avg_cpu as int,
            avg_fps: self.avg_fps as int,
            avg_time: self.avg_time as int,
            render_time: self.render_time as int,
            flush_time: self.flush_time as int,
        }
    }
}

impl DeepView for Scene {
    type V = SceneView;

    open spec fn deep_view(&self) -> SceneView {
        self@
    }
}

impl Clone for Scene {
    fn clone(&self) -> (res: Self)
        ensures
            res == *self,
    {
        Scene {
            scene_name: self.scene_name.clone(),
            avg_cpu: self.avg_cpu,
            avg_fps: self.avg_fps,
            avg_time: self.avg_time,
            render_time: self.render_time,
            flush_time: self.flush_time,
        }
    }
}

impl Scene {
    /// Reads the metric that `metric` selects.
    pub fn get_value(&self, metric: &SceneMetric) -> (value: i32)
        ensures
            value == self@.value(*metric),
    {
        match metric {
            SceneMetric::FPS => self.avg_fps,
            SceneMetric::CPU => self.avg_cpu,
            SceneMetric::AvgTime => self.avg_time,
            SceneMetric::RenderTime => self.render_time,
            SceneMetric::FlushTime => self.flush_time,
        }
    }
}

impl SceneMetric {
    /// The text of [`SceneMetric::label`].
    pub open spec fn label_text(self) -> Seq<char> {
        match self {
            SceneMetric::FPS => "FPS"@,
            SceneMetric::CPU => "CPU Usage (%)"@,
            SceneMetric::AvgTime => "Average Time (ms)"@,
            SceneMetric::RenderTime => "Render Time (ms)"@,
            SceneMetric::FlushTime => "Flush Time (ms)"@,
        }
    }

    /// The text of [`SceneMetric::snake_case`].
    pub open spec fn token_text(self) -> Seq<char> {
        match self {
            SceneMetric::FPS => "fps"@,
            SceneMetric::CPU => "cpu"@,
            SceneMetric::AvgTime => "avg_time"@,
            SceneMetric::RenderTime => "render_time"@,
            SceneMetric::FlushTime => "flush_time"@,
        }
    }

    /// The label shown to a reader, with the unit.
    pub fn label(&self) -> (text: &'static str)
        ensures
            text@ == self.label_text(),
    {
        match self {
            SceneMetric::FPS => "FPS",
            SceneMetric::CPU => "CPU Usage (%)",
            SceneMetric::AvgTime => "Average Time (ms)",
            SceneMetric::RenderTime => "Render Time (ms)",
            SceneMetric::FlushTime => "Flush Time (ms)",
        }
    }

    /// The short token by which the metric is named on a command line.
    pub fn snake_case(&self) -> (text: &'static str)
        ensures
            text@ == self.token_text(),
    {
        match self {
            SceneMetric::FPS => "fps",
            SceneMetric::CPU => "cpu",
            SceneMetric::AvgTime => "avg_time",
            SceneMetric::RenderTime => "render_time",
            SceneMetric::FlushTime => "flush_time",
        }
    }
}

/// The metric whose token is `token`, if it is the token of one.
pub open spec fn metric_named(token: Seq<char>) -> Option<SceneMetric> {
    if token == "fps"@ {
        Some(SceneMetric::FPS)
    } else if token == "cpu"@ {
        Some(SceneMetric::CPU)
    } else if token == "avg_time"@ {
        Some(SceneMetric::AvgTime)
    } else if token == "render_time"@ {
        Some(SceneMetric::RenderTime)
    } else if token == "flush_time"@ {
        Some(SceneMetric::FlushTime)
    } else {
        None
    }
}

/// Whether `r` is what reading `token` as a metric yields: the metric of
/// that token, or the error that holds the text.
pub open spec fn is_metric_of(token: Seq<char>, r: Result<SceneMetric, Error>) -> bool {
    match r {
        Ok(metric) => metric_named(token) == Some(metric),
        Err(e) => metric_named(token) is None && e@ == ErrorView::InvalidMetric(token),
    }
}

/// Every metric is read back from its own token.
pub proof fn lemma_token_round_trip(metric: SceneMetric)
    ensures
        metric_named(metric.token_text()) == Some(metric),
{
    reveal_strlit("fps");
    reveal_strlit("cpu");
    reveal_strlit("avg_time");
    reveal_strlit("render_time");
    reveal_strlit("flush_time");
    assert("fps"@[0] != "cpu"@[0]);
    assert("avg_time"@.len() != "fps"@.len());
    assert("avg_time"@.len() != "cpu"@.len());
    assert("render_time"@.len() != "fps"@.len());
    assert("render_time"@.len() != "cpu"@.len());
    assert("render_time"@.len() != "avg_time"@.len());
    assert("flush_time"@.len() != "fps"@.len());
    assert("flush_time"@.len() != "cpu"@.len());
    assert("flush_time"@.len() != "avg_time"@.len());
    assert("flush_time"@.len() != "render_time"@.len());
}

impl SceneMetric {
    /// Reads the token of a metric. Only the five tokens, letter for letter,
    /// name one.
    pub fn from_token(s: &str) -> (r: Result<SceneMetric, Error>)
        ensures
            is_metric_of(s@, r),
    {
        let token = to_chars(s);
        if same_text(token.as_slice(), to_chars("fps").as_slice()) {
            Ok(SceneMetric::FPS)
        } else if same_text(token.as_slice(), to_chars("cpu").as_slice()) {
            Ok(SceneMetric::CPU)
        } else if same_text(token.as_slice(), to_chars("avg_time").as_slice()) {
            Ok(SceneMetric::AvgTime)
        } else if same_text(token.as_slice(), to_chars("render_time").as_slice()) {
            Ok(SceneMetric::RenderTime)
        } else if same_text(token.as_slice(), to_chars("flush_time").as_slice()) {
            Ok(SceneMetric::FlushTime)
        } else {
            Err(Error::InvalidMetric(s.to_owned()))
        }
    }
}

impl FromStr for SceneMetric {
    type Err = Error;

    fn from_str(s: &str) -> (r: Result<Self, Error>)
        ensures
            is_metric_of(s@, r),
    {
        SceneMetric::from_token(s)
    }
}

} // verus!
