use ejlv_cli::chart::{
    check_scenes, colors, create_comparison_chart, get_max_value, layout_in_range, make_caption,
    overall_max, run_colors, Bar, Rgb, RunResult, SceneLabel, Series,
};
use ejlv_cli::error::Error;
use ejlv_cli::scene::{Scene, SceneMetric};

fn shown(name: &str, cpu: i32, fps: i32, time: i32, render: i32, flush: i32) -> Scene {
    Scene {
        scene_name: name.to_string(),
        avg_cpu: cpu,
        avg_fps: fps,
        avg_time: time,
        render_time: render,
        flush_time: flush,
    }
}

fn three_runs() -> Vec<RunResult> {
    vec![
        RunResult::new("v9.2", vec![shown("Empty", 35, 56, 4, 0, 4), shown("Arcs", 72, 61, 9, 1, 8)]),
        RunResult::new("v9.3", vec![shown("Empty", 40, 50, 5, 1, 5), shown("Arcs", 70, 60, 8, 1, 7)]),
        RunResult::new("master", vec![shown("Empty", 30, 58, 3, 0, 3), shown("Arcs", 75, 59, 9, 2, 7)]),
    ]
}

#[test]
fn chart_of_no_run_is_refused() {
    let none: Vec<RunResult> = vec![];
    assert_eq!(
        create_comparison_chart(&none, &SceneMetric::FPS, &colors()),
        Err(Error::ResultSliceEmpty)
    );
    assert_eq!(
        create_comparison_chart(&none, &SceneMetric::CPU, &[]),
        Err(Error::ResultSliceEmpty)
    );
}

#[test]
fn chart_is_laid_out_in_bands() {
    let runs = three_runs();
    let palette = colors();
    let chart = create_comparison_chart(&runs, &SceneMetric::CPU, &palette).unwrap();
    assert_eq!(chart.caption, "CPU Usage (%) Comparison [v9.2, v9.3, master]");
    assert_eq!(chart.value_label, "CPU Usage (%)");
    assert_eq!(chart.max_value, 75);
    assert_eq!(chart.value_axis_end_tenths, 900);
    assert_eq!(chart.band_width, 7);
    assert_eq!(chart.scene_axis_end, 14);
    assert_eq!(
        chart.series,
        vec![
            Series {
                run_name: "v9.2".to_string(),
                color: Rgb { r: 220, g: 80, b: 80 },
                bars: vec![Bar { y0: 0, y1: 2, value: 35 }, Bar { y0: 7, y1: 9, value: 72 }],
            },
            Series {
                run_name: "v9.3".to_string(),
                color: Rgb { r: 100, g: 180, b: 100 },
                bars: vec![Bar { y0: 2, y1: 4, value: 40 }, Bar { y0: 9, y1: 11, value: 70 }],
            },
            Series {
                run_name: "master".to_string(),
                color: Rgb { r: 100, g: 150, b: 230 },
                bars: vec![Bar { y0: 4, y1: 6, value: 30 }, Bar { y0: 11, y1: 13, value: 75 }],
            },
        ]
    );
    assert_eq!(
        chart.labels,
        vec![
            SceneLabel { scene_name: "Empty".to_string(), x: 50, y: 3 },
            SceneLabel { scene_name: "Arcs".to_string(), x: 85, y: 10 },
        ]
    );
}

#[test]
fn chart_of_one_run_without_scenes() {
    let runs = vec![RunResult::new("only", vec![])];
    let chart = create_comparison_chart(&runs, &SceneMetric::FPS, &colors()).unwrap();
    assert_eq!(chart.caption, "FPS Comparison [only]");
    assert_eq!(chart.max_value, 0);
    assert_eq!(chart.value_axis_end_tenths, 0);
    assert_eq!(chart.band_width, 3);
    assert_eq!(chart.scene_axis_end, 0);
    assert_eq!(chart.series.len(), 1);
    assert_eq!(chart.series[0].bars, vec![]);
    assert_eq!(chart.labels, vec![]);
}

#[test]
fn runs_behind_the_last_color_are_not_drawn() {
    let runs = three_runs();
    let two = [Rgb { r: 1, g: 2, b: 3 }, Rgb { r: 4, g: 5, b: 6 }];
    let chart = create_comparison_chart(&runs, &SceneMetric::FPS, &two).unwrap();
    assert_eq!(chart.series.len(), 2);
    assert_eq!(chart.series[1].color, Rgb { r: 4, g: 5, b: 6 });
    assert_eq!(chart.series[1].bars, vec![Bar { y0: 2, y1: 4, value: 50 }, Bar { y0: 9, y1: 11, value: 60 }]);
    assert_eq!(chart.max_value, 61);
    assert_eq!(chart.labels[0].x, 68);
    assert_eq!(chart.labels.len(), 2);
    let none = create_comparison_chart(&runs, &SceneMetric::FPS, &[]).unwrap();
    assert_eq!(none.series, vec![]);
    assert_eq!(none.labels.len(), 2);
}

#[test]
fn values_below_zero_do_not_raise_the_axis() {
    let runs = vec![
        RunResult::new("a", vec![shown("S", -5, -6, -7, -8, -9)]),
        RunResult::new("b", vec![shown("S", -3, -2, -1, -10, -20)]),
    ];
    let chart = create_comparison_chart(&runs, &SceneMetric::AvgTime, &colors()).unwrap();
    assert_eq!(chart.max_value, 0);
    assert_eq!(chart.value_axis_end_tenths, 0);
    assert_eq!(chart.labels, vec![SceneLabel { scene_name: "S".to_string(), x: 9, y: 2 }]);
    assert_eq!(chart.series[1].bars, vec![Bar { y0: 2, y1: 4, value: -1 }]);
}

#[test]
fn runs_that_differ_in_their_scenes_are_refused() {
    let fewer = vec![
        RunResult::new("a", vec![shown("S1", 1, 1, 1, 1, 1), shown("S2", 2, 2, 2, 2, 2)]),
        RunResult::new("b", vec![shown("S1", 1, 1, 1, 1, 1)]),
    ];
    assert_eq!(
        create_comparison_chart(&fewer, &SceneMetric::FPS, &colors()),
        Err(Error::SceneMissing("S2".to_string()))
    );
    let more = vec![
        RunResult::new("a", vec![shown("S1", 1, 1, 1, 1, 1)]),
        RunResult::new("b", vec![shown("S1", 1, 1, 1, 1, 1), shown("S3", 3, 3, 3, 3, 3)]),
    ];
    assert_eq!(
        create_comparison_chart(&more, &SceneMetric::FPS, &colors()),
        Err(Error::SceneMissing("S3".to_string()))
    );
    let other = vec![
        RunResult::new("a", vec![shown("S1", 1, 1, 1, 1, 1), shown("S2", 2, 2, 2, 2, 2)]),
        RunResult::new("b", vec![shown("S1", 1, 1, 1, 1, 1), shown("S2", 2, 2, 2, 2, 2)]),
        RunResult::new("c", vec![shown("S1", 1, 1, 1, 1, 1), shown("T2", 2, 2, 2, 2, 2)]),
    ];
    assert_eq!(
        create_comparison_chart(&other, &SceneMetric::FPS, &colors()),
        Err(Error::SceneMissing("S2".to_string()))
    );
}

#[test]
fn scenes_are_checked_by_name_and_order() {
    let a = vec![shown("S1", 1, 1, 1, 1, 1), shown("S2", 2, 2, 2, 2, 2)];
    let same = vec![shown("S1", 9, 9, 9, 9, 9), shown("S2", 8, 8, 8, 8, 8)];
    let swapped = vec![shown("S2", 2, 2, 2, 2, 2), shown("S1", 1, 1, 1, 1, 1)];
    assert_eq!(check_scenes(&a, &same), None);
    assert_eq!(check_scenes(&a, &swapped), Some("S1".to_string()));
    assert_eq!(check_scenes(&a, &vec![]), Some("S1".to_string()));
    assert_eq!(check_scenes(&vec![], &a), Some("S1".to_string()));
    assert_eq!(check_scenes(&vec![], &vec![]), None);
}

#[test]
fn largest_values_are_found() {
    let scenes = vec![shown("a", 35, 56, 4, 0, 4), shown("b", 43, 61, 6, 0, 6), shown("c", 12, 2, 9, -1, 6)];
    assert_eq!(get_max_value(&scenes, &SceneMetric::CPU), 43);
    assert_eq!(get_max_value(&scenes, &SceneMetric::FPS), 61);
    assert_eq!(get_max_value(&scenes, &SceneMetric::AvgTime), 9);
    assert_eq!(get_max_value(&scenes, &SceneMetric::RenderTime), 0);
    assert_eq!(get_max_value(&scenes, &SceneMetric::FlushTime), 6);
    assert_eq!(get_max_value(&vec![], &SceneMetric::FPS), 0);
    assert_eq!(get_max_value(&vec![shown("n", -1, -2, -3, -4, -5)], &SceneMetric::FPS), 0);
    assert_eq!(overall_max(&three_runs(), &SceneMetric::FPS), 61);
    assert_eq!(overall_max(&[], &SceneMetric::FPS), 0);
}

#[test]
fn captions_name_the_runs() {
    assert_eq!(make_caption(&three_runs(), &SceneMetric::RenderTime), "Render Time (ms) Comparison [v9.2, v9.3, master]");
    assert_eq!(make_caption(&[], &SceneMetric::FlushTime), "Flush Time (ms) Comparison []");
}

#[test]
fn palette_has_nine_colors() {
    assert_eq!(
        colors(),
        vec![
            Rgb { r: 220, g: 80, b: 80 },
            Rgb { r: 100, g: 180, b: 100 },
            Rgb { r: 100, g: 150, b: 230 },
            Rgb { r: 240, g: 210, b: 90 },
            Rgb { r: 100, g: 200, b: 200 },
            Rgb { r: 200, g: 100, b: 200 },
            Rgb { r: 255, g: 160, b: 90 },
            Rgb { r: 90, g: 180, b: 180 },
            Rgb { r: 180, g: 140, b: 210 },
        ]
    );
}

#[test]
fn palette_repeats_for_many_runs() {
    let palette = colors();
    assert_eq!(run_colors(0), palette);
    assert_eq!(run_colors(9), palette);
    let ten = run_colors(10);
    assert_eq!(ten.len(), 10);
    assert_eq!(ten[9], palette[0]);
    let many = run_colors(25);
    assert_eq!(many.len(), 25);
    for (k, color) in many.iter().enumerate() {
        assert_eq!(*color, palette[k % 9]);
    }
}

#[test]
fn layouts_of_real_size_are_in_range() {
    assert!(layout_in_range(&[]));
    assert!(layout_in_range(&three_runs()));
}
