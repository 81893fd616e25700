use ejlv_cli::error::Error;
use ejlv_cli::number::IntErrorKind;
use ejlv_cli::parser::parse_scenes;
use ejlv_cli::scene::Scene;

fn scene(name: &str, cpu: i32, fps: i32, time: i32, render: i32, flush: i32) -> Scene {
    Scene {
        scene_name: name.to_string(),
        avg_cpu: cpu,
        avg_fps: fps,
        avg_time: time,
        render_time: render,
        flush_time: flush,
    }
}

#[test]
fn parse_results() {
    let results = "
Benchmark Summary (9.4.0 dev)
Name, Avg. CPU, Avg. FPS, Avg. time, render time, flush time
Empty screen, 35%, 56, 4, 0, 4
Moving wallpaper, 43%, 61, 6, 0, 6
Single rectangle, 55%, 61, 8, 0, 8
Multiple rectangles, 57%, 61, 8, 0, 8
Multiple RGB images, 60%, 61, 8, 0, 8
Multiple ARGB images, 74%, 61, 11, 3, 8
Rotated ARGB images, 76%, 61, 11, 3, 8
Multiple labels, 72%, 61, 10, 2, 8
Screen sized text, 80%, 60, 14, 5, 9
Multiple arcs, 72%, 61, 9, 1, 8
Containers, 63%, 61, 9, 1, 8
Containers with overlay, 88%, 58, 14, 7, 7
Containers with opa, 71%, 61, 9, 1, 8
Containers with opa_layer, 76%, 61, 11, 3, 8
Containers with scrolling, 75%, 61, 11, 4, 7
Widgets demo, 32%, 61, 11, 2, 9
All scenes avg.,64%, 60, 9, 2, 7
";

    let actual = parse_scenes(results).expect("Failed to parse result");
    let expected = vec![
            Scene {
                scene_name: "Empty screen".to_string(),
                avg_cpu: 35,
                avg_fps: 56,
                avg_time: 4,
                render_time: 0,
                flush_time: 4,
            },
            Scene {
                scene_name: "Moving wallpaper".to_string(),
                avg_cpu: 43,
                avg_fps: 61,
                avg_time: 6,
                render_time: 0,
                flush_time: 6,
            },
            Scene {
                scene_name: "Single rectangle".to_string(),
                avg_cpu: 55,
                avg_fps: 61,
                avg_time: 8,
                render_time: 0,
                flush_time: 8,
            },
            Scene {
                scene_name: "Multiple rectangles".to_string(),
                avg_cpu: 57,
                avg_fps: 61,
                avg_time: 8,
                render_time: 0,
                flush_time: 8,
            },
            Scene {
                scene_name: "Multiple RGB images".to_string(),
                avg_cpu: 60,
                avg_fps: 61,
                avg_time: 8,
                render_time: 0,
                flush_time: 8,
            },
            Scene {
                scene_name: "Multiple ARGB images".to_string(),
                avg_cpu: 74,
                avg_fps: 61,
                avg_time: 11,
                render_time: 3,
                flush_time: 8,
            },
            Scene {
                scene_name: "Rotated ARGB images".to_string(),
                avg_cpu: 76,
                avg_fps: 61,
                avg_time: 11,
                render_time: 3,
                flush_time: 8,
            },
            Scene {
                scene_name: "Multiple labels".to_string(),
                avg_cpu: 72,
                avg_fps: 61,
                avg_time: 10,
                render_time: 2,
                flush_time: 8,
            },
            Scene {
                scene_name: "Screen sized text".to_string(),
                avg_cpu: 80,
                avg_fps: 60,
                avg_time: 14,
                render_time: 5,
                flush_time: 9,
            },
            Scene {
                scene_name: "Multiple arcs".to_string(),
                avg_cpu: 72,
                avg_fps: 61,
                avg_time: 9,
                render_time: 1,
                flush_time: 8,
            },
            Scene {
                scene_name: "Containers".to_string(),
                avg_cpu: 63,
                avg_fps: 61,
                avg_time: 9,
                render_time: 1,
                flush_time: 8,
            },
            Scene {
                scene_name: "Containers with overlay".to_string(),
                avg_cpu: 88,
                avg_fps: 58,
                avg_time: 14,
                render_time: 7,
                flush_time: 7,
            },
            Scene {
                scene_name: "Containers with opa".to_string(),
                avg_cpu: 71,
                avg_fps: 61,
                avg_time: 9,
                render_time: 1,
                flush_time: 8,
            },
            Scene {
                scene_name: "Containers with opa_layer".to_string(),
                avg_cpu: 76,
                avg_fps: 61,
                avg_time: 11,
                render_time: 3,
                flush_time: 8,
            },
            Scene {
                scene_name: "Containers with scrolling".to_string(),
                avg_cpu: 75,
                avg_fps: 61,
                avg_time: 11,
                render_time: 4,
                flush_time: 7,
            },
            Scene {
                scene_name: "Widgets demo".to_string(),
                avg_cpu: 32,
                avg_fps: 61,
                avg_time: 11,
                render_time: 2,
                flush_time: 9,
            },
            Scene {
                scene_name: "All scenes avg.".to_string(),
                avg_cpu: 64,
                avg_fps: 60,
                avg_time: 9,
                render_time: 2,
                flush_time: 7,
            },
        ];
    assert_eq!(actual, expected);
}

#[test]
fn report_without_title_line_holds_no_scene() {
    let text = "warning: unused variable\nEmpty screen, 35%, 56, 4, 0, 4\nmore text\n";
    assert_eq!(parse_scenes(text), Ok(vec![]));
    assert_eq!(parse_scenes(""), Ok(vec![]));
}

#[test]
fn table_without_rows_is_empty() {
    assert_eq!(parse_scenes("Benchmark Summary\n"), Ok(vec![]));
    assert_eq!(parse_scenes("Benchmark Summary\nName, Avg. CPU, Avg. FPS, Avg. time, render time, flush time\n"), Ok(vec![]));
    assert_eq!(parse_scenes("Benchmark Summary\nheader\n\nA, 1%, 2, 3, 4, 5\n"), Ok(vec![]));
}

#[test]
fn text_before_the_table_is_passed_over() {
    let table = "Benchmark Summary (9.4.0 dev)\nName, Avg. CPU, Avg. FPS, Avg. time, render time, flush time\nA, 1%, 2, 3, 4, 5\nB, 6%, 7, 8, 9, 10\n";
    let expected = vec![scene("A", 1, 2, 3, 4, 5), scene("B", 6, 7, 8, 9, 10)];
    assert_eq!(parse_scenes(table), Ok(expected.clone()));
    let noisy = format!("[ 12%] Building C object\na, b, c, d, e, f, g\n  Benchmark Summary indented is no title\n{}", table);
    assert_eq!(parse_scenes(&noisy), Ok(expected));
}

#[test]
fn headings_are_passed_over_whatever_they_hold() {
    let text = "Benchmark Summary\nno commas here\nA, 1%, 2, 3, 4, 5\n";
    assert_eq!(parse_scenes(text), Ok(vec![scene("A", 1, 2, 3, 4, 5)]));
}

#[test]
fn short_line_ends_the_table() {
    let text = "Benchmark Summary\nh\nA, 1%, 2, 3, 4, 5\nTotal, 5 scenes\nB, 6%, 7, 8, 9, 10\n";
    assert_eq!(parse_scenes(text), Ok(vec![scene("A", 1, 2, 3, 4, 5)]));
}

#[test]
fn columns_behind_the_sixth_are_not_read() {
    let text = "Benchmark Summary\nh\nA, 1%, 2, 3, 4, 5, x, y%\n";
    assert_eq!(parse_scenes(text), Ok(vec![scene("A", 1, 2, 3, 4, 5)]));
}

#[test]
fn duplicate_names_are_kept_in_order() {
    let text = "Benchmark Summary\nh\nA, 1%, 2, 3, 4, 5\nA, 6%, 7, 8, 9, 10\n";
    assert_eq!(
        parse_scenes(text),
        Ok(vec![scene("A", 1, 2, 3, 4, 5), scene("A", 6, 7, 8, 9, 10)])
    );
}

#[test]
fn carriage_returns_and_surrounding_blanks_are_trimmed() {
    let text = "Benchmark Summary\r\nh\r\n\t A , 1%,2,\u{a0}3 , 4, 5 \r\nB,-6%,+7,008,9,10";
    assert_eq!(
        parse_scenes(text),
        Ok(vec![scene("A ", 1, 2, 3, 4, 5), scene("B", -6, 7, 8, 9, 10)])
    );
}

#[test]
fn second_title_line_holds_the_headings() {
    let text = "Benchmark Summary\nBenchmark Summary again\nh\nA, 1%, 2, 3, 4, 5\nBenchmark Summary, 1%, 2, 3, 4, 5\nB, 6%, 7, 8, 9, 10\n";
    assert_eq!(parse_scenes(text), Ok(vec![]));
}

#[test]
fn line_behind_the_title_line_holds_the_headings() {
    let text = "Benchmark Summary\nBenchmark Summary, cpu, fps, avg, render, flush\nA, 1%, 2, 3, 4, 5\n";
    assert_eq!(parse_scenes(text), Ok(vec![scene("A", 1, 2, 3, 4, 5)]));
    let row_as_headings = "Benchmark Summary\nA, 1%, 2, 3, 4, 5\nB, 6%, 7, 8, 9, 10\n";
    assert_eq!(parse_scenes(row_as_headings), Ok(vec![scene("B", 6, 7, 8, 9, 10)]));
}

#[test]
fn row_that_begins_with_the_title_text_is_a_row() {
    let text = "Benchmark Summary\nh\nA, 1%, 2, 3, 4, 5\nBenchmark Summary, 6%, 7, 8, 9, 10\nB, 1%, 1, 1, 1, 1\n";
    assert_eq!(
        parse_scenes(text),
        Ok(vec![
            scene("A", 1, 2, 3, 4, 5),
            scene("Benchmark Summary", 6, 7, 8, 9, 10),
            scene("B", 1, 1, 1, 1, 1),
        ])
    );
    let faulty = "Benchmark Summary\nh\nA, 1%, 2, 3, 4, 5\nBenchmark Summary, 6, 7, 8, 9, 10\n";
    assert_eq!(
        parse_scenes(faulty),
        Err(Error::InvalidResultColumn(1, 1, " 6".to_string()))
    );
    let not_a_number = "Benchmark Summary\nh\nBenchmark Summary (9.4.0 dev), 6%, 7, 8, nine, 10\n";
    assert_eq!(
        parse_scenes(not_a_number),
        Err(Error::ParseIntFailed(0, 4, " nine".to_string(), IntErrorKind::InvalidDigit))
    );
}

#[test]
fn short_line_that_begins_with_the_title_text_ends_the_table() {
    let text = "Benchmark Summary\nh\nA, 1%, 2, 3, 4, 5\nB, 6%, 7, 8, 9, 10\nBenchmark Summary (second run)\nC, 11, 12, 13, 14, 15\n";
    assert_eq!(
        parse_scenes(text),
        Ok(vec![scene("A", 1, 2, 3, 4, 5), scene("B", 6, 7, 8, 9, 10)])
    );
    let second_table = "Benchmark Summary\nh\nA, 1%, 2, 3, 4, 5\nBenchmark Summary\nh\nB, 6%, 7, 8, 9, 10\n";
    assert_eq!(parse_scenes(second_table), Ok(vec![scene("A", 1, 2, 3, 4, 5)]));
}

#[test]
fn lines_behind_the_end_of_the_table_cause_no_error() {
    let text = "Benchmark Summary\nh\nA, 1%, 2, 3, 4, 5\n\nX, no percent, a, b, c, d\nY, 1%, 2, 3, 4\n";
    assert_eq!(parse_scenes(text), Ok(vec![scene("A", 1, 2, 3, 4, 5)]));
}

#[test]
fn missing_percent_names_row_and_text() {
    let text = "noise\nBenchmark Summary\nh\nA, 1%, 2, 3, 4, 5\nB, 6%, 7, 8, 9, 10\nC, 11, 12, 13, 14, 15\nD, 1%, 2, 3, 4, 5\n";
    assert_eq!(
        parse_scenes(text),
        Err(Error::InvalidResultColumn(2, 1, " 11".to_string()))
    );
    let first = "Benchmark Summary\nh\nA,, 2, 3, 4, 5\n";
    assert_eq!(
        parse_scenes(first),
        Err(Error::InvalidResultColumn(0, 1, "".to_string()))
    );
    let inner = "Benchmark Summary\nh\nA, 1% , 2, 3, 4, 5\n";
    assert_eq!(
        parse_scenes(inner),
        Err(Error::InvalidResultColumn(0, 1, " 1% ".to_string()))
    );
}

#[test]
fn bad_integer_names_row_column_text_and_reason() {
    let text = "Benchmark Summary\nh\nA, 1%, 2, 3, 4, 5\nB, 6%, 7, x8, 9, 10\n";
    assert_eq!(
        parse_scenes(text),
        Err(Error::ParseIntFailed(1, 3, " x8".to_string(), IntErrorKind::InvalidDigit))
    );
    let cpu = "Benchmark Summary\nh\nA, 1.5%, 2, 3, 4, 5\n";
    assert_eq!(
        parse_scenes(cpu),
        Err(Error::ParseIntFailed(0, 1, " 1.5".to_string(), IntErrorKind::InvalidDigit))
    );
    let empty = "Benchmark Summary\nh\nA, 1%, 2, 3, 4,\n";
    assert_eq!(
        parse_scenes(empty),
        Err(Error::ParseIntFailed(0, 5, "".to_string(), IntErrorKind::Empty))
    );
    let big = "Benchmark Summary\nh\nA, 1%, 2147483648, 3, 4, 5\n";
    assert_eq!(
        parse_scenes(big),
        Err(Error::ParseIntFailed(0, 2, " 2147483648".to_string(), IntErrorKind::PosOverflow))
    );
    let small = "Benchmark Summary\nh\nA, 1%, 2, 3, -2147483649, 5\n";
    assert_eq!(
        parse_scenes(small),
        Err(Error::ParseIntFailed(0, 4, " -2147483649".to_string(), IntErrorKind::NegOverflow))
    );
    let leftmost = "Benchmark Summary\nh\nA, 1%, a, b, c, d\n";
    assert_eq!(
        parse_scenes(leftmost),
        Err(Error::ParseIntFailed(0, 2, " a".to_string(), IntErrorKind::InvalidDigit))
    );
}

#[test]
fn extreme_values_are_read() {
    let text = "Benchmark Summary\nh\nA, -2147483648%, 2147483647, -0, +0, 0000000000000000012\n";
    assert_eq!(
        parse_scenes(text),
        Ok(vec![scene("A", i32::MIN, i32::MAX, 0, 0, 12)])
    );
}
