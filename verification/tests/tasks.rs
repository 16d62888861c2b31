use boon::backends::{short_example_name, TerminalScreenCapture};
use boon::compiler::hex_digest;
use boon::dd::{NodeId, RenderCommand, SmokeOutput};
use boon::host::{completion_time, empty_structured_output, root_owner_key};
use boon::tasks::{
    content_type, content_type_for_path, old_renderer_hits, expected_dimensions_for_target, find_header_end,
    minimum_screenshot_bytes, old_renderer_patterns, screenshot_file_name, smoke_html,
    state_changed_terminal, static_request_path, terminal_frame_name, terminal_snapshot,
    text_contains, validate_terminal_capture, webdriver_key_value, required_screenshots,
    test_target_arg, validate_screenshot_stats, require_playground_examples,
    validate_fresh_artifact_report, ControlManifest, ImageStats, ManifestAction,
    ManifestExample,
};
use boon::strmap::StrMap;

fn capture(example: &str, text: &str) -> TerminalScreenCapture {
    TerminalScreenCapture {
        selected_example: example.to_owned(),
        render_output_text: text.to_owned(),
        selected_action_count: 0,
        selected_monitor_count: 0,
        input_buffer: String::new(),
        last_submitted_text: String::new(),
        nonblank_cells: 10,
        width: 120,
        height: 40,
        lines: vec![format!("> {example}")],
        interaction_log: Vec::new(),
    }
}

#[test]
fn snapshot_frames_the_first_text() {
    let output = SmokeOutput {
        monitor: Vec::new(),
        render: vec![RenderCommand::PatchText { node: NodeId("n".to_owned()), text: "1".to_owned() }],
        effects: Vec::new(),
        persistence: Vec::new(),
    };
    let snapshot = terminal_snapshot(&[output]);
    let lines: Vec<&str> = snapshot.lines().collect();
    assert_eq!(lines.len(), 42);
    assert_eq!(lines[0], format!("+{}+", "-".repeat(120)));
    assert_eq!(lines[1], format!("|1{}|", " ".repeat(119)));
    assert_eq!(lines[2], format!("|{}|", " ".repeat(120)));
    assert_eq!(lines[41], lines[0]);
    assert_eq!(terminal_snapshot(&[]).lines().nth(1).unwrap(), format!("|{}|", " ".repeat(120)));
}

#[test]
fn header_end_is_the_first_blank_line() {
    assert_eq!(find_header_end(b"GET / HTTP/1.1\r\nHost: x\r\n\r\nbody"), Some(23));
    assert_eq!(find_header_end(b"GET / HTTP/1.1\r\n"), None);
    assert_eq!(find_header_end(b""), None);
}

#[test]
fn static_paths_are_confined() {
    assert_eq!(static_request_path("/"), Ok("index.html".to_owned()));
    assert_eq!(static_request_path("/index.html"), Ok("index.html".to_owned()));
    assert_eq!(static_request_path("//pkg/app.js"), Ok("pkg/app.js".to_owned()));
    assert_eq!(
        static_request_path("/../secret"),
        Err("refusing unsafe static path: /../secret".to_owned())
    );
    assert_eq!(static_request_path("///"), Err("refusing unsafe static path: ///".to_owned()));
}

#[test]
fn content_types_follow_the_extension() {
    assert_eq!(content_type_for_path("dist/index.html"), "text/html");
    assert_eq!(content_type_for_path("pkg/app.js"), "text/javascript");
    assert_eq!(content_type_for_path("photo.jpeg"), "image/jpeg");
    assert_eq!(content_type_for_path("README"), "application/octet-stream");
    assert_eq!(content_type("pkg/app.js"), "application/javascript");
    assert_eq!(content_type("shot.png"), "image/png");
    assert_eq!(content_type("style.css"), "application/octet-stream");
}

#[test]
fn webdriver_keys() {
    assert_eq!(webdriver_key_value("Enter"), "\u{E006}");
    assert_eq!(webdriver_key_value("Esc"), "\u{E00C}");
    assert_eq!(webdriver_key_value("Space"), " ");
    assert_eq!(webdriver_key_value("Minus"), "-");
    assert_eq!(webdriver_key_value("q"), "q");
}

#[test]
fn screenshot_expectations() {
    assert_eq!(minimum_screenshot_bytes("terminal"), 1_000);
    assert_eq!(minimum_screenshot_bytes("browser"), 5_000);
    assert_eq!(minimum_screenshot_bytes("other"), 1_000);
    assert_eq!(expected_dimensions_for_target("terminal"), vec![(960, 560)]);
    assert_eq!(
        expected_dimensions_for_target("native"),
        vec![(1200, 800), (1912, 1948), (3828, 1948)]
    );
    assert_eq!(expected_dimensions_for_target("other"), vec![(1200, 800)]);
    assert_eq!(screenshot_file_name("terminal", "after"), "screen-after.png");
    assert_eq!(screenshot_file_name("native", "after"), "after.png");
    assert_eq!(terminal_frame_name(7, "txt"), "pty-frame-007.txt");
    assert_eq!(terminal_frame_name(1234, "png"), "pty-frame-1234.png");
}

#[test]
fn terminal_captures_are_validated() {
    let before = capture("counter", "0");
    let after = capture("counter", "1");
    assert!(state_changed_terminal(&before, &after));
    assert!(!state_changed_terminal(&before, &before));
    assert_eq!(validate_terminal_capture("counter", &before, &after), Ok(()));
    assert_eq!(
        validate_terminal_capture("todo_mvc", &before, &after),
        Err("terminal selected example mismatch".to_owned())
    );
    let mut blank = after.clone();
    blank.nonblank_cells = 0;
    assert_eq!(
        validate_terminal_capture("counter", &before, &blank),
        Err("terminal capture is blank".to_owned())
    );
    let mut unnamed = after.clone();
    unnamed.lines = vec!["nothing here".to_owned()];
    assert_eq!(
        validate_terminal_capture("counter", &before, &unnamed),
        Err("terminal screen does not include selected example name".to_owned())
    );
    assert_eq!(
        validate_terminal_capture("counter", &before, &before),
        Err("terminal after-action state did not change for counter".to_owned())
    );
}

#[test]
fn substring_search() {
    assert!(text_contains("hello world", "o w"));
    assert!(text_contains("abc", ""));
    assert!(!text_contains("abc", "abcd"));
    assert!(!text_contains("abc", "cb"));
}

#[test]
fn retired_renderer_patterns() {
    let patterns = old_renderer_patterns();
    assert_eq!(patterns.len(), 24);
    assert_eq!(patterns[7].name, "Scene");
    assert_eq!(patterns[7].needle, "struct Scene");
    assert_eq!(patterns[23].needle, "ui_rect.wgsl");
    assert!(smoke_html().starts_with("<!doctype html>\n<meta charset=\"utf-8\">\n"));
    assert!(smoke_html().contains("error.message + \"\\n\""));
}

#[test]
fn example_names_are_shortened_for_the_sidebar() {
    assert_eq!(short_example_name("temperature_converter"), "TEMP_CONVERTER");
    assert_eq!(short_example_name("list_retain_reactive"), "LIST_RETAIN_REACT");
    assert_eq!(short_example_name("counter"), "counter");
}

#[test]
fn hex_digests_are_lowercase_pairs() {
    assert_eq!(hex_digest(&[0x00, 0xAB, 0x7F]), "00ab7f");
    assert_eq!(hex_digest(&[]), "");
}

#[test]
fn host_defaults() {
    assert_eq!(completion_time(2), 11);
    assert_eq!(root_owner_key().0, "Root");
    let empty = empty_structured_output();
    assert!(empty.render.is_empty() && empty.monitor.is_empty());
}

#[test]
fn renderer_hits_are_numbered_by_line() {
    let patterns = old_renderer_patterns();
    let text = "fn a() {}\r\nlet x = wgpu::Device;\nglyph(c)\n";
    assert_eq!(old_renderer_hits(text, &patterns), vec![(2, "wgpu::"), (3, "glyph")]);
    assert_eq!(old_renderer_hits("", &patterns), vec![]);
    assert_eq!(old_renderer_hits("\n\nfillText", &patterns), vec![(3, "fillText")]);
}

fn stats(width: u32, height: u32, bytes: u64, colors: usize, opaque: u64) -> ImageStats {
    ImageStats {
        width,
        height,
        byte_size: bytes,
        unique_colors_sampled: colors,
        nontransparent_pixels: opaque,
        average_luma_hash: String::new(),
    }
}

#[test]
fn screenshots_are_measured_against_the_target() {
    assert_eq!(validate_screenshot_stats(&stats(1200, 800, 9_000, 40, 5), "a.png", "native"), Ok(()));
    assert_eq!(
        validate_screenshot_stats(&stats(1200, 800, 900, 40, 5), "a.png", "native"),
        Err("screenshot too small: a.png".to_owned())
    );
    assert_eq!(
        validate_screenshot_stats(&stats(640, 480, 9_000, 40, 5), "a.png", "native"),
        Err("screenshot dimensions 640x480 do not match expected [(1200, 800), (1912, 1948), (3828, 1948)] for native: a.png".to_owned())
    );
    assert_eq!(
        validate_screenshot_stats(&stats(960, 560, 9_000, 16, 5), "t.png", "terminal"),
        Err("screenshot appears blank or low-color placeholder: t.png".to_owned())
    );
}

#[test]
fn test_task_arguments() {
    let args = |items: &[&str]| items.iter().map(|s| s.to_string()).collect::<Vec<_>>();
    assert_eq!(test_target_arg(&args(&["--target", "browser"])), Ok("browser".to_owned()));
    assert_eq!(test_target_arg(&args(&["--target", "x", "--target", "native"])), Ok("native".to_owned()));
    assert_eq!(test_target_arg(&args(&[])), Err("missing --target".to_owned()));
    assert_eq!(test_target_arg(&args(&["--target"])), Err("missing --target".to_owned()));
    assert_eq!(test_target_arg(&args(&["--verbose"])), Err("unknown test argument: --verbose".to_owned()));
    assert_eq!(test_target_arg(&args(&["--target", "tv"])), Err("unknown test target: tv".to_owned()));
}

#[test]
fn screenshots_required_by_the_manifest() {
    let action = |kind: &str, name: Option<&str>| ManifestAction {
        kind: kind.to_owned(),
        name: name.map(str::to_owned),
        value: None,
        semantic: None,
        field: None,
    };
    let mut examples = StrMap::new();
    examples.insert(
        "counter".to_owned(),
        ManifestExample {
            required_targets: vec!["native".to_owned()],
            notes: None,
            actions: vec![
                action("screenshot", Some("initial")),
                action("click", Some("increment")),
                action("screenshot", None),
                action("screenshot", Some("after")),
            ],
        },
    );
    let manifest = ControlManifest { version: 1, targets: vec!["native".to_owned()], examples };
    assert_eq!(required_screenshots(&manifest, "counter"), vec!["initial".to_owned(), "after".to_owned()]);
}

fn all_required() -> Vec<String> {
    boon::examples::required_examples().iter().map(|s| s.to_string()).collect()
}

#[test]
fn playground_reports_must_load_every_required_example() {
    let loaded = all_required();
    assert_eq!(require_playground_examples("ply", Some(22), Some(&loaded), "{}"), Ok(()));
    assert_eq!(
        require_playground_examples("ply", None, Some(&loaded), "{}"),
        Err("playground artifact missing example_count".to_owned())
    );
    assert_eq!(
        require_playground_examples("ply", Some(3), Some(&loaded), "{}"),
        Err("ply playground loaded 3 examples; expected 22".to_owned())
    );
    assert_eq!(
        require_playground_examples("ply", Some(22), None, "{}"),
        Err("playground artifact missing loaded_examples".to_owned())
    );
    let mut short = loaded.clone();
    short.retain(|n| n != "latest" && n != "pong");
    assert_eq!(
        require_playground_examples("terminal", Some(22), Some(&short), "{x}"),
        Err("terminal playground did not load required example latest: {x}".to_owned())
    );
}

#[test]
fn fresh_artifact_reports_must_be_current_and_complete() {
    let all: Vec<String> = ["headless-matrix.json", "native-smoke.json", "browser-smoke.json", "no-old-renderers.json"]
        .iter()
        .map(|s| s.to_string())
        .collect();
    assert_eq!(validate_fresh_artifact_report(Some("abc"), "abc", Some(&all)), Ok(()));
    assert_eq!(
        validate_fresh_artifact_report(Some("abd"), "abc", Some(&all)),
        Err("fresh artifact report source hash is stale".to_owned())
    );
    assert_eq!(
        validate_fresh_artifact_report(None, "abc", Some(&all)),
        Err("fresh artifact report source hash is stale".to_owned())
    );
    assert_eq!(
        validate_fresh_artifact_report(Some("abc"), "abc", None),
        Err("fresh artifact report missing artifact hashes".to_owned())
    );
    let partial = vec!["headless-matrix.json".to_owned(), "browser-smoke.json".to_owned()];
    assert_eq!(
        validate_fresh_artifact_report(Some("abc"), "abc", Some(&partial)),
        Err("fresh artifact report missing hash for native-smoke.json".to_owned())
    );
}
