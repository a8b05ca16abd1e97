use tessera::display::DisplayCommand;
use tessera::logging::{fmt, EnvFilter};
use tessera::scene::{build_document_scene, display_commands_to_rects, fnv1a64, Pattern};
use tessera::script_host::{ScriptError, ScriptHost, StubScriptHost};
use tessera::scripts::ScriptSnippet;

#[test]
fn returns_unsupported_for_non_empty_scripts() {
    let mut host = StubScriptHost::default();
    let scripts = vec![ScriptSnippet {
        node_id: 2,
        code: "console.log('hi')".to_string(),
    }];

    let err = host.execute(&scripts).unwrap_err();
    assert_eq!(err, ScriptError::Unsupported { script_count: 1 });
    assert_eq!(host.captured(), scripts.as_slice());
}

#[test]
fn allows_empty_script_list() {
    let mut host = StubScriptHost::default();
    host.execute(&[]).unwrap();
    assert!(host.captured().is_empty());
}

#[test]
fn converts_display_commands() {
    let commands = vec![DisplayCommand::FillRect {
        x: 1,
        y: 2,
        width: 3,
        height: 4,
        color: [1, 2, 3, 4],
    }];

    let rects = display_commands_to_rects(&commands);
    assert_eq!(rects.len(), 1);
    assert_eq!(rects[0].x, 1);
    assert_eq!(rects[0].height, 4);
}

#[test]
fn text_commands_contribute_no_rects() {
    let commands = vec![
        DisplayCommand::FillRect {
            x: 0,
            y: 0,
            width: 5,
            height: 5,
            color: [0, 0, 0, 255],
        },
        DisplayCommand::DrawText {
            x: 4,
            y: 4,
            text: "label".to_string(),
            color: [9, 9, 9, 255],
        },
    ];
    let rects = display_commands_to_rects(&commands);
    assert_eq!(rects.len(), 1);
}

#[test]
fn parses_pattern_names() {
    assert_eq!(Pattern::parse("gradient"), Some(Pattern::Gradient));
    assert_eq!(Pattern::parse("solid"), Some(Pattern::Solid));
    assert_eq!(Pattern::parse("rects"), Some(Pattern::Rects));
    assert_eq!(Pattern::parse("sprites"), None);
}

#[test]
fn pattern_cycle_returns_to_start() {
    assert_eq!(Pattern::Gradient.next(), Pattern::Solid);
    assert_eq!(Pattern::Solid.next(), Pattern::Rects);
    assert_eq!(Pattern::Rects.next(), Pattern::Gradient);
    assert_eq!(
        Pattern::Gradient.next().next().next(),
        Pattern::Gradient
    );
}

#[test]
fn scene_keeps_markup_and_background_rect() {
    let scene = build_document_scene("<p>hello</p>", 320, 240);
    assert_eq!(scene.html, "<p>hello</p>");
    assert!(!scene.rects.is_empty());
    assert_eq!(scene.rects[0].x, 0);
    assert_eq!(scene.rects[0].y, 0);
    assert_eq!(scene.rects[0].width, 320);
    assert_eq!(scene.rects[0].height, 240);
    assert_eq!(scene.rects[0].color, [245, 245, 248, 255]);
}

#[test]
fn fnv1a64_matches_known_values() {
    assert_eq!(fnv1a64(&[]), 0xcbf29ce484222325);
    assert_eq!(fnv1a64(b"a"), 0xaf63dc4c8601ec8c);
    assert_eq!(fnv1a64(b"abc"), 0xe71fa2190541574b);
}

#[test]
fn logging_builder_installs_quietly() {
    fmt().with_env_filter(EnvFilter::new("debug")).init();
}
