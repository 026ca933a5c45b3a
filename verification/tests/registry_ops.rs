//! Registry mutation: add, modify, remove, toggles, colors.

use screen_diagnostics::registry::ScreenDiagnostics;
use screen_diagnostics::span::{Span, SpanEdit};
use screen_diagnostics::store::SampleStore;
use screen_diagnostics::style::{Color, TextAlign};

fn labels(spans: &[Span]) -> Vec<String> {
    spans.iter().map(|s| s.text.clone()).collect()
}

#[test]
fn add_emits_value_and_label_spans() {
    let diags = ScreenDiagnostics::default();
    let mut diags = diags.add("fps".to_string(), "fps".to_string()).finish();
    let spans = diags.rebuild();
    assert_eq!(labels(&spans), vec!["".to_string(), " fps ".to_string()]);
    assert_eq!(spans[0].color, Color::red());
    assert_eq!(spans[1].color, Color::white());
}

#[test]
fn spans_come_in_reverse_name_order() {
    let diags = ScreenDiagnostics::default();
    let mut diags = diags
        .add("alpha".to_string(), "a".to_string())
        .finish()
        .add("zeta".to_string(), "z".to_string())
        .finish()
        .add("mid".to_string(), "m".to_string())
        .finish();
    let spans = diags.rebuild();
    assert_eq!(
        labels(&spans),
        vec![
            "".to_string(),
            " zeta ".to_string(),
            "".to_string(),
            " mid ".to_string(),
            "".to_string(),
            " alpha ".to_string(),
        ]
    );
}

#[test]
fn add_replaces_entry_wholesale() {
    let diags = ScreenDiagnostics::default();
    let diags = diags
        .add("fps".to_string(), "fps".to_string())
        .toggle_name()
        .finish();
    // Re-adding under the same name resets the entry to its defaults.
    let mut diags = diags.add("fps".to_string(), "other".to_string()).finish();
    let spans = diags.rebuild();
    assert_eq!(labels(&spans), vec!["".to_string(), " fps ".to_string()]);
}

#[test]
fn modify_unknown_name_is_a_no_op() {
    let diags = ScreenDiagnostics::default();
    let diags = diags.add("fps".to_string(), "fps".to_string()).finish();
    let mut diags = diags
        .modify("missing".to_string())
        .toggle()
        .diagnostic_color(Color::white())
        .finish();
    let spans = diags.rebuild();
    assert_eq!(labels(&spans), vec!["".to_string(), " fps ".to_string()]);
}

#[test]
fn remove_drops_the_entry() {
    let diags = ScreenDiagnostics::default();
    let mut diags = diags
        .add("fps".to_string(), "fps".to_string())
        .finish()
        .add("ms".to_string(), "ms".to_string())
        .finish();
    diags.rebuild();
    diags.remove("ms".to_string());
    let store = SampleStore::new();
    let out = diags.tick(&store);
    // Removal dirties the layout, so the next tick rebuilds without it.
    let spans = out.rebuilt.expect("removal must force a rebuild");
    assert_eq!(labels(&spans), vec!["".to_string(), " fps ".to_string()]);
}

#[test]
fn remove_unknown_name_is_a_no_op() {
    let diags = ScreenDiagnostics::default();
    let mut diags = diags.add("fps".to_string(), "fps".to_string()).finish();
    diags.rebuild();
    diags.remove("missing".to_string());
    let store = SampleStore::new();
    let out = diags.tick(&store);
    assert!(out.rebuilt.is_none());
}

#[test]
fn toggle_hides_the_entry() {
    let diags = ScreenDiagnostics::default();
    let mut diags = diags
        .add("fps".to_string(), "fps".to_string())
        .finish()
        .add("ms".to_string(), "ms".to_string())
        .toggle()
        .finish();
    let spans = diags.rebuild();
    assert_eq!(labels(&spans), vec!["".to_string(), " fps ".to_string()]);
}

#[test]
fn toggle_name_hides_the_label() {
    let diags = ScreenDiagnostics::default();
    let mut diags = diags
        .add("fps".to_string(), "fps".to_string())
        .toggle_name()
        .finish();
    let spans = diags.rebuild();
    assert_eq!(labels(&spans), vec!["".to_string(), " ".to_string()]);
}

#[test]
fn set_alignment_forces_a_rebuild() {
    let diags = ScreenDiagnostics::default();
    let mut diags = diags.add("fps".to_string(), "fps".to_string()).finish();
    let store = SampleStore::new();
    diags.tick(&store);
    diags.set_alignment(TextAlign::Center);
    let out = diags.tick(&store);
    assert!(out.rebuilt.is_some());
}

#[test]
fn out_of_range_edits_change_nothing() {
    let mut spans = vec![Span { text: "keep".to_string(), color: Color::red() }];
    let edits = vec![
        SpanEdit::SetText { index: 5, text: "lost".to_string() },
        SpanEdit::SetColor { index: 7, color: Color::white() },
        SpanEdit::SetText { index: 0, text: "new".to_string() },
    ];
    screen_diagnostics::span::apply_edits(&mut spans, &edits);
    assert_eq!(spans.len(), 1);
    assert_eq!(spans[0].text, "new");
    assert_eq!(spans[0].color, Color::red());
}

#[test]
fn store_record_and_get() {
    let mut store = SampleStore::new();
    store.record("fps".to_string(), vec![100, 200]);
    store.record("ms".to_string(), vec![300]);
    store.record("fps".to_string(), vec![900]);
    assert_eq!(store.get("fps"), Some(&vec![900i64]));
    assert_eq!(store.get("ms"), Some(&vec![300i64]));
    assert_eq!(store.get("missing"), None);
}
