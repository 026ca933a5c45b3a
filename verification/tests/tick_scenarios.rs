//! Tick scenarios: the two-phase synchronizer end to end.

use screen_diagnostics::aggregate::Aggregate;
use screen_diagnostics::registry::ScreenDiagnostics;
use screen_diagnostics::span::{apply_edits, Span, SpanEdit};
use screen_diagnostics::store::SampleStore;
use screen_diagnostics::style::Color;

fn apply_tick(spans: &mut Vec<Span>, out: screen_diagnostics::sync::TickOutput) -> bool {
    let rebuilt = match out.rebuilt {
        Some(new_spans) => {
            *spans = new_spans;
            true
        }
        None => false,
    };
    apply_edits(spans, &out.edits);
    rebuilt
}

#[test]
fn end_to_end_two_entries() {
    // Register "fps" and "box_count", both instant, with histories
    // [60.0] and [7.0]; after one tick the rendered text reads, in
    // reverse name order, "60.00", " fps ", "7.00", " box_count ".
    let diags = ScreenDiagnostics::default();
    let mut diags = diags
        .add("fps".to_string(), "fps".to_string())
        .aggregate(Aggregate::Value)
        .finish()
        .add("box_count".to_string(), "box_count".to_string())
        .aggregate(Aggregate::Value)
        .finish();
    let mut store = SampleStore::new();
    store.record("fps".to_string(), vec![6000]);
    store.record("box_count".to_string(), vec![700]);

    let mut spans: Vec<Span> = Vec::new();
    let rebuilt = apply_tick(&mut spans, diags.tick(&store));
    assert!(rebuilt);

    let texts: Vec<&str> = spans.iter().map(|s| s.text.as_str()).collect();
    assert_eq!(texts, vec!["60.00", " fps ", "7.00", " box_count "]);
    assert_eq!(spans[0].color, Color::red());
    assert_eq!(spans[1].color, Color::white());
    assert_eq!(spans[2].color, Color::red());
    assert_eq!(spans[3].color, Color::white());
}

#[test]
fn missing_key_leaves_value_span_empty() {
    // An entry whose source key has no store entry keeps its initial
    // empty value span; nothing fails.
    let diags = ScreenDiagnostics::default();
    let mut diags = diags.add("fps".to_string(), "absent".to_string()).finish();
    let store = SampleStore::new();
    let mut spans: Vec<Span> = Vec::new();
    apply_tick(&mut spans, diags.tick(&store));
    assert_eq!(spans[0].text, "");
    assert_eq!(spans[1].text, " fps ");
}

#[test]
fn moving_average_waits_for_its_window() {
    let diags = ScreenDiagnostics::default();
    let mut diags = diags
        .add("ms".to_string(), "ms".to_string())
        .aggregate(Aggregate::MovingAverage(3))
        .finish();
    let mut store = SampleStore::new();
    store.record("ms".to_string(), vec![100, 200]);
    let mut spans: Vec<Span> = Vec::new();
    apply_tick(&mut spans, diags.tick(&store));
    assert_eq!(spans[0].text, "");

    store.record("ms".to_string(), vec![100, 200, 300, 400]);
    apply_tick(&mut spans, diags.tick(&store));
    assert_eq!(spans[0].text, "3.00");
}

#[test]
fn toggle_twice_causes_exactly_one_rebuild() {
    // Toggling visibility twice before any tick runs: visibility is back
    // to its original value, the first tick rebuilds once, the second
    // tick does not rebuild again.
    let diags = ScreenDiagnostics::default();
    let mut diags = diags.add("fps".to_string(), "fps".to_string()).finish();
    let store = SampleStore::new();
    diags.tick(&store);

    let mut diags = diags
        .modify("fps".to_string())
        .toggle()
        .toggle()
        .finish();
    let mut spans: Vec<Span> = Vec::new();
    let first = apply_tick(&mut spans, diags.tick(&store));
    let second = apply_tick(&mut spans, diags.tick(&store));
    assert!(first);
    assert!(!second);
    // Still visible: both spans are there.
    assert_eq!(spans.len(), 2);
}

#[test]
fn color_changes_do_not_rebuild() {
    // A batch of value-color changes between two ticks is realized as a
    // single update pass, with no rebuild.
    let diags = ScreenDiagnostics::default();
    let mut diags = diags
        .add("fps".to_string(), "fps".to_string())
        .finish()
        .add("ms".to_string(), "ms".to_string())
        .finish();
    let store = SampleStore::new();
    let mut spans: Vec<Span> = Vec::new();
    apply_tick(&mut spans, diags.tick(&store));

    let blue = Color { red: 0, green: 0, blue: 255, alpha: 255 };
    let mut diags = diags
        .modify("fps".to_string())
        .diagnostic_color(blue)
        .finish()
        .modify("ms".to_string())
        .diagnostic_color(blue)
        .finish();
    let out = diags.tick(&store);
    assert!(out.rebuilt.is_none());
    apply_edits(&mut spans, &out.edits);
    // Reverse name order: "ms" renders before "fps".
    assert_eq!(spans[0].color, blue);
    assert_eq!(spans[2].color, blue);
    assert_eq!(spans[1].color, Color::white());
    assert_eq!(spans[3].color, Color::white());
}

#[test]
fn deferred_color_change_rides_the_rebuild() {
    // An add forces a rebuild; a color change in the same window is
    // realized in the rebuilt spans' initial colors, not as a separate
    // color edit.
    let diags = ScreenDiagnostics::default();
    let mut diags = diags.add("fps".to_string(), "fps".to_string()).finish();
    let store = SampleStore::new();
    diags.tick(&store);

    let blue = Color { red: 0, green: 0, blue: 255, alpha: 255 };
    let mut diags = diags
        .add("ms".to_string(), "ms".to_string())
        .finish()
        .modify("fps".to_string())
        .diagnostic_color(blue)
        .finish();
    let out = diags.tick(&store);
    let spans = out.rebuilt.as_ref().expect("the add must force a rebuild");
    // Reverse name order: "ms" first, then "fps" with its new color.
    assert_eq!(spans[0].text, "");
    assert_eq!(spans[1].text, " ms ");
    assert_eq!(spans[2].color, blue);
    for e in &out.edits {
        assert!(matches!(e, SpanEdit::SetText { .. }));
    }
}

#[test]
fn update_skips_invisible_entries() {
    let diags = ScreenDiagnostics::default();
    let mut diags = diags
        .add("fps".to_string(), "fps".to_string())
        .toggle()
        .finish();
    let mut store = SampleStore::new();
    store.record("fps".to_string(), vec![6000]);
    let mut spans: Vec<Span> = Vec::new();
    apply_tick(&mut spans, diags.tick(&store));
    assert_eq!(spans.len(), 0);
    let out = diags.tick(&store);
    assert!(out.rebuilt.is_none());
    assert_eq!(out.edits.len(), 0);
}

#[test]
fn label_toggle_is_realized_in_place() {
    let diags = ScreenDiagnostics::default();
    let mut diags = diags.add("fps".to_string(), "fps".to_string()).finish();
    let store = SampleStore::new();
    let mut spans: Vec<Span> = Vec::new();
    apply_tick(&mut spans, diags.tick(&store));
    assert_eq!(spans[1].text, " fps ");

    let mut diags = diags.modify("fps".to_string()).toggle_name().finish();
    let out = diags.tick(&store);
    assert!(out.rebuilt.is_none());
    apply_edits(&mut spans, &out.edits);
    assert_eq!(spans[1].text, " ");

    let mut diags = diags.modify("fps".to_string()).toggle_name().finish();
    let out = diags.tick(&store);
    assert!(out.rebuilt.is_none());
    apply_edits(&mut spans, &out.edits);
    assert_eq!(spans[1].text, " fps ");
}

#[test]
fn name_color_is_an_in_place_edit() {
    let diags = ScreenDiagnostics::default();
    let mut diags = diags.add("fps".to_string(), "fps".to_string()).finish();
    let store = SampleStore::new();
    let mut spans: Vec<Span> = Vec::new();
    apply_tick(&mut spans, diags.tick(&store));

    let green = Color { red: 0, green: 255, blue: 0, alpha: 255 };
    let mut diags = diags.modify("fps".to_string()).name_color(green).finish();
    let out = diags.tick(&store);
    assert!(out.rebuilt.is_none());
    apply_edits(&mut spans, &out.edits);
    assert_eq!(spans[1].color, green);
    assert_eq!(spans[0].color, Color::red());
}

#[test]
fn update_defers_while_a_rebuild_is_owed() {
    // An update pass that observes a dirty layout performs no work that
    // tick; the pending rebuild is not lost.
    let diags = ScreenDiagnostics::default();
    let mut diags = diags.add("fps".to_string(), "fps".to_string()).finish();
    let mut store = SampleStore::new();
    store.record("fps".to_string(), vec![6000]);
    let edits = diags.update(&store);
    assert_eq!(edits.len(), 0);
    let out = diags.tick(&store);
    assert!(out.rebuilt.is_some());
}

#[test]
fn empty_registry_ticks_quietly() {
    let mut diags = ScreenDiagnostics::default();
    let store = SampleStore::new();
    let out = diags.tick(&store);
    assert!(out.rebuilt.is_none());
    assert_eq!(out.edits.len(), 0);
}

#[test]
fn values_refresh_between_ticks() {
    let diags = ScreenDiagnostics::default();
    let mut diags = diags.add("fps".to_string(), "fps".to_string()).finish();
    let mut store = SampleStore::new();
    store.record("fps".to_string(), vec![6000]);
    let mut spans: Vec<Span> = Vec::new();
    apply_tick(&mut spans, diags.tick(&store));
    assert_eq!(spans[0].text, "60.00");
    store.record("fps".to_string(), vec![6000, 5900]);
    apply_tick(&mut spans, diags.tick(&store));
    assert_eq!(spans[0].text, "59.00");
}
