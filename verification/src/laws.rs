//! Laws of the engine: properties that relate several operations, stated
//! over the same spec functions the operations' contracts use.
//!
//! - [`lemma_span_ordering`]: the emitted span order is the reverse of
//!   lexicographic name order, one contiguous value-then-label pair per
//!   visible entry.
//! - [`lemma_toggle_twice_one_rebuild`]: toggling visibility twice
//!   restores it, and the two following ticks rebuild exactly once.
//! - [`lemma_no_layout_thrash`]: any number of color changes between two
//!   ticks triggers no rebuild and moves no span.
//! - [`lemma_deferred_color_under_rebuild`]: a color change that shares
//!   its inter-tick window with an added entry is realized by that tick's
//!   rebuild, never as a separate color edit.
//! - [`lemma_edits_stay_in_range`]: an update pass never addresses a span
//!   outside the list the last rebuild emitted.

use crate::order::lex_lt;
use crate::registry::{
    find_name, has_name, insert_pos, lemma_find_name_props, lemma_insert_pos_props, map_named,
    sorted_entries, spec_add, vis_from, EntryView, RegistryView,
};
use crate::span::EditView;
use crate::style::Color;
use crate::sync::{
    edits_from, edits_of, entry_edits, entry_spans, label_span, rebuilt_entries, spans_from,
    spans_of, spec_tick, tick_rebuilds, value_span,
};
use vstd::prelude::*;

verus! {

/// Each remaining visible entry contributes exactly two spans.
pub proof fn lemma_spans_from_len(s: Seq<EntryView>, i: int)
    ensures
        spans_from(s, i).len() == 2 * vis_from(s, i) as int,
    decreases s.len() - i,
{
    if 0 <= i && i < s.len() {
        lemma_spans_from_len(s, i + 1);
    }
}

/// Dropping entries from the front of the walk never increases the count
/// of visible ones.
pub proof fn lemma_vis_from_mono(s: Seq<EntryView>, a: int, b: int)
    requires
        0 <= a <= b,
    ensures
        vis_from(s, a) >= vis_from(s, b),
    decreases b - a,
{
    if a < b {
        lemma_vis_from_mono(s, a + 1, b);
    }
}

/// Within the walk that starts at `k`, the spans of visible entry `i`
/// stand exactly where the visible entries after it end: the value span
/// at twice their count, the label span right after it.
proof fn lemma_entry_position_from(s: Seq<EntryView>, k: int, i: int)
    requires
        0 <= k <= i < s.len(),
        s[i].show,
    ensures
        2 * vis_from(s, i + 1) as int + 1 < spans_from(s, k).len(),
        spans_from(s, k)[2 * vis_from(s, i + 1) as int] == value_span(s[i]),
        spans_from(s, k)[2 * vis_from(s, i + 1) as int + 1] == label_span(s[i]),
    decreases i - k,
{
    lemma_spans_from_len(s, k);
    lemma_spans_from_len(s, k + 1);
    if i == k {
        assert(vis_from(s, k) == 1 + vis_from(s, k + 1));
        assert(entry_spans(s[k])[0] == value_span(s[k]));
        assert(entry_spans(s[k])[1] == label_span(s[k]));
    } else {
        lemma_entry_position_from(s, k + 1, i);
        lemma_vis_from_mono(s, k + 1, i);
        assert(vis_from(s, i) == 1 + vis_from(s, i + 1));
        assert(spans_from(s, k)[2 * vis_from(s, i + 1) as int] == spans_from(s, k + 1)[2
            * vis_from(s, i + 1) as int]);
        assert(spans_from(s, k)[2 * vis_from(s, i + 1) as int + 1] == spans_from(s, k + 1)[2
            * vis_from(s, i + 1) as int + 1]);
    }
}

/// A visible entry's two spans stand contiguously in the emitted list,
/// value span first, at twice the count of visible entries after it.
pub proof fn lemma_entry_span_position(s: Seq<EntryView>, i: int)
    requires
        0 <= i < s.len(),
        s[i].show,
    ensures
        2 * vis_from(s, i + 1) as int + 1 < spans_of(s).len(),
        spans_of(s)[2 * vis_from(s, i + 1) as int] == value_span(s[i]),
        spans_of(s)[2 * vis_from(s, i + 1) as int + 1] == label_span(s[i]),
{
    lemma_entry_position_from(s, 0, i);
}

/// Ordering invariant: in a sorted registry the emitted span order is the
/// reverse of lexicographic name order.  Of two visible entries, the one
/// with the later name contributes its value-then-label span pair
/// strictly earlier in the list, and every visible entry's pair is
/// contiguous with the value span first.
pub proof fn lemma_span_ordering(s: Seq<EntryView>, i: int, j: int)
    requires
        sorted_entries(s),
        0 <= i < j < s.len(),
        s[i].show,
        s[j].show,
    ensures
        lex_lt(s[i].name, s[j].name),
        spans_of(s)[2 * vis_from(s, i + 1) as int] == value_span(s[i]),
        spans_of(s)[2 * vis_from(s, i + 1) as int + 1] == label_span(s[i]),
        spans_of(s)[2 * vis_from(s, j + 1) as int] == value_span(s[j]),
        spans_of(s)[2 * vis_from(s, j + 1) as int + 1] == label_span(s[j]),
        2 * vis_from(s, j + 1) as int + 1 < 2 * vis_from(s, i + 1) as int,
        2 * vis_from(s, i + 1) as int + 1 < spans_of(s).len(),
{
    lemma_entry_span_position(s, i);
    lemma_entry_span_position(s, j);
    lemma_vis_from_mono(s, i + 1, j);
    assert(vis_from(s, j) == 1 + vis_from(s, j + 1));
}

/// Dirty-flag idempotence: toggling an entry's visibility twice between
/// ticks restores every entry's visibility, and across the two following
/// ticks exactly one rebuild runs — the first tick rebuilds (the toggles
/// left the layout dirty), the second does not (the rebuild left it
/// clean).
///
/// `r1` and `r2` are the registry states that two chained `toggle` calls
/// leave behind, exactly as their contracts describe them.
pub proof fn lemma_toggle_twice_one_rebuild(
    r: RegistryView,
    r1: RegistryView,
    r2: RegistryView,
    name: Seq<char>,
)
    requires
        r.wf(),
        !r.layout_dirty,
        has_name(r.entries, name),
        r1.entries == map_named(
            r.entries,
            name,
            |e: EntryView| EntryView { show: !e.show, rebuild: true, ..e },
        ),
        r1.layout_dirty == (r.layout_dirty || has_name(r.entries, name)),
        r2.entries == map_named(
            r1.entries,
            name,
            |e: EntryView| EntryView { show: !e.show, rebuild: true, ..e },
        ),
        r2.layout_dirty == (r1.layout_dirty || has_name(r1.entries, name)),
    ensures
        r2.entries.len() == r.entries.len(),
        forall|i: int|
            0 <= i < r2.entries.len() ==> (#[trigger] r2.entries[i]).show == r.entries[i].show,
        tick_rebuilds(r2),
        !tick_rebuilds(spec_tick(r2)),
{
    lemma_find_name_props(r.entries, name);
    assert forall|i: int|
        0 <= i < r2.entries.len() implies (#[trigger] r2.entries[i]).show
        == r.entries[i].show by {}
}

/// A batch of value-color changes applied by name, in order.
pub open spec fn apply_value_colors(s: Seq<EntryView>, mods: Seq<(Seq<char>, Color)>) -> Seq<
    EntryView,
>
    decreases mods.len(),
{
    if mods.len() == 0 {
        s
    } else {
        apply_value_colors(
            map_named(
                s,
                mods[0].0,
                |e: EntryView| EntryView { value_color: mods[0].1, edit: true, ..e },
            ),
            mods.drop_first(),
        )
    }
}

/// A batch of value-color changes touches nothing structural: every
/// entry keeps its name, visibility, span position and rebuild flag, and
/// entries named by no change are wholly untouched.
pub proof fn lemma_value_colors_structure(s: Seq<EntryView>, mods: Seq<(Seq<char>, Color)>)
    ensures
        ({
            let t = apply_value_colors(s, mods);
            &&& t.len() == s.len()
            &&& forall|i: int|
                0 <= i < s.len() ==> ((#[trigger] t[i]).name == s[i].name && t[i].show == s[i].show
                    && t[i].index == s[i].index && t[i].rebuild == s[i].rebuild && t[i].path
                    == s[i].path && t[i].agg == s[i].agg && t[i].format == s[i].format
                    && t[i].show_name == s[i].show_name && t[i].label_color == s[i].label_color)
            &&& forall|i: int|
                0 <= i < s.len() && (forall|m: int|
                    0 <= m < mods.len() ==> (#[trigger] mods[m].0) != s[i].name) ==> (
                #[trigger] t[i]) == s[i]
        }),
    decreases mods.len(),
{
    if mods.len() > 0 {
        let s1 = map_named(
            s,
            mods[0].0,
            |e: EntryView| EntryView { value_color: mods[0].1, edit: true, ..e },
        );
        lemma_value_colors_structure(s1, mods.drop_first());
        let t = apply_value_colors(s, mods);
        assert forall|i: int|
            0 <= i < s.len() && (forall|m: int|
                0 <= m < mods.len() ==> (#[trigger] mods[m].0) != s[i].name) implies (
        #[trigger] t[i]) == s[i] by {
            assert(mods[0].0 != s[i].name);
            assert(s1[i] == s[i]);
            assert forall|m: int|
                0 <= m < mods.drop_first().len() implies (#[trigger] mods.drop_first()[m].0)
                != s1[i].name by {
                assert(mods.drop_first()[m] == mods[m + 1]);
            }
        }
    }
}

/// No layout thrash: any number of value-color changes between two ticks
/// leaves the layout clean, so the next tick is a single update pass with
/// no rebuild, against unchanged span positions.
pub proof fn lemma_no_layout_thrash(r: RegistryView, mods: Seq<(Seq<char>, Color)>)
    requires
        r.wf(),
        !r.layout_dirty,
    ensures
        ({
            let r2 = RegistryView {
                entries: apply_value_colors(r.entries, mods),
                alignment: r.alignment,
                layout_dirty: r.layout_dirty,
            };
            &&& r2.wf()
            &&& !tick_rebuilds(r2)
            &&& forall|i: int|
                0 <= i < r2.entries.len() ==> (#[trigger] r2.entries[i]).index
                    == r.entries[i].index
        }),
{
    let s = r.entries;
    let t = apply_value_colors(s, mods);
    lemma_value_colors_structure(s, mods);
    assert forall|a: int, b: int| 0 <= a < b < t.len() implies lex_lt(
        #[trigger] t[a].name,
        #[trigger] t[b].name,
    ) by {
        assert(t[a].name == s[a].name);
        assert(t[b].name == s[b].name);
    }
    crate::registry::lemma_same_structure_sync(s, t);
}

/// The span position an edit targets.
pub open spec fn edit_index(e: EditView) -> int {
    match e {
        EditView::SetText { index, .. } => index,
        EditView::SetColor { index, .. } => index,
    }
}

/// Every edit of an update pass over consistently indexed entries stays
/// inside the span list the last rebuild emitted: its position is below
/// twice the count of visible entries, which by [`lemma_spans_from_len`]
/// is that list's length.  An update can therefore never touch a span
/// that does not exist.
pub proof fn lemma_edits_stay_in_range(
    s: Seq<EntryView>,
    st: Seq<(Seq<char>, Seq<int>)>,
    i: int,
)
    requires
        crate::registry::all_synced(s),
        0 <= i,
    ensures
        forall|k: int|
            0 <= k < edits_from(s, st, i).len() ==> 0 <= edit_index(
                #[trigger] edits_from(s, st, i)[k],
            ) < 2 * vis_from(s, i) as int,
    decreases s.len() - i,
{
    if 0 <= i && i < s.len() {
        lemma_edits_stay_in_range(s, st, i + 1);
        assert(crate::registry::entry_synced(s, i));
        assert forall|k: int|
            0 <= k < edits_from(s, st, i).len() implies 0 <= edit_index(
            #[trigger] edits_from(s, st, i)[k],
        ) < 2 * vis_from(s, i) as int by {
            if k < edits_from(s, st, i + 1).len() {
                assert(edits_from(s, st, i)[k] == edits_from(s, st, i + 1)[k]);
            } else {
                assert(edits_from(s, st, i)[k] == entry_edits(s[i], st)[k - edits_from(
                    s,
                    st,
                    i + 1,
                ).len()]);
            }
        }
    }
}

/// A single entry with no pending visual edit emits no color edit.
proof fn lemma_entry_no_color_edits(e: EntryView, st: Seq<(Seq<char>, Seq<int>)>)
    requires
        !e.edit,
    ensures
        forall|k: int|
            0 <= k < entry_edits(e, st).len() ==> !((#[trigger] entry_edits(e, st)[k])
                is SetColor),
{
}

/// A registry whose entries all have their visual-edit flags clear emits
/// no color edit at all in the update phase.
pub proof fn lemma_no_color_edits(s: Seq<EntryView>, st: Seq<(Seq<char>, Seq<int>)>, i: int)
    requires
        forall|j: int| 0 <= j < s.len() ==> !(#[trigger] s[j]).edit,
    ensures
        forall|k: int|
            0 <= k < edits_from(s, st, i).len() ==> !((#[trigger] edits_from(s, st, i)[k])
                is SetColor),
    decreases s.len() - i,
{
    if 0 <= i && i < s.len() {
        lemma_no_color_edits(s, st, i + 1);
        lemma_entry_no_color_edits(s[i], st);
        assert forall|k: int|
            0 <= k < edits_from(s, st, i).len() implies !((#[trigger] edits_from(s, st, i)[k])
            is SetColor) by {
            if k < edits_from(s, st, i + 1).len() {
                assert(edits_from(s, st, i)[k] == edits_from(s, st, i + 1)[k]);
            } else {
                assert(edits_from(s, st, i)[k] == entry_edits(s[i], st)[k - edits_from(
                    s,
                    st,
                    i + 1,
                ).len()]);
            }
        }
    }
}

/// Registering one name leaves every other name present.
proof fn lemma_add_keeps_other_names(
    s: Seq<EntryView>,
    name: Seq<char>,
    path: Seq<char>,
    other: Seq<char>,
)
    requires
        other != name,
        has_name(s, other),
    ensures
        has_name(spec_add(s, name, path), other),
{
    lemma_find_name_props(s, other);
    let i = find_name(s, other);
    let p = insert_pos(s, name);
    lemma_insert_pos_props(s, name);
    let t = spec_add(s, name, path);
    if p < s.len() && s[p].name == name {
        assert(t[i].name == other);
        lemma_find_name_props(t, other);
    } else {
        s.insert_ensures(p, crate::registry::default_entry(name, path));
        if i < p {
            assert(t[i].name == other);
            lemma_find_name_props(t, other);
        } else {
            assert(t[i + 1].name == other);
            lemma_find_name_props(t, other);
        }
    }
}

/// Deferred update under dirty layout: when an entry is added (forcing a
/// rebuild) in the same inter-tick window as another entry's value-color
/// change, the next tick performs one full rebuild whose span list
/// already carries the new color at that entry's position, and the tick
/// emits no separate color edit.
///
/// `e2` is the entry sequence the two calls leave behind, exactly as
/// their contracts describe it.
pub proof fn lemma_deferred_color_under_rebuild(
    r: RegistryView,
    added: Seq<char>,
    path: Seq<char>,
    y: Seq<char>,
    c: Color,
    st: Seq<(Seq<char>, Seq<int>)>,
)
    requires
        r.wf(),
        !r.layout_dirty,
        has_name(r.entries, y),
        y != added,
    ensures
        ({
            let e2 = map_named(
                spec_add(r.entries, added, path),
                y,
                |e: EntryView| EntryView { value_color: c, edit: true, ..e },
            );
            let r2 = RegistryView { entries: e2, alignment: r.alignment, layout_dirty: true };
            let i = find_name(e2, y);
            &&& tick_rebuilds(r2)
            &&& 0 <= i < e2.len()
            &&& e2[i].value_color == c
            &&& (e2[i].show ==> spans_of(e2)[2 * vis_from(e2, i + 1) as int] == value_span(
                e2[i],
            ))
            &&& forall|k: int|
                0 <= k < edits_of(rebuilt_entries(e2), st).len() ==> !((#[trigger] edits_of(
                    rebuilt_entries(e2),
                    st,
                )[k]) is SetColor)
        }),
{
    let e1 = spec_add(r.entries, added, path);
    lemma_add_keeps_other_names(r.entries, added, path, y);
    let f = |e: EntryView| EntryView { value_color: c, edit: true, ..e };
    let e2 = map_named(e1, y, f);
    lemma_find_name_props(e1, y);
    let i1 = find_name(e1, y);
    assert forall|j: int| 0 <= j < e2.len() implies (#[trigger] e2[j]).name == e1[j].name by {}
    crate::registry::lemma_find_name_same_names(e1, e2, y);
    let i = find_name(e2, y);
    assert(i == i1);
    assert(e1[i].name == y);
    assert(e2[i] == f(e1[i]));
    if e2[i].show {
        lemma_entry_span_position(e2, i);
    }
    let rb = rebuilt_entries(e2);
    assert forall|j: int| 0 <= j < rb.len() implies !(#[trigger] rb[j]).edit by {
        assert(rb[j] == crate::sync::rebuilt_entry(e2, j));
    }
    lemma_no_color_edits(rb, st, 0);
}

} // verus!
