//! The two-phase per-tick synchronizer.
//!
//! Each tick either rebuilds the whole span list (when the layout is
//! dirty) or pushes in-place edits and fresh values into the existing one.
//! Entries are walked in reverse name order, so the last name
//! alphabetically renders first; each visible entry contributes exactly
//! one value span followed by one label span.

use crate::aggregate::spec_aggregate;
use crate::formatting::format_chars;
use crate::registry::{
    all_synced, entry_synced, lemma_same_structure_sync, lemma_vis_from_same, DiagnosticsText,
    EntryView, ScreenDiagnostics, MAX_ENTRIES, vis_from,
};
use crate::span::{edits_view, spans_view, EditView, Span, SpanEdit, SpanView};
use crate::store::{lookup, SampleStore};
use vstd::prelude::*;

verus! {

/// The text of an entry's label span: the name between single spaces, or
/// one space while the label is hidden.
pub open spec fn label_text(e: EntryView) -> Seq<char> {
    if e.show_name {
        seq![' '] + e.name + seq![' ']
    } else {
        seq![' ']
    }
}

/// The value span a rebuild emits for a visible entry: empty text until
/// the first update, in the entry's value color.
pub open spec fn value_span(e: EntryView) -> SpanView {
    SpanView { text: Seq::empty(), color: e.value_color }
}

/// The label span a rebuild emits for a visible entry.
pub open spec fn label_span(e: EntryView) -> SpanView {
    SpanView { text: label_text(e), color: e.label_color }
}

/// What one entry contributes to the span list: value span then label
/// span when visible, nothing otherwise.
pub open spec fn entry_spans(e: EntryView) -> Seq<SpanView> {
    if e.show {
        seq![value_span(e), label_span(e)]
    } else {
        Seq::empty()
    }
}

/// The spans of entries `s[i..]`, walked in reverse order: the last entry
/// contributes first.
pub open spec fn spans_from(s: Seq<EntryView>, i: int) -> Seq<SpanView>
    decreases s.len() - i,
{
    if i < 0 || i >= s.len() {
        Seq::empty()
    } else {
        spans_from(s, i + 1) + entry_spans(s[i])
    }
}

/// The whole span list a rebuild emits.
pub open spec fn spans_of(s: Seq<EntryView>) -> Seq<SpanView> {
    spans_from(s, 0)
}

/// An entry as a rebuild leaves it: its span position freshly assigned
/// (or cleared while invisible) and both dirty flags clear, everything
/// else untouched.
pub open spec fn rebuilt_entry(s: Seq<EntryView>, i: int) -> EntryView {
    EntryView {
        index: if s[i].show {
            Some(2 * vis_from(s, i + 1) as int)
        } else {
            None
        },
        rebuild: false,
        edit: false,
        ..s[i]
    }
}

/// The whole entry sequence as a rebuild leaves it.
pub open spec fn rebuilt_entries(s: Seq<EntryView>) -> Seq<EntryView> {
    Seq::new(s.len(), |i: int| rebuilt_entry(s, i))
}

/// What one entry contributes to an update pass over store snapshot `st`:
/// nothing while invisible; otherwise its pending visual edits (both
/// colors and the label text, at its assigned position), followed by a
/// fresh formatted value whenever the store holds a history under its key
/// and the aggregation yields a scalar.
pub open spec fn entry_edits(e: EntryView, st: Seq<(Seq<char>, Seq<int>)>) -> Seq<EditView> {
    if !e.show {
        Seq::empty()
    } else {
        (if e.edit && e.index is Some {
            seq![
                EditView::SetColor { index: e.index->0, color: e.value_color },
                EditView::SetColor { index: e.index->0 + 1, color: e.label_color },
                EditView::SetText { index: e.index->0 + 1, text: label_text(e) },
            ]
        } else {
            Seq::empty()
        }) + (match lookup(st, e.path) {
            Some(h) => match spec_aggregate(e.agg, h) {
                Some(v) => if e.index is Some {
                    seq![
                        EditView::SetText { index: e.index->0, text: format_chars(v, e.format) },
                    ]
                } else {
                    Seq::empty()
                },
                None => Seq::empty(),
            },
            None => Seq::empty(),
        })
    }
}

/// The edits of entries `s[i..]`, walked in reverse order.
pub open spec fn edits_from(s: Seq<EntryView>, st: Seq<(Seq<char>, Seq<int>)>, i: int) -> Seq<
    EditView,
>
    decreases s.len() - i,
{
    if i < 0 || i >= s.len() {
        Seq::empty()
    } else {
        edits_from(s, st, i + 1) + entry_edits(s[i], st)
    }
}

/// The whole edit list an update pass emits.
pub open spec fn edits_of(s: Seq<EntryView>, st: Seq<(Seq<char>, Seq<int>)>) -> Seq<EditView> {
    edits_from(s, st, 0)
}

/// An entry as an update pass leaves it: its visual edit realized and the
/// flag cleared; everything else untouched.
pub open spec fn updated_entry(e: EntryView) -> EntryView {
    if e.show && e.edit && e.index is Some {
        EntryView { edit: false, ..e }
    } else {
        e
    }
}

/// The whole entry sequence as an update pass leaves it.
pub open spec fn updated_entries(s: Seq<EntryView>) -> Seq<EntryView> {
    Seq::new(s.len(), |i: int| updated_entry(s[i]))
}

/// At most one visible entry per remaining position.
pub proof fn lemma_vis_from_le(s: Seq<EntryView>, i: int)
    requires
        0 <= i <= s.len(),
    ensures
        vis_from(s, i) <= s.len() - i,
    decreases s.len() - i,
{
    if i < s.len() {
        lemma_vis_from_le(s, i + 1);
    }
}

/// Whether a tick entered from registry state `r` performs a rebuild.
pub open spec fn tick_rebuilds(r: crate::registry::RegistryView) -> bool {
    r.layout_dirty
}

/// The registry state one tick leaves behind: rebuilt first when the
/// layout was dirty, then passed through the update phase, with the
/// layout clean either way.
pub open spec fn spec_tick(r: crate::registry::RegistryView) -> crate::registry::RegistryView {
    crate::registry::RegistryView {
        entries: if r.layout_dirty {
            updated_entries(rebuilt_entries(r.entries))
        } else {
            updated_entries(r.entries)
        },
        alignment: r.alignment,
        layout_dirty: false,
    }
}

/// What one tick hands the host: a whole new span list after a rebuild,
/// and the in-place edits of the update phase.
pub struct TickOutput {
    /// The new span list, present exactly when the tick rebuilt.
    pub rebuilt: Option<Vec<Span>>,
    /// In-place edits to apply after any rebuild, in order.
    pub edits: Vec<SpanEdit>,
}

impl DiagnosticsText {
    /// The text of this entry's label span.
    pub fn get_name(&self) -> (r: String)
        ensures
            r@ == label_text(self@),
    {
        proof {
            reveal_strlit(" ");
        }
        if self.show_name {
            let mut s = String::from_str(" ");
            s.append(self.name.as_str());
            s.append(" ");
            proof {
                assert(s@ =~= label_text(self@));
            }
            s
        } else {
            let s = String::from_str(" ");
            proof {
                assert(s@ =~= label_text(self@));
            }
            s
        }
    }
}

impl ScreenDiagnostics {
    /// The rebuild phase: reassigns every entry's span position, emits a
    /// whole new span list (empty value texts, current colors and labels),
    /// clears every dirty flag, and marks the layout clean.
    pub fn rebuild(&mut self) -> (spans: Vec<Span>)
        requires
            old(self)@.wf(),
        ensures
            final(self)@.entries == rebuilt_entries(old(self)@.entries),
            final(self)@.alignment == old(self)@.alignment,
            !final(self)@.layout_dirty,
            final(self)@.wf(),
            spans_view(spans@) == spans_of(old(self)@.entries),
    {
        let ghost s = old(self)@.entries;
        let len = self.diagnostics.len();

        // Count the visible entries, from the back so the count matches
        // the suffix counts the position assignment needs.
        let mut c: usize = 0;
        let mut i: usize = len;
        while i > 0
            invariant
                i <= len,
                len == s.len(),
                s == self@.entries,
                *self == *old(self),
                c == vis_from(s, i as int),
                c <= len - i,
            decreases i,
        {
            i = i - 1;
            proof {
                assert(s[i as int] == self.diagnostics@[i as int]@);
                lemma_vis_from_le(s, i as int);
            }
            if self.diagnostics[i].show {
                c = c + 1;
            }
        }

        // Assign positions and clear the dirty flags, front to back,
        // counting down how many visible entries remain.
        let mut rem: usize = c;
        let mut i: usize = 0;
        while i < len
            invariant
                i <= len,
                len == s.len(),
                len <= MAX_ENTRIES,
                self.diagnostics@.len() == len,
                self.text_alignment == old(self).text_alignment,
                self.layout_changed == old(self).layout_changed,
                rem == vis_from(s, i as int),
                forall|j: int| 0 <= j < i ==> self@.entries[j] == rebuilt_entry(s, j),
                forall|j: int| i <= j < len ==> self@.entries[j] == s[j],
            decreases len - i,
        {
            proof {
                assert(self@.entries[i as int] == s[i as int]);
                lemma_vis_from_le(s, i as int);
            }
            if self.diagnostics[i].show {
                self.diagnostics[i].index = Some(2 * (rem - 1));
                rem = rem - 1;
            } else {
                self.diagnostics[i].index = None;
            }
            self.diagnostics[i].rebuild = false;
            self.diagnostics[i].edit = false;
            proof {
                assert(self@.entries[i as int] =~= rebuilt_entry(s, i as int));
            }
            i = i + 1;
        }
        self.layout_changed = false;

        // Emit the spans, walking the entries in reverse name order.
        let mut spans: Vec<Span> = Vec::new();
        proof {
            assert(spans_view(spans@) =~= spans_from(s, len as int));
        }
        let mut i: usize = len;
        while i > 0
            invariant
                i <= len,
                len == s.len(),
                self.diagnostics@.len() == len,
                self.text_alignment == old(self).text_alignment,
                !self.layout_changed,
                forall|j: int| 0 <= j < len ==> self@.entries[j] == rebuilt_entry(s, j),
                spans_view(spans@) == spans_from(s, i as int),
            decreases i,
        {
            i = i - 1;
            proof {
                assert(self@.entries[i as int] == rebuilt_entry(s, i as int));
            }
            if self.diagnostics[i].show {
                spans.push(Span { text: String::new(), color: self.diagnostics[i].colors.0 });
                let label = self.diagnostics[i].get_name();
                spans.push(Span { text: label, color: self.diagnostics[i].colors.1 });
                proof {
                    assert(label_text(rebuilt_entry(s, i as int)) == label_text(s[i as int]));
                    assert(spans_view(spans@) =~= spans_from(s, i as int));
                }
            } else {
                proof {
                    assert(spans_from(s, i as int) =~= spans_from(s, i + 1));
                }
            }
        }

        proof {
            let t = self@.entries;
            assert(t =~= rebuilt_entries(s));
            assert forall|a: int, b: int|
                0 <= a < b < t.len() implies crate::order::lex_lt(
                #[trigger] t[a].name,
                #[trigger] t[b].name,
            ) by {
                assert(t[a].name == s[a].name);
                assert(t[b].name == s[b].name);
            }
            assert forall|j: int| 0 <= j < t.len() implies #[trigger] entry_synced(t, j) by {
                lemma_vis_from_same(s, t, j + 1);
            }
        }
        spans
    }

    /// The update phase: walks the entries in reverse name order, pushes
    /// pending color and label edits, clears their flags, and pushes a
    /// freshly formatted value for every visible entry whose history
    /// yields one.  A tick that still owes a rebuild does no work here,
    /// so stale span positions are never touched.
    pub fn update(&mut self, store: &SampleStore) -> (edits: Vec<SpanEdit>)
        requires
            old(self)@.wf(),
        ensures
            final(self)@.alignment == old(self)@.alignment,
            final(self)@.layout_dirty == old(self)@.layout_dirty,
            final(self)@.wf(),
            old(self)@.layout_dirty ==> *final(self) == *old(self) && edits@.len() == 0,
            !old(self)@.layout_dirty ==> final(self)@.entries == updated_entries(
                old(self)@.entries,
            ) && edits_view(edits@) == edits_of(old(self)@.entries, store@),
    {
        let ghost s = old(self)@.entries;
        let ghost st = store@;
        if self.layout_changed {
            return Vec::new();
        }
        let len = self.diagnostics.len();
        let mut edits: Vec<SpanEdit> = Vec::new();
        proof {
            assert(edits_view(edits@) =~= edits_from(s, st, len as int));
        }
        let mut i: usize = len;
        while i > 0
            invariant
                i <= len,
                len == s.len(),
                len <= MAX_ENTRIES,
                self.diagnostics@.len() == len,
                self.text_alignment == old(self).text_alignment,
                !self.layout_changed,
                !old(self).layout_changed,
                st == store@,
                all_synced(s),
                forall|j: int| 0 <= j < i ==> self@.entries[j] == s[j],
                forall|j: int| i <= j < len ==> self@.entries[j] == updated_entry(s[j]),
                edits_view(edits@) == edits_from(s, st, i as int),
            decreases i,
        {
            i = i - 1;
            proof {
                assert(self@.entries[i as int] == s[i as int]);
                assert(entry_synced(s, i as int));
                lemma_vis_from_le(s, i + 1);
            }
            let ghost edits_before = edits_view(edits@);
            if self.diagnostics[i].show {
                if self.diagnostics[i].edit {
                    if let Some(ix) = self.diagnostics[i].index {
                        edits.push(
                            SpanEdit::SetColor { index: ix, color: self.diagnostics[i].colors.0 },
                        );
                        edits.push(
                            SpanEdit::SetColor {
                                index: ix + 1,
                                color: self.diagnostics[i].colors.1,
                            },
                        );
                        let label = self.diagnostics[i].get_name();
                        edits.push(SpanEdit::SetText { index: ix + 1, text: label });
                        self.diagnostics[i].edit = false;
                    }
                }
                match store.get(self.diagnostics[i].path.as_str()) {
                    Some(history) => {
                        match crate::aggregate::aggregate(self.diagnostics[i].agg, history) {
                            Some(v) => {
                                if let Some(ix) = self.diagnostics[i].index {
                                    let text = self.diagnostics[i].format.render(v);
                                    edits.push(SpanEdit::SetText { index: ix, text });
                                }
                            },
                            None => {},
                        }
                    },
                    None => {},
                }
            }
            proof {
                assert(self@.entries[i as int] =~= updated_entry(s[i as int]));
                assert(label_text(updated_entry(s[i as int])) == label_text(s[i as int]));
                assert(edits_view(edits@) =~= edits_before + entry_edits(s[i as int], st));
                assert(edits_view(edits@) =~= edits_from(s, st, i as int));
            }
        }
        proof {
            let t = self@.entries;
            assert(t =~= updated_entries(s));
            assert forall|a: int, b: int|
                0 <= a < b < t.len() implies crate::order::lex_lt(
                #[trigger] t[a].name,
                #[trigger] t[b].name,
            ) by {
                assert(t[a].name == s[a].name);
                assert(t[b].name == s[b].name);
            }
            assert forall|j: int| 0 <= j < t.len() implies !(#[trigger] t[j]).rebuild by {
                assert(t[j] == updated_entry(s[j]));
            }
            lemma_same_structure_sync(s, t);
        }
        edits
    }

    /// One tick of the synchronizer: a rebuild first whenever the layout
    /// is dirty, then the update phase against the freshly assigned
    /// positions.  The tick leaves the layout clean; a host that replaces
    /// its spans with any rebuilt list and then applies the edits in
    /// order displays exactly what the registry prescribes.
    pub fn tick(&mut self, store: &SampleStore) -> (out: TickOutput)
        requires
            old(self)@.wf(),
        ensures
            final(self)@.wf(),
            final(self)@ == spec_tick(old(self)@),
            !final(self)@.layout_dirty,
            final(self)@.alignment == old(self)@.alignment,
            (out.rebuilt is Some) == tick_rebuilds(old(self)@),
            old(self)@.layout_dirty ==> ({
                let rebuilt = rebuilt_entries(old(self)@.entries);
                &&& out.rebuilt matches Some(spans) && spans_view(spans@) == spans_of(
                    old(self)@.entries,
                )
                &&& final(self)@.entries == updated_entries(rebuilt)
                &&& edits_view(out.edits@) == edits_of(rebuilt, store@)
            }),
            !old(self)@.layout_dirty ==> ({
                &&& out.rebuilt is None
                &&& final(self)@.entries == updated_entries(old(self)@.entries)
                &&& edits_view(out.edits@) == edits_of(old(self)@.entries, store@)
            }),
    {
        let rebuilt = if self.layout_changed {
            Some(self.rebuild())
        } else {
            None
        };
        let edits = self.update(store);
        TickOutput { rebuilt, edits }
    }
}

} // verus!
