//! The abstract render-span list and in-place edits to it.
//!
//! A span is one renderable unit: a text and a color.  A rebuild hands the
//! host a whole new span list; between rebuilds the engine hands it
//! individual edits.  [`apply_edits`] is the reference meaning of those
//! edits: what a host that applies them in order ends up displaying.

use crate::style::Color;
use vstd::prelude::*;

verus! {

/// One renderable unit of text with its color.
#[derive(Debug)]
pub struct Span {
    /// The displayed text.
    pub text: String,
    /// The text color.
    pub color: Color,
}

/// The mathematical image of a [`Span`].
#[verifier::ext_equal]
pub ghost struct SpanView {
    /// Text as a character sequence.
    pub text: Seq<char>,
    /// The text color.
    pub color: Color,
}

impl View for Span {
    type V = SpanView;

    open spec fn view(&self) -> SpanView {
        SpanView { text: self.text@, color: self.color }
    }
}

/// An in-place edit of one span in the rendered list.
#[derive(Debug)]
pub enum SpanEdit {
    /// Replace the text of the span at `index`.
    SetText {
        /// Position in the span list.
        index: usize,
        /// The new text.
        text: String,
    },
    /// Replace the color of the span at `index`.
    SetColor {
        /// Position in the span list.
        index: usize,
        /// The new color.
        color: Color,
    },
}

/// The mathematical image of a [`SpanEdit`].
#[verifier::ext_equal]
pub ghost enum EditView {
    /// Replace the text of the span at the position.
    SetText {
        /// Position in the span list.
        index: int,
        /// The new text.
        text: Seq<char>,
    },
    /// Replace the color of the span at the position.
    SetColor {
        /// Position in the span list.
        index: int,
        /// The new color.
        color: Color,
    },
}

impl View for SpanEdit {
    type V = EditView;

    open spec fn view(&self) -> EditView {
        match self {
            SpanEdit::SetText { index, text } => EditView::SetText {
                index: *index as int,
                text: text@,
            },
            SpanEdit::SetColor { index, color } => EditView::SetColor {
                index: *index as int,
                color: *color,
            },
        }
    }
}

/// The span list as a sequence of span images.
pub open spec fn spans_view(s: Seq<Span>) -> Seq<SpanView> {
    s.map_values(|x: Span| x@)
}

/// The edit list as a sequence of edit images.
pub open spec fn edits_view(s: Seq<SpanEdit>) -> Seq<EditView> {
    s.map_values(|x: SpanEdit| x@)
}

/// One edit applied to a span list.  An out-of-range position changes
/// nothing: the engine never emits one, but the meaning is total.
pub open spec fn apply_edit(spans: Seq<SpanView>, e: EditView) -> Seq<SpanView> {
    match e {
        EditView::SetText { index, text } => {
            if 0 <= index < spans.len() {
                spans.update(index, SpanView { text: text, color: spans[index].color })
            } else {
                spans
            }
        },
        EditView::SetColor { index, color } => {
            if 0 <= index < spans.len() {
                spans.update(index, SpanView { text: spans[index].text, color: color })
            } else {
                spans
            }
        },
    }
}

/// A whole edit list applied in order.
pub open spec fn apply_edits_view(spans: Seq<SpanView>, edits: Seq<EditView>) -> Seq<SpanView>
    decreases edits.len(),
{
    if edits.len() == 0 {
        spans
    } else {
        apply_edits_view(apply_edit(spans, edits[0]), edits.drop_first())
    }
}

/// Appending one more edit applies it last.
pub proof fn lemma_apply_edits_snoc(spans: Seq<SpanView>, edits: Seq<EditView>, e: EditView)
    ensures
        apply_edits_view(spans, edits.push(e)) == apply_edit(apply_edits_view(spans, edits), e),
    decreases edits.len(),
{
    if edits.len() == 0 {
        assert(edits.push(e)[0] == e);
        assert(edits.push(e).drop_first() =~= Seq::<EditView>::empty());
        assert(apply_edits_view(spans, edits.push(e)) == apply_edits_view(
            apply_edit(spans, e),
            Seq::<EditView>::empty(),
        ));
    } else {
        let spans2 = apply_edit(spans, edits[0]);
        assert(edits.push(e)[0] == edits[0]);
        assert(edits.push(e).drop_first() =~= edits.drop_first().push(e));
        assert(apply_edits_view(spans, edits.push(e)) == apply_edits_view(
            spans2,
            edits.drop_first().push(e),
        ));
        lemma_apply_edits_snoc(spans2, edits.drop_first(), e);
        assert(apply_edits_view(spans, edits) == apply_edits_view(spans2, edits.drop_first()));
    }
}

/// Applies `edits` to `spans` in order, realizing exactly
/// [`apply_edits_view`].
pub fn apply_edits(spans: &mut Vec<Span>, edits: &Vec<SpanEdit>)
    ensures
        spans_view(final(spans)@) == apply_edits_view(spans_view(old(spans)@), edits_view(edits@)),
{
    let ghost orig = spans_view(old(spans)@);
    let ghost evs = edits_view(edits@);
    let mut k: usize = 0;
    proof {
        assert(evs.take(0) =~= Seq::<EditView>::empty());
    }
    while k < edits.len()
        invariant
            k <= edits@.len(),
            evs == edits_view(edits@),
            spans_view(spans@) == apply_edits_view(orig, evs.take(k as int)),
        decreases edits@.len() - k,
    {
        proof {
            assert(evs.take(k + 1) =~= evs.take(k as int).push(evs[k as int]));
            lemma_apply_edits_snoc(orig, evs.take(k as int), evs[k as int]);
            assert(evs[k as int] == edits@[k as int]@);
        }
        let ghost before = spans_view(spans@);
        match &edits[k] {
            SpanEdit::SetText { index, text } => {
                if *index < spans.len() {
                    spans[*index].text = text.clone();
                    proof {
                        assert(spans_view(spans@) =~= apply_edit(before, evs[k as int]));
                    }
                } else {
                    proof {
                        assert(spans_view(spans@) =~= apply_edit(before, evs[k as int]));
                    }
                }
            },
            SpanEdit::SetColor { index, color } => {
                if *index < spans.len() {
                    spans[*index].color = *color;
                    proof {
                        assert(spans_view(spans@) =~= apply_edit(before, evs[k as int]));
                    }
                } else {
                    proof {
                        assert(spans_view(spans@) =~= apply_edit(before, evs[k as int]));
                    }
                }
            },
        }
        k = k + 1;
    }
    proof {
        assert(evs.take(evs.len() as int) =~= evs);
    }
}

} // verus!
