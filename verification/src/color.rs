//! Resolution of a line's semantic color to a concrete CSS color string.
//!
//! Highlighter strokes always render in one fixed overlay tone, whatever
//! their declared color or layer. Every other stroke takes the string for
//! its semantic color from the palette entry of its containing layer; a
//! layer without a palette entry falls back to the structurally-default
//! palette, whose slots are all empty, rather than borrowing another
//! layer's colors. No input fails: unresolvable cases degrade to the
//! empty string.

use crate::model::{BrushType, Color, LayerColor, Line};
use vstd::prelude::*;

verus! {

/// The fixed overlay color of highlighter strokes.
pub open spec fn highlight_color() -> Seq<char> {
    "rgb(240, 220, 40)"@
}

/// The string a palette holds for one semantic color.
pub open spec fn color_field(lc: LayerColor, c: Color) -> Seq<char> {
    match c {
        Color::Black => lc.black@,
        Color::Grey => lc.grey@,
        Color::White => lc.white@,
        Color::Blue => lc.blue@,
        Color::Red => lc.red@,
        Color::Yellow => lc.yellow@,
        Color::Green => lc.green@,
        Color::Pink => lc.pink@,
        Color::GrayOverlapping => lc.gray_overlapping@,
    }
}

/// The color string a line renders with: the highlight tone for
/// highlighters; otherwise its layer's palette string for the line's
/// semantic color, or the default (empty) string when the palette has no
/// entry for that layer.
pub open spec fn resolved_color(line: Line, layer_idx: int, colors: Seq<LayerColor>) -> Seq<
    char,
> {
    if line.brush_type == BrushType::Highlighter {
        highlight_color()
    } else if layer_idx < colors.len() {
        color_field(colors[layer_idx], line.color)
    } else {
        Seq::empty()
    }
}

/// Resolves the concrete CSS color of `line`, drawn on layer `layer_idx`,
/// against the per-layer palette `layer_colors`.
pub fn line_to_css_color(line: &Line, layer_idx: usize, layer_colors: &[LayerColor]) -> (r:
    String)
    ensures
        r@ == resolved_color(*line, layer_idx as int, layer_colors@),
{
    match line.brush_type {
        BrushType::Highlighter => "rgb(240, 220, 40)".to_owned(),
        _ => {
            if layer_idx < layer_colors.len() {
                let lc = &layer_colors[layer_idx];
                match line.color {
                    Color::Black => lc.black.clone(),
                    Color::Grey => lc.grey.clone(),
                    Color::White => lc.white.clone(),
                    Color::Blue => lc.blue.clone(),
                    Color::Red => lc.red.clone(),
                    Color::Yellow => lc.yellow.clone(),
                    Color::Green => lc.green.clone(),
                    Color::Pink => lc.pink.clone(),
                    Color::GrayOverlapping => lc.gray_overlapping.clone(),
                }
            } else {
                let lc = LayerColor::default();
                match line.color {
                    Color::Black => lc.black,
                    Color::Grey => lc.grey,
                    Color::White => lc.white,
                    Color::Blue => lc.blue,
                    Color::Red => lc.red,
                    Color::Yellow => lc.yellow,
                    Color::Green => lc.green,
                    Color::Pink => lc.pink,
                    Color::GrayOverlapping => lc.gray_overlapping,
                }
            }
        },
    }
}

} // verus!
