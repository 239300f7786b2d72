use lines_are_rusty::color::line_to_css_color;
use lines_are_rusty::model::{BrushType, Color, LayerColor, Line};

fn palette(prefix: &str) -> LayerColor {
    LayerColor {
        black: format!("{prefix}-black"),
        grey: format!("{prefix}-grey"),
        white: format!("{prefix}-white"),
        blue: format!("{prefix}-blue"),
        red: format!("{prefix}-red"),
        yellow: format!("{prefix}-yellow"),
        green: format!("{prefix}-green"),
        pink: format!("{prefix}-pink"),
        gray_overlapping: format!("{prefix}-overlap"),
    }
}

fn line_with(color: Color, brush_type: BrushType) -> Line {
    Line { points: vec![], color, brush_type }
}

#[test]
fn highlighter_always_wins() {
    let colors = vec![palette("l0"), palette("l1")];
    for c in [Color::Black, Color::Red, Color::GrayOverlapping] {
        let line = line_with(c, BrushType::Highlighter);
        assert_eq!(line_to_css_color(&line, 0, &colors), "rgb(240, 220, 40)");
        assert_eq!(line_to_css_color(&line, 1, &colors), "rgb(240, 220, 40)");
        // Even without any palette at all.
        assert_eq!(line_to_css_color(&line, 9, &[]), "rgb(240, 220, 40)");
    }
}

#[test]
fn semantic_color_selects_the_layer_palette_slot() {
    let colors = vec![palette("l0"), palette("l1")];
    let cases = [
        (Color::Black, "black"),
        (Color::Grey, "grey"),
        (Color::White, "white"),
        (Color::Blue, "blue"),
        (Color::Red, "red"),
        (Color::Yellow, "yellow"),
        (Color::Green, "green"),
        (Color::Pink, "pink"),
        (Color::GrayOverlapping, "overlap"),
    ];
    for (c, slot) in cases {
        let line = line_with(c, BrushType::Pen);
        assert_eq!(line_to_css_color(&line, 0, &colors), format!("l0-{slot}"));
        assert_eq!(line_to_css_color(&line, 1, &colors), format!("l1-{slot}"));
    }
}

#[test]
fn out_of_range_layer_falls_back_to_the_structural_default() {
    let colors = vec![palette("l0"), palette("l1")];
    let line = line_with(Color::Blue, BrushType::Brush);
    let resolved = line_to_css_color(&line, 2, &colors);
    // The default palette is empty, and in particular no other layer's
    // entry is borrowed.
    assert_eq!(resolved, "");
    assert_ne!(resolved, colors[1].blue);
}

#[test]
fn default_palette_is_all_empty() {
    let d = LayerColor::default();
    for s in [
        &d.black, &d.grey, &d.white, &d.blue, &d.red, &d.yellow, &d.green, &d.pink,
        &d.gray_overlapping,
    ] {
        assert_eq!(s, "");
    }
}
