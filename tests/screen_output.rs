use tedit::screen::{Rgb, Screen, Span, Style, TermOp};

fn style(v: u8) -> Style {
    Style { foreground: Rgb { r: v, g: v, b: v }, background: Rgb { r: 0, g: 0, b: 0 } }
}

fn glyphs(out: &[TermOp]) -> usize {
    out.iter().filter(|o| matches!(o, TermOp::Put(..))).count()
}

#[test]
fn first_present_sends_every_cell() {
    let mut s = Screen::with_default_style(style(1), 3, 2);
    let out = s.present();
    assert_eq!(glyphs(&out), 6);
    assert_eq!(out[0], TermOp::HideCursor);
    assert_eq!(out[1], TermOp::SetStyle(style(1)));
    assert_eq!(out[2], TermOp::Put(0, 0, ' '));
    assert_eq!(out[out.len() - 2], TermOp::Goto(0, 0));
    assert_eq!(out[out.len() - 1], TermOp::ShowCursor);
}

#[test]
fn second_present_sends_nothing() {
    let mut s = Screen::with_default_style(style(1), 4, 3);
    s.draw(0, 0, "hi");
    s.present();
    let out = s.present();
    assert_eq!(glyphs(&out), 0);
    assert_eq!(out, vec![TermOp::HideCursor, TermOp::SetStyle(style(1)), TermOp::Goto(0, 0), TermOp::ShowCursor]);
}

#[test]
fn only_changed_cells_are_sent() {
    let mut s = Screen::with_default_style(style(1), 4, 2);
    s.present();
    s.draw_with_style(1, 1, style(9), "ab");
    s.hide_cursor();
    let out = s.present();
    assert_eq!(
        out,
        vec![
            TermOp::HideCursor,
            TermOp::SetStyle(style(1)),
            TermOp::SetStyle(style(9)),
            TermOp::Put(1, 1, 'a'),
            TermOp::Put(2, 1, 'b'),
        ]
    );
}

#[test]
fn drawing_is_clipped_and_later_writes_win() {
    let mut s = Screen::with_default_style(style(1), 3, 1);
    s.present();
    s.draw(1, 0, "xyz");
    s.draw(2, 0, "q");
    s.draw(0, 5, "off screen");
    s.show_cursor_at(2, 0);
    let out = s.present();
    assert_eq!(
        out,
        vec![
            TermOp::HideCursor,
            TermOp::SetStyle(style(1)),
            TermOp::Put(1, 0, 'x'),
            TermOp::Put(2, 0, 'q'),
            TermOp::Goto(2, 0),
            TermOp::ShowCursor,
        ]
    );
}

#[test]
fn clear_blanks_the_frame() {
    let mut s = Screen::with_default_style(style(1), 2, 1);
    s.draw(0, 0, "ab");
    s.present();
    s.clear();
    s.hide_cursor();
    let out = s.present();
    assert_eq!(glyphs(&out), 2);
}

#[test]
fn spans_are_drawn_one_after_the_other() {
    let mut s = Screen::with_default_style(style(1), 5, 1);
    s.present();
    let spans = vec![
        Span { style: style(2), text: String::from("ab") },
        Span { style: style(3), text: String::from("c") },
    ];
    s.draw_ranges(1, 0, &spans);
    s.hide_cursor();
    let out = s.present();
    assert_eq!(
        out,
        vec![
            TermOp::HideCursor,
            TermOp::SetStyle(style(1)),
            TermOp::SetStyle(style(2)),
            TermOp::Put(1, 0, 'a'),
            TermOp::Put(2, 0, 'b'),
            TermOp::SetStyle(style(3)),
            TermOp::Put(3, 0, 'c'),
        ]
    );
}
