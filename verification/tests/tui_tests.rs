use totp_cli::screen::{KeyInput, LineDraw};
use totp_cli::totp::Totp;
use totp_cli::tui::totp_list_view::{create_line_items, format_totp, longest_string};
use totp_cli::tui::{TotpLineParagraph, TotpListView};

#[test]
fn find_longest_string() {
    let assertions = [
        (vec!["Hello", "Hello World!", "Wow!"], Some(12)),
        (vec!["Hello", "Wow!"], Some(5)),
        (vec!["", "Wow!"], Some(4)),
        (vec!["", ""], Some(0)),
        (vec![], None),
    ];

    for (input, expected) in assertions {
        assert_eq!(longest_string(&input), expected);
    }
}

#[test]
fn totp_list_view_totp_is_formatted_correctly() {
    let interval = 30;
    let digits = 6;

    let march_14_2020: u64 = 1_584_188_800;
    let assertions = [
        (
            "Acme Inc.         | 470961",
            Totp::new("Acme Inc.", "ZDPCQ3LXMFRGIZTDONSWMZDF", digits, interval),
        ),
        (
            "Gizmo Corporation | 783941",
            Totp::new("Gizmo Corporation", "54OMZJQ=", digits, interval),
        ),
        (
            "Foo Industries    | 022136",
            Totp::new("Foo Industries", "32XWIZLOMUVZWK4Q=", digits, interval),
        ),
    ];

    let name_max_length = 17;
    for (expected, input) in assertions {
        assert_eq!(
            expected,
            format_totp(&input, march_14_2020, name_max_length)
        );
    }
}

fn sample_totps() -> Vec<Totp> {
    vec![
        Totp::new("Acme Inc.", "ZDPCQ3LXMFRGIZTDONSWMZDF", 6, 30),
        Totp::new("Gizmo Corporation", "54OMZJQ=", 6, 30),
        Totp::new("Foo Industries", "32XWIZLOMUVZWK4Q=", 6, 30),
    ]
}

#[test]
fn line_items_are_padded_to_the_longest_name() {
    let totps = sample_totps();
    let items = create_line_items(&totps, 1_584_188_800);
    assert_eq!(items.len(), 3);
    assert_eq!(items[0].text, "Acme Inc.         | 470961");
    assert_eq!(items[1].text, "Gizmo Corporation | 783941");
    assert_eq!(items[2].text, "Foo Industries    | 022136");
    assert_eq!(items[2].value, totps[2]);
    assert!(!items[0].marked);
    assert!(items[0].modified);
}

#[test]
fn list_view_moves_and_copies_the_code_shown() {
    let mut view = TotpListView::new(1_584_188_800, 30, sample_totps());
    assert_eq!(view.current_index(), 0);
    assert_eq!(view.handle_event(KeyInput::Char('j')), None);
    assert_eq!(view.handle_event(KeyInput::Char('j')), None);
    assert_eq!(view.handle_event(KeyInput::Char('j')), None);
    assert_eq!(view.current_index(), 2);
    assert_eq!(view.handle_event(KeyInput::Enter), Some("022136".to_string()));
    assert_eq!(view.handle_event(KeyInput::Char('k')), None);
    assert_eq!(view.handle_event(KeyInput::Enter), Some("783941".to_string()));
    assert_eq!(view.handle_event(KeyInput::Other), None);
    assert_eq!(view.current_index(), 1);
}

#[test]
fn enter_copies_the_code_of_the_last_rebuild() {
    let mut view = TotpListView::new(1_584_188_800, 30, sample_totps());
    view.refresh_at(1_584_140_400);
    assert_eq!(view.built_at(), 1_584_140_400);
    let copied = view.handle_event(KeyInput::Enter).unwrap();
    let line = &view.line_items()[0].text;
    assert!(line.ends_with(&format!(" | {copied}")));
    assert_eq!(copied, sample_totps()[0].code_padded(1_584_140_400));
}

#[test]
fn list_view_draws_new_lines_once() {
    let mut view = TotpListView::new(1_584_188_800, 30, sample_totps());
    assert_eq!(
        view.display(),
        vec![
            LineDraw::Highlighted("Acme Inc.         | 470961".to_string()),
            LineDraw::Plain("Gizmo Corporation | 783941".to_string()),
            LineDraw::Plain("Foo Industries    | 022136".to_string()),
        ]
    );
    assert_eq!(
        view.display(),
        vec![LineDraw::Unchanged, LineDraw::Unchanged, LineDraw::Unchanged]
    );
    // Moving redraws the line left and the line reached.
    view.handle_event(KeyInput::Char('j'));
    assert_eq!(
        view.display(),
        vec![
            LineDraw::Plain("Acme Inc.         | 470961".to_string()),
            LineDraw::Highlighted("Gizmo Corporation | 783941".to_string()),
            LineDraw::Unchanged,
        ]
    );
    // Not moving past the end draws nothing.
    view.handle_event(KeyInput::Char('j'));
    view.display();
    view.handle_event(KeyInput::Char('j'));
    assert_eq!(
        view.display(),
        vec![LineDraw::Unchanged, LineDraw::Unchanged, LineDraw::Unchanged]
    );
    // A rebuild at a step start draws every line again.
    view.refresh_at(1_584_140_400);
    let draws = view.display();
    assert!(draws.iter().all(|d| *d != LineDraw::Unchanged));
    assert!(matches!(draws[2], LineDraw::Highlighted(_)));
}

#[test]
fn list_view_refresh_keeps_the_selection() {
    let mut view = TotpListView::new(1_584_188_800, 30, sample_totps());
    view.handle_event(KeyInput::Char('j'));
    view.refresh();
    assert_eq!(view.current_index(), 1);
    assert_eq!(view.line_items().len(), 3);
    assert_eq!(view.totps().len(), 3);
    assert_eq!(view.interval(), 30);
}

#[test]
fn progress_line_shows_seconds_used() {
    let mut line = TotpLineParagraph::new();
    assert_eq!(line.display(), Some(String::new()));
    assert_eq!(line.display(), None);
    line.update_line_text(30, 1_584_140_405);
    assert_eq!(line.line_paragraph.text, "05/30");
    assert_eq!(line.display(), Some("05/30".to_string()));
    line.update_line_text(30, 1_584_140_405);
    assert_eq!(line.display(), None);
    line.update_line_text(30, 1_584_140_429);
    assert_eq!(line.display(), Some("29/30".to_string()));
    line.update_line_text(120, 1_584_140_400 + 119);
    assert_eq!(line.display(), Some("119/120".to_string()));
}

#[test]
fn progress_line_refresh_uses_thirty_second_steps() {
    let mut line = TotpLineParagraph::new();
    line.refresh();
    assert!(line.line_paragraph.text.ends_with("/30"));
    assert_eq!(line.line_paragraph.text.len(), 5);
}

#[test]
fn list_view_refresh_at_a_step_start_shows_new_codes() {
    let mut view = TotpListView::new(1_584_188_800, 30, sample_totps());
    view.handle_event(KeyInput::Char('j'));
    view.display();
    // Not at the start of a step: nothing changes.
    view.refresh_at(1_584_188_801);
    assert_eq!(view.line_items()[0].text, "Acme Inc.         | 470961");
    assert!(!view.line_items()[1].modified);
    assert_eq!(view.built_at(), 1_584_188_800);
    // At the start of a step: new codes, fresh lines to draw, same index.
    view.refresh_at(1_584_140_400);
    let expected = create_line_items(&sample_totps(), 1_584_140_400);
    for (line, want) in view.line_items().iter().zip(expected.iter()) {
        assert_eq!(line.text, want.text);
        assert!(!line.marked);
        assert!(line.modified);
    }
    assert_ne!(view.line_items()[0].text, "Acme Inc.         | 470961");
    assert_eq!(view.current_index(), 1);
}

#[test]
fn refresh_gives_the_time_it_read() {
    let mut view = TotpListView::new(1_584_188_800, 30, sample_totps());
    let read = view.refresh().unwrap();
    assert!(read > 1_584_188_800);
    let mut line = TotpLineParagraph::new();
    let now = line.refresh().unwrap();
    assert_eq!(line.line_paragraph.text, format!("{:02}/30", now % 30));
}
