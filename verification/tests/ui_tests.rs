use totp_cli::list_view::{LineItem, ListView};
use totp_cli::screen::{KeyInput, LineDraw};
use totp_cli::totp::Totp;
use totp_cli::ui::{format_totp, longest_name_char_count};

#[test]
fn ui_get_totp() {
    let totps = [
        Totp::new("Acme Inc.", "8n4mzt7w", 6, 30),
        Totp::new("Gizmo Corporation", "xkc2j8fh", 6, 30),
        Totp::new("Foo Industries", "9s6bk3jq", 6, 30),
        Totp::new("Bar Enterprises", "7h1lm5rp", 6, 30),
        Totp::new("Baz Inc.", "2v9d4k8c", 6, 30),
        Totp::new("Qux Limited", "5j6w7m2v", 6, 30),
        Totp::new("Quux Corp.", "3p8s1q9z", 6, 30),
        Totp::new("Corge Enterprises", "4y7e2u5k", 6, 30),
        Totp::new("Grault Inc.", "6f9h2l5m", 6, 30),
        Totp::new("Garply Co.", "1d4t7h2v", 6, 30),
    ];

    assert_eq!(17, longest_name_char_count(&totps).unwrap());
}

#[test]
fn ui_totp_is_formatted_correctly() {
    let march_14_2020: u64 = 1_584_188_800;
    let assertions = [
        (
            "Acme Inc.         | 640572",
            Totp::new("Acme Inc.", "8n4mzt7w", 6, 30),
        ),
        (
            "Gizmo Corporation | 087439",
            Totp::new("Gizmo Corporation", "xkc2j8fh", 6, 30),
        ),
        (
            "Foo Industries    | 771990",
            Totp::new("Foo Industries", "9s6bk3jq", 6, 30),
        ),
    ];

    for (expected, input) in assertions {
        assert_eq!(expected, format_totp(&input, march_14_2020, 17));
    }
}

#[test]
fn longest_name_counts_characters() {
    assert_eq!(longest_name_char_count(&[]), None);
    let totps = [Totp::new("\u{e9}t\u{e9}", "A", 6, 30), Totp::new("ab", "A", 6, 30)];
    assert_eq!(longest_name_char_count(&totps), Some(3));
}

#[test]
fn ui_name_padding_counts_characters() {
    let totp = Totp::new("\u{e9}", "8n4mzt7w", 6, 30);
    let line = format_totp(&totp, 1_584_188_800, 3);
    assert!(line.starts_with("\u{e9}   | "));
    // A name longer than the width is not cut.
    let line = format_totp(&totp, 1_584_188_800, 0);
    assert!(line.starts_with("\u{e9} | "));
}

fn three_lines() -> ListView {
    ListView::new(vec![LineItem::new("one"), LineItem::new("two"), LineItem::new("three")])
}

#[test]
fn plain_list_draws_changed_lines_once() {
    let mut list = three_lines();
    assert_eq!(
        list.display(),
        vec![
            LineDraw::Highlighted("one".to_string()),
            LineDraw::Plain("two".to_string()),
            LineDraw::Plain("three".to_string()),
        ]
    );
    assert_eq!(
        list.display(),
        vec![LineDraw::Unchanged, LineDraw::Unchanged, LineDraw::Unchanged]
    );
}

#[test]
fn plain_list_moves_and_redraws_the_two_lines() {
    let mut list = three_lines();
    list.display();
    assert_eq!(list.handle_event(KeyInput::Char('j')), None);
    assert_eq!(list.current_index, 1);
    assert_eq!(
        list.display(),
        vec![
            LineDraw::Plain("one".to_string()),
            LineDraw::Highlighted("two".to_string()),
            LineDraw::Unchanged,
        ]
    );
    list.handle_event(KeyInput::Char('k'));
    assert_eq!(list.current_index, 0);
    list.handle_event(KeyInput::Char('k'));
    assert_eq!(list.current_index, 0);
    assert_eq!(list.handle_event(KeyInput::Other), None);
    assert_eq!(list.handle_event(KeyInput::Char('x')), None);
    assert_eq!(list.current_index, 0);
}

#[test]
fn plain_list_stops_at_the_last_line() {
    let mut list = three_lines();
    list.display();
    list.handle_event(KeyInput::Char('j'));
    list.handle_event(KeyInput::Char('j'));
    list.display();
    list.handle_event(KeyInput::Char('j'));
    assert_eq!(list.current_index, 2);
    assert_eq!(
        list.display(),
        vec![LineDraw::Unchanged, LineDraw::Unchanged, LineDraw::Unchanged]
    );
}

#[test]
fn plain_list_enter_selects_the_current_text() {
    let mut list = three_lines();
    list.handle_event(KeyInput::Char('j'));
    assert_eq!(list.handle_event(KeyInput::Enter), Some("two".to_string()));
}

#[test]
fn plain_list_set_line_items_keeps_index() {
    let mut list = three_lines();
    list.handle_event(KeyInput::Char('j'));
    list.set_line_items(vec![LineItem::new("a"), LineItem::new("b")]);
    assert_eq!(list.current_index, 1);
    assert_eq!(list.line_items[0].text, "a");
    assert!(list.line_items[1].modified);
}
