use weesels::input::{place_cursor, Action, Key, LineEdit};
use weesels::messages::CompletionData;

fn make_completion(pos_start: i32, pos_end: i32, comp: &str, add_space: u8) -> CompletionData {
    CompletionData {
        context: String::new(),
        base_word: String::new(),
        add_space,
        pos_start,
        pos_end,
        list: vec![String::from(comp)],
    }
}

fn typed(s: &str) -> Vec<Key> {
    s.chars().map(Key::Char).collect()
}

#[test]
fn test_completion() {
    let mut line = LineEdit::new();
    line.complete(make_completion(0, 0, "", 0));
    assert_eq!("", line.get_string().as_str());
    assert_eq!(0, line.get_cursor());

    line.complete(make_completion(0, 0, "/he", 0));
    assert_eq!("/he", line.get_string().as_str());
    assert_eq!(3, line.get_cursor());

    line.complete(make_completion(1, 2, "help", 1));
    assert_eq!("/help ", line.get_string().as_str());
    assert_eq!(6, line.get_cursor());

    line.handle_input(&typed("x"));
    assert_eq!("/help x", line.get_string().as_str());

    line.clear();
    let mut line = LineEdit::with_text(vec!['f', 'o', 'o', 'x'], line.get_cursor());
    line.complete(make_completion(0, 2, "foobar", 1));
    assert_eq!("foobar x", line.get_string().as_str());
    assert_eq!(7, line.get_cursor());
}

#[test]
fn test_completion_unicode() {
    let mut line = LineEdit::new();
    line.handle_input(&typed("☃ /he"));
    assert_eq!(5, line.get_cursor());
    line.complete(make_completion(3, 4, "help", 0));
    assert_eq!("☃ /help", line.get_string().as_str());
}

#[test]
fn test_cursor_move() {
    let mut line = LineEdit::new();
    assert_eq!(0, line.get_cursor());
    line.handle_input(&typed("hello"));
    assert_eq!(5, line.get_cursor());
    line.handle_input(&vec![Key::Left]);
    assert_eq!(4, line.get_cursor());
    line.handle_input(&vec![Key::Left, Key::Left]);
    assert_eq!(2, line.get_cursor());
    line.handle_input(&vec![Key::Right]);
    assert_eq!(3, line.get_cursor());
}

#[test]
fn keys_that_end_a_run() {
    let mut line = LineEdit::new();
    assert_eq!(Action::Input, line.handle_input(&typed("hi\nthere")));
    assert_eq!("hi", line.get_string());
    assert_eq!(Action::Quit, line.handle_input(&vec![Key::Ctrl('c')]));
    assert_eq!(Action::ScrollBack, line.handle_input(&vec![Key::Up]));
    assert_eq!(Action::BufChange(-1), line.handle_input(&vec![Key::Ctrl('p')]));
    assert_eq!(Action::BufChange(1), line.handle_input(&vec![Key::Ctrl('n')]));
    assert_eq!(Action::BufChangeAbs(12), line.handle_input(&vec![Key::Alt('e')]));
    assert_eq!(Action::Noop, line.handle_input(&vec![Key::Alt('z')]));
}

#[test]
fn tab_asks_for_completion_with_newlines_dotted() {
    let mut line = LineEdit::new();
    line.handle_input(&vec![Key::Char('a'), Key::Alt('\r'), Key::Char('b')]);
    assert_eq!("a\nb", line.get_string());
    assert_eq!(
        Action::Completion(3, String::from("a.b")),
        line.handle_input(&vec![Key::Char('\t')])
    );
}

#[test]
fn backspace_and_clear_edit_the_text() {
    let mut line = LineEdit::new();
    line.handle_input(&typed("abc"));
    line.handle_input(&vec![Key::Left, Key::Backspace]);
    assert_eq!("ac", line.get_string());
    assert_eq!(1, line.get_cursor());
    line.handle_input(&vec![Key::Ctrl('u')]);
    assert_eq!("", line.get_string());
    assert_eq!(0, line.get_cursor());
    line.handle_input(&vec![Key::Backspace, Key::Left]);
    assert_eq!(0, line.get_cursor());
}

#[test]
fn completion_without_suggestions_changes_nothing() {
    let mut line = LineEdit::new();
    line.handle_input(&typed("ab"));
    let mut c = make_completion(0, 1, "x", 0);
    c.list.clear();
    line.complete(c);
    assert_eq!("ab", line.get_string());
    assert_eq!(2, line.get_cursor());
}

#[test]
fn test_wrap_input() {
    let scenarios = [
        ("", 0, ((0, 0), "")),
        ("foo", 3, ((3, 0), "foo")),
        ("foo bar", 3, ((3, 0), "foo\nbar")),
        ("foo bar", 7, ((3, 1), "foo\nbar")),
        ("foo  bar", 3, ((3, 0), "foo\nbar")),
        ("foobar", 6, ((2, 1), "foob\nar")),
    ];

    for (input, cursor, expected) in scenarios.iter() {
        let line = LineEdit::with_text(input.chars().collect(), *cursor);
        assert_eq!(
            (expected.0, String::from(expected.1)),
            line.get_wrapped(4),
            "wrapping {:?} with cursor at {}",
            input,
            cursor
        );
    }
}

#[test]
fn cursor_found_in_given_lines() {
    let lines = vec![String::from("ab"), String::from("c\u{9f}d"), String::from("e")];
    assert_eq!(((1, 1), String::from("ab\ncd\ne")), place_cursor(&lines));
    let lines = vec![String::from("中中\u{9f}")];
    assert_eq!(((4, 0), String::from("中中")), place_cursor(&lines));
}
