use te::app::{App, Key, Step};
use te::help_parser::Argument;

fn arg(name: &str, takes_value: bool) -> Argument {
    Argument {
        name: name.to_string(),
        description: String::new(),
        required: takes_value,
        takes_value,
    }
}

fn parts(words: &[&str]) -> Vec<String> {
    words.iter().map(|w| w.to_string()).collect()
}

fn three() -> App {
    App::new(
        parts(&["tool"]),
        vec![arg("-a", false), arg("--b", true), arg("--c", false)],
    )
}

fn set_value(app: &mut App, text: &str) {
    app.start_input();
    for c in text.chars() {
        app.push_input(c);
    }
    app.confirm_input();
}

#[test]
fn new_session_starts_on_first_flag() {
    let app = three();
    assert_eq!(app.cursor, Some(0));
    assert_eq!(app.selected_values, vec![String::new(); 3]);
    assert_eq!(app.preview_command, "tool");
    assert!(!app.input_mode);
    assert!(app.current_input.is_empty());
}

#[test]
fn new_session_without_flags_has_no_cursor() {
    let mut app = App::new(parts(&["ls", "-l"]), vec![]);
    assert_eq!(app.cursor, None);
    app.next();
    app.previous();
    app.start_input();
    assert_eq!(app.cursor, None);
    assert!(!app.input_mode);
    assert_eq!(app.preview_command, "ls -l");
}

#[test]
fn next_wraps_and_cycles() {
    let mut app = three();
    for start in 0..3 {
        app.cursor = Some(start);
        for _ in 0..3 {
            app.next();
        }
        assert_eq!(app.cursor, Some(start));
    }
    app.cursor = Some(2);
    app.next();
    assert_eq!(app.cursor, Some(0));
}

#[test]
fn previous_wraps_and_cycles() {
    let mut app = three();
    app.previous();
    assert_eq!(app.cursor, Some(2));
    for start in 0..3 {
        app.cursor = Some(start);
        for _ in 0..3 {
            app.previous();
        }
        assert_eq!(app.cursor, Some(start));
    }
}

#[test]
fn preview_follows_flag_order() {
    let base = parts(&["grep", "-r"]);
    let args = vec![arg("--output", true), arg("-i", false), arg("--max", true)];
    let values = parts(&["out.txt", "", ""]);
    assert_eq!(
        App::build_preview(&base, &args, &values),
        "grep -r --output out.txt"
    );
    let values = parts(&["", "yes", "3"]);
    assert_eq!(App::build_preview(&base, &args, &values), "grep -r -i --max 3");
}

#[test]
fn preview_is_the_same_on_equal_inputs() {
    let base = parts(&["tool"]);
    let args = vec![arg("--b", true)];
    let values = parts(&["v"]);
    let first = App::build_preview(&base, &args, &values);
    let mut app = three();
    set_value(&mut app, "z");
    let second = App::build_preview(&base.clone(), &args.clone(), &values.clone());
    assert_eq!(first, second);
    assert_eq!(first, "tool --b v");
}

#[test]
fn preview_of_empty_base_and_no_values_is_empty() {
    assert_eq!(App::build_preview(&[], &[arg("-x", false)], &parts(&[""])), "");
}

#[test]
fn confirm_stores_value_and_updates_preview() {
    let mut app = App::new(parts(&["grep", "-r"]), vec![arg("--output", true)]);
    set_value(&mut app, "out.txt");
    assert_eq!(app.selected_values[0], "out.txt");
    assert_eq!(app.preview_command, "grep -r --output out.txt");
    assert!(!app.input_mode);
    assert!(app.current_input.is_empty());
}

#[test]
fn flag_without_value_emits_only_its_name() {
    let mut app = three();
    set_value(&mut app, "on");
    assert_eq!(app.preview_command, "tool -a");
    app.next();
    set_value(&mut app, "x y");
    assert_eq!(app.preview_command, "tool -a --b x y");
}

#[test]
fn confirm_twice_with_same_buffer_is_idempotent() {
    let mut app = three();
    app.next();
    set_value(&mut app, "val");
    let values = app.selected_values.clone();
    let preview = app.preview_command.clone();
    app.input_mode = true;
    app.current_input = "val".to_string();
    app.confirm_input();
    assert_eq!(app.selected_values, values);
    assert_eq!(app.preview_command, preview);
}

#[test]
fn confirmed_value_seeds_next_edit() {
    let mut app = three();
    app.next();
    set_value(&mut app, "hello");
    app.start_input();
    assert!(app.input_mode);
    assert_eq!(app.current_input, "hello");
}

#[test]
fn confirming_empty_buffer_unsets_the_flag() {
    let mut app = three();
    set_value(&mut app, "on");
    assert_eq!(app.preview_command, "tool -a");
    app.start_input();
    app.pop_input();
    app.pop_input();
    assert_eq!(app.current_input, "");
    app.pop_input();
    app.confirm_input();
    assert_eq!(app.selected_values[0], "");
    assert_eq!(app.preview_command, "tool");
}

#[test]
fn cancel_keeps_values_and_preview() {
    let mut app = three();
    set_value(&mut app, "on");
    app.start_input();
    app.push_input('!');
    assert_eq!(app.current_input, "on!");
    app.cancel_input();
    assert!(!app.input_mode);
    assert!(app.current_input.is_empty());
    assert_eq!(app.selected_values[0], "on");
    assert_eq!(app.preview_command, "tool -a");
}

#[test]
fn keys_while_browsing() {
    let mut app = three();
    assert_eq!(app.handle_key(Key::Down), Step::Continue);
    assert_eq!(app.cursor, Some(1));
    assert_eq!(app.handle_key(Key::Up), Step::Continue);
    assert_eq!(app.cursor, Some(0));
    assert_eq!(app.handle_key(Key::Char { c: 'x', control: false }), Step::Continue);
    assert_eq!(app.handle_key(Key::Char { c: 'x', control: true }), Step::Execute);
    assert_eq!(app.handle_key(Key::Char { c: 'q', control: false }), Step::Abort);
    assert_eq!(app.handle_key(Key::Esc), Step::Abort);
    assert_eq!(app.handle_key(Key::Backspace), Step::Continue);
    assert!(!app.input_mode);
}

#[test]
fn keys_while_editing() {
    let mut app = three();
    app.handle_key(Key::Down);
    assert_eq!(app.handle_key(Key::Enter), Step::Continue);
    assert!(app.input_mode);
    for c in ['a', 'q', 'x'] {
        assert_eq!(app.handle_key(Key::Char { c, control: false }), Step::Continue);
    }
    assert_eq!(app.handle_key(Key::Char { c: 'x', control: true }), Step::Continue);
    assert_eq!(app.current_input, "aqxx");
    app.handle_key(Key::Backspace);
    assert_eq!(app.handle_key(Key::Esc), Step::Continue);
    assert!(!app.input_mode);
    app.handle_key(Key::Enter);
    for c in ['4', '2'] {
        app.handle_key(Key::Char { c, control: false });
    }
    assert_eq!(app.handle_key(Key::Enter), Step::Continue);
    assert_eq!(app.preview_command, "tool --b 42");
}
