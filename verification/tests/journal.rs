use bullet_journal::codec::{check_store_wf, load_chars, save_chars, StorageData};
use bullet_journal::command::{parse_buffer, Command};
use bullet_journal::date::Date;
use bullet_journal::state::{App, Key, Mode};
use bullet_journal::store::{Task, TaskStore, TaskType};

fn chars(s: &str) -> Vec<char> {
    s.chars().collect()
}

fn day(y: i64, m: u8, d: u8) -> Date {
    Date { year: y, month: m, day: d }
}

fn type_line(app: &mut App, line: &str) {
    for c in line.chars() {
        app.handle_key(Key::Char(c));
    }
}

fn assert_task_eq(a: &Task, b: &Task) {
    assert_eq!(a.content, b.content);
    assert!(a.task_type == b.task_type);
    assert_eq!(a.completed, b.completed);
    assert_eq!(a.due_date, b.due_date);
}

#[test]
fn add_keeps_call_order() {
    let mut store = TaskStore::empty();
    let d = day(2026, 10, 9);
    store.add(d, chars("first"), TaskType::Todo);
    store.add(d, chars("second"), TaskType::Note);
    store.add(d, chars("third"), TaskType::Event);
    let got = store.get(d);
    assert_eq!(got.len(), 3);
    assert_eq!(got[0].content, chars("first"));
    assert_eq!(got[1].content, chars("second"));
    assert_eq!(got[2].content, chars("third"));
    assert!(!got[0].completed);
    assert!(got[0].due_date.is_none());
}

#[test]
fn toggle_twice_restores_flag() {
    let mut store = TaskStore::empty();
    let d = day(2026, 10, 9);
    store.add(d, chars("a"), TaskType::Todo);
    assert!(!store.get(d)[0].completed);
    store.toggle(d, 0);
    assert!(store.get(d)[0].completed);
    store.toggle(d, 0);
    assert!(!store.get(d)[0].completed);
}

#[test]
fn delete_shifts_later_tasks_down() {
    let mut store = TaskStore::empty();
    let d = day(2026, 10, 9);
    store.add(d, chars("a"), TaskType::Todo);
    store.add(d, chars("b"), TaskType::Todo);
    store.add(d, chars("c"), TaskType::Todo);
    store.delete(d, 1);
    let got = store.get(d);
    assert_eq!(got.len(), 2);
    assert_eq!(got[0].content, chars("a"));
    assert_eq!(got[1].content, chars("c"));
}

#[test]
fn delete_to_empty_keeps_key() {
    let mut store = TaskStore::empty();
    let d = day(2026, 10, 9);
    store.add(d, chars("only"), TaskType::Todo);
    store.delete(d, 0);
    assert_eq!(store.get(d).len(), 0);
    // the emptied key is deliberately not pruned
    assert!(store.contains(d));
}

#[test]
fn invalid_toggle_and_delete_leave_store_unchanged() {
    let mut store = TaskStore::empty();
    let d = day(2026, 10, 9);
    let absent = day(2026, 10, 10);
    store.add(d, chars("a"), TaskType::Todo);
    store.toggle(absent, 0);
    store.delete(absent, 0);
    store.toggle(d, 1);
    store.delete(d, 7);
    let got = store.get(d);
    assert_eq!(got.len(), 1);
    assert_eq!(got[0].content, chars("a"));
    assert!(!got[0].completed);
    assert!(!store.contains(absent));
}

#[test]
fn parse_add() {
    assert_eq!(parse_buffer(&chars("add buy milk")), Command::AddTask(chars("buy milk")));
    assert_eq!(parse_buffer(&chars("  add buy milk  ")), Command::AddTask(chars("buy milk")));
    // trimming runs first, so a bare "add " loses its space and matches nothing
    assert_eq!(parse_buffer(&chars("add ")), Command::Invalid);
    assert_eq!(parse_buffer(&chars("add  x")), Command::AddTask(chars(" x")));
}

#[test]
fn parse_del_and_done() {
    assert_eq!(parse_buffer(&chars("del 2")), Command::DeleteTask(2));
    assert_eq!(parse_buffer(&chars("del x")), Command::Invalid);
    assert_eq!(parse_buffer(&chars("done 0")), Command::Toggle(0));
    assert_eq!(parse_buffer(&chars("done nine")), Command::Invalid);
    assert_eq!(parse_buffer(&chars("del +2")), Command::DeleteTask(2));
    assert_eq!(parse_buffer(&chars("del ")), Command::Invalid);
    assert_eq!(parse_buffer(&chars("del 99999999999999999999999")), Command::Invalid);
}

#[test]
fn parse_quit_and_invalid() {
    assert_eq!(parse_buffer(&chars("q")), Command::Quit);
    assert_eq!(parse_buffer(&chars("quit")), Command::Quit);
    assert_eq!(parse_buffer(&chars(" quit ")), Command::Quit);
    assert_eq!(parse_buffer(&chars("xyz")), Command::Invalid);
    assert_eq!(parse_buffer(&chars("")), Command::Invalid);
    assert_eq!(parse_buffer(&chars("   ")), Command::Invalid);
    assert_eq!(parse_buffer(&chars("quitt")), Command::Invalid);
    assert_eq!(parse_buffer(&chars("Add x")), Command::Invalid);
}

#[test]
fn command_mode_add_task_end_to_end() {
    let d = day(2026, 10, 9);
    let mut app = App::at(d, 0);
    assert!(app.mode == Mode::Normal);
    app.handle_key(Key::Char('m'));
    assert!(app.mode == Mode::Command);
    assert!(app.input_buffer.is_empty());
    type_line(&mut app, "add buy milk");
    app.handle_key(Key::Enter);
    assert!(app.mode == Mode::Normal);
    assert!(app.input_buffer.is_empty());
    let got = app.tasks.get(d);
    assert_eq!(got.len(), 2);
    assert_eq!(got[1].content, chars("buy milk"));
    assert!(got[1].task_type == TaskType::Todo);
    assert!(!got[1].completed);
}

#[test]
fn done_toggles_and_toggles_back_end_to_end() {
    let d = day(2026, 10, 9);
    let mut app = App::at(d, 0);
    app.handle_key(Key::Char('m'));
    type_line(&mut app, "done 0");
    app.handle_key(Key::Enter);
    assert!(app.tasks.get(d)[0].completed);
    app.handle_key(Key::Char('m'));
    type_line(&mut app, "done 0");
    app.handle_key(Key::Enter);
    assert!(!app.tasks.get(d)[0].completed);
}

#[test]
fn del_removes_task_end_to_end() {
    let d = day(2026, 10, 9);
    let mut app = App::at(d, 0);
    app.handle_key(Key::Char('m'));
    type_line(&mut app, "del 0");
    app.handle_key(Key::Enter);
    assert_eq!(app.tasks.get(d).len(), 0);
}

#[test]
fn next_then_prev_day_round_trip() {
    for d in [day(2026, 10, 9), day(2026, 12, 31), day(2024, 2, 29), day(2023, 3, 1)] {
        let mut app = App::at(d, 12345);
        app.next_day();
        app.prev_day();
        assert_eq!(app.current_date.date, d);
        assert_eq!(app.current_date.secs, 12345);
        app.prev_day();
        app.next_day();
        assert_eq!(app.current_date.date, d);
    }
}

#[test]
fn next_week_equals_seven_next_days() {
    for d in [day(2026, 10, 9), day(2026, 12, 28), day(2024, 2, 23), day(1999, 12, 31)] {
        let mut a = App::at(d, 0);
        let mut b = App::at(d, 0);
        a.next_week();
        for _ in 0..7 {
            b.next_day();
        }
        assert_eq!(a.current_date.date, b.current_date.date);
        let mut c = App::at(a.current_date.date, 0);
        c.prev_week();
        assert_eq!(c.current_date.date, d);
    }
}

#[test]
fn normal_mode_navigation_keys() {
    let d = day(2026, 10, 9);
    let mut app = App::at(d, 0);
    app.handle_key(Key::Char('j'));
    assert_eq!(app.current_date.date, day(2026, 10, 10));
    app.handle_key(Key::Char('k'));
    assert_eq!(app.current_date.date, d);
    app.handle_key(Key::Char('l'));
    assert_eq!(app.current_date.date, day(2026, 10, 16));
    app.handle_key(Key::Char('h'));
    assert_eq!(app.current_date.date, d);
}

#[test]
fn quit_keys_set_terminate_flag() {
    let mut app = App::at(day(2026, 10, 9), 0);
    app.handle_key(Key::Char('q'));
    assert!(app.should_quit);
    let mut app2 = App::at(day(2026, 10, 9), 0);
    app2.handle_key(Key::Char('f'));
    assert!(app2.mode == Mode::Future);
    app2.handle_key(Key::Char('q'));
    assert!(app2.should_quit);
    let mut app3 = App::at(day(2026, 10, 9), 0);
    app3.handle_key(Key::Char('m'));
    type_line(&mut app3, "quit");
    app3.handle_key(Key::Enter);
    assert!(app3.should_quit);
    assert!(app3.mode == Mode::Normal);
}

#[test]
fn escape_returns_to_normal_without_clearing_buffer() {
    let mut app = App::at(day(2026, 10, 9), 0);
    app.handle_key(Key::Char('i'));
    assert!(app.mode == Mode::Insert);
    type_line(&mut app, "abc");
    app.handle_key(Key::Esc);
    assert!(app.mode == Mode::Normal);
    // only entering Command mode clears the buffer
    assert_eq!(app.input_buffer, chars("abc"));
    app.handle_key(Key::Char('m'));
    assert!(app.mode == Mode::Command);
    assert!(app.input_buffer.is_empty());
}

#[test]
fn backspace_edits_buffer() {
    let mut app = App::at(day(2026, 10, 9), 0);
    app.handle_key(Key::Char('m'));
    type_line(&mut app, "ab");
    app.handle_key(Key::Backspace);
    assert_eq!(app.input_buffer, chars("a"));
    app.handle_key(Key::Backspace);
    app.handle_key(Key::Backspace);
    assert!(app.input_buffer.is_empty());
}

#[test]
fn invalid_command_changes_nothing_but_cleanup() {
    let d = day(2026, 10, 9);
    let mut app = App::at(d, 0);
    app.handle_key(Key::Char('m'));
    type_line(&mut app, "frobnicate");
    app.handle_key(Key::Enter);
    assert!(app.mode == Mode::Normal);
    assert!(app.input_buffer.is_empty());
    assert!(!app.should_quit);
    assert_eq!(app.tasks.get(d).len(), 1);
}

#[test]
fn new_app_starts_on_a_valid_date() {
    let app = App::new();
    assert!(app.mode == Mode::Normal);
    assert!(!app.should_quit);
    assert!(app.input_buffer.is_empty());
    assert!(app.current_date.date.is_valid());
    assert!(app.current_date.secs < 86400);
    let today = app.current_date.date;
    assert_eq!(app.tasks.get(today).len(), 1);
    assert_eq!(app.tasks.get(today)[0].content, chars("lalalal"));
}

#[test]
fn month_lengths() {
    assert_eq!(Date::month_len(2024, 2), 29);
    assert_eq!(Date::month_len(2023, 2), 28);
    assert_eq!(Date::month_len(1900, 2), 28);
    assert_eq!(Date::month_len(2000, 2), 29);
    assert_eq!(Date::month_len(2026, 4), 30);
    assert_eq!(Date::month_len(2026, 12), 31);
    assert!(!day(2026, 2, 29).is_valid());
    assert!(day(2024, 2, 29).is_valid());
    assert!(!day(2026, 13, 1).is_valid());
    assert!(!day(2026, 0, 1).is_valid());
}

#[test]
fn mode_names() {
    assert_eq!(Mode::Normal.name(), "Normal");
    assert_eq!(Mode::Insert.name(), "Insert");
    assert_eq!(Mode::Command.name(), "Command");
    assert_eq!(Mode::Plan.name(), "Plan");
    assert_eq!(Mode::Reflect.name(), "Reflect");
    assert_eq!(Mode::Future.name(), "Future");
}

#[test]
fn snapshot_round_trip_preserves_everything() {
    let mut store = TaskStore::empty();
    let d1 = day(2026, 10, 9);
    let d2 = day(-44, 3, 15);
    store.add(d1, chars("buy milk"), TaskType::Todo);
    store.add(d1, chars("line\nbreak and ünïcode"), TaskType::Note);
    store.add(d2, chars(""), TaskType::Event);
    store.toggle(d1, 0);
    let data = StorageData::new(store);
    let text = save_chars(&data.tasks);
    let reloaded = load_chars(&text).expect("the saved snapshot must load");
    assert!(check_store_wf(&reloaded));
    assert_eq!(reloaded.entries.len(), data.tasks.entries.len());
    for (a, b) in reloaded.entries.iter().zip(data.tasks.entries.iter()) {
        assert_eq!(a.date, b.date);
        assert_eq!(a.tasks.len(), b.tasks.len());
        for (x, y) in a.tasks.iter().zip(b.tasks.iter()) {
            assert_task_eq(x, y);
        }
    }
}

#[test]
fn snapshot_round_trip_with_due_dates() {
    let mut store = TaskStore::empty();
    let d = day(1970, 1, 1);
    store.add(d, chars("past"), TaskType::Todo);
    store.add(d, chars("future"), TaskType::Todo);
    store.entries[0].tasks[0].due_date = Some(-12345);
    store.entries[0].tasks[1].due_date = Some(1900000000);
    let text = save_chars(&store);
    let reloaded = load_chars(&text).expect("must load");
    assert_eq!(reloaded.entries[0].tasks[0].due_date, Some(-12345));
    assert_eq!(reloaded.entries[0].tasks[1].due_date, Some(1900000000));
}

#[test]
fn saved_text_is_readable() {
    let mut store = TaskStore::empty();
    store.add(day(2026, 10, 9), chars("buy milk"), TaskType::Todo);
    let text: String = save_chars(&store).into_iter().collect();
    assert_eq!(text, "@2026-10-09\n#T 0 _ 8:buy milk\n");
    let mut store2 = TaskStore::empty();
    store2.add(day(7, 1, 2), chars("x"), TaskType::Note);
    let text2: String = save_chars(&store2).into_iter().collect();
    assert_eq!(text2, "@0007-01-02\n#N 0 _ 1:x\n");
}

#[test]
fn corrupt_text_is_rejected() {
    assert!(load_chars(&chars("not a snapshot")).is_none());
    assert!(load_chars(&chars("@2026-13-01\n")).is_none());
    assert!(load_chars(&chars("@2026-02-30\n")).is_none());
    assert!(load_chars(&chars("@2026-10-09\n#T 0 _ 9:short\n")).is_none());
    assert!(load_chars(&chars("@2026-10-09\n#X 0 _ 1:a\n")).is_none());
    assert!(load_chars(&chars("@2026-10-09")).is_none());
    let empty = load_chars(&chars("")).expect("empty text is an empty store");
    assert_eq!(empty.entries.len(), 0);
}

#[test]
fn duplicate_keys_fail_the_store_check() {
    let ok = load_chars(&chars("@2026-10-09\n@2026-10-10\n")).expect("loads");
    assert!(check_store_wf(&ok));
    let dup = load_chars(&chars("@2026-10-09\n@2026-10-09\n")).expect("loads");
    assert!(!check_store_wf(&dup));
}

#[test]
fn add_task_and_toggle_task_methods() {
    let d = day(2026, 10, 9);
    let other = day(2026, 11, 1);
    let mut app = App::at(d, 0);
    app.add_task(chars("meeting"), TaskType::Event, other);
    assert!(app.tasks.contains(other));
    assert_eq!(app.tasks.get(other)[0].content, chars("meeting"));
    app.toggle_task(other, 0);
    assert!(app.tasks.get(other)[0].completed);
    // stale index: silently ignored
    app.toggle_task(other, 5);
    assert!(app.tasks.get(other)[0].completed);
}

#[test]
fn parse_command_reads_the_buffer() {
    let mut app = App::at(day(2026, 10, 9), 0);
    app.handle_key(Key::Char('m'));
    type_line(&mut app, "del 3");
    assert_eq!(app.parse_command(), Command::DeleteTask(3));
    // parsing alone must not change any state
    assert_eq!(app.input_buffer, chars("del 3"));
    assert!(app.mode == Mode::Command);
}
