use pswd::session::{
    command_of, out_of_range, render_plain_list, Action, Command, Pressed, Session, MAIN_PROMPT,
    PAGE_SIZE,
};
use pswd::storage::{unlock, DisplayMode, Meta, Record, Vault};
use pswd::ui::{KeyPress, MAX_INPUT};

fn named(id: i64, name: &str) -> Record {
    Record {
        id,
        app_name: name.to_string(),
        nick_name: String::new(),
        user_name: String::new(),
        user_id: String::new(),
        voucher: String::new(),
        register: String::new(),
        remark: String::new(),
        password_blob: String::new(),
        stamp: String::new(),
    }
}

fn many(n: usize) -> Vec<Record> {
    (0..n).map(|i| named(i as i64, &format!("app{i:03}"))).collect()
}

fn vault() -> Vault {
    unlock(&Meta::new(), Ok([1u8; 32])).ok().unwrap()
}

const RULE: &str = "------------------------------------------";

#[test]
fn short_list_is_drawn() {
    let mut s = Session::new();
    let records = many(2);
    s.clamp(records.len());
    let f = s.render_select_list(&records);
    assert_eq!(f.clear, 0);
    assert_eq!(
        f.lines,
        vec![
            "========== 密码库（共 2 条）==========",
            "\x1b[7m❯ [  1] app000\x1b[0m",
            "  [  2] app001",
            RULE,
        ]
    );
    s.press(2, KeyPress::Down);
    let f = s.render_select_list(&records);
    assert_eq!(f.clear, 4);
    assert_eq!(f.lines[2], "\x1b[7m❯ [  2] app001\x1b[0m");
}

#[test]
fn long_list_has_pages() {
    let mut s = Session::new();
    let records = many(31);
    for _ in 0..PAGE_SIZE {
        s.press(records.len(), KeyPress::Down);
    }
    let f = s.render_select_list(&records);
    assert_eq!(f.lines.len(), PAGE_SIZE + 2);
    assert_eq!(f.lines[0], "========== 密码库（共 31 条）  第 2/3 页==========");
    assert_eq!(f.lines[1], "\x1b[7m❯ [ 16] app015\x1b[0m");
    s.press(records.len(), KeyPress::PageDown);
    let f = s.render_select_list(&records);
    assert_eq!(f.clear, PAGE_SIZE + 2);
    assert_eq!(
        f.lines,
        vec![
            "========== 密码库（共 31 条）  第 3/3 页==========",
            "\x1b[7m❯ [ 31] app030\x1b[0m",
            RULE,
        ]
    );
}

#[test]
fn numbers_beyond_three_digits_are_wider() {
    let mut s = Session::new();
    let records = many(1001);
    assert_eq!(s.dispatch(records.len(), "1000".to_string()), Action::Open(999));
    let f = s.render_select_list(&records);
    assert!(f.lines.contains(&"\x1b[7m❯ [1000] app999\x1b[0m".to_string()));
}

#[test]
fn empty_list_says_so() {
    let mut s = Session::new();
    s.clamp(0);
    let f = s.render_select_list(&vec![]);
    assert_eq!(
        f.lines,
        vec!["========== 密码库（共 0 条）==========", "（还没有任何记录，按 A 新增）", RULE]
    );
    assert_eq!(s.dispatch(0, "wx".to_string()), Action::Search);
    let f = s.render_select_list(&vec![]);
    assert_eq!(
        f.lines,
        vec![
            "========== 密码库（共 0 条，搜索「wx」）==========",
            "（没有匹配「wx」的记录）",
            RULE,
        ]
    );
}

#[test]
fn plain_list_shows_the_first_page() {
    assert_eq!(
        render_plain_list(DisplayMode::Paged, &many(1), &None),
        vec!["", "========== 密码库（共 1 条）==========", "[  1] app000", RULE]
    );
    let lines = render_plain_list(DisplayMode::Paged, &many(16), &Some("app".to_string()));
    assert_eq!(lines.len(), 2 + PAGE_SIZE + 2);
    assert_eq!(lines[1], "========== 密码库（共 16 条，搜索「app」）  第 1/2 页==========");
    assert_eq!(lines[16], "[ 15] app014");
    assert_eq!(lines[17], "…（共 16 条，输入编号打开）");
    assert_eq!(
        render_plain_list(DisplayMode::Paged, &vec![], &None),
        vec!["", "========== 密码库（共 0 条）==========", "（还没有任何记录，输入 A 新增）", RULE]
    );
    assert_eq!(
        render_plain_list(DisplayMode::Paged, &vec![], &Some("x".to_string()))[2],
        "（没有匹配「x」的记录）"
    );
}

/// The selected index, as pressing Enter opens it.
fn selected(s: &mut Session, len: usize) -> usize {
    match s.dispatch(len, String::new()) {
        Action::Open(i) => i,
        _ => panic!("nothing to open"),
    }
}

#[test]
fn selection_moves_within_the_list() {
    let mut s = Session::new();
    assert!(matches!(s.press(20, KeyPress::Up), Pressed::Moved));
    assert_eq!(selected(&mut s, 20), 0);
    s.press(20, KeyPress::Down);
    assert_eq!(selected(&mut s, 20), 1);
    s.press(20, KeyPress::PageDown);
    assert_eq!(selected(&mut s, 20), 16);
    s.press(20, KeyPress::PageDown);
    assert_eq!(selected(&mut s, 20), 19);
    s.press(20, KeyPress::Down);
    assert_eq!(selected(&mut s, 20), 19);
    s.press(20, KeyPress::PageUp);
    assert_eq!(selected(&mut s, 20), 4);
    s.press(20, KeyPress::PageUp);
    assert_eq!(selected(&mut s, 20), 0);
    s.press(20, KeyPress::Down);
    s.press(20, KeyPress::Up);
    assert_eq!(selected(&mut s, 20), 0);
    s.press(20, KeyPress::PageDown);
    s.clamp(3);
    assert_eq!(selected(&mut s, 3), 2);
    s.clamp(0);
    s.press(0, KeyPress::Down);
    s.press(0, KeyPress::PageDown);
    assert_eq!(s.dispatch(0, String::new()), Action::NothingToOpen);
}

#[test]
fn typing_and_entering() {
    let mut s = Session::new();
    for c in [' ', 'w', 'x', 'y'] {
        assert!(matches!(s.press(0, KeyPress::Char(c)), Pressed::Again));
    }
    s.press(0, KeyPress::Backspace);
    assert_eq!(s.prompt_line(), format!("\r\x1b[2K{MAIN_PROMPT}   wx"));
    assert!(matches!(s.press(0, KeyPress::Enter), Pressed::Submit(t) if t == "wx"));
    assert!(matches!(s.press(0, KeyPress::Cancel), Pressed::Submit(t) if t == "q"));
    assert!(matches!(s.press(0, KeyPress::Toggle), Pressed::Again));
    assert!(matches!(s.press(0, KeyPress::Other), Pressed::Again));
}

#[test]
fn typing_is_bounded() {
    let mut s = Session::new();
    for _ in 0..MAX_INPUT + 1 {
        s.press(0, KeyPress::Char('x'));
    }
    assert!(matches!(s.press(0, KeyPress::Enter), Pressed::Submit(t) if t.len() == MAX_INPUT));
}

#[test]
fn commands_by_their_texts() {
    for (text, command) in [
        ("a", Command::Add),
        ("A", Command::Add),
        ("w", Command::Add),
        ("c", Command::Change),
        ("D", Command::Delete),
        ("q", Command::Quit),
        ("EXIT", Command::Quit),
        ("Quit", Command::Quit),
        ("7", Command::Number(7)),
        ("+7", Command::Number(7)),
        ("0", Command::Number(0)),
        ("ab", Command::Search),
        ("-1", Command::Search),
        ("微信", Command::Search),
        ("99999999999999999999999999", Command::Search),
    ] {
        assert_eq!(command_of(text), command, "{text}");
    }
}

#[test]
fn typed_text_is_forgotten_where_it_was_used() {
    let mut s = Session::new();
    let typed = |s: &mut Session| s.prompt_line() != format!("\r\x1b[2K{MAIN_PROMPT}  ");
    s.press(5, KeyPress::Char('3'));
    assert_eq!(s.dispatch(5, "3".to_string()), Action::Open(2));
    assert!(!typed(&mut s));
    assert_eq!(selected(&mut s, 5), 2);
    s.press(5, KeyPress::Char('9'));
    assert_eq!(s.dispatch(5, "9".to_string()), Action::OutOfRange);
    assert!(typed(&mut s));
    assert_eq!(s.dispatch(5, "0".to_string()), Action::OutOfRange);
    assert_eq!(out_of_range(5), "编号超出范围（当前列表 1-5）");
    assert_eq!(s.dispatch(5, "a".to_string()), Action::Add);
    assert!(typed(&mut s));
    assert_eq!(s.dispatch(5, "key".to_string()), Action::Search);
    assert!(!typed(&mut s));
    assert_eq!(s.filter(), &Some("key".to_string()));
    assert_eq!(s.dispatch(5, "c".to_string()), Action::Change);
    assert_eq!(s.filter(), &Some("key".to_string()));
    assert_eq!(s.dispatch(5, "d".to_string()), Action::Delete);
    assert_eq!(s.filter(), &None);
    assert_eq!(s.dispatch(5, "q".to_string()), Action::Quit);
}

#[test]
fn adding_goes_back_to_the_start() {
    let mut s = Session::new();
    s.dispatch(5, "5".to_string());
    s.dispatch(5, "x1".to_string());
    s.press(5, KeyPress::Down);
    s.render_select_list(&many(5));
    assert_eq!(s.dispatch(5, "A".to_string()), Action::Add);
    assert_eq!(s.filter(), &None);
    assert_eq!(s.render_select_list(&many(5)).clear, 0);
    assert_eq!(selected(&mut s, 5), 0);
}

#[test]
fn filter_searches_the_rows() {
    let mut s = Session::new();
    let rows = || vec![named(1, "微信"), named(2, "wechat"), named(3, "百度")];
    let names = |r: Vec<Record>| -> Vec<i64> { r.iter().map(|r| r.id).collect() };
    assert_eq!(names(s.records(&vault(), rows())), vec![2, 3, 1]);
    s.dispatch(3, "w".repeat(2));
    assert_eq!(names(s.records(&vault(), rows())), Vec::<i64>::new());
    s.dispatch(3, "we".to_string());
    assert_eq!(names(s.records(&vault(), rows())), vec![2, 1]);
}

fn full_vault() -> Vault {
    let mut v = vault();
    v.set_display_mode(DisplayMode::Full);
    v
}

#[test]
fn full_mode_shows_all_records() {
    let mut s = Session::new();
    assert_eq!(s.mode(), DisplayMode::Paged);
    let records = s.records(&full_vault(), many(40));
    assert_eq!(s.mode(), DisplayMode::Full);
    s.clamp(records.len());
    for _ in 0..20 {
        s.press(records.len(), KeyPress::Down);
    }
    let f = s.render_select_list(&records);
    assert_eq!(f.lines.len(), 42);
    assert_eq!(f.lines[0], "========== 密码库（共 40 条）==========");
    assert_eq!(f.lines[1], "  [  1] app000");
    assert_eq!(f.lines[21], "\x1b[7m❯ [ 21] app020\x1b[0m");
    assert_eq!(f.lines[40], "  [ 40] app039");
    assert_eq!(f.lines[41], RULE);
    assert_eq!(s.render_select_list(&records).clear, 42);
    let records = s.records(&vault(), records);
    assert_eq!(s.mode(), DisplayMode::Paged);
    assert_eq!(s.render_select_list(&records).lines.len(), PAGE_SIZE + 2);
}

#[test]
fn full_mode_without_a_terminal() {
    let lines = render_plain_list(DisplayMode::Full, &many(40), &None);
    assert_eq!(lines.len(), 43);
    assert_eq!(lines[1], "========== 密码库（共 40 条）==========");
    assert_eq!(lines[41], "[ 40] app039");
    assert_eq!(lines[42], RULE);
    assert_eq!(
        render_plain_list(DisplayMode::Full, &vec![], &None),
        vec!["", "========== 密码库（共 0 条）==========", "（还没有任何记录，输入 A 新增）", RULE]
    );
}
