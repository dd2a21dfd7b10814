use pswd::ui::banner::{banner, center, centered, ART_WIDTH};
use pswd::ui::setup::{create_vault, intro, SetupStage, SetupWizard};
use pswd::ui::theme::{
    dim, divider, err, field, highlight, ok, paint, title, warn, Style,
};
use pswd::ui::{
    classify, entered, limit, masked_result, read_line_fallback, redraw_input_line, KeyPress,
    Masked, MaskedInput, Notice, Prompt, RawKey, Reply, MAX_INPUT,
};
use pswd::storage::{open, qa_questions, Meta, RecoveryOpts};

#[test]
fn styles_have_their_codes() {
    assert_eq!(paint(Style::Title, "t", true), "\x1b[38;5;13m\x1b[1mt\x1b[0m");
    assert_eq!(paint(Style::Field, "t", true), "\x1b[36mt\x1b[0m");
    assert_eq!(paint(Style::Success, "t", true), "\x1b[32mt\x1b[0m");
    assert_eq!(paint(Style::Warning, "t", true), "\x1b[33mt\x1b[0m");
    assert_eq!(paint(Style::Failure, "t", true), "\x1b[31mt\x1b[0m");
    assert_eq!(paint(Style::Dim, "t", true), "\x1b[2mt\x1b[0m");
    assert_eq!(paint(Style::Highlight, "t", true), "\x1b[1m\x1b[7mt\x1b[0m");
    for style in [Style::Title, Style::Field, Style::Success, Style::Warning, Style::Failure, Style::Dim, Style::Highlight] {
        assert_eq!(paint(style, "微信", false), "微信");
    }
}

#[test]
fn styles_match_those_of_the_console() {
    let s = console::style("x").force_styling(true);
    assert_eq!(paint(Style::Title, "x", true), s.clone().magenta().bright().bold().to_string());
    assert_eq!(paint(Style::Field, "x", true), s.clone().cyan().to_string());
    assert_eq!(paint(Style::Success, "x", true), s.clone().green().to_string());
    assert_eq!(paint(Style::Warning, "x", true), s.clone().yellow().to_string());
    assert_eq!(paint(Style::Failure, "x", true), s.clone().red().to_string());
    assert_eq!(paint(Style::Dim, "x", true), s.clone().dim().to_string());
    assert_eq!(paint(Style::Highlight, "x", true), s.clone().reverse().bold().to_string());
}

#[test]
fn theme_follows_the_terminal() {
    let on = console::colors_enabled_stderr();
    assert_eq!(title("a"), paint(Style::Title, "a", on));
    assert_eq!(field("a"), paint(Style::Field, "a", on));
    assert_eq!(ok("a"), paint(Style::Success, "a", on));
    assert_eq!(warn("a"), paint(Style::Warning, "a", on));
    assert_eq!(err("a"), paint(Style::Failure, "a", on));
    assert_eq!(dim("a"), paint(Style::Dim, "a", on));
    assert_eq!(highlight("a"), paint(Style::Highlight, "a", on));
    assert_eq!(divider(), paint(Style::Dim, &"─".repeat(46), on));
}

#[test]
fn keys_by_their_meaning() {
    assert_eq!(classify(RawKey::Char('a')), KeyPress::Char('a'));
    assert_eq!(classify(RawKey::Char('微')), KeyPress::Char('微'));
    assert_eq!(classify(RawKey::Char('\x16')), KeyPress::Toggle);
    assert_eq!(classify(RawKey::Char('\x05')), KeyPress::Toggle);
    assert_eq!(classify(RawKey::Tab), KeyPress::Toggle);
    assert_eq!(classify(RawKey::Char('\x03')), KeyPress::Cancel);
    assert_eq!(classify(RawKey::CtrlC), KeyPress::Cancel);
    assert_eq!(classify(RawKey::Escape), KeyPress::Cancel);
    assert_eq!(classify(RawKey::Enter), KeyPress::Enter);
    assert_eq!(classify(RawKey::Backspace), KeyPress::Backspace);
    assert_eq!(classify(RawKey::ArrowUp), KeyPress::Up);
    assert_eq!(classify(RawKey::ArrowDown), KeyPress::Down);
    assert_eq!(classify(RawKey::PageUp), KeyPress::PageUp);
    assert_eq!(classify(RawKey::PageDown), KeyPress::PageDown);
    assert_eq!(classify(RawKey::Unknown), KeyPress::Other);
}

#[test]
fn control_characters_are_those_of_the_standard_library() {
    for n in 0u32..0x300 {
        let c = char::from_u32(n).unwrap();
        let typed = matches!(classify(RawKey::Char(c)), KeyPress::Char(_));
        assert_eq!(typed, !c.is_control(), "{n}");
    }
}

#[test]
fn masked_input_shows_dots() {
    let mut m = MaskedInput::new();
    assert_eq!(m.body(), "  （Tab 暂时查看）");
    for c in ['a', '微', 'c'] {
        assert_eq!(m.press(KeyPress::Char(c)), Masked::More);
    }
    assert_eq!(m.body(), "•••  （Tab 暂时查看）");
    m.press(KeyPress::Toggle);
    assert_eq!(m.body(), "a微c  （显示中，Tab 隐藏）");
    m.press(KeyPress::Backspace);
    assert_eq!(m.buf, "a微");
    assert_eq!(m.press(KeyPress::Up), Masked::More);
    assert_eq!(m.press(KeyPress::Other), Masked::More);
    assert_eq!(m.press(KeyPress::Enter), Masked::Submit);
    assert_eq!(masked_result(m, Masked::Submit), Some(Ok("a微".to_string())));
    assert_eq!(masked_result(MaskedInput::new(), Masked::Cancel), Some(Err("已取消".to_string())));
    assert_eq!(masked_result(MaskedInput::new(), Masked::More), None);
    let mut m = MaskedInput::new();
    assert_eq!(m.press(KeyPress::Backspace), Masked::More);
    assert_eq!(m.press(KeyPress::Cancel), Masked::Cancel);
}

#[test]
fn masked_input_is_bounded() {
    let mut m = MaskedInput::new();
    for _ in 0..MAX_INPUT + 10 {
        m.press(KeyPress::Char('微'));
    }
    assert_eq!(m.buf.chars().count(), MAX_INPUT);
}

#[test]
fn lines_without_a_terminal() {
    assert_eq!(read_line_fallback("pw \r\n".to_string()), "pw ");
    assert_eq!(read_line_fallback("pw\n\r\n\r".to_string()), "pw");
    assert_eq!(read_line_fallback("\n".to_string()), "");
    let long = "x".repeat(MAX_INPUT + 5);
    assert_eq!(read_line_fallback(format!("{long}\n")), "x".repeat(MAX_INPUT));
    assert_eq!(limit(&long).len(), MAX_INPUT);
    assert_eq!(limit("微信"), "微信");
    assert_eq!(entered("  微信\n"), "微信");
    assert_eq!(entered(&"微".repeat(201)), "微".repeat(200));
}

#[test]
fn input_line_is_redrawn() {
    assert_eq!(redraw_input_line("p：", "••"), "\r\x1b[2Kp：••");
}

fn reply(s: &str) -> Reply {
    Reply::Entered(s.to_string())
}

#[test]
fn setup_asks_until_the_answers_hold() {
    let mut w = SetupWizard::new();
    assert!(matches!(w.prompt(), Some(Prompt::Confirm { text, default: true }) if text == "是否开始设置？"));
    assert_eq!(w.step(Reply::Agreed(true)), None);
    assert!(matches!(w.prompt(), Some(Prompt::Secret { text }) if text == "设置主密码："));
    assert_eq!(w.step(reply("")), Some(Notice::MasterEmpty));
    assert_eq!(w.step(reply("m1")), None);
    assert!(matches!(w.prompt(), Some(Prompt::Secret { text }) if text == "请再次输入主密码："));
    assert_eq!(w.step(reply("m2")), Some(Notice::MasterDiffers));
    assert_eq!(w.stage(), SetupStage::Master);
    w.step(reply("m1"));
    assert_eq!(w.step(reply("m1")), Some(Notice::RecoveryHeader));
    assert!(matches!(w.prompt(), Some(Prompt::Confirm { default: false, .. })));
    assert_eq!(w.step(Reply::Agreed(false)), None);
    match w.prompt() {
        Some(Prompt::Select { text, items }) => {
            assert_eq!(text, "添加密保问题（忘记主密码时回答正确即可恢复）");
            assert_eq!(items, vec!["身份证号？", "手机号码？", "自定义问题", "完成设置"]);
        }
        _ => panic!("no menu"),
    }
    w.step(Reply::Chosen(0));
    assert!(matches!(w.prompt(), Some(Prompt::Secret { text }) if text == "回答问题「你的身份证号是什么？」："));
    assert_eq!(w.step(reply("")), Some(Notice::AnswerEmpty));
    assert_eq!(w.step(reply("1")), None);
    assert_eq!(w.step(reply("2")), Some(Notice::AnswerDiffers));
    w.step(reply("1"));
    assert_eq!(w.step(reply("1")), Some(Notice::QuestionAdded));
    w.step(Reply::Chosen(2));
    assert!(matches!(w.prompt(), Some(Prompt::Text { text, allow_empty: false }) if text == "请输入自定义问题（例如：你的生日是？）"));
    assert_eq!(w.step(reply("   ")), Some(Notice::QuestionEmpty));
    assert_eq!(w.stage(), SetupStage::Menu);
    w.step(Reply::Chosen(2));
    w.step(reply(" 生日？ "));
    w.step(reply("0101"));
    w.step(reply("0101"));
    w.step(Reply::Chosen(1));
    w.step(reply("138"));
    w.step(reply("138"));
    w.step(Reply::Chosen(3));
    assert_eq!(w.stage(), SetupStage::Done);
    assert!(w.prompt().is_none());
    assert_eq!(w.step(reply("x")), None);
    let (master, recovery) = w.finish().unwrap().ok().unwrap();
    assert_eq!(master, "m1");
    assert!(!recovery.machine_binding);
    assert_eq!(
        recovery.qa_pairs,
        vec![
            ("你的身份证号是什么？".to_string(), "1".to_string()),
            ("生日？".to_string(), "0101".to_string()),
            ("你的手机号码是什么？".to_string(), "138".to_string()),
        ]
    );
    let mut meta = Meta::new();
    let m = create_vault("pswd.db", false, master, &recovery, &mut meta).unwrap();
    assert_eq!(m, "m1");
    assert!(open(&meta, "m1").is_ok());
    assert_eq!(qa_questions(&meta), vec!["你的身份证号是什么？", "生日？", "你的手机号码是什么？"]);
}

#[test]
fn setup_can_be_declined() {
    let mut w = SetupWizard::new();
    assert_eq!(w.step(reply("x")), None);
    assert_eq!(w.stage(), SetupStage::Begin);
    w.step(Reply::Agreed(false));
    assert_eq!(w.stage(), SetupStage::Declined);
    assert_eq!(w.finish().unwrap().err().unwrap(), "已取消设置");
    assert!(SetupWizard::new().finish().is_none());
}

#[test]
fn machine_is_bound_by_consent() {
    let mut w = SetupWizard::new();
    w.step(Reply::Agreed(true));
    w.step(reply("m"));
    w.step(reply("m"));
    assert_eq!(w.step(Reply::Agreed(true)), Some(Notice::MachineBound));
    w.step(Reply::Chosen(3));
    assert!(w.finish().unwrap().ok().unwrap().1.machine_binding);
}

#[test]
fn existing_vault_is_not_created_again() {
    let mut meta = Meta::new();
    let opts = RecoveryOpts { machine_binding: false, qa_pairs: vec![] };
    let r = create_vault("pswd.db", true, "m".to_string(), &opts, &mut meta);
    assert_eq!(r.unwrap_err(), "密码库 pswd.db 已存在，如需重建请先删除该文件");
    assert_eq!(meta.writes().len(), 0);
}

#[test]
fn notices_have_their_lines() {
    assert_eq!(Notice::MasterEmpty.lines(false), vec!["⚠ 主密码不能为空，请重新设置"]);
    assert_eq!(Notice::MasterDiffers.lines(false), vec!["⚠ 两次输入不一致，请重新设置"]);
    assert_eq!(
        Notice::RecoveryHeader.lines(false),
        vec!["", "── 恢复路径设置 ──", "（可选，至少建议设置一个）"]
    );
    assert_eq!(Notice::MachineBound.lines(false), vec!["✓ 已绑定机器码恢复路径"]);
    assert_eq!(Notice::QuestionEmpty.lines(false), vec!["⚠ 问题不能为空"]);
    assert_eq!(Notice::AnswerEmpty.lines(false), vec!["⚠ 答案不能为空"]);
    assert_eq!(Notice::AnswerDiffers.lines(false), vec!["⚠ 两次输入不一致，请重试"]);
    assert_eq!(Notice::QuestionAdded.lines(false), vec!["✓ 已添加密保问题"]);
    assert_eq!(
        Notice::VaultCreated.lines(false),
        vec!["", "✓ 密码库创建完成！请牢记主密码与恢复答案。"]
    );
    assert_eq!(Notice::Unlocked.lines(false), vec!["✓ 解锁成功"]);
    assert_eq!(Notice::WrongMaster.lines(true), vec!["\x1b[31m✗ 主密码错误。\x1b[0m"]);
    assert_eq!(Notice::ReadingMachine.lines(true), vec!["正在读取本机机器码…"]);
    assert_eq!(Notice::Recovered.lines(false), vec!["✓ 恢复成功！"]);
    assert_eq!(Notice::MasterUpdated.lines(false), vec!["✓ 主密码已更新"]);
    assert_eq!(Notice::MasterKept.lines(false), vec!["⚠ 输入无效或两次不一致，主密码未修改"]);
}

#[test]
fn introduction_names_the_database() {
    assert_eq!(
        intro("pswd.db", false),
        vec![
            "",
            "── 首次使用 · 创建密码库 ──",
            "数据库：pswd.db",
            "- 主密码用于加密全部数据，不会保存为明文",
            "- 忘记主密码时，可用设置的恢复路径（机器码 / 密保问卷）找回",
        ]
    );
}

#[test]
fn text_is_centered_by_its_width() {
    assert_eq!(centered("ab", "ab", 10), "    ab");
    assert_eq!(centered("微信", "微信", 10), "   微信");
    assert_eq!(centered("abc", "abc", 2), "abc");
    assert_eq!(centered("abc", "abc", 3), "abc");
    assert_eq!(center("\x1b[36mab\x1b[0m", 10), "    \x1b[36mab\x1b[0m");
    assert_eq!(center("作者 D BOY", 20), "     作者 D BOY");
}

#[test]
fn banner_is_centered() {
    let lines = banner("1.2.3", 80, false);
    assert_eq!(lines.len(), 12);
    assert_eq!(lines[0], "");
    assert_eq!(lines[1], format!("{}#######  ###### #     # ###### ", " ".repeat(24)));
    assert_eq!(lines[6], format!("{}#        ###### #     # ###### ", " ".repeat(24)));
    assert_eq!(lines[7], "");
    assert_eq!(lines[8], format!("{}作者 D BOY", " ".repeat(35)));
    assert_eq!(lines[9], format!("{}版本 v1.2.3", " ".repeat(34)));
    assert_eq!(lines[10], format!("{}仓库 github.com/dboycht/pswd", " ".repeat(26)));
    assert_eq!(lines[11], "");
    let coloured = banner("1.2.3", 80, true);
    assert_eq!(
        coloured[8],
        format!("{}\x1b[36m作者\x1b[0m \x1b[2mD BOY\x1b[0m", " ".repeat(35))
    );
    let narrow = banner("1", 10, false);
    assert_eq!(narrow[1].len(), ART_WIDTH);
}
