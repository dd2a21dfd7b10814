use pswd::crypto::CryptoError;
use pswd::forms::{
    added_message, copy_password, delete_prompt, field_name, print_record, print_record_with,
    select_items, shown_password, AddForm, ChangeChoice, ChangeForm, RecordChoice, RecordPage, FIELD_COUNT,
};
use pswd::storage::{unlock, Meta, Record, RecordIn, Vault};
use pswd::ui::Prompt;

fn vault() -> Vault {
    unlock(&Meta::new(), Ok([1u8; 32])).ok().unwrap()
}

fn record(v: &Vault) -> Record {
    let r = RecordIn {
        app_name: "微信".into(),
        nick_name: "nick".into(),
        user_name: "user".into(),
        user_id: "id1".into(),
        password: "密码pw".into(),
        voucher: "voucher".into(),
        register: "reg".into(),
        remark: "note".into(),
    };
    v.add_at(&r, "2024-01-01 00:00:00".to_string()).unwrap().with_id(7)
}

#[test]
fn record_is_shown_with_its_password_hidden() {
    let v = vault();
    let rec = record(&v);
    let mut page = RecordPage::new();
    let lines = page.lines(&v, &rec, 3);
    assert_eq!(
        lines,
        vec![
            "",
            "========== 记录 #3（微信）==========",
            "应用名称：微信",
            "昵称：nick",
            "用户名：user",
            "ID：id1",
            "密码：••••（V 暂时查看）",
            "凭证应用：voucher",
            "注册凭证：reg",
            "备注：note",
            "最后修改：2024-01-01 00:00:00",
            "--------------------------------",
        ]
    );
    assert_eq!(page.prompt(), "[V]暂时查看密码 / [C]复制 / [M]修改 / [D]删除 / [回车]返回");
    assert_eq!(page.pick(" V "), RecordChoice::Toggle);
    assert_eq!(page.lines(&v, &rec, 3)[6], "密码：密码pw");
    assert_eq!(page.prompt(), "[V]隐藏密码 / [C]复制 / [M]修改 / [D]删除 / [回车]返回");
    assert_eq!(page.pick("v"), RecordChoice::Toggle);
    assert!(!page.reveal);
    assert_eq!(print_record(&rec, &v, true)[4], "密码：密码pw");
    assert_eq!(print_record(&rec, &v, false)[4], "密码：••••（V 暂时查看）");
    assert_eq!(print_record_with(&rec, Ok("abc".to_string()), true)[4], "密码：abc");
    assert_eq!(page.lines_with(&rec, 3, Ok("abc".to_string()))[6], "密码：•••（V 暂时查看）");
}

#[test]
fn damaged_password_is_shown_as_such() {
    let v = vault();
    let mut rec = record(&v);
    rec.password_blob = "garbage".to_string();
    for reveal in [true, false] {
        let page = RecordPage { reveal };
        let lines = page.lines(&v, &rec, 1);
        assert_eq!(lines[6], "密码：（无法解密：密文格式错误：密文应含两段）");
        assert_eq!(lines[2], "应用名称：微信");
        assert_eq!(lines[9], "备注：note");
        let lines = page.lines_with(&rec, 1, Err(CryptoError::WrongSecret));
        assert_eq!(lines[6], "密码：（无法解密：凭据错误或数据损坏）");
        assert_eq!(print_record(&rec, &v, reveal)[4], "密码：（无法解密：密文格式错误：密文应含两段）");
    }
    assert_eq!(shown_password(Err(CryptoError::WrongSecret)), "（无法解密：凭据错误或数据损坏）");
    assert_eq!(shown_password(Ok("p".to_string())), "p");
    assert_eq!(copy_password(&v, &rec).unwrap_err(), "密文格式错误：密文应含两段");
    assert_eq!(copy_password(&v, &record(&v)).unwrap(), "密码pw");
}

#[test]
fn choices_on_the_page() {
    let mut page = RecordPage::new();
    for (text, choice) in [
        ("", RecordChoice::Back),
        ("  ", RecordChoice::Back),
        ("C", RecordChoice::Copy),
        ("m", RecordChoice::Modify),
        ("d ", RecordChoice::Delete),
        ("x", RecordChoice::Unknown),
        ("vv", RecordChoice::Unknown),
    ] {
        assert_eq!(page.pick(text), choice, "{text}");
        assert!(!page.reveal);
    }
}

#[test]
fn adding_asks_for_each_field() {
    let mut f = AddForm::new();
    assert!(matches!(f.prompt(), Some(Prompt::Text { text, allow_empty: false }) if text == "应用名称（必填）"));
    assert_eq!(f.answer("  ".to_string()), Some("应用名称不能为空"));
    assert_eq!(f.answer(" 微信 ".to_string()), None);
    for (label, value) in [("昵称", " n "), ("用户名称", ""), ("ID", "i")] {
        assert!(matches!(f.prompt(), Some(Prompt::Text { text, allow_empty: true }) if text == label));
        assert_eq!(f.answer(value.to_string()), None);
    }
    assert!(matches!(f.prompt(), Some(Prompt::Secret { text }) if text == "密码（必填）："));
    assert_eq!(f.answer(String::new()), Some("密码不能为空"));
    assert_eq!(f.answer(" pw ".to_string()), None);
    assert!(f.finish().is_none());
    for label in ["凭证应用", "注册凭证", "备注"] {
        assert!(matches!(f.prompt(), Some(Prompt::Text { text, allow_empty: true }) if text == label));
        f.answer(format!("{label}值"));
    }
    assert!(f.prompt().is_none());
    f.answer("ignored".to_string());
    let r = f.finish().unwrap();
    assert_eq!(r.app_name, "微信");
    assert_eq!(r.nick_name, "n");
    assert_eq!(r.user_name, "");
    assert_eq!(r.user_id, "i");
    assert_eq!(r.password, " pw ");
    assert_eq!(r.voucher, "凭证应用值");
    assert_eq!(r.register, "注册凭证值");
    assert_eq!(r.remark, "备注值");
    assert_eq!(added_message("微信"), "已添加「微信」，回车可继续其他操作");
}

#[test]
fn changing_shows_and_edits_fields() {
    let v = vault();
    let rec = record(&v);
    let mut f = ChangeForm::open(&v, &rec);
    assert_eq!(
        f.lines(2),
        vec![
            "",
            "--- 修改记录 #2（选择字段编号，可连续修改）---",
            "[0] 应用名称：微信",
            "[1] 昵称：nick",
            "[2] 用户名：user",
            "[3] ID：id1",
            "[4] 密码：密码pw",
            "[5] 凭证应用：voucher",
            "[6] 注册凭证：reg",
            "[7] 备注：note",
            "[X] 保存并退出 / [Q] 取消",
        ]
    );
    assert_eq!(f.pick("1"), ChangeChoice::Field(1));
    assert_eq!(f.label(1), "新昵称（当前：nick）");
    f.set_field(1, "  新 ");
    assert_eq!(f.pick("4"), ChangeChoice::Password);
    f.set_password(" p ".to_string());
    let r = f.entry();
    assert_eq!(r.nick_name, "新");
    assert_eq!(r.password, " p ");
    assert_eq!(r.app_name, "微信");
    assert_eq!(r.remark, "note");
}

#[test]
fn choices_while_changing() {
    let v = vault();
    let f = ChangeForm::open(&v, &record(&v));
    for (text, choice) in [
        ("x", ChangeChoice::Save),
        ("X", ChangeChoice::Save),
        ("", ChangeChoice::Save),
        (" Q ", ChangeChoice::Cancel),
        ("7", ChangeChoice::Field(7)),
        ("8", ChangeChoice::OutOfRange),
        ("abc", ChangeChoice::Unknown),
        ("-1", ChangeChoice::Unknown),
    ] {
        assert_eq!(f.pick(text), choice, "{text}");
    }
}

#[test]
fn undecryptable_password_is_not_lost_silently() {
    let v = vault();
    let mut rec = record(&v);
    rec.password_blob = "garbage".to_string();
    let mut f = ChangeForm::open(&v, &rec);
    assert_eq!(f.pick("x"), ChangeChoice::ConfirmSave);
    assert_eq!(f.pick(""), ChangeChoice::ConfirmSave);
    assert_eq!(f.entry().password, "");
    f.set_password(String::new());
    assert_eq!(f.pick("x"), ChangeChoice::Save);
    let f = ChangeForm::start(&rec, Ok(String::new()));
    assert_eq!(f.pick("x"), ChangeChoice::Save);
}

#[test]
fn unchanged_form_saves_the_same_record() {
    let v = vault();
    let rec = record(&v);
    let saved = v.save(rec.id, &ChangeForm::open(&v, &rec).entry()).unwrap();
    assert_eq!(saved.fields()[..7], rec.fields()[..7]);
    assert_eq!(v.decrypt(&saved.password_blob).unwrap(), "密码pw");
    assert_eq!(saved.id, 7);
}

#[test]
fn items_and_questions() {
    let v = vault();
    assert_eq!(select_items(&vec![record(&v), record(&v)]), vec!["[1] 微信", "[2] 微信"]);
    assert_eq!(
        delete_prompt(2, "微信"),
        "确定删除 [2] 微信？此操作不可撤销（回车=否，输入 y 确认）"
    );
    let names: Vec<&str> = (0..FIELD_COUNT).map(field_name).collect();
    assert_eq!(
        names,
        vec!["应用名称", "昵称", "用户名", "ID", "密码", "凭证应用", "注册凭证", "备注"]
    );
}
