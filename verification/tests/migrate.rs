use pswd::crypto::{encode_b64, legacy_xor_encode};
use pswd::migrate::{
    backup_name, begin_migration, collect_rows, describe_files, describe_import, entered_path,
    files_found, import_legacy, legacy_entry, offers_backup, read_failure, read_legacy_dt,
    read_legacy_ps, tally, ImportResult, DEFAULT_DT, DEFAULT_PS,
};
use pswd::storage::{init, open, unlock, Meta, RecoveryOpts};

#[test]
fn import_legacy_with_partial_failures() {
    let mut db = Meta::new();
    init("import", false, "m", &RecoveryOpts { machine_binding: false, qa_pairs: vec![] }, &mut db).unwrap();
    let vault = open(&db, "m").unwrap();

    let rows: Vec<Vec<String>> = vec![
        vec![
            "微信".into(), "nick".into(), "user".into(), "id1".into(),
            "voucher".into(), "reg".into(), "note".into(), "2024-01-01".into(),
        ],
        vec![
            "google".into(), "".into(), "g@mail".into(), "".into(),
            "".into(), "".into(), "".into(), "2024-01-02".into(),
        ],
        vec!["字段不足".into(), "x".into(), "y".into(), "z".into()],
        vec![
            "badpwd".into(), "".into(), "".into(), "".into(),
            "".into(), "".into(), "".into(), "".into(),
        ],
    ];
    let ps_lines = vec![
        legacy_xor_encode("微信密码"),
        legacy_xor_encode("google-pw"),
        "!!invalid!!".to_string(),
    ];

    let outcomes = import_legacy(&vault, &rows, &ps_lines);
    let result = tally(&outcomes);
    assert_eq!(result.ok, 2);
    assert_eq!(result.failures.len(), 2);
    assert_eq!(result.failures[0].0, 2);
    assert_eq!(result.failures[1].0, 3);
    assert_eq!(result.failures[0].1, "CSV 字段不足 8 个（实际 4 个）");
    assert_eq!(result.failures[1].1, "密码文件缺少对应行");

    let mut stored = Vec::new();
    for (i, n) in outcomes.into_iter().flatten().enumerate() {
        stored.push(n.with_id(i as i64 + 1));
    }
    let records = vault.list(stored);
    assert_eq!(records.len(), 2);
    assert!(records.iter().any(|r| {
        r.app_name == "微信" && vault.decrypt(&r.password_blob).unwrap() == "微信密码"
    }));
    assert!(records.iter().any(|r| {
        r.app_name == "google" && vault.decrypt(&r.password_blob).unwrap() == "google-pw"
    }));
}

#[test]
fn legacy_file_io_roundtrip() {
    let dt = "微信,nick,user,id1,voucher,reg,note,2024-01-01\n\"含,逗号\",a,b,c,d,e,f,g\n";
    let enc = legacy_xor_encode("密码");
    let ps = format!("{enc}\n{enc}\n");

    let rows = read_legacy_dt(dt.as_bytes()).unwrap();
    let lines = read_legacy_ps(&ps);
    assert_eq!(rows.len(), 2);
    assert_eq!(rows[1][0], "含,逗号");
    assert_eq!(lines, vec![enc.clone(), enc]);
}

#[test]
fn rows_may_differ_in_length() {
    let rows = read_legacy_dt(b"a,b\nc\n\nd,e,f\n").unwrap();
    assert_eq!(rows, vec![vec!["a", "b"], vec!["c"], vec!["d", "e", "f"]]);
    assert_eq!(read_legacy_dt(b"").unwrap().len(), 0);
}

#[test]
fn bytes_that_are_no_text_are_an_error() {
    let why = read_legacy_dt(b"ok,ok\n\xff\xfe,x\n").unwrap_err();
    assert!(why.starts_with("CSV 解析失败："));
}

#[test]
fn first_error_is_reported() {
    let rows = vec![
        Ok(vec!["a".to_string()]),
        Err("one".to_string()),
        Err("two".to_string()),
    ];
    assert_eq!(collect_rows(rows).unwrap_err(), "CSV 解析失败：one");
    let rows = vec![Ok(vec!["a".to_string()]), Ok(vec![])];
    assert_eq!(collect_rows(rows).unwrap(), vec![vec!["a".to_string()], vec![]]);
}

#[test]
fn password_lines_are_trimmed() {
    assert_eq!(read_legacy_ps(" a \r\n\r\n\tb\n   \nc"), vec!["a", "b", "c"]);
    assert_eq!(read_legacy_ps("").len(), 0);
}

fn full_row(name: &str) -> Vec<String> {
    let mut row: Vec<String> = vec![format!(" {name} ")];
    for i in 1..8 {
        row.push(format!(" f{i} "));
    }
    row
}

#[test]
fn entries_take_the_fields_in_order() {
    let rows = vec![full_row("app")];
    let ps = vec![legacy_xor_encode(" pw ")];
    let e = legacy_entry(&rows, &ps, 0).ok().unwrap();
    assert_eq!(e.app_name, "app");
    assert_eq!(e.nick_name, "f1");
    assert_eq!(e.user_name, "f2");
    assert_eq!(e.user_id, "f3");
    assert_eq!(e.voucher, "f4");
    assert_eq!(e.register, "f5");
    assert_eq!(e.remark, "f6");
    assert_eq!(e.password, " pw ");
}

#[test]
fn undecodable_passwords_are_reported() {
    let rows = vec![full_row("a"), full_row("b")];
    let ps = vec!["!!!".to_string(), encode_b64(&[0xff])];
    let vault = unlock(&Meta::new(), Ok([1u8; 32])).ok().unwrap();
    let result = tally(&import_legacy(&vault, &rows, &ps));
    assert_eq!(result.ok, 0);
    assert!(result.failures[0].1.starts_with("旧密码解码失败：Base64 解码失败："));
    assert!(result.failures[1].1.starts_with("旧密码解码失败：密文格式错误："));
}

#[test]
fn every_row_is_accounted_for() {
    let outcomes: Vec<Result<(), String>> = vec![
        Ok(()), Err("x".into()), Ok(()), Err("y".into()), Err("z".into()),
    ];
    let r = tally(&outcomes);
    assert_eq!(r.ok + r.failures.len(), outcomes.len());
    assert_eq!(
        r.failures,
        vec![(1, "x".to_string()), (3, "y".to_string()), (4, "z".to_string())]
    );
}

#[test]
fn migration_texts() {
    assert!(begin_migration(true).is_ok());
    assert_eq!(begin_migration(false).unwrap_err(), "已取消迁移");
    assert_eq!(entered_path("  a b.csv \n"), "a b.csv");
    assert!(files_found("d", true, "p", true).is_ok());
    assert_eq!(files_found("d", false, "p", false).unwrap_err(), "未找到旧数据文件：d");
    assert_eq!(files_found("d", true, "p", false).unwrap_err(), "未找到旧密码文件：p");
    assert_eq!(read_failure("d", "why"), "读取 d 失败：why");
    assert_eq!(describe_files(2, 2), vec!["CSV 记录 2 条，密码文件 2 行"]);
    assert_eq!(
        describe_files(2, 10),
        vec![
            "CSV 记录 2 条，密码文件 10 行",
            "⚠ 警告：CSV 与密码文件行数不一致，将按较短者对齐，缺失项记为失败",
        ]
    );
    assert_eq!(backup_name("x/dt_data.csv"), "x/dt_data.csv.bak");
    assert_eq!(DEFAULT_DT, "dt_data.csv");
    assert_eq!(DEFAULT_PS, "ps_data.txt");
}

#[test]
fn import_reports() {
    let some = ImportResult { ok: 1, failures: vec![(9, "why".to_string())] };
    assert_eq!(
        describe_import(&some),
        vec![
            "成功导入：1 条",
            "失败：1 条",
            "  第 10 行：why",
            "提示：可修复失败项后再次运行本工具（已导入的记录会重复导入，请注意清理）",
        ]
    );
    assert!(offers_backup(&some));
    let none = ImportResult { ok: 0, failures: vec![(0, "a".to_string()), (1, "b".to_string())] };
    assert_eq!(
        describe_import(&none),
        vec!["成功导入：0 条", "失败：2 条", "  第 1 行：a", "  第 2 行：b"]
    );
    assert!(!offers_backup(&none));
    let all = ImportResult { ok: 3, failures: vec![] };
    assert_eq!(describe_import(&all), vec!["成功导入：3 条", "失败：0 条"]);
}
