use pswd::crypto::{CryptoError, VaultKey};
use pswd::storage::{
    check_affected, get_meta, init, init_with, machine_recovery_available, open, qa_key_text,
    qa_questions, recover_with_code, recover_with_machine, recover_with_qa, set_meta,
    store_outcomes, unlock, DisplayMode, Meta, NewRecord, Record, RecordIn, Records, RecoveryOpts,
    Slot, UnlockError, Vault, META_DISPLAY_MODE, META_MASTER_SALT, META_MASTER_WRAPPED,
};

/// Records, and the next id that a database would give.
struct Rows {
    records: Records,
    next: i64,
}

impl Rows {
    fn new() -> Rows {
        Rows { records: Records::empty(), next: 1 }
    }

    fn insert(&mut self, r: NewRecord) -> i64 {
        let id = self.next;
        self.next += 1;
        self.records.insert(r.with_id(id));
        id
    }

    fn update(&mut self, r: Record) -> Result<(), String> {
        self.records.replace(&r)
    }

    fn delete(&mut self, id: i64) -> Result<(), String> {
        self.records.delete(id)
    }

    fn get(&self, id: i64) -> Option<&Record> {
        self.records.get(id)
    }

    fn all(&self) -> Vec<Record> {
        self.records.rows()
    }
}

fn sample_record(app: &str) -> RecordIn {
    RecordIn {
        app_name: app.into(),
        nick_name: "nick".into(),
        user_name: "user".into(),
        user_id: "id1".into(),
        password: format!("pw-{app}"),
        voucher: "voucher".into(),
        register: "reg".into(),
        remark: "note".into(),
    }
}

fn plain_opts() -> RecoveryOpts {
    RecoveryOpts { machine_binding: false, qa_pairs: vec![] }
}

fn fresh(master: &str) -> Meta {
    let mut meta = Meta::new();
    init("pswd.db", false, master, &plain_opts(), &mut meta).unwrap();
    meta
}

#[test]
fn init_open_wrong_password() {
    let mut db = Meta::new();
    init("init", false, "master", &RecoveryOpts { machine_binding: false, qa_pairs: vec![] }, &mut db).unwrap();
    assert!(open(&db, "master").is_ok());
    assert!(matches!(open(&db, "wrong").err(), Some(UnlockError::WrongCredential)));
}

#[test]
fn init_refuses_existing_db() {
    let mut db = Meta::new();
    init("exists", false, "m", &RecoveryOpts { machine_binding: false, qa_pairs: vec![] }, &mut db).unwrap();
    let writes = db.writes().len();
    let r = init("exists", true, "m", &RecoveryOpts { machine_binding: false, qa_pairs: vec![] }, &mut db);
    assert!(r.is_err());
    assert_eq!(r.unwrap_err(), "密码库 exists 已存在，如需重建请先删除该文件");
    assert_eq!(db.writes().len(), writes);
}

#[test]
fn qa_recovery_roundtrip() {
    let mut db = Meta::new();
    let opts = RecoveryOpts {
        machine_binding: false,
        qa_pairs: vec![("身份证号？".into(), "110101199001011234".into())],
    };
    init("qa", false, "master", &opts, &mut db).unwrap();
    assert_eq!(qa_questions(&db), vec!["身份证号？".to_string()]);
    let v = recover_with_qa(&db, 0, "110101199001011234").unwrap();
    assert_eq!(v.list(vec![]).len(), 0);
    assert!(matches!(
        recover_with_qa(&db, 0, "wrong-answer").err(),
        Some(UnlockError::WrongCredential)
    ));
}

#[test]
fn add_list_get_update_delete() {
    let db = fresh("m");
    let v = open(&db, "m").unwrap();
    let mut rows = Rows::new();
    let id1 = rows.insert(v.add(&sample_record("微信")).unwrap());
    let id2 = rows.insert(v.add(&sample_record("wechat")).unwrap());
    assert_eq!(rows.records.count(), 2);

    let list = v.list(rows.all());
    assert_eq!(list[0].app_name, "wechat");
    assert_eq!(list[1].app_name, "微信");

    let rec = rows.get(id1).unwrap();
    assert!(!rec.password_blob.contains("pw-微信"));
    assert_eq!(v.decrypt(&rec.password_blob).unwrap(), "pw-微信");

    assert_eq!(v.search(rows.all(), "微信").len(), 1);
    assert_eq!(v.search(rows.all(), "WECHAT").len(), 1);
    assert_eq!(v.search(rows.all(), "wx").len(), 1);
    assert_eq!(v.search(rows.all(), "不存在的").len(), 0);
    assert_eq!(v.search(rows.all(), "").len(), 2);

    let mut edit = sample_record("微信");
    edit.nick_name = "新昵称".into();
    edit.password = "新密码".into();
    rows.update(v.save(id1, &edit).unwrap()).unwrap();
    let rec = rows.get(id1).unwrap();
    assert_eq!(rec.nick_name, "新昵称");
    assert_eq!(v.decrypt(&rec.password_blob).unwrap(), "新密码");

    rows.delete(id1).unwrap();
    assert!(rows.get(id1).is_none());
    assert!(rows.delete(id2).is_ok());
    assert_eq!(rows.records.count(), 0);
}

#[test]
fn reset_master_keeps_data() {
    let db = fresh("old");
    let mut v = open(&db, "old").unwrap();
    let mut rows = Rows::new();
    let id = rows.insert(v.add(&sample_record("微信")).unwrap());
    v.reset_master("new").unwrap();
    let db = v.meta().copy();
    drop(v);
    assert!(open(&db, "old").is_err());
    let v = open(&db, "new").unwrap();
    let rec = rows.get(id).unwrap();
    assert_eq!(v.decrypt(&rec.password_blob).unwrap(), "pw-微信");
}

#[test]
fn decrypt_corrupted_record_does_not_crash() {
    let db = fresh("m");
    let v = open(&db, "m").unwrap();
    let mut rows = Rows::new();
    let id = rows.insert(v.add(&sample_record("微信")).unwrap());
    let mut damaged = rows.get(id).unwrap().copy();
    damaged.password_blob = "garbage".into();
    rows.update(damaged).unwrap();
    let rec = rows.get(id).unwrap();
    assert!(v.decrypt(&rec.password_blob).is_err());
}

#[test]
fn display_mode_default_and_persist() {
    let db = fresh("m");
    let mut v = open(&db, "m").unwrap();
    assert_eq!(v.display_mode(), DisplayMode::Paged);
    v.set_display_mode(DisplayMode::Full);
    let db = v.meta().copy();
    drop(v);
    let mut v = open(&db, "m").unwrap();
    assert_eq!(v.display_mode(), DisplayMode::Full);
    v.set_display_mode(DisplayMode::Paged);
    let db = v.meta().copy();
    drop(v);
    let v = open(&db, "m").unwrap();
    assert_eq!(v.display_mode(), DisplayMode::Paged);
}

#[test]
fn display_mode_unknown_value_falls_back() {
    let mut db = fresh("m");
    set_meta(&mut db, "display_mode", "bogus");
    let v = open(&db, "m").unwrap();
    assert_eq!(v.display_mode(), DisplayMode::Paged);
}

#[test]
fn display_modes_read_back() {
    for mode in [DisplayMode::Paged, DisplayMode::Full] {
        assert_eq!(DisplayMode::from_key(mode.as_str()), mode);
    }
    assert_eq!(DisplayMode::Full.as_str(), "full");
    assert_eq!(DisplayMode::Paged.as_str(), "paged");
    assert_eq!(DisplayMode::from_key("Full"), DisplayMode::Paged);
}

#[test]
fn later_writes_replace_earlier_ones() {
    let mut meta = Meta::new();
    assert_eq!(get_meta(&meta, "k"), None);
    set_meta(&mut meta, "k", "1");
    set_meta(&mut meta, "other", "x");
    set_meta(&mut meta, "k", "2");
    assert_eq!(get_meta(&meta, "k"), Some("2".to_string()));
    assert_eq!(get_meta(&meta, "other"), Some("x".to_string()));
    assert_eq!(meta.writes().len(), 3);
    assert_eq!(get_meta(&meta.copy(), "k"), Some("2".to_string()));
}

#[test]
fn question_keys() {
    assert_eq!(qa_key_text(0, "_question"), "qa_0_question");
    assert_eq!(qa_key_text(12, "_wrapped"), "qa_12_wrapped");
}

#[test]
fn init_writes_what_each_path_needs() {
    let mut meta = Meta::new();
    let qa = vec![("q0".to_string(), "a0".to_string()), ("q1".to_string(), "a1".to_string())];
    let key = VaultKey::from_bytes([7u8; 32]);
    init_with(&key, "master", Some(Ok("code".to_string())), &qa, &mut meta).unwrap();
    let keys: Vec<&str> = meta.writes().iter().map(|w| w.0.as_str()).collect();
    assert_eq!(
        keys,
        vec![
            "master_salt", "master_wrapped", "machine_salt", "machine_wrapped", "qa_0_question",
            "qa_0_salt", "qa_0_wrapped", "qa_1_question", "qa_1_salt", "qa_1_wrapped",
        ]
    );
    let wrapped = get_meta(&meta, META_MASTER_WRAPPED).unwrap();
    let salt = get_meta(&meta, META_MASTER_SALT).unwrap();
    assert!(wrapped.starts_with(&format!("{salt}.")));
    assert_eq!(qa_questions(&meta), vec!["q0", "q1"]);
    assert!(machine_recovery_available(&meta));
    assert!(open(&meta, "master").is_ok());
    assert!(recover_with_qa(&meta, 1, "a1").is_ok());
    assert!(matches!(recover_with_qa(&meta, 2, "a1").err(), Some(UnlockError::NotConfigured)));
    assert!(recover_with_code(&meta, Ok("code".to_string())).is_ok());
    assert!(matches!(
        recover_with_code(&meta, Ok("other".to_string())).err(),
        Some(UnlockError::WrongCredential)
    ));
    match recover_with_code(&meta, Err(CryptoError::MachineId("why".to_string()))).err() {
        Some(e) => assert_eq!(e.message(), "数据库错误：无法读取机器码：why"),
        None => panic!("unlocked without a code"),
    }
}

#[test]
fn every_credential_unlocks_the_same_key() {
    let mut meta = Meta::new();
    let qa = vec![("q".to_string(), "a".to_string())];
    let key = VaultKey::generate();
    init_with(&key, "master", Some(Ok("code".to_string())), &qa, &mut meta).unwrap();
    let by_master = open(&meta, "master").unwrap();
    let stored = by_master.add(&sample_record("x")).unwrap();
    let by_answer = recover_with_qa(&meta, 0, "a").unwrap();
    assert_eq!(by_answer.decrypt(&stored.password_blob).unwrap(), "pw-x");
    let by_machine = recover_with_code(&meta, Ok("code".to_string())).unwrap();
    assert_eq!(by_machine.decrypt(&stored.password_blob).unwrap(), "pw-x");
}

#[test]
fn init_stops_where_the_machine_code_cannot_be_read() {
    let mut meta = Meta::new();
    let qa = vec![("q".to_string(), "a".to_string())];
    let why = CryptoError::MachineId("nothing there".to_string());
    let r = init_with(&VaultKey::generate(), "master", Some(Err(why)), &qa, &mut meta);
    assert_eq!(r.unwrap_err(), "无法读取机器码：nothing there");
    assert_eq!(meta.writes().len(), 2);
    assert!(!machine_recovery_available(&meta));
    assert_eq!(qa_questions(&meta).len(), 0);
}

#[test]
fn empty_table_unlocks_nothing() {
    let meta = Meta::new();
    assert!(matches!(open(&meta, "m").err(), Some(UnlockError::WrongCredential)));
    assert!(matches!(recover_with_machine(&meta).err(), Some(UnlockError::NotConfigured)));
    assert!(matches!(recover_with_qa(&meta, 0, "a").err(), Some(UnlockError::NotConfigured)));
    assert!(!machine_recovery_available(&meta));
    assert_eq!(qa_questions(&meta).len(), 0);
    assert!(matches!(
        unlock(&meta, Err(CryptoError::Aead)).err(),
        Some(UnlockError::WrongCredential)
    ));
}

#[test]
fn questions_end_at_the_first_gap() {
    let mut meta = Meta::new();
    set_meta(&mut meta, "qa_0_question", "a");
    set_meta(&mut meta, "qa_2_question", "c");
    assert_eq!(qa_questions(&meta), vec!["a"]);
}

#[test]
fn unlock_messages() {
    assert_eq!(UnlockError::WrongCredential.message(), "凭据错误或数据损坏");
    assert_eq!(UnlockError::NotConfigured.message(), "该恢复路径未配置");
    assert_eq!(UnlockError::Db("x".to_string()).message(), "数据库错误：x");
}

fn vault() -> Vault {
    unlock(&Meta::new(), Ok([5u8; 32])).ok().unwrap()
}

#[test]
fn stored_texts_are_trimmed_and_passwords_are_not() {
    let v = vault();
    let mut r = sample_record(" 微信\t");
    r.password = "  keep  ".to_string();
    let n = v.add(&r).unwrap();
    assert_eq!(n.app_name, "微信");
    assert_eq!(v.decrypt(&n.password_blob).unwrap(), "  keep  ");
    let stamp: Vec<char> = n.stamp.chars().collect();
    assert_eq!(stamp.len(), 19);
    for (i, c) in stamp.iter().enumerate() {
        match i {
            4 | 7 => assert_eq!(*c, '-'),
            10 => assert_eq!(*c, ' '),
            13 | 16 => assert_eq!(*c, ':'),
            _ => assert!(c.is_ascii_digit()),
        }
    }
    let n = v.add_at(&r, "2024-01-01 00:00:00".to_string()).unwrap();
    assert_eq!(n.stamp, "2024-01-01 00:00:00");
    let rec = v.save(9, &r).unwrap();
    assert_eq!(rec.id, 9);
    assert_eq!(
        rec.fields(),
        ["微信", "nick", "user", "id1", "voucher", "reg", "note", rec.stamp.as_str()]
    );
}

#[test]
fn listing_is_stable() {
    let v = vault();
    let mut rows = Rows::new();
    for name in ["b", "B", "百度", "a", "b ", "!", "A", "微信", ""] {
        let mut n = v.add_at(&sample_record("x"), String::new()).unwrap();
        n.app_name = name.to_string();
        rows.insert(n);
    }
    let ids: Vec<i64> = v.list(rows.all()).iter().map(|r| r.id).collect();
    assert_eq!(ids, vec![4, 7, 1, 2, 5, 3, 8, 9, 6]);
    let mut sorted = rows.all();
    sorted.sort_by_key(|r| pswd::sort::sort_key(&r.app_name));
    let expected: Vec<i64> = sorted.iter().map(|r| r.id).collect();
    assert_eq!(ids, expected);
}

#[test]
fn search_looks_at_every_text_but_the_time() {
    let v = vault();
    let mut rows = Rows::new();
    let mut n = v.add_at(&sample_record("app"), "1999".to_string()).unwrap();
    n.nick_name = "昵称".into();
    n.user_name = "UUU".into();
    n.user_id = "iii".into();
    n.voucher = "vvv".into();
    n.register = "rrr".into();
    n.remark = "工作".into();
    rows.insert(n);
    for kw in ["app", "nc", "uu", "III", "vvv", " rrr ", "gongzuo", "工作"] {
        assert_eq!(v.search(rows.all(), kw).len(), 1, "{kw}");
    }
    assert_eq!(v.search(rows.all(), "1999").len(), 0);
    assert_eq!(v.search(rows.all(), "  ").len(), 1);
}

#[test]
fn changes_must_meet_a_row() {
    assert!(check_affected(1).is_ok());
    assert_eq!(check_affected(0).unwrap_err(), "记录不存在，可能已被删除");
    let mut rows = Rows::new();
    assert!(rows.delete(1).is_err());
    assert!(rows.update(vault().save(3, &sample_record("x")).unwrap()).is_err());
}

#[test]
fn reset_adds_two_writes() {
    let mut meta = Meta::new();
    let qa = vec![("q".to_string(), "a".to_string())];
    init_with(&VaultKey::generate(), "old", None, &qa, &mut meta).unwrap();
    set_meta(&mut meta, META_DISPLAY_MODE, "full");
    let mut v = open(&meta, "old").unwrap();
    let before = v.meta().writes().len();
    v.reset_master("new").unwrap();
    assert_eq!(v.meta().writes().len(), before + 2);
    assert_eq!(qa_questions(v.meta()), vec!["q"]);
    assert_eq!(v.display_mode(), DisplayMode::Full);
    assert!(recover_with_qa(v.meta(), 0, "a").is_ok());
    assert!(open(v.meta(), "new").is_ok());
    assert!(open(v.meta(), "old").is_err());
}

#[test]
fn later_writes_make_the_table_whole() {
    let mut log = Meta::new();
    for (k, v) in [("a", "1"), ("b", "2"), ("a", "3"), ("c", "4"), ("b", "5")] {
        set_meta(&mut log, k, v);
    }
    for n in 0..=log.writes().len() {
        let mut table = Meta::new();
        for (k, v) in &log.writes()[..n] {
            set_meta(&mut table, k, v);
        }
        for (k, v) in &log.writes()[n..] {
            set_meta(&mut table, k, v);
        }
        for k in ["a", "b", "c", "d"] {
            assert_eq!(get_meta(&table, k), get_meta(&log, k));
        }
    }
}

#[test]
fn added_records_are_listed_and_found() {
    let v = vault();
    let mut rows = Rows::new();
    for name in ["微信", "Google 邮箱", "!!", "支付宝"] {
        let id = rows.insert(v.add(&sample_record(name)).unwrap());
        assert!(v.list(rows.all()).iter().any(|r| r.id == id));
        assert!(v.search(rows.all(), name).iter().any(|r| r.id == id));
    }
    assert_eq!(v.search(rows.all(), "zhifubao").len(), 1);
    assert_eq!(v.search(rows.all(), "zfb")[0].app_name, "支付宝");
}

fn pair(s: &str, w: &str) -> Result<(String, String), CryptoError> {
    Ok((s.to_string(), w.to_string()))
}

#[test]
fn wrappings_are_stored_up_to_the_first_failure() {
    let mut meta = Meta::new();
    let outcomes = vec![
        (Slot::Master, pair("s0", "w0")),
        (Slot::Machine, pair("s1", "w1")),
        (Slot::Answer(0, "q".to_string()), pair("s2", "w2")),
    ];
    store_outcomes(&mut meta, outcomes).unwrap();
    let writes: Vec<(&str, &str)> =
        meta.writes().iter().map(|w| (w.0.as_str(), w.1.as_str())).collect();
    assert_eq!(
        writes,
        vec![
            ("master_salt", "s0"),
            ("master_wrapped", "w0"),
            ("machine_salt", "s1"),
            ("machine_wrapped", "w1"),
            ("qa_0_question", "q"),
            ("qa_0_salt", "s2"),
            ("qa_0_wrapped", "w2"),
        ]
    );
    let mut meta = Meta::new();
    let outcomes = vec![
        (Slot::Master, pair("s0", "w0")),
        (Slot::Machine, Err(CryptoError::MachineId("a".to_string()))),
        (Slot::Answer(0, "q".to_string()), Err(CryptoError::Aead)),
    ];
    assert_eq!(store_outcomes(&mut meta, outcomes).unwrap_err(), "无法读取机器码：a");
    assert_eq!(meta.writes().len(), 2);
    assert!(store_outcomes(&mut meta, vec![]).is_ok());
}

#[test]
fn new_master_wrapping_is_stored() {
    let mut v = vault();
    v.store_master(pair("s", "w")).unwrap();
    assert_eq!(get_meta(v.meta(), META_MASTER_SALT), Some("s".to_string()));
    assert_eq!(get_meta(v.meta(), META_MASTER_WRAPPED), Some("w".to_string()));
    assert_eq!(v.store_master(Err(CryptoError::Aead)).unwrap_err(), "加解密失败");
    assert_eq!(v.meta().writes().len(), 2);
}

#[test]
fn records_change_one_by_one() {
    let v = vault();
    let mut rows = Rows::new();
    for name in ["a", "b", "c"] {
        rows.insert(v.add(&sample_record(name)).unwrap());
    }
    assert_eq!(rows.records.count(), 3);
    let rec = v.save(2, &sample_record("B")).unwrap();
    rows.update(rec).unwrap();
    let names: Vec<String> = rows.all().iter().map(|r| r.app_name.clone()).collect();
    assert_eq!(names, vec!["a", "B", "c"]);
    assert_eq!(rows.get(2).unwrap().app_name, "B");
    rows.delete(1).unwrap();
    assert!(rows.get(1).is_none());
    assert_eq!(rows.get(3).unwrap().app_name, "c");
    assert_eq!(rows.delete(1).unwrap_err(), "记录不存在，可能已被删除");
    let rec = v.save(9, &sample_record("x")).unwrap();
    assert_eq!(rows.update(rec).unwrap_err(), "记录不存在，可能已被删除");
    assert_eq!(rows.records.count(), 2);
}

#[test]
fn refused_setup_writes_nothing() {
    let mut meta = fresh("m");
    let before = meta.writes().len();
    assert!(init("pswd.db", true, "n", &plain_opts(), &mut meta).is_err());
    assert_eq!(meta.writes().len(), before);
    assert!(open(&meta, "m").is_ok());
}

#[test]
fn ids_are_distinct() {
    let v = vault();
    let row = |id: i64| v.add(&sample_record("x")).unwrap().with_id(id);
    assert!(Records::new(vec![row(1), row(2), row(1)]).is_none());
    let mut records = Records::new(vec![row(1), row(2), row(3)]).unwrap();
    assert_eq!(records.count(), 3);
    records.delete(2).unwrap();
    assert_eq!(records.count(), 2);
    assert!(records.delete(2).is_err());
    assert_eq!(records.count(), 2);
    records.insert(row(2));
    records.replace(&row(3)).unwrap();
    let mut ids: Vec<i64> = v.list(records.rows()).iter().map(|r| r.id).collect();
    ids.sort();
    assert_eq!(ids, vec![1, 2, 3]);
}
