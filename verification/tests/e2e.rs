use pswd::crypto::{machine_code, VaultKey};
use pswd::storage::{
    init, init_with, machine_recovery_available, open, qa_questions, recover_with_code,
    recover_with_machine, recover_with_qa, Meta, RecordIn, Records, RecoveryOpts, UnlockError,
};
use pswd::ui::setup::{create_vault, created, SetupWizard};
use pswd::ui::unlock::{master_prompt, UnlockFlow, UnlockStage};
use pswd::ui::{Notice, Prompt, Reply};

#[test]
fn full_flow_with_all_recovery_paths() {
    let mut db = Meta::new();
    let opts = RecoveryOpts {
        machine_binding: true,
        qa_pairs: vec![
            ("你的身份证号是什么？".into(), "110101199001011234".into()),
            ("你的手机号码是什么？".into(), "13800138000".into()),
        ],
    };
    // A machine without a readable code is given one.
    let real = machine_code().ok();
    let code = real.clone().unwrap_or("machine-guid".to_string());
    if real.is_some() {
        init("full", false, "master-123", &opts, &mut db).unwrap();
    } else {
        let key = VaultKey::generate();
        init_with(&key, "master-123", Some(Ok(code.clone())), &opts.qa_pairs, &mut db).unwrap();
    }

    assert!(machine_recovery_available(&db));
    assert_eq!(
        qa_questions(&db),
        vec!["你的身份证号是什么？".to_string(), "你的手机号码是什么？".to_string()]
    );

    let vault = open(&db, "master-123").unwrap();
    let added = vault
        .add(&RecordIn {
            app_name: "微信".into(),
            nick_name: "自己".into(),
            user_name: "wx_user".into(),
            user_id: "wxid_001".into(),
            password: "Wx@2025".into(),
            voucher: "v1".into(),
            register: "r1".into(),
            remark: "工作用".into(),
        })
        .unwrap();
    let rows = vec![added.with_id(1)];
    drop(vault);

    assert!(matches!(
        open(&db, "wrong").err(),
        Some(UnlockError::WrongCredential)
    ));

    let mut vault = if real.is_some() {
        recover_with_machine(&db).unwrap()
    } else {
        recover_with_code(&db, Ok(code)).unwrap()
    };
    assert_eq!(vault.decrypt(&rows[0].password_blob).unwrap(), "Wx@2025");
    vault.reset_master("new-master").unwrap();
    let db = vault.meta().copy();
    drop(vault);
    assert!(open(&db, "master-123").is_err());

    let vault = recover_with_qa(&db, 0, "110101199001011234").unwrap();
    assert!(vault.list(rows.iter().map(|r| r.copy()).collect()).len() == 1);
    drop(vault);
    assert!(matches!(
        recover_with_qa(&db, 1, "00000000000").err(),
        Some(UnlockError::WrongCredential)
    ));

    let vault = open(&db, "new-master").unwrap();
    assert_eq!(vault.search(rows.iter().map(|r| r.copy()).collect(), "工作").len(), 1);
    assert_eq!(vault.search(rows.iter().map(|r| r.copy()).collect(), "WX").len(), 1);
    let mut records = Records::new(rows).unwrap();
    records.delete(1).unwrap();
    assert_eq!(records.count(), 0);
}

fn entered(s: &str) -> Reply {
    Reply::Entered(s.to_string())
}

fn set_up(master: &str, question: Option<(&str, &str)>) -> Meta {
    let mut w = SetupWizard::new();
    w.step(Reply::Agreed(true));
    w.step(entered(master));
    w.step(entered(master));
    w.step(Reply::Agreed(false));
    if let Some((q, a)) = question {
        w.step(Reply::Chosen(2));
        w.step(entered(q));
        w.step(entered(a));
        w.step(entered(a));
    }
    w.step(Reply::Chosen(3));
    let (master, recovery) = w.finish().unwrap().ok().unwrap();
    let mut meta = Meta::new();
    create_vault("pswd.db", false, master, &recovery, &mut meta).unwrap();
    meta
}

#[test]
fn right_password_unlocks() {
    let mut flow = UnlockFlow::new(set_up("m", None));
    assert!(matches!(flow.prompt(), Some(Prompt::Secret { text }) if text == "\n主密码："));
    assert!(matches!(master_prompt(), Prompt::Secret { text } if text == "\n主密码："));
    assert_eq!(flow.step(entered("m")), vec![Notice::Unlocked]);
    assert_eq!(flow.stage(), UnlockStage::Unlocked);
    assert!(flow.prompt().is_none());
    assert!(flow.finish().unwrap().is_ok());
}

#[test]
fn nothing_to_recover_with() {
    let mut flow = UnlockFlow::new(set_up("m", None));
    assert_eq!(flow.step(entered("wrong")), vec![Notice::WrongMaster]);
    assert_eq!(flow.stage(), UnlockStage::Failed);
    assert_eq!(
        flow.finish().unwrap().err().unwrap(),
        "未配置任何恢复路径，无法解锁数据。"
    );
}

#[test]
fn recovery_by_answer_and_new_password() {
    let mut flow = UnlockFlow::new(set_up("m", Some(("生日？", "0101"))));
    assert_eq!(flow.step(entered("wrong")), vec![Notice::WrongMaster]);
    match flow.prompt() {
        Some(Prompt::Select { text, items }) => {
            assert_eq!(text, "请选择恢复方式");
            assert_eq!(items, vec!["回答密保问题：生日？", "退出"]);
        }
        _ => panic!("no menu"),
    }
    // A reply of another kind changes nothing, nor does a choice out of range.
    assert_eq!(flow.step(entered("x")), vec![]);
    assert_eq!(flow.step(Reply::Chosen(2)), vec![]);
    assert_eq!(flow.stage(), UnlockStage::Menu);
    assert_eq!(flow.step(Reply::Chosen(0)), vec![]);
    assert!(matches!(flow.prompt(), Some(Prompt::Secret { text }) if text == "回答「生日？」："));
    assert_eq!(flow.step(entered("0101")), vec![Notice::Recovered]);
    assert!(matches!(flow.prompt(), Some(Prompt::Confirm { text, default: true }) if text == "是否立即重设主密码？"));
    flow.step(Reply::Agreed(true));
    assert!(matches!(flow.prompt(), Some(Prompt::Secret { text }) if text == "新主密码："));
    flow.step(entered("n"));
    assert!(matches!(flow.prompt(), Some(Prompt::Secret { text }) if text == "请再次输入新主密码："));
    assert_eq!(flow.step(entered("n")), vec![Notice::MasterUpdated]);
    let vault = flow.finish().unwrap().ok().unwrap();
    assert!(open(vault.meta(), "n").is_ok());
    assert!(open(vault.meta(), "m").is_err());
}

#[test]
fn new_password_must_be_repeated() {
    let mut flow = UnlockFlow::new(set_up("m", Some(("q", "a"))));
    flow.step(entered("wrong"));
    flow.step(Reply::Chosen(0));
    flow.step(entered("a"));
    flow.step(Reply::Agreed(true));
    flow.step(entered("n"));
    assert_eq!(flow.step(entered("other")), vec![Notice::MasterKept]);
    let vault = flow.finish().unwrap().ok().unwrap();
    assert!(open(vault.meta(), "m").is_ok());

    let mut flow = UnlockFlow::new(vault.meta().copy());
    flow.step(entered("wrong"));
    flow.step(Reply::Chosen(0));
    flow.step(entered("a"));
    flow.step(Reply::Agreed(true));
    flow.step(entered(""));
    assert_eq!(flow.step(entered("")), vec![Notice::MasterKept]);
    assert_eq!(flow.stage(), UnlockStage::Unlocked);
}

#[test]
fn reset_can_be_declined() {
    let mut flow = UnlockFlow::new(set_up("m", Some(("q", "a"))));
    flow.step(entered("wrong"));
    flow.step(Reply::Chosen(0));
    flow.step(entered("a"));
    assert_eq!(flow.step(Reply::Agreed(false)), vec![]);
    assert!(flow.finish().unwrap().is_ok());
}

#[test]
fn wrong_answer_and_leaving_fail() {
    let meta = set_up("m", Some(("q", "a")));
    let mut flow = UnlockFlow::new(meta.copy());
    flow.step(entered("wrong"));
    flow.step(Reply::Chosen(0));
    assert_eq!(flow.step(entered("b")), vec![]);
    assert_eq!(flow.finish().unwrap().err().unwrap(), "凭据错误或数据损坏");
    let mut flow = UnlockFlow::new(meta);
    flow.step(entered("wrong"));
    flow.step(Reply::Chosen(1));
    assert_eq!(flow.finish().unwrap().err().unwrap(), "已退出。");
}

#[test]
fn machine_path_comes_first() {
    let mut meta = Meta::new();
    let qa = vec![("q".to_string(), "a".to_string())];
    let key = VaultKey::generate();
    init_with(&key, "m", Some(Ok("not this machine".to_string())), &qa, &mut meta).unwrap();
    let mut flow = UnlockFlow::new(meta);
    flow.step(entered("wrong"));
    match flow.prompt() {
        Some(Prompt::Select { items, .. }) => {
            assert_eq!(items, vec!["使用本机机器码恢复", "回答密保问题：q", "退出"]);
        }
        _ => panic!("no menu"),
    }
    assert_eq!(flow.step(Reply::Chosen(0)), vec![Notice::ReadingMachine]);
    assert_eq!(flow.stage(), UnlockStage::Machine);
    assert!(matches!(flow.prompt(), Some(Prompt::Proceed)));
    assert_eq!(flow.step(entered("x")), vec![]);
    assert_eq!(flow.step(Reply::Proceed), vec![]);
    let why = flow.finish().unwrap().err().unwrap();
    assert!(why == "凭据错误或数据损坏" || why.starts_with("数据库错误：无法读取机器码："));
}

#[test]
fn recovery_goes_on_by_what_came_of_it() {
    let meta = set_up("m", None);
    let mut flow = UnlockFlow::new(meta.copy());
    assert_eq!(flow.recovered(open(&meta, "m")), vec![Notice::Recovered]);
    assert_eq!(flow.stage(), UnlockStage::OfferReset);
    let mut flow = UnlockFlow::new(meta.copy());
    assert_eq!(flow.recovered(Err(UnlockError::NotConfigured)), vec![]);
    assert_eq!(flow.finish().unwrap().err().unwrap(), "该恢复路径未配置");
    let mut flow = UnlockFlow::new(meta);
    assert_eq!(flow.tried(Err(UnlockError::Db("x".to_string()))), vec![]);
    assert_eq!(flow.finish().unwrap().err().unwrap(), "数据库错误：x");
}

#[test]
fn init_binds_the_code_of_this_machine() {
    let mut db = Meta::new();
    let opts = RecoveryOpts { machine_binding: true, qa_pairs: vec![] };
    let r = init("bound", false, "m", &opts, &mut db);
    match machine_code() {
        Ok(code) => {
            r.unwrap();
            assert!(machine_recovery_available(&db));
            assert!(recover_with_machine(&db).is_ok());
            assert!(recover_with_code(&db, Ok(code)).is_ok());
        }
        Err(e) => {
            assert_eq!(r.unwrap_err(), e.message());
            assert!(!machine_recovery_available(&db));
        }
    }
}

#[test]
fn reset_goes_on_by_what_came_of_it() {
    let meta = set_up("m", None);
    let mut flow = UnlockFlow::new(meta.copy());
    flow.recovered(open(&meta, "m"));
    assert_eq!(flow.reset_done(Ok(())), vec![Notice::MasterUpdated]);
    assert!(flow.finish().unwrap().is_ok());
    let mut flow = UnlockFlow::new(meta.copy());
    flow.recovered(open(&meta, "m"));
    assert_eq!(flow.reset_done(Err("why".to_string())), vec![]);
    assert_eq!(flow.finish().unwrap().err().unwrap(), "why");
    assert_eq!(created("m".to_string(), Ok(())), Ok("m".to_string()));
    assert_eq!(created("m".to_string(), Err("why".to_string())), Err("why".to_string()));
}
