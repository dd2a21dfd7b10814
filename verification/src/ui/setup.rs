//! The wizard that sets up a vault: the master password, then the recovery
//! paths.
use crate::crypto::{drawn, CryptoError};
use crate::storage::{
    code_asked, exists_message, init, init_failure, partly_written, set_up_with, written, Meta,
    RecoveryOpts, Written,
};
use crate::text::{holds, law_holds_between, same, trimmed, views};
use crate::ui::theme::{paint, painted, style_codes, Style};
use crate::ui::{
    entered, entered_text, law_limited, option_prompt, Notice, Prompt, PromptView, Reply,
    ReplyView,
};
use vstd::prelude::*;
use vstd::string::*;

verus! {

/// What the wizard waits for.
#[derive(Debug, Clone, Copy, PartialEq, Eq, Structural)]
pub enum SetupStage {
    /// Whether to begin.
    Begin,
    /// The master password.
    Master,
    /// The master password once more.
    MasterAgain,
    /// Whether to bind the machine code.
    Machine,
    /// A choice in the menu of questions.
    Menu,
    /// A question of the user's own.
    Question,
    /// The answer to a question.
    Answer,
    /// The answer once more.
    AnswerAgain,
    /// Nothing: the setup is complete.
    Done,
    /// Nothing: the setup was declined.
    Declined,
}

/// The state of the wizard.
pub struct SetupView {
    pub stage: SetupStage,
    pub master: Seq<char>,
    pub machine_binding: bool,
    pub qa: Seq<(Seq<char>, Seq<char>)>,
    /// The question that is being answered.
    pub question: Seq<char>,
    /// The password or answer that is to be entered once more.
    pub first: Seq<char>,
}

/// The wizard that sets up a vault.
pub struct SetupWizard {
    stage: SetupStage,
    master: String,
    machine_binding: bool,
    qa_pairs: Vec<(String, String)>,
    question: String,
    first: String,
}

/// Pairs of strings by their views.
pub open spec fn pair_views(v: Seq<(String, String)>) -> Seq<(Seq<char>, Seq<char>)> {
    Seq::new(v.len(), |i: int| (v[i].0@, v[i].1@))
}

impl View for SetupWizard {
    type V = SetupView;

    closed spec fn view(&self) -> SetupView {
        SetupView {
            stage: self.stage,
            master: self.master@,
            machine_binding: self.machine_binding,
            qa: pair_views(self.qa_pairs@),
            question: self.question@,
            first: self.first@,
        }
    }
}

/// The wizard at its start.
pub open spec fn setup_start() -> SetupView {
    SetupView {
        stage: SetupStage::Begin,
        master: Seq::empty(),
        machine_binding: false,
        qa: Seq::empty(),
        question: Seq::empty(),
        first: Seq::empty(),
    }
}

/// The wizard after a reply, and the notice shown, if any. A reply of a kind
/// that the stage does not wait for changes nothing.
pub open spec fn setup_next(v: SetupView, reply: ReplyView) -> (SetupView, Option<Notice>) {
    match (v.stage, reply) {
        (SetupStage::Begin, ReplyView::Agreed(yes)) => if yes {
            (SetupView { stage: SetupStage::Master, ..v }, None)
        } else {
            (SetupView { stage: SetupStage::Declined, ..v }, None)
        },
        (SetupStage::Master, ReplyView::Entered(p)) => if p.len() == 0 {
            (v, Some(Notice::MasterEmpty))
        } else {
            (SetupView { stage: SetupStage::MasterAgain, first: p, ..v }, None)
        },
        (SetupStage::MasterAgain, ReplyView::Entered(p)) => if p == v.first {
            (
                SetupView { stage: SetupStage::Machine, master: p, ..v },
                Some(Notice::RecoveryHeader),
            )
        } else {
            (SetupView { stage: SetupStage::Master, ..v }, Some(Notice::MasterDiffers))
        },
        (SetupStage::Machine, ReplyView::Agreed(yes)) => (
            SetupView { stage: SetupStage::Menu, machine_binding: yes, ..v },
            if yes {
                Some(Notice::MachineBound)
            } else {
                None
            },
        ),
        (SetupStage::Menu, ReplyView::Chosen(n)) => if n == 0 {
            (
                SetupView { stage: SetupStage::Answer, question: "你的身份证号是什么？"@, ..v },
                None,
            )
        } else if n == 1 {
            (
                SetupView { stage: SetupStage::Answer, question: "你的手机号码是什么？"@, ..v },
                None,
            )
        } else if n == 2 {
            (SetupView { stage: SetupStage::Question, ..v }, None)
        } else {
            (SetupView { stage: SetupStage::Done, ..v }, None)
        },
        (SetupStage::Question, ReplyView::Entered(q)) => if entered_text(q).len() == 0 {
            (SetupView { stage: SetupStage::Menu, ..v }, Some(Notice::QuestionEmpty))
        } else {
            (SetupView { stage: SetupStage::Answer, question: entered_text(q), ..v }, None)
        },
        (SetupStage::Answer, ReplyView::Entered(a)) => if a.len() == 0 {
            (v, Some(Notice::AnswerEmpty))
        } else {
            (SetupView { stage: SetupStage::AnswerAgain, first: a, ..v }, None)
        },
        (SetupStage::AnswerAgain, ReplyView::Entered(a)) => if a == v.first {
            (
                SetupView { stage: SetupStage::Menu, qa: v.qa.push((v.question, a)), ..v },
                Some(Notice::QuestionAdded),
            )
        } else {
            (SetupView { stage: SetupStage::Answer, ..v }, Some(Notice::AnswerDiffers))
        },
        _ => (v, None),
    }
}

/// The choices in the menu of questions.
pub open spec fn menu_items() -> Seq<Seq<char>> {
    seq!["身份证号？"@, "手机号码？"@, "自定义问题"@, "完成设置"@]
}

/// What the wizard asks next.
pub open spec fn setup_prompt(v: SetupView) -> Option<PromptView> {
    match v.stage {
        SetupStage::Begin => Some(
            PromptView::Confirm { text: "是否开始设置？"@, default: true },
        ),
        SetupStage::Master => Some(PromptView::Secret { text: "设置主密码："@ }),
        SetupStage::MasterAgain => Some(PromptView::Secret { text: "请再次输入主密码："@ }),
        SetupStage::Machine => Some(
            PromptView::Confirm {
                text: "绑定本机机器码作为恢复路径？（注意：任何能接触本机的人可凭此解锁）"@,
                default: false,
            },
        ),
        SetupStage::Menu => Some(
            PromptView::Select {
                text: "添加密保问题（忘记主密码时回答正确即可恢复）"@,
                items: menu_items(),
            },
        ),
        SetupStage::Question => Some(
            PromptView::Text {
                text: "请输入自定义问题（例如：你的生日是？）"@,
                allow_empty: false,
            },
        ),
        SetupStage::Answer => Some(
            PromptView::Secret { text: "回答问题「"@ + v.question + "」："@ },
        ),
        SetupStage::AnswerAgain => Some(PromptView::Secret { text: "请再次输入答案："@ }),
        SetupStage::Done => None,
        SetupStage::Declined => None,
    }
}

impl SetupWizard {
    /// A wizard at its start.
    pub fn new() -> (r: SetupWizard)
        ensures
            r@ == setup_start(),
    {
        let r = SetupWizard {
            stage: SetupStage::Begin,
            master: String::new(),
            machine_binding: false,
            qa_pairs: Vec::new(),
            question: String::new(),
            first: String::new(),
        };
        assert(r@.qa == Seq::<(Seq<char>, Seq<char>)>::empty());
        r
    }

    /// What the wizard waits for.
    pub fn stage(&self) -> (r: SetupStage)
        ensures
            r == self@.stage,
    {
        self.stage
    }

    /// What the wizard asks next.
    pub fn prompt(&self) -> (r: Option<Prompt>)
        ensures
            option_prompt(r) == setup_prompt(self@),
    {
        match self.stage {
            SetupStage::Begin => Some(
                Prompt::Confirm { text: "是否开始设置？".to_owned(), default: true },
            ),
            SetupStage::Master => Some(Prompt::Secret { text: "设置主密码：".to_owned() }),
            SetupStage::MasterAgain => Some(
                Prompt::Secret { text: "请再次输入主密码：".to_owned() },
            ),
            SetupStage::Machine => Some(
                Prompt::Confirm {
                    text:
                        "绑定本机机器码作为恢复路径？（注意：任何能接触本机的人可凭此解锁）".to_owned(),
                    default: false,
                },
            ),
            SetupStage::Menu => {
                let mut items: Vec<String> = Vec::new();
                items.push("身份证号？".to_owned());
                items.push("手机号码？".to_owned());
                items.push("自定义问题".to_owned());
                items.push("完成设置".to_owned());
                assert(views(items@) == menu_items());
                Some(
                    Prompt::Select {
                        text: "添加密保问题（忘记主密码时回答正确即可恢复）".to_owned(),
                        items,
                    },
                )
            },
            SetupStage::Question => Some(
                Prompt::Text {
                    text: "请输入自定义问题（例如：你的生日是？）".to_owned(),
                    allow_empty: false,
                },
            ),
            SetupStage::Answer => {
                let mut text = "回答问题「".to_owned();
                text.append(self.question.as_str());
                text.append("」：");
                Some(Prompt::Secret { text })
            },
            SetupStage::AnswerAgain => Some(Prompt::Secret { text: "请再次输入答案：".to_owned() }),
            SetupStage::Done => None,
            SetupStage::Declined => None,
        }
    }

    /// Takes a reply, and gives the notice to show, if any.
    pub fn step(&mut self, reply: Reply) -> (r: Option<Notice>)
        ensures
            (final(self)@, r) == setup_next(old(self)@, reply@),
    {
        let ghost before = self.qa_pairs@;
        match (self.stage, reply) {
            (SetupStage::Begin, Reply::Agreed(yes)) => {
                self.stage = if yes {
                    SetupStage::Master
                } else {
                    SetupStage::Declined
                };
                None
            },
            (SetupStage::Master, Reply::Entered(p)) => {
                if p.as_str().is_empty() {
                    return Some(Notice::MasterEmpty);
                }
                self.first = p;
                self.stage = SetupStage::MasterAgain;
                None
            },
            (SetupStage::MasterAgain, Reply::Entered(p)) => {
                if same(p.as_str(), self.first.as_str()) {
                    self.master = p;
                    self.stage = SetupStage::Machine;
                    Some(Notice::RecoveryHeader)
                } else {
                    self.stage = SetupStage::Master;
                    Some(Notice::MasterDiffers)
                }
            },
            (SetupStage::Machine, Reply::Agreed(yes)) => {
                self.machine_binding = yes;
                self.stage = SetupStage::Menu;
                if yes {
                    Some(Notice::MachineBound)
                } else {
                    None
                }
            },
            (SetupStage::Menu, Reply::Chosen(n)) => {
                if n == 0 {
                    self.question = "你的身份证号是什么？".to_owned();
                    self.stage = SetupStage::Answer;
                } else if n == 1 {
                    self.question = "你的手机号码是什么？".to_owned();
                    self.stage = SetupStage::Answer;
                } else if n == 2 {
                    self.stage = SetupStage::Question;
                } else {
                    self.stage = SetupStage::Done;
                }
                None
            },
            (SetupStage::Question, Reply::Entered(q)) => {
                let question = entered(q.as_str());
                if question.as_str().is_empty() {
                    self.stage = SetupStage::Menu;
                    return Some(Notice::QuestionEmpty);
                }
                self.question = question;
                self.stage = SetupStage::Answer;
                None
            },
            (SetupStage::Answer, Reply::Entered(a)) => {
                if a.as_str().is_empty() {
                    return Some(Notice::AnswerEmpty);
                }
                self.first = a;
                self.stage = SetupStage::AnswerAgain;
                None
            },
            (SetupStage::AnswerAgain, Reply::Entered(a)) => {
                if same(a.as_str(), self.first.as_str()) {
                    self.qa_pairs.push((self.question.clone(), a));
                    assert(pair_views(self.qa_pairs@) == pair_views(before).push(
                        (self.question@, a@),
                    ));
                    self.stage = SetupStage::Menu;
                    Some(Notice::QuestionAdded)
                } else {
                    self.stage = SetupStage::Answer;
                    Some(Notice::AnswerDiffers)
                }
            },
            _ => None,
        }
    }

    /// What the setup came to: the master password and the recovery paths, or
    /// the reason why there are none; nothing where it has not ended.
    pub fn finish(self) -> (r: Option<Result<(String, RecoveryOpts), String>>)
        ensures
            match self@.stage {
                SetupStage::Done => r matches Some(Ok((master, recovery))) && master@
                    == self@.master && recovery.machine_binding == self@.machine_binding
                    && pair_views(recovery.qa_pairs@) == self@.qa,
                SetupStage::Declined => r matches Some(Err(why)) && why@ == "已取消设置"@,
                _ => r is None,
            },
    {
        match self.stage {
            SetupStage::Done => Some(
                Ok(
                    (
                        self.master,
                        RecoveryOpts {
                            machine_binding: self.machine_binding,
                            qa_pairs: self.qa_pairs,
                        },
                    ),
                ),
            ),
            SetupStage::Declined => Some(Err("已取消设置".to_owned())),
            _ => None,
        }
    }
}

/// What holds of the wizard at all times: nothing empty is ever kept as a
/// password, a question or an answer.
pub open spec fn setup_sound(v: SetupView) -> bool {
    &&& v.stage == SetupStage::MasterAgain || v.stage == SetupStage::AnswerAgain ==> v.first.len()
        > 0
    &&& v.stage == SetupStage::Answer || v.stage == SetupStage::AnswerAgain ==> v.question.len() > 0
    &&& v.stage == SetupStage::Machine || v.stage == SetupStage::Menu || v.stage
        == SetupStage::Question || v.stage == SetupStage::Answer || v.stage
        == SetupStage::AnswerAgain || v.stage == SetupStage::Done ==> v.master.len() > 0
    &&& forall|i: int|
        0 <= i < v.qa.len() ==> (#[trigger] v.qa[i]).0.len() > 0 && v.qa[i].1.len() > 0
}

/// The wizard after a series of replies.
pub open spec fn setup_after(replies: Seq<ReplyView>) -> SetupView
    decreases replies.len(),
{
    if replies.len() == 0 {
        setup_start()
    } else {
        setup_next(setup_after(replies.drop_last()), replies.last()).0
    }
}

/// Whatever is replied, a completed setup has a master password that is not
/// empty, and no empty question or answer.
pub proof fn law_setup_sound(replies: Seq<ReplyView>)
    ensures
        setup_sound(setup_after(replies)),
    decreases replies.len(),
{
    reveal_strlit("你的身份证号是什么？");
    reveal_strlit("你的手机号码是什么？");
    if replies.len() > 0 {
        law_setup_sound(replies.drop_last());
    }
}

/// The machine code is bound only where that was agreed to.
pub proof fn law_machine_bound_by_consent(v: SetupView, reply: ReplyView)
    requires
        !v.machine_binding,
        setup_next(v, reply).0.machine_binding,
    ensures
        v.stage == SetupStage::Machine,
        reply == ReplyView::Agreed(true),
{
}

/// A reply adds at most one question, and takes none away.
pub proof fn law_questions_only_grow(v: SetupView, reply: ReplyView)
    ensures
        ({
            let next = setup_next(v, reply).0;
            next.qa == v.qa || (next.qa.len() == v.qa.len() + 1 && next.qa.drop_last() == v.qa)
        }),
{
    let next = setup_next(v, reply).0;
    if next.qa != v.qa {
        assert(next.qa.drop_last() == v.qa);
    }
}

/// A completed or declined setup stays as it is.
pub proof fn law_setup_ends(v: SetupView, reply: ReplyView)
    requires
        v.stage == SetupStage::Done || v.stage == SetupStage::Declined,
    ensures
        setup_next(v, reply) == (v, None::<Notice>),
        setup_prompt(v) is None,
{
}

/// The lines shown before the wizard begins.
pub open spec fn intro_lines(db_path: Seq<char>, on: bool) -> Seq<Seq<char>> {
    seq![
        ""@,
        painted(Style::Title, "── 首次使用 · 创建密码库 ──"@, on),
        painted(Style::Dim, "数据库："@ + db_path, on),
        painted(Style::Dim, "- 主密码用于加密全部数据，不会保存为明文"@, on),
        painted(
            Style::Dim,
            "- 忘记主密码时，可用设置的恢复路径（机器码 / 密保问卷）找回"@,
            on,
        ),
    ]
}

/// The lines shown before the wizard begins.
pub fn intro(db_path: &str, on: bool) -> (r: Vec<String>)
    ensures
        views(r@) == intro_lines(db_path@, on),
{
    let mut out: Vec<String> = Vec::new();
    out.push("".to_owned());
    out.push(paint(Style::Title, "── 首次使用 · 创建密码库 ──", on));
    let mut place = "数据库：".to_owned();
    place.append(db_path);
    out.push(paint(Style::Dim, place.as_str(), on));
    out.push(paint(Style::Dim, "- 主密码用于加密全部数据，不会保存为明文", on));
    out.push(
        paint(
            Style::Dim,
            "- 忘记主密码时，可用设置的恢复路径（机器码 / 密保问卷）找回",
            on,
        ),
    );
    assert(views(out@) == intro_lines(db_path@, on));
    out
}

/// The master password of a vault, by what setting it up came to.
pub fn created(master: String, r: Result<(), String>) -> (out: Result<String, String>)
    ensures
        match r {
            Ok(()) => out == Ok::<String, String>(master),
            Err(why) => out == Err::<String, String>(why),
        },
{
    match r {
        Ok(()) => Ok(master),
        Err(why) => Err(why),
    }
}

/// Sets up a vault in an empty table with the master password and the
/// recovery paths that were chosen, and gives the master password back, so
/// that the vault can be opened at once.
pub fn create_vault(
    db_path: &str,
    exists: bool,
    master: String,
    recovery: &RecoveryOpts,
    meta: &mut Meta,
) -> (r: Result<String, String>)
    ensures
        r matches Ok(m) ==> m == master,
        exists ==> final(meta)@ == old(meta)@ && final(meta).log() == old(meta).log() && (
        r matches Err(why) && why@ == exists_message(db_path@)),
        r is Ok ==> exists|key: Seq<u8>, code: Seq<char>| #[trigger]
            written(
                old(meta)@,
                final(meta)@,
                master@,
                code,
                recovery.qa_pairs@,
                key,
                (Written {
                    master: true,
                    machine: recovery.machine_binding,
                    questions: recovery.qa_pairs@.len(),
                }),
            ),
        !exists && r is Err ==> init_failure(recovery.machine_binding, r->Err_0@),
        !exists && r is Err ==> exists|key: Seq<u8>, code: Seq<char>| #[trigger]
            partly_written(
                old(meta)@,
                final(meta)@,
                master@,
                code,
                recovery.qa_pairs@,
                key,
                recovery.machine_binding,
            ),
        !exists ==> exists|
            key: Seq<u8>,
            code: Option<Result<String, CryptoError>>,
            came: Result<(), String>,
        |
            drawn(key) && code_asked(recovery.machine_binding, code) && #[trigger] set_up_with(
                key,
                code,
                master@,
                recovery.qa_pairs@,
                old(meta)@,
                final(meta)@,
                came,
            ) && (r is Ok <==> came is Ok) && (came matches Err(why) ==> r == Err::<
                String,
                String,
            >(why)),
{
    let r = init(db_path, exists, master.as_str(), recovery, meta);
    created(master, r)
}

/// A master password that is not empty and is entered twice alike becomes the
/// master password, whatever it is; the machine code is bound as was agreed.
pub proof fn law_master_entered_twice(v: SetupView, p: Seq<char>, bind: bool)
    requires
        v.stage == SetupStage::Master,
        p.len() > 0,
    ensures
        ({
            let once = setup_next(v, ReplyView::Entered(p)).0;
            let twice = setup_next(once, ReplyView::Entered(p)).0;
            let bound = setup_next(twice, ReplyView::Agreed(bind)).0;
            &&& once.stage == SetupStage::MasterAgain
            &&& twice.stage == SetupStage::Machine
            &&& bound.stage == SetupStage::Menu
            &&& bound.master == p
            &&& bound.machine_binding == bind
            &&& bound.qa == v.qa
        }),
{
}

/// A master password entered differently the second time, or an empty one, is
/// asked for again, and nothing is kept of it.
pub proof fn law_master_differs(v: SetupView, p: Seq<char>, q: Seq<char>)
    requires
        v.stage == SetupStage::Master,
        p != q,
        p.len() > 0,
    ensures
        ({
            let once = setup_next(v, ReplyView::Entered(p)).0;
            let (twice, notice) = setup_next(once, ReplyView::Entered(q));
            &&& twice.stage == SetupStage::Master
            &&& twice.master == v.master
            &&& notice == Some(Notice::MasterDiffers)
        }),
        setup_next(v, ReplyView::Entered(Seq::empty())) == (v, Some(Notice::MasterEmpty)),
{
}

/// An answer that is not empty and is entered twice alike is added with the
/// question that was shown, behind the questions added before; one entered
/// differently is asked for again.
pub proof fn law_answer_entered_twice(v: SetupView, a: Seq<char>, b: Seq<char>)
    requires
        v.stage == SetupStage::Answer,
        a.len() > 0,
    ensures
        ({
            let once = setup_next(v, ReplyView::Entered(a)).0;
            let alike = setup_next(once, ReplyView::Entered(a)).0;
            let other = setup_next(once, ReplyView::Entered(b)).0;
            &&& alike.stage == SetupStage::Menu
            &&& alike.qa == v.qa.push((v.question, a))
            &&& alike.master == v.master
            &&& alike.machine_binding == v.machine_binding
            &&& a != b ==> other.stage == SetupStage::Answer && other.qa == v.qa && other.question
                == v.question
        }),
        setup_next(v, ReplyView::Entered(Seq::empty())) == (v, Some(Notice::AnswerEmpty)),
{
}

/// A question of the user's own is asked as it was entered, without white
/// space at either end; an empty one leads back to the menu.
pub proof fn law_own_question(v: SetupView, q: Seq<char>)
    requires
        v.stage == SetupStage::Menu,
    ensures
        ({
            let asked = setup_next(v, ReplyView::Chosen(2)).0;
            let given = setup_next(asked, ReplyView::Entered(q)).0;
            &&& asked.stage == SetupStage::Question
            &&& q.len() <= 200 && trimmed(q).len() > 0 ==> given.stage == SetupStage::Answer
                && given.question == trimmed(q)
            &&& q.len() <= 200 && trimmed(q).len() == 0 ==> given.stage == SetupStage::Menu
            &&& given.qa == v.qa
            &&& given.master == v.master
        }),
{
    law_limited(q);
}

/// The wizard ends only by the last choice of the menu, with all that was
/// chosen, or by declining to begin.
pub proof fn law_setup_ends_by_choice(v: SetupView, reply: ReplyView)
    requires
        v.stage != SetupStage::Done,
        v.stage != SetupStage::Declined,
    ensures
        setup_next(v, reply).0.stage == SetupStage::Done ==> v.stage == SetupStage::Menu && (
        reply matches ReplyView::Chosen(n) && n != 0 && n != 1 && n != 2) && setup_next(
            v,
            reply,
        ).0 == (SetupView { stage: SetupStage::Done, ..v }),
        setup_next(v, reply).0.stage == SetupStage::Declined ==> v.stage == SetupStage::Begin
            && reply == ReplyView::Agreed(false),
        v.stage == SetupStage::Menu ==> setup_next(v, ReplyView::Chosen(3)).0.stage
            == SetupStage::Done,
        v.stage == SetupStage::Begin ==> setup_next(v, ReplyView::Agreed(true)).0.stage
            == SetupStage::Master,
{
}

/// The wizard asks until it has ended, and the question that is to be answered
/// is shown whole.
pub proof fn law_setup_asks(v: SetupView)
    ensures
        setup_prompt(v) is None <==> v.stage == SetupStage::Done || v.stage
            == SetupStage::Declined,
        v.stage == SetupStage::Answer ==> (setup_prompt(v) matches Some(
            PromptView::Secret { text },
        ) && holds(text, v.question)),
        v.stage == SetupStage::Master || v.stage == SetupStage::MasterAgain || v.stage
            == SetupStage::AnswerAgain ==> setup_prompt(v)->0 is Secret,
{
    law_holds_between("回答问题「"@, v.question, "」："@);
}

/// The lines before the wizard name the whole path of the database.
pub proof fn law_intro_names_path(db_path: Seq<char>)
    ensures
        intro_lines(db_path, false).len() == 5,
        holds(intro_lines(db_path, false)[2], db_path),
        holds(intro_lines(db_path, true)[2], db_path),
{
    law_holds_between("数据库："@, db_path, Seq::empty());
    let codes = style_codes(Style::Dim) + "数据库："@;
    law_holds_between(codes, db_path, "\x1b[0m"@);
    assert(codes + db_path + "\x1b[0m"@ == painted(Style::Dim, "数据库："@ + db_path, true));
}

} // verus!
