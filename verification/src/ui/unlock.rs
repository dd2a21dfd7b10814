//! The flow that unlocks a vault: the master password first, then, where it is
//! wrong, the recovery paths, and a new master password after a recovery.
use crate::crypto::{
    law_unwrapping_right, machine_read, ran_out_of_memory, unwrapped, unwrapping_gave, CryptoError,
    Fault,
};
use crate::storage::{
    are_questions, derivation_failure, extends, holds_wrapping, machine_recovery_available, open,
    qa_key, qa_questions, recover_with_machine, recover_with_qa, recovered_by, unlock_message,
    unlocks, Meta, UnlockError, Vault, META_MACHINE_WRAPPED, META_MASTER_SALT,
    META_MASTER_WRAPPED,
};
use crate::text::{holds, law_holds_between, same, views};
use crate::ui::{option_prompt, Notice, Prompt, PromptView, Reply, ReplyView};
use vstd::prelude::*;
use vstd::string::*;
use vstd::utf8::*;

verus! {

/// What the flow waits for.
#[derive(Debug, Clone, Copy, PartialEq, Eq, Structural)]
pub enum UnlockStage {
    /// The master password.
    Master,
    /// A recovery path.
    Menu,
    /// Nothing but time: the machine code is tried.
    Machine,
    /// The answer to the chosen question.
    Answer,
    /// Whether to set a new master password.
    OfferReset,
    /// The new master password.
    NewMaster,
    /// The new master password once more.
    NewMasterAgain,
    /// Nothing: the vault is unlocked.
    Unlocked,
    /// Nothing: the vault stays locked.
    Failed,
}

/// An unlocked vault by its view.
pub struct VaultView {
    pub table: Map<Seq<char>, Seq<char>>,
    pub log: Seq<(String, String)>,
    pub key: Seq<u8>,
}

/// The view of a vault.
pub open spec fn vault_view(v: Vault) -> VaultView {
    VaultView { table: v.table(), log: v.log(), key: v.key() }
}

/// The view of a vault, if there is one.
pub open spec fn vault_option(v: Option<Vault>) -> Option<VaultView> {
    match v {
        Some(v) => Some(vault_view(v)),
        None => None,
    }
}

/// The state of the flow.
pub struct UnlockView {
    pub stage: UnlockStage,
    pub table: Map<Seq<char>, Seq<char>>,
    pub log: Seq<(String, String)>,
    pub has_machine: bool,
    pub questions: Seq<Seq<char>>,
    /// The index of the question that is being answered.
    pub chosen: int,
    /// The new master password that is to be entered once more.
    pub first: Seq<char>,
    pub vault: Option<VaultView>,
    /// Why the vault stays locked.
    pub failure: Seq<char>,
}

/// The flow that unlocks a vault.
pub struct UnlockFlow {
    stage: UnlockStage,
    meta: Meta,
    has_machine: bool,
    questions: Vec<String>,
    chosen: usize,
    first: String,
    vault: Option<Vault>,
    failure: String,
}

impl View for UnlockFlow {
    type V = UnlockView;

    closed spec fn view(&self) -> UnlockView {
        UnlockView {
            stage: self.stage,
            table: self.meta@,
            log: self.meta.log(),
            has_machine: self.has_machine,
            questions: views(self.questions@),
            chosen: self.chosen as int,
            first: self.first@,
            vault: vault_option(self.vault),
            failure: self.failure@,
        }
    }
}

impl UnlockView {
    /// How many recovery paths there are.
    pub open spec fn paths(self) -> int {
        self.questions.len() + if self.has_machine {
            1int
        } else {
            0int
        }
    }

    /// The choices in the menu: the recovery paths, then leaving.
    pub open spec fn items(self) -> Seq<Seq<char>> {
        let machine = if self.has_machine {
            seq!["使用本机机器码恢复"@]
        } else {
            Seq::empty()
        };
        machine + self.questions.map_values(|q: Seq<char>| "回答密保问题："@ + q) + seq![
            "退出"@,
        ]
    }

    /// What holds of the flow at all times.
    pub open spec fn sound(self) -> bool {
        &&& self.stage == UnlockStage::Answer ==> 0 <= self.chosen < self.questions.len()
        &&& self.stage == UnlockStage::Menu ==> self.paths() > 0
        &&& (self.vault is Some <==> self.stage == UnlockStage::OfferReset || self.stage
            == UnlockStage::NewMaster || self.stage == UnlockStage::NewMasterAgain || self.stage
            == UnlockStage::Unlocked)
    }
}

/// The flow that failed for a reason.
pub open spec fn failed(v: UnlockView, why: Seq<char>) -> UnlockView {
    UnlockView { stage: UnlockStage::Failed, failure: why, vault: None, ..v }
}

/// The question for the master password.
pub open spec fn master_question() -> PromptView {
    PromptView::Secret { text: "\n主密码："@ }
}

/// The question for the master password, with which every flow begins.
pub fn master_prompt() -> (r: Prompt)
    ensures
        r@ == master_question(),
{
    Prompt::Secret { text: "\n主密码：".to_owned() }
}

/// What the flow asks next.
pub open spec fn unlock_prompt(v: UnlockView) -> Option<PromptView> {
    match v.stage {
        UnlockStage::Master => Some(master_question()),
        UnlockStage::Menu => Some(
            PromptView::Select { text: "请选择恢复方式"@, items: v.items() },
        ),
        UnlockStage::Machine => Some(PromptView::Proceed),
        UnlockStage::Answer => Some(
            PromptView::Secret { text: "回答「"@ + v.questions[v.chosen] + "」："@ },
        ),
        UnlockStage::OfferReset => Some(
            PromptView::Confirm { text: "是否立即重设主密码？"@, default: true },
        ),
        UnlockStage::NewMaster => Some(PromptView::Secret { text: "新主密码："@ }),
        UnlockStage::NewMasterAgain => Some(
            PromptView::Secret { text: "请再次输入新主密码："@ },
        ),
        UnlockStage::Unlocked => None,
        UnlockStage::Failed => None,
    }
}

/// Whether `after` is the flow with its recovery paths looked up, after a
/// master password that did not unlock the vault.
pub open spec fn looked_up(v: UnlockView, after: UnlockView) -> bool {
    &&& after.has_machine == v.table.contains_key(META_MACHINE_WRAPPED@)
    &&& are_questions(v.table, after.questions)
    &&& after == (if after.paths() > 0 {
        UnlockView {
            stage: UnlockStage::Menu,
            has_machine: after.has_machine,
            questions: after.questions,
            ..v
        }
    } else {
        failed(
            UnlockView { has_machine: after.has_machine, questions: after.questions, ..v },
            "未配置任何恢复路径，无法解锁数据。"@,
        )
    })
}

/// Whether `vault` is the vault of the flow's table, under the key that
/// `secret` unwraps from the entry at `wrapped_key`.
pub open spec fn opened(
    v: UnlockView,
    wrapped_key: Seq<char>,
    secret: Seq<char>,
    vault: Option<VaultView>,
) -> bool {
    &&& vault matches Some(w)
    &&& w.table == v.table
    &&& w.log == v.log
    &&& v.table.contains_key(wrapped_key)
    &&& unwrapped(encode_utf8(secret), v.table[wrapped_key]) == Ok::<Seq<u8>, Fault>(w.key)
}

/// Whether the entry at `wrapped_key` is missing, or unwrapping it under that
/// very secret failed.
pub open spec fn credential_failed(
    table: Map<Seq<char>, Seq<char>>,
    wrapped_key: Seq<char>,
    secret: Seq<char>,
) -> bool {
    table.contains_key(wrapped_key) ==> exists|f: Fault| #[trigger]
        unwrapping_gave(encode_utf8(secret), table[wrapped_key], Err(f))
}

/// A failed credential is a wrong one, unless a derivation made for it ran out
/// of memory.
proof fn failed_or_no_memory(
    table: Map<Seq<char>, Seq<char>>,
    wrapped_key: Seq<char>,
    secret: Seq<char>,
)
    requires
        credential_failed(table, wrapped_key, secret),
        table.contains_key(wrapped_key),
        unwrapped(encode_utf8(secret), table[wrapped_key]) is Ok,
    ensures
        ran_out_of_memory(encode_utf8(secret), table[wrapped_key]),
{
    let f = choose|f: Fault| #[trigger]
        unwrapping_gave(encode_utf8(secret), table[wrapped_key], Err(f));
    law_unwrapping_right(encode_utf8(secret), table[wrapped_key], Err(f));
}

/// Whether the flow goes from `v` to `after` on trying a master password.
pub open spec fn master_tried(
    v: UnlockView,
    password: Seq<char>,
    notices: Seq<Notice>,
    after: UnlockView,
) -> bool {
    ||| {
        &&& opened(v, META_MASTER_WRAPPED@, password, after.vault)
        &&& after == UnlockView { stage: UnlockStage::Unlocked, vault: after.vault, ..v }
        &&& notices == seq![Notice::Unlocked]
    }
    ||| {
        &&& credential_failed(v.table, META_MASTER_WRAPPED@, password)
        &&& looked_up(v, after)
        &&& notices == seq![Notice::WrongMaster]
    }
}

/// Whether the flow comes to `after` by this reading of the machine code: it
/// has the vault where the code unlocks it, and else says why it has not.
pub open spec fn machine_decided(
    v: UnlockView,
    code: Result<String, CryptoError>,
    after: UnlockView,
) -> bool {
    if !v.table.contains_key(META_MACHINE_WRAPPED@) {
        after == failed(v, "该恢复路径未配置"@)
    } else {
        match code {
            Ok(c) => {
                ||| opened(v, META_MACHINE_WRAPPED@, c@, after.vault)
                ||| {
                    &&& credential_failed(v.table, META_MACHINE_WRAPPED@, c@)
                    &&& after == failed(v, "凭据错误或数据损坏"@)
                }
            },
            Err(e) => exists|text: Seq<char>| #[trigger]
                e.is_message(text) && after == failed(v, "数据库错误："@ + text),
        }
    }
}

/// Whether the flow goes from `v` to `after` on trying the machine code.
pub open spec fn machine_tried(v: UnlockView, notices: Seq<Notice>, after: UnlockView) -> bool {
    &&& exists|code: Result<String, CryptoError>| #[trigger]
        machine_read(code) && machine_decided(v, code, after)
    &&& machine_ended(v, notices, after)
}

/// Whether the flow goes from `v` to one of the two ends of trying the machine
/// code.
pub open spec fn machine_ended(v: UnlockView, notices: Seq<Notice>, after: UnlockView) -> bool {
    ||| {
        &&& exists|code: Seq<char>| #[trigger]
            opened(v, META_MACHINE_WRAPPED@, code, after.vault)
        &&& after == UnlockView { stage: UnlockStage::OfferReset, vault: after.vault, ..v }
        &&& notices == seq![Notice::Recovered]
    }
    ||| {
        &&& after == failed(v, after.failure)
        &&& machine_refused(v.table, after.failure)
        &&& notices == Seq::<Notice>::empty()
    }
}

/// Whether `why` is a reason why the machine code does not unlock a vault.
pub open spec fn machine_refused(table: Map<Seq<char>, Seq<char>>, why: Seq<char>) -> bool {
    if table.contains_key(META_MACHINE_WRAPPED@) {
        why == "凭据错误或数据损坏"@ || unreadable_machine(why)
    } else {
        why == "该恢复路径未配置"@
    }
}

/// Whether `why` tells that the machine code could not be read.
pub open spec fn unreadable_machine(why: Seq<char>) -> bool {
    exists|e: CryptoError, text: Seq<char>| #[trigger]
        e.is_message(text) && e@ is MachineId && why == "数据库错误："@ + text
}

/// Whether the flow goes from `v` to `after` on trying an answer.
pub open spec fn answer_tried(
    v: UnlockView,
    answer: Seq<char>,
    notices: Seq<Notice>,
    after: UnlockView,
) -> bool {
    let wrapped_key = qa_key(v.chosen as nat, "_wrapped"@);
    ||| {
        &&& opened(v, wrapped_key, answer, after.vault)
        &&& after == UnlockView { stage: UnlockStage::OfferReset, vault: after.vault, ..v }
        &&& notices == seq![Notice::Recovered]
    }
    ||| {
        &&& credential_failed(v.table, wrapped_key, answer)
        &&& after == failed(
            v,
            if v.table.contains_key(wrapped_key) {
                "凭据错误或数据损坏"@
            } else {
                "该恢复路径未配置"@
            },
        )
        &&& notices == Seq::<Notice>::empty()
    }
}

/// Whether `w` is the vault `before` with its key wrapped under a new master
/// password, and nothing else changed.
pub open spec fn master_reset(before: VaultView, password: Seq<char>, w: VaultView) -> bool {
    &&& w.key == before.key
    &&& extends(w.log, before.log)
    &&& holds_wrapping(w.table, META_MASTER_SALT@, META_MASTER_WRAPPED@, password, before.key)
    &&& w.table.remove(META_MASTER_SALT@).remove(META_MASTER_WRAPPED@) == before.table.remove(
        META_MASTER_SALT@,
    ).remove(META_MASTER_WRAPPED@)
}

/// Whether the flow goes from `v` to `after` on the new master password being
/// entered once more. It is set where it is not empty and both are the same.
pub open spec fn reset_tried(
    v: UnlockView,
    again: Seq<char>,
    notices: Seq<Notice>,
    after: UnlockView,
) -> bool {
    if v.first.len() > 0 && again == v.first {
        ||| {
            &&& after.vault matches Some(w)
            &&& master_reset(v.vault->0, again, w)
            &&& after == UnlockView { stage: UnlockStage::Unlocked, vault: after.vault, ..v }
            &&& notices == seq![Notice::MasterUpdated]
        }
        ||| {
            &&& derivation_failure(again, after.failure)
            &&& after == failed(v, after.failure)
            &&& notices == Seq::<Notice>::empty()
        }
    } else {
        &&& after == UnlockView { stage: UnlockStage::Unlocked, ..v }
        &&& notices == seq![Notice::MasterKept]
    }
}

/// Whether the flow goes from `v` to `after` on a reply, with these notices. A
/// reply of a kind that the stage does not wait for changes nothing, nor does
/// a choice that the menu does not have.
pub open spec fn unlock_step(
    v: UnlockView,
    reply: ReplyView,
    notices: Seq<Notice>,
    after: UnlockView,
) -> bool {
    let quiet = notices == Seq::<Notice>::empty();
    match (v.stage, reply) {
        (UnlockStage::Master, ReplyView::Entered(p)) => master_tried(v, p, notices, after),
        (UnlockStage::Menu, ReplyView::Chosen(c)) => if c == v.paths() {
            quiet && after == failed(v, "已退出。"@)
        } else if c > v.paths() {
            quiet && after == v
        } else if v.has_machine && c == 0 {
            notices == seq![Notice::ReadingMachine] && after == (UnlockView {
                stage: UnlockStage::Machine,
                ..v
            })
        } else {
            quiet && after == (UnlockView {
                stage: UnlockStage::Answer,
                chosen: if v.has_machine {
                    c - 1
                } else {
                    c
                },
                ..v
            })
        },
        (UnlockStage::Machine, ReplyView::Proceed) => machine_tried(v, notices, after),
        (UnlockStage::Answer, ReplyView::Entered(a)) => answer_tried(v, a, notices, after),
        (UnlockStage::OfferReset, ReplyView::Agreed(yes)) => quiet && after == (UnlockView {
            stage: if yes {
                UnlockStage::NewMaster
            } else {
                UnlockStage::Unlocked
            },
            ..v
        }),
        (UnlockStage::NewMaster, ReplyView::Entered(p)) => quiet && after == (UnlockView {
            stage: UnlockStage::NewMasterAgain,
            first: p,
            ..v
        }),
        (UnlockStage::NewMasterAgain, ReplyView::Entered(p)) => reset_tried(v, p, notices, after),
        _ => quiet && after == v,
    }
}

/// A refused credential is one that failed to unwrap the entry.
proof fn refused_means_failed(
    meta: Meta,
    wrapped_key: Seq<char>,
    secret: Seq<char>,
    r: Result<Vault, UnlockError>,
)
    requires
        unlocks(meta, wrapped_key, secret, r),
        r is Err,
    ensures
        credential_failed(meta@, wrapped_key, secret),
{
    let k = choose|k: Result<Seq<u8>, Fault>| #[trigger]
        unwrapping_gave(encode_utf8(secret), meta@[wrapped_key], k) && match k {
            Ok(key) => r matches Ok(v) && v.key() == key,
            Err(_) => r matches Err(UnlockError::WrongCredential),
        };
    assert(unwrapping_gave(encode_utf8(secret), meta@[wrapped_key], Err(k->Err_0)));
}

impl UnlockFlow {
    /// The flow at its start, for the table of a vault.
    pub fn new(meta: Meta) -> (r: UnlockFlow)
        ensures
            r@ == (UnlockView {
                stage: UnlockStage::Master,
                table: meta@,
                log: meta.log(),
                has_machine: false,
                questions: Seq::empty(),
                chosen: 0,
                first: Seq::empty(),
                vault: None,
                failure: Seq::empty(),
            }),
            r@.sound(),
    {
        let r = UnlockFlow {
            stage: UnlockStage::Master,
            meta,
            has_machine: false,
            questions: Vec::new(),
            chosen: 0,
            first: String::new(),
            vault: None,
            failure: String::new(),
        };
        assert(r@.questions == Seq::<Seq<char>>::empty());
        r
    }

    /// What the flow waits for.
    pub fn stage(&self) -> (r: UnlockStage)
        ensures
            r == self@.stage,
    {
        self.stage
    }

    /// The choices in the menu.
    fn items(&self) -> (r: Vec<String>)
        ensures
            views(r@) == self@.items(),
    {
        let mut items: Vec<String> = Vec::new();
        if self.has_machine {
            items.push("使用本机机器码恢复".to_owned());
        }
        let ghost start = views(items@);
        let ghost shown = views(self.questions@).map_values(
            |q: Seq<char>| "回答密保问题："@ + q,
        );
        let mut i: usize = 0;
        while i < self.questions.len()
            invariant
                i <= self.questions@.len(),
                shown == views(self.questions@).map_values(
                    |q: Seq<char>| "回答密保问题："@ + q,
                ),
                views(items@) == start + shown.take(i as int),
            decreases self.questions@.len() - i,
        {
            let ghost before = views(items@);
            let mut item = "回答密保问题：".to_owned();
            item.append(self.questions[i].as_str());
            assert(shown.take(i + 1) == shown.take(i as int).push(item@));
            items.push(item);
            assert(views(items@) == before.push(item@));
            i += 1;
        }
        let ghost before = views(items@);
        items.push("退出".to_owned());
        proof {
            assert(views(items@) == before.push("退出"@));
            assert(shown.take(shown.len() as int) == shown);
            assert(views(items@) == self@.items());
        }
        items
    }

    /// What the flow asks next.
    pub fn prompt(&self) -> (r: Option<Prompt>)
        requires
            self@.sound(),
        ensures
            option_prompt(r) == unlock_prompt(self@),
    {
        match self.stage {
            UnlockStage::Master => Some(master_prompt()),
            UnlockStage::Menu => Some(
                Prompt::Select { text: "请选择恢复方式".to_owned(), items: self.items() },
            ),
            UnlockStage::Machine => Some(Prompt::Proceed),
            UnlockStage::Answer => {
                assert(views(self.questions@)[self.chosen as int]
                    == self.questions@[self.chosen as int]@);
                let mut text = "回答「".to_owned();
                text.append(self.questions[self.chosen].as_str());
                text.append("」：");
                Some(Prompt::Secret { text })
            },
            UnlockStage::OfferReset => Some(
                Prompt::Confirm { text: "是否立即重设主密码？".to_owned(), default: true },
            ),
            UnlockStage::NewMaster => Some(Prompt::Secret { text: "新主密码：".to_owned() }),
            UnlockStage::NewMasterAgain => Some(
                Prompt::Secret { text: "请再次输入新主密码：".to_owned() },
            ),
            UnlockStage::Unlocked => None,
            UnlockStage::Failed => None,
        }
    }

    /// Goes on after a master password was tried, by what came of it.
    pub fn tried(&mut self, r: Result<Vault, UnlockError>) -> (notices: Vec<Notice>)
        requires
            old(self)@.vault is None,
        ensures
            match r {
                Ok(vault) => notices@ == seq![Notice::Unlocked] && final(self)@ == (UnlockView {
                    stage: UnlockStage::Unlocked,
                    vault: Some(vault_view(vault)),
                    ..old(self)@
                }),
                Err(UnlockError::WrongCredential) => notices@ == seq![Notice::WrongMaster]
                    && looked_up(old(self)@, final(self)@),
                Err(e) => notices@ == Seq::<Notice>::empty() && final(self)@ == failed(
                    old(self)@,
                    unlock_message(e),
                ),
            },
    {
        let mut notices: Vec<Notice> = Vec::new();
        match r {
            Ok(vault) => {
                self.vault = Some(vault);
                self.stage = UnlockStage::Unlocked;
                notices.push(Notice::Unlocked);
            },
            Err(UnlockError::WrongCredential) => {
                notices.push(Notice::WrongMaster);
                self.has_machine = machine_recovery_available(&self.meta);
                self.questions = qa_questions(&self.meta);
                if !self.has_machine && self.questions.len() == 0 {
                    self.failure = "未配置任何恢复路径，无法解锁数据。".to_owned();
                    self.stage = UnlockStage::Failed;
                } else {
                    self.stage = UnlockStage::Menu;
                }
            },
            Err(e) => {
                self.failure = e.message();
                self.stage = UnlockStage::Failed;
            },
        }
        notices
    }

    /// Goes on after a recovery path was tried, by what came of it.
    pub fn recovered(&mut self, r: Result<Vault, UnlockError>) -> (notices: Vec<Notice>)
        requires
            old(self)@.vault is None,
        ensures
            match r {
                Ok(vault) => notices@ == seq![Notice::Recovered] && final(self)@ == (UnlockView {
                    stage: UnlockStage::OfferReset,
                    vault: Some(vault_view(vault)),
                    ..old(self)@
                }),
                Err(e) => notices@ == Seq::<Notice>::empty() && final(self)@ == failed(
                    old(self)@,
                    unlock_message(e),
                ),
            },
    {
        let mut notices: Vec<Notice> = Vec::new();
        match r {
            Ok(vault) => {
                self.vault = Some(vault);
                self.stage = UnlockStage::OfferReset;
                notices.push(Notice::Recovered);
            },
            Err(e) => {
                self.failure = e.message();
                self.stage = UnlockStage::Failed;
            },
        }
        notices
    }

    /// Tries the machine code.
    fn try_machine(&mut self) -> (notices: Vec<Notice>)
        requires
            old(self)@.vault is None,
        ensures
            machine_tried(old(self)@, notices@, final(self)@),
    {
        let ghost before = self@;
        let ghost meta = self.meta;
        let r = recover_with_machine(&self.meta);
        let ghost tried = r;
        let notices = self.recovered(r);
        proof {
            let reading = choose|code: Result<String, CryptoError>| #[trigger]
                machine_read(code) && recovered_by(meta, code, tried);
            assert(machine_decided(before, reading, self@)) by {
                if before.table.contains_key(META_MACHINE_WRAPPED@) {
                    match reading {
                        Ok(c) => {
                            if tried is Err {
                                refused_means_failed(meta, META_MACHINE_WRAPPED@, c@, tried);
                            }
                        },
                        Err(e) => {
                            assert(e.is_message(tried->Err_0->Db_0@));
                        },
                    }
                }
            }
            match tried {
                Ok(v) => {
                    let code = choose|code: Seq<char>| #[trigger]
                        unlocks(meta, META_MACHINE_WRAPPED@, code, tried);
                    assert(opened(before, META_MACHINE_WRAPPED@, code, self@.vault));
                },
                Err(e) => {
                    assert(self@ == failed(before, self@.failure));
                    if let UnlockError::Db(why) = e {
                        let c = choose|c: CryptoError| #[trigger]
                            c.is_message(why@) && c@ is MachineId;
                        assert(c.is_message(why@));
                        assert(unreadable_machine(self@.failure));
                    }
                    assert(machine_refused(before.table, self@.failure));
                },
            }
        }
        notices
    }

    /// Goes on after a new master password was set, by what came of it.
    pub fn reset_done(&mut self, r: Result<(), String>) -> (notices: Vec<Notice>)
        requires
            old(self)@.vault is Some,
        ensures
            match r {
                Ok(()) => notices@ == seq![Notice::MasterUpdated] && final(self)@ == (UnlockView {
                    stage: UnlockStage::Unlocked,
                    ..old(self)@
                }),
                Err(why) => notices@ == Seq::<Notice>::empty() && final(self)@ == failed(
                    old(self)@,
                    why@,
                ),
            },
    {
        let mut notices: Vec<Notice> = Vec::new();
        match r {
            Ok(()) => {
                self.stage = UnlockStage::Unlocked;
                notices.push(Notice::MasterUpdated);
            },
            Err(why) => {
                self.vault = None;
                self.failure = why;
                self.stage = UnlockStage::Failed;
            },
        }
        notices
    }

    /// Takes the new master password entered once more.
    fn reset(&mut self, again: String) -> (notices: Vec<Notice>)
        requires
            old(self)@.vault is Some,
        ensures
            reset_tried(old(self)@, again@, notices@, final(self)@),
    {
        let mut notices: Vec<Notice> = Vec::new();
        let ghost before = self@;
        if self.first.as_str().is_empty() || !same(again.as_str(), self.first.as_str()) {
            self.stage = UnlockStage::Unlocked;
            notices.push(Notice::MasterKept);
            return notices;
        }
        let mut taken: Option<Vault> = None;
        std::mem::swap(&mut taken, &mut self.vault);
        match taken {
            Some(vault) => {
                let mut vault = vault;
                let r = vault.reset_master(again.as_str());
                proof {
                    if r is Ok {
                        assert(master_reset(before.vault->0, again@, vault_view(vault)));
                    }
                }
                self.vault = Some(vault);
                self.reset_done(r)
            },
            None => notices,
        }
    }

    /// Takes a reply, and gives the notices to show.
    pub fn step(&mut self, reply: Reply) -> (notices: Vec<Notice>)
        requires
            old(self)@.sound(),
        ensures
            unlock_step(old(self)@, reply@, notices@, final(self)@),
            final(self)@.sound(),
    {
        match (self.stage, reply) {
            (UnlockStage::Master, Reply::Entered(p)) => {
                let r = open(&self.meta, p.as_str());
                proof {
                    if self.meta@.contains_key(META_MASTER_WRAPPED@) && r is Err {
                        refused_means_failed(self.meta, META_MASTER_WRAPPED@, p@, r);
                    }
                }
                self.tried(r)
            },
            (UnlockStage::Menu, Reply::Chosen(c)) => {
                let machine: usize = if self.has_machine {
                    1
                } else {
                    0
                };
                let items = self.items();
                assert(items@.len() == views(items@).len());
                assert(items@.len() == self@.paths() + 1);
                let last: usize = items.len() - 1;
                if c == last {
                    self.failure = "已退出。".to_owned();
                    self.stage = UnlockStage::Failed;
                    return Vec::new();
                }
                if c > last {
                    return Vec::new();
                }
                if self.has_machine && c == 0 {
                    self.stage = UnlockStage::Machine;
                    let mut notices: Vec<Notice> = Vec::new();
                    notices.push(Notice::ReadingMachine);
                    return notices;
                }
                self.chosen = c - machine;
                self.stage = UnlockStage::Answer;
                Vec::new()
            },
            (UnlockStage::Machine, Reply::Proceed) => self.try_machine(),
            (UnlockStage::Answer, Reply::Entered(a)) => {
                let r = recover_with_qa(&self.meta, self.chosen, a.as_str());
                proof {
                    let k = qa_key(self.chosen as nat, "_wrapped"@);
                    if self.meta@.contains_key(k) && r is Err {
                        refused_means_failed(self.meta, k, a@, r);
                    }
                }
                self.recovered(r)
            },
            (UnlockStage::OfferReset, Reply::Agreed(yes)) => {
                self.stage = if yes {
                    UnlockStage::NewMaster
                } else {
                    UnlockStage::Unlocked
                };
                Vec::new()
            },
            (UnlockStage::NewMaster, Reply::Entered(p)) => {
                self.first = p;
                self.stage = UnlockStage::NewMasterAgain;
                Vec::new()
            },
            (UnlockStage::NewMasterAgain, Reply::Entered(p)) => self.reset(p),
            _ => Vec::new(),
        }
    }

    /// What the flow came to: the vault, or the reason why it stays locked;
    /// nothing where the flow has not ended.
    pub fn finish(self) -> (r: Option<Result<Vault, String>>)
        requires
            self@.sound(),
        ensures
            match self@.stage {
                UnlockStage::Unlocked => r matches Some(Ok(vault)) && self@.vault == Some(
                    vault_view(vault),
                ),
                UnlockStage::Failed => r matches Some(Err(why)) && why@ == self@.failure,
                _ => r is None,
            },
    {
        match self.stage {
            UnlockStage::Unlocked => match self.vault {
                Some(vault) => Some(Ok(vault)),
                None => None,
            },
            UnlockStage::Failed => Some(Err(self.failure)),
            _ => None,
        }
    }
}

/// A vault is never unlocked without a credential: whenever the flow has one
/// that it had not before, a secret unwrapped its key from the table.
pub proof fn law_unlocked_by_credential(
    v: UnlockView,
    reply: ReplyView,
    notices: Seq<Notice>,
    after: UnlockView,
)
    requires
        v.sound(),
        v.vault is None,
        unlock_step(v, reply, notices, after),
        after.vault is Some,
    ensures
        exists|wrapped_key: Seq<char>, secret: Seq<char>| #[trigger]
            opened(v, wrapped_key, secret, after.vault),
{
    match (v.stage, reply) {
        (UnlockStage::Master, ReplyView::Entered(p)) => {
            assert(opened(v, META_MASTER_WRAPPED@, p, after.vault));
        },
        (UnlockStage::Answer, ReplyView::Entered(a)) => {
            assert(opened(v, qa_key(v.chosen as nat, "_wrapped"@), a, after.vault));
        },
        _ => {},
    }
}

/// No reply changes the key of a vault once it is unlocked.
pub proof fn law_key_kept(
    v: UnlockView,
    reply: ReplyView,
    notices: Seq<Notice>,
    after: UnlockView,
)
    requires
        v.sound(),
        v.vault is Some,
        unlock_step(v, reply, notices, after),
        after.vault is Some,
    ensures
        after.vault->0.key == v.vault->0.key,
{
}

/// The right master password unlocks the vault at once, unless a derivation
/// made for it ran out of memory.
pub proof fn law_right_master_unlocks(
    v: UnlockView,
    password: Seq<char>,
    notices: Seq<Notice>,
    after: UnlockView,
)
    requires
        v.sound(),
        v.stage == UnlockStage::Master,
        v.table.contains_key(META_MASTER_WRAPPED@),
        unwrapped(encode_utf8(password), v.table[META_MASTER_WRAPPED@]) is Ok,
        unlock_step(v, ReplyView::Entered(password), notices, after),
        !ran_out_of_memory(encode_utf8(password), v.table[META_MASTER_WRAPPED@]),
    ensures
        after.stage == UnlockStage::Unlocked,
        notices == seq![Notice::Unlocked],
        after.vault matches Some(w) && w.table == v.table && Ok::<Seq<u8>, Fault>(w.key)
            == unwrapped(encode_utf8(password), v.table[META_MASTER_WRAPPED@]),
{
    if credential_failed(v.table, META_MASTER_WRAPPED@, password) {
        failed_or_no_memory(v.table, META_MASTER_WRAPPED@, password);
    }
}

/// A wrong master password unlocks nothing. The flow goes to the menu of the
/// recovery paths that the table has, or ends where it has none.
pub proof fn law_wrong_master_looks_up(
    v: UnlockView,
    password: Seq<char>,
    notices: Seq<Notice>,
    after: UnlockView,
)
    requires
        v.sound(),
        v.stage == UnlockStage::Master,
        v.table.contains_key(META_MASTER_WRAPPED@) ==> unwrapped(
            encode_utf8(password),
            v.table[META_MASTER_WRAPPED@],
        ) is Err,
        unlock_step(v, ReplyView::Entered(password), notices, after),
    ensures
        after.vault is None,
        notices == seq![Notice::WrongMaster],
        after.has_machine == v.table.contains_key(META_MACHINE_WRAPPED@),
        are_questions(v.table, after.questions),
        after.has_machine || after.questions.len() > 0 ==> after.stage == UnlockStage::Menu,
        !after.has_machine && after.questions.len() == 0 ==> after.stage == UnlockStage::Failed,
{
}

/// The right answer recovers the vault and offers a new master password,
/// unless a derivation made for it ran out of memory; a wrong one ends the
/// flow with nothing unlocked.
pub proof fn law_answer_recovers(
    v: UnlockView,
    answer: Seq<char>,
    notices: Seq<Notice>,
    after: UnlockView,
)
    requires
        v.sound(),
        v.stage == UnlockStage::Answer,
        v.table.contains_key(qa_key(v.chosen as nat, "_wrapped"@)),
        unlock_step(v, ReplyView::Entered(answer), notices, after),
    ensures
        match unwrapped(encode_utf8(answer), v.table[qa_key(v.chosen as nat, "_wrapped"@)]) {
            Ok(key) => {
                ||| {
                    &&& after.stage == UnlockStage::OfferReset
                    &&& notices == seq![Notice::Recovered]
                    &&& after.vault matches Some(w) && w.table == v.table && w.key == key
                }
                ||| ran_out_of_memory(
                    encode_utf8(answer),
                    v.table[qa_key(v.chosen as nat, "_wrapped"@)],
                )
            },
            Err(_) => {
                &&& after.stage == UnlockStage::Failed
                &&& after.vault is None
                &&& after.failure == "凭据错误或数据损坏"@
            },
        },
{
    let k = qa_key(v.chosen as nat, "_wrapped"@);
    if unwrapped(encode_utf8(answer), v.table[k]) is Ok && credential_failed(v.table, k, answer) {
        failed_or_no_memory(v.table, k, answer);
    }
}

/// Each choice of the menu leads where its text says: to the machine code, to
/// the question shown, or out of the flow.
pub proof fn law_menu_leads_where_it_says(
    v: UnlockView,
    c: int,
    notices: Seq<Notice>,
    after: UnlockView,
)
    requires
        v.sound(),
        v.stage == UnlockStage::Menu,
        0 <= c < v.items().len(),
        unlock_step(v, ReplyView::Chosen(c), notices, after),
    ensures
        c == v.items().len() - 1 ==> v.items()[c] == "退出"@ && after.stage
            == UnlockStage::Failed && after.failure == "已退出。"@,
        v.has_machine && c == 0 ==> v.items()[c] == "使用本机机器码恢复"@ && after.stage
            == UnlockStage::Machine,
        !(v.has_machine && c == 0) && c < v.items().len() - 1 ==> {
            &&& after.stage == UnlockStage::Answer
            &&& 0 <= after.chosen < v.questions.len()
            &&& v.items()[c] == "回答密保问题："@ + v.questions[after.chosen]
            &&& after.questions == v.questions
        },
        after.table == v.table,
        after.vault is None,
{
}

/// A new master password is set only where it is not empty and was entered
/// twice alike; otherwise the vault stays as it was.
pub proof fn law_new_master_twice(
    v: UnlockView,
    again: Seq<char>,
    notices: Seq<Notice>,
    after: UnlockView,
)
    requires
        v.sound(),
        v.stage == UnlockStage::NewMasterAgain,
        unlock_step(v, ReplyView::Entered(again), notices, after),
    ensures
        again.len() == 0 || again != v.first ==> after.vault == v.vault && after.stage
            == UnlockStage::Unlocked && notices == seq![Notice::MasterKept],
        again.len() > 0 && again == v.first ==> {
            ||| {
                &&& after.stage == UnlockStage::Unlocked
                &&& notices == seq![Notice::MasterUpdated]
                &&& after.vault matches Some(w) && w.key == v.vault->0.key && unwrapped(
                    encode_utf8(again),
                    w.table[META_MASTER_WRAPPED@],
                ) == Ok::<Seq<u8>, Fault>(w.key)
            }
            ||| after.stage == UnlockStage::Failed && derivation_failure(again, after.failure)
        },
{
}

/// The flow asks until it has ended, and the question that is to be answered
/// is the one that was chosen, shown whole.
pub proof fn law_unlock_asks(v: UnlockView)
    ensures
        unlock_prompt(v) is None <==> v.stage == UnlockStage::Unlocked || v.stage
            == UnlockStage::Failed,
        v.stage == UnlockStage::Answer ==> (unlock_prompt(v) matches Some(
            PromptView::Secret { text },
        ) && holds(text, v.questions[v.chosen])),
        v.stage == UnlockStage::Menu ==> (unlock_prompt(v) matches Some(
            PromptView::Select { items, .. },
        ) && items == v.items()),
        v.stage == UnlockStage::Master || v.stage == UnlockStage::NewMaster || v.stage
            == UnlockStage::NewMasterAgain ==> unlock_prompt(v)->0 is Secret,
{
    law_holds_between("回答「"@, v.questions[v.chosen], "」："@);
}

/// A reply of a kind that the stage does not wait for changes nothing, and a
/// flow that has ended stays as it is.
pub proof fn law_other_replies_ignored(
    v: UnlockView,
    reply: ReplyView,
    notices: Seq<Notice>,
    after: UnlockView,
)
    requires
        unlock_step(v, reply, notices, after),
        v.stage == UnlockStage::Unlocked || v.stage == UnlockStage::Failed || (v.stage
            == UnlockStage::Master && !(reply is Entered)) || (v.stage == UnlockStage::Menu && !(
        reply is Chosen)) || (v.stage == UnlockStage::Machine && !(reply is Proceed)) || (v.stage
            == UnlockStage::Answer && !(reply is Entered)) || (v.stage == UnlockStage::OfferReset
            && !(reply is Agreed)),
    ensures
        after == v,
        notices.len() == 0,
{
}

/// Declining a new master password unlocks the vault as it is; agreeing asks
/// for one, and keeps what was entered to compare it.
pub proof fn law_offer_taken_or_not(
    v: UnlockView,
    yes: bool,
    notices: Seq<Notice>,
    asked: UnlockView,
    password: Seq<char>,
    more: Seq<Notice>,
    after: UnlockView,
)
    requires
        v.stage == UnlockStage::OfferReset,
        unlock_step(v, ReplyView::Agreed(yes), notices, asked),
        unlock_step(asked, ReplyView::Entered(password), more, after),
    ensures
        asked.vault == v.vault,
        !yes ==> asked.stage == UnlockStage::Unlocked && after == asked,
        yes ==> asked.stage == UnlockStage::NewMaster && after.stage
            == UnlockStage::NewMasterAgain && after.first == password && after.vault == v.vault,
{
}

} // verus!
