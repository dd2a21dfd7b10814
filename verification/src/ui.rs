//! The decisions behind the terminal interface: keys, masked input, the
//! wizards for setting up and for unlocking a vault, and the banner.
use crate::text::{
    chars_of, law_repeated_character, repeat, repeated, trimmed, views,
};
use crate::ui::theme::{paint, painted, Style};
use vstd::prelude::*;
use vstd::string::*;

pub mod banner;
pub mod setup;
pub mod theme;
pub mod unlock;

verus! {

/// A key as the terminal reports it.
#[derive(Debug, Clone, Copy, PartialEq, Eq, Structural)]
pub enum RawKey {
    Char(char),
    Tab,
    Enter,
    Backspace,
    ArrowUp,
    ArrowDown,
    PageUp,
    PageDown,
    CtrlC,
    Escape,
    Unknown,
}

/// A key by what it does, in masked input and in the main list.
#[derive(Debug, Clone, Copy, PartialEq, Eq, Structural)]
pub enum KeyPress {
    Char(char),
    Enter,
    Backspace,
    /// Tab, Ctrl+E or Ctrl+V: show or hide what is typed.
    Toggle,
    Up,
    Down,
    PageUp,
    PageDown,
    /// Esc or Ctrl+C.
    Cancel,
    Other,
}

/// Whether `c` is a control character.
pub open spec fn is_control(c: char) -> bool {
    c <= '\x1f' || '\x7f' <= c <= '\u{9f}'
}

/// What a key does.
pub open spec fn key_meaning(key: RawKey) -> KeyPress {
    match key {
        RawKey::Char(c) => if c == '\x16' || c == '\x05' {
            KeyPress::Toggle
        } else if !is_control(c) {
            KeyPress::Char(c)
        } else if c == '\x03' {
            KeyPress::Cancel
        } else {
            KeyPress::Other
        },
        RawKey::Tab => KeyPress::Toggle,
        RawKey::Enter => KeyPress::Enter,
        RawKey::Backspace => KeyPress::Backspace,
        RawKey::ArrowUp => KeyPress::Up,
        RawKey::ArrowDown => KeyPress::Down,
        RawKey::PageUp => KeyPress::PageUp,
        RawKey::PageDown => KeyPress::PageDown,
        RawKey::CtrlC => KeyPress::Cancel,
        RawKey::Escape => KeyPress::Cancel,
        RawKey::Unknown => KeyPress::Other,
    }
}

/// What a key does.
pub fn classify(key: RawKey) -> (r: KeyPress)
    ensures
        r == key_meaning(key),
{
    match key {
        RawKey::Char(c) => {
            if c == '\x16' || c == '\x05' {
                KeyPress::Toggle
            } else if !(c <= '\x1f' || ('\x7f' <= c && c <= '\u{9f}')) {
                KeyPress::Char(c)
            } else if c == '\x03' {
                KeyPress::Cancel
            } else {
                KeyPress::Other
            }
        },
        RawKey::Tab => KeyPress::Toggle,
        RawKey::Enter => KeyPress::Enter,
        RawKey::Backspace => KeyPress::Backspace,
        RawKey::ArrowUp => KeyPress::Up,
        RawKey::ArrowDown => KeyPress::Down,
        RawKey::PageUp => KeyPress::PageUp,
        RawKey::PageDown => KeyPress::PageDown,
        RawKey::CtrlC => KeyPress::Cancel,
        RawKey::Escape => KeyPress::Cancel,
        RawKey::Unknown => KeyPress::Other,
    }
}

/// No control character is ever taken as typed.
pub proof fn law_no_control_typed(key: RawKey)
    ensures
        key_meaning(key) matches KeyPress::Char(c) ==> !is_control(c) && key == RawKey::Char(c),
{
}

/// The longest input that is taken, in characters. It holds for the search
/// box, for the values of fields, for passwords and for all other input.
pub const MAX_INPUT: usize = 200;

/// As much of an input as is taken.
pub open spec fn limited(s: Seq<char>) -> Seq<char> {
    if s.len() > MAX_INPUT {
        s.take(MAX_INPUT as int)
    } else {
        s
    }
}

/// What an entered line of text stands for: as much of it as is taken,
/// without white space at either end.
pub open spec fn entered_text(s: Seq<char>) -> Seq<char> {
    trimmed(limited(s))
}

/// As much of an input as is taken.
pub fn limit(s: &str) -> (r: String)
    ensures
        r@ == limited(s@),
        r@.len() <= MAX_INPUT,
{
    if s.unicode_len() <= MAX_INPUT {
        return s.to_owned();
    }
    s.substring_char(0, MAX_INPUT).to_owned()
}

/// What an entered line of text stands for.
pub fn entered(s: &str) -> (r: String)
    ensures
        r@ == entered_text(s@),
{
    limit(s).as_str().trim().to_owned()
}

/// `s` without the line ends it closes with.
pub open spec fn without_line_end(s: Seq<char>) -> Seq<char>
    decreases s.len(),
{
    if s.len() > 0 && (s.last() == '\r' || s.last() == '\n') {
        without_line_end(s.drop_last())
    } else {
        s
    }
}

/// The input in a line that was read where there is no terminal to read keys
/// from.
pub fn read_line_fallback(line: String) -> (r: String)
    ensures
        r@ == limited(without_line_end(line@)),
{
    let mut rest = line;
    let ghost all = rest@;
    let mut chars = chars_of(rest.as_str());
    while chars.len() > 0 && (chars[chars.len() - 1] == '\r' || chars[chars.len() - 1] == '\n')
        invariant
            rest@ == chars@,
            without_line_end(rest@) == without_line_end(all),
        decreases chars@.len(),
    {
        rest.pop();
        chars.pop();
    }
    limit(rest.as_str())
}

/// What a key in masked input leads to.
#[derive(Debug, Clone, Copy, PartialEq, Eq, Structural)]
pub enum Masked {
    /// More keys are read.
    More,
    /// The input is complete.
    Submit,
    /// The input was given up.
    Cancel,
}

/// Masked input: what was typed so far, and whether it is shown.
pub struct MaskedInput {
    pub buf: String,
    pub revealed: bool,
}

/// Masked input after a key, and what the key leads to.
pub open spec fn masked_next(buf: Seq<char>, revealed: bool, key: KeyPress) -> (
    Seq<char>,
    bool,
    Masked,
) {
    match key {
        KeyPress::Toggle => (buf, !revealed, Masked::More),
        KeyPress::Char(c) => if buf.len() < MAX_INPUT {
            (buf.push(c), revealed, Masked::More)
        } else {
            (buf, revealed, Masked::More)
        },
        KeyPress::Backspace => if buf.len() > 0 {
            (buf.drop_last(), revealed, Masked::More)
        } else {
            (buf, revealed, Masked::More)
        },
        KeyPress::Enter => (buf, revealed, Masked::Submit),
        KeyPress::Cancel => (buf, revealed, Masked::Cancel),
        _ => (buf, revealed, Masked::More),
    }
}

/// The line shown of masked input, after its prompt.
pub open spec fn masked_body(buf: Seq<char>, revealed: bool) -> Seq<char> {
    if revealed {
        buf + "  （显示中，Tab 隐藏）"@
    } else {
        repeated("•"@, buf.len()) + "  （Tab 暂时查看）"@
    }
}

impl MaskedInput {
    /// Nothing typed, and hidden.
    pub fn new() -> (r: MaskedInput)
        ensures
            r.buf@ == Seq::<char>::empty(),
            !r.revealed,
    {
        MaskedInput { buf: String::new(), revealed: false }
    }

    /// Takes a key.
    pub fn press(&mut self, key: KeyPress) -> (r: Masked)
        ensures
            (final(self).buf@, final(self).revealed, r) == masked_next(
                old(self).buf@,
                old(self).revealed,
                key,
            ),
    {
        match key {
            KeyPress::Toggle => {
                self.revealed = !self.revealed;
                Masked::More
            },
            KeyPress::Char(c) => {
                if self.buf.as_str().unicode_len() < MAX_INPUT {
                    self.buf.push(c);
                }
                Masked::More
            },
            KeyPress::Backspace => {
                self.buf.pop();
                Masked::More
            },
            KeyPress::Enter => Masked::Submit,
            KeyPress::Cancel => Masked::Cancel,
            _ => Masked::More,
        }
    }

    /// The line shown after the prompt: a dot for each character, or the
    /// characters where they are shown.
    pub fn body(&self) -> (r: String)
        ensures
            r@ == masked_body(self.buf@, self.revealed),
    {
        if self.revealed {
            let mut out = self.buf.clone();
            out.append("  （显示中，Tab 隐藏）");
            out
        } else {
            let mut out = repeat("•", self.buf.as_str().unicode_len());
            out.append("  （Tab 暂时查看）");
            out
        }
    }
}

/// Masked input after a series of keys, none of which ends it.
pub open spec fn masked_after(keys: Seq<KeyPress>) -> (Seq<char>, bool)
    decreases keys.len(),
{
    if keys.len() == 0 {
        (Seq::empty(), false)
    } else {
        let (buf, revealed) = masked_after(keys.drop_last());
        let next = masked_next(buf, revealed, keys.last());
        (next.0, next.1)
    }
}

/// Masked input never grows beyond the longest input that is taken.
pub proof fn law_masked_bounded(keys: Seq<KeyPress>)
    ensures
        masked_after(keys).0.len() <= MAX_INPUT,
    decreases keys.len(),
{
    if keys.len() > 0 {
        law_masked_bounded(keys.drop_last());
    }
}

/// Hidden input shows the same line for all inputs of the same length.
pub proof fn law_masked_hides(a: Seq<char>, b: Seq<char>)
    requires
        a.len() == b.len(),
    ensures
        masked_body(a, false) == masked_body(b, false),
{
}

/// Taking back a character that was just typed gives the input before it.
pub proof fn law_backspace_undoes(buf: Seq<char>, revealed: bool, c: char)
    requires
        buf.len() < MAX_INPUT,
    ensures
        ({
            let typed = masked_next(buf, revealed, KeyPress::Char(c));
            masked_next(typed.0, typed.1, KeyPress::Backspace)
        }) == (buf, revealed, Masked::More),
{
    assert(buf.push(c).drop_last() == buf);
}

/// The input that masked input comes to: what was typed, or the reason why
/// there is none.
pub fn masked_result(input: MaskedInput, outcome: Masked) -> (r: Option<Result<String, String>>)
    ensures
        match outcome {
            Masked::More => r is None,
            Masked::Submit => r matches Some(Ok(s)) && s == input.buf,
            Masked::Cancel => r matches Some(Err(why)) && why@ == "已取消"@,
        },
{
    match outcome {
        Masked::More => None,
        Masked::Submit => Some(Ok(input.buf)),
        Masked::Cancel => Some(Err("已取消".to_owned())),
    }
}

/// The text that redraws an input line: back to its start, the line cleared,
/// the prompt and what follows it.
pub fn redraw_input_line(prompt: &str, body: &str) -> (r: String)
    ensures
        r@ == "\r\x1b[2K"@ + prompt@ + body@,
{
    let mut out = "\r\x1b[2K".to_owned();
    out.append(prompt);
    out.append(body);
    out
}

/// What is asked of the user.
pub enum Prompt {
    /// A question answered by yes or no.
    Confirm { text: String, default: bool },
    /// A password or another text that is not shown.
    Secret { text: String },
    /// A line of text, which may or may not be empty.
    Text { text: String, allow_empty: bool },
    /// One of several items; the first is selected at the start.
    Select { text: String, items: Vec<String> },
    /// Nothing: what comes next needs no reply, but may take its time.
    Proceed,
}

/// A prompt by its view.
pub enum PromptView {
    Confirm { text: Seq<char>, default: bool },
    Secret { text: Seq<char> },
    Text { text: Seq<char>, allow_empty: bool },
    Select { text: Seq<char>, items: Seq<Seq<char>> },
    Proceed,
}

impl View for Prompt {
    type V = PromptView;

    open spec fn view(&self) -> PromptView {
        match self {
            Prompt::Confirm { text, default } => PromptView::Confirm {
                text: text@,
                default: *default,
            },
            Prompt::Secret { text } => PromptView::Secret { text: text@ },
            Prompt::Text { text, allow_empty } => PromptView::Text {
                text: text@,
                allow_empty: *allow_empty,
            },
            Prompt::Select { text, items } => PromptView::Select {
                text: text@,
                items: views(items@),
            },
            Prompt::Proceed => PromptView::Proceed,
        }
    }
}

/// A prompt, if any, by its view.
pub open spec fn option_prompt(p: Option<Prompt>) -> Option<PromptView> {
    match p {
        Some(p) => Some(p@),
        None => None,
    }
}

/// What the user replies.
pub enum Reply {
    /// Yes or no.
    Agreed(bool),
    /// A text.
    Entered(String),
    /// The index of an item.
    Chosen(usize),
    /// Nothing was asked.
    Proceed,
}

/// A reply by its view.
pub enum ReplyView {
    Agreed(bool),
    Entered(Seq<char>),
    Chosen(int),
    Proceed,
}

impl View for Reply {
    type V = ReplyView;

    open spec fn view(&self) -> ReplyView {
        match self {
            Reply::Agreed(yes) => ReplyView::Agreed(*yes),
            Reply::Entered(s) => ReplyView::Entered(s@),
            Reply::Chosen(n) => ReplyView::Chosen(*n as int),
            Reply::Proceed => ReplyView::Proceed,
        }
    }
}

/// What is told to the user.
#[derive(Debug, Clone, Copy, PartialEq, Eq, Structural)]
pub enum Notice {
    MasterEmpty,
    MasterDiffers,
    RecoveryHeader,
    MachineBound,
    QuestionEmpty,
    AnswerEmpty,
    AnswerDiffers,
    QuestionAdded,
    VaultCreated,
    Unlocked,
    WrongMaster,
    ReadingMachine,
    Recovered,
    MasterUpdated,
    MasterKept,
}

/// The lines of a notice, where colours are on or off.
pub open spec fn notice_lines(n: Notice, on: bool) -> Seq<Seq<char>> {
    match n {
        Notice::MasterEmpty => seq![
            painted(Style::Warning, "⚠ 主密码不能为空，请重新设置"@, on),
        ],
        Notice::MasterDiffers => seq![
            painted(Style::Warning, "⚠ 两次输入不一致，请重新设置"@, on),
        ],
        Notice::RecoveryHeader => seq![
            ""@,
            painted(Style::Title, "── 恢复路径设置 ──"@, on),
            painted(Style::Dim, "（可选，至少建议设置一个）"@, on),
        ],
        Notice::MachineBound => seq![
            painted(Style::Success, "✓ 已绑定机器码恢复路径"@, on),
        ],
        Notice::QuestionEmpty => seq![painted(Style::Warning, "⚠ 问题不能为空"@, on)],
        Notice::AnswerEmpty => seq![painted(Style::Warning, "⚠ 答案不能为空"@, on)],
        Notice::AnswerDiffers => seq![
            painted(Style::Warning, "⚠ 两次输入不一致，请重试"@, on),
        ],
        Notice::QuestionAdded => seq![painted(Style::Success, "✓ 已添加密保问题"@, on)],
        Notice::VaultCreated => seq![
            ""@,
            painted(Style::Success, "✓ 密码库创建完成！请牢记主密码与恢复答案。"@, on),
        ],
        Notice::Unlocked => seq![painted(Style::Success, "✓ 解锁成功"@, on)],
        Notice::WrongMaster => seq![painted(Style::Failure, "✗ 主密码错误。"@, on)],
        Notice::ReadingMachine => seq!["正在读取本机机器码…"@],
        Notice::Recovered => seq![painted(Style::Success, "✓ 恢复成功！"@, on)],
        Notice::MasterUpdated => seq![painted(Style::Success, "✓ 主密码已更新"@, on)],
        Notice::MasterKept => seq![
            painted(Style::Warning, "⚠ 输入无效或两次不一致，主密码未修改"@, on),
        ],
    }
}

/// A list of one line.
fn one_line(line: String) -> (r: Vec<String>)
    ensures
        views(r@) == seq![line@],
{
    let mut out: Vec<String> = Vec::new();
    out.push(line);
    assert(views(out@) == seq![line@]);
    out
}

impl Notice {
    /// The lines of this notice, where colours are on or off.
    pub fn lines(&self, on: bool) -> (r: Vec<String>)
        ensures
            views(r@) == notice_lines(*self, on),
    {
        match self {
            Notice::MasterEmpty => one_line(
                paint(Style::Warning, "⚠ 主密码不能为空，请重新设置", on),
            ),
            Notice::MasterDiffers => one_line(
                paint(Style::Warning, "⚠ 两次输入不一致，请重新设置", on),
            ),
            Notice::RecoveryHeader => {
                let mut out: Vec<String> = Vec::new();
                out.push("".to_owned());
                out.push(paint(Style::Title, "── 恢复路径设置 ──", on));
                out.push(paint(Style::Dim, "（可选，至少建议设置一个）", on));
                assert(views(out@) == notice_lines(*self, on));
                out
            },
            Notice::MachineBound => one_line(
                paint(Style::Success, "✓ 已绑定机器码恢复路径", on),
            ),
            Notice::QuestionEmpty => one_line(paint(Style::Warning, "⚠ 问题不能为空", on)),
            Notice::AnswerEmpty => one_line(paint(Style::Warning, "⚠ 答案不能为空", on)),
            Notice::AnswerDiffers => one_line(
                paint(Style::Warning, "⚠ 两次输入不一致，请重试", on),
            ),
            Notice::QuestionAdded => one_line(paint(Style::Success, "✓ 已添加密保问题", on)),
            Notice::VaultCreated => {
                let mut out: Vec<String> = Vec::new();
                out.push("".to_owned());
                out.push(
                    paint(
                        Style::Success,
                        "✓ 密码库创建完成！请牢记主密码与恢复答案。",
                        on,
                    ),
                );
                assert(views(out@) == notice_lines(*self, on));
                out
            },
            Notice::Unlocked => one_line(paint(Style::Success, "✓ 解锁成功", on)),
            Notice::WrongMaster => one_line(paint(Style::Failure, "✗ 主密码错误。", on)),
            Notice::ReadingMachine => one_line("正在读取本机机器码…".to_owned()),
            Notice::Recovered => one_line(paint(Style::Success, "✓ 恢复成功！", on)),
            Notice::MasterUpdated => one_line(paint(Style::Success, "✓ 主密码已更新", on)),
            Notice::MasterKept => one_line(
                paint(Style::Warning, "⚠ 输入无效或两次不一致，主密码未修改", on),
            ),
        }
    }
}

/// Every character that is no control character is typed as itself. Of the
/// control characters three have a meaning, and the others have none.
pub proof fn law_keys_mean(c: char)
    ensures
        c >= ' ' && !('\x7f' <= c <= '\u{9f}') ==> key_meaning(RawKey::Char(c)) == KeyPress::Char(
            c,
        ),
        c < ' ' || '\x7f' <= c <= '\u{9f}' ==> key_meaning(RawKey::Char(c)) == if c as int == 22
            || c as int == 5 {
            KeyPress::Toggle
        } else if c as int == 3 {
            KeyPress::Cancel
        } else {
            KeyPress::Other
        },
{
}

/// An input is taken from its start, up to two hundred characters; a shorter
/// one is taken whole.
pub proof fn law_limited(s: Seq<char>)
    ensures
        s.len() <= 200 ==> limited(s) == s,
        s.len() > 200 ==> limited(s).len() == 200,
        limited(s).is_prefix_of(s),
        s.len() <= 200 ==> entered_text(s) == trimmed(s),
        s.len() > 200 ==> entered_text(s) == trimmed(s.take(200)),
{
}

/// The line ends at the end of a line are taken off, however many there are,
/// and nothing else is.
pub proof fn law_line_ends_taken_off(s: Seq<char>)
    ensures
        without_line_end(s.push('\n')) == without_line_end(s),
        without_line_end(s.push('\r')) == without_line_end(s),
        s.len() > 0 && s.last() != '\n' && s.last() != '\r' ==> without_line_end(s) == s,
        without_line_end(Seq::empty()) == Seq::<char>::empty(),
{
    assert(s.push('\n').drop_last() == s);
    assert(s.push('\r').drop_last() == s);
}

/// Masked input after the characters of a text were typed.
pub open spec fn masked_typed(buf: Seq<char>, revealed: bool, s: Seq<char>) -> Seq<char>
    decreases s.len(),
{
    if s.len() == 0 {
        buf
    } else {
        masked_next(
            masked_typed(buf, revealed, s.drop_last()),
            revealed,
            KeyPress::Char(s.last()),
        ).0
    }
}

/// What is typed into masked input is kept whole, shown or hidden, up to the
/// longest input that is taken.
pub proof fn law_masked_keeps_typed(buf: Seq<char>, revealed: bool, s: Seq<char>)
    requires
        buf.len() + s.len() <= 200,
    ensures
        masked_typed(buf, revealed, s) == buf + s,
    decreases s.len(),
{
    if s.len() > 0 {
        law_masked_keeps_typed(buf, revealed, s.drop_last());
        assert((buf + s.drop_last()).push(s.last()) == buf + s);
    } else {
        assert(buf + s == buf);
    }
}

/// Typing goes on until the input is entered or given up. Showing changes
/// nothing of what was typed, and showing twice hides it again; keys without a
/// meaning change nothing.
pub proof fn law_masked_keys(buf: Seq<char>, revealed: bool, key: KeyPress)
    ensures
        masked_next(buf, revealed, key).2 == Masked::Submit <==> key == KeyPress::Enter,
        masked_next(buf, revealed, key).2 == Masked::Cancel <==> key == KeyPress::Cancel,
        masked_next(buf, revealed, key).1 != revealed <==> key == KeyPress::Toggle,
        !(key is Char) && key != KeyPress::Backspace ==> masked_next(buf, revealed, key).0 == buf,
        buf.len() >= 200 && key is Char ==> masked_next(buf, revealed, key).0 == buf,
        buf.len() == 0 && key == KeyPress::Backspace ==> masked_next(buf, revealed, key).0 == buf,
{
}

/// Shown input stands whole in its line; hidden input has one dot for each
/// character, and the line holds none of them.
pub proof fn law_masked_line(buf: Seq<char>)
    ensures
        masked_body(buf, true).take(buf.len() as int) == buf,
        masked_body(buf, false).take(buf.len() as int) == Seq::new(buf.len(), |i: int| '•'),
{
    reveal_strlit("•");
    assert("•"@ == seq!['•']);
    law_repeated_character('•', buf.len());
    assert(masked_body(buf, true).take(buf.len() as int) == buf);
    assert(masked_body(buf, false).take(buf.len() as int) == Seq::new(buf.len(), |i: int| '•'));
}

} // verus!
