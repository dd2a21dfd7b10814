//! What is shown of a record, and the forms for adding and for changing one.
use crate::crypto::{decrypted, outcome, CryptoError, Fault};
use crate::storage::{Record, RecordIn, Vault};
use crate::text::{
    all_digits, ascii_lowered, decimal, decimal_text, digit, digits_value, is_digit,
    law_ascii_lowered_each, law_decimal_reads_back, law_decimal_shortest, law_repeated_character,
    law_trimmed_idempotent, parse_number, parsed_number, repeat, repeated, same, to_ascii_lower,
    trimmed, trimmed_end, trimmed_start, views,
};
use crate::ui::{entered, entered_text, law_limited, option_prompt, Prompt, PromptView};
use vstd::prelude::*;
use vstd::string::*;

verus! {

/// How many fields a record has.
pub const FIELD_COUNT: usize = 8;

/// The place of the password among the fields.
pub const PASSWORD_FIELD: usize = 4;

/// The names of the fields, in their order.
pub open spec fn field_names() -> Seq<Seq<char>> {
    seq![
        "应用名称"@,
        "昵称"@,
        "用户名"@,
        "ID"@,
        "密码"@,
        "凭证应用"@,
        "注册凭证"@,
        "备注"@,
    ]
}

/// The name of a field.
pub fn field_name(i: usize) -> (r: &'static str)
    requires
        i < FIELD_COUNT,
    ensures
        r@ == field_names()[i as int],
{
    if i == 0 {
        "应用名称"
    } else if i == 1 {
        "昵称"
    } else if i == 2 {
        "用户名"
    } else if i == 3 {
        "ID"
    } else if i == 4 {
        "密码"
    } else if i == 5 {
        "凭证应用"
    } else if i == 6 {
        "注册凭证"
    } else {
        "备注"
    }
}

/// Whether `shown` is what is shown of a password: the password, or the reason
/// why it cannot be decrypted.
pub open spec fn shows_password(r: Result<String, CryptoError>, shown: Seq<char>) -> bool {
    match r {
        Ok(p) => shown == p@,
        Err(e) => exists|text: Seq<char>| #[trigger]
            e.is_message(text) && shown == "（无法解密："@ + text + "）"@,
    }
}

/// What is shown of a password.
pub fn shown_password(r: Result<String, CryptoError>) -> (shown: String)
    ensures
        shows_password(r, shown@),
{
    match r {
        Ok(p) => p,
        Err(e) => {
            let text = e.message();
            let mut out = "（无法解密：".to_owned();
            out.append(text.as_str());
            out.append("）");
            assert(e.is_message(text@));
            out
        },
    }
}

/// The password as it stands in its line: as it is, or a dot for each
/// character.
pub open spec fn password_line(shown: Seq<char>, reveal: bool) -> Seq<char> {
    if reveal {
        shown
    } else {
        repeated("•"@, shown.len()) + "（V 暂时查看）"@
    }
}

/// The lines of a record.
pub open spec fn record_lines(rec: Record, shown: Seq<char>, reveal: bool) -> Seq<Seq<char>> {
    seq![
        "应用名称："@ + rec.app_name@,
        "昵称："@ + rec.nick_name@,
        "用户名："@ + rec.user_name@,
        "ID："@ + rec.user_id@,
        "密码："@ + password_line(shown, reveal),
        "凭证应用："@ + rec.voucher@,
        "注册凭证："@ + rec.register@,
        "备注："@ + rec.remark@,
        "最后修改："@ + rec.stamp@,
    ]
}

/// A label and a value.
fn labelled(label: &str, value: &str) -> (r: String)
    ensures
        r@ == label@ + value@,
{
    let mut out = label.to_owned();
    out.append(value);
    out
}

/// Whether `lines` are the lines of a record, where `pwd` is what decrypting
/// its password came to. Only a decrypted password is hidden: that one cannot
/// be decrypted is always shown.
pub open spec fn prints_record(
    rec: Record,
    pwd: Result<String, CryptoError>,
    reveal: bool,
    lines: Seq<Seq<char>>,
) -> bool {
    exists|shown: Seq<char>| #[trigger]
        shows_password(pwd, shown) && lines == record_lines(rec, shown, reveal || pwd is Err)
}

/// Writes the lines of a record of a vault.
pub fn print_record(rec: &Record, vault: &Vault, reveal: bool) -> (r: Vec<String>)
    ensures
        exists|pwd: Result<String, CryptoError>| #[trigger]
            prints_record(*rec, pwd, reveal, views(r@)) && outcome(pwd) == decrypted(
                vault.key(),
                rec.password_blob@,
            ),
{
    let pwd = vault.decrypt(rec.password_blob.as_str());
    let ghost read = pwd;
    let r = print_record_with(rec, pwd, reveal);
    assert(prints_record(*rec, read, reveal, views(r@)));
    r
}

/// Writes the lines of a record, where `pwd` is what decrypting its password
/// came to.
pub fn print_record_with(rec: &Record, pwd: Result<String, CryptoError>, reveal: bool) -> (r: Vec<
    String,
>)
    ensures
        prints_record(*rec, pwd, reveal, views(r@)),
{
    let ghost read = pwd;
    let reveal = reveal || pwd.is_err();
    let shown = shown_password(pwd);
    let r = lines_of_record(rec, shown.as_str(), reveal);
    assert(shows_password(read, shown@));
    r
}

/// Writes the lines of a record, with what is shown of its password.
fn lines_of_record(rec: &Record, shown: &str, reveal: bool) -> (r: Vec<String>)
    ensures
        views(r@) == record_lines(*rec, shown@, reveal),
{
    let pwd_line = if reveal {
        shown.to_owned()
    } else {
        let mut dots = repeat("•", shown.unicode_len());
        dots.append("（V 暂时查看）");
        dots
    };
    let mut out: Vec<String> = Vec::new();
    out.push(labelled("应用名称：", rec.app_name.as_str()));
    out.push(labelled("昵称：", rec.nick_name.as_str()));
    out.push(labelled("用户名：", rec.user_name.as_str()));
    out.push(labelled("ID：", rec.user_id.as_str()));
    out.push(labelled("密码：", pwd_line.as_str()));
    out.push(labelled("凭证应用：", rec.voucher.as_str()));
    out.push(labelled("注册凭证：", rec.register.as_str()));
    out.push(labelled("备注：", rec.remark.as_str()));
    out.push(labelled("最后修改：", rec.stamp.as_str()));
    assert(views(out@) == record_lines(*rec, shown@, reveal));
    out
}

/// A hidden password shows no more than its length: two passwords of the same
/// length give the same lines.
pub proof fn law_hidden_password(
    rec: Record,
    a: String,
    b: String,
    lines: Seq<Seq<char>>,
    others: Seq<Seq<char>>,
)
    requires
        a@.len() == b@.len(),
        prints_record(rec, Ok(a), false, lines),
        prints_record(rec, Ok(b), false, others),
    ensures
        lines == others,
{
}

/// That a password cannot be decrypted is shown, whether or not passwords are,
/// and all other fields are shown with it.
pub proof fn law_damage_shown(
    rec: Record,
    e: CryptoError,
    reveal: bool,
    lines: Seq<Seq<char>>,
)
    requires
        prints_record(rec, Err(e), reveal, lines),
    ensures
        exists|text: Seq<char>| #[trigger]
            e.is_message(text) && lines == record_lines(
                rec,
                "（无法解密："@ + text + "）"@,
                true,
            ) && lines[4] == "密码："@ + ("（无法解密："@ + text + "）"@),
{
    let shown = choose|shown: Seq<char>| #[trigger]
        shows_password(Err(e), shown) && lines == record_lines(rec, shown, true);
    let text = choose|text: Seq<char>| #[trigger]
        e.is_message(text) && shown == "（无法解密："@ + text + "）"@;
    assert(e.is_message(text));
}

/// The page of a record: a blank line, its title, its lines and a rule.
pub open spec fn page_lines(rec: Record, position: nat, lines: Seq<Seq<char>>) -> Seq<Seq<char>> {
    seq![
        ""@,
        "========== 记录 #"@ + decimal(position) + "（"@ + rec.app_name@ + "）=========="@,
    ] + lines + seq!["--------------------------------"@]
}

/// Whether `page` is the page of a record, where `pwd` is what decrypting its
/// password came to.
pub open spec fn shows_page(
    rec: Record,
    position: nat,
    pwd: Result<String, CryptoError>,
    reveal: bool,
    page: Seq<Seq<char>>,
) -> bool {
    exists|lines: Seq<Seq<char>>| #[trigger]
        prints_record(rec, pwd, reveal, lines) && page == page_lines(rec, position, lines)
}

/// What a choice on the page of a record does.
#[derive(Debug, Clone, Copy, PartialEq, Eq, Structural)]
pub enum RecordChoice {
    Back,
    Toggle,
    Copy,
    Modify,
    Delete,
    Unknown,
}

/// What an entered text does on the page of a record.
pub open spec fn record_choice(text: Seq<char>) -> RecordChoice {
    let lower = ascii_lowered(entered_text(text));
    if lower.len() == 0 {
        RecordChoice::Back
    } else if lower == "v"@ {
        RecordChoice::Toggle
    } else if lower == "c"@ {
        RecordChoice::Copy
    } else if lower == "m"@ {
        RecordChoice::Modify
    } else if lower == "d"@ {
        RecordChoice::Delete
    } else {
        RecordChoice::Unknown
    }
}

/// Writes the page of a record round its lines.
fn titled_page(rec: &Record, position: usize, body: Vec<String>) -> (r: Vec<String>)
    ensures
        views(r@) == page_lines(*rec, position as nat, views(body@)),
{
    let ghost rows = body@;
    let mut body = body;
    let mut title = "========== 记录 #".to_owned();
    title.append(decimal_text(position).as_str());
    title.append("（");
    title.append(rec.app_name.as_str());
    title.append("）==========");
    let mut out: Vec<String> = Vec::new();
    out.push("".to_owned());
    out.push(title);
    let ghost head = views(out@);
    out.append(&mut body);
    assert(views(out@) == head + views(rows));
    let ghost before = views(out@);
    out.push("--------------------------------".to_owned());
    assert(views(out@) == before.push("--------------------------------"@));
    assert(views(out@) == page_lines(*rec, position as nat, views(rows)));
    out
}

/// The page of a record; the password is hidden until it is asked for.
pub struct RecordPage {
    pub reveal: bool,
}

impl RecordPage {
    /// A page with the password hidden.
    pub fn new() -> (r: RecordPage)
        ensures
            !r.reveal,
    {
        RecordPage { reveal: false }
    }

    /// The lines of the page.
    pub fn lines(&self, vault: &Vault, rec: &Record, position: usize) -> (r: Vec<String>)
        ensures
            exists|pwd: Result<String, CryptoError>| #[trigger]
                shows_page(*rec, position as nat, pwd, self.reveal, views(r@)) && outcome(pwd)
                    == decrypted(vault.key(), rec.password_blob@),
    {
        let body = print_record(rec, vault, self.reveal);
        let r = titled_page(rec, position, body);
        proof {
            let pwd = choose|pwd: Result<String, CryptoError>| #[trigger]
                prints_record(*rec, pwd, self.reveal, views(body@)) && outcome(pwd) == decrypted(
                    vault.key(),
                    rec.password_blob@,
                );
            assert(prints_record(*rec, pwd, self.reveal, views(body@)));
            assert(shows_page(*rec, position as nat, pwd, self.reveal, views(r@)));
        }
        r
    }

    /// The lines of the page, where `pwd` is what decrypting the password came
    /// to.
    pub fn lines_with(&self, rec: &Record, position: usize, pwd: Result<String, CryptoError>) -> (r:
        Vec<String>)
        ensures
            shows_page(*rec, position as nat, pwd, self.reveal, views(r@)),
    {
        let ghost read = pwd;
        let body = print_record_with(rec, pwd, self.reveal);
        let r = titled_page(rec, position, body);
        assert(prints_record(*rec, read, self.reveal, views(body@)));
        r
    }

    /// The prompt of the page.
    pub fn prompt(&self) -> (r: &'static str)
        ensures
            r@ == if self.reveal {
                "[V]隐藏密码 / [C]复制 / [M]修改 / [D]删除 / [回车]返回"@
            } else {
                "[V]暂时查看密码 / [C]复制 / [M]修改 / [D]删除 / [回车]返回"@
            },
    {
        if self.reveal {
            "[V]隐藏密码 / [C]复制 / [M]修改 / [D]删除 / [回车]返回"
        } else {
            "[V]暂时查看密码 / [C]复制 / [M]修改 / [D]删除 / [回车]返回"
        }
    }

    /// Takes a choice; showing and hiding the password is done here.
    pub fn pick(&mut self, text: &str) -> (r: RecordChoice)
        ensures
            r == record_choice(text@),
            final(self).reveal == (old(self).reveal != (r == RecordChoice::Toggle)),
    {
        let lower = to_ascii_lower(entered(text).as_str());
        let lower = lower.as_str();
        if lower.is_empty() {
            RecordChoice::Back
        } else if same(lower, "v") {
            self.reveal = !self.reveal;
            RecordChoice::Toggle
        } else if same(lower, "c") {
            RecordChoice::Copy
        } else if same(lower, "m") {
            RecordChoice::Modify
        } else if same(lower, "d") {
            RecordChoice::Delete
        } else {
            RecordChoice::Unknown
        }
    }
}

/// Whether `why` is the message of the error that decrypting gives.
pub open spec fn undecrypted(key: Seq<u8>, blob: Seq<char>, why: Seq<char>) -> bool {
    exists|e: CryptoError| #[trigger]
        e.is_message(why) && decrypted(key, blob) == Err::<Seq<char>, Fault>(e@)
}

/// The password of a record for the clipboard, or why there is none.
pub fn copy_password(vault: &Vault, rec: &Record) -> (r: Result<String, String>)
    ensures
        r matches Ok(p) ==> decrypted(vault.key(), rec.password_blob@) == Ok::<Seq<char>, Fault>(
            p@,
        ),
        r matches Err(why) ==> undecrypted(vault.key(), rec.password_blob@, why@),
{
    match vault.decrypt(rec.password_blob.as_str()) {
        Ok(p) => Ok(p),
        Err(e) => {
            let why = e.message();
            assert(e.is_message(why@));
            assert(undecrypted(vault.key(), rec.password_blob@, why@));
            Err(why)
        },
    }
}

/// The prompts of the form for adding a record, by how many fields are
/// filled in.
pub open spec fn add_prompt(filled: nat) -> Option<PromptView> {
    if filled == 0 {
        Some(PromptView::Text { text: "应用名称（必填）"@, allow_empty: false })
    } else if filled == 1 {
        Some(PromptView::Text { text: "昵称"@, allow_empty: true })
    } else if filled == 2 {
        Some(PromptView::Text { text: "用户名称"@, allow_empty: true })
    } else if filled == 3 {
        Some(PromptView::Text { text: "ID"@, allow_empty: true })
    } else if filled == 4 {
        Some(PromptView::Secret { text: "密码（必填）："@ })
    } else if filled == 5 {
        Some(PromptView::Text { text: "凭证应用"@, allow_empty: true })
    } else if filled == 6 {
        Some(PromptView::Text { text: "注册凭证"@, allow_empty: true })
    } else if filled == 7 {
        Some(PromptView::Text { text: "备注"@, allow_empty: true })
    } else {
        None
    }
}

/// The fields of the form after an answer, and the warning shown, if any. The
/// name and the password must not be empty.
pub open spec fn add_next(filled: Seq<Seq<char>>, answer: Seq<char>) -> (
    Seq<Seq<char>>,
    Option<Seq<char>>,
) {
    if filled.len() >= FIELD_COUNT {
        (filled, None)
    } else if filled.len() == 0 && entered_text(answer).len() == 0 {
        (filled, Some("应用名称不能为空"@))
    } else if filled.len() == PASSWORD_FIELD {
        if answer.len() == 0 {
            (filled, Some("密码不能为空"@))
        } else {
            (filled.push(answer), None)
        }
    } else {
        (filled.push(entered_text(answer)), None)
    }
}

/// Whether an entry holds these fields.
pub open spec fn holds_fields(r: RecordIn, fields: Seq<Seq<char>>) -> bool {
    &&& r.app_name@ == fields[0]
    &&& r.nick_name@ == fields[1]
    &&& r.user_name@ == fields[2]
    &&& r.user_id@ == fields[3]
    &&& r.password@ == fields[4]
    &&& r.voucher@ == fields[5]
    &&& r.register@ == fields[6]
    &&& r.remark@ == fields[7]
}

/// The entry that eight fields make.
fn entry_of(fields: &Vec<String>) -> (r: RecordIn)
    requires
        fields@.len() == FIELD_COUNT,
    ensures
        holds_fields(r, views(fields@)),
{
    RecordIn {
        app_name: fields[0].clone(),
        nick_name: fields[1].clone(),
        user_name: fields[2].clone(),
        user_id: fields[3].clone(),
        password: fields[4].clone(),
        voucher: fields[5].clone(),
        register: fields[6].clone(),
        remark: fields[7].clone(),
    }
}

/// The form for adding a record.
pub struct AddForm {
    filled: Vec<String>,
}

impl View for AddForm {
    type V = Seq<Seq<char>>;

    closed spec fn view(&self) -> Seq<Seq<char>> {
        views(self.filled@)
    }
}

/// A warning, if any, by its view.
pub open spec fn warning_view(w: Option<&'static str>) -> Option<Seq<char>> {
    match w {
        Some(s) => Some(s@),
        None => None,
    }
}

impl AddForm {
    /// An empty form.
    pub fn new() -> (r: AddForm)
        ensures
            r@ == Seq::<Seq<char>>::empty(),
    {
        let r = AddForm { filled: Vec::new() };
        assert(r@ == Seq::<Seq<char>>::empty());
        r
    }

    /// What is asked next.
    pub fn prompt(&self) -> (r: Option<Prompt>)
        ensures
            option_prompt(r) == add_prompt(self@.len()),
    {
        let filled = self.filled.len();
        let label = if filled == 0 {
            "应用名称（必填）"
        } else if filled == 1 {
            "昵称"
        } else if filled == 2 {
            "用户名称"
        } else if filled == 3 {
            "ID"
        } else if filled == 4 {
            return Some(Prompt::Secret { text: "密码（必填）：".to_owned() });
        } else if filled == 5 {
            "凭证应用"
        } else if filled == 6 {
            "注册凭证"
        } else if filled == 7 {
            "备注"
        } else {
            return None;
        };
        Some(Prompt::Text { text: label.to_owned(), allow_empty: filled > 0 })
    }

    /// Takes an answer, and gives the warning to show, if any.
    pub fn answer(&mut self, answer: String) -> (r: Option<&'static str>)
        ensures
            (final(self)@, warning_view(r)) == add_next(old(self)@, answer@),
    {
        let ghost before = self@;
        let filled = self.filled.len();
        if filled >= FIELD_COUNT {
            return None;
        }
        if filled == PASSWORD_FIELD {
            if answer.as_str().is_empty() {
                return Some("密码不能为空");
            }
            self.filled.push(answer);
            assert(self@ == before.push(answer@));
            return None;
        }
        let text = entered(answer.as_str());
        if filled == 0 && text.as_str().is_empty() {
            return Some("应用名称不能为空");
        }
        self.filled.push(text);
        assert(self@ == before.push(text@));
        None
    }

    /// The entry, where all fields are filled in.
    pub fn finish(&self) -> (r: Option<RecordIn>)
        ensures
            match r {
                Some(entry) => self@.len() == FIELD_COUNT && holds_fields(entry, self@),
                None => self@.len() != FIELD_COUNT,
            },
    {
        if self.filled.len() == FIELD_COUNT {
            Some(entry_of(&self.filled))
        } else {
            None
        }
    }
}

/// The fields of the form after a series of answers.
pub open spec fn add_after(answers: Seq<Seq<char>>) -> Seq<Seq<char>>
    decreases answers.len(),
{
    if answers.len() == 0 {
        Seq::empty()
    } else {
        add_next(add_after(answers.drop_last()), answers.last()).0
    }
}

/// Whatever is answered, a filled form has a name and a password, and never
/// more than all fields.
pub proof fn law_added_complete(answers: Seq<Seq<char>>)
    ensures
        add_after(answers).len() <= FIELD_COUNT,
        add_after(answers).len() > 0 ==> add_after(answers)[0].len() > 0,
        add_after(answers).len() > PASSWORD_FIELD ==> add_after(answers)[PASSWORD_FIELD as int].len()
            > 0,
    decreases answers.len(),
{
    if answers.len() > 0 {
        law_added_complete(answers.drop_last());
    }
}

/// The message for a record that was added.
pub fn added_message(name: &str) -> (r: String)
    ensures
        r@ == "已添加「"@ + name@ + "」，回车可继续其他操作"@,
{
    let mut out = "已添加「".to_owned();
    out.append(name);
    out.append("」，回车可继续其他操作");
    out
}

/// What a choice in the form for changing a record does.
#[derive(Debug, Clone, Copy, PartialEq, Eq, Structural)]
pub enum ChangeChoice {
    /// The record is saved.
    Save,
    /// Saving would leave an empty password in place of one that cannot be
    /// decrypted, so it is asked for first.
    ConfirmSave,
    Cancel,
    /// A new password is asked for.
    Password,
    /// A new value of a field is asked for.
    Field(usize),
    OutOfRange,
    Unknown,
}

/// The state of the form for changing a record.
pub struct ChangeView {
    pub fields: Seq<Seq<char>>,
    /// Whether the password was decrypted or entered anew.
    pub pwd_ok: bool,
}

/// What an entered text does in the form for changing a record.
pub open spec fn change_choice(v: ChangeView, text: Seq<char>) -> ChangeChoice {
    let lower = ascii_lowered(entered_text(text));
    if lower == "x"@ || lower.len() == 0 {
        if !v.pwd_ok && v.fields[PASSWORD_FIELD as int].len() == 0 {
            ChangeChoice::ConfirmSave
        } else {
            ChangeChoice::Save
        }
    } else if lower == "q"@ {
        ChangeChoice::Cancel
    } else {
        match parsed_number(lower) {
            Some(n) if n <= usize::MAX => if n >= FIELD_COUNT {
                ChangeChoice::OutOfRange
            } else if n == PASSWORD_FIELD {
                ChangeChoice::Password
            } else {
                ChangeChoice::Field(n as usize)
            },
            _ => ChangeChoice::Unknown,
        }
    }
}

/// The form for changing a record.
pub struct ChangeForm {
    fields: Vec<String>,
    pwd_ok: bool,
}

impl View for ChangeForm {
    type V = ChangeView;

    closed spec fn view(&self) -> ChangeView {
        ChangeView { fields: views(self.fields@), pwd_ok: self.pwd_ok }
    }
}

/// The form for a record at its start; a password that cannot be decrypted is
/// left empty.
pub open spec fn change_start(rec: Record, pwd: Result<Seq<char>, Fault>) -> ChangeView {
    let password = match pwd {
        Ok(p) => p,
        Err(_) => Seq::empty(),
    };
    ChangeView {
        fields: seq![
            rec.app_name@,
            rec.nick_name@,
            rec.user_name@,
            rec.user_id@,
            password,
            rec.voucher@,
            rec.register@,
            rec.remark@,
        ],
        pwd_ok: pwd is Ok,
    }
}

/// The lines of the fields.
pub open spec fn field_lines(fields: Seq<Seq<char>>) -> Seq<Seq<char>> {
    Seq::new(
        FIELD_COUNT as nat,
        |i: int| "["@ + decimal(i as nat) + "] "@ + field_names()[i] + "："@ + fields[i],
    )
}

/// The lines of the form.
pub open spec fn change_lines(v: ChangeView, position: nat) -> Seq<Seq<char>> {
    seq![
        ""@,
        "--- 修改记录 #"@ + decimal(position) + "（选择字段编号，可连续修改）---"@,
    ] + field_lines(v.fields) + seq!["[X] 保存并退出 / [Q] 取消"@]
}

impl ChangeForm {
    /// The form for a record, with what decrypting its password came to.
    pub fn start(rec: &Record, pwd: Result<String, CryptoError>) -> (r: ChangeForm)
        ensures
            r@ == change_start(*rec, outcome(pwd)),
            r@.fields.len() == FIELD_COUNT,
    {
        let ghost read = pwd;
        let (password, pwd_ok) = match pwd {
            Ok(p) => (p, true),
            Err(_) => (String::new(), false),
        };
        let mut fields: Vec<String> = Vec::new();
        fields.push(rec.app_name.clone());
        fields.push(rec.nick_name.clone());
        fields.push(rec.user_name.clone());
        fields.push(rec.user_id.clone());
        fields.push(password);
        fields.push(rec.voucher.clone());
        fields.push(rec.register.clone());
        fields.push(rec.remark.clone());
        let r = ChangeForm { fields, pwd_ok };
        proof {
            assert(password@ == match outcome(read) {
                Ok(p) => p,
                Err(_) => Seq::empty(),
            });
            assert(r@.fields == change_start(*rec, outcome(read)).fields);
        }
        r
    }

    /// The form for a record of a vault.
    pub fn open(vault: &Vault, rec: &Record) -> (r: ChangeForm)
        ensures
            r@ == change_start(*rec, decrypted(vault.key(), rec.password_blob@)),
            r@.fields.len() == FIELD_COUNT,
    {
        ChangeForm::start(rec, vault.decrypt(rec.password_blob.as_str()))
    }

    /// The lines of the form.
    pub fn lines(&self, position: usize) -> (r: Vec<String>)
        requires
            self@.fields.len() == FIELD_COUNT,
        ensures
            views(r@) == change_lines(self@, position as nat),
    {
        let mut title = "--- 修改记录 #".to_owned();
        title.append(decimal_text(position).as_str());
        title.append("（选择字段编号，可连续修改）---");
        let mut out: Vec<String> = Vec::new();
        out.push("".to_owned());
        out.push(title);
        let ghost head = views(out@);
        let ghost rows = field_lines(self@.fields);
        assert(rows.take(0) == Seq::<Seq<char>>::empty());
        let mut i: usize = 0;
        while i < FIELD_COUNT
            invariant
                i <= FIELD_COUNT,
                self@.fields.len() == FIELD_COUNT,
                rows == field_lines(self@.fields),
                views(out@) == head + rows.take(i as int),
            decreases FIELD_COUNT - i,
        {
            let ghost before = views(out@);
            assert(self@.fields[i as int] == self.fields@[i as int]@);
            let mut line = "[".to_owned();
            line.append(decimal_text(i).as_str());
            line.append("] ");
            line.append(field_name(i));
            line.append("：");
            line.append(self.fields[i].as_str());
            assert(rows.take(i + 1) == rows.take(i as int).push(line@));
            out.push(line);
            assert(views(out@) == before.push(line@));
            i += 1;
        }
        assert(rows.take(FIELD_COUNT as int) == rows);
        let ghost before = views(out@);
        out.push("[X] 保存并退出 / [Q] 取消".to_owned());
        assert(views(out@) == before.push("[X] 保存并退出 / [Q] 取消"@));
        assert(views(out@) == change_lines(self@, position as nat));
        out
    }

    /// What an entered text does.
    pub fn pick(&self, text: &str) -> (r: ChangeChoice)
        requires
            self@.fields.len() == FIELD_COUNT,
        ensures
            r == change_choice(self@, text@),
    {
        let lower = to_ascii_lower(entered(text).as_str());
        let lower = lower.as_str();
        if same(lower, "x") || lower.is_empty() {
            assert(self@.fields[PASSWORD_FIELD as int] == self.fields@[PASSWORD_FIELD as int]@);
            if !self.pwd_ok && self.fields[PASSWORD_FIELD].as_str().is_empty() {
                return ChangeChoice::ConfirmSave;
            }
            return ChangeChoice::Save;
        }
        if same(lower, "q") {
            return ChangeChoice::Cancel;
        }
        match parse_number(lower) {
            Some(n) => {
                if n >= FIELD_COUNT {
                    ChangeChoice::OutOfRange
                } else if n == PASSWORD_FIELD {
                    ChangeChoice::Password
                } else {
                    ChangeChoice::Field(n)
                }
            },
            None => ChangeChoice::Unknown,
        }
    }

    /// The prompt for a new value of a field.
    pub fn label(&self, i: usize) -> (r: String)
        requires
            self@.fields.len() == FIELD_COUNT,
            i < FIELD_COUNT,
        ensures
            r@ == "新"@ + field_names()[i as int] + "（当前："@ + self@.fields[i as int] + "）"@,
    {
        let mut out = "新".to_owned();
        out.append(field_name(i));
        out.append("（当前：");
        out.append(self.fields[i].as_str());
        out.append("）");
        out
    }

    /// Sets a new password.
    pub fn set_password(&mut self, password: String)
        requires
            old(self)@.fields.len() == FIELD_COUNT,
        ensures
            final(self)@ == (ChangeView {
                fields: old(self)@.fields.update(PASSWORD_FIELD as int, password@),
                pwd_ok: true,
            }),
    {
        let ghost before = self@.fields;
        self.fields.set(PASSWORD_FIELD, password);
        self.pwd_ok = true;
        assert(self@.fields == before.update(PASSWORD_FIELD as int, password@));
    }

    /// Sets a new value of a field.
    pub fn set_field(&mut self, i: usize, value: &str)
        requires
            old(self)@.fields.len() == FIELD_COUNT,
            i < FIELD_COUNT,
        ensures
            final(self)@ == (ChangeView {
                fields: old(self)@.fields.update(i as int, entered_text(value@)),
                ..old(self)@
            }),
    {
        let ghost before = self@.fields;
        let text = entered(value);
        self.fields.set(i, text);
        assert(self@.fields == before.update(i as int, text@));
    }

    /// The entry to be saved.
    pub fn entry(&self) -> (r: RecordIn)
        requires
            self@.fields.len() == FIELD_COUNT,
        ensures
            holds_fields(r, self@.fields),
    {
        entry_of(&self.fields)
    }
}

/// A password that cannot be decrypted is never replaced by an empty one
/// without a question.
pub proof fn law_no_silent_loss(rec: Record, fault: Fault, text: Seq<char>)
    ensures
        change_choice(change_start(rec, Err(fault)), text) != ChangeChoice::Save,
{
}

/// A form in which nothing is changed saves the record as it was.
pub proof fn law_unchanged_entry(rec: Record, password: Seq<char>, r: RecordIn)
    requires
        holds_fields(r, change_start(rec, Ok(password)).fields),
    ensures
        r.app_name@ == rec.app_name@,
        r.nick_name@ == rec.nick_name@,
        r.user_name@ == rec.user_name@,
        r.user_id@ == rec.user_id@,
        r.password@ == password,
        r.voucher@ == rec.voucher@,
        r.register@ == rec.register@,
        r.remark@ == rec.remark@,
{
}

/// The form for a stored record holds what was entered, without white space
/// around the texts; saved unchanged, the same texts and the same password are
/// stored again.
pub proof fn law_stored_reads_back(rec: Record, r: RecordIn, key: Seq<u8>)
    requires
        rec.stores(r, key),
    ensures
        ({
            let form = change_start(rec, decrypted(key, rec.password_blob@));
            &&& form.pwd_ok
            &&& form.fields == seq![
                trimmed(r.app_name@),
                trimmed(r.nick_name@),
                trimmed(r.user_name@),
                trimmed(r.user_id@),
                r.password@,
                trimmed(r.voucher@),
                trimmed(r.register@),
                trimmed(r.remark@),
            ]
            &&& forall|i: int|
                0 <= i < FIELD_COUNT && i != PASSWORD_FIELD ==> trimmed(#[trigger] form.fields[i])
                    == form.fields[i]
        }),
{
    law_trimmed_idempotent(r.app_name@);
    law_trimmed_idempotent(r.nick_name@);
    law_trimmed_idempotent(r.user_name@);
    law_trimmed_idempotent(r.user_id@);
    law_trimmed_idempotent(r.voucher@);
    law_trimmed_idempotent(r.register@);
    law_trimmed_idempotent(r.remark@);
}

/// The items from which a record is chosen.
pub open spec fn record_items(records: Seq<Record>) -> Seq<Seq<char>> {
    Seq::new(
        records.len(),
        |i: int| "["@ + decimal((i + 1) as nat) + "] "@ + records[i].app_name@,
    )
}

/// Writes the items from which a record is chosen.
pub fn select_items(records: &Vec<Record>) -> (r: Vec<String>)
    ensures
        views(r@) == record_items(records@),
{
    let mut out: Vec<String> = Vec::new();
    let ghost items = record_items(records@);
    assert(views(out@) == items.take(0));
    let mut i: usize = 0;
    while i < records.len()
        invariant
            i <= records@.len(),
            items == record_items(records@),
            views(out@) == items.take(i as int),
        decreases records@.len() - i,
    {
        let ghost before = views(out@);
        let mut line = "[".to_owned();
        line.append(decimal_text(i + 1).as_str());
        line.append("] ");
        line.append(records[i].app_name.as_str());
        assert(items.take(i + 1) == items.take(i as int).push(line@));
        out.push(line);
        assert(views(out@) == before.push(line@));
        i += 1;
    }
    assert(items.take(records@.len() as int) == items);
    out
}

/// The question asked before a record is deleted.
pub fn delete_prompt(position: usize, name: &str) -> (r: String)
    ensures
        r@ == "确定删除 ["@ + decimal(position as nat) + "] "@ + name@
            + "？此操作不可撤销（回车=否，输入 y 确认）"@,
{
    let mut out = "确定删除 [".to_owned();
    out.append(decimal_text(position).as_str());
    out.append("] ");
    out.append(name);
    out.append("？此操作不可撤销（回车=否，输入 y 确认）");
    out
}

/// A password that is shown stands as it is in its line; a hidden one has one
/// dot for each character.
pub proof fn law_password_line(shown: Seq<char>)
    ensures
        password_line(shown, true) == shown,
        password_line(shown, false).take(shown.len() as int) == Seq::new(
            shown.len(),
            |i: int| '•',
        ),
{
    reveal_strlit("•");
    assert("•"@ == seq!['•']);
    law_repeated_character('•', shown.len());
    assert(password_line(shown, false).take(shown.len() as int) == Seq::new(
        shown.len(),
        |i: int| '•',
    ));
}

/// A text put behind a label ends the line.
proof fn label_before(label: Seq<char>, value: Seq<char>)
    ensures
        value.is_suffix_of(label + value),
{
    assert((label + value).skip(label.len() as int) == value);
}

/// Each line of a record ends with the whole of its field; a decrypted
/// password that is shown ends its line.
pub proof fn law_lines_show_fields(
    rec: Record,
    password: String,
    reveal: bool,
    lines: Seq<Seq<char>>,
)
    requires
        prints_record(rec, Ok(password), reveal, lines),
    ensures
        lines.len() == 9,
        rec.app_name@.is_suffix_of(lines[0]),
        rec.nick_name@.is_suffix_of(lines[1]),
        rec.user_name@.is_suffix_of(lines[2]),
        rec.user_id@.is_suffix_of(lines[3]),
        reveal ==> password@.is_suffix_of(lines[4]),
        rec.voucher@.is_suffix_of(lines[5]),
        rec.register@.is_suffix_of(lines[6]),
        rec.remark@.is_suffix_of(lines[7]),
        rec.stamp@.is_suffix_of(lines[8]),
{
    label_before("应用名称："@, rec.app_name@);
    label_before("昵称："@, rec.nick_name@);
    label_before("用户名："@, rec.user_name@);
    label_before("ID："@, rec.user_id@);
    label_before("密码："@, password@);
    label_before("凭证应用："@, rec.voucher@);
    label_before("注册凭证："@, rec.register@);
    label_before("备注："@, rec.remark@);
    label_before("最后修改："@, rec.stamp@);
}

/// The page of a record holds all of its lines, in their order.
pub proof fn law_page_holds_lines(rec: Record, position: nat, lines: Seq<Seq<char>>, i: int)
    requires
        0 <= i < lines.len(),
    ensures
        page_lines(rec, position, lines).len() == lines.len() + 3,
        page_lines(rec, position, lines)[2 + i] == lines[i],
{
}

/// A letter, in either case and with white space round it, makes its choice on
/// the page of a record; nothing entered goes back, and all else is unknown.
pub proof fn law_record_choices(text: Seq<char>)
    ensures
        ({
            let t = entered_text(text);
            let c = record_choice(text);
            &&& c == RecordChoice::Back <==> t.len() == 0
            &&& c == RecordChoice::Toggle <==> t.len() == 1 && (t[0] == 'v' || t[0] == 'V')
            &&& c == RecordChoice::Copy <==> t.len() == 1 && (t[0] == 'c' || t[0] == 'C')
            &&& c == RecordChoice::Modify <==> t.len() == 1 && (t[0] == 'm' || t[0] == 'M')
            &&& c == RecordChoice::Delete <==> t.len() == 1 && (t[0] == 'd' || t[0] == 'D')
        }),
{
    reveal_strlit("v");
    reveal_strlit("c");
    reveal_strlit("m");
    reveal_strlit("d");
    let t = entered_text(text);
    let lower = ascii_lowered(t);
    assert(lower.len() == t.len());
    assert("v"@ == seq!['v'] && "c"@ == seq!['c'] && "m"@ == seq!['m'] && "d"@ == seq!['d']);
    assert("v"@[0] == 'v' && "c"@[0] == 'c' && "m"@[0] == 'm' && "d"@[0] == 'd');
    if t.len() == 1 {
        law_ascii_lowered_each(t, 0);
        assert(lower == seq![lower[0]]);
    }
}

/// In the form for changing a record, a number chooses the field it counts,
/// and a number that no field has is out of range.
pub proof fn law_change_by_number(v: ChangeView, n: nat)
    requires
        n <= usize::MAX,
    ensures
        n == 4 ==> change_choice(v, decimal(n)) == ChangeChoice::Password,
        n < 8 && n != 4 ==> change_choice(v, decimal(n)) == ChangeChoice::Field(n as usize),
        n >= 8 ==> change_choice(v, decimal(n)) == ChangeChoice::OutOfRange,
{
    let d = decimal(n);
    law_decimal_shortest(n);
    law_decimal_reads_back(n);
    law_limited(d);
    decimal_length(n);
    no_space_in_digits(d);
    assert(trimmed(d) == d);
    let lower = ascii_lowered(d);
    assert forall|i: int| 0 <= i < d.len() implies lower[i] == d[i] by {
        law_ascii_lowered_each(d, i);
    }
    assert(lower == d);
    reveal_strlit("x");
    reveal_strlit("q");
    assert(is_digit(d[0]));
    assert("x"@[0] == 'x' && "q"@[0] == 'q');
}

/// The numeral of a machine number has at most twenty digits.
proof fn decimal_length(n: nat)
    requires
        n <= usize::MAX,
    ensures
        decimal(n).len() <= 20,
{
    let most: nat = 18_446_744_073_709_551_615;
    decimal_grows(n, most);
    reveal_with_fuel(decimal, 21);
    assert(decimal(most).len() == 20);
}

/// A larger number has no shorter numeral.
proof fn decimal_grows(m: nat, n: nat)
    requires
        m <= n,
    ensures
        decimal(m).len() <= decimal(n).len(),
    decreases n,
{
    if m >= 10 {
        decimal_grows(m / 10, n / 10);
    }
}

/// Digits stay as they are when white space is taken off.
proof fn no_space_in_digits(s: Seq<char>)
    requires
        all_digits(s),
    ensures
        trimmed(s) == s,
{
    if s.len() > 0 {
        assert(is_digit(s[0]));
        assert(is_digit(s[s.len() - 1]));
        assert(trimmed_start(s) == s);
        assert(trimmed_end(s) == s);
    }
}

/// In the form for changing a record, `x` or nothing saves, unless that would
/// put an empty password in the place of one that cannot be decrypted; `q`
/// cancels.
pub proof fn law_change_words(v: ChangeView, text: Seq<char>)
    ensures
        ({
            let t = entered_text(text);
            let c = change_choice(v, text);
            &&& t.len() == 0 || (t.len() == 1 && (t[0] == 'x' || t[0] == 'X')) <==> c
                == ChangeChoice::Save || c == ChangeChoice::ConfirmSave
            &&& c == ChangeChoice::ConfirmSave ==> !v.pwd_ok && v.fields[4].len() == 0
            &&& c == ChangeChoice::Save ==> v.pwd_ok || v.fields[4].len() > 0
            &&& c == ChangeChoice::Cancel <==> t.len() == 1 && (t[0] == 'q' || t[0] == 'Q')
        }),
{
    reveal_strlit("x");
    reveal_strlit("q");
    let t = entered_text(text);
    let lower = ascii_lowered(t);
    assert(lower.len() == t.len());
    assert("x"@ == seq!['x'] && "q"@ == seq!['q']);
    assert("x"@[0] == 'x' && "q"@[0] == 'q');
    if t.len() == 1 {
        law_ascii_lowered_each(t, 0);
        assert(lower == seq![lower[0]]);
    }
}

/// Answers fill in the fields in their order: each as it was entered, the
/// password whole and the others without white space at either end.
pub proof fn law_answers_fill_fields(answers: Seq<Seq<char>>)
    requires
        answers.len() <= 8,
        answers.len() > 0 ==> entered_text(answers[0]).len() > 0,
        answers.len() > 4 ==> answers[4].len() > 0,
    ensures
        add_after(answers).len() == answers.len(),
        forall|i: int|
            0 <= i < answers.len() && i != 4 ==> #[trigger] add_after(answers)[i] == entered_text(
                answers[i],
            ),
        answers.len() > 4 ==> add_after(answers)[4] == answers[4],
    decreases answers.len(),
{
    if answers.len() > 0 {
        let less = answers.drop_last();
        law_answers_fill_fields(less);
        assert forall|i: int| 0 <= i < answers.len() && i != 4 implies #[trigger] add_after(
            answers,
        )[i] == entered_text(answers[i]) by {
            if i < less.len() {
                assert(add_after(answers)[i] == add_after(less)[i]);
            }
        }
    }
}

/// An empty name or an empty password is asked for again, and nothing of the
/// form changes.
pub proof fn law_required_fields(filled: Seq<Seq<char>>, answer: Seq<char>)
    ensures
        filled.len() == 0 && trimmed(answer).len() == 0 && answer.len() <= 200 ==> add_next(
            filled,
            answer,
        ).0 == filled && add_next(filled, answer).1 is Some,
        filled.len() == 4 && answer.len() == 0 ==> add_next(filled, answer).0 == filled && add_next(
            filled,
            answer,
        ).1 is Some,
        filled.len() < 8 && filled.len() != 0 && filled.len() != 4 ==> add_next(filled, answer).0
            == filled.push(entered_text(answer)) && add_next(filled, answer).1 is None,
        filled.len() >= 8 ==> add_next(filled, answer).0 == filled,
        add_prompt(filled.len()) is None <==> filled.len() >= 8,
{
    law_limited(answer);
}

/// The form for changing a record shows each field whole, behind its number
/// and its name.
pub proof fn law_form_shows_fields(v: ChangeView, position: nat, i: int)
    requires
        0 <= i < 8,
    ensures
        change_lines(v, position).len() == 11,
        v.fields[i].is_suffix_of(change_lines(v, position)[2 + i]),
        change_lines(v, position)[2 + i][1] as int == 48 + i,
{
    reveal_strlit("[");
    let line = change_lines(v, position)[2 + i];
    let label = "["@ + decimal(i as nat) + "] "@ + field_names()[i] + "："@;
    assert(line == label + v.fields[i]);
    label_before(label, v.fields[i]);
    assert(decimal(i as nat) == seq![digit(i as nat)]);
    assert(line[1] == digit(i as nat));
}

/// Each record has its item, which ends with its whole name; the numeral in it
/// is its place counted from one.
pub proof fn law_items_show_records(records: Seq<Record>, i: int)
    requires
        0 <= i < records.len(),
    ensures
        record_items(records).len() == records.len(),
        records[i].app_name@.is_suffix_of(record_items(records)[i]),
        exists|n: Seq<char>| #[trigger]
            all_digits(n) && digits_value(n) == i + 1 && record_items(records)[i] == "["@ + n
                + "] "@ + records[i].app_name@,
{
    let n = decimal((i + 1) as nat);
    law_decimal_shortest((i + 1) as nat);
    law_decimal_reads_back((i + 1) as nat);
    assert(all_digits(n));
    label_before("["@ + n + "] "@, records[i].app_name@);
}

/// The password that is copied is the one that decrypts, whole; where none
/// does, the reason is given.
pub proof fn law_copied_password(vault: &Vault, rec: &Record, r: Result<String, String>)
    requires
        call_ensures(copy_password, (vault, rec), r),
    ensures
        match decrypted(vault.key(), rec.password_blob@) {
            Ok(p) => r matches Ok(s) && s@ == p,
            Err(_) => r is Err,
        },
{
}

/// The message for a record that was added, and the question asked before one
/// is deleted, hold its whole name.
pub proof fn law_messages_hold_name(name: &str, position: usize, added: String, asked: String)
    requires
        call_ensures(added_message, (name,), added),
        call_ensures(delete_prompt, (position, name), asked),
    ensures
        exists|a: Seq<char>, b: Seq<char>| added@ == #[trigger] ((a + name@) + b) && b.len() > 0,
        exists|a: Seq<char>, b: Seq<char>| asked@ == #[trigger] ((a + name@) + b) && b.len() > 0,
{
    reveal_strlit("」，回车可继续其他操作");
    reveal_strlit("？此操作不可撤销（回车=否，输入 y 确认）");
    let a = "已添加「"@;
    assert(added@ == (a + name@) + "」，回车可继续其他操作"@);
    let c = "确定删除 ["@ + decimal(position as nat) + "] "@;
    assert(asked@ == (c + name@) + "？此操作不可撤销（回车=否，输入 y 确认）"@);
}

/// The fields of a record stand in the order of their names.
pub proof fn law_fields_in_order(rec: Record, pwd: Result<Seq<char>, Fault>)
    ensures
        change_start(rec, pwd).fields.len() == field_names().len(),
        change_start(rec, pwd).fields[0] == rec.app_name@,
        change_start(rec, pwd).fields[7] == rec.remark@,
        pwd matches Ok(p) ==> change_start(rec, pwd).fields[4] == p,
        pwd is Err ==> change_start(rec, pwd).fields[4].len() == 0,
        change_start(rec, pwd).pwd_ok <==> pwd is Ok,
{
}

/// The title of the page of a record tells its place and its whole name.
pub proof fn law_page_title(rec: Record, position: nat, lines: Seq<Seq<char>>)
    ensures
        exists|n: Seq<char>| #[trigger]
            all_digits(n) && digits_value(n) == position && page_lines(rec, position, lines)[1]
                == "========== 记录 #"@ + n + "（"@ + rec.app_name@ + "）=========="@,
{
    law_decimal_shortest(position);
    law_decimal_reads_back(position);
    assert(all_digits(decimal(position)));
}

} // verus!
