//! The stored side of the vault: the `meta` table with its wrapped keys, the
//! rows of the `records` table, and what unlocking, recovering, listing and
//! searching make of them.
//!
//! The table `meta` holds the wrapped vault key once for the master password
//! and once for each recovery path, with the salts and the security questions.
//! The table `records` holds the records; their passwords are encrypted.
use crate::b64::encoded;
use crate::crypto::{
    self, decrypted, derivation, drawn, encryptable, freshly_encrypted, freshly_wrapped,
    generate_salt, is_encryption, is_wrapping, law_unwrapping_right, machine_code, machine_read,
    outcome, ran_out_of_memory, unwrap_key, unwrapped, unwrapping_gave, wrap_key, CryptoError,
    Fault, VaultKey,
};
use crate::sort::{
    fuzzy, fuzzy_matches, group_of, key_before, key_le, key_of, law_fuzzy_ignores_outer_space,
    law_fuzzy_reflexive, law_key_order, sort_key,
};
use crate::text::{
    all_digits, decimal, decimal_text, digits_value, holds, is_digit, law_decimal_injective,
    law_decimal_reads_back, law_decimal_shortest, law_holds_between, same, trimmed,
};
use vstd::prelude::*;
use vstd::seq_lib::*;
use vstd::set_lib::*;
use vstd::string::*;
use vstd::utf8::*;

verus! {

/// The name of the database file.
pub const DB_FILE: &'static str = "pswd.db";

pub const META_MASTER_SALT: &'static str = "master_salt";

pub const META_MASTER_WRAPPED: &'static str = "master_wrapped";

pub const META_MACHINE_SALT: &'static str = "machine_salt";

pub const META_MACHINE_WRAPPED: &'static str = "machine_wrapped";

pub const META_DISPLAY_MODE: &'static str = "display_mode";

/// How the main list is shown.
#[derive(Debug, Clone, Copy, PartialEq, Eq, Structural)]
pub enum DisplayMode {
    /// Page by page.
    Paged,
    /// All at once.
    Full,
}

/// The stored text of a display mode.
pub open spec fn mode_text(mode: DisplayMode) -> Seq<char> {
    match mode {
        DisplayMode::Paged => "paged"@,
        DisplayMode::Full => "full"@,
    }
}

/// The display mode that a stored text stands for.
pub open spec fn mode_of(s: Seq<char>) -> DisplayMode {
    if s == "full"@ {
        DisplayMode::Full
    } else {
        DisplayMode::Paged
    }
}

impl DisplayMode {
    pub fn as_str(&self) -> (r: &'static str)
        ensures
            r@ == mode_text(*self),
    {
        match self {
            DisplayMode::Paged => "paged",
            DisplayMode::Full => "full",
        }
    }

    /// The mode of a stored text; one that is not known is taken as paged.
    pub fn from_key(s: &str) -> (r: DisplayMode)
        ensures
            r == mode_of(s@),
    {
        if same(s, "full") {
            DisplayMode::Full
        } else {
            DisplayMode::Paged
        }
    }
}

/// Reading the stored text of a display mode gives the mode back.
pub proof fn law_mode_reads_back(mode: DisplayMode)
    ensures
        mode_of(mode_text(mode)) == mode,
{
    reveal_strlit("paged");
    reveal_strlit("full");
    assert("paged"@.len() == 5);
    assert("full"@.len() == 4);
}

/// The recovery paths chosen when a vault is set up.
pub struct RecoveryOpts {
    pub machine_binding: bool,
    /// Questions and their answers.
    pub qa_pairs: Vec<(String, String)>,
}

/// Why a vault was not unlocked.
#[derive(Debug)]
pub enum UnlockError {
    /// The credential is wrong, or the data is damaged.
    WrongCredential,
    /// The recovery path was not set up.
    NotConfigured,
    Db(String),
}

/// The message of an unlocking error.
pub open spec fn unlock_message(e: UnlockError) -> Seq<char> {
    match e {
        UnlockError::WrongCredential => "凭据错误或数据损坏"@,
        UnlockError::NotConfigured => "该恢复路径未配置"@,
        UnlockError::Db(why) => "数据库错误："@ + why@,
    }
}

impl UnlockError {
    /// The message of this error.
    pub fn message(&self) -> (r: String)
        ensures
            r@ == unlock_message(*self),
    {
        match self {
            UnlockError::WrongCredential => "凭据错误或数据损坏".to_owned(),
            UnlockError::NotConfigured => "该恢复路径未配置".to_owned(),
            UnlockError::Db(why) => {
                let mut out = "数据库错误：".to_owned();
                out.append(why.as_str());
                out
            },
        }
    }
}

/// A record as it is entered.
pub struct RecordIn {
    pub app_name: String,
    pub nick_name: String,
    pub user_name: String,
    pub user_id: String,
    pub password: String,
    pub voucher: String,
    pub register: String,
    pub remark: String,
}

/// A stored record; the password is encrypted.
pub struct Record {
    pub id: i64,
    pub app_name: String,
    pub nick_name: String,
    pub user_name: String,
    pub user_id: String,
    pub voucher: String,
    pub register: String,
    pub remark: String,
    pub password_blob: String,
    pub stamp: String,
}

/// A record ready to be stored, before the database gives it an id.
pub struct NewRecord {
    pub app_name: String,
    pub nick_name: String,
    pub user_name: String,
    pub user_id: String,
    pub voucher: String,
    pub register: String,
    pub remark: String,
    pub password_blob: String,
    pub stamp: String,
}

impl Record {
    /// The texts of the record, without its id and password.
    pub fn fields(&self) -> (r: [&str; 8])
        ensures
            r[0]@ == self.app_name@,
            r[1]@ == self.nick_name@,
            r[2]@ == self.user_name@,
            r[3]@ == self.user_id@,
            r[4]@ == self.voucher@,
            r[5]@ == self.register@,
            r[6]@ == self.remark@,
            r[7]@ == self.stamp@,
    {
        [
            self.app_name.as_str(),
            self.nick_name.as_str(),
            self.user_name.as_str(),
            self.user_id.as_str(),
            self.voucher.as_str(),
            self.register.as_str(),
            self.remark.as_str(),
            self.stamp.as_str(),
        ]
    }
}

/// The values that a list of writes leaves in the table `meta`: a later write
/// of a key replaces an earlier one.
pub open spec fn table(writes: Seq<(String, String)>) -> Map<Seq<char>, Seq<char>>
    decreases writes.len(),
{
    if writes.len() == 0 {
        Map::empty()
    } else {
        table(writes.drop_last()).insert(writes.last().0@, writes.last().1@)
    }
}

/// A table after further writes.
pub open spec fn applied(
    m: Map<Seq<char>, Seq<char>>,
    writes: Seq<(String, String)>,
) -> Map<Seq<char>, Seq<char>>
    decreases writes.len(),
{
    if writes.len() == 0 {
        m
    } else {
        applied(m, writes.drop_last()).insert(writes.last().0@, writes.last().1@)
    }
}

/// A table that holds the first writes of a log needs only the writes after
/// them to hold all of it.
pub proof fn law_later_writes_suffice(log: Seq<(String, String)>, n: int)
    requires
        0 <= n <= log.len(),
    ensures
        applied(table(log.take(n)), log.skip(n)) == table(log),
    decreases log.len() - n,
{
    if n == log.len() {
        assert(log.take(n) == log);
    } else {
        let rest = log.skip(n);
        let less = log.drop_last();
        law_later_writes_suffice(less, n);
        assert(less.take(n) == log.take(n));
        assert(less.skip(n) == rest.drop_last());
        assert(rest.last() == log.last());
    }
}

/// Whether `longer` starts with all of `log`.
pub open spec fn extends(longer: Seq<(String, String)>, log: Seq<(String, String)>) -> bool {
    log.len() <= longer.len() && longer.take(log.len() as int) == log
}

/// A log that is extended by a write still starts with what it started with.
proof fn extends_further(
    next: Seq<(String, String)>,
    longer: Seq<(String, String)>,
    log: Seq<(String, String)>,
)
    requires
        extends(longer, log),
        next.len() == longer.len() + 1,
        next.drop_last() == longer,
    ensures
        extends(next, log),
{
    assert(next.take(log.len() as int) == longer.take(log.len() as int));
}

/// The table `meta` as the list of the writes made to it.
pub struct Meta {
    writes: Vec<(String, String)>,
}

impl View for Meta {
    type V = Map<Seq<char>, Seq<char>>;

    closed spec fn view(&self) -> Map<Seq<char>, Seq<char>> {
        table(self.writes@)
    }
}

impl Meta {
    /// The writes in the order in which they were made.
    pub closed spec fn log(&self) -> Seq<(String, String)> {
        self.writes@
    }

    /// An empty table.
    pub fn new() -> (r: Meta)
        ensures
            r@ == Map::<Seq<char>, Seq<char>>::empty(),
            r.log().len() == 0,
    {
        Meta { writes: Vec::new() }
    }

    /// A table with the same writes.
    pub fn copy(&self) -> (r: Meta)
        ensures
            r@ == self@,
            r.log() == self.log(),
    {
        let mut writes: Vec<(String, String)> = Vec::new();
        let mut i: usize = 0;
        while i < self.writes.len()
            invariant
                i <= self.writes@.len(),
                writes@ == self.writes@.take(i as int),
            decreases self.writes@.len() - i,
        {
            let w = &self.writes[i];
            writes.push((w.0.clone(), w.1.clone()));
            assert(self.writes@.take(i + 1) == self.writes@.take(i as int).push(
                self.writes@[i as int],
            ));
            i += 1;
        }
        assert(self.writes@.take(self.writes@.len() as int) == self.writes@);
        Meta { writes }
    }

    /// The writes in the order in which they were made.
    pub fn writes(&self) -> (r: &Vec<(String, String)>)
        ensures
            r@ == self.log(),
            table(r@) == self@,
    {
        &self.writes
    }
}

/// Sets a key, whether it was set before or not.
pub fn set_meta(meta: &mut Meta, key: &str, value: &str)
    ensures
        final(meta)@ == old(meta)@.insert(key@, value@),
        final(meta).log().len() == old(meta).log().len() + 1,
        final(meta).log().drop_last() == old(meta).log(),
        final(meta).log().last().0@ == key@,
        final(meta).log().last().1@ == value@,
{
    let ghost before = meta.writes@;
    meta.writes.push((key.to_owned(), value.to_owned()));
    assert(meta.writes@.drop_last() == before);
}

/// The value of a key, if it is set.
pub fn get_meta(meta: &Meta, key: &str) -> (r: Option<String>)
    ensures
        match r {
            Some(v) => meta@.contains_key(key@) && v@ == meta@[key@],
            None => !meta@.contains_key(key@),
        },
{
    let writes = &meta.writes;
    let mut i: usize = writes.len();
    assert(writes@.take(i as int) == writes@);
    while i > 0
        invariant
            writes@ == meta.writes@,
            i <= writes@.len(),
            table(writes@).contains_key(key@) == table(writes@.take(i as int)).contains_key(key@),
            table(writes@).contains_key(key@) ==> table(writes@)[key@] == table(
                writes@.take(i as int),
            )[key@],
        decreases i,
    {
        i -= 1;
        assert(writes@.take(i + 1).drop_last() == writes@.take(i as int));
        if same(writes[i].0.as_str(), key) {
            return Some(writes[i].1.clone());
        }
    }
    None
}

/// The key of the `i`-th security question, salt or wrapped key.
pub open spec fn qa_key(i: nat, part: Seq<char>) -> Seq<char> {
    "qa_"@ + decimal(i) + part
}

/// Writes the key of the `i`-th security question, salt or wrapped key.
pub fn qa_key_text(i: usize, part: &str) -> (r: String)
    ensures
        r@ == qa_key(i as nat, part@),
{
    let mut out = "qa_".to_owned();
    out.append(decimal_text(i).as_str());
    out.append(part);
    out
}

/// Whether `part` ends a key of the security questions.
pub open spec fn qa_part(part: Seq<char>) -> bool {
    part == "_question"@ || part == "_salt"@ || part == "_wrapped"@
}

/// Keys of the security questions differ where their numbers or their parts
/// differ.
pub proof fn law_qa_keys_distinct(i: nat, p: Seq<char>, j: nat, q: Seq<char>)
    requires
        qa_part(p),
        qa_part(q),
        qa_key(i, p) == qa_key(j, q),
    ensures
        i == j,
        p == q,
{
    reveal_strlit("qa_");
    reveal_strlit("_question");
    reveal_strlit("_salt");
    reveal_strlit("_wrapped");
    let a = qa_key(i, p);
    let b = qa_key(j, q);
    assert(p.len() > 0 && q.len() > 0);
    assert(a.last() == p.last());
    assert(b.last() == q.last());
    assert("_question"@.last() == 'n');
    assert("_salt"@.last() == 't');
    assert("_wrapped"@.last() == 'd');
    assert(p == q);
    assert(a.len() == 3 + decimal(i).len() + p.len());
    assert(b.len() == 3 + decimal(j).len() + q.len());
    assert(a.subrange(3, (3 + decimal(i).len()) as int) == decimal(i));
    assert(b.subrange(3, (3 + decimal(j).len()) as int) == decimal(j));
    law_decimal_injective(i, j);
}

/// The keys of the security questions differ from all other keys.
pub proof fn law_qa_keys_apart(i: nat, p: Seq<char>)
    requires
        qa_part(p),
    ensures
        qa_key(i, p) != META_MASTER_SALT@,
        qa_key(i, p) != META_MASTER_WRAPPED@,
        qa_key(i, p) != META_MACHINE_SALT@,
        qa_key(i, p) != META_MACHINE_WRAPPED@,
        qa_key(i, p) != META_DISPLAY_MODE@,
{
    reveal_strlit("qa_");
    reveal_strlit("master_salt");
    reveal_strlit("master_wrapped");
    reveal_strlit("machine_salt");
    reveal_strlit("machine_wrapped");
    reveal_strlit("display_mode");
    assert(qa_key(i, p)[0] == 'q');
    assert("master_salt"@[0] == 'm');
    assert("master_wrapped"@[0] == 'm');
    assert("machine_salt"@[0] == 'm');
    assert("machine_wrapped"@[0] == 'm');
    assert("display_mode"@[0] == 'd');
}

/// The keys with fixed names differ from one another.
pub proof fn law_fixed_keys_distinct()
    ensures
        META_MASTER_SALT@ != META_MASTER_WRAPPED@,
        META_MASTER_SALT@ != META_MACHINE_SALT@,
        META_MASTER_SALT@ != META_MACHINE_WRAPPED@,
        META_MASTER_SALT@ != META_DISPLAY_MODE@,
        META_MASTER_WRAPPED@ != META_MACHINE_SALT@,
        META_MASTER_WRAPPED@ != META_MACHINE_WRAPPED@,
        META_MASTER_WRAPPED@ != META_DISPLAY_MODE@,
        META_MACHINE_SALT@ != META_MACHINE_WRAPPED@,
        META_MACHINE_SALT@ != META_DISPLAY_MODE@,
        META_MACHINE_WRAPPED@ != META_DISPLAY_MODE@,
{
    reveal_strlit("master_salt");
    reveal_strlit("master_wrapped");
    reveal_strlit("machine_salt");
    reveal_strlit("machine_wrapped");
    reveal_strlit("display_mode");
    assert("master_salt"@.len() == 11);
    assert("master_wrapped"@.len() == 14);
    assert("machine_salt"@.len() == 12);
    assert("machine_wrapped"@.len() == 15);
    assert("display_mode"@.len() == 12);
    assert("machine_salt"@[0] == 'm');
    assert("display_mode"@[0] == 'd');
}

/// Whether a table holds the vault key wrapped under a secret, with its salt:
/// unwrapping under the secret gives the key.
pub open spec fn holds_wrapping(
    m: Map<Seq<char>, Seq<char>>,
    salt_key: Seq<char>,
    wrapped_key: Seq<char>,
    secret: Seq<char>,
    key: Seq<u8>,
) -> bool {
    &&& m.contains_key(salt_key)
    &&& m.contains_key(wrapped_key)
    &&& salted_wrapping(m[salt_key], m[wrapped_key], secret, key)
    &&& unwrapped(encode_utf8(secret), m[wrapped_key]) == Ok::<Seq<u8>, Fault>(key)
}

/// Whether `salt_text` is the Base64 form of a salt under which `wrapped`
/// wraps the key.
pub open spec fn salted_wrapping(
    salt_text: Seq<char>,
    wrapped: Seq<char>,
    secret: Seq<char>,
    key: Seq<u8>,
) -> bool {
    exists|salt: Seq<u8>|
        salt.len() == crypto::SALT_LEN && salt_text == encoded(salt) && #[trigger] is_wrapping(
            encode_utf8(secret),
            key,
            salt,
            wrapped,
        )
}

/// Whether `fault` tells why no key was derived from a secret under a salt of
/// the usual length: for want of memory, unless the secret is too long.
pub open spec fn secret_refused(secret: Seq<char>, fault: Fault) -> bool {
    fault matches Fault::Argon2 { no_memory } && (encode_utf8(secret).len() <= 0xffff_ffff
        ==> no_memory)
}

/// Whether wrapping the vault key under a secret came to `r` with a drawn salt:
/// it gave the text of that salt and a wrapping under it with a drawn nonce,
/// or it failed as the derivation made for it did.
pub open spec fn wrapping_attempt(
    secret: Seq<char>,
    key: Seq<u8>,
    r: Result<(String, String), CryptoError>,
) -> bool {
    exists|salt: Seq<u8>| #[trigger]
        drawn(salt) && salt.len() == crypto::SALT_LEN && wrapping_under(salt, secret, key, r)
}

/// Whether wrapping the vault key under a secret and a salt came to `r`.
pub open spec fn wrapping_under(
    salt: Seq<u8>,
    secret: Seq<char>,
    key: Seq<u8>,
    r: Result<(String, String), CryptoError>,
) -> bool {
    match r {
        Ok((salt_text, wrapped)) => {
            &&& salt_text@ == encoded(salt)
            &&& is_wrapping(encode_utf8(secret), key, salt, wrapped@)
            &&& freshly_wrapped(wrapped@)
        },
        Err(e) => derivation(encode_utf8(secret), salt, Err(e)),
    }
}

/// A wrapping fails only where a derivation from that secret, made for it,
/// failed: for want of memory, unless the secret is too long.
pub proof fn law_wrapping_fails_for_memory(
    secret: Seq<char>,
    key: Seq<u8>,
    r: Result<(String, String), CryptoError>,
)
    requires
        wrapping_attempt(secret, key, r),
        r is Err,
    ensures
        exists|salt: Seq<u8>| #[trigger]
            drawn(salt) && derivation(encode_utf8(secret), salt, Err(r->Err_0)),
        encode_utf8(secret).len() <= 0xffff_ffff ==> r->Err_0@ == (Fault::Argon2 {
            no_memory: true,
        }),
{
    let salt = choose|salt: Seq<u8>| #[trigger]
        drawn(salt) && salt.len() == crypto::SALT_LEN && wrapping_under(salt, secret, key, r);
    crypto::law_derivation_derives(encode_utf8(secret), salt, Err(r->Err_0));
}

/// Wraps the vault key under a secret and a fresh salt, and gives the text of
/// the salt and of the wrapped key.
fn fresh_wrapping(secret: &str, vault_key: &VaultKey) -> (r: Result<(String, String), CryptoError>)
    ensures
        match r {
            Ok((salt_text, wrapped)) => {
                &&& salted_wrapping(salt_text@, wrapped@, secret@, vault_key@)
                &&& unwrapped(encode_utf8(secret@), wrapped@) == Ok::<Seq<u8>, Fault>(vault_key@)
            },
            Err(e) => secret_refused(secret@, e@),
        },
        wrapping_attempt(secret@, vault_key@, r),
{
    let salt = generate_salt();
    match wrap_key(secret.as_bytes(), vault_key.as_bytes(), &salt) {
        Ok(wrapped) => {
            let text = crypto::encode_b64(&salt);
            let r: Result<(String, String), CryptoError> = Ok((text, wrapped));
            assert(wrapping_under(salt@, secret@, vault_key@, r));
            r
        },
        Err(e) => {
            let r: Result<(String, String), CryptoError> = Err(e);
            assert(wrapping_under(salt@, secret@, vault_key@, r));
            r
        },
    }
}

/// Which parts of a new vault have been written.
pub struct Written {
    pub master: bool,
    pub machine: bool,
    pub questions: nat,
}

/// Whether `k` is one of the keys written so far.
pub open spec fn written_key(w: Written, k: Seq<char>) -> bool {
    ||| w.master && (k == META_MASTER_SALT@ || k == META_MASTER_WRAPPED@)
    ||| w.machine && (k == META_MACHINE_SALT@ || k == META_MACHINE_WRAPPED@)
    ||| exists|i: nat| i < w.questions && #[trigger] is_qa_key(i, k)
}

/// Whether `k` is a key of the `i`-th security question.
pub open spec fn is_qa_key(i: nat, k: Seq<char>) -> bool {
    ||| k == qa_key(i, "_question"@)
    ||| k == qa_key(i, "_salt"@)
    ||| k == qa_key(i, "_wrapped"@)
}

/// Whether the `i`-th security question is in the table, with the vault key
/// wrapped under its answer.
pub open spec fn holds_question(
    m: Map<Seq<char>, Seq<char>>,
    i: nat,
    question: Seq<char>,
    answer: Seq<char>,
    key: Seq<u8>,
) -> bool {
    &&& m.contains_key(qa_key(i, "_question"@))
    &&& m[qa_key(i, "_question"@)] == question
    &&& holds_wrapping(m, qa_key(i, "_salt"@), qa_key(i, "_wrapped"@), answer, key)
}

/// Whether table `m` is table `before` with the given parts of a new vault
/// written to it, all under the one vault key.
pub open spec fn written(
    before: Map<Seq<char>, Seq<char>>,
    m: Map<Seq<char>, Seq<char>>,
    master: Seq<char>,
    code: Seq<char>,
    qa: Seq<(String, String)>,
    key: Seq<u8>,
    w: Written,
) -> bool {
    &&& w.master ==> holds_wrapping(m, META_MASTER_SALT@, META_MASTER_WRAPPED@, master, key)
    &&& w.machine ==> holds_wrapping(m, META_MACHINE_SALT@, META_MACHINE_WRAPPED@, code, key)
    &&& w.questions <= qa.len()
    &&& forall|i: nat|
        i < w.questions ==> #[trigger] holds_question(m, i, qa[i as int].0@, qa[i as int].1@, key)
    &&& forall|k: Seq<char>|
        !written_key(w, k) ==> (#[trigger] m.contains_key(k) == before.contains_key(k))
    &&& forall|k: Seq<char>|
        !written_key(w, k) && before.contains_key(k) ==> #[trigger] m[k] == before[k]
}

/// The refusal to set up a vault over an existing file.
pub open spec fn exists_message(db_path: Seq<char>) -> Seq<char> {
    "密码库 "@ + db_path + " 已存在，如需重建请先删除该文件"@
}

/// Whether `text` is the message of a failed key derivation, or of a failed
/// reading of the machine code.
pub open spec fn init_failure(machine_binding: bool, text: Seq<char>) -> bool {
    exists|e: CryptoError| #[trigger]
        e.is_message(text) && (e@ is Argon2 || (machine_binding && e@ is MachineId))
}

proof fn question_written(
    before: Map<Seq<char>, Seq<char>>,
    m: Map<Seq<char>, Seq<char>>,
    next: Map<Seq<char>, Seq<char>>,
    master: Seq<char>,
    code: Seq<char>,
    qa: Seq<(String, String)>,
    key: Seq<u8>,
    w: Written,
)
    requires
        written(before, m, master, code, qa, key, w),
        w.questions < qa.len(),
        holds_question(
            next,
            w.questions,
            qa[w.questions as int].0@,
            qa[w.questions as int].1@,
            key,
        ),
        forall|k: Seq<char>|
            !is_qa_key(w.questions, k) ==> (#[trigger] next.contains_key(k) == m.contains_key(k)),
        forall|k: Seq<char>|
            !is_qa_key(w.questions, k) && m.contains_key(k) ==> #[trigger] next[k] == m[k],
    ensures
        written(
            before,
            next,
            master,
            code,
            qa,
            key,
            (Written { questions: w.questions + 1, ..w }),
        ),
{
    let n = w.questions;
    let w2 = Written { questions: n + 1, ..w };
    law_qa_keys_apart(n, "_question"@);
    law_qa_keys_apart(n, "_salt"@);
    law_qa_keys_apart(n, "_wrapped"@);
    if w.master {
        assert(!is_qa_key(n, META_MASTER_SALT@) && !is_qa_key(n, META_MASTER_WRAPPED@));
        assert(holds_wrapping(next, META_MASTER_SALT@, META_MASTER_WRAPPED@, master, key));
    }
    if w.machine {
        assert(!is_qa_key(n, META_MACHINE_SALT@) && !is_qa_key(n, META_MACHINE_WRAPPED@));
        assert(holds_wrapping(next, META_MACHINE_SALT@, META_MACHINE_WRAPPED@, code, key));
    }
    assert forall|i: nat| i < n + 1 implies #[trigger] holds_question(
        next,
        i,
        qa[i as int].0@,
        qa[i as int].1@,
        key,
    ) by {
        if i < n {
            assert(holds_question(m, i, qa[i as int].0@, qa[i as int].1@, key));
            other_question_keys(i, n);
        }
    }
    assert forall|k: Seq<char>| !written_key(w2, k) implies (#[trigger] next.contains_key(k)
        == before.contains_key(k)) && (before.contains_key(k) ==> next[k] == before[k]) by {
        assert(!is_qa_key(n, k));
        assert(!written_key(w, k)) by {
            if exists|i: nat| i < w.questions && #[trigger] is_qa_key(i, k) {
                let i = choose|i: nat| i < w.questions && #[trigger] is_qa_key(i, k);
                assert(i < w2.questions && is_qa_key(i, k));
            }
        }
        assert(m.contains_key(k) == before.contains_key(k));
    }
}

proof fn qa_parts_differ()
    ensures
        "_question"@ != "_salt"@,
        "_question"@ != "_wrapped"@,
        "_salt"@ != "_wrapped"@,
{
    reveal_strlit("_question");
    reveal_strlit("_salt");
    reveal_strlit("_wrapped");
    assert("_question"@.len() == 9);
    assert("_salt"@.len() == 5);
    assert("_wrapped"@.len() == 8);
}

proof fn other_question_keys(i: nat, n: nat)
    requires
        i != n,
    ensures
        !is_qa_key(n, qa_key(i, "_question"@)),
        !is_qa_key(n, qa_key(i, "_salt"@)),
        !is_qa_key(n, qa_key(i, "_wrapped"@)),
{
    let parts = seq!["_question"@, "_salt"@, "_wrapped"@];
    assert forall|a: int, b: int| 0 <= a < 3 && 0 <= b < 3 implies qa_key(i, #[trigger] parts[a])
        != qa_key(n, #[trigger] parts[b]) by {
        if qa_key(i, parts[a]) == qa_key(n, parts[b]) {
            law_qa_keys_distinct(i, parts[a], n, parts[b]);
        }
    }
    assert(parts[0] == "_question"@ && parts[1] == "_salt"@ && parts[2] == "_wrapped"@);
}

/// The machine code that was read, if one was.
pub open spec fn code_text(code: Option<Result<String, CryptoError>>) -> Seq<char> {
    match code {
        Some(Ok(c)) => c@,
        _ => Seq::empty(),
    }
}

/// Whether `text` is the message of a failed key derivation, or of the failed
/// reading of the machine code in `code`.
pub open spec fn stopped_by(code: Option<Result<String, CryptoError>>, text: Seq<char>) -> bool {
    exists|e: CryptoError| #[trigger]
        e.is_message(text) && (e@ is Argon2 || code == Some(Err::<String, CryptoError>(e)))
}

/// Whether table `m` is table `before` with the first parts of a new vault,
/// but not all of them, written to it: the master password comes first, then
/// the machine code where `machine` asks for it, then the questions in their
/// order.
pub open spec fn partly_written(
    before: Map<Seq<char>, Seq<char>>,
    m: Map<Seq<char>, Seq<char>>,
    master: Seq<char>,
    code: Seq<char>,
    qa: Seq<(String, String)>,
    key: Seq<u8>,
    machine: bool,
) -> bool {
    exists|w: Written| #[trigger]
        written(before, m, master, code, qa, key, w) && (w.machine ==> w.master && machine) && (
        w.questions > 0 ==> w.master && w.machine == machine) && !(w.master && w.machine == machine
            && w.questions == qa.len())
}

/// What a wrapped key is stored for.
pub enum Slot {
    /// The master password.
    Master,
    /// The machine code.
    Machine,
    /// The answer to a security question, with its index and the question.
    Answer(usize, String),
}

/// A table after the salt and the wrapped key of a slot were stored, and the
/// question where it has one.
pub open spec fn slot_stored(
    m: Map<Seq<char>, Seq<char>>,
    slot: Slot,
    salt: Seq<char>,
    wrapped: Seq<char>,
) -> Map<Seq<char>, Seq<char>> {
    match slot {
        Slot::Master => m.insert(META_MASTER_SALT@, salt).insert(META_MASTER_WRAPPED@, wrapped),
        Slot::Machine => m.insert(META_MACHINE_SALT@, salt).insert(META_MACHINE_WRAPPED@, wrapped),
        Slot::Answer(i, question) => m.insert(qa_key(i as nat, "_question"@), question@).insert(
            qa_key(i as nat, "_salt"@),
            salt,
        ).insert(qa_key(i as nat, "_wrapped"@), wrapped),
    }
}

/// A table after the wrappings that succeeded were stored, in their order.
pub open spec fn outcomes_stored(
    m: Map<Seq<char>, Seq<char>>,
    outcomes: Seq<(Slot, Result<(String, String), CryptoError>)>,
) -> Map<Seq<char>, Seq<char>>
    decreases outcomes.len(),
{
    if outcomes.len() == 0 {
        m
    } else {
        let less = outcomes_stored(m, outcomes.drop_last());
        match outcomes.last().1 {
            Ok((salt, wrapped)) => slot_stored(less, outcomes.last().0, salt@, wrapped@),
            Err(_) => less,
        }
    }
}

/// Whether all wrappings succeeded.
pub open spec fn none_failed(
    outcomes: Seq<(Slot, Result<(String, String), CryptoError>)>,
) -> bool {
    forall|i: int| 0 <= i < outcomes.len() ==> (#[trigger] outcomes[i]).1 is Ok
}

/// Whether the wrapping at index `n` is the first that failed.
pub open spec fn failed_at(
    outcomes: Seq<(Slot, Result<(String, String), CryptoError>)>,
    n: int,
) -> bool {
    0 <= n < outcomes.len() && outcomes[n].1 is Err && none_failed(outcomes.take(n))
}

/// Stores the salt and the wrapped key of a slot.
fn store_slot(meta: &mut Meta, slot: &Slot, salt: &str, wrapped: &str)
    ensures
        final(meta)@ == slot_stored(old(meta)@, *slot, salt@, wrapped@),
        extends(final(meta).log(), old(meta).log()),
{
    let ghost log = meta.log();
    assert(log.take(log.len() as int) == log);
    match slot {
        Slot::Master => {
            set_meta(meta, META_MASTER_SALT, salt);
            let ghost mid = meta.log();
            proof {
                extends_further(mid, log, log);
            }
            set_meta(meta, META_MASTER_WRAPPED, wrapped);
            proof {
                extends_further(meta.log(), mid, log);
            }
        },
        Slot::Machine => {
            set_meta(meta, META_MACHINE_SALT, salt);
            let ghost mid = meta.log();
            proof {
                extends_further(mid, log, log);
            }
            set_meta(meta, META_MACHINE_WRAPPED, wrapped);
            proof {
                extends_further(meta.log(), mid, log);
            }
        },
        Slot::Answer(i, question) => {
            set_meta(meta, qa_key_text(*i, "_question").as_str(), question.as_str());
            let ghost first = meta.log();
            proof {
                extends_further(first, log, log);
            }
            set_meta(meta, qa_key_text(*i, "_salt").as_str(), salt);
            let ghost second = meta.log();
            proof {
                extends_further(second, first, log);
            }
            set_meta(meta, qa_key_text(*i, "_wrapped").as_str(), wrapped);
            proof {
                extends_further(meta.log(), second, log);
            }
        },
    }
}

/// Stores wrapped keys in their order, up to the first that failed. It
/// succeeds where none failed, and else gives the message of the first
/// failure.
pub fn store_outcomes(
    meta: &mut Meta,
    outcomes: Vec<(Slot, Result<(String, String), CryptoError>)>,
) -> (r: Result<(), String>)
    ensures
        extends(final(meta).log(), old(meta).log()),
        none_failed(outcomes@) ==> r is Ok && final(meta)@ == outcomes_stored(
            old(meta)@,
            outcomes@,
        ),
        forall|n: int| #[trigger]
            failed_at(outcomes@, n) ==> (r matches Err(why)
                && outcomes@[n].1->Err_0.is_message(why@)) && final(meta)@ == outcomes_stored(
                old(meta)@,
                outcomes@.take(n),
            ),
{
    let ghost all = outcomes@;
    let ghost log = meta.log();
    let ghost before = meta@;
    assert(log.take(log.len() as int) == log);
    assert(all.take(0) == Seq::<(Slot, Result<(String, String), CryptoError>)>::empty());
    for item in it: outcomes
        invariant
            it.seq() == all,
            before == old(meta)@,
            log == old(meta).log(),
            extends(meta.log(), log),
            none_failed(all.take(it.index())),
            meta@ == outcomes_stored(before, all.take(it.index())),
    {
        let ghost i = it.index();
        let ghost done = all.take(i);
        let ghost longer = meta.log();
        assert(all.take(i + 1).drop_last() == done);
        assert(all.take(i + 1).last() == all[i]);
        let (slot, wrapping) = item;
        match wrapping {
            Ok((salt, wrapped)) => {
                store_slot(meta, &slot, salt.as_str(), wrapped.as_str());
                proof {
                    assert(meta.log().take(log.len() as int) == longer.take(log.len() as int)) by {
                        assert(meta.log().take(longer.len() as int) == longer);
                        assert(meta.log().take(longer.len() as int).take(log.len() as int)
                            == meta.log().take(log.len() as int));
                    }
                    assert forall|j: int| 0 <= j < i + 1 implies (#[trigger] all.take(
                        i + 1,
                    )[j]).1 is Ok by {
                        if j < i {
                            assert(done[j].1 is Ok);
                        }
                    }
                }
            },
            Err(e) => {
                let why = e.message();
                proof {
                    assert(failed_at(all, i));
                    assert(!none_failed(all)) by {
                        assert(all[i].1 is Err);
                    }
                    assert forall|n: int| #[trigger] failed_at(all, n) implies n == i by {
                        if n < i {
                            assert(done[n].1 is Ok);
                        } else if n > i {
                            assert(all.take(n)[i].1 is Ok);
                        }
                    }
                }
                return Err(why);
            },
        }
    }
    assert(all.take(all.len() as int) == all);
    proof {
        assert forall|n: int| #[trigger] failed_at(all, n) implies false by {
            assert(all[n].1 is Ok);
        }
    }
    Ok(())
}

/// How many credentials a new vault is wrapped under.
pub open spec fn credential_count(machine: bool, qa: Seq<(String, String)>) -> int {
    qa.len() + if machine {
        2int
    } else {
        1int
    }
}

/// The index of the question that the credential at index `k` answers.
pub open spec fn question_index(k: int, machine: bool) -> int {
    k - if machine {
        2int
    } else {
        1int
    }
}

/// The slot of the credential at index `k`: the master password comes first,
/// then the machine code where it is bound, then the answers.
pub open spec fn slot_at(k: int, machine: bool, qa: Seq<(String, String)>) -> Slot {
    if k == 0 {
        Slot::Master
    } else if machine && k == 1 {
        Slot::Machine
    } else {
        let i = question_index(k, machine);
        Slot::Answer(i as usize, qa[i].0)
    }
}

/// The credential at index `k`.
pub open spec fn secret_at(
    k: int,
    master: Seq<char>,
    code: Seq<char>,
    machine: bool,
    qa: Seq<(String, String)>,
) -> Seq<char> {
    if k == 0 {
        master
    } else if machine && k == 1 {
        code
    } else {
        qa[question_index(k, machine)].1@
    }
}

/// Whether `outcome` is what wrapping the vault key under the credential at
/// index `k` came to.
pub open spec fn is_outcome(
    outcome: (Slot, Result<(String, String), CryptoError>),
    k: int,
    master: Seq<char>,
    code: Option<Result<String, CryptoError>>,
    qa: Seq<(String, String)>,
    key: Seq<u8>,
) -> bool {
    let machine = code is Some;
    let secret = secret_at(k, master, code_text(code), machine, qa);
    &&& outcome.0 == slot_at(k, machine, qa)
    &&& match outcome.1 {
        Ok((salt, wrapped)) => {
            &&& salted_wrapping(salt@, wrapped@, secret, key)
            &&& unwrapped(encode_utf8(secret), wrapped@) == Ok::<Seq<u8>, Fault>(key)
            &&& machine && k == 1 ==> code->0 is Ok
        },
        Err(e) => secret_refused(secret, e@) || (k == 1 && code == Some(Err::<String, CryptoError>(e))),
    }
    &&& if machine && k == 1 && code->0 is Err {
        outcome.1 == Err::<(String, String), CryptoError>(code->0->Err_0)
    } else {
        wrapping_attempt(secret, key, outcome.1)
    }
}

/// Whether `outcomes` are what wrapping the vault key under the credentials of
/// a new vault came to, in their order and no further than the first failure.
pub open spec fn wrapped_in_order(
    outcomes: Seq<(Slot, Result<(String, String), CryptoError>)>,
    master: Seq<char>,
    code: Option<Result<String, CryptoError>>,
    qa: Seq<(String, String)>,
    key: Seq<u8>,
) -> bool {
    &&& 0 < outcomes.len() <= credential_count(code is Some, qa)
    &&& forall|k: int|
        0 <= k < outcomes.len() ==> is_outcome(#[trigger] outcomes[k], k, master, code, qa, key)
    &&& none_failed(outcomes.drop_last())
    &&& outcomes.len() < credential_count(code is Some, qa) ==> outcomes.last().1 is Err
}

/// Wraps the vault key under the credentials of a new vault, in their order
/// and no further than the first failure.
fn wrap_all(
    vault_key: &VaultKey,
    master_password: &str,
    code: Option<Result<String, CryptoError>>,
    qa_pairs: &Vec<(String, String)>,
) -> (outcomes: Vec<(Slot, Result<(String, String), CryptoError>)>)
    ensures
        wrapped_in_order(outcomes@, master_password@, code, qa_pairs@, vault_key@),
{
    let ghost given = code;
    let ghost qa = qa_pairs@;
    let mut outcomes: Vec<(Slot, Result<(String, String), CryptoError>)> = Vec::new();
    let wrapping = fresh_wrapping(master_password, vault_key);
    let failed = wrapping.is_err();
    outcomes.push((Slot::Master, wrapping));
    if failed {
        return outcomes;
    }
    match code {
        Some(Ok(c)) => {
            let wrapping = fresh_wrapping(c.as_str(), vault_key);
            let failed = wrapping.is_err();
            outcomes.push((Slot::Machine, wrapping));
            if failed {
                return outcomes;
            }
        },
        Some(Err(e)) => {
            outcomes.push((Slot::Machine, Err(e)));
            return outcomes;
        },
        None => {},
    }
    let mut i: usize = 0;
    while i < qa_pairs.len()
        invariant
            i <= qa_pairs@.len(),
            qa == qa_pairs@,
            given == code,
            outcomes@.len() == i + question_offset(given),
            none_failed(outcomes@),
            forall|k: int|
                0 <= k < outcomes@.len() ==> is_outcome(
                    #[trigger] outcomes@[k],
                    k,
                    master_password@,
                    given,
                    qa,
                    vault_key@,
                ),
        decreases qa_pairs@.len() - i,
    {
        let wrapping = fresh_wrapping(qa_pairs[i].1.as_str(), vault_key);
        let failed = wrapping.is_err();
        let ghost before = outcomes@;
        outcomes.push((Slot::Answer(i, qa_pairs[i].0.clone()), wrapping));
        proof {
            let k = before.len() as int;
            assert(question_index(k, given is Some) == i);
            assert(is_outcome(outcomes@[k], k, master_password@, given, qa, vault_key@));
            assert(outcomes@.drop_last() == before);
            assert forall|j: int| 0 <= j < outcomes@.len() implies is_outcome(
                #[trigger] outcomes@[j],
                j,
                master_password@,
                given,
                qa,
                vault_key@,
            ) by {
                if j < k {
                    assert(outcomes@[j] == before[j]);
                }
            }
        }
        if failed {
            return outcomes;
        }
        assert(none_failed(outcomes@)) by {
            assert forall|j: int| 0 <= j < outcomes@.len() implies (
            #[trigger] outcomes@[j]).1 is Ok by {
                if j < before.len() {
                    assert(before[j].1 is Ok);
                }
            }
        }
        i += 1;
    }
    outcomes
}

/// How many credentials come before the answers.
spec fn question_offset(code: Option<Result<String, CryptoError>>) -> int {
    if code is Some {
        2
    } else {
        1
    }
}

/// What is written of a new vault when the first `n` wrappings are stored.
pub open spec fn written_after(n: int, machine: bool) -> Written {
    Written {
        master: n >= 1,
        machine: machine && n >= 2,
        questions: if question_index(n, machine) > 0 {
            question_index(n, machine) as nat
        } else {
            0
        },
    }
}

/// Storing the first wrappings, none of which failed, writes the first parts
/// of a new vault.
#[verifier::rlimit(60)]
#[verifier::spinoff_prover]
proof fn first_outcomes_written(
    before: Map<Seq<char>, Seq<char>>,
    outcomes: Seq<(Slot, Result<(String, String), CryptoError>)>,
    n: int,
    master: Seq<char>,
    code: Option<Result<String, CryptoError>>,
    qa: Seq<(String, String)>,
    key: Seq<u8>,
)
    requires
        0 <= n <= outcomes.len() <= credential_count(code is Some, qa),
        qa.len() <= usize::MAX,
        none_failed(outcomes.take(n)),
        forall|k: int|
            0 <= k < outcomes.len() ==> is_outcome(#[trigger] outcomes[k], k, master, code, qa, key),
    ensures
        written(
            before,
            outcomes_stored(before, outcomes.take(n)),
            master,
            code_text(code),
            qa,
            key,
            written_after(n, code is Some),
        ),
    decreases n,
{
    let machine = code is Some;
    let used = code_text(code);
    let next = outcomes_stored(before, outcomes.take(n));
    let w = written_after(n, machine);
    if n > 0 {
        let k = n - 1;
        let m = outcomes_stored(before, outcomes.take(k));
        let v = written_after(k, machine);
        assert(none_failed(outcomes.take(k))) by {
            assert forall|j: int| 0 <= j < k implies (#[trigger] outcomes.take(k)[j]).1 is Ok by {
                assert(outcomes.take(n)[j].1 is Ok);
            }
        }
        first_outcomes_written(before, outcomes, k, master, code, qa, key);
        assert(outcomes.take(n).drop_last() == outcomes.take(k));
        assert(outcomes.take(n).last() == outcomes[k]);
        assert(outcomes.take(n)[k].1 is Ok);
        assert(is_outcome(outcomes[k], k, master, code, qa, key));
        let (salt, wrapped) = outcomes[k].1->Ok_0;
        assert(next == slot_stored(m, slot_at(k, machine, qa), salt@, wrapped@));
        law_fixed_keys_distinct();
        if k == 0 {
            assert(m == before);
            assert(holds_wrapping(next, META_MASTER_SALT@, META_MASTER_WRAPPED@, master, key));
        } else if machine && k == 1 {
            assert(holds_wrapping(m, META_MASTER_SALT@, META_MASTER_WRAPPED@, master, key));
            assert(holds_wrapping(next, META_MASTER_SALT@, META_MASTER_WRAPPED@, master, key));
            assert(holds_wrapping(next, META_MACHINE_SALT@, META_MACHINE_WRAPPED@, used, key));
            assert(written(before, next, master, used, qa, key, w));
        } else {
            let i = question_index(k, machine) as nat;
            question_keys_differ(i);
            assert(v.questions == i);
            assert(w == Written { questions: i + 1, ..v });
            assert(holds_question(next, i, qa[i as int].0@, qa[i as int].1@, key));
            question_written(before, m, next, master, used, qa, key, v);
        }
    } else {
        assert(next == before);
    }
}

/// The keys of one question differ from one another.
proof fn question_keys_differ(i: nat)
    ensures
        qa_key(i, "_question"@) != qa_key(i, "_salt"@),
        qa_key(i, "_question"@) != qa_key(i, "_wrapped"@),
        qa_key(i, "_salt"@) != qa_key(i, "_wrapped"@),
{
    qa_parts_differ();
    if qa_key(i, "_question"@) == qa_key(i, "_salt"@) {
        law_qa_keys_distinct(i, "_question"@, i, "_salt"@);
    }
    if qa_key(i, "_question"@) == qa_key(i, "_wrapped"@) {
        law_qa_keys_distinct(i, "_question"@, i, "_wrapped"@);
    }
    if qa_key(i, "_salt"@) == qa_key(i, "_wrapped"@) {
        law_qa_keys_distinct(i, "_salt"@, i, "_wrapped"@);
    }
}

/// Whether storing these wrappings in table `before` came to `r` and left
/// table `after`.
pub open spec fn stored_outcomes(
    outcomes: Seq<(Slot, Result<(String, String), CryptoError>)>,
    before: Map<Seq<char>, Seq<char>>,
    after: Map<Seq<char>, Seq<char>>,
    r: Result<(), String>,
) -> bool {
    if none_failed(outcomes) {
        r is Ok && after == outcomes_stored(before, outcomes)
    } else {
        exists|n: int| #[trigger]
            failed_at(outcomes, n) && (r matches Err(why) && outcomes[n].1->Err_0.is_message(why@))
                && after == outcomes_stored(before, outcomes.take(n))
    }
}

/// Whether setting up a vault with this key, by wrapping it under the
/// credentials in their order, came to `r` and left table `after`.
pub open spec fn set_up_with(
    key: Seq<u8>,
    code: Option<Result<String, CryptoError>>,
    master: Seq<char>,
    qa: Seq<(String, String)>,
    before: Map<Seq<char>, Seq<char>>,
    after: Map<Seq<char>, Seq<char>>,
    r: Result<(), String>,
) -> bool {
    exists|outcomes: Seq<(Slot, Result<(String, String), CryptoError>)>| #[trigger]
        wrapped_in_order(outcomes, master, code, qa, key) && stored_outcomes(
            outcomes,
            before,
            after,
            r,
        )
}

/// Whether `code` is the reading of the machine code that setting up a vault
/// asks for.
pub open spec fn code_asked(
    machine_binding: bool,
    code: Option<Result<String, CryptoError>>,
) -> bool {
    match code {
        Some(reading) => machine_binding && machine_read(reading),
        None => !machine_binding,
    }
}

/// Setting up a vault stops only where the machine code could not be read, or
/// where a derivation from one of the credentials, under a drawn salt, failed
/// in it.
pub proof fn law_set_up_stops(
    key: Seq<u8>,
    code: Option<Result<String, CryptoError>>,
    master: Seq<char>,
    qa: Seq<(String, String)>,
    before: Map<Seq<char>, Seq<char>>,
    after: Map<Seq<char>, Seq<char>>,
    why: String,
)
    requires
        set_up_with(key, code, master, qa, before, after, Err(why)),
    ensures
        (code matches Some(Err(e)) && e.is_message(why@)) || exists|
            k: int,
            salt: Seq<u8>,
            e: CryptoError,
        |
            0 <= k < credential_count(code is Some, qa) && drawn(salt) && #[trigger] derivation(
                encode_utf8(#[trigger] secret_at(k, master, code_text(code), code is Some, qa)),
                salt,
                Err(e),
            ) && e.is_message(why@),
{
    let outcomes = choose|outcomes: Seq<(Slot, Result<(String, String), CryptoError>)>| #[trigger]
        wrapped_in_order(outcomes, master, code, qa, key) && stored_outcomes(
            outcomes,
            before,
            after,
            Err(why),
        );
    let n = choose|n: int| #[trigger]
        failed_at(outcomes, n) && outcomes[n].1->Err_0.is_message(why@) && after
            == outcomes_stored(before, outcomes.take(n));
    assert(is_outcome(outcomes[n], n, master, code, qa, key));
    let e = outcomes[n].1->Err_0;
    let secret = secret_at(n, master, code_text(code), code is Some, qa);
    if wrapping_attempt(secret, key, outcomes[n].1) {
        law_wrapping_fails_for_memory(secret, key, outcomes[n].1);
        let salt = choose|salt: Seq<u8>| #[trigger]
            drawn(salt) && derivation(encode_utf8(secret), salt, Err(e));
        assert(derivation(
            encode_utf8(secret_at(n, master, code_text(code), code is Some, qa)),
            salt,
            Err(e),
        ));
    }
}

/// Sets up a vault with a given key, where `code` is what the reading of the
/// machine code came to, if it is asked for.
pub fn init_with(
    vault_key: &VaultKey,
    master_password: &str,
    code: Option<Result<String, CryptoError>>,
    qa_pairs: &Vec<(String, String)>,
    meta: &mut Meta,
) -> (r: Result<(), String>)
    ensures
        r is Ok ==> !(code matches Some(Err(_))) && written(
            old(meta)@,
            final(meta)@,
            master_password@,
            code_text(code),
            qa_pairs@,
            vault_key@,
            (Written { master: true, machine: code is Some, questions: qa_pairs@.len() }),
        ),
        r matches Err(text) ==> stopped_by(code, text@),
        r is Err ==> partly_written(
            old(meta)@,
            final(meta)@,
            master_password@,
            code_text(code),
            qa_pairs@,
            vault_key@,
            code is Some,
        ),
        set_up_with(
            vault_key@,
            code,
            master_password@,
            qa_pairs@,
            old(meta)@,
            final(meta)@,
            r,
        ),
        extends(final(meta).log(), old(meta).log()),
{
    let ghost given = code;
    let outcomes = wrap_all(vault_key, master_password, code, qa_pairs);
    let ghost all = outcomes@;
    let r = store_outcomes(meta, outcomes);
    assert(qa_pairs.len() == qa_pairs@.len());
    proof {
        let last = all.len() - 1;
        let (master, qa, key) = (master_password@, qa_pairs@, vault_key@);
        assert(all.drop_last() == all.take(last));
        assert(all.take(all.len() as int) == all);
        assert(is_outcome(all[last], last, master, given, qa, key));
        if all[last].1 is Ok {
            assert(none_failed(all)) by {
                assert forall|j: int| 0 <= j < all.len() implies (#[trigger] all[j]).1 is Ok by {
                    if j < last {
                        assert(all.drop_last()[j].1 is Ok);
                    }
                }
            }
            first_outcomes_written(old(meta)@, all, all.len() as int, master, given, qa, key);
            if given is Some {
                assert(is_outcome(all[1], 1, master, given, qa, key));
            }
        } else {
            assert(failed_at(all, last));
            assert(!none_failed(all)) by {
                assert(all[last].1 is Err);
            }
            first_outcomes_written(old(meta)@, all, last, master, given, qa, key);
            let w = written_after(last, given is Some);
            assert(written(old(meta)@, meta@, master, code_text(given), qa, key, w));
        }
        assert(wrapped_in_order(all, master, given, qa, key));
        assert(stored_outcomes(all, old(meta)@, meta@, r));
        assert(set_up_with(key, given, master, qa, old(meta)@, meta@, r));
    }
    r
}

/// Sets up a vault: writes to `meta` the fresh vault key wrapped under the
/// master password, under the machine code where that is asked for, and under
/// the answer to each question. Where `exists` says that the file is there
/// already, it refuses and writes nothing. A failure on the way leaves in
/// `meta` what was written before it.
#[verifier::rlimit(60)]
pub fn init(
    db_path: &str,
    exists: bool,
    master_password: &str,
    recovery: &RecoveryOpts,
    meta: &mut Meta,
) -> (r: Result<(), String>)
    ensures
        exists ==> (r matches Err(e) && e@ == exists_message(db_path@)) && final(meta)@ == old(
            meta,
        )@ && final(meta).log() == old(meta).log(),
        extends(final(meta).log(), old(meta).log()),
        !exists && r is Ok ==> exists|key: Seq<u8>, code: Seq<char>|
            key.len() == crypto::KEY_LEN && #[trigger] written(
                old(meta)@,
                final(meta)@,
                master_password@,
                code,
                recovery.qa_pairs@,
                key,
                (Written {
                    master: true,
                    machine: recovery.machine_binding,
                    questions: recovery.qa_pairs@.len(),
                }),
            ),
        !exists && r is Err ==> init_failure(recovery.machine_binding, r->Err_0@),
        !exists && r is Err ==> exists|key: Seq<u8>, code: Seq<char>|
            key.len() == crypto::KEY_LEN && #[trigger] partly_written(
                old(meta)@,
                final(meta)@,
                master_password@,
                code,
                recovery.qa_pairs@,
                key,
                recovery.machine_binding,
            ),
        !exists ==> exists|key: Seq<u8>, code: Option<Result<String, CryptoError>>|
            key.len() == crypto::KEY_LEN && drawn(key) && code_asked(
                recovery.machine_binding,
                code,
            ) && #[trigger] set_up_with(
                key,
                code,
                master_password@,
                recovery.qa_pairs@,
                old(meta)@,
                final(meta)@,
                r,
            ),
{
    assert(meta.log().take(meta.log().len() as int) == meta.log());
    if exists {
        let mut out = "密码库 ".to_owned();
        out.append(db_path);
        out.append(" 已存在，如需重建请先删除该文件");
        return Err(out);
    }
    let vault_key = VaultKey::generate();
    let code = if recovery.machine_binding {
        Some(machine_code())
    } else {
        None
    };
    let ghost used = code_text(code);
    let ghost given = code;
    let r = init_with(&vault_key, master_password, code, &recovery.qa_pairs, meta);
    proof {
        let all = Written {
            master: true,
            machine: recovery.machine_binding,
            questions: recovery.qa_pairs@.len(),
        };
        assert(r is Ok ==> written(
            old(meta)@,
            meta@,
            master_password@,
            used,
            recovery.qa_pairs@,
            vault_key@,
            all,
        ));
        assert(r is Err ==> partly_written(
            old(meta)@,
            meta@,
            master_password@,
            used,
            recovery.qa_pairs@,
            vault_key@,
            recovery.machine_binding,
        ));
        assert(code_asked(recovery.machine_binding, given));
        assert(set_up_with(
            vault_key@,
            given,
            master_password@,
            recovery.qa_pairs@,
            old(meta)@,
            meta@,
            r,
        ));
    }
    r
}

/// An unlocked vault: the table `meta` and the vault key.
pub struct Vault {
    meta: Meta,
    vault_key: VaultKey,
}

impl Vault {
    /// The table `meta`.
    pub closed spec fn table(&self) -> Map<Seq<char>, Seq<char>> {
        self.meta@
    }

    /// The writes made to the table `meta`.
    pub closed spec fn log(&self) -> Seq<(String, String)> {
        self.meta.log()
    }

    /// The vault key.
    pub closed spec fn key(&self) -> Seq<u8> {
        self.vault_key@
    }
}

/// The vault that an unwrapped key opens; any failure to unwrap counts as a
/// wrong credential.
pub fn unlock(meta: &Meta, unwrapped_key: Result<[u8; 32], CryptoError>) -> (r: Result<
    Vault,
    UnlockError,
>)
    ensures
        match unwrapped_key {
            Ok(k) => r matches Ok(v) && v.table() == meta@ && v.log() == meta.log() && v.key()
                == k@,
            Err(_) => r matches Err(UnlockError::WrongCredential),
        },
{
    match unwrapped_key {
        Ok(key) => Ok(Vault { meta: meta.copy(), vault_key: VaultKey::from_bytes(key) }),
        Err(_) => Err(UnlockError::WrongCredential),
    }
}

/// What unlocking a table under a secret, with the wrapped key at
/// `wrapped_key`, can come to. Where the key is there and unwraps, it opens
/// the vault unless the machine has not the memory to derive the
/// key-encryption key; then, and wherever it does not unwrap, the credential
/// counts as wrong.
pub open spec fn unlocks(
    meta: Meta,
    wrapped_key: Seq<char>,
    secret: Seq<char>,
    r: Result<Vault, UnlockError>,
) -> bool {
    &&& match r {
        Ok(v) => {
            &&& meta@.contains_key(wrapped_key)
            &&& unwrapped(encode_utf8(secret), meta@[wrapped_key]) == Ok::<Seq<u8>, Fault>(v.key())
            &&& v.table() == meta@
            &&& v.log() == meta.log()
        },
        Err(UnlockError::WrongCredential) => meta@.contains_key(wrapped_key),
        Err(_) => false,
    }
    &&& unlocked_by(secret, meta@[wrapped_key], r)
}

/// Whether unlocking came to `r` by what unwrapping under that very secret
/// gave: the vault where it gave the key, and else a refusal.
pub open spec fn unlocked_by(
    secret: Seq<char>,
    wrapped: Seq<char>,
    r: Result<Vault, UnlockError>,
) -> bool {
    exists|k: Result<Seq<u8>, Fault>| #[trigger]
        unwrapping_gave(encode_utf8(secret), wrapped, k) && match k {
            Ok(key) => r matches Ok(v) && v.key() == key,
            Err(_) => r matches Err(UnlockError::WrongCredential),
        }
}

/// The right credential unlocks, whatever it is, unless a derivation made for
/// it ran out of memory; and what it unlocks is the key that was wrapped.
pub proof fn law_right_credential_unlocks(
    meta: Meta,
    wrapped_key: Seq<char>,
    secret: Seq<char>,
    key: Seq<u8>,
    r: Result<Vault, UnlockError>,
)
    requires
        unlocks(meta, wrapped_key, secret, r),
        unwrapped(encode_utf8(secret), meta@[wrapped_key]) == Ok::<Seq<u8>, Fault>(key),
    ensures
        r is Err ==> ran_out_of_memory(encode_utf8(secret), meta@[wrapped_key]),
        r matches Ok(v) ==> v.key() == key && v.table() == meta@ && v.log() == meta.log(),
{
    let k = choose|k: Result<Seq<u8>, Fault>| #[trigger]
        unwrapping_gave(encode_utf8(secret), meta@[wrapped_key], k) && match k {
            Ok(key) => r matches Ok(v) && v.key() == key,
            Err(_) => r matches Err(UnlockError::WrongCredential),
        };
    law_unwrapping_right(encode_utf8(secret), meta@[wrapped_key], k);
}

/// A secret under which nothing unwraps is refused.
pub proof fn law_wrong_credential_refused(
    meta: Meta,
    wrapped_key: Seq<char>,
    secret: Seq<char>,
    r: Result<Vault, UnlockError>,
)
    requires
        unlocks(meta, wrapped_key, secret, r),
        unwrapped(encode_utf8(secret), meta@[wrapped_key]) is Err,
    ensures
        r matches Err(UnlockError::WrongCredential),
{
}

/// The master password opens the vault, whatever its length and characters,
/// unless a derivation made for it ran out of memory; any password under which
/// the master entry does not unwrap is refused.
pub proof fn law_open_master(meta: &Meta, password: &str, r: Result<Vault, UnlockError>)
    requires
        call_ensures(open, (meta, password), r),
        meta@.contains_key(META_MASTER_WRAPPED@),
    ensures
        match unwrapped(encode_utf8(password@), meta@[META_MASTER_WRAPPED@]) {
            Ok(key) => {
                &&& r is Err ==> ran_out_of_memory(
                    encode_utf8(password@),
                    meta@[META_MASTER_WRAPPED@],
                )
                &&& r matches Ok(v) ==> v.key() == key && v.table() == meta@
            },
            Err(_) => r matches Err(UnlockError::WrongCredential),
        },
{
    if let Ok(key) = unwrapped(encode_utf8(password@), meta@[META_MASTER_WRAPPED@]) {
        law_right_credential_unlocks(*meta, META_MASTER_WRAPPED@, password@, key, r);
    }
}

/// The answer to a security question unlocks the vault, whatever its length
/// and characters, unless a derivation made for it ran out of memory; any
/// other answer is refused.
pub proof fn law_recover_with_answer(
    meta: &Meta,
    index: usize,
    answer: &str,
    r: Result<Vault, UnlockError>,
)
    requires
        call_ensures(recover_with_qa, (meta, index, answer), r),
        meta@.contains_key(qa_key(index as nat, "_wrapped"@)),
    ensures
        match unwrapped(encode_utf8(answer@), meta@[qa_key(index as nat, "_wrapped"@)]) {
            Ok(key) => {
                &&& r is Err ==> ran_out_of_memory(
                    encode_utf8(answer@),
                    meta@[qa_key(index as nat, "_wrapped"@)],
                )
                &&& r matches Ok(v) ==> v.key() == key && v.table() == meta@
            },
            Err(_) => r matches Err(UnlockError::WrongCredential),
        },
{
    let k = qa_key(index as nat, "_wrapped"@);
    if let Ok(key) = unwrapped(encode_utf8(answer@), meta@[k]) {
        law_right_credential_unlocks(*meta, k, answer@, key, r);
    }
}

/// The code that a reading of the machine gave unlocks the vault where it was
/// wrapped under it, unless a derivation made for it ran out of memory; a
/// reading that failed is reported.
pub proof fn law_recover_with_machine(meta: &Meta, r: Result<Vault, UnlockError>)
    requires
        call_ensures(recover_with_machine, (meta,), r),
        meta@.contains_key(META_MACHINE_WRAPPED@),
    ensures
        exists|code: Result<String, CryptoError>| #[trigger]
            machine_read(code) && match code {
                Ok(c) => match unwrapped(encode_utf8(c@), meta@[META_MACHINE_WRAPPED@]) {
                    Ok(key) => {
                        &&& r is Err ==> ran_out_of_memory(
                            encode_utf8(c@),
                            meta@[META_MACHINE_WRAPPED@],
                        )
                        &&& r matches Ok(v) ==> v.key() == key && v.table() == meta@
                    },
                    Err(_) => r matches Err(UnlockError::WrongCredential),
                },
                Err(e) => r matches Err(UnlockError::Db(why)) && e.is_message(why@),
            },
{
    let code = choose|code: Result<String, CryptoError>| #[trigger]
        machine_read(code) && recovered_by(*meta, code, r);
    if let Ok(c) = code {
        if let Ok(key) = unwrapped(encode_utf8(c@), meta@[META_MACHINE_WRAPPED@]) {
            law_right_credential_unlocks(*meta, META_MACHINE_WRAPPED@, c@, key, r);
        }
    }
}

/// Unlocks a vault with the master password. A table without a master entry
/// is refused like a wrong password.
pub fn open(meta: &Meta, master_password: &str) -> (r: Result<Vault, UnlockError>)
    ensures
        !meta@.contains_key(META_MASTER_WRAPPED@) ==> r matches Err(UnlockError::WrongCredential),
        meta@.contains_key(META_MASTER_WRAPPED@) ==> unlocks(
            *meta,
            META_MASTER_WRAPPED@,
            master_password@,
            r,
        ),
{
    match get_meta(meta, META_MASTER_WRAPPED) {
        Some(wrapped) => {
            let key = unwrap_key(master_password.as_bytes(), wrapped.as_str());
            assert(unwrapping_gave(encode_utf8(master_password@), wrapped@, outcome(key)));
            unlock(meta, key)
        },
        None => Err(UnlockError::WrongCredential),
    }
}

/// Whether recovery by machine code was set up.
pub fn machine_recovery_available(meta: &Meta) -> (r: bool)
    ensures
        r == meta@.contains_key(META_MACHINE_WRAPPED@),
{
    get_meta(meta, META_MACHINE_WRAPPED).is_some()
}

/// Whether `questions` are the security questions of a table, numbered from
/// zero without a gap.
pub open spec fn are_questions(
    m: Map<Seq<char>, Seq<char>>,
    questions: Seq<Seq<char>>,
) -> bool {
    &&& forall|i: nat|
        i < questions.len() ==> m.contains_key(#[trigger] qa_key(i, "_question"@)) && m[qa_key(
            i,
            "_question"@,
        )] == questions[i as int]
    &&& !m.contains_key(qa_key(questions.len(), "_question"@))
}

/// A table has one list of security questions.
pub proof fn law_questions_unique(
    m: Map<Seq<char>, Seq<char>>,
    a: Seq<Seq<char>>,
    b: Seq<Seq<char>>,
)
    requires
        are_questions(m, a),
        are_questions(m, b),
    ensures
        a == b,
{
    if a.len() < b.len() {
        assert(m.contains_key(qa_key(a.len(), "_question"@)));
    } else if b.len() < a.len() {
        assert(m.contains_key(qa_key(b.len(), "_question"@)));
    }
    assert forall|i: int| 0 <= i < a.len() implies a[i] == b[i] by {
        assert(m[qa_key(i as nat, "_question"@)] == a[i]);
    }
    assert(a == b);
}

/// A vault that was set up on an empty table has the questions that were
/// chosen and no answers to others, and recovery by machine code exactly where
/// it was asked for.
pub proof fn law_init_recovery_paths(
    m: Map<Seq<char>, Seq<char>>,
    master: Seq<char>,
    code: Seq<char>,
    qa: Seq<(String, String)>,
    key: Seq<u8>,
    machine: bool,
)
    requires
        written(
            Map::empty(),
            m,
            master,
            code,
            qa,
            key,
            (Written { master: true, machine, questions: qa.len() }),
        ),
    ensures
        are_questions(m, Seq::new(qa.len(), |i: int| qa[i].0@)),
        forall|i: nat| m.contains_key(#[trigger] qa_key(i, "_wrapped"@)) <==> i < qa.len(),
        m.contains_key(META_MACHINE_WRAPPED@) == machine,
{
    let w = Written { master: true, machine, questions: qa.len() };
    let questions = Seq::new(qa.len(), |i: int| qa[i].0@);
    assert forall|i: nat| i < questions.len() implies m.contains_key(
        #[trigger] qa_key(i, "_question"@),
    ) && m[qa_key(i, "_question"@)] == questions[i as int] by {
        assert(holds_question(m, i, qa[i as int].0@, qa[i as int].1@, key));
    }
    assert forall|i: nat| m.contains_key(#[trigger] qa_key(i, "_wrapped"@)) <==> i < qa.len() by {
        let k = qa_key(i, "_wrapped"@);
        if i < qa.len() {
            assert(holds_question(m, i, qa[i as int].0@, qa[i as int].1@, key));
        } else {
            assert(!written_key(w, k)) by {
                law_qa_keys_apart(i, "_wrapped"@);
                if exists|j: nat| j < w.questions && #[trigger] is_qa_key(j, k) {
                    let j = choose|j: nat| j < w.questions && #[trigger] is_qa_key(j, k);
                    other_question_keys(i, j);
                }
            }
        }
    }
    let next = qa_key(qa.len(), "_question"@);
    assert(!written_key(w, next)) by {
        law_qa_keys_apart(qa.len(), "_question"@);
        if exists|i: nat| i < w.questions && #[trigger] is_qa_key(i, next) {
            let i = choose|i: nat| i < w.questions && #[trigger] is_qa_key(i, next);
            other_question_keys(qa.len(), i);
        }
    }
    if !machine {
        law_fixed_keys_distinct();
        assert(!written_key(w, META_MACHINE_WRAPPED@)) by {
            if exists|i: nat| i < w.questions && #[trigger] is_qa_key(i, META_MACHINE_WRAPPED@) {
                let i = choose|i: nat| i < w.questions && #[trigger] is_qa_key(
                    i,
                    META_MACHINE_WRAPPED@,
                );
                law_qa_keys_apart(i, "_question"@);
                law_qa_keys_apart(i, "_salt"@);
                law_qa_keys_apart(i, "_wrapped"@);
            }
        }
    }
}

/// A key that is set was written by one of the writes.
proof fn set_key_has_write(writes: Seq<(String, String)>, key: Seq<char>) -> (i: int)
    requires
        table(writes).contains_key(key),
    ensures
        0 <= i < writes.len(),
        writes[i].0@ == key,
    decreases writes.len(),
{
    if writes.last().0@ == key {
        writes.len() - 1
    } else {
        set_key_has_write(writes.drop_last(), key)
    }
}

/// Among `n` writes there are no more than `n` questions.
proof fn questions_bounded(writes: Seq<(String, String)>, n: nat)
    requires
        forall|i: nat| i < n ==> table(writes).contains_key(#[trigger] qa_key(i, "_question"@)),
    ensures
        n <= writes.len(),
{
    let at = Seq::new(
        n,
        |i: int|
            choose|j: int|
                0 <= j < writes.len() && #[trigger] writes[j].0@ == qa_key(
                    i as nat,
                    "_question"@,
                ),
    );
    assert forall|i: int| 0 <= i < n implies 0 <= #[trigger] at[i] < writes.len()
        && writes[at[i]].0@ == qa_key(i as nat, "_question"@) by {
        assert(table(writes).contains_key(qa_key(i as nat, "_question"@)));
        let j = set_key_has_write(writes, qa_key(i as nat, "_question"@));
        assert(writes[j].0@ == qa_key(i as nat, "_question"@));
    }
    assert forall|a: int, b: int| 0 <= a < n && 0 <= b < n && a != b implies #[trigger] at[a]
        != #[trigger] at[b] by {
        if at[a] == at[b] {
            law_qa_keys_distinct(a as nat, "_question"@, b as nat, "_question"@);
        }
    }
    distinct_indices_bounded(at, writes.len());
}

/// Distinct indices below `n` number at most `n`.
proof fn distinct_indices_bounded(s: Seq<int>, n: nat)
    requires
        s.no_duplicates(),
        forall|i: int| 0 <= i < s.len() ==> 0 <= #[trigger] s[i] < n,
    ensures
        s.len() <= n,
{
    s.unique_seq_to_set();
    lemma_int_range(0, n as int);
    assert(s.to_set().subset_of(set_int_range(0, n as int)));
    lemma_len_subset(s.to_set(), set_int_range(0, n as int));
}

/// The security questions that were set up.
pub fn qa_questions(meta: &Meta) -> (r: Vec<String>)
    ensures
        are_questions(meta@, crate::text::views(r@)),
{
    let mut out: Vec<String> = Vec::new();
    let total = meta.writes.len();
    loop
        invariant
            total == meta.log().len(),
            meta@ == table(meta.log()),
            forall|i: nat|
                i < out@.len() ==> meta@.contains_key(#[trigger] qa_key(i, "_question"@))
                    && meta@[qa_key(i, "_question"@)] == out@[i as int]@,
        decreases total - out@.len(),
    {
        let ghost n = out@.len();
        let key = qa_key_text(out.len(), "_question");
        match get_meta(meta, key.as_str()) {
            Some(q) => {
                out.push(q);
                proof {
                    assert forall|i: nat| i < n + 1 implies meta@.contains_key(
                        #[trigger] qa_key(i, "_question"@),
                    ) && meta@[qa_key(i, "_question"@)] == out@[i as int]@ by {}
                    questions_bounded(meta.log(), n + 1);
                }
            },
            None => {
                return out;
            },
        }
    }
}

/// Whether recovery by what the reading of the machine code came to gave `r`.
pub open spec fn recovered_by(
    meta: Meta,
    code: Result<String, CryptoError>,
    r: Result<Vault, UnlockError>,
) -> bool {
    if meta@.contains_key(META_MACHINE_WRAPPED@) {
        match code {
            Ok(c) => unlocks(meta, META_MACHINE_WRAPPED@, c@, r),
            Err(e) => r matches Err(UnlockError::Db(why)) && e.is_message(why@),
        }
    } else {
        r matches Err(UnlockError::NotConfigured)
    }
}

/// Unlocks a vault with what the reading of the machine code came to.
pub fn recover_with_code(meta: &Meta, code: Result<String, CryptoError>) -> (r: Result<
    Vault,
    UnlockError,
>)
    ensures
        !meta@.contains_key(META_MACHINE_WRAPPED@) ==> r matches Err(UnlockError::NotConfigured),
        meta@.contains_key(META_MACHINE_WRAPPED@) ==> match code {
            Ok(c) => unlocks(*meta, META_MACHINE_WRAPPED@, c@, r),
            Err(e) => r matches Err(UnlockError::Db(why)) && e.is_message(why@),
        },
{
    match get_meta(meta, META_MACHINE_WRAPPED) {
        Some(wrapped) => match code {
            Ok(c) => {
                let key = unwrap_key(c.as_str().as_bytes(), wrapped.as_str());
                assert(unwrapping_gave(encode_utf8(c@), wrapped@, outcome(key)));
                unlock(meta, key)
            },
            Err(e) => Err(UnlockError::Db(e.message())),
        },
        None => Err(UnlockError::NotConfigured),
    }
}

/// Unlocks a vault with the code of this machine. Whoever can use the machine
/// can take this path.
pub fn recover_with_machine(meta: &Meta) -> (r: Result<Vault, UnlockError>)
    ensures
        !meta@.contains_key(META_MACHINE_WRAPPED@) ==> r matches Err(UnlockError::NotConfigured),
        meta@.contains_key(META_MACHINE_WRAPPED@) ==> match r {
            Err(UnlockError::Db(why)) => exists|e: CryptoError| #[trigger]
                e.is_message(why@) && e@ is MachineId,
            _ => exists|code: Seq<char>| #[trigger]
                unlocks(*meta, META_MACHINE_WRAPPED@, code, r),
        },
        exists|code: Result<String, CryptoError>| #[trigger]
            machine_read(code) && recovered_by(*meta, code, r),
{
    let code = machine_code();
    let ghost read = code;
    let r = recover_with_code(meta, code);
    proof {
        if meta@.contains_key(META_MACHINE_WRAPPED@) {
            match read {
                Ok(c) => {
                    assert(unlocks(*meta, META_MACHINE_WRAPPED@, c@, r));
                },
                Err(_) => {},
            }
        }
        assert(machine_read(read) && recovered_by(*meta, read, r));
    }
    r
}

/// Unlocks a vault with the answer to a security question.
pub fn recover_with_qa(meta: &Meta, index: usize, answer: &str) -> (r: Result<Vault, UnlockError>)
    ensures
        !meta@.contains_key(qa_key(index as nat, "_wrapped"@)) ==> r matches Err(
            UnlockError::NotConfigured,
        ),
        meta@.contains_key(qa_key(index as nat, "_wrapped"@)) ==> unlocks(
            *meta,
            qa_key(index as nat, "_wrapped"@),
            answer@,
            r,
        ),
{
    let wrapped_key = qa_key_text(index, "_wrapped");
    match get_meta(meta, wrapped_key.as_str()) {
        Some(wrapped) => {
            let key = unwrap_key(answer.as_bytes(), wrapped.as_str());
            assert(unwrapping_gave(encode_utf8(answer@), wrapped@, outcome(key)));
            unlock(meta, key)
        },
        None => Err(UnlockError::NotConfigured),
    }
}

/// Every credential chosen when a vault was set up unlocks the one vault key:
/// the master password, each answer, and the machine code where it was bound.
pub proof fn law_init_credentials_unlock(
    before: Map<Seq<char>, Seq<char>>,
    m: Map<Seq<char>, Seq<char>>,
    master: Seq<char>,
    code: Seq<char>,
    qa: Seq<(String, String)>,
    key: Seq<u8>,
    machine: bool,
)
    requires
        written(
            before,
            m,
            master,
            code,
            qa,
            key,
            (Written { master: true, machine, questions: qa.len() }),
        ),
    ensures
        unwrapped(encode_utf8(master), m[META_MASTER_WRAPPED@]) == Ok::<Seq<u8>, Fault>(key),
        machine ==> unwrapped(encode_utf8(code), m[META_MACHINE_WRAPPED@]) == Ok::<Seq<u8>, Fault>(
            key,
        ),
        forall|i: nat|
            i < qa.len() ==> unwrapped(
                encode_utf8(qa[i as int].1@),
                m[#[trigger] qa_key(i, "_wrapped"@)],
            ) == Ok::<Seq<u8>, Fault>(key),
{
    assert forall|i: nat| i < qa.len() implies unwrapped(
        encode_utf8(qa[i as int].1@),
        m[#[trigger] qa_key(i, "_wrapped"@)],
    ) == Ok::<Seq<u8>, Fault>(key) by {
        assert(holds_question(m, i, qa[i as int].0@, qa[i as int].1@, key));
    }
}

/// Whichever credential of a new vault unlocks it, by whichever path, the key
/// is the one vault key, so that all paths decrypt the same passwords.
pub proof fn law_every_path_same_key(
    before: Map<Seq<char>, Seq<char>>,
    meta: Meta,
    master: Seq<char>,
    code: Seq<char>,
    qa: Seq<(String, String)>,
    key: Seq<u8>,
    machine: bool,
)
    requires
        written(
            before,
            meta@,
            master,
            code,
            qa,
            key,
            (Written { master: true, machine, questions: qa.len() }),
        ),
    ensures
        forall|v: Vault| #[trigger]
            unlocks(meta, META_MASTER_WRAPPED@, master, Ok(v)) ==> v.key() == key,
        machine ==> forall|v: Vault| #[trigger]
            unlocks(meta, META_MACHINE_WRAPPED@, code, Ok(v)) ==> v.key() == key,
        forall|i: nat, v: Vault|
            i < qa.len() && #[trigger] unlocks(
                meta,
                qa_key(i, "_wrapped"@),
                qa[i as int].1@,
                Ok(v),
            ) ==> v.key() == key,
{
    law_init_credentials_unlock(before, meta@, master, code, qa, key, machine);
}

/// Whether `s` has the shape of a time stamp, `YYYY-MM-DD HH:MM:SS`; a year
/// outside four digits is longer.
pub open spec fn is_stamp(s: Seq<char>) -> bool {
    let n = s.len();
    &&& n >= 19
    &&& s[n - 15] == '-' && is_digit(s[n - 14]) && is_digit(s[n - 13])
    &&& s[n - 12] == '-' && is_digit(s[n - 11]) && is_digit(s[n - 10])
    &&& s[n - 9] == ' ' && is_digit(s[n - 8]) && is_digit(s[n - 7])
    &&& s[n - 6] == ':' && is_digit(s[n - 5]) && is_digit(s[n - 4])
    &&& s[n - 3] == ':' && is_digit(s[n - 2]) && is_digit(s[n - 1])
}

/// Calls `chrono::Local::now` and writes the time with `DateTime::format`.
/// What is claimed of it: in the format given here, the year has four or more
/// characters and the other parts have two digits each. Another format can
/// make the call panic. The call does not return where the clock of the system
/// stands before 1970.
#[verifier::external_body]
fn local_time(format: &str) -> (r: String)
    requires
        format@ == "%Y-%m-%d %H:%M:%S"@,
    ensures
        is_stamp(r@),
{
    chrono::Local::now().format(format).to_string()
}

/// Whether this stamp is what a reading of the clock gave, as year, month,
/// day, hour, minute and second of the local time.
pub closed spec fn clock_read(stamp: String) -> bool {
    exists|format: &str|
        format@ == "%Y-%m-%d %H:%M:%S"@ && #[trigger] call_ensures(local_time, (format,), stamp)
}

/// What a reading of the clock gives has the shape of a time stamp.
pub proof fn law_clock_read_is_stamp(stamp: String)
    requires
        clock_read(stamp),
    ensures
        is_stamp(stamp@),
{
}

/// The current local time.
fn now_stamp() -> (r: String)
    ensures
        is_stamp(r@),
        clock_read(r),
{
    local_time("%Y-%m-%d %H:%M:%S")
}

impl NewRecord {
    /// Whether this is what is stored of an entered record: the texts without
    /// white space at either end, and the password encrypted under the vault
    /// key, so that it decrypts to the password as entered.
    pub open spec fn stores(&self, r: RecordIn, key: Seq<u8>) -> bool {
        &&& self.app_name@ == trimmed(r.app_name@)
        &&& self.nick_name@ == trimmed(r.nick_name@)
        &&& self.user_name@ == trimmed(r.user_name@)
        &&& self.user_id@ == trimmed(r.user_id@)
        &&& self.voucher@ == trimmed(r.voucher@)
        &&& self.register@ == trimmed(r.register@)
        &&& self.remark@ == trimmed(r.remark@)
        &&& is_encryption(key, r.password@, self.password_blob@)
        &&& decrypted(key, self.password_blob@) == Ok::<Seq<char>, Fault>(r.password@)
    }

    /// The record under the id that the database gave it.
    pub fn with_id(self, id: i64) -> (r: Record)
        ensures
            r.id == id,
            r.app_name == self.app_name,
            r.nick_name == self.nick_name,
            r.user_name == self.user_name,
            r.user_id == self.user_id,
            r.voucher == self.voucher,
            r.register == self.register,
            r.remark == self.remark,
            r.password_blob == self.password_blob,
            r.stamp == self.stamp,
    {
        Record {
            id,
            app_name: self.app_name,
            nick_name: self.nick_name,
            user_name: self.user_name,
            user_id: self.user_id,
            voucher: self.voucher,
            register: self.register,
            remark: self.remark,
            password_blob: self.password_blob,
            stamp: self.stamp,
        }
    }
}

impl Record {
    /// Whether this is what is stored of an entered record.
    pub open spec fn stores(&self, r: RecordIn, key: Seq<u8>) -> bool {
        NewRecord {
            app_name: self.app_name,
            nick_name: self.nick_name,
            user_name: self.user_name,
            user_id: self.user_id,
            voucher: self.voucher,
            register: self.register,
            remark: self.remark,
            password_blob: self.password_blob,
            stamp: self.stamp,
        }.stores(r, key)
    }
}

/// Whether the row at index `a` is listed before the one at index `b`: by the
/// sort keys of the names, and by index where the keys are equal.
pub open spec fn listed_before(rows: Seq<Record>, a: int, b: int) -> bool {
    let ka = key_of(rows[a].app_name@);
    let kb = key_of(rows[b].app_name@);
    key_le(ka, kb) && (ka == kb ==> a < b)
}

/// Whether `order` gives, for each place of a listing, the index of the row
/// that stands there.
pub open spec fn is_order(rows: Seq<Record>, order: Seq<int>) -> bool {
    &&& order.len() == rows.len()
    &&& order.no_duplicates()
    &&& forall|i: int| 0 <= i < order.len() ==> 0 <= #[trigger] order[i] < rows.len()
    &&& forall|i: int, j: int|
        0 <= i < j < order.len() ==> listed_before(rows, #[trigger] order[i], #[trigger] order[j])
}

/// Whether `out` holds the rows in the places that `order` gives.
pub open spec fn placed(rows: Seq<Record>, order: Seq<int>, out: Seq<Record>) -> bool {
    &&& out.len() == order.len()
    &&& forall|i: int| 0 <= i < out.len() ==> #[trigger] out[i] == rows[order[i]]
}

/// Whether `out` is the listing of the rows: the same rows, ordered by the
/// sort keys of their names, rows with equal keys in the order in which they
/// came.
pub open spec fn is_listing(rows: Seq<Record>, out: Seq<Record>) -> bool {
    exists|order: Seq<int>| #[trigger] is_order(rows, order) && placed(rows, order, out)
}

/// An order without duplicates over the indices of the rows names each index.
proof fn order_names_all(order: Seq<int>, n: nat, x: int)
    requires
        order.len() == n,
        order.no_duplicates(),
        forall|i: int| 0 <= i < order.len() ==> 0 <= #[trigger] order[i] < n,
        0 <= x < n,
    ensures
        order.contains(x),
{
    if !order.contains(x) {
        let more = order.push(x);
        assert forall|a: int, b: int| 0 <= a < more.len() && 0 <= b < more.len() && a
            != b implies #[trigger] more[a] != #[trigger] more[b] by {
            if a == n {
                assert(order.contains(more[b]));
            } else if b == n {
                assert(order.contains(more[a]));
            }
        }
        distinct_indices_bounded(more, n);
    }
}

/// The rows have one listing.
pub proof fn law_listing_unique(rows: Seq<Record>, a: Seq<Record>, b: Seq<Record>)
    requires
        is_listing(rows, a),
        is_listing(rows, b),
    ensures
        a == b,
{
    let p = choose|order: Seq<int>| #[trigger]
        is_order(rows, order) && placed(rows, order, a);
    let q = choose|order: Seq<int>| #[trigger]
        is_order(rows, order) && placed(rows, order, b);
    assert forall|i: int| 0 <= i < rows.len() implies p[i] == q[i] by {
        orders_agree(rows, p, q, i);
    }
    assert(a == b);
}

/// Two orders of the rows agree at each place.
proof fn orders_agree(rows: Seq<Record>, p: Seq<int>, q: Seq<int>, i: int)
    requires
        is_order(rows, p),
        is_order(rows, q),
        0 <= i < rows.len(),
    ensures
        p[i] == q[i],
    decreases i,
{
    assert forall|j: int| 0 <= j < i implies p[j] == q[j] by {
        orders_agree(rows, p, q, j);
    }
    if p[i] != q[i] {
        order_names_all(q, rows.len(), p[i]);
        order_names_all(p, rows.len(), q[i]);
        let j = choose|j: int| 0 <= j < q.len() && q[j] == p[i];
        let k = choose|k: int| 0 <= k < p.len() && p[k] == q[i];
        assert(j > i) by {
            if j < i {
                assert(p[j] == p[i]);
            }
        }
        assert(k > i) by {
            if k < i {
                assert(q[k] == q[i]);
            }
        }
        assert(listed_before(rows, p[i], p[k]));
        assert(listed_before(rows, q[i], q[j]));
        let ka = key_of(rows[p[i]].app_name@);
        let kb = key_of(rows[q[i]].app_name@);
        law_key_order(ka, kb, ka);
    }
}

/// A listing shows names that start with an ASCII letter or digit first, then
/// those that start with a Chinese character, then all others.
pub proof fn law_listing_groups(rows: Seq<Record>, out: Seq<Record>, i: int, j: int)
    requires
        is_listing(rows, out),
        0 <= i < j < out.len(),
    ensures
        group_of(out[i].app_name@) <= group_of(out[j].app_name@),
        key_le(key_of(out[i].app_name@), key_of(out[j].app_name@)),
{
    let order = choose|order: Seq<int>| #[trigger]
        is_order(rows, order) && placed(rows, order, out);
    assert(listed_before(rows, order[i], order[j]));
}

/// A listing holds each row as often as it was given.
pub proof fn law_listing_keeps_rows(rows: Seq<Record>, out: Seq<Record>)
    requires
        is_listing(rows, out),
    ensures
        out.to_multiset() == rows.to_multiset(),
{
    let order = choose|order: Seq<int>| #[trigger]
        is_order(rows, order) && placed(rows, order, out);
    permutation_keeps(rows, order, out);
}

/// A sequence whose places hold distinct elements of another of the same
/// length has the same elements.
proof fn permutation_keeps(rows: Seq<Record>, order: Seq<int>, out: Seq<Record>)
    requires
        order.len() == rows.len(),
        order.no_duplicates(),
        forall|i: int| 0 <= i < order.len() ==> 0 <= #[trigger] order[i] < rows.len(),
        placed(rows, order, out),
    ensures
        out.to_multiset() == rows.to_multiset(),
    decreases rows.len(),
{
    broadcast use group_to_multiset_ensures;

    if rows.len() > 0 {
        let n = (rows.len() - 1) as int;
        order_names_all(order, rows.len(), n);
        let p = choose|p: int| 0 <= p < order.len() && order[p] == n;
        let less = order.remove(p);
        let rest = out.remove(p);
        assert forall|i: int| 0 <= i < less.len() implies 0 <= #[trigger] less[i] < n by {
            if i < p {
                assert(less[i] == order[i]);
            } else {
                assert(less[i] == order[i + 1]);
            }
        }
        assert(less.no_duplicates());
        assert forall|i: int| 0 <= i < rest.len() implies #[trigger] rest[i]
            == rows.drop_last()[less[i]] by {
            if i < p {
                assert(rest[i] == out[i] && less[i] == order[i]);
            } else {
                assert(rest[i] == out[i + 1] && less[i] == order[i + 1]);
            }
        }
        permutation_keeps(rows.drop_last(), less, rest);
        assert(out == rest.insert(p, rows.last()));
        assert(rows == rows.drop_last().push(rows.last()));
    } else {
        assert(out == rows);
    }
}

/// Placing a further row keeps an order.
proof fn order_extends(rows: Seq<Record>, order: Seq<int>, p: int, row: Record)
    requires
        is_order(rows, order),
        0 <= p <= rows.len(),
        forall|j: int|
            0 <= j < p ==> key_le(
                key_of(rows[#[trigger] order[j]].app_name@),
                key_of(row.app_name@),
            ),
        forall|j: int|
            p <= j < rows.len() ==> !key_le(
                key_of(rows[#[trigger] order[j]].app_name@),
                key_of(row.app_name@),
            ),
    ensures
        is_order(rows.push(row), order.insert(p, rows.len() as int)),
{
    let n = rows.len();
    let more = rows.push(row);
    let next = order.insert(p, n as int);
    assert forall|i: int| 0 <= i < next.len() implies 0 <= #[trigger] next[i] < more.len() by {
        if i > p {
            assert(next[i] == order[i - 1]);
        }
    }
    assert forall|i: int, j: int| 0 <= i < j < next.len() implies listed_before(
        more,
        #[trigger] next[i],
        #[trigger] next[j],
    ) && next[i] != next[j] by {
        let a = if i < p {
            i
        } else {
            i - 1
        };
        let b = if j < p {
            j
        } else {
            j - 1
        };
        if i == p {
            assert(next[j] == order[b]);
            law_key_order(key_of(row.app_name@), key_of(rows[order[b]].app_name@), key_of(
                row.app_name@,
            ));
        } else if j == p {
            assert(next[i] == order[a]);
        } else {
            assert(next[i] == order[a] && next[j] == order[b]);
            assert(listed_before(rows, order[a], order[b]));
        }
    }
    assert(next.no_duplicates());
}

/// Whether a record matches a keyword in one of its texts.
pub open spec fn record_matches(r: Record, keyword: Seq<char>) -> bool {
    ||| fuzzy(r.app_name@, keyword)
    ||| fuzzy(r.nick_name@, keyword)
    ||| fuzzy(r.user_name@, keyword)
    ||| fuzzy(r.user_id@, keyword)
    ||| fuzzy(r.voucher@, keyword)
    ||| fuzzy(r.register@, keyword)
    ||| fuzzy(r.remark@, keyword)
}

/// The records that match a keyword, in their order.
pub open spec fn matching(rows: Seq<Record>, keyword: Seq<char>) -> Seq<Record> {
    rows.filter(|r: Record| record_matches(r, keyword))
}

/// Whether `out` is what a search of the rows gives: the matching records of
/// their listing, or all of it where the keyword is empty.
pub open spec fn is_search(rows: Seq<Record>, keyword: Seq<char>, out: Seq<Record>) -> bool {
    if trimmed(keyword).len() == 0 {
        is_listing(rows, out)
    } else {
        exists|sorted: Seq<Record>| #[trigger]
            is_listing(rows, sorted) && out == matching(sorted, trimmed(keyword))
    }
}

/// A search gives one result.
pub proof fn law_search_unique(
    rows: Seq<Record>,
    keyword: Seq<char>,
    a: Seq<Record>,
    b: Seq<Record>,
)
    requires
        is_search(rows, keyword, a),
        is_search(rows, keyword, b),
    ensures
        a == b,
{
    if trimmed(keyword).len() == 0 {
        law_listing_unique(rows, a, b);
    } else {
        let x = choose|sorted: Seq<Record>| #[trigger]
            is_listing(rows, sorted) && a == matching(sorted, trimmed(keyword));
        let y = choose|sorted: Seq<Record>| #[trigger]
            is_listing(rows, sorted) && b == matching(sorted, trimmed(keyword));
        law_listing_unique(rows, x, y);
    }
}

/// A search gives each record that matches, and no other.
pub proof fn law_search_complete(
    rows: Seq<Record>,
    keyword: Seq<char>,
    out: Seq<Record>,
    r: Record,
)
    requires
        is_search(rows, keyword, out),
        trimmed(keyword).len() > 0,
    ensures
        out.contains(r) <==> rows.contains(r) && record_matches(r, trimmed(keyword)),
{
    let kw = trimmed(keyword);
    let sorted = choose|sorted: Seq<Record>| #[trigger]
        is_listing(rows, sorted) && out == matching(sorted, kw);
    let order = choose|order: Seq<int>| #[trigger]
        is_order(rows, order) && placed(rows, order, sorted);
    let pred = |r: Record| record_matches(r, kw);
    filter_contains(sorted, pred, r);
    if sorted.contains(r) {
        let i = choose|i: int| 0 <= i < sorted.len() && sorted[i] == r;
        assert(rows[order[i]] == r);
    }
    if rows.contains(r) {
        let i = choose|i: int| 0 <= i < rows.len() && rows[i] == r;
        order_names_all(order, rows.len(), i);
        let j = choose|j: int| 0 <= j < order.len() && order[j] == i;
        assert(sorted[j] == r);
    }
}

/// A record added to the rows is in their listing.
pub proof fn law_added_is_listed(rows: Seq<Record>, rec: Record, out: Seq<Record>)
    requires
        is_listing(rows.push(rec), out),
    ensures
        out.contains(rec),
        out.len() == rows.len() + 1,
{
    let more = rows.push(rec);
    let order = choose|order: Seq<int>| #[trigger]
        is_order(more, order) && placed(more, order, out);
    let n = rows.len() as int;
    order_names_all(order, more.len(), n);
    let i = choose|i: int| 0 <= i < order.len() && order[i] == n;
    assert(out[i] == rec);
}

/// A stored record is found by its name.
pub proof fn law_found_by_name(rows: Seq<Record>, rec: Record, out: Seq<Record>)
    requires
        rows.contains(rec),
        trimmed(rec.app_name@).len() > 0,
        is_search(rows, rec.app_name@, out),
    ensures
        out.contains(rec),
{
    law_fuzzy_reflexive(rec.app_name@);
    law_fuzzy_ignores_outer_space(rec.app_name@, rec.app_name@);
    law_search_complete(rows, rec.app_name@, out, rec);
}

/// A filtered sequence holds what the sequence holds and the predicate takes.
proof fn filter_contains(s: Seq<Record>, pred: spec_fn(Record) -> bool, r: Record)
    ensures
        s.filter(pred).contains(r) <==> s.contains(r) && pred(r),
    decreases s.len(),
{
    reveal(Seq::filter);
    if s.len() > 0 {
        let less = s.drop_last();
        filter_contains(less, pred, r);
        let f = less.filter(pred);
        assert(s == less.push(s.last()));
        assert(s.contains(r) <==> less.contains(r) || s.last() == r) by {
            if less.contains(r) {
                let i = choose|i: int| 0 <= i < less.len() && less[i] == r;
                assert(s[i] == r);
            }
            if s.last() == r {
                assert(s[s.len() - 1] == r);
            }
        }
        if pred(s.last()) {
            let g = f.push(s.last());
            assert(g.contains(r) <==> f.contains(r) || s.last() == r) by {
                if f.contains(r) {
                    let i = choose|i: int| 0 <= i < f.len() && f[i] == r;
                    assert(g[i] == r);
                }
                if s.last() == r {
                    assert(g[g.len() - 1] == r);
                }
            }
        }
    }
}

/// The display mode that a table holds; without one it is paged.
pub open spec fn mode_in(m: Map<Seq<char>, Seq<char>>) -> DisplayMode {
    if m.contains_key(META_DISPLAY_MODE@) {
        mode_of(m[META_DISPLAY_MODE@])
    } else {
        DisplayMode::Paged
    }
}

/// A new master password leaves the security questions, and every way to
/// unlock but the master password, as they were.
pub proof fn law_reset_keeps_recovery(
    before: Map<Seq<char>, Seq<char>>,
    after: Map<Seq<char>, Seq<char>>,
)
    requires
        after.remove(META_MASTER_SALT@).remove(META_MASTER_WRAPPED@) == before.remove(
            META_MASTER_SALT@,
        ).remove(META_MASTER_WRAPPED@),
    ensures
        forall|questions: Seq<Seq<char>>| #[trigger]
            are_questions(before, questions) ==> are_questions(after, questions),
        after.contains_key(META_MACHINE_WRAPPED@) == before.contains_key(META_MACHINE_WRAPPED@),
        before.contains_key(META_MACHINE_WRAPPED@) ==> after[META_MACHINE_WRAPPED@]
            == before[META_MACHINE_WRAPPED@],
        forall|i: nat|
            before.contains_key(#[trigger] qa_key(i, "_wrapped"@)) ==> after.contains_key(
                qa_key(i, "_wrapped"@),
            ) && after[qa_key(i, "_wrapped"@)] == before[qa_key(i, "_wrapped"@)],
        mode_in(after) == mode_in(before),
{
    law_fixed_keys_distinct();
    kept_elsewhere(before, after, META_MACHINE_WRAPPED@);
    kept_elsewhere(before, after, META_DISPLAY_MODE@);
    assert forall|i: nat| before.contains_key(#[trigger] qa_key(i, "_wrapped"@)) implies {
        &&& after.contains_key(qa_key(i, "_wrapped"@))
        &&& after[qa_key(i, "_wrapped"@)] == before[qa_key(i, "_wrapped"@)]
    } by {
        law_qa_keys_apart(i, "_wrapped"@);
        kept_elsewhere(before, after, qa_key(i, "_wrapped"@));
    }
    assert forall|questions: Seq<Seq<char>>| #[trigger]
        are_questions(before, questions) implies are_questions(after, questions) by {
        assert forall|j: nat| j < questions.len() implies after.contains_key(
            #[trigger] qa_key(j, "_question"@),
        ) && after[qa_key(j, "_question"@)] == questions[j as int] by {
            law_qa_keys_apart(j, "_question"@);
            kept_elsewhere(before, after, qa_key(j, "_question"@));
        }
        law_qa_keys_apart(questions.len(), "_question"@);
        kept_elsewhere(before, after, qa_key(questions.len(), "_question"@));
    }
}

/// Tables that agree but for the entries of the master password agree at any
/// other key.
proof fn kept_elsewhere(
    before: Map<Seq<char>, Seq<char>>,
    after: Map<Seq<char>, Seq<char>>,
    k: Seq<char>,
)
    requires
        after.remove(META_MASTER_SALT@).remove(META_MASTER_WRAPPED@) == before.remove(
            META_MASTER_SALT@,
        ).remove(META_MASTER_WRAPPED@),
        k != META_MASTER_SALT@,
        k != META_MASTER_WRAPPED@,
    ensures
        after.contains_key(k) == before.contains_key(k),
        after.contains_key(k) ==> after[k] == before[k],
{
    let a = after.remove(META_MASTER_SALT@).remove(META_MASTER_WRAPPED@);
    let b = before.remove(META_MASTER_SALT@).remove(META_MASTER_WRAPPED@);
    assert(a.contains_key(k) == after.contains_key(k));
    assert(b.contains_key(k) == before.contains_key(k));
    if after.contains_key(k) {
        assert(a[k] == after[k]);
        assert(b[k] == before[k]);
    }
}

/// Whether `text` is the message of a failed key derivation from a secret.
pub open spec fn derivation_failure(secret: Seq<char>, text: Seq<char>) -> bool {
    exists|e: CryptoError| #[trigger]
        e.is_message(text) && secret_refused(secret, e@) && derivation_failed(secret, e)
}

/// Whether a derivation from a secret, under a drawn salt, failed with this
/// error.
pub open spec fn derivation_failed(secret: Seq<char>, e: CryptoError) -> bool {
    exists|salt: Seq<u8>| #[trigger]
        drawn(salt) && derivation(encode_utf8(secret), salt, Err(e))
}

impl Record {
    /// A record with the same contents.
    pub fn copy(&self) -> (r: Record)
        ensures
            r == *self,
    {
        Record {
            id: self.id,
            app_name: self.app_name.clone(),
            nick_name: self.nick_name.clone(),
            user_name: self.user_name.clone(),
            user_id: self.user_id.clone(),
            voucher: self.voucher.clone(),
            register: self.register.clone(),
            remark: self.remark.clone(),
            password_blob: self.password_blob.clone(),
            stamp: self.stamp.clone(),
        }
    }
}

/// The message for an id that no stored record has.
pub open spec fn missing_message() -> Seq<char> {
    "记录不存在，可能已被删除"@
}

/// What an update or a deletion comes to, by the number of rows it changed.
pub fn check_affected(n: usize) -> (r: Result<(), String>)
    ensures
        match r {
            Ok(()) => n > 0,
            Err(why) => n == 0 && why@ == missing_message(),
        },
{
    if n == 0 {
        return Err("记录不存在，可能已被删除".to_owned());
    }
    Ok(())
}

impl Vault {
    /// The table `meta`.
    pub fn meta(&self) -> (r: &Meta)
        ensures
            r@ == self.table(),
            r.log() == self.log(),
    {
        &self.meta
    }

    /// What is stored of an entered record at a given time.
    pub fn add_at(&self, r: &RecordIn, stamp: String) -> (out: Result<NewRecord, String>)
        ensures
            match out {
                Ok(n) => encryptable(r.password@) && n.stores(*r, self.key()) && n.stamp == stamp,
                Err(why) => !encryptable(r.password@) && why@ == "加解密失败"@,
            },
            out matches Ok(n) ==> freshly_encrypted(n.password_blob@),
    {
        let blob = match crypto::encrypt_password(&self.vault_key, r.password.as_str()) {
            Ok(b) => b,
            Err(e) => return Err(e.message()),
        };
        Ok(
            NewRecord {
                app_name: r.app_name.as_str().trim().to_owned(),
                nick_name: r.nick_name.as_str().trim().to_owned(),
                user_name: r.user_name.as_str().trim().to_owned(),
                user_id: r.user_id.as_str().trim().to_owned(),
                voucher: r.voucher.as_str().trim().to_owned(),
                register: r.register.as_str().trim().to_owned(),
                remark: r.remark.as_str().trim().to_owned(),
                password_blob: blob,
                stamp,
            },
        )
    }

    /// What is stored of a new record; the password is encrypted.
    pub fn add(&self, r: &RecordIn) -> (out: Result<NewRecord, String>)
        ensures
            match out {
                Ok(n) => encryptable(r.password@) && n.stores(*r, self.key()) && is_stamp(
                    n.stamp@,
                ),
                Err(why) => !encryptable(r.password@) && why@ == "加解密失败"@,
            },
            out matches Ok(n) ==> clock_read(n.stamp) && freshly_encrypted(n.password_blob@),
    {
        self.add_at(r, now_stamp())
    }

    /// What replaces the stored record `id`: the password is encrypted anew,
    /// and the time of the change is the present.
    pub fn save(&self, id: i64, r: &RecordIn) -> (out: Result<Record, String>)
        ensures
            match out {
                Ok(n) => encryptable(r.password@) && n.id == id && n.stores(*r, self.key())
                    && is_stamp(n.stamp@),
                Err(why) => !encryptable(r.password@) && why@ == "加解密失败"@,
            },
            out matches Ok(n) ==> clock_read(n.stamp) && freshly_encrypted(n.password_blob@),
    {
        match self.add(r) {
            Ok(n) => Ok(n.with_id(id)),
            Err(why) => Err(why),
        }
    }

    /// All records, ordered by name: names that start with an ASCII letter or
    /// digit first, then Chinese names by pinyin, then all others.
    pub fn list(&self, rows: Vec<Record>) -> (out: Vec<Record>)
        ensures
            is_listing(rows@, out@),
    {
        let mut out: Vec<Record> = Vec::new();
        let mut keys: Vec<(u8, String)> = Vec::new();
        let ghost mut order: Seq<int> = Seq::empty();
        let ghost all = rows@;
        for rec in it: rows
            invariant
                it.seq() == all,
                is_order(all.take(it.index()), order),
                placed(all.take(it.index()), order, out@),
                keys@.len() == out@.len(),
                forall|j: int|
                    0 <= j < keys@.len() ==> (#[trigger] keys@[j].0, keys@[j].1@) == key_of(
                        out@[j].app_name@,
                    ),
        {
            let ghost n = it.index();
            let ghost done = all.take(n);
            assert(all.take(n + 1) == done.push(rec));
            let key = sort_key(rec.app_name.as_str());
            let mut p: usize = out.len();
            while p > 0 && !key_before(&keys[p - 1], &key)
                invariant
                    p <= out@.len(),
                    keys@.len() == out@.len(),
                    (key.0, key.1@) == key_of(rec.app_name@),
                    forall|j: int|
                        0 <= j < keys@.len() ==> (#[trigger] keys@[j].0, keys@[j].1@) == key_of(
                            out@[j].app_name@,
                        ),
                    forall|j: int|
                        p <= j < out@.len() ==> !key_le(
                            key_of(#[trigger] out@[j].app_name@),
                            key_of(rec.app_name@),
                        ),
                decreases p,
            {
                p -= 1;
                assert((keys@[p as int].0, keys@[p as int].1@) == key_of(
                    out@[p as int].app_name@,
                ));
            }
            proof {
                assert forall|j: int| 0 <= j < p implies key_le(
                    key_of(done[#[trigger] order[j]].app_name@),
                    key_of(rec.app_name@),
                ) by {
                    let last = p - 1;
                    assert((keys@[last].0, keys@[last].1@) == key_of(out@[last].app_name@));
                    assert(out@[last] == done[order[last]]);
                    if j < last {
                        assert(listed_before(done, order[j], order[last]));
                        law_key_order(
                            key_of(done[order[j]].app_name@),
                            key_of(out@[last].app_name@),
                            key_of(rec.app_name@),
                        );
                    }
                }
                assert forall|j: int| p <= j < done.len() implies !key_le(
                    key_of(done[#[trigger] order[j]].app_name@),
                    key_of(rec.app_name@),
                ) by {
                    assert(out@[j] == done[order[j]]);
                }
                order_extends(done, order, p as int, rec);
                order = order.insert(p as int, n);
            }
            let ghost before = out@;
            let ghost keys_before = keys@;
            out.insert(p, rec);
            keys.insert(p, key);
            proof {
                assert forall|i: int| 0 <= i < out@.len() implies #[trigger] out@[i] == all.take(
                    n + 1,
                )[order[i]] by {
                    if i < p {
                        assert(out@[i] == before[i]);
                    } else if i > p {
                        assert(out@[i] == before[i - 1]);
                    }
                }
                assert forall|j: int| 0 <= j < keys@.len() implies (
                    #[trigger] keys@[j].0,
                    keys@[j].1@,
                ) == key_of(out@[j].app_name@) by {
                    if j < p {
                        assert(keys@[j] == keys_before[j]);
                    } else if j > p {
                        assert(keys@[j] == keys_before[j - 1]);
                        assert(out@[j] == before[j - 1]);
                    }
                }
            }
        }
        assert(all.take(all.len() as int) == all);
        out
    }

    /// The records in which the keyword occurs, as characters in order with
    /// others between them, in a text, its pinyin or its pinyin initials. They
    /// are ordered as in `list`, and an empty keyword gives all of them.
    pub fn search(&self, rows: Vec<Record>, keyword: &str) -> (out: Vec<Record>)
        ensures
            is_search(rows@, keyword@, out@),
    {
        let kw = keyword.trim();
        let sorted = self.list(rows);
        if kw.is_empty() {
            return sorted;
        }
        let ghost all = sorted@;
        let ghost pred = |r: Record| record_matches(r, kw@);
        let mut out: Vec<Record> = Vec::new();
        proof {
            reveal(Seq::filter);
            assert(all.take(0).filter(pred) == Seq::<Record>::empty());
        }
        for rec in it: sorted
            invariant
                it.seq() == all,
                pred == (|r: Record| record_matches(r, kw@)),
                out@ == all.take(it.index()).filter(pred),
        {
            proof {
                reveal(Seq::filter);
                assert(all.take(it.index() + 1).drop_last() == all.take(it.index()));
                assert(all.take(it.index() + 1).last() == rec);
            }
            if fuzzy_matches(rec.app_name.as_str(), kw) || fuzzy_matches(
                rec.nick_name.as_str(),
                kw,
            ) || fuzzy_matches(rec.user_name.as_str(), kw) || fuzzy_matches(
                rec.user_id.as_str(),
                kw,
            ) || fuzzy_matches(rec.voucher.as_str(), kw) || fuzzy_matches(
                rec.register.as_str(),
                kw,
            ) || fuzzy_matches(rec.remark.as_str(), kw) {
                out.push(rec);
            }
        }
        assert(all.take(all.len() as int) == all);
        out
    }

    /// Decrypts the password of a record. Damaged data gives an error.
    pub fn decrypt(&self, blob: &str) -> (r: Result<String, CryptoError>)
        ensures
            outcome(r) == decrypted(self.key(), blob@),
            r matches Ok(plain) ==> is_encryption(self.key(), plain@, blob@),
    {
        crypto::decrypt_password(&self.vault_key, blob)
    }

    /// Stores a wrapping of the vault key under a new master password, by what
    /// came of it.
    pub fn store_master(&mut self, wrapping: Result<(String, String), CryptoError>) -> (r: Result<
        (),
        String,
    >)
        ensures
            final(self).key() == old(self).key(),
            extends(final(self).log(), old(self).log()),
            wrapping matches Ok((salt, wrapped)) ==> r is Ok && final(self).table() == old(
                self,
            ).table().insert(META_MASTER_SALT@, salt@).insert(META_MASTER_WRAPPED@, wrapped@),
            wrapping matches Err(e) ==> {
                &&& (r matches Err(why) && e.is_message(why@))
                &&& final(self).table() == old(self).table()
                &&& final(self).log() == old(self).log()
            },
    {
        let ghost log = self.meta.log();
        assert(log.take(log.len() as int) == log);
        match wrapping {
            Ok((salt, wrapped)) => {
                store_slot(&mut self.meta, &Slot::Master, salt.as_str(), wrapped.as_str());
                Ok(())
            },
            Err(e) => Err(e.message()),
        }
    }

    /// Wraps the vault key under a new master password. The key, the records
    /// and the recovery paths stay as they are.
    pub fn reset_master(&mut self, new_password: &str) -> (r: Result<(), String>)
        ensures
            final(self).key() == old(self).key(),
            extends(final(self).log(), old(self).log()),
            r is Ok ==> holds_wrapping(
                final(self).table(),
                META_MASTER_SALT@,
                META_MASTER_WRAPPED@,
                new_password@,
                old(self).key(),
            ),
            final(self).table().remove(META_MASTER_SALT@).remove(META_MASTER_WRAPPED@) == old(
                self,
            ).table().remove(META_MASTER_SALT@).remove(META_MASTER_WRAPPED@),
            r matches Err(why) ==> derivation_failure(new_password@, why@) && final(self).table()
                == old(self).table() && final(self).log() == old(self).log(),
            exists|came: Result<(String, String), CryptoError>| #[trigger]
                wrapping_attempt(new_password@, old(self).key(), came) && match came {
                    Ok((salt, wrapped)) => r is Ok && final(self).table() == old(
                        self,
                    ).table().insert(META_MASTER_SALT@, salt@).insert(
                        META_MASTER_WRAPPED@,
                        wrapped@,
                    ),
                    Err(e) => r matches Err(why) && e.is_message(why@),
                },
    {
        let ghost before = self.table();
        let wrapping = fresh_wrapping(new_password, &self.vault_key);
        let ghost came = wrapping;
        let r = self.store_master(wrapping);
        proof {
            law_fixed_keys_distinct();
            assert(wrapping_attempt(new_password@, old(self).key(), came));
            match came {
                Ok((salt, wrapped)) => {
                    assert(self.table()[META_MASTER_SALT@] == salt@);
                    assert(self.table().remove(META_MASTER_SALT@).remove(META_MASTER_WRAPPED@)
                        == before.remove(META_MASTER_SALT@).remove(META_MASTER_WRAPPED@));
                },
                Err(e) => {
                    assert(e.is_message(r->Err_0@));
                    law_wrapping_fails_for_memory(new_password@, old(self).key(), came);
                    assert(derivation_failed(new_password@, e));
                    assert(derivation_failure(new_password@, r->Err_0@));
                },
            }
        }
        r
    }

    /// How the main list is shown.
    pub fn display_mode(&self) -> (r: DisplayMode)
        ensures
            r == mode_in(self.table()),
    {
        match get_meta(&self.meta, META_DISPLAY_MODE) {
            Some(s) => DisplayMode::from_key(s.as_str()),
            None => DisplayMode::Paged,
        }
    }

    /// Sets how the main list is shown; `display_mode` then gives it back.
    pub fn set_display_mode(&mut self, mode: DisplayMode)
        ensures
            final(self).key() == old(self).key(),
            final(self).table() == old(self).table().insert(META_DISPLAY_MODE@, mode_text(mode)),
            mode_in(final(self).table()) == mode,
            extends(final(self).log(), old(self).log()),
    {
        let ghost log = self.meta.log();
        set_meta(&mut self.meta, META_DISPLAY_MODE, mode.as_str());
        proof {
            law_mode_reads_back(mode);
            assert(self.meta.log().take(log.len() as int) == log);
        }
    }
}

/// A saved record keeps its id and bears the time that the clock showed while
/// it was saved; its texts are those entered but for white space at either
/// end, and its password, encrypted under a nonce drawn then, decrypts to the
/// one entered. Saving fails only on a password that is too long to encrypt.
pub proof fn law_save_now(v: &Vault, id: i64, r: &RecordIn, out: Result<Record, String>)
    requires
        call_ensures(Vault::save, (v, id, r), out),
    ensures
        out is Ok <==> encode_utf8(r.password@).len() <= 68_719_476_704,
        out matches Ok(n) ==> {
            &&& n.id == id
            &&& clock_read(n.stamp)
            &&& decrypted(v.key(), n.password_blob@) == Ok::<Seq<char>, Fault>(r.password@)
            &&& freshly_encrypted(n.password_blob@)
            &&& n.app_name@ == trimmed(r.app_name@)
            &&& n.nick_name@ == trimmed(r.nick_name@)
            &&& n.user_name@ == trimmed(r.user_name@)
            &&& n.user_id@ == trimmed(r.user_id@)
            &&& n.voucher@ == trimmed(r.voucher@)
            &&& n.register@ == trimmed(r.register@)
            &&& n.remark@ == trimmed(r.remark@)
        },
{
    crypto::law_encryptable(r.password@);
}

/// A new record bears the time that the clock showed while it was added; its
/// texts are those entered but for white space at either end, and its
/// password, encrypted under a nonce drawn then, decrypts to the one entered.
/// Adding fails only on a password that is too long to encrypt.
pub proof fn law_add_now(v: &Vault, r: &RecordIn, out: Result<NewRecord, String>)
    requires
        call_ensures(Vault::add, (v, r), out),
    ensures
        out is Ok <==> encode_utf8(r.password@).len() <= 68_719_476_704,
        out matches Ok(n) ==> {
            &&& clock_read(n.stamp)
            &&& decrypted(v.key(), n.password_blob@) == Ok::<Seq<char>, Fault>(r.password@)
            &&& freshly_encrypted(n.password_blob@)
            &&& n.app_name@ == trimmed(r.app_name@)
            &&& n.nick_name@ == trimmed(r.nick_name@)
            &&& n.user_name@ == trimmed(r.user_name@)
            &&& n.user_id@ == trimmed(r.user_id@)
            &&& n.voucher@ == trimmed(r.voucher@)
            &&& n.register@ == trimmed(r.register@)
            &&& n.remark@ == trimmed(r.remark@)
        },
{
    crypto::law_encryptable(r.password@);
}

/// The stored record with an id, if there is one.
pub open spec fn found(rows: Seq<Record>, id: i64) -> Option<Record>
    decreases rows.len(),
{
    if rows.len() == 0 {
        None
    } else if rows[0].id == id {
        Some(rows[0])
    } else {
        found(rows.drop_first(), id)
    }
}

/// The rows with `rec` in place of the record that has its id.
pub open spec fn replaced(rows: Seq<Record>, rec: Record) -> Seq<Record> {
    rows.map_values(
        |row: Record|
            if row.id == rec.id {
                rec
            } else {
                row
            },
    )
}

/// The rows without the record that has an id.
pub open spec fn deleted(rows: Seq<Record>, id: i64) -> Seq<Record> {
    rows.filter(|row: Record| row.id != id)
}

/// Whether no two rows have the same id.
pub open spec fn distinct_ids(rows: Seq<Record>) -> bool {
    forall|i: int, j: int|
        0 <= i < j < rows.len() ==> (#[trigger] rows[i]).id != (#[trigger] rows[j]).id
}

/// Adding a record under an id that is not in use keeps ids distinct.
pub proof fn law_push_keeps_distinct(rows: Seq<Record>, rec: Record)
    requires
        distinct_ids(rows),
        found(rows, rec.id) is None,
    ensures
        distinct_ids(rows.push(rec)),
{
    let more = rows.push(rec);
    assert forall|i: int, j: int| 0 <= i < j < more.len() implies (#[trigger] more[i]).id != (
    #[trigger] more[j]).id by {
        if j == rows.len() && rows[i].id == rec.id {
            present_is_found(rows, i);
        }
    }
}

/// Putting a record in place of the one that has its id keeps ids distinct.
pub proof fn law_replace_keeps_distinct(rows: Seq<Record>, rec: Record)
    requires
        distinct_ids(rows),
    ensures
        distinct_ids(replaced(rows, rec)),
{
    let after = replaced(rows, rec);
    assert forall|i: int, j: int| 0 <= i < j < after.len() implies (#[trigger] after[i]).id != (
    #[trigger] after[j]).id by {
        assert(after[i].id == rows[i].id);
        assert(after[j].id == rows[j].id);
    }
}

/// Choosing some of the rows keeps ids distinct.
proof fn filter_keeps_distinct(rows: Seq<Record>, pred: spec_fn(Record) -> bool)
    requires
        distinct_ids(rows),
    ensures
        distinct_ids(rows.filter(pred)),
    decreases rows.len(),
{
    reveal(Seq::filter);
    if rows.len() > 0 {
        let less = rows.drop_last();
        assert forall|i: int, j: int| 0 <= i < j < less.len() implies (#[trigger] less[i]).id != (
        #[trigger] less[j]).id by {
            assert(rows[i].id != rows[j].id);
        }
        filter_keeps_distinct(less, pred);
        let f = less.filter(pred);
        if pred(rows.last()) {
            assert forall|i: int| 0 <= i < f.len() implies (#[trigger] f[i]).id
                != rows.last().id by {
                filter_contains(less, pred, f[i]);
                assert(f.contains(f[i]));
                let k = choose|k: int| 0 <= k < less.len() && less[k] == f[i];
                assert(rows[k].id != rows[rows.len() - 1].id);
            }
        }
    }
}

/// Deleting a record keeps ids distinct.
pub proof fn law_delete_keeps_distinct(rows: Seq<Record>, id: i64)
    requires
        distinct_ids(rows),
    ensures
        distinct_ids(deleted(rows, id)),
{
    filter_keeps_distinct(rows, |row: Record| row.id != id);
}

/// A listing has each id once where the rows have, and so has a search.
pub proof fn law_listed_ids_distinct(rows: Seq<Record>, keyword: Seq<char>, out: Seq<Record>)
    requires
        distinct_ids(rows),
        is_listing(rows, out) || is_search(rows, keyword, out),
    ensures
        distinct_ids(out),
{
    if is_listing(rows, out) {
        listing_keeps_distinct(rows, out);
    } else {
        let kw = trimmed(keyword);
        let sorted = choose|sorted: Seq<Record>| #[trigger]
            is_listing(rows, sorted) && out == matching(sorted, kw);
        listing_keeps_distinct(rows, sorted);
        filter_keeps_distinct(sorted, |r: Record| record_matches(r, kw));
    }
}

proof fn listing_keeps_distinct(rows: Seq<Record>, out: Seq<Record>)
    requires
        distinct_ids(rows),
        is_listing(rows, out),
    ensures
        distinct_ids(out),
{
    let order = choose|order: Seq<int>| #[trigger]
        is_order(rows, order) && placed(rows, order, out);
    assert forall|i: int, j: int| 0 <= i < j < out.len() implies (#[trigger] out[i]).id != (
    #[trigger] out[j]).id by {
        let (a, b) = (order[i], order[j]);
        assert(out[i] == rows[a] && out[j] == rows[b]);
        assert(a != b);
        if a < b {
            assert(rows[a].id != rows[b].id);
        } else {
            assert(rows[b].id != rows[a].id);
        }
    }
}

/// Where ids are distinct, deleting a record that is there leaves one less.
pub proof fn law_delete_takes_one(rows: Seq<Record>, id: i64)
    requires
        distinct_ids(rows),
        found(rows, id) is Some,
    ensures
        deleted(rows, id).len() == rows.len() - 1,
    decreases rows.len(),
{
    reveal(Seq::filter);
    let less = rows.drop_last();
    assert(less.push(rows.last()) == rows);
    found_in_longer(less, rows.last(), id);
    assert forall|i: int, j: int| 0 <= i < j < less.len() implies (#[trigger] less[i]).id != (
    #[trigger] less[j]).id by {
        assert(rows[i].id != rows[j].id);
    }
    if rows.last().id == id {
        if found(less, id) is Some {
            found_is_present(less, id);
            let i = choose|i: int| 0 <= i < less.len() && less[i] == found(less, id)->0;
            assert(rows[i].id != rows[rows.len() - 1].id);
        }
        nothing_deleted(less, id);
    } else {
        law_delete_takes_one(less, id);
    }
}

/// The stored records, as they were read from the database or are to be
/// written to it. No two of them have the same id.
pub struct Records {
    rows: Vec<Record>,
}

impl View for Records {
    type V = Seq<Record>;

    closed spec fn view(&self) -> Seq<Record> {
        self.rows@
    }
}

impl Records {
    #[verifier::type_invariant]
    closed spec fn sound(&self) -> bool {
        distinct_ids(self.rows@)
    }

    /// No records.
    pub fn empty() -> (r: Records)
        ensures
            r@ == Seq::<Record>::empty(),
    {
        Records { rows: Vec::new() }
    }

    /// The records in rows that were read; `None` where two of them have the
    /// same id.
    pub fn new(rows: Vec<Record>) -> (r: Option<Records>)
        ensures
            match r {
                Some(records) => records@ == rows@ && distinct_ids(rows@),
                None => !distinct_ids(rows@),
            },
    {
        let mut i: usize = 0;
        while i < rows.len()
            invariant
                i <= rows@.len(),
                forall|a: int, b: int|
                    0 <= a < b < rows@.len() && a < i ==> (#[trigger] rows@[a]).id != (
                    #[trigger] rows@[b]).id,
            decreases rows@.len() - i,
        {
            let mut j: usize = i + 1;
            while j < rows.len()
                invariant
                    i < j <= rows@.len(),
                    forall|b: int|
                        i < b < j ==> rows@[i as int].id != (#[trigger] rows@[b]).id,
                decreases rows@.len() - j,
            {
                if rows[i].id == rows[j].id {
                    assert(rows@[i as int].id == rows@[j as int].id);
                    return None;
                }
                j += 1;
            }
            i += 1;
        }
        Some(Records { rows })
    }

    /// A copy of all rows.
    pub fn rows(&self) -> (r: Vec<Record>)
        ensures
            r@ == self@,
            distinct_ids(r@),
    {
        proof {
            use_type_invariant(self);
        }
        let mut out: Vec<Record> = Vec::new();
        let mut i: usize = 0;
        while i < self.rows.len()
            invariant
                i <= self.rows@.len(),
                out@ == self.rows@.take(i as int),
            decreases self.rows@.len() - i,
        {
            out.push(self.rows[i].copy());
            assert(self.rows@.take(i + 1) == self.rows@.take(i as int).push(self.rows@[i as int]));
            i += 1;
        }
        assert(self.rows@.take(self.rows@.len() as int) == self.rows@);
        out
    }

    /// How many records there are.
    pub fn count(&self) -> (r: usize)
        ensures
            r == self@.len(),
    {
        self.rows.len()
    }

    /// The record with an id, if there is one.
    pub fn get(&self, id: i64) -> (r: Option<&Record>)
        ensures
            match r {
                Some(rec) => found(self@, id) == Some(*rec),
                None => found(self@, id) is None,
            },
    {
        let mut i: usize = 0;
        assert(self.rows@.skip(0) == self.rows@);
        while i < self.rows.len()
            invariant
                i <= self.rows@.len(),
                found(self.rows@, id) == found(self.rows@.skip(i as int), id),
            decreases self.rows@.len() - i,
        {
            assert(self.rows@.skip(i as int)[0] == self.rows@[i as int]);
            assert(self.rows@.skip(i as int).drop_first() == self.rows@.skip(i + 1));
            if self.rows[i].id == id {
                return Some(&self.rows[i]);
            }
            i += 1;
        }
        None
    }

    /// Adds a record under an id that is not in use.
    pub fn insert(&mut self, rec: Record)
        requires
            found(old(self)@, rec.id) is None,
        ensures
            final(self)@ == old(self)@.push(rec),
            distinct_ids(final(self)@),
    {
        proof {
            use_type_invariant(&*self);
            law_push_keeps_distinct(self.rows@, rec);
        }
        let mut rows = self.rows();
        rows.push(rec);
        self.rows = rows;
    }

    /// Puts a record in place of the one that has its id. Where there is none,
    /// nothing is changed and nothing is added.
    pub fn replace(&mut self, rec: &Record) -> (r: Result<(), String>)
        ensures
            final(self)@ == replaced(old(self)@, *rec),
            distinct_ids(final(self)@),
            match r {
                Ok(()) => found(old(self)@, rec.id) is Some,
                Err(why) => {
                    &&& found(old(self)@, rec.id) is None
                    &&& why@ == missing_message()
                    &&& final(self)@ == old(self)@
                },
            },
    {
        let ghost before = self.rows@;
        let ghost after = replaced(before, *rec);
        proof {
            use_type_invariant(&*self);
            law_replace_keeps_distinct(before, *rec);
        }
        if self.get(rec.id).is_none() {
            proof {
                law_saved_reads_back(before, *rec);
            }
            return Err("记录不存在，可能已被删除".to_owned());
        }
        let mut rows: Vec<Record> = Vec::new();
        let mut i: usize = 0;
        while i < self.rows.len()
            invariant
                i <= self.rows@.len(),
                self.rows@ == before,
                after == replaced(before, *rec),
                rows@ == after.take(i as int),
            decreases self.rows@.len() - i,
        {
            if self.rows[i].id == rec.id {
                rows.push(rec.copy());
            } else {
                rows.push(self.rows[i].copy());
            }
            assert(after.take(i + 1) == after.take(i as int).push(after[i as int]));
            i += 1;
        }
        assert(after.take(after.len() as int) == after);
        self.rows = rows;
        Ok(())
    }

    /// Takes away the record with an id.
    pub fn delete(&mut self, id: i64) -> (r: Result<(), String>)
        ensures
            final(self)@ == deleted(old(self)@, id),
            distinct_ids(final(self)@),
            match r {
                Ok(()) => found(old(self)@, id) is Some && final(self)@.len() == old(self)@.len()
                    - 1,
                Err(why) => {
                    &&& found(old(self)@, id) is None
                    &&& why@ == missing_message()
                    &&& final(self)@ == old(self)@
                },
            },
    {
        let ghost before = self.rows@;
        let ghost keep = |row: Record| row.id != id;
        proof {
            use_type_invariant(&*self);
            law_delete_keeps_distinct(before, id);
        }
        if self.get(id).is_none() {
            proof {
                nothing_deleted(before, id);
            }
            return Err("记录不存在，可能已被删除".to_owned());
        }
        let mut kept: Vec<Record> = Vec::new();
        let mut i: usize = 0;
        proof {
            law_delete_takes_one(before, id);
            reveal(Seq::filter);
            assert(before.take(0).filter(keep) == Seq::<Record>::empty());
        }
        while i < self.rows.len()
            invariant
                i <= self.rows@.len(),
                self.rows@ == before,
                keep == (|row: Record| row.id != id),
                kept@ == before.take(i as int).filter(keep),
            decreases self.rows@.len() - i,
        {
            proof {
                reveal(Seq::filter);
                assert(before.take(i + 1).drop_last() == before.take(i as int));
            }
            if self.rows[i].id != id {
                kept.push(self.rows[i].copy());
            }
            i += 1;
        }
        assert(before.take(before.len() as int) == before);
        self.rows = kept;
        Ok(())
    }
}

/// A record among the rows is found by its id, if not itself then another
/// with that id.
proof fn present_is_found(rows: Seq<Record>, j: int)
    requires
        0 <= j < rows.len(),
    ensures
        found(rows, rows[j].id) is Some,
    decreases j,
{
    if rows[0].id != rows[j].id {
        assert(rows.drop_first()[j - 1] == rows[j]);
        present_is_found(rows.drop_first(), j - 1);
    }
}

/// A found record has the id and is among the rows.
proof fn found_is_present(rows: Seq<Record>, id: i64)
    requires
        found(rows, id) is Some,
    ensures
        found(rows, id)->0.id == id,
        rows.contains(found(rows, id)->0),
    decreases rows.len(),
{
    if rows[0].id == id {
        assert(rows.contains(rows[0]));
    } else {
        let rest = rows.drop_first();
        found_is_present(rest, id);
        let i = choose|i: int| 0 <= i < rest.len() && rest[i] == found(rest, id)->0;
        assert(rows[i + 1] == found(rows, id)->0);
    }
}

/// Deleting an id that no record has changes nothing.
proof fn nothing_deleted(rows: Seq<Record>, id: i64)
    requires
        found(rows, id) is None,
    ensures
        deleted(rows, id) == rows,
    decreases rows.len(),
{
    reveal(Seq::filter);
    if rows.len() > 0 {
        let less = rows.drop_last();
        assert(rows[rows.len() - 1].id != id) by {
            if rows[rows.len() - 1].id == id {
                present_is_found(rows, rows.len() - 1);
            }
        }
        assert(found(less, id) is None) by {
            if found(less, id) is Some {
                found_is_present(less, id);
                let i = choose|i: int| 0 <= i < less.len() && less[i] == found(less, id)->0;
                assert(rows[i].id == id);
                present_is_found(rows, i);
            }
        }
        nothing_deleted(less, id);
        assert(deleted(rows, id) == rows);
    }
}

/// Adding what is stored of an entry, under an id that was not in use, makes
/// one record more: under that id there is the entry with its texts trimmed
/// and a password that decrypts to the one entered, and every other record is
/// as before.
pub proof fn law_added_reads_back(rows: Seq<Record>, rec: Record, r: RecordIn, key: Seq<u8>)
    requires
        found(rows, rec.id) is None,
        rec.stores(r, key),
    ensures
        ({
            let after = rows.push(rec);
            &&& after.len() == rows.len() + 1
            &&& found(after, rec.id) == Some(rec)
            &&& rec.app_name@ == trimmed(r.app_name@)
            &&& rec.nick_name@ == trimmed(r.nick_name@)
            &&& rec.user_name@ == trimmed(r.user_name@)
            &&& rec.user_id@ == trimmed(r.user_id@)
            &&& rec.voucher@ == trimmed(r.voucher@)
            &&& rec.register@ == trimmed(r.register@)
            &&& rec.remark@ == trimmed(r.remark@)
            &&& decrypted(key, rec.password_blob@) == Ok::<Seq<char>, Fault>(r.password@)
            &&& forall|id: i64| id != rec.id ==> #[trigger] found(after, id) == found(rows, id)
        }),
{
    let after = rows.push(rec);
    found_in_longer(rows, rec, rec.id);
    assert forall|id: i64| id != rec.id implies #[trigger] found(after, id) == found(rows, id) by {
        found_in_longer(rows, rec, id);
    }
}

/// What is found after a record was put in place of another.
proof fn found_after_replace(rows: Seq<Record>, rec: Record, id: i64)
    ensures
        found(replaced(rows, rec), id) == (if id == rec.id && found(rows, id) is Some {
            Some(rec)
        } else {
            found(rows, id)
        }),
    decreases rows.len(),
{
    if rows.len() > 0 {
        let after = replaced(rows, rec);
        assert(after.drop_first() == replaced(rows.drop_first(), rec));
        found_after_replace(rows.drop_first(), rec, id);
    }
}

/// Saving a changed record puts it under its id, where there is a record with
/// that id, and changes neither the other records nor their number. Where
/// there is none, nothing changes.
pub proof fn law_saved_reads_back(rows: Seq<Record>, rec: Record)
    ensures
        replaced(rows, rec).len() == rows.len(),
        found(rows, rec.id) is Some ==> found(replaced(rows, rec), rec.id) == Some(rec),
        found(rows, rec.id) is None ==> replaced(rows, rec) == rows,
        forall|id: i64|
            id != rec.id ==> #[trigger] found(replaced(rows, rec), id) == found(rows, id),
{
    found_after_replace(rows, rec, rec.id);
    assert forall|id: i64| id != rec.id implies #[trigger] found(replaced(rows, rec), id) == found(
        rows,
        id,
    ) by {
        found_after_replace(rows, rec, id);
    }
    if found(rows, rec.id) is None {
        assert forall|j: int| 0 <= j < rows.len() implies (#[trigger] rows[j]).id != rec.id by {
            if rows[j].id == rec.id {
                present_is_found(rows, j);
            }
        }
        assert(replaced(rows, rec) == rows);
    }
}

/// A deleted record is found no more, every other record is as before, and
/// where ids are distinct there is one record less. Deleting it once more
/// changes nothing.
pub proof fn law_deleted_is_gone(rows: Seq<Record>, id: i64)
    ensures
        found(deleted(rows, id), id) is None,
        distinct_ids(rows) && found(rows, id) is Some ==> deleted(rows, id).len() == rows.len() - 1,
        deleted(deleted(rows, id), id) == deleted(rows, id),
        forall|other: i64|
            other != id ==> #[trigger] found(deleted(rows, id), other) == found(rows, other),
{
    let keep = |row: Record| row.id != id;
    if found(deleted(rows, id), id) is Some {
        found_is_present(deleted(rows, id), id);
        filter_contains(rows, keep, found(deleted(rows, id), id)->0);
    }
    nothing_deleted(deleted(rows, id), id);
    if distinct_ids(rows) && found(rows, id) is Some {
        law_delete_takes_one(rows, id);
    }
    assert forall|other: i64| other != id implies #[trigger] found(deleted(rows, id), other)
        == found(rows, other) by {
        found_after_delete(rows, id, other);
    }
}

/// What is found of the others after a record was deleted.
proof fn found_after_delete(rows: Seq<Record>, id: i64, other: i64)
    requires
        other != id,
    ensures
        found(deleted(rows, id), other) == found(rows, other),
    decreases rows.len(),
{
    let keep = |row: Record| row.id != id;
    reveal(Seq::filter);
    if rows.len() > 0 {
        let less = rows.drop_last();
        found_after_delete(less, id, other);
        found_in_longer(less, rows.last(), other);
        assert(less.push(rows.last()) == rows);
        if keep(rows.last()) {
            found_in_longer(less.filter(keep), rows.last(), other);
            assert(deleted(rows, id) == less.filter(keep).push(rows.last()));
        }
    }
}

/// What is found after a row was added, whether or not its id was in use.
proof fn found_in_longer(rows: Seq<Record>, rec: Record, id: i64)
    ensures
        found(rows.push(rec), id) == (if found(rows, id) is Some {
            found(rows, id)
        } else if rec.id == id {
            Some(rec)
        } else {
            None
        }),
    decreases rows.len(),
{
    let more = rows.push(rec);
    if rows.len() > 0 {
        assert(more[0] == rows[0]);
        assert(more.drop_first() == rows.drop_first().push(rec));
        found_in_longer(rows.drop_first(), rec, id);
    } else {
        assert(more[0] == rec);
        assert(more.drop_first() == rows);
    }
}

/// A value written to the table is read back under its key, whatever was
/// written before, and no other key is touched.
pub proof fn law_write_reads_back(
    log: Seq<(String, String)>,
    write: (String, String),
    other: Seq<char>,
)
    ensures
        table(log.push(write)).contains_key(write.0@),
        table(log.push(write))[write.0@] == write.1@,
        other != write.0@ ==> table(log.push(write)).contains_key(other) == table(
            log,
        ).contains_key(other),
        other != write.0@ && table(log).contains_key(other) ==> table(log.push(write))[other]
            == table(log)[other],
        !table(Seq::empty()).contains_key(other),
{
    assert(log.push(write).drop_last() == log);
}

/// Any stored text but that of the full display means the paged one.
pub proof fn law_mode_defaults_to_paged(s: Seq<char>)
    ensures
        mode_of(s) == DisplayMode::Full <==> s == seq!['f', 'u', 'l', 'l'],
        mode_in(Map::empty()) == DisplayMode::Paged,
{
    reveal_strlit("full");
    assert("full"@ == seq!['f', 'u', 'l', 'l']);
}

/// The key of a question holds its index as a numeral between a fixed start
/// and the name of the part.
pub proof fn law_qa_key_holds_index(i: nat, part: Seq<char>)
    ensures
        exists|n: Seq<char>| #[trigger]
            all_digits(n) && digits_value(n) == i && qa_key(i, part)
                == seq!['q', 'a', '_'] + n + part,
{
    reveal_strlit("qa_");
    assert("qa_"@ == seq!['q', 'a', '_']);
    let n = decimal(i);
    law_decimal_shortest(i);
    law_decimal_reads_back(i);
    assert(all_digits(n));
    assert(qa_key(i, part) == seq!['q', 'a', '_'] + n + part);
}

/// Rows whose names have the same key are listed in the order in which they
/// came: the places of the two are in the same order.
pub proof fn law_listing_stable(rows: Seq<Record>, out: Seq<Record>, i: int, j: int)
    requires
        is_listing(rows, out),
        0 <= i < j < rows.len(),
        key_of(rows[i].app_name@) == key_of(rows[j].app_name@),
    ensures
        exists|p: int, q: int|
            0 <= p < q < out.len() && #[trigger] out[p] == rows[i] && #[trigger] out[q] == rows[j],
{
    let order = choose|order: Seq<int>| #[trigger]
        is_order(rows, order) && placed(rows, order, out);
    order_names_all(order, rows.len(), i);
    order_names_all(order, rows.len(), j);
    let p = choose|p: int| 0 <= p < order.len() && order[p] == i;
    let q = choose|q: int| 0 <= q < order.len() && order[q] == j;
    if q < p {
        assert(listed_before(rows, order[q], order[p]));
    }
    assert(p != q);
    assert(out[p] == rows[i] && out[q] == rows[j]);
}

/// Of two records, the one whose key comes first is listed first.
pub proof fn law_listing_by_key(rows: Seq<Record>, out: Seq<Record>, i: int, j: int)
    requires
        is_listing(rows, out),
        0 <= i < rows.len(),
        0 <= j < rows.len(),
        key_le(key_of(rows[i].app_name@), key_of(rows[j].app_name@)),
        key_of(rows[i].app_name@) != key_of(rows[j].app_name@),
    ensures
        exists|p: int, q: int|
            0 <= p < q < out.len() && #[trigger] out[p] == rows[i] && #[trigger] out[q] == rows[j],
{
    let order = choose|order: Seq<int>| #[trigger]
        is_order(rows, order) && placed(rows, order, out);
    order_names_all(order, rows.len(), i);
    order_names_all(order, rows.len(), j);
    let p = choose|p: int| 0 <= p < order.len() && order[p] == i;
    let q = choose|q: int| 0 <= q < order.len() && order[q] == j;
    let (a, b) = (key_of(rows[i].app_name@), key_of(rows[j].app_name@));
    if q < p {
        assert(listed_before(rows, order[q], order[p]));
        law_key_order(a, b, a);
    }
    assert(p != q);
    assert(out[p] == rows[i] && out[q] == rows[j]);
}

/// What a filter leaves of records that stand in the order of their keys
/// stands in that order.
proof fn filter_keeps_order(s: Seq<Record>, pred: spec_fn(Record) -> bool)
    requires
        forall|i: int, j: int|
            0 <= i < j < s.len() ==> key_le(
                key_of((#[trigger] s[i]).app_name@),
                key_of((#[trigger] s[j]).app_name@),
            ),
    ensures
        forall|i: int, j: int|
            0 <= i < j < s.filter(pred).len() ==> key_le(
                key_of((#[trigger] s.filter(pred)[i]).app_name@),
                key_of((#[trigger] s.filter(pred)[j]).app_name@),
            ),
    decreases s.len(),
{
    reveal(Seq::filter);
    if s.len() > 0 {
        let less = s.drop_last();
        let kept = less.filter(pred);
        let all = s.filter(pred);
        filter_keeps_order(less, pred);
        assert forall|i: int, j: int| 0 <= i < j < all.len() implies key_le(
            key_of((#[trigger] all[i]).app_name@),
            key_of((#[trigger] all[j]).app_name@),
        ) by {
            assert(all[i] == kept[i]);
            if j < kept.len() {
                assert(all[j] == kept[j]);
            } else {
                filter_contains(less, pred, kept[i]);
                assert(kept.contains(kept[i]));
                let k = choose|k: int| 0 <= k < less.len() && less[k] == kept[i];
                assert(s[k] == kept[i]);
                assert(all[j] == s[s.len() - 1]);
            }
        }
    }
}

/// What a search finds stands in the order of the keys, as a listing does.
pub proof fn law_search_in_order(
    rows: Seq<Record>,
    keyword: Seq<char>,
    out: Seq<Record>,
    i: int,
    j: int,
)
    requires
        is_search(rows, keyword, out),
        0 <= i < j < out.len(),
    ensures
        key_le(key_of(out[i].app_name@), key_of(out[j].app_name@)),
{
    if trimmed(keyword).len() == 0 {
        law_listing_groups(rows, out, i, j);
    } else {
        let kw = trimmed(keyword);
        let sorted = choose|sorted: Seq<Record>| #[trigger]
            is_listing(rows, sorted) && out == matching(sorted, kw);
        assert forall|a: int, b: int| 0 <= a < b < sorted.len() implies key_le(
            key_of((#[trigger] sorted[a]).app_name@),
            key_of((#[trigger] sorted[b]).app_name@),
        ) by {
            law_listing_groups(rows, sorted, a, b);
        }
        filter_keeps_order(sorted, |r: Record| record_matches(r, kw));
    }
}

/// A search finds a record exactly where the keyword matches one of its seven
/// texts: name, nickname, user name, id, voucher, register or remark. Its
/// password and its time are not searched.
pub proof fn law_search_by_texts(
    rows: Seq<Record>,
    keyword: Seq<char>,
    out: Seq<Record>,
    r: Record,
)
    requires
        is_search(rows, keyword, out),
        rows.contains(r),
        trimmed(keyword).len() > 0,
    ensures
        out.contains(r) <==> exists|s: Seq<char>| #[trigger]
            fuzzy(s, keyword) && (s == r.app_name@ || s == r.nick_name@ || s == r.user_name@ || s
                == r.user_id@ || s == r.voucher@ || s == r.register@ || s == r.remark@),
{
    law_search_complete(rows, keyword, out, r);
    law_fuzzy_ignores_outer_space(r.app_name@, keyword);
    law_fuzzy_ignores_outer_space(r.nick_name@, keyword);
    law_fuzzy_ignores_outer_space(r.user_name@, keyword);
    law_fuzzy_ignores_outer_space(r.user_id@, keyword);
    law_fuzzy_ignores_outer_space(r.voucher@, keyword);
    law_fuzzy_ignores_outer_space(r.register@, keyword);
    law_fuzzy_ignores_outer_space(r.remark@, keyword);
    if out.contains(r) {
        assert(record_matches(r, trimmed(keyword)));
        assert(fuzzy(r.app_name@, keyword) || fuzzy(r.nick_name@, keyword) || fuzzy(
            r.user_name@,
            keyword,
        ) || fuzzy(r.user_id@, keyword) || fuzzy(r.voucher@, keyword) || fuzzy(
            r.register@,
            keyword,
        ) || fuzzy(r.remark@, keyword));
    }
}

/// A search with nothing but white space for a keyword gives the whole
/// listing.
pub proof fn law_empty_search_lists(rows: Seq<Record>, keyword: Seq<char>, out: Seq<Record>)
    requires
        is_search(rows, keyword, out),
        trimmed(keyword).len() == 0,
    ensures
        is_listing(rows, out),
        out.to_multiset() == rows.to_multiset(),
{
    law_listing_keeps_rows(rows, out);
}

/// A record is found by its id exactly where there is one with that id.
pub proof fn law_found_by_id(rows: Seq<Record>, id: i64)
    ensures
        found(rows, id) matches Some(r) ==> r.id == id && rows.contains(r),
        found(rows, id) is None ==> forall|i: int|
            0 <= i < rows.len() ==> (#[trigger] rows[i]).id != id,
{
    if found(rows, id) is Some {
        found_is_present(rows, id);
    } else {
        assert forall|i: int| 0 <= i < rows.len() implies (#[trigger] rows[i]).id != id by {
            if rows[i].id == id {
                present_is_found(rows, i);
            }
        }
    }
}

/// A set-up that succeeds has written all of the new vault: the one key under
/// the master password, under the machine code where it was asked for, and
/// under every answer.
pub proof fn law_set_up_complete(
    key: Seq<u8>,
    code: Option<Result<String, CryptoError>>,
    master: Seq<char>,
    qa: Seq<(String, String)>,
    before: Map<Seq<char>, Seq<char>>,
    after: Map<Seq<char>, Seq<char>>,
)
    requires
        set_up_with(key, code, master, qa, before, after, Ok(())),
        qa.len() <= usize::MAX,
    ensures
        !(code matches Some(Err(_))),
        unwrapped(encode_utf8(master), after[META_MASTER_WRAPPED@]) == Ok::<Seq<u8>, Fault>(key),
        code matches Some(Ok(c)) ==> unwrapped(encode_utf8(c@), after[META_MACHINE_WRAPPED@])
            == Ok::<Seq<u8>, Fault>(key),
        forall|i: nat|
            i < qa.len() ==> unwrapped(
                encode_utf8(qa[i as int].1@),
                after[#[trigger] qa_key(i, "_wrapped"@)],
            ) == Ok::<Seq<u8>, Fault>(key) && after[qa_key(i, "_question"@)]
                == qa[i as int].0@,
{
    let outcomes = choose|outcomes: Seq<(Slot, Result<(String, String), CryptoError>)>| #[trigger]
        wrapped_in_order(outcomes, master, code, qa, key) && stored_outcomes(
            outcomes,
            before,
            after,
            Ok(()),
        );
    let n = outcomes.len() as int;
    let machine = code is Some;
    assert(outcomes.take(n) == outcomes);
    assert(outcomes[n - 1].1 is Ok);
    first_outcomes_written(before, outcomes, n, master, code, qa, key);
    assert(written_after(n, machine) == (Written {
        master: true,
        machine,
        questions: qa.len(),
    }));
    if machine {
        assert(is_outcome(outcomes[1], 1, master, code, qa, key));
        assert(outcomes[1].1 is Ok);
    }
    law_init_credentials_unlock(before, after, master, code_text(code), qa, key, machine);
    assert forall|i: nat| i < qa.len() implies unwrapped(
        encode_utf8(qa[i as int].1@),
        after[#[trigger] qa_key(i, "_wrapped"@)],
    ) == Ok::<Seq<u8>, Fault>(key) && after[qa_key(i, "_question"@)] == qa[i as int].0@ by {
        assert(holds_question(after, i, qa[i as int].0@, qa[i as int].1@, key));
    }
}

/// Recovery by machine code is offered exactly where trying it does not end
/// with the path not being set up.
pub proof fn law_machine_path_offered(
    meta: &Meta,
    offered: bool,
    r: Result<Vault, UnlockError>,
)
    requires
        call_ensures(machine_recovery_available, (meta,), offered),
        call_ensures(recover_with_machine, (meta,), r),
    ensures
        !offered <==> r matches Err(UnlockError::NotConfigured),
{
    let code = choose|code: Result<String, CryptoError>| #[trigger]
        machine_read(code) && recovered_by(*meta, code, r);
    assert(recovered_by(*meta, code, r));
}

/// A value is read from the table exactly where the key has one.
pub proof fn law_value_read(meta: &Meta, key: &str, r: Option<String>)
    requires
        call_ensures(get_meta, (meta, key), r),
    ensures
        r is Some <==> meta@.contains_key(key@),
        r matches Some(v) ==> v@ == meta@[key@],
{
}

/// A change that touched no row is reported; any other is a success.
pub proof fn law_affected(n: usize, r: Result<(), String>)
    requires
        call_ensures(check_affected, (n,), r),
    ensures
        r is Ok <==> n != 0,
{
}

/// A vault lists all its records, each once, in the order of the keys, and
/// finds by a keyword those that match it.
pub proof fn law_listed_and_found(
    v: &Vault,
    rows: Vec<Record>,
    keyword: &str,
    listed: Vec<Record>,
    hits: Vec<Record>,
)
    requires
        call_ensures(Vault::list, (v, rows), listed),
        call_ensures(Vault::search, (v, rows, keyword), hits),
    ensures
        listed@.to_multiset() == rows@.to_multiset(),
        forall|i: int, j: int|
            0 <= i < j < listed@.len() ==> key_le(
                key_of((#[trigger] listed@[i]).app_name@),
                key_of((#[trigger] listed@[j]).app_name@),
            ),
        trimmed(keyword@).len() == 0 ==> hits@ == listed@,
        trimmed(keyword@).len() > 0 ==> forall|r: Record| #[trigger]
            hits@.contains(r) <==> listed@.contains(r) && record_matches(r, trimmed(keyword@)),
{
    law_listing_keeps_rows(rows@, listed@);
    assert forall|i: int, j: int| 0 <= i < j < listed@.len() implies key_le(
        key_of((#[trigger] listed@[i]).app_name@),
        key_of((#[trigger] listed@[j]).app_name@),
    ) by {
        law_listing_groups(rows@, listed@, i, j);
    }
    if trimmed(keyword@).len() == 0 {
        law_listing_unique(rows@, listed@, hits@);
    } else {
        assert forall|r: Record| #[trigger] hits@.contains(r) <==> listed@.contains(r)
            && record_matches(r, trimmed(keyword@)) by {
            law_search_complete(rows@, keyword@, hits@, r);
            listing_contains(rows@, listed@, r);
        }
    }
}

/// A listing holds a record exactly where the rows do.
proof fn listing_contains(rows: Seq<Record>, out: Seq<Record>, r: Record)
    requires
        is_listing(rows, out),
    ensures
        out.contains(r) <==> rows.contains(r),
{
    let order = choose|order: Seq<int>| #[trigger]
        is_order(rows, order) && placed(rows, order, out);
    if out.contains(r) {
        let i = choose|i: int| 0 <= i < out.len() && out[i] == r;
        assert(rows[order[i]] == r);
    }
    if rows.contains(r) {
        let i = choose|i: int| 0 <= i < rows.len() && rows[i] == r;
        order_names_all(order, rows.len(), i);
        let j = choose|j: int| 0 <= j < order.len() && order[j] == i;
        assert(out[j] == r);
    }
}

/// The refusal to set up a vault over a file names the whole path, and the
/// message of a failed database the whole reason.
pub proof fn law_refusals_name(path: Seq<char>, why: String)
    ensures
        holds(exists_message(path), path),
        holds(unlock_message(UnlockError::Db(why)), why@),
{
    law_holds_between("密码库 "@, path, " 已存在，如需重建请先删除该文件"@);
    law_holds_between("数据库错误："@, why@, Seq::empty());
}

/// The keys of the table under which a vault is stored.
pub proof fn law_table_keys()
    ensures
        META_MASTER_SALT@ == "master_salt"@,
        META_MASTER_WRAPPED@ == "master_wrapped"@,
        META_MACHINE_SALT@ == "machine_salt"@,
        META_MACHINE_WRAPPED@ == "machine_wrapped"@,
        META_DISPLAY_MODE@ == "display_mode"@,
        mode_text(DisplayMode::Paged) == "paged"@,
        mode_text(DisplayMode::Full) == "full"@,
{
}

} // verus!
