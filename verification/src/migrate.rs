//! Import of records kept in an older form: a CSV file with eight fields to
//! the row, and a file with one scrambled password to the line. Row and line
//! belong together by their number.
use crate::b64::encoded;
use crate::crypto::{
    decrypted, differs_by_key, encryptable, freshly_encrypted, is_encryption, law_encryptable,
    law_legacy_decoded_bytes, legacy_decoded, legacy_xor_decode, CryptoError, Fault,
};
use crate::storage::{clock_read, is_stamp, NewRecord, RecordIn, Vault};
use crate::text::{
    all_digits, decimal, decimal_is_digits, decimal_text, digits_value, holds,
    law_decimal_reads_back, law_holds_between, law_trimmed_idempotent, split, split_on,
    split_on_last_piece, split_on_without, trimmed, views,
};
use vstd::prelude::*;
use vstd::seq_lib::*;
use vstd::string::*;
use vstd::utf8::*;

verus! {

/// What an import came to: how many rows were taken over, and which were not,
/// each with its index and the reason.
pub struct ImportResult {
    pub ok: usize,
    pub failures: Vec<(usize, String)>,
}

/// The rows of a CSV text as the reader of the crate `csv` gives them, each
/// with its fields or with the message of the error found there.
pub uninterp spec fn csv_rows(
    has_headers: bool,
    flexible: bool,
    data: Seq<u8>,
) -> Seq<Result<Seq<Seq<char>>, Seq<char>>>;

/// A row, or a message, by its view.
pub open spec fn row_view(row: Result<Vec<String>, String>) -> Result<Seq<Seq<char>>, Seq<char>> {
    match row {
        Ok(fields) => Ok(views(fields@)),
        Err(why) => Err(why@),
    }
}

/// Rows and messages by their views.
pub open spec fn row_views(rows: Seq<Result<Vec<String>, String>>) -> Seq<
    Result<Seq<Seq<char>>, Seq<char>>,
> {
    Seq::new(rows.len(), |i: int| row_view(rows[i]))
}

/// Reads bytes with `csv::ReaderBuilder` and `Reader::records`. What is
/// claimed of it: the rows and the messages depend on the two settings and on
/// the bytes alone.
#[verifier::external_body]
fn csv_records(has_headers: bool, flexible: bool, data: &[u8]) -> (r: Vec<
    Result<Vec<String>, String>,
>)
    ensures
        row_views(r@) == csv_rows(has_headers, flexible, data@),
{
    csv::ReaderBuilder::new()
        .has_headers(has_headers)
        .flexible(flexible)
        .from_reader(data)
        .records()
        .map(|row| match row {
            Ok(fields) => Ok(fields.iter().map(|s| s.to_string()).collect()),
            Err(e) => Err(e.to_string()),
        })
        .collect()
}

/// Whether `r` is what reading the rows comes to: all of them, or the first
/// message among them.
pub open spec fn rows_read(
    rows: Seq<Result<Seq<Seq<char>>, Seq<char>>>,
    r: Result<Seq<Seq<Seq<char>>>, Seq<char>>,
) -> bool {
    match r {
        Ok(all) => {
            &&& all.len() == rows.len()
            &&& forall|i: int|
                0 <= i < rows.len() ==> #[trigger] rows[i] == Ok::<Seq<Seq<char>>, Seq<char>>(
                    all[i],
                )
        },
        Err(why) => exists|i: int|
            #![trigger rows[i]]
            0 <= i < rows.len() && rows[i] is Err && why == "CSV 解析失败："@ + rows[i]->Err_0
                && forall|j: int| 0 <= j < i ==> #[trigger] rows[j] is Ok,
    }
}

/// The rows of a table by their views.
pub open spec fn table_view(rows: Seq<Vec<String>>) -> Seq<Seq<Seq<char>>> {
    Seq::new(rows.len(), |i: int| views(rows[i]@))
}

/// A table, or a message, by its view.
pub open spec fn table_outcome(r: Result<Vec<Vec<String>>, String>) -> Result<
    Seq<Seq<Seq<char>>>,
    Seq<char>,
> {
    match r {
        Ok(rows) => Ok(table_view(rows@)),
        Err(why) => Err(why@),
    }
}

/// All rows, or the first error among them.
pub fn collect_rows(rows: Vec<Result<Vec<String>, String>>) -> (r: Result<
    Vec<Vec<String>>,
    String,
>)
    ensures
        rows_read(row_views(rows@), table_outcome(r)),
{
    let mut out: Vec<Vec<String>> = Vec::new();
    let ghost all = rows@;
    for row in it: rows
        invariant
            it.seq() == all,
            out@.len() == it.index(),
            forall|j: int| 0 <= j < out@.len() ==> #[trigger] all[j] == Ok::<Vec<String>, String>(
                out@[j],
            ),
    {
        let ghost i = it.index();
        match row {
            Ok(fields) => out.push(fields),
            Err(e) => {
                let mut why = "CSV 解析失败：".to_owned();
                why.append(e.as_str());
                proof {
                    let v = row_views(all);
                    assert(v[i] == row_view(all[i]));
                    assert forall|j: int| 0 <= j < i implies #[trigger] v[j] is Ok by {
                        assert(all[j] is Ok);
                    }
                }
                return Err(why);
            },
        }
    }
    proof {
        let v = row_views(all);
        assert forall|i: int| 0 <= i < v.len() implies #[trigger] v[i] == Ok::<
            Seq<Seq<char>>,
            Seq<char>,
        >(table_view(out@)[i]) by {
            assert(all[i] == Ok::<Vec<String>, String>(out@[i]));
        }
    }
    Ok(out)
}

/// Reads the rows of the older CSV file, which has no headers and whose rows
/// may differ in length.
pub fn read_legacy_dt(data: &[u8]) -> (r: Result<Vec<Vec<String>>, String>)
    ensures
        rows_read(csv_rows(false, true, data@), table_outcome(r)),
{
    collect_rows(csv_records(false, true, data))
}

/// The lines of a text without white space at either end, empty ones left
/// out.
pub open spec fn legacy_lines(content: Seq<char>) -> Seq<Seq<char>> {
    split_on(content, '\n').map_values(|l: Seq<char>| trimmed(l)).filter(
        |l: Seq<char>| l.len() > 0,
    )
}

/// Reads the lines of the older password file; empty ones are left out.
pub fn read_legacy_ps(content: &str) -> (r: Vec<String>)
    ensures
        views(r@) == legacy_lines(content@),
{
    let lines = split(content, '\n');
    let ghost pieces = split_on(content@, '\n');
    let ghost cut = pieces.map_values(|l: Seq<char>| trimmed(l));
    let ghost filled = |l: Seq<char>| l.len() > 0;
    let mut out: Vec<String> = Vec::new();
    let mut i: usize = 0;
    proof {
        reveal(Seq::filter);
        assert(cut.take(0).filter(filled) == views(out@));
    }
    while i < lines.len()
        invariant
            i <= lines@.len(),
            views(lines@) == pieces,
            cut == pieces.map_values(|l: Seq<char>| trimmed(l)),
            filled == (|l: Seq<char>| l.len() > 0),
            views(out@) == cut.take(i as int).filter(filled),
        decreases lines@.len() - i,
    {
        let line = lines[i].as_str().trim();
        let ghost before = out@;
        proof {
            reveal(Seq::filter);
            assert(views(lines@)[i as int] == lines@[i as int]@);
            assert(cut[i as int] == line@);
            assert(cut.take(i + 1).drop_last() == cut.take(i as int));
            assert(cut.take(i + 1).last() == line@);
        }
        if !line.is_empty() {
            out.push(line.to_owned());
            assert(views(out@) == views(before).push(line@));
        }
        i += 1;
    }
    assert(lines@.len() == views(lines@).len());
    assert(cut.take(cut.len() as int) == cut);
    out
}

/// The reason for a row with too few fields.
pub open spec fn short_row(n: nat) -> Seq<char> {
    "CSV 字段不足 8 个（实际 "@ + decimal(n) + " 个）"@
}

/// Whether `why` is the reason for a password that does not decode.
pub open spec fn undecoded(fault: Fault, why: Seq<char>) -> bool {
    exists|e: CryptoError, text: Seq<char>| #[trigger]
        e.is_message(text) && e@ == fault && why == "旧密码解码失败："@ + text
}

/// Whether `r` is the entry that a row with its password makes.
pub open spec fn entry_of(row: Seq<String>, password: Seq<char>, r: RecordIn) -> bool {
    &&& r.app_name@ == trimmed(row[0]@)
    &&& r.nick_name@ == trimmed(row[1]@)
    &&& r.user_name@ == trimmed(row[2]@)
    &&& r.user_id@ == trimmed(row[3]@)
    &&& r.voucher@ == trimmed(row[4]@)
    &&& r.register@ == trimmed(row[5]@)
    &&& r.remark@ == trimmed(row[6]@)
    &&& r.password@ == password
}

/// Whether `r` is what the row at index `i` makes with its password: an entry
/// or the reason why there is none.
pub open spec fn read_entry(
    rows: Seq<Vec<String>>,
    ps_lines: Seq<String>,
    i: int,
    r: Result<RecordIn, String>,
) -> bool {
    let row = rows[i]@;
    if row.len() < 8 {
        r matches Err(why) && why@ == short_row(row.len())
    } else if i >= ps_lines.len() {
        r matches Err(why) && why@ == "密码文件缺少对应行"@
    } else {
        match legacy_decoded(ps_lines[i]@) {
            Ok(password) => r matches Ok(entry) && entry_of(row, password, entry),
            Err(fault) => r matches Err(why) && undecoded(fault, why@),
        }
    }
}

/// The entry that the row at index `i` makes with its password.
pub fn legacy_entry(rows: &[Vec<String>], ps_lines: &[String], i: usize) -> (r: Result<
    RecordIn,
    String,
>)
    requires
        i < rows@.len(),
    ensures
        read_entry(rows@, ps_lines@, i as int, r),
{
    let row = &rows[i];
    if row.len() < 8 {
        let mut why = "CSV 字段不足 8 个（实际 ".to_owned();
        why.append(decimal_text(row.len()).as_str());
        why.append(" 个）");
        return Err(why);
    }
    if i >= ps_lines.len() {
        return Err("密码文件缺少对应行".to_owned());
    }
    let password = match legacy_xor_decode(ps_lines[i].as_str()) {
        Ok(p) => p,
        Err(e) => {
            let text = e.message();
            let mut why = "旧密码解码失败：".to_owned();
            why.append(text.as_str());
            assert(e.is_message(text@));
            return Err(why);
        },
    };
    Ok(
        RecordIn {
            app_name: row[0].as_str().trim().to_owned(),
            nick_name: row[1].as_str().trim().to_owned(),
            user_name: row[2].as_str().trim().to_owned(),
            user_id: row[3].as_str().trim().to_owned(),
            password,
            voucher: row[4].as_str().trim().to_owned(),
            register: row[5].as_str().trim().to_owned(),
            remark: row[6].as_str().trim().to_owned(),
        },
    )
}

/// Whether `n` is what is stored of a row with its password.
pub open spec fn row_stored(
    row: Seq<String>,
    password: Seq<char>,
    key: Seq<u8>,
    n: NewRecord,
) -> bool {
    &&& n.app_name@ == trimmed(row[0]@)
    &&& n.nick_name@ == trimmed(row[1]@)
    &&& n.user_name@ == trimmed(row[2]@)
    &&& n.user_id@ == trimmed(row[3]@)
    &&& n.voucher@ == trimmed(row[4]@)
    &&& n.register@ == trimmed(row[5]@)
    &&& n.remark@ == trimmed(row[6]@)
    &&& is_encryption(key, password, n.password_blob@)
    &&& decrypted(key, n.password_blob@) == Ok::<Seq<char>, Fault>(password)
    &&& is_stamp(n.stamp@)
    &&& clock_read(n.stamp)
    &&& freshly_encrypted(n.password_blob@)
}

/// Whether `r` is what the import makes of the row at index `i`: the record to
/// be stored, or the reason why there is none.
pub open spec fn imported(
    rows: Seq<Vec<String>>,
    ps_lines: Seq<String>,
    i: int,
    key: Seq<u8>,
    r: Result<NewRecord, String>,
) -> bool {
    let row = rows[i]@;
    if row.len() < 8 {
        r matches Err(why) && why@ == short_row(row.len())
    } else if i >= ps_lines.len() {
        r matches Err(why) && why@ == "密码文件缺少对应行"@
    } else {
        match legacy_decoded(ps_lines[i]@) {
            Ok(password) => if encryptable(password) {
                r matches Ok(n) && row_stored(row, password, key, n)
            } else {
                r matches Err(why) && why@ == "加解密失败"@
            },
            Err(fault) => r matches Err(why) && undecoded(fault, why@),
        }
    }
}

/// Makes of each row the record to be stored, or the reason why there is
/// none.
pub fn import_legacy(vault: &Vault, rows: &[Vec<String>], ps_lines: &[String]) -> (r: Vec<
    Result<NewRecord, String>,
>)
    ensures
        r@.len() == rows@.len(),
        forall|i: int|
            0 <= i < rows@.len() ==> imported(rows@, ps_lines@, i, vault.key(), #[trigger] r@[i]),
{
    let mut out: Vec<Result<NewRecord, String>> = Vec::new();
    let mut i: usize = 0;
    while i < rows.len()
        invariant
            i <= rows@.len(),
            out@.len() == i,
            forall|j: int|
                0 <= j < i ==> imported(rows@, ps_lines@, j, vault.key(), #[trigger] out@[j]),
        decreases rows@.len() - i,
    {
        let next = match legacy_entry(rows, ps_lines, i) {
            Ok(entry) => {
                proof {
                    let row = rows@[i as int]@;
                    law_trimmed_idempotent(row[0]@);
                    law_trimmed_idempotent(row[1]@);
                    law_trimmed_idempotent(row[2]@);
                    law_trimmed_idempotent(row[3]@);
                    law_trimmed_idempotent(row[4]@);
                    law_trimmed_idempotent(row[5]@);
                    law_trimmed_idempotent(row[6]@);
                }
                vault.add(&entry)
            },
            Err(why) => Err(why),
        };
        assert(imported(rows@, ps_lines@, i as int, vault.key(), next));
        out.push(next);
        i += 1;
    }
    out
}

/// How many of the outcomes are successes.
pub open spec fn successes<T>(outcomes: Seq<Result<T, String>>) -> nat
    decreases outcomes.len(),
{
    if outcomes.len() == 0 {
        0
    } else if outcomes.last() is Ok {
        successes(outcomes.drop_last()) + 1
    } else {
        successes(outcomes.drop_last())
    }
}

/// The failures among the outcomes, each with its index.
pub open spec fn failures_of<T>(outcomes: Seq<Result<T, String>>) -> Seq<(int, Seq<char>)>
    decreases outcomes.len(),
{
    if outcomes.len() == 0 {
        Seq::empty()
    } else {
        let rest = failures_of(outcomes.drop_last());
        match outcomes.last() {
            Ok(_) => rest,
            Err(why) => rest.push((outcomes.len() - 1, why@)),
        }
    }
}

/// Failures by their views.
pub open spec fn failure_views(failures: Seq<(usize, String)>) -> Seq<(int, Seq<char>)> {
    Seq::new(failures.len(), |i: int| (failures[i].0 as int, failures[i].1@))
}

/// Sums up the outcomes of an import.
pub fn tally<T>(outcomes: &Vec<Result<T, String>>) -> (r: ImportResult)
    ensures
        r.ok == successes(outcomes@),
        failure_views(r.failures@) == failures_of(outcomes@),
        r.well_numbered(),
{
    let mut ok: usize = 0;
    let mut failures: Vec<(usize, String)> = Vec::new();
    let mut i: usize = 0;
    proof {
        assert(failure_views(failures@) == failures_of(outcomes@.take(0)));
    }
    while i < outcomes.len()
        invariant
            i <= outcomes@.len(),
            ok <= i,
            ok == successes(outcomes@.take(i as int)),
            failure_views(failures@) == failures_of(outcomes@.take(i as int)),
            forall|j: int| 0 <= j < failures@.len() ==> (#[trigger] failures@[j]).0 < i,
        decreases outcomes@.len() - i,
    {
        let ghost before = failures@;
        proof {
            assert(outcomes@.take(i + 1).drop_last() == outcomes@.take(i as int));
            assert(outcomes@.take(i + 1).last() == outcomes@[i as int]);
        }
        match &outcomes[i] {
            Ok(_) => {
                ok += 1;
            },
            Err(why) => {
                failures.push((i, why.clone()));
                assert(failure_views(failures@) == failure_views(before).push((i as int, why@)));
            },
        }
        i += 1;
    }
    assert(outcomes@.take(outcomes@.len() as int) == outcomes@);
    ImportResult { ok, failures }
}

impl ImportResult {
    /// Whether the row of each failure has a number, counted from one.
    pub open spec fn well_numbered(&self) -> bool {
        forall|i: int|
            0 <= i < self.failures@.len() ==> (#[trigger] self.failures@[i]).0 < usize::MAX
    }
}

/// Each row is either taken over or reported: the two counts add up.
pub proof fn law_every_row_accounted<T>(outcomes: Seq<Result<T, String>>)
    ensures
        successes(outcomes) + failures_of(outcomes).len() == outcomes.len(),
    decreases outcomes.len(),
{
    if outcomes.len() > 0 {
        law_every_row_accounted(outcomes.drop_last());
    }
}

/// The failures are reported in the order of the rows, none of them twice,
/// and each is a failure with its own reason.
pub proof fn law_failures_in_order<T>(outcomes: Seq<Result<T, String>>)
    ensures
        forall|i: int, j: int|
            0 <= i < j < failures_of(outcomes).len() ==> (#[trigger] failures_of(outcomes)[i]).0
                < (#[trigger] failures_of(outcomes)[j]).0,
        forall|i: int|
            0 <= i < failures_of(outcomes).len() ==> {
                let f = #[trigger] failures_of(outcomes)[i];
                0 <= f.0 < outcomes.len() && (outcomes[f.0] matches Err(why) && why@ == f.1)
            },
    decreases outcomes.len(),
{
    if outcomes.len() > 0 {
        let less = outcomes.drop_last();
        law_failures_in_order(less);
        let f = failures_of(less);
        assert forall|i: int| 0 <= i < failures_of(outcomes).len() implies {
            let g = #[trigger] failures_of(outcomes)[i];
            0 <= g.0 < outcomes.len() && (outcomes[g.0] matches Err(why) && why@ == g.1)
        } by {
            if i < f.len() {
                assert(failures_of(outcomes)[i] == f[i]);
                assert(less[f[i].0] == outcomes[f[i].0]);
            }
        }
        assert forall|i: int, j: int| 0 <= i < j < failures_of(outcomes).len() implies (
        #[trigger] failures_of(outcomes)[i]).0 < (#[trigger] failures_of(outcomes)[j]).0 by {
            assert(failures_of(outcomes)[i] == f[i]);
            if j < f.len() {
                assert(failures_of(outcomes)[j] == f[j]);
            }
        }
    }
}

/// The name of the CSV file that is taken where none is given.
pub const DEFAULT_DT: &'static str = "dt_data.csv";

/// The name of the password file that is taken where none is given.
pub const DEFAULT_PS: &'static str = "ps_data.txt";

/// Whether to go on, by the answer to the first question of the migration.
pub fn begin_migration(agreed: bool) -> (r: Result<(), String>)
    ensures
        match r {
            Ok(()) => agreed,
            Err(why) => !agreed && why@ == "已取消迁移"@,
        },
{
    if agreed {
        Ok(())
    } else {
        Err("已取消迁移".to_owned())
    }
}

/// The path that was entered, without white space at either end.
pub fn entered_path(answer: &str) -> (r: String)
    ensures
        r@ == trimmed(answer@),
{
    answer.trim().to_owned()
}

/// Whether both files are there; the CSV file is looked for first.
pub fn files_found(dt_path: &str, dt_exists: bool, ps_path: &str, ps_exists: bool) -> (r: Result<
    (),
    String,
>)
    ensures
        match r {
            Ok(()) => dt_exists && ps_exists,
            Err(why) => if !dt_exists {
                why@ == "未找到旧数据文件："@ + dt_path@
            } else {
                !ps_exists && why@ == "未找到旧密码文件："@ + ps_path@
            },
        },
{
    if !dt_exists {
        let mut why = "未找到旧数据文件：".to_owned();
        why.append(dt_path);
        return Err(why);
    }
    if !ps_exists {
        let mut why = "未找到旧密码文件：".to_owned();
        why.append(ps_path);
        return Err(why);
    }
    Ok(())
}

/// The message for a file that cannot be read.
pub fn read_failure(path: &str, why: &str) -> (r: String)
    ensures
        r@ == "读取 "@ + path@ + " 失败："@ + why@,
{
    let mut out = "读取 ".to_owned();
    out.append(path);
    out.append(" 失败：");
    out.append(why);
    out
}

/// The warning for files of different lengths.
pub open spec fn mismatch_warning() -> Seq<char> {
    "⚠ 警告：CSV 与密码文件行数不一致，将按较短者对齐，缺失项记为失败"@
}

/// What is shown of the files that were read.
pub open spec fn files_report(rows: nat, lines: nat) -> Seq<Seq<char>> {
    let counts = "CSV 记录 "@ + decimal(rows) + " 条，密码文件 "@ + decimal(lines) + " 行"@;
    if rows == lines {
        seq![counts]
    } else {
        seq![counts, mismatch_warning()]
    }
}

/// The lines shown of the files that were read: their lengths, and a warning
/// where these differ.
pub fn describe_files(rows: usize, lines: usize) -> (r: Vec<String>)
    ensures
        views(r@) == files_report(rows as nat, lines as nat),
{
    let mut counts = "CSV 记录 ".to_owned();
    counts.append(decimal_text(rows).as_str());
    counts.append(" 条，密码文件 ");
    counts.append(decimal_text(lines).as_str());
    counts.append(" 行");
    let mut out: Vec<String> = Vec::new();
    out.push(counts);
    if rows != lines {
        out.push("⚠ 警告：CSV 与密码文件行数不一致，将按较短者对齐，缺失项记为失败".to_owned());
    }
    assert(views(out@) == files_report(rows as nat, lines as nat));
    out
}

/// The line shown of a failure.
pub open spec fn failure_line(f: (int, Seq<char>)) -> Seq<char> {
    "  第 "@ + decimal((f.0 + 1) as nat) + " 行："@ + f.1
}

/// The lines shown of the failures.
pub open spec fn failure_lines(failures: Seq<(int, Seq<char>)>) -> Seq<Seq<char>> {
    Seq::new(failures.len(), |i: int| failure_line(failures[i]))
}

/// What is shown of an import: the two counts, the failures, and a hint where
/// some rows were taken over and some were not.
pub open spec fn import_report(ok: nat, failures: Seq<(int, Seq<char>)>) -> Seq<Seq<char>> {
    let counts = seq![
        "成功导入："@ + decimal(ok) + " 条"@,
        "失败："@ + decimal(failures.len()) + " 条"@,
    ];
    let hint = if ok > 0 && failures.len() > 0 {
        seq![
            "提示：可修复失败项后再次运行本工具（已导入的记录会重复导入，请注意清理）"@,
        ]
    } else {
        Seq::empty()
    };
    counts + failure_lines(failures) + hint
}

/// The lines shown of an import.
pub fn describe_import(result: &ImportResult) -> (r: Vec<String>)
    requires
        result.well_numbered(),
    ensures
        views(r@) == import_report(result.ok as nat, failure_views(result.failures@)),
{
    let ghost shown = failure_views(result.failures@);
    let mut out: Vec<String> = Vec::new();
    let mut ok_line = "成功导入：".to_owned();
    ok_line.append(decimal_text(result.ok).as_str());
    ok_line.append(" 条");
    out.push(ok_line);
    let mut failed_line = "失败：".to_owned();
    failed_line.append(decimal_text(result.failures.len()).as_str());
    failed_line.append(" 条");
    out.push(failed_line);
    let ghost counts = views(out@);
    let mut i: usize = 0;
    while i < result.failures.len()
        invariant
            i <= result.failures@.len(),
            result.well_numbered(),
            shown == failure_views(result.failures@),
            views(out@) == counts + failure_lines(shown).take(i as int),
        decreases result.failures@.len() - i,
    {
        let ghost before = views(out@);
        let f = &result.failures[i];
        let mut line = "  第 ".to_owned();
        line.append(decimal_text(f.0 + 1).as_str());
        line.append(" 行：");
        line.append(f.1.as_str());
        proof {
            assert(shown[i as int] == (f.0 as int, f.1@));
            assert(line@ == failure_line(shown[i as int]));
            assert(failure_lines(shown).take(i + 1) == failure_lines(shown).take(i as int).push(
                line@,
            ));
        }
        out.push(line);
        assert(views(out@) == before.push(line@));
        i += 1;
    }
    assert(failure_lines(shown).take(shown.len() as int) == failure_lines(shown));
    if result.ok > 0 && result.failures.len() > 0 {
        let ghost before = views(out@);
        out.push(
            "提示：可修复失败项后再次运行本工具（已导入的记录会重复导入，请注意清理）".to_owned(),
        );
        assert(views(out@) == before.push(
            "提示：可修复失败项后再次运行本工具（已导入的记录会重复导入，请注意清理）"@,
        ));
    }
    assert(views(out@) == import_report(result.ok as nat, shown));
    out
}

/// Whether to offer a backup of the files: where something was taken over.
pub fn offers_backup(result: &ImportResult) -> (r: bool)
    ensures
        r == (result.ok > 0),
{
    result.ok > 0
}

/// The name under which a file is kept.
pub fn backup_name(path: &str) -> (r: String)
    ensures
        r@ == path@ + ".bak"@,
{
    let mut out = path.to_owned();
    out.append(".bak");
    out
}

/// A row with its eight fields and a line that scrambles a password becomes a
/// record: the first seven fields without white space at either end, the whole
/// password encrypted, and the time that the clock showed. The line scrambles
/// the password where it is the Base64 form of bytes that differ from those of
/// the password by the legacy key.
pub proof fn law_row_becomes_record(
    rows: Seq<Vec<String>>,
    ps_lines: Seq<String>,
    i: int,
    key: Seq<u8>,
    r: Result<NewRecord, String>,
    password: Seq<char>,
    raw: Seq<u8>,
)
    requires
        imported(rows, ps_lines, i, key, r),
        0 <= i < rows.len(),
        i < ps_lines.len(),
        rows[i]@.len() >= 8,
        ps_lines[i]@ == encoded(raw),
        differs_by_key(encode_utf8(password), raw),
    ensures
        r is Ok <==> encode_utf8(password).len() <= 68_719_476_704,
        r matches Ok(n) ==> {
            &&& n.app_name@ == trimmed(rows[i]@[0]@)
            &&& n.nick_name@ == trimmed(rows[i]@[1]@)
            &&& n.user_name@ == trimmed(rows[i]@[2]@)
            &&& n.user_id@ == trimmed(rows[i]@[3]@)
            &&& n.voucher@ == trimmed(rows[i]@[4]@)
            &&& n.register@ == trimmed(rows[i]@[5]@)
            &&& n.remark@ == trimmed(rows[i]@[6]@)
            &&& decrypted(key, n.password_blob@) == Ok::<Seq<char>, Fault>(password)
            &&& clock_read(n.stamp)
        },
{
    law_legacy_decoded_bytes(ps_lines[i]@, password);
    law_encryptable(password);
}

/// A row is refused where it has fewer than eight fields, where it has no
/// line, and where its line scrambles no password.
pub proof fn law_row_refused(
    rows: Seq<Vec<String>>,
    ps_lines: Seq<String>,
    i: int,
    key: Seq<u8>,
    r: Result<NewRecord, String>,
)
    requires
        imported(rows, ps_lines, i, key, r),
        0 <= i < rows.len(),
        rows[i]@.len() < 8 || i >= ps_lines.len() || forall|password: Seq<char>, raw: Seq<u8>|
            ps_lines[i]@ == #[trigger] encoded(raw) ==> !#[trigger] differs_by_key(
                encode_utf8(password),
                raw,
            ),
    ensures
        r is Err,
{
    if rows[i]@.len() >= 8 && i < ps_lines.len() {
        if let Ok(password) = legacy_decoded(ps_lines[i]@) {
            law_legacy_decoded_bytes(ps_lines[i]@, password);
        }
    }
}

/// The import makes an outcome of each row, in the order of the rows, and
/// none of it depends on another row.
pub proof fn law_import_by_row(
    vault: &Vault,
    rows: &[Vec<String>],
    ps_lines: &[String],
    r: Vec<Result<NewRecord, String>>,
    i: int,
)
    requires
        call_ensures(import_legacy, (vault, rows, ps_lines), r),
        0 <= i < rows@.len(),
    ensures
        r@.len() == rows@.len(),
        imported(rows@, ps_lines@, i, vault.key(), r@[i]),
        rows@[i]@.len() < 8 || i >= ps_lines@.len() ==> r@[i] is Err,
{
    assert(imported(rows@, ps_lines@, i, vault.key(), r@[i]));
}

/// Reading gives all rows exactly where none of them has an error.
pub proof fn law_rows_all_or_error(
    rows: Seq<Result<Seq<Seq<char>>, Seq<char>>>,
    r: Result<Seq<Seq<Seq<char>>>, Seq<char>>,
    i: int,
)
    requires
        rows_read(rows, r),
    ensures
        0 <= i < rows.len() && rows[i] is Err ==> r is Err,
        r is Err ==> exists|j: int| 0 <= j < rows.len() && #[trigger] rows[j] is Err,
        r matches Ok(all) ==> all.len() == rows.len() && (0 <= i < rows.len() ==> rows[i] == Ok::<
            Seq<Seq<char>>,
            Seq<char>,
        >(all[i])),
{
}

/// A line more, behind a line break, is one password more, unless it holds
/// white space alone; a text without a line break is one line.
pub proof fn law_lines_grow(head: Seq<char>, line: Seq<char>)
    requires
        !line.contains('\n'),
    ensures
        trimmed(line).len() > 0 ==> legacy_lines(head.push('\n') + line) == legacy_lines(head).push(
            trimmed(line),
        ),
        trimmed(line).len() == 0 ==> legacy_lines(head.push('\n') + line) == legacy_lines(head),
        trimmed(line).len() > 0 ==> legacy_lines(line) == seq![trimmed(line)],
        trimmed(line).len() == 0 ==> legacy_lines(line) == Seq::<Seq<char>>::empty(),
{
    reveal(Seq::filter);
    let cut = |l: Seq<char>| trimmed(l);
    let filled = |l: Seq<char>| l.len() > 0;
    split_on_without(line, '\n');
    split_on_last_piece(head, '\n', line);
    let before = split_on(head, '\n').map_values(cut);
    let after = split_on(head.push('\n') + line, '\n').map_values(cut);
    assert(after == before.push(trimmed(line)));
    assert(after.drop_last() == before);
    let one = split_on(line, '\n').map_values(cut);
    assert(one == seq![trimmed(line)]);
    assert(one.drop_last() == Seq::<Seq<char>>::empty());
    assert(one.drop_last().filter(filled) == Seq::<Seq<char>>::empty());
    assert(Seq::<Seq<char>>::empty().push(trimmed(line)) == seq![trimmed(line)]);
}

/// Every outcome that is a failure is among the failures, with its index and
/// its reason.
pub proof fn law_failures_complete<T>(outcomes: Seq<Result<T, String>>, i: int)
    requires
        0 <= i < outcomes.len(),
        outcomes[i] is Err,
    ensures
        failures_of(outcomes).contains((i, outcomes[i]->Err_0@)),
    decreases outcomes.len(),
{
    let all = failures_of(outcomes);
    let less = failures_of(outcomes.drop_last());
    if i == outcomes.len() - 1 {
        assert(all[less.len() as int] == (i, outcomes[i]->Err_0@));
    } else {
        law_failures_complete(outcomes.drop_last(), i);
        let k = choose|k: int| 0 <= k < less.len() && less[k] == (i, outcomes[i]->Err_0@);
        assert(all[k] == less[k]);
    }
}

/// The report of an import has one line for each failure, in their order,
/// behind the two counts; its numeral is that of the row counted from one.
pub proof fn law_report_shows_failures(ok: nat, failures: Seq<(int, Seq<char>)>, i: int)
    requires
        0 <= i < failures.len(),
        failures[i].0 >= 0,
    ensures
        exists|n: Seq<char>| #[trigger]
            all_digits(n) && digits_value(n) == failures[i].0 + 1 && import_report(ok, failures)[2
                + i] == "  第 "@ + n + " 行："@ + failures[i].1,
        import_report(ok, failures).len() == failures.len() + if ok > 0 {
            3int
        } else {
            2int
        },
{
    let n = decimal((failures[i].0 + 1) as nat);
    decimal_is_digits((failures[i].0 + 1) as nat);
    law_decimal_reads_back((failures[i].0 + 1) as nat);
    assert(all_digits(n));
    assert(import_report(ok, failures)[2 + i] == failure_line(failures[i]));
}

/// The counts that a report gives are those of the outcomes: how many are
/// successes, and how many are not.
pub proof fn law_report_counts(ok: nat, failures: Seq<(int, Seq<char>)>)
    ensures
        exists|n: Seq<char>| #[trigger]
            all_digits(n) && digits_value(n) == ok && import_report(ok, failures)[0]
                == "成功导入："@ + n + " 条"@,
        exists|n: Seq<char>| #[trigger]
            all_digits(n) && digits_value(n) == failures.len() && import_report(ok, failures)[1]
                == "失败："@ + n + " 条"@,
        failures.len() == 0 ==> import_report(ok, failures).len() == 2,
{
    decimal_is_digits(ok);
    law_decimal_reads_back(ok);
    decimal_is_digits(failures.len());
    law_decimal_reads_back(failures.len());
    assert(all_digits(decimal(ok)));
    assert(all_digits(decimal(failures.len())));
}

/// The migration goes on only where it was agreed to and both files are
/// there; a file that is missing is named, the CSV file first.
pub proof fn law_migration_begins(
    agreed: bool,
    began: Result<(), String>,
    dt_path: &str,
    dt_exists: bool,
    ps_path: &str,
    ps_exists: bool,
    r: Result<(), String>,
)
    requires
        call_ensures(begin_migration, (agreed,), began),
        call_ensures(files_found, (dt_path, dt_exists, ps_path, ps_exists), r),
    ensures
        began is Ok <==> agreed,
        r is Ok <==> dt_exists && ps_exists,
        !dt_exists ==> (r matches Err(why) && dt_path@.is_suffix_of(why@)),
        dt_exists && !ps_exists ==> (r matches Err(why) && ps_path@.is_suffix_of(why@)),
{
    assert(("未找到旧数据文件："@ + dt_path@).skip("未找到旧数据文件："@.len() as int) == dt_path@);
    assert(("未找到旧密码文件："@ + ps_path@).skip("未找到旧密码文件："@.len() as int) == ps_path@);
}

/// A backup keeps the name of the file and adds four characters to it, and is
/// offered where at least one row was taken over.
pub proof fn law_backup_named(path: &str, name: String, result: &ImportResult, offered: bool)
    requires
        call_ensures(backup_name, (path,), name),
        call_ensures(offers_backup, (result,), offered),
    ensures
        path@.is_prefix_of(name@),
        name@.skip(path@.len() as int) == seq!['.', 'b', 'a', 'k'],
        offered <==> result.ok >= 1,
{
    reveal_strlit(".bak");
    assert(name@.take(path@.len() as int) == path@);
    assert(name@.skip(path@.len() as int) == seq!['.', 'b', 'a', 'k']);
}

/// What is summed up of the outcomes counts each of them once, among the
/// successes or among the failures.
pub proof fn law_tally_counts(
    outcomes: &Vec<Result<NewRecord, String>>,
    r: ImportResult,
    i: int,
)
    requires
        call_ensures(tally::<NewRecord>, (outcomes,), r),
        0 <= i < outcomes@.len(),
    ensures
        r.ok + r.failures@.len() == outcomes@.len(),
        outcomes@[i] is Err <==> exists|k: int|
            0 <= k < r.failures@.len() && (#[trigger] r.failures@[k]).0 == i,
{
    let f = failures_of(outcomes@);
    assert(f.len() == r.failures@.len());
    law_every_row_accounted(outcomes@);
    law_failures_in_order(outcomes@);
    if outcomes@[i] is Err {
        law_failures_complete(outcomes@, i);
        let k = choose|k: int| 0 <= k < f.len() && f[k] == (i, outcomes@[i]->Err_0@);
        assert(failure_views(r.failures@)[k] == f[k]);
        assert(r.failures@[k].0 == i);
    }
    if exists|k: int| 0 <= k < r.failures@.len() && (#[trigger] r.failures@[k]).0 == i {
        let k = choose|k: int| 0 <= k < r.failures@.len() && (#[trigger] r.failures@[k]).0 == i;
        assert(failure_views(r.failures@)[k] == f[k]);
        assert(f[k].0 == i);
    }
}

/// What is shown of the files tells how many rows and lines there are, and
/// warns exactly where the two differ.
pub proof fn law_files_reported(rows: nat, lines: nat)
    ensures
        files_report(rows, lines).len() == if rows == lines {
            1int
        } else {
            2int
        },
        exists|n: Seq<char>, m: Seq<char>|
            files_report(rows, lines)[0] == #[trigger] ("CSV 记录 "@ + n + " 条，密码文件 "@ + m
                + " 行"@) && all_digits(n) && digits_value(n) == rows && all_digits(m)
                && digits_value(m) == lines,
        rows != lines ==> files_report(rows, lines)[1] == mismatch_warning(),
{
    decimal_is_digits(rows);
    law_decimal_reads_back(rows);
    decimal_is_digits(lines);
    law_decimal_reads_back(lines);
    assert(files_report(rows, lines)[0] == "CSV 记录 "@ + decimal(rows) + " 条，密码文件 "@
        + decimal(lines) + " 行"@);
}

/// The reason for a row with too few fields tells how many it has, and that
/// for a password that does not decode holds the message of the error.
pub proof fn law_reasons_tell(n: nat, fault: Fault, why: Seq<char>)
    ensures
        exists|d: Seq<char>| #[trigger]
            all_digits(d) && digits_value(d) == n && holds(short_row(n), d),
        undecoded(fault, why) ==> exists|e: CryptoError, text: Seq<char>| #[trigger]
            e.is_message(text) && e@ == fault && holds(why, text),
{
    decimal_is_digits(n);
    law_decimal_reads_back(n);
    assert(all_digits(decimal(n)));
    law_holds_between("CSV 字段不足 8 个（实际 "@, decimal(n), " 个）"@);
    if undecoded(fault, why) {
        let (e, text) = choose|e: CryptoError, text: Seq<char>| #[trigger]
            e.is_message(text) && e@ == fault && why == "旧密码解码失败："@ + text;
        law_holds_between("旧密码解码失败："@, text, Seq::empty());
        assert(e.is_message(text));
    }
}

} // verus!
