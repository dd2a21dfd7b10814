//! The main list: what it shows, how the selection moves, and what the typed
//! commands do.
use crate::storage::{is_listing, is_search, mode_in, DisplayMode, Record, Vault};
use crate::text::{
    all_digits, ascii_lowered, decimal, decimal_text, digits_value, holds, is_digit,
    law_ascii_lowered_each, law_decimal_reads_back, law_decimal_shortest, law_holds_between,
    law_numbers_read, law_repeated_character, parse_number, parsed_number, repeat, repeated, same,
    to_ascii_lower, trimmed, views,
};
use crate::ui::{KeyPress, MAX_INPUT};
use vstd::prelude::*;
use vstd::string::*;

verus! {

/// How many records a page shows.
pub const PAGE_SIZE: usize = 15;

/// The prompt of the main list.
pub const MAIN_PROMPT: &'static str =
    "↑↓选择 / [回车]打开 / 输入搜索词 / [A]新增 / [C]修改 / [D]删除 / [Q]退出";

/// How many pages there are; an empty list has one.
pub open spec fn page_count(len: nat) -> nat {
    if len == 0 {
        1
    } else {
        ((len + PAGE_SIZE - 1) / PAGE_SIZE as int) as nat
    }
}

/// The page of the selected record.
pub open spec fn page_of(len: nat, sel: nat) -> nat {
    if len == 0 {
        0
    } else {
        (sel / PAGE_SIZE as nat) as nat
    }
}

/// The index of the first record of a page.
pub open spec fn page_start(page: nat) -> nat {
    (page * PAGE_SIZE) as nat
}

/// The index after the last record of a page.
pub open spec fn page_end(len: nat, page: nat) -> nat {
    if page_start(page) + PAGE_SIZE <= len {
        page_start(page) + PAGE_SIZE as nat
    } else {
        len
    }
}

/// The index of the first record that is shown: the first of the page of the
/// selected one, or the first of all where all are shown at once.
pub open spec fn shown_start(mode: DisplayMode, len: nat, sel: nat) -> nat {
    match mode {
        DisplayMode::Paged => page_start(page_of(len, sel)),
        DisplayMode::Full => 0,
    }
}

/// The index after the last record that is shown.
pub open spec fn shown_end(mode: DisplayMode, len: nat, sel: nat) -> nat {
    match mode {
        DisplayMode::Paged => page_end(len, page_of(len, sel)),
        DisplayMode::Full => len,
    }
}

/// The selected record is shown. Page by page, it is on one of the pages and
/// no more than a page is shown; else all records are.
pub proof fn law_selection_shown(mode: DisplayMode, len: nat, sel: nat)
    requires
        sel < len,
    ensures
        shown_start(mode, len, sel) <= sel < shown_end(mode, len, sel) <= len,
        mode == DisplayMode::Paged ==> page_of(len, sel) < page_count(len) && shown_end(
            mode,
            len,
            sel,
        ) - shown_start(mode, len, sel) <= PAGE_SIZE,
        mode == DisplayMode::Full ==> shown_start(mode, len, sel) == 0 && shown_end(mode, len, sel)
            == len,
{
}

/// Each record is on one page only.
pub proof fn law_pages_apart(len: nat, p: nat, q: nat, i: nat)
    requires
        page_start(p) <= i < page_end(len, p),
        page_start(q) <= i < page_end(len, q),
    ensures
        p == q,
{
}

/// The number of a record, at least three characters wide.
pub open spec fn padded(n: nat) -> Seq<char> {
    if decimal(n).len() < 3 {
        repeated(" "@, (3 - decimal(n).len()) as nat) + decimal(n)
    } else {
        decimal(n)
    }
}

/// Writes the number of a record, at least three characters wide.
fn padded_text(n: usize) -> (r: String)
    ensures
        r@ == padded(n as nat),
{
    let digits = decimal_text(n);
    let len = digits.as_str().unicode_len();
    if len >= 3 {
        return digits;
    }
    let mut out = repeat(" ", 3 - len);
    out.append(digits.as_str());
    out
}

/// A record by its number and its name.
pub open spec fn numbered(i: nat, name: Seq<char>) -> Seq<char> {
    "["@ + padded(i + 1) + "] "@ + name
}

/// Writes a record by its number and its name.
fn numbered_text(i: usize, name: &str) -> (r: String)
    requires
        i < usize::MAX,
    ensures
        r@ == numbered(i as nat, name@),
{
    let mut out = "[".to_owned();
    out.append(padded_text(i + 1).as_str());
    out.append("] ");
    out.append(name);
    out
}

/// The title of the list: how many records, which keyword, and, where there
/// are several pages, which of them.
pub open spec fn list_title(
    mode: DisplayMode,
    len: nat,
    filter: Option<Seq<char>>,
    page: nat,
) -> Seq<char> {
    let count = "========== 密码库（共 "@ + decimal(len) + " 条"@;
    let keyword = match filter {
        Some(kw) => "，搜索「"@ + kw + "」"@,
        None => Seq::empty(),
    };
    let number = if mode == DisplayMode::Paged && page_count(len) > 1 {
        "  第 "@ + decimal(page + 1) + "/"@ + decimal(page_count(len)) + " 页"@
    } else {
        Seq::empty()
    };
    count + keyword + "）"@ + number + "=========="@
}

/// Writes the title of the list.
fn title_text(mode: DisplayMode, len: usize, filter: &Option<String>, page: usize) -> (r: String)
    requires
        page < usize::MAX,
    ensures
        r@ == list_title(mode, len as nat, option_text(*filter), page as nat),
{
    let mut title = "========== 密码库（共 ".to_owned();
    title.append(decimal_text(len).as_str());
    title.append(" 条");
    let ghost count = title@;
    match filter {
        Some(kw) => {
            title.append("，搜索「");
            title.append(kw.as_str());
            title.append("」");
        },
        None => {},
    }
    let ghost keyword = match option_text(*filter) {
        Some(kw) => "，搜索「"@ + kw + "」"@,
        None => Seq::empty(),
    };
    assert(title@ == count + keyword);
    title.append("）");
    let ghost before = title@;
    let pages = pages_of(len);
    if mode == DisplayMode::Paged && pages > 1 {
        title.append("  第 ");
        title.append(decimal_text(page + 1).as_str());
        title.append("/");
        title.append(decimal_text(pages).as_str());
        title.append(" 页");
    }
    let ghost number = if mode == DisplayMode::Paged && page_count(len as nat) > 1 {
        "  第 "@ + decimal(page as nat + 1) + "/"@ + decimal(page_count(len as nat)) + " 页"@
    } else {
        Seq::empty()
    };
    assert(title@ == before + number);
    title.append("==========");
    title
}

/// How many pages there are.
fn pages_of(len: usize) -> (r: usize)
    ensures
        r == page_count(len as nat),
{
    if len == 0 {
        1
    } else {
        (len - 1) / PAGE_SIZE + 1
    }
}

/// A text, if any, by its view.
pub open spec fn option_text(s: Option<String>) -> Option<Seq<char>> {
    match s {
        Some(s) => Some(s@),
        None => None,
    }
}

/// The line of a record in the list; the selected one is marked and reversed.
pub open spec fn row_line(i: nat, name: Seq<char>, selected: bool) -> Seq<char> {
    if selected {
        "\x1b[7m❯ "@ + numbered(i, name) + "\x1b[0m"@
    } else {
        "  "@ + numbered(i, name)
    }
}

/// The line shown in place of records where there are none.
pub open spec fn nothing_line(filter: Option<Seq<char>>, hint: Seq<char>) -> Seq<char> {
    match filter {
        Some(kw) => "（没有匹配「"@ + kw + "」的记录）"@,
        None => hint,
    }
}

/// Writes the line shown in place of records where there are none.
fn nothing_text(filter: &Option<String>, hint: &str) -> (r: String)
    ensures
        r@ == nothing_line(option_text(*filter), hint@),
{
    match filter {
        Some(kw) => {
            let mut out = "（没有匹配「".to_owned();
            out.append(kw.as_str());
            out.append("」的记录）");
            out
        },
        None => hint.to_owned(),
    }
}

/// The line below the list.
pub open spec fn rule_line() -> Seq<char> {
    "------------------------------------------"@
}

/// The lines of the records that are shown.
pub open spec fn row_lines(mode: DisplayMode, records: Seq<Record>, sel: nat) -> Seq<Seq<char>> {
    let start = shown_start(mode, records.len(), sel);
    let end = shown_end(mode, records.len(), sel);
    Seq::new(
        (end - start) as nat,
        |i: int|
            row_line((start + i) as nat, records[start + i].app_name@, start + i == sel),
    )
}

/// The list with its title and the line below it.
pub open spec fn frame_lines(
    mode: DisplayMode,
    records: Seq<Record>,
    sel: nat,
    filter: Option<Seq<char>>,
) -> Seq<Seq<char>> {
    let title = list_title(mode, records.len(), filter, page_of(records.len(), sel));
    let body = if records.len() == 0 {
        seq![nothing_line(filter, "（还没有任何记录，按 A 新增）"@)]
    } else {
        row_lines(mode, records, sel)
    };
    seq![title] + body + seq![rule_line()]
}

/// The line of the selected record is the one that is marked.
pub proof fn law_selected_line(
    mode: DisplayMode,
    records: Seq<Record>,
    sel: nat,
    filter: Option<Seq<char>>,
)
    requires
        sel < records.len(),
    ensures
        ({
            let at = 1 + sel - shown_start(mode, records.len(), sel);
            &&& 0 <= at < frame_lines(mode, records, sel, filter).len()
            &&& frame_lines(mode, records, sel, filter)[at] == row_line(
                sel,
                records[sel as int].app_name@,
                true,
            )
        }),
{
    law_selection_shown(mode, records.len(), sel);
}

/// Where all records are shown at once, the list has a line for each of them,
/// in their order, between its title and the line below it.
pub proof fn law_full_shows_all(
    records: Seq<Record>,
    sel: nat,
    filter: Option<Seq<char>>,
    i: int,
)
    requires
        0 <= i < records.len(),
    ensures
        frame_lines(DisplayMode::Full, records, sel, filter).len() == records.len() + 2,
        frame_lines(DisplayMode::Full, records, sel, filter)[i + 1] == row_line(
            i as nat,
            records[i].app_name@,
            i == sel,
        ),
        plain_lines(DisplayMode::Full, records, filter).len() == records.len() + 3,
        plain_lines(DisplayMode::Full, records, filter)[i + 2] == numbered(
            i as nat,
            records[i].app_name@,
        ),
{
}

/// What is drawn of the list: how many lines are cleared first, and the lines.
pub struct Frame {
    pub clear: usize,
    pub lines: Vec<String>,
}

/// The lines of the list where there is no terminal: the first page, and a
/// hint where there are more, or all records at once.
pub open spec fn plain_lines(
    mode: DisplayMode,
    records: Seq<Record>,
    filter: Option<Seq<char>>,
) -> Seq<Seq<char>> {
    let len = records.len();
    let end = shown_end(mode, len, 0);
    let rows = Seq::new(end, |i: int| numbered(i as nat, records[i].app_name@));
    let more = if mode == DisplayMode::Paged && page_count(len) > 1 {
        seq!["…（共 "@ + decimal(len) + " 条，输入编号打开）"@]
    } else {
        Seq::empty()
    };
    let body = if len == 0 {
        seq![nothing_line(filter, "（还没有任何记录，输入 A 新增）"@)]
    } else {
        rows + more
    };
    seq![""@, list_title(mode, len, filter, 0)] + body + seq![rule_line()]
}

/// The list where there is no terminal.
pub fn render_plain_list(mode: DisplayMode, records: &Vec<Record>, filter: &Option<String>) -> (r:
    Vec<String>)
    ensures
        views(r@) == plain_lines(mode, records@, option_text(*filter)),
{
    let ghost len = records@.len();
    let ghost head = seq![""@, list_title(mode, len, option_text(*filter), 0)];
    let mut out: Vec<String> = Vec::new();
    out.push("".to_owned());
    out.push(title_text(mode, records.len(), filter, 0));
    assert(views(out@) == head);
    if records.len() == 0 {
        let line = nothing_text(filter, "（还没有任何记录，输入 A 新增）");
        out.push(line);
        assert(views(out@) == head.push(line@));
    } else {
        let end = if mode == DisplayMode::Full || records.len() < PAGE_SIZE {
            records.len()
        } else {
            PAGE_SIZE
        };
        let ghost rows = Seq::new(
            shown_end(mode, len, 0),
            |i: int| numbered(i as nat, records@[i].app_name@),
        );
        let mut i: usize = 0;
        while i < end
            invariant
                i <= end,
                end <= records@.len(),
                end == shown_end(mode, records@.len(), 0),
                rows == Seq::new(
                    shown_end(mode, records@.len(), 0),
                    |i: int| numbered(i as nat, records@[i].app_name@),
                ),
                views(out@) == head + rows.take(i as int),
            decreases end - i,
        {
            let ghost before = views(out@);
            let line = numbered_text(i, records[i].app_name.as_str());
            assert(rows.take(i + 1) == rows.take(i as int).push(line@));
            out.push(line);
            assert(views(out@) == before.push(line@));
            i += 1;
        }
        assert(rows.take(end as int) == rows);
        if mode == DisplayMode::Paged && pages_of(records.len()) > 1 {
            let ghost before = views(out@);
            let mut line = "…（共 ".to_owned();
            line.append(decimal_text(records.len()).as_str());
            line.append(" 条，输入编号打开）");
            out.push(line);
            assert(views(out@) == before.push(line@));
        }
    }
    let ghost before = views(out@);
    out.push("------------------------------------------".to_owned());
    assert(views(out@) == before.push(rule_line()));
    assert(views(out@) == plain_lines(mode, records@, option_text(*filter)));
    out
}

/// The state of the main list.
pub struct SessionView {
    /// How the list is shown.
    pub mode: DisplayMode,
    /// The keyword that the list is filtered by.
    pub filter: Option<Seq<char>>,
    /// The index of the selected record, counted over all pages.
    pub sel: nat,
    /// What was typed.
    pub buf: Seq<char>,
    /// How many lines were drawn last; none where drawing starts anew.
    pub last_rows: nat,
}

/// The main list.
pub struct Session {
    mode: DisplayMode,
    filter: Option<String>,
    sel: usize,
    buf: String,
    last_rows: usize,
}

impl View for Session {
    type V = SessionView;

    closed spec fn view(&self) -> SessionView {
        SessionView {
            mode: self.mode,
            filter: option_text(self.filter),
            sel: self.sel as nat,
            buf: self.buf@,
            last_rows: self.last_rows as nat,
        }
    }
}

impl SessionView {
    /// Whether a record of a list of `len` is selected; the first place where
    /// there is none.
    pub open spec fn selects(self, len: nat) -> bool {
        self.sel < len || (len == 0 && self.sel == 0)
    }
}

/// The selection kept within a list of `len`.
pub open spec fn clamped(sel: nat, len: nat) -> nat {
    if len == 0 {
        0
    } else if sel >= len {
        (len - 1) as nat
    } else {
        sel
    }
}

/// What a key in the main list leads to.
pub enum Pressed {
    /// More keys are read.
    Again,
    /// The selection moved, and the list is drawn anew.
    Moved,
    /// A command was entered.
    Submit(String),
}

/// What a key leads to, by its view.
pub enum PressedView {
    Again,
    Moved,
    Submit(Seq<char>),
}

impl View for Pressed {
    type V = PressedView;

    open spec fn view(&self) -> PressedView {
        match self {
            Pressed::Again => PressedView::Again,
            Pressed::Moved => PressedView::Moved,
            Pressed::Submit(s) => PressedView::Submit(s@),
        }
    }
}

/// The main list after a key, and what the key leads to.
pub open spec fn press_next(v: SessionView, len: nat, key: KeyPress) -> (SessionView, PressedView) {
    match key {
        KeyPress::Char(c) => if v.buf.len() < MAX_INPUT {
            (SessionView { buf: v.buf.push(c), ..v }, PressedView::Again)
        } else {
            (v, PressedView::Again)
        },
        KeyPress::Backspace => if v.buf.len() > 0 {
            (SessionView { buf: v.buf.drop_last(), ..v }, PressedView::Again)
        } else {
            (v, PressedView::Again)
        },
        KeyPress::Up => (
            SessionView {
                sel: if v.sel > 0 {
                    (v.sel - 1) as nat
                } else {
                    v.sel
                },
                ..v
            },
            PressedView::Moved,
        ),
        KeyPress::Down => (
            SessionView {
                sel: if v.sel + 1 < len {
                    v.sel + 1
                } else {
                    v.sel
                },
                ..v
            },
            PressedView::Moved,
        ),
        KeyPress::PageUp => (
            SessionView {
                sel: if v.sel > PAGE_SIZE {
                    (v.sel - PAGE_SIZE) as nat
                } else {
                    0
                },
                ..v
            },
            PressedView::Moved,
        ),
        KeyPress::PageDown => (
            SessionView {
                sel: if len == 0 {
                    v.sel
                } else if v.sel + PAGE_SIZE < len - 1 {
                    v.sel + PAGE_SIZE as nat
                } else {
                    (len - 1) as nat
                },
                ..v
            },
            PressedView::Moved,
        ),
        KeyPress::Enter => (v, PressedView::Submit(trimmed(v.buf))),
        KeyPress::Cancel => (v, PressedView::Submit("q"@)),
        _ => (v, PressedView::Again),
    }
}

/// What a command in the main list does.
#[derive(Debug, Clone, Copy, PartialEq, Eq, Structural)]
pub enum Action {
    /// Opens the record at an index.
    Open(usize),
    /// There is no record to open.
    NothingToOpen,
    Add,
    Change,
    Delete,
    Quit,
    /// There is no record with the number that was entered.
    OutOfRange,
    /// The list is searched.
    Search,
}

/// What an entered text stands for, where it is not empty.
#[derive(Debug, Clone, Copy, PartialEq, Eq, Structural)]
pub enum Command {
    Add,
    Change,
    Delete,
    Quit,
    /// The number of a record.
    Number(usize),
    /// A keyword.
    Search,
}

/// Whether `c` is the command that a text stands for.
pub open spec fn is_command(input: Seq<char>, c: Command) -> bool {
    let lower = ascii_lowered(input);
    if lower == "a"@ || lower == "w"@ {
        c == Command::Add
    } else if lower == "c"@ {
        c == Command::Change
    } else if lower == "d"@ {
        c == Command::Delete
    } else if lower == "q"@ || lower == "exit"@ || lower == "quit"@ {
        c == Command::Quit
    } else {
        match parsed_number(input) {
            Some(n) if n <= usize::MAX => c == Command::Number(n as usize),
            _ => c == Command::Search,
        }
    }
}

/// The command that a text stands for.
pub fn command_of(input: &str) -> (r: Command)
    ensures
        is_command(input@, r),
{
    let lower = to_ascii_lower(input);
    let lower = lower.as_str();
    if same(lower, "a") || same(lower, "w") {
        Command::Add
    } else if same(lower, "c") {
        Command::Change
    } else if same(lower, "d") {
        Command::Delete
    } else if same(lower, "q") || same(lower, "exit") || same(lower, "quit") {
        Command::Quit
    } else {
        match parse_number(input) {
            Some(n) => Command::Number(n),
            None => Command::Search,
        }
    }
}

/// A text stands for one command.
pub proof fn law_command_unique(input: Seq<char>, a: Command, b: Command)
    requires
        is_command(input, a),
        is_command(input, b),
    ensures
        a == b,
{
}

/// The main list of `len` records after a command, and what is done. What was
/// typed is forgotten where a record is opened or a search begins, and where
/// nothing was typed.
pub open spec fn dispatched(v: SessionView, len: nat, input: Seq<char>, c: Command) -> (
    SessionView,
    Action,
) {
    if input.len() == 0 {
        (
            SessionView { last_rows: 0, buf: Seq::empty(), ..v },
            if len == 0 {
                Action::NothingToOpen
            } else {
                Action::Open(v.sel as usize)
            },
        )
    } else {
        match c {
            Command::Add => (
                SessionView { filter: None, sel: 0, last_rows: 0, ..v },
                Action::Add,
            ),
            Command::Change => (SessionView { last_rows: 0, ..v }, Action::Change),
            Command::Delete => (
                SessionView { filter: None, last_rows: 0, ..v },
                Action::Delete,
            ),
            Command::Quit => (v, Action::Quit),
            Command::Number(n) => if 1 <= n <= len {
                (
                    SessionView {
                        sel: (n - 1) as nat,
                        last_rows: 0,
                        buf: Seq::empty(),
                        ..v
                    },
                    Action::Open((n - 1) as usize),
                )
            } else {
                (SessionView { last_rows: 0, ..v }, Action::OutOfRange)
            },
            Command::Search => (
                SessionView { filter: Some(input), sel: 0, buf: Seq::empty(), ..v },
                Action::Search,
            ),
        }
    }
}

impl Session {
    /// The main list at its start.
    pub fn new() -> (r: Session)
        ensures
            r@ == (SessionView {
                mode: DisplayMode::Paged,
                filter: None,
                sel: 0,
                buf: Seq::empty(),
                last_rows: 0,
            }),
    {
        Session {
            mode: DisplayMode::Paged,
            filter: None,
            sel: 0,
            buf: String::new(),
            last_rows: 0,
        }
    }

    /// The keyword that the list is filtered by.
    pub fn filter(&self) -> (r: &Option<String>)
        ensures
            option_text(*r) == self@.filter,
    {
        &self.filter
    }

    /// How the list is shown.
    pub fn mode(&self) -> (r: DisplayMode)
        ensures
            r == self@.mode,
    {
        self.mode
    }

    /// The records of the list: all of them, or those that match. The list is
    /// from now on shown as the vault says.
    pub fn records(&mut self, vault: &Vault, rows: Vec<Record>) -> (r: Vec<Record>)
        ensures
            match old(self)@.filter {
                None => is_listing(rows@, r@),
                Some(kw) => is_search(rows@, kw, r@),
            },
            final(self)@ == (SessionView { mode: mode_in(vault.table()), ..old(self)@ }),
    {
        self.mode = vault.display_mode();
        match &self.filter {
            None => vault.list(rows),
            Some(kw) => vault.search(rows, kw.as_str()),
        }
    }

    /// Keeps the selection within a list of `len`.
    pub fn clamp(&mut self, len: usize)
        ensures
            final(self)@ == (SessionView { sel: clamped(old(self)@.sel, len as nat), ..old(self)@ }),
            final(self)@.selects(len as nat),
    {
        if len == 0 {
            self.sel = 0;
        } else if self.sel >= len {
            self.sel = len - 1;
        }
    }

    /// Draws the list: the lines drawn before are cleared, and the new lines
    /// are remembered.
    pub fn render_select_list(&mut self, records: &Vec<Record>) -> (r: Frame)
        requires
            old(self)@.selects(records@.len()),
        ensures
            r.clear == old(self)@.last_rows,
            views(r.lines@) == frame_lines(
                old(self)@.mode,
                records@,
                old(self)@.sel,
                old(self)@.filter,
            ),
            final(self)@ == (SessionView { last_rows: r.lines@.len(), ..old(self)@ }),
    {
        let len = records.len();
        let page: usize = if len == 0 {
            0
        } else {
            self.sel / PAGE_SIZE
        };
        let ghost sel = self.sel as nat;
        let ghost filter = option_text(self.filter);
        let mode = self.mode;
        let ghost title = list_title(mode, len as nat, filter, page as nat);
        proof {
            if len > 0 {
                law_selection_shown(DisplayMode::Paged, len as nat, sel);
            }
        }
        let mut lines: Vec<String> = Vec::new();
        lines.push(title_text(mode, len, &self.filter, page));
        assert(views(lines@) == seq![title]);
        if len == 0 {
            let line = nothing_text(&self.filter, "（还没有任何记录，按 A 新增）");
            lines.push(line);
            assert(views(lines@) == seq![title].push(line@));
        } else {
            let start: usize = if mode == DisplayMode::Full {
                0
            } else {
                page * PAGE_SIZE
            };
            let end: usize = if mode == DisplayMode::Full || len - start < PAGE_SIZE {
                len
            } else {
                start + PAGE_SIZE
            };
            let ghost rows = row_lines(mode, records@, sel);
            let mut i: usize = start;
            while i < end
                invariant
                    start <= i <= end,
                    end <= len,
                    len == records@.len(),
                    sel == self.sel,
                    start == shown_start(mode, len as nat, sel),
                    end == shown_end(mode, len as nat, sel),
                    rows == row_lines(mode, records@, sel),
                    views(lines@) == seq![title] + rows.take(i - start),
                decreases end - i,
            {
                let ghost before = views(lines@);
                let row = numbered_text(i, records[i].app_name.as_str());
                let line = if i == self.sel {
                    let mut line = "\x1b[7m❯ ".to_owned();
                    line.append(row.as_str());
                    line.append("\x1b[0m");
                    line
                } else {
                    let mut line = "  ".to_owned();
                    line.append(row.as_str());
                    line
                };
                proof {
                    assert(line@ == row_line(
                        i as nat,
                        records@[i as int].app_name@,
                        i as nat == sel,
                    ));
                    assert(rows[i - start] == line@);
                    assert(rows.take(i + 1 - start) == rows.take(i - start).push(line@));
                }
                lines.push(line);
                assert(views(lines@) == before.push(line@));
                i += 1;
            }
            assert(rows.take(end - start) == rows);
        }
        let ghost before = views(lines@);
        lines.push("------------------------------------------".to_owned());
        assert(views(lines@) == before.push(rule_line()));
        assert(views(lines@) == frame_lines(mode, records@, sel, filter));
        let clear = self.last_rows;
        self.last_rows = lines.len();
        Frame { clear, lines }
    }

    /// The line in which a command is typed.
    pub fn prompt_line(&self) -> (r: String)
        ensures
            r@ == "\r\x1b[2K"@ + MAIN_PROMPT@ + "  "@ + self@.buf,
    {
        let mut out = "\r\x1b[2K".to_owned();
        out.append(MAIN_PROMPT);
        out.append("  ");
        out.append(self.buf.as_str());
        out
    }

    /// Takes a key, over a list of `len` records.
    pub fn press(&mut self, len: usize, key: KeyPress) -> (r: Pressed)
        ensures
            (final(self)@, r@) == press_next(old(self)@, len as nat, key),
    {
        match key {
            KeyPress::Char(c) => {
                if self.buf.as_str().unicode_len() < MAX_INPUT {
                    self.buf.push(c);
                }
                Pressed::Again
            },
            KeyPress::Backspace => {
                self.buf.pop();
                Pressed::Again
            },
            KeyPress::Up => {
                if self.sel > 0 {
                    self.sel -= 1;
                }
                Pressed::Moved
            },
            KeyPress::Down => {
                if len > 0 && self.sel < len - 1 {
                    self.sel += 1;
                }
                Pressed::Moved
            },
            KeyPress::PageUp => {
                self.sel = if self.sel > PAGE_SIZE {
                    self.sel - PAGE_SIZE
                } else {
                    0
                };
                Pressed::Moved
            },
            KeyPress::PageDown => {
                if len > 0 {
                    if self.sel < len - 1 && PAGE_SIZE < len - 1 - self.sel {
                        self.sel += PAGE_SIZE;
                    } else {
                        self.sel = len - 1;
                    }
                }
                Pressed::Moved
            },
            KeyPress::Enter => Pressed::Submit(self.buf.as_str().trim().to_owned()),
            KeyPress::Cancel => Pressed::Submit("q".to_owned()),
            _ => Pressed::Again,
        }
    }

    /// Takes a command, over a list of `len` records, and tells what is done.
    pub fn dispatch(&mut self, len: usize, input: String) -> (r: Action)
        requires
            old(self)@.selects(len as nat),
        ensures
            exists|c: Command| #[trigger]
                is_command(input@, c) && (final(self)@, r) == dispatched(
                    old(self)@,
                    len as nat,
                    input@,
                    c,
                ),
    {
        let command = command_of(input.as_str());
        assert(is_command(input@, command));
        if input.as_str().is_empty() {
            self.last_rows = 0;
            self.buf = String::new();
            if len == 0 {
                return Action::NothingToOpen;
            }
            return Action::Open(self.sel);
        }
        match command {
            Command::Add => {
                self.filter = None;
                self.sel = 0;
                self.last_rows = 0;
                Action::Add
            },
            Command::Change => {
                self.last_rows = 0;
                Action::Change
            },
            Command::Delete => {
                self.filter = None;
                self.last_rows = 0;
                Action::Delete
            },
            Command::Quit => Action::Quit,
            Command::Number(n) => {
                if n >= 1 && n <= len {
                    self.sel = n - 1;
                    self.last_rows = 0;
                    self.buf = String::new();
                    Action::Open(n - 1)
                } else {
                    self.last_rows = 0;
                    Action::OutOfRange
                }
            },
            Command::Search => {
                self.filter = Some(input);
                self.sel = 0;
                self.buf = String::new();
                Action::Search
            },
        }
    }
}

/// No key moves the selection out of the list.
pub proof fn law_moves_stay_inside(v: SessionView, len: nat, key: KeyPress)
    requires
        v.selects(len),
    ensures
        press_next(v, len, key).0.selects(len),
{
}

/// Moving down and up again comes back to the same record, and so does moving
/// up and down, but at the ends of the list.
pub proof fn law_up_undoes_down(v: SessionView, len: nat)
    requires
        v.selects(len),
    ensures
        v.sel + 1 < len ==> press_next(
            press_next(v, len, KeyPress::Down).0,
            len,
            KeyPress::Up,
        ).0 == v,
        v.sel > 0 ==> press_next(press_next(v, len, KeyPress::Up).0, len, KeyPress::Down).0 == v,
{
}

/// What is typed never grows beyond the longest input that is taken.
pub proof fn law_typed_bounded(v: SessionView, len: nat, key: KeyPress)
    requires
        v.buf.len() <= MAX_INPUT,
    ensures
        press_next(v, len, key).0.buf.len() <= MAX_INPUT,
{
}

/// Keys that move the selection leave the filter and what was typed as they
/// are; keys that type leave the selection and the filter.
pub proof fn law_keys_independent(v: SessionView, len: nat, key: KeyPress)
    ensures
        ({
            let (after, pressed) = press_next(v, len, key);
            &&& after.filter == v.filter
            &&& after.last_rows == v.last_rows
            &&& pressed is Moved ==> after.buf == v.buf
            &&& !(pressed is Moved) ==> after.sel == v.sel
        }),
{
}

/// A record that is opened is one of the list.
pub proof fn law_opens_within(v: SessionView, len: nat, input: Seq<char>, c: Command)
    requires
        v.selects(len),
        len <= usize::MAX,
    ensures
        dispatched(v, len, input, c).1 matches Action::Open(i) ==> i < len,
{
}

/// The message for a number that no record of a list of `len` has.
pub fn out_of_range(len: usize) -> (r: String)
    ensures
        r@ == "编号超出范围（当前列表 1-"@ + decimal(len as nat) + "）"@,
{
    let mut out = "编号超出范围（当前列表 1-".to_owned();
    out.append(decimal_text(len).as_str());
    out.append("）");
    out
}

/// The pages are as many as it takes to hold all records, and the page of a
/// record is the one whose fifteen places hold it.
pub proof fn law_pages_hold_all(len: nat, sel: nat)
    ensures
        page_count(len) >= 1,
        page_count(len) * 15 >= len,
        len > 0 ==> (page_count(len) - 1) * 15 < len,
        sel < len ==> page_of(len, sel) * 15 <= sel < page_of(len, sel) * 15 + 15,
{
}

/// The main list after a key was pressed `n` times.
pub open spec fn pressed_times(v: SessionView, len: nat, key: KeyPress, n: nat) -> SessionView
    decreases n,
{
    if n == 0 {
        v
    } else {
        press_next(pressed_times(v, len, key, (n - 1) as nat), len, key).0
    }
}

/// Moving down `n` times goes `n` records down, but not beyond the last;
/// moving up goes up, but not beyond the first.
pub proof fn law_moves_count(v: SessionView, len: nat, n: nat)
    requires
        v.selects(len),
    ensures
        v.sel + n < len ==> pressed_times(v, len, KeyPress::Down, n).sel == v.sel + n,
        v.sel + n >= len > 0 ==> pressed_times(v, len, KeyPress::Down, n).sel == len - 1,
        n <= v.sel ==> pressed_times(v, len, KeyPress::Up, n).sel == v.sel - n,
        n > v.sel ==> pressed_times(v, len, KeyPress::Up, n).sel == 0,
        pressed_times(v, len, KeyPress::Down, n) == (SessionView {
            sel: pressed_times(v, len, KeyPress::Down, n).sel,
            ..v
        }),
        pressed_times(v, len, KeyPress::Up, n) == (SessionView {
            sel: pressed_times(v, len, KeyPress::Up, n).sel,
            ..v
        }),
        len == 0 ==> pressed_times(v, len, KeyPress::Down, n).sel == 0,
    decreases n,
{
    if n > 0 {
        law_moves_count(v, len, (n - 1) as nat);
    }
}

/// A page down is fifteen records down, and a page up is fifteen records up,
/// neither beyond the end of the list.
pub proof fn law_page_is_fifteen_moves(v: SessionView, len: nat)
    requires
        v.selects(len),
    ensures
        press_next(v, len, KeyPress::PageDown).0 == pressed_times(v, len, KeyPress::Down, 15),
        press_next(v, len, KeyPress::PageUp).0 == pressed_times(v, len, KeyPress::Up, 15),
        press_next(v, len, KeyPress::PageDown).1 is Moved,
        press_next(v, len, KeyPress::PageUp).1 is Moved,
{
    law_moves_count(v, len, 15);
}

/// The main list after the characters of a text were typed.
pub open spec fn typed_all(v: SessionView, len: nat, s: Seq<char>) -> SessionView
    decreases s.len(),
{
    if s.len() == 0 {
        v
    } else {
        press_next(typed_all(v, len, s.drop_last()), len, KeyPress::Char(s.last())).0
    }
}

/// What is typed is kept whole, up to the longest input that is taken, and
/// entered without white space at either end; nothing else changes.
pub proof fn law_typed_is_entered(v: SessionView, len: nat, s: Seq<char>)
    requires
        v.buf.len() + s.len() <= 200,
    ensures
        typed_all(v, len, s) == (SessionView { buf: v.buf + s, ..v }),
        press_next(typed_all(v, len, s), len, KeyPress::Enter) == (
            SessionView { buf: v.buf + s, ..v },
            PressedView::Submit(trimmed(v.buf + s)),
        ),
    decreases s.len(),
{
    if s.len() > 0 {
        law_typed_is_entered(v, len, s.drop_last());
        assert((v.buf + s.drop_last()).push(s.last()) == v.buf + s);
    } else {
        assert(v.buf + s == v.buf);
    }
}

/// A character typed and taken back leaves everything as it was; a full input
/// takes no more, and of an empty one nothing is taken back.
pub proof fn law_typed_taken_back(v: SessionView, len: nat, c: char)
    ensures
        v.buf.len() < 200 ==> press_next(
            press_next(v, len, KeyPress::Char(c)).0,
            len,
            KeyPress::Backspace,
        ).0 == v,
        v.buf.len() < 200 ==> press_next(v, len, KeyPress::Char(c)).0.buf == v.buf.push(c),
        v.buf.len() >= 200 ==> press_next(v, len, KeyPress::Char(c)).0 == v,
        v.buf.len() == 0 ==> press_next(v, len, KeyPress::Backspace).0 == v,
{
    assert(v.buf.push(c).drop_last() == v.buf);
}

/// Keys that the list has no use for change nothing, and giving up quits.
pub proof fn law_other_keys(v: SessionView, len: nat, c: Command)
    requires
        is_command("q"@, c),
    ensures
        press_next(v, len, KeyPress::Other) == (v, PressedView::Again),
        press_next(v, len, KeyPress::Toggle) == (v, PressedView::Again),
        press_next(v, len, KeyPress::Cancel) == (v, PressedView::Submit("q"@)),
        dispatched(v, len, "q"@, c) == (v, Action::Quit),
{
    reveal_strlit("q");
    reveal_strlit("a");
    reveal_strlit("w");
    reveal_strlit("c");
    reveal_strlit("d");
    let lower = ascii_lowered("q"@);
    assert(lower == "q"@);
    assert(lower[0] == 'q');
}

/// The selection kept within a list moves only where it was beyond its end,
/// and then to the last record.
pub proof fn law_clamped(sel: nat, len: nat)
    ensures
        sel < len ==> clamped(sel, len) == sel,
        sel >= len > 0 ==> clamped(sel, len) + 1 == len,
        len == 0 ==> clamped(sel, len) == 0,
{
}

/// Only the words of the commands stand for them, in any letter case: texts
/// of one character, or `exit` and `quit`. All other texts are numbers or
/// keywords.
pub proof fn law_command_words(input: Seq<char>, c: Command)
    requires
        is_command(input, c),
    ensures
        c == Command::Add <==> input.len() == 1 && (input[0] == 'a' || input[0] == 'A' || input[0]
            == 'w' || input[0] == 'W'),
        c == Command::Change <==> input.len() == 1 && (input[0] == 'c' || input[0] == 'C'),
        c == Command::Delete <==> input.len() == 1 && (input[0] == 'd' || input[0] == 'D'),
        c == Command::Quit <==> (input.len() == 1 && (input[0] == 'q' || input[0] == 'Q'))
            || ascii_lowered(input) == seq!['e', 'x', 'i', 't'] || ascii_lowered(input) == seq![
            'q',
            'u',
            'i',
            't',
        ],
{
    reveal_strlit("a");
    reveal_strlit("w");
    reveal_strlit("c");
    reveal_strlit("d");
    reveal_strlit("q");
    reveal_strlit("exit");
    reveal_strlit("quit");
    let lower = ascii_lowered(input);
    assert("a"@ == seq!['a'] && "w"@ == seq!['w'] && "c"@ == seq!['c']);
    assert("d"@ == seq!['d'] && "q"@ == seq!['q']);
    assert("exit"@ == seq!['e', 'x', 'i', 't']);
    assert("quit"@ == seq!['q', 'u', 'i', 't']);
    if input.len() == 1 {
        law_ascii_lowered_each(input, 0);
        let x = input[0];
        assert(lower == seq![lower[0]]);
        assert(lower[0] == 'a' <==> x == 'a' || x == 'A');
        assert(lower[0] == 'w' <==> x == 'w' || x == 'W');
        assert(lower[0] == 'c' <==> x == 'c' || x == 'C');
        assert(lower[0] == 'd' <==> x == 'd' || x == 'D');
        assert(lower[0] == 'q' <==> x == 'q' || x == 'Q');
        assert(seq!['a'][0] == 'a' && seq!['w'][0] == 'w' && seq!['c'][0] == 'c');
        assert(seq!['d'][0] == 'd' && seq!['q'][0] == 'q');
    }
    assert(seq!['a'].len() == 1 && seq!['e', 'x', 'i', 't'].len() == 4);
    assert(seq!['q', 'u', 'i', 't'].len() == 4 && lower.len() == input.len());
    assert(seq!['e', 'x', 'i', 't'][0] == 'e' && seq!['q', 'u', 'i', 't'][0] == 'q');
}

/// A text is taken as a number exactly where it writes one, and as a keyword
/// where it is neither a number nor a command.
pub proof fn law_number_or_keyword(input: Seq<char>, c: Command)
    requires
        is_command(input, c),
    ensures
        c matches Command::Number(n) ==> parsed_number(input) == Some(n as nat),
        c == Command::Search ==> (parsed_number(input) matches Some(n) ==> n > usize::MAX),
        c == Command::Add || c == Command::Change || c == Command::Delete || c == Command::Quit
            ==> parsed_number(input) is None,
{
    law_command_words(input, c);
    if input.len() == 1 {
        law_numbers_read(input, 0);
    } else if c == Command::Quit {
        assert(ascii_lowered(input).len() == input.len());
        assert(seq!['e', 'x', 'i', 't'].len() == 4 && seq!['q', 'u', 'i', 't'].len() == 4);
        law_ascii_lowered_each(input, 0);
        let lower = ascii_lowered(input);
        assert(seq!['e', 'x', 'i', 't'][0] == 'e' && seq!['q', 'u', 'i', 't'][0] == 'q');
        assert(lower[0] == 'e' || lower[0] == 'q');
        assert(!is_digit(input[0]));
        law_numbers_read(input, 0);
    }
}

/// The number of a record opens that record, however large it is; a number
/// that no record has opens none and leaves the selection and the filter.
pub proof fn law_number_opens(v: SessionView, len: nat, n: nat, c: Command)
    requires
        n <= usize::MAX,
        is_command(decimal(n), c),
    ensures
        1 <= n <= len ==> {
            let (after, action) = dispatched(v, len, decimal(n), c);
            &&& action matches Action::Open(i) && i == n - 1
            &&& after.sel == n - 1
            &&& after.filter == v.filter
            &&& after.buf.len() == 0
        },
        n == 0 || n > len ==> {
            let (after, action) = dispatched(v, len, decimal(n), c);
            &&& action == Action::OutOfRange
            &&& after.sel == v.sel
            &&& after.filter == v.filter
            &&& after.buf == v.buf
        },
{
    law_decimal_reads_back(n);
    law_decimal_shortest(n);
    law_number_or_keyword(decimal(n), c);
}

/// A keyword filters the list by itself, whole, and selects the first record
/// of what it finds; nothing of what was typed is kept.
pub proof fn law_keyword_filters(v: SessionView, len: nat, input: Seq<char>, c: Command)
    requires
        input.len() > 0,
        is_command(input, c),
        c == Command::Search,
    ensures
        ({
            let (after, action) = dispatched(v, len, input, c);
            &&& action == Action::Search
            &&& after.filter == Some(input)
            &&& after.sel == 0
            &&& after.buf.len() == 0
            &&& after.mode == v.mode
        }),
{
}

/// Nothing entered opens the selected record, where there is one.
pub proof fn law_enter_opens_selected(v: SessionView, len: nat, c: Command)
    requires
        v.selects(len),
        len <= usize::MAX,
    ensures
        ({
            let (after, action) = dispatched(v, len, Seq::empty(), c);
            &&& after.sel == v.sel
            &&& after.filter == v.filter
            &&& len > 0 ==> (action matches Action::Open(i) && i == v.sel)
            &&& len == 0 ==> action == Action::NothingToOpen
        }),
{
}

/// Adding and deleting start from the whole list; changing keeps the filter
/// and the selection. No command changes how the list is shown.
pub proof fn law_commands_keep(v: SessionView, len: nat, input: Seq<char>, c: Command)
    requires
        input.len() > 0,
        is_command(input, c),
    ensures
        ({
            let (after, action) = dispatched(v, len, input, c);
            &&& after.mode == v.mode
            &&& c == Command::Add ==> action == Action::Add && after.filter is None && after.sel
                == 0
            &&& c == Command::Change ==> action == Action::Change && after.filter == v.filter
                && after.sel == v.sel
            &&& c == Command::Delete ==> action == Action::Delete && after.filter is None
                && after.sel == v.sel
            &&& c == Command::Quit ==> action == Action::Quit && after == v
        }),
{
}

/// The number of a record stands to the right in three places, or in as many
/// as it needs.
pub proof fn law_padded(n: nat)
    ensures
        padded(n).len() >= 3,
        padded(n).len() == 3 || padded(n) == decimal(n),
        padded(n).skip(padded(n).len() - decimal(n).len()) == decimal(n),
        forall|i: int|
            0 <= i < padded(n).len() - decimal(n).len() ==> #[trigger] padded(n)[i] == ' ',
{
    reveal_strlit(" ");
    assert(" "@ == seq![' ']);
    let d = decimal(n);
    if d.len() < 3 {
        law_repeated_character(' ', (3 - d.len()) as nat);
    }
    assert(padded(n).skip(padded(n).len() - d.len()) == d);
}

/// The line of a record shows its number, counted from one, and its whole
/// name, whether or not it is the selected one.
pub proof fn law_row_shows_record(i: nat, name: Seq<char>)
    ensures
        numbered(i, name).skip(numbered(i, name).len() - name.len()) == name,
        numbered(i, name).subrange(1, 1int + padded(i + 1).len()) == padded(i + 1),
        numbered(i, name).len() == padded(i + 1).len() + name.len() + 3,
        row_line(i, name, false).skip(2) == numbered(i, name),
        row_line(i, name, true).subrange(6, 6int + numbered(i, name).len()) == numbered(i, name),
        row_line(i, name, true).len() == numbered(i, name).len() + 10,
{
    reveal_strlit("[");
    reveal_strlit("] ");
    reveal_strlit("  ");
    reveal_strlit("\x1b[7m❯ ");
    reveal_strlit("\x1b[0m");
    let line = numbered(i, name);
    assert(line.skip(line.len() - name.len()) == name);
    assert(line.subrange(1, 1int + padded(i + 1).len()) == padded(i + 1));
    assert(row_line(i, name, false).skip(2) == line);
    assert(row_line(i, name, true).subrange(6, 6int + line.len()) == line);
}

/// The list shows each record of the page once, in their order, between its
/// title and the line below it; only the selected one is marked.
pub proof fn law_page_shows_records(
    records: Seq<Record>,
    sel: nat,
    filter: Option<Seq<char>>,
    i: int,
)
    requires
        sel < records.len(),
        page_of(records.len(), sel) * 15 <= i < records.len(),
        i < page_of(records.len(), sel) * 15 + 15,
    ensures
        ({
            let lines = frame_lines(DisplayMode::Paged, records, sel, filter);
            let start = page_of(records.len(), sel) * 15;
            &&& lines[1 + i - start] == row_line(i as nat, records[i].app_name@, i == sel)
            &&& lines.len() == 2 + if start + 15 <= records.len() {
                15int
            } else {
                records.len() - start
            }
            &&& lines.last() == rule_line()
        }),
{
    law_selection_shown(DisplayMode::Paged, records.len(), sel);
}

/// Without a terminal, page by page, the first fifteen records are shown, with
/// a hint where there are more.
pub proof fn law_plain_shows_first(records: Seq<Record>, filter: Option<Seq<char>>, i: int)
    requires
        0 <= i < records.len(),
        i < 15,
    ensures
        plain_lines(DisplayMode::Paged, records, filter)[2 + i] == numbered(
            i as nat,
            records[i].app_name@,
        ),
        plain_lines(DisplayMode::Paged, records, filter).len() == if records.len() <= 15 {
            records.len() + 3int
        } else {
            19
        },
{
}

/// The title shows the count of all records and the whole keyword.
pub proof fn law_title_tells(mode: DisplayMode, len: nat, kw: Seq<char>, page: nat)
    ensures
        exists|a: Seq<char>, b: Seq<char>|
            list_title(mode, len, Some(kw), page) == #[trigger] (a + kw) + #[trigger] (
            "」"@ + b) && a == "========== 密码库（共 "@ + decimal(len) + " 条，搜索「"@,
        exists|b: Seq<char>|
            list_title(mode, len, None, page) == #[trigger] ("========== 密码库（共 "@ + decimal(
                len,
            ) + " 条"@ + b),
{
    let head = "========== 密码库（共 "@ + decimal(len);
    let number = if mode == DisplayMode::Paged && page_count(len) > 1 {
        "  第 "@ + decimal(page + 1) + "/"@ + decimal(page_count(len)) + " 页"@
    } else {
        Seq::empty()
    };
    let b = "）"@ + number + "=========="@;
    reveal_strlit(" 条");
    reveal_strlit("，搜索「");
    reveal_strlit(" 条，搜索「");
    assert(" 条"@ + "，搜索「"@ == " 条，搜索「"@);
    let a = head + " 条，搜索「"@;
    assert(a == head + " 条"@ + "，搜索「"@);
    assert(list_title(mode, len, Some(kw), page) == (a + kw) + ("」"@ + b));
    assert(list_title(mode, len, None, page) == head + " 条"@ + b);
}

/// Where nothing is shown for a keyword, the line in its place holds the whole
/// keyword; without a keyword it is the hint.
pub proof fn law_nothing_names_keyword(kw: Seq<char>, hint: Seq<char>)
    ensures
        holds(nothing_line(Some(kw), hint), kw),
        nothing_line(None, hint) == hint,
{
    law_holds_between("（没有匹配「"@, kw, "」的记录）"@);
}

/// Where there are several pages, the title tells which one is shown, counted
/// from one, and how many there are.
pub proof fn law_title_counts_pages(len: nat, filter: Option<Seq<char>>, page: nat)
    requires
        page_count(len) > 1,
    ensures
        exists|a: Seq<char>, n: Seq<char>, m: Seq<char>|
            list_title(DisplayMode::Paged, len, filter, page) == #[trigger] (a + "  第 "@ + n + "/"@
                + m + " 页=========="@) && all_digits(n) && digits_value(n) == page + 1
                && all_digits(m) && digits_value(m) == page_count(len),
        list_title(DisplayMode::Full, len, filter, page) == list_title(
            DisplayMode::Full,
            len,
            filter,
            0,
        ),
{
    let title = list_title(DisplayMode::Paged, len, filter, page);
    let (n, m) = (decimal(page + 1), decimal(page_count(len)));
    law_decimal_shortest(page + 1);
    law_decimal_reads_back(page + 1);
    law_decimal_shortest(page_count(len));
    law_decimal_reads_back(page_count(len));
    let keyword = match filter {
        Some(kw) => "，搜索「"@ + kw + "」"@,
        None => Seq::empty(),
    };
    let a = "========== 密码库（共 "@ + decimal(len) + " 条"@ + keyword + "）"@;
    reveal_strlit(" 页");
    reveal_strlit("==========");
    reveal_strlit(" 页==========");
    assert(" 页=========="@ == " 页"@ + "=========="@);
    assert(title == a + "  第 "@ + n + "/"@ + m + " 页=========="@);
}

/// A list without records has one line in their place, which names the
/// keyword where there is one.
pub proof fn law_empty_list_says_so(
    mode: DisplayMode,
    records: Seq<Record>,
    sel: nat,
    filter: Option<Seq<char>>,
)
    requires
        records.len() == 0,
    ensures
        frame_lines(mode, records, sel, filter).len() == 3,
        plain_lines(mode, records, filter).len() == 4,
        filter matches Some(kw) ==> holds(frame_lines(mode, records, sel, filter)[1], kw) && holds(
            plain_lines(mode, records, filter)[2],
            kw,
        ),
{
    if let Some(kw) = filter {
        law_nothing_names_keyword(kw, "（还没有任何记录，按 A 新增）"@);
        law_nothing_names_keyword(kw, "（还没有任何记录，输入 A 新增）"@);
    }
}

} // verus!
