//! The banner shown at the start.
use crate::sort::is_chinese;
use crate::text::{chars_of, law_repeated_character, repeat, repeated, views};
use crate::ui::theme::{paint, painted, Style};
use vstd::prelude::*;
use vstd::string::*;

verus! {

/// The rows of the large title, the letters P, S, W and D, each seven
/// characters wide and one character apart.
pub open spec fn art_rows() -> Seq<Seq<char>> {
    seq![
        "#######  ###### #     # ###### "@,
        "#     # #       #     # #    # "@,
        "####### ######  #  #  # #     #"@,
        "#             # # # # # #     #"@,
        "#       #       ##   ## #    # "@,
        "#        ###### #     # ###### "@,
    ]
}

/// The width of the large title.
pub const ART_WIDTH: usize = 31;

/// The width of the terminal where it is not known.
pub const DEFAULT_COLS: usize = 80;

/// All rows of the large title have its width.
pub proof fn law_art_aligned(i: int)
    requires
        0 <= i < art_rows().len(),
    ensures
        art_rows()[i].len() == ART_WIDTH,
{
    reveal_strlit("#######  ###### #     # ###### ");
    reveal_strlit("#     # #       #     # #    # ");
    reveal_strlit("####### ######  #  #  # #     #");
    reveal_strlit("#             # # # # # #     #");
    reveal_strlit("#       #       ##   ## #    # ");
    reveal_strlit("#        ###### #     # ###### ");
    assert(i == 0 || i == 1 || i == 2 || i == 3 || i == 4 || i == 5);
}

/// Writes the rows of the large title.
fn art() -> (r: Vec<String>)
    ensures
        views(r@) == art_rows(),
{
    let mut out: Vec<String> = Vec::new();
    out.push("#######  ###### #     # ###### ".to_owned());
    out.push("#     # #       #     # #    # ".to_owned());
    out.push("####### ######  #  #  # #     #".to_owned());
    out.push("#             # # # # # #     #".to_owned());
    out.push("#       #       ##   ## #    # ".to_owned());
    out.push("#        ###### #     # ###### ".to_owned());
    assert(views(out@) == art_rows());
    out
}

/// How many columns a character takes.
pub open spec fn char_width(c: char) -> nat {
    if is_chinese(c) {
        2
    } else {
        1
    }
}

/// How many columns a text takes.
pub open spec fn text_width(s: Seq<char>) -> nat
    decreases s.len(),
{
    if s.len() == 0 {
        0
    } else {
        text_width(s.drop_last()) + char_width(s.last())
    }
}

/// How many columns stand before a text of a width that is shown in the
/// middle of a line; none where it does not fit.
pub open spec fn left_margin(width: nat, cols: nat) -> nat {
    if width >= cols {
        0
    } else {
        ((cols - width) / 2) as nat
    }
}

/// The text that `console::strip_ansi_codes` leaves.
pub uninterp spec fn stripped(s: Seq<char>) -> Seq<char>;

/// Whether no escape code can start in a text.
pub open spec fn without_escapes(s: Seq<char>) -> bool {
    forall|i: int| 0 <= i < s.len() ==> #[trigger] s[i] != '\x1b' && s[i] != '\u{9b}'
}

/// Calls `console::strip_ansi_codes`. What is claimed of it: the result
/// depends on the argument alone, and a text in which no escape code can
/// start stays as it is.
#[verifier::external_body]
fn strip_codes(s: &str) -> (r: String)
    ensures
        r@ == stripped(s@),
        without_escapes(s@) ==> r@ == s@,
{
    console::strip_ansi_codes(s).into_owned()
}

/// `s` in the middle of a line, where `plain` is what is seen of it.
pub open spec fn centered_text(s: Seq<char>, plain: Seq<char>, cols: nat) -> Seq<char> {
    repeated(" "@, left_margin(text_width(plain), cols)) + s
}

/// Writes `s` in the middle of a line of `cols` columns, where `plain` is what
/// is seen of it.
pub fn centered(s: &str, plain: &str, cols: usize) -> (r: String)
    ensures
        r@ == centered_text(s@, plain@, cols as nat),
{
    let chars = chars_of(plain);
    let mut left: usize = cols;
    let mut i: usize = 0;
    while i < chars.len()
        invariant
            chars@ == plain@,
            i <= chars@.len(),
            left == (if text_width(chars@.take(i as int)) >= cols {
                0
            } else {
                cols - text_width(chars@.take(i as int))
            }),
        decreases chars@.len() - i,
    {
        let c = chars[i];
        let width: usize = if '\u{4e00}' <= c && c <= '\u{9fff}' {
            2
        } else {
            1
        };
        proof {
            assert(chars@.take(i + 1).drop_last() == chars@.take(i as int));
        }
        left = if left >= width {
            left - width
        } else {
            0
        };
        i += 1;
    }
    assert(chars@.take(chars@.len() as int) == plain@);
    let mut out = repeat(" ", left / 2);
    out.append(s);
    out
}

/// Writes `s` in the middle of a line of `cols` columns; escape codes in it
/// take no columns.
pub fn center(s: &str, cols: usize) -> (r: String)
    ensures
        r@ == centered_text(s@, stripped(s@), cols as nat),
        without_escapes(s@) ==> r@ == centered_text(s@, s@, cols as nat),
{
    centered(s, strip_codes(s).as_str(), cols)
}

/// A line of the banner: the name of a field and its value.
pub open spec fn info_line(name: Seq<char>, value: Seq<char>, on: bool) -> Seq<char> {
    painted(Style::Field, name, on) + " "@ + painted(Style::Dim, value, on)
}

/// Writes a line of the banner in the middle.
fn info(name: &str, value: &str, cols: usize, on: bool) -> (r: String)
    ensures
        r@ == centered_text(
            info_line(name@, value@, on),
            stripped(info_line(name@, value@, on)),
            cols as nat,
        ),
{
    let mut line = paint(Style::Field, name, on);
    line.append(" ");
    line.append(paint(Style::Dim, value, on).as_str());
    center(line.as_str(), cols)
}

/// The rows of the large title in the middle of lines of `cols` columns.
pub open spec fn art_lines(cols: nat, on: bool) -> Seq<Seq<char>> {
    art_rows().map_values(
        |row: Seq<char>|
            repeated(" "@, left_margin(ART_WIDTH as nat, cols)) + painted(Style::Title, row, on),
    )
}

/// The lines below the large title: author, version and repository.
pub open spec fn info_lines(version: Seq<char>, cols: nat, on: bool) -> Seq<Seq<char>> {
    let author = info_line("作者"@, "D BOY"@, on);
    let release = info_line("版本"@, "v"@ + version, on);
    let source = info_line("仓库"@, "github.com/dboycht/pswd"@, on);
    seq![
        centered_text(author, stripped(author), cols),
        centered_text(release, stripped(release), cols),
        centered_text(source, stripped(source), cols),
    ]
}

/// The lines of the banner.
pub open spec fn banner_lines(version: Seq<char>, cols: nat, on: bool) -> Seq<Seq<char>> {
    seq![""@] + art_lines(cols, on) + seq![""@] + info_lines(version, cols, on) + seq![""@]
}

/// The lines of the banner for a terminal of `cols` columns.
pub fn banner(version: &str, cols: usize, on: bool) -> (r: Vec<String>)
    ensures
        views(r@) == banner_lines(version@, cols as nat, on),
{
    let mut out: Vec<String> = Vec::new();
    out.push("".to_owned());
    let rows = art();
    let margin: usize = if ART_WIDTH >= cols {
        0
    } else {
        (cols - ART_WIDTH) / 2
    };
    let ghost shown = art_lines(cols as nat, on);
    assert(rows@.len() == views(rows@).len());
    assert(views(out@) == seq![""@] + shown.take(0));
    let mut i: usize = 0;
    while i < rows.len()
        invariant
            i <= rows@.len(),
            rows@.len() == shown.len(),
            views(rows@) == art_rows(),
            margin == left_margin(ART_WIDTH as nat, cols as nat),
            shown == art_lines(cols as nat, on),
            views(out@) == seq![""@] + shown.take(i as int),
        decreases rows@.len() - i,
    {
        let ghost before = views(out@);
        let mut line = repeat(" ", margin);
        line.append(paint(Style::Title, rows[i].as_str(), on).as_str());
        proof {
            assert(views(rows@)[i as int] == rows@[i as int]@);
            assert(shown.take(i + 1) == shown.take(i as int).push(line@));
        }
        out.push(line);
        assert(views(out@) == before.push(line@));
        i += 1;
    }
    assert(shown.take(shown.len() as int) == shown);
    let ghost before = views(out@);
    out.push("".to_owned());
    out.push(info("作者", "D BOY", cols, on));
    let mut release = "v".to_owned();
    release.append(version);
    out.push(info("版本", release.as_str(), cols, on));
    out.push(info("仓库", "github.com/dboycht/pswd", cols, on));
    out.push("".to_owned());
    assert(views(out@) == before + seq![""@] + info_lines(version@, cols as nat, on) + seq![""@]);
    out
}

/// The columns of texts written one behind the other add up; a Chinese
/// character takes two, any other one.
pub proof fn law_widths_add(a: Seq<char>, c: char, b: Seq<char>)
    ensures
        text_width(a + b) == text_width(a) + text_width(b),
        text_width(seq![c]) == if '\u{4e00}' <= c <= '\u{9fff}' {
            2nat
        } else {
            1nat
        },
        text_width(Seq::empty()) == 0,
    decreases b.len(),
{
    reveal_with_fuel(text_width, 2);
    assert(seq![c].drop_last() == Seq::<char>::empty());
    if b.len() == 0 {
        assert(a + b == a);
    } else {
        law_widths_add(a, c, b.drop_last());
        assert((a + b).drop_last() == a + b.drop_last());
    }
}

/// A text in the middle of a line has as many columns before it as behind it,
/// or one fewer; one that does not fit starts the line. The text itself is
/// unchanged, with spaces before it.
pub proof fn law_centered(s: Seq<char>, plain: Seq<char>, cols: nat)
    ensures
        ({
            let out = centered_text(s, plain, cols);
            let margin = out.len() - s.len();
            let behind = cols - text_width(plain) - margin;
            &&& out.skip(margin) == s
            &&& forall|i: int| 0 <= i < margin ==> #[trigger] out[i] == ' '
            &&& text_width(plain) < cols ==> margin <= behind <= margin + 1
            &&& text_width(plain) >= cols ==> margin == 0
        }),
{
    reveal_strlit(" ");
    assert(" "@ == seq![' ']);
    law_repeated_character(' ', left_margin(text_width(plain), cols));
    let out = centered_text(s, plain, cols);
    assert(out.skip(out.len() - s.len()) == s);
}

/// The banner has the large title, row by row, between blank lines, and below
/// it three lines; the second of them ends with the version.
pub proof fn law_banner_shows(version: Seq<char>, cols: nat, i: int)
    requires
        0 <= i < 6,
    ensures
        banner_lines(version, cols, false).len() == 12,
        art_rows()[i].is_suffix_of(banner_lines(version, cols, false)[1 + i]),
        version.is_suffix_of(banner_lines(version, cols, false)[9]),
        banner_lines(version, cols, false)[0].len() == 0,
        banner_lines(version, cols, false)[7].len() == 0,
        banner_lines(version, cols, false)[11].len() == 0,
{
    reveal_strlit("");
    let lines = banner_lines(version, cols, false);
    assert(lines.len() == 12);
    let row = art_rows()[i];
    assert(lines[1 + i] == art_lines(cols, false)[i]);
    assert(lines[1 + i].skip(lines[1 + i].len() - row.len()) == row);
    assert(lines[9] == info_lines(version, cols, false)[1]);
    assert(lines[9].skip(lines[9].len() - version.len()) == version);
}

} // verus!
