//! The order of record names, and fuzzy matching.
//!
//! Names that start with an ASCII letter or digit come first, in alphabetical
//! order; names that start with a Chinese character follow, by pinyin; all
//! others come last.
use crate::text::{
    ascii_case_variants, ascii_lowered, chars_of, law_lowered_ignores_ascii_case,
    law_lowered_within, law_trimmed_idempotent, law_trimmed_keeps_case, lowered, same_but_case,
    trimmed, white_after, white_before,
};
use pinyin::{Pinyin, ToPinyin};
use vstd::prelude::*;
use vstd::string::*;

verus! {

/// The toneless pinyin of a character, if it has one.
pub uninterp spec fn plain_pinyin(c: char) -> Option<Seq<char>>;

/// Calls `to_pinyin` on a character and `Pinyin::plain` on the result. What
/// is claimed: the pinyin depends on the character alone, and ASCII characters
/// have none.
#[verifier::external_body]
fn char_pinyin(c: char) -> (r: Option<&'static str>)
    ensures
        match r {
            Some(p) => plain_pinyin(c) == Some(p@),
            None => plain_pinyin(c) is None,
        },
        c <= '\x7f' ==> r is None,
{
    c.to_pinyin().map(Pinyin::plain)
}

/// Calls `to_pinyin` on a character and `Pinyin::first_letter` on the result.
/// What is claimed: it is the first letter of the toneless pinyin, and ASCII
/// characters have none.
#[verifier::external_body]
fn char_initial(c: char) -> (r: Option<&'static str>)
    ensures
        match r {
            Some(f) => plain_pinyin(c) matches Some(p) && p.len() > 0 && f@ == seq![p[0]],
            None => plain_pinyin(c) is None,
        },
        c <= '\x7f' ==> r is None,
{
    c.to_pinyin().map(Pinyin::first_letter)
}

/// A character spelled in pinyin; one without pinyin, as each ASCII character
/// is, stands for itself.
pub open spec fn spelled(c: char) -> Seq<char> {
    match plain_pinyin(c) {
        Some(p) if c > '\x7f' => p,
        _ => seq![c],
    }
}

/// The first letter of a character's pinyin; a character without pinyin, as
/// each ASCII character is, stands for itself.
pub open spec fn initial(c: char) -> char {
    match plain_pinyin(c) {
        Some(p) if c > '\x7f' => p[0],
        _ => c,
    }
}

/// Text spelled in pinyin, character by character.
pub open spec fn pinyin_of(s: Seq<char>) -> Seq<char>
    decreases s.len(),
{
    if s.len() == 0 {
        Seq::empty()
    } else {
        pinyin_of(s.drop_last()) + spelled(s.last())
    }
}

/// The pinyin initials of text.
pub open spec fn initials_of(s: Seq<char>) -> Seq<char> {
    s.map_values(|c: char| initial(c))
}

/// Spells text in pinyin; characters without pinyin are kept.
pub fn pinyin_text(text: &str) -> (r: String)
    ensures
        r@ == pinyin_of(text@),
{
    let mut out = String::new();
    for c in it: text.chars()
        invariant
            out@ == pinyin_of(it.seq().take(it.index() as int)),
            it.seq() == text@,
    {
        assert(it.seq().take(it.index() + 1).drop_last() == it.seq().take(it.index() as int));
        let ghost before = out@;
        match char_pinyin(c) {
            Some(p) => out.append(p),
            None => {
                out.push(c);
                assert(out@ == before + seq![c]);
            },
        }
    }
    assert(text@.take(text@.len() as int) == text@);
    out
}

/// The pinyin initials of text; characters without pinyin are kept.
pub fn pinyin_initials(text: &str) -> (r: String)
    ensures
        r@ == initials_of(text@),
{
    let mut out = String::new();
    for c in it: text.chars()
        invariant
            out@ == initials_of(it.seq().take(it.index() as int)),
            it.seq() == text@,
    {
        let ghost before = it.seq().take(it.index() as int);
        match char_initial(c) {
            Some(f) => out.append(f),
            None => out.push(c),
        }
        assert(it.seq().take(it.index() + 1) == before.push(c));
        assert(out@ == initials_of(before.push(c)));
    }
    assert(text@.take(text@.len() as int) == text@);
    out
}

/// Whether `c` is an ASCII letter or digit.
pub open spec fn is_ascii_alphanumeric(c: char) -> bool {
    'a' <= c <= 'z' || 'A' <= c <= 'Z' || '0' <= c <= '9'
}

/// Whether `c` is in the block of common Chinese characters.
pub open spec fn is_chinese(c: char) -> bool {
    '\u{4e00}' <= c <= '\u{9fff}'
}

/// The sort key of a name: its group, and the text it is ordered by there.
pub open spec fn key_of(text: Seq<char>) -> (u8, Seq<char>) {
    let t = trimmed(text);
    if t.len() > 0 && is_ascii_alphanumeric(t[0]) {
        (0, lowered(t))
    } else if t.len() > 0 && is_chinese(t[0]) {
        (1, lowered(pinyin_of(t)))
    } else {
        (2, lowered(t))
    }
}

/// The sort key of a name. Keys are compared by group, then by text.
pub fn sort_key(text: &str) -> (r: (u8, String))
    ensures
        (r.0, r.1@) == key_of(text@),
{
    let text = text.trim();
    if text.is_empty() {
        return (2, text.to_lowercase());
    }
    let c = text.get_char(0);
    if ('a' <= c && c <= 'z') || ('A' <= c && c <= 'Z') || ('0' <= c && c <= '9') {
        (0, text.to_lowercase())
    } else if '\u{4e00}' <= c && c <= '\u{9fff}' {
        (1, pinyin_text(text).as_str().to_lowercase())
    } else {
        (2, text.to_lowercase())
    }
}

/// Whether `a` comes before `b` in the order of code points, or equals it.
pub open spec fn text_le(a: Seq<char>, b: Seq<char>) -> bool
    decreases a.len(),
{
    if a.len() == 0 {
        true
    } else if b.len() == 0 {
        false
    } else {
        a[0] < b[0] || (a[0] == b[0] && text_le(a.drop_first(), b.drop_first()))
    }
}

/// Whether key `a` comes before key `b`, or equals it.
pub open spec fn key_le(a: (u8, Seq<char>), b: (u8, Seq<char>)) -> bool {
    a.0 < b.0 || (a.0 == b.0 && text_le(a.1, b.1))
}

/// Of two texts one comes before the other, or they are equal.
pub proof fn law_text_le_total(a: Seq<char>, b: Seq<char>)
    ensures
        text_le(a, b) || text_le(b, a),
        text_le(a, a),
    decreases a.len(),
{
    if a.len() > 0 {
        law_text_le_total(a.drop_first(), a.drop_first());
        if b.len() > 0 {
            law_text_le_total(a.drop_first(), b.drop_first());
        }
    }
}

/// Two texts that come before each other are equal.
pub proof fn law_text_le_antisymmetric(a: Seq<char>, b: Seq<char>)
    requires
        text_le(a, b),
        text_le(b, a),
    ensures
        a == b,
    decreases a.len(),
{
    if a.len() > 0 && b.len() > 0 {
        law_text_le_antisymmetric(a.drop_first(), b.drop_first());
        assert(a == seq![a[0]] + a.drop_first());
        assert(b == seq![b[0]] + b.drop_first());
    } else {
        assert(a == b);
    }
}

/// The order of texts is transitive.
pub proof fn law_text_le_transitive(a: Seq<char>, b: Seq<char>, c: Seq<char>)
    requires
        text_le(a, b),
        text_le(b, c),
    ensures
        text_le(a, c),
    decreases a.len(),
{
    if a.len() > 0 && b.len() > 0 && c.len() > 0 {
        if a[0] == b[0] && b[0] == c[0] {
            law_text_le_transitive(a.drop_first(), b.drop_first(), c.drop_first());
        }
    }
}

/// The order of keys is total, antisymmetric and transitive.
pub proof fn law_key_order(a: (u8, Seq<char>), b: (u8, Seq<char>), c: (u8, Seq<char>))
    ensures
        key_le(a, b) || key_le(b, a),
        key_le(a, b) && key_le(b, a) ==> a == b,
        key_le(a, b) && key_le(b, c) ==> key_le(a, c),
{
    law_text_le_total(a.1, b.1);
    if key_le(a, b) && key_le(b, a) {
        law_text_le_antisymmetric(a.1, b.1);
    }
    if key_le(a, b) && key_le(b, c) && a.0 == c.0 {
        law_text_le_transitive(a.1, b.1, c.1);
    }
}

/// Names that start with an ASCII letter or digit come before those that
/// start with a Chinese character, and these before all others.
pub proof fn law_groups_in_order(a: Seq<char>, b: Seq<char>)
    requires
        group_of(a) < group_of(b),
    ensures
        key_le(key_of(a), key_of(b)),
        !key_le(key_of(b), key_of(a)),
{
}

/// The group that a name belongs to by its first character.
pub open spec fn group_of(text: Seq<char>) -> int {
    let t = trimmed(text);
    if t.len() > 0 && is_ascii_alphanumeric(t[0]) {
        0
    } else if t.len() > 0 && is_chinese(t[0]) {
        1
    } else {
        2
    }
}

/// Names that differ only in letter case have the same key, unless they start
/// with a Chinese character.
pub proof fn law_key_ignores_case(a: Seq<char>, b: Seq<char>)
    requires
        lowered(trimmed(a)) == lowered(trimmed(b)),
        group_of(a) == group_of(b),
        group_of(a) != 1,
    ensures
        key_of(a) == key_of(b),
{
}

/// Whether text `a` comes before text `b`, or equals it.
pub fn text_before(a: &str, b: &str) -> (r: bool)
    ensures
        r == text_le(a@, b@),
{
    let x = chars_of(a);
    let y = chars_of(b);
    let mut i: usize = 0;
    proof {
        assert(x@.skip(0) == x@);
        assert(y@.skip(0) == y@);
    }
    while i < x.len()
        invariant
            x@ == a@,
            y@ == b@,
            i <= x@.len(),
            i <= y@.len(),
            text_le(x@, y@) == text_le(x@.skip(i as int), y@.skip(i as int)),
        decreases x@.len() - i,
    {
        if i >= y.len() {
            return false;
        }
        if x[i] < y[i] {
            return true;
        }
        if x[i] != y[i] {
            return false;
        }
        proof {
            assert(x@.skip(i as int).drop_first() == x@.skip(i + 1));
            assert(y@.skip(i as int).drop_first() == y@.skip(i + 1));
        }
        i += 1;
    }
    true
}

/// Whether key `a` comes before key `b`, or equals it.
pub fn key_before(a: &(u8, String), b: &(u8, String)) -> (r: bool)
    ensures
        r == key_le((a.0, a.1@), (b.0, b.1@)),
{
    if a.0 < b.0 {
        true
    } else if a.0 == b.0 {
        text_before(a.1.as_str(), b.1.as_str())
    } else {
        false
    }
}

/// Whether the positions `at` in `hay` hold the characters of `needle`, from
/// left to right.
pub open spec fn embeds(hay: Seq<char>, needle: Seq<char>, at: Seq<int>) -> bool {
    &&& at.len() == needle.len()
    &&& forall|i: int| 0 <= i < at.len() ==> 0 <= #[trigger] at[i] < hay.len()
    &&& forall|i: int| 0 <= i < at.len() ==> hay[#[trigger] at[i]] == needle[i]
    &&& forall|i: int, j: int| 0 <= i < j < at.len() ==> #[trigger] at[i] < #[trigger] at[j]
}

/// Whether the characters of `needle` occur in `hay` in their order, not
/// necessarily side by side.
pub open spec fn subsequence(hay: Seq<char>, needle: Seq<char>) -> bool {
    exists|at: Seq<int>| embeds(hay, needle, at)
}

/// Text is a subsequence of itself, and the empty text of every text.
pub proof fn law_subsequence_reflexive(s: Seq<char>)
    ensures
        subsequence(s, s),
        subsequence(s, Seq::empty()),
{
    assert(embeds(s, s, Seq::new(s.len(), |i: int| i)));
    assert(embeds(s, Seq::empty(), Seq::empty()));
}

/// A subsequence of a subsequence is a subsequence.
pub proof fn law_subsequence_transitive(a: Seq<char>, b: Seq<char>, c: Seq<char>)
    requires
        subsequence(a, b),
        subsequence(b, c),
    ensures
        subsequence(a, c),
{
    let f = choose|at: Seq<int>| embeds(a, b, at);
    let g = choose|at: Seq<int>| embeds(b, c, at);
    let h = Seq::new(c.len(), |i: int| f[g[i]]);
    assert forall|i: int| 0 <= i < h.len() implies 0 <= #[trigger] h[i] < a.len() by {
        assert(0 <= g[i] < b.len());
    }
    assert forall|i: int| 0 <= i < h.len() implies a[#[trigger] h[i]] == c[i] by {
        assert(0 <= g[i] < b.len());
        assert(a[f[g[i]]] == b[g[i]]);
    }
    assert forall|i: int, j: int| 0 <= i < j < h.len() implies #[trigger] h[i] < #[trigger] h[j] by {
        assert(g[i] < g[j]);
        assert(0 <= g[i] < b.len() && 0 <= g[j] < b.len());
    }
    assert(embeds(a, c, h));
}

/// Text stays a subsequence when more is written round the text it occurs in.
pub proof fn law_subsequence_in_context(
    before: Seq<char>,
    hay: Seq<char>,
    after: Seq<char>,
    needle: Seq<char>,
)
    requires
        subsequence(hay, needle),
    ensures
        subsequence(before + hay + after, needle),
{
    let f = choose|at: Seq<int>| embeds(hay, needle, at);
    let g = Seq::new(f.len(), |i: int| f[i] + before.len());
    assert(embeds(before + hay + after, needle, g));
}

/// A subsequence is no longer than the text it occurs in.
pub proof fn law_subsequence_length(hay: Seq<char>, needle: Seq<char>)
    requires
        subsequence(hay, needle),
    ensures
        needle.len() <= hay.len(),
{
    let f = choose|at: Seq<int>| embeds(hay, needle, at);
    embedding_climbs(hay, needle, f, needle.len() as int);
}

proof fn embedding_climbs(hay: Seq<char>, needle: Seq<char>, at: Seq<int>, n: int)
    requires
        embeds(hay, needle, at),
        0 <= n <= at.len(),
    ensures
        n > 0 ==> at[n - 1] >= n - 1,
    decreases n,
{
    if n > 1 {
        embedding_climbs(hay, needle, at, n - 1);
        assert(at[n - 2] < at[n - 1]);
    } else if n == 1 {
        assert(0 <= at[0]);
    }
}

/// Whether the characters of `needle` occur in `haystack` in their order, not
/// necessarily side by side.
pub fn is_subsequence(haystack: &str, needle: &str) -> (r: bool)
    ensures
        r == subsequence(haystack@, needle@),
{
    let hay = chars_of(haystack);
    let wanted = chars_of(needle);
    let mut i: usize = 0;
    let mut j: usize = 0;
    let ghost mut at: Seq<int> = Seq::empty();
    while i < wanted.len() && j < hay.len()
        invariant
            i <= wanted@.len(),
            j <= hay@.len(),
            embeds(hay@, wanted@.take(i as int), at),
            at.len() > 0 ==> at.last() < j,
            forall|g: Seq<int>| #[trigger]
                embeds(hay@, wanted@, g) && i < wanted@.len() ==> g[i as int] >= j,
        decreases hay@.len() - j,
    {
        if hay[j] == wanted[i] {
            proof {
                let before = at;
                at = at.push(j as int);
                assert(wanted@.take(i + 1) == wanted@.take(i as int).push(wanted@[i as int]));
                assert forall|k: int| 0 <= k < at.len() implies hay@[#[trigger] at[k]]
                    == wanted@.take(i + 1)[k] by {
                    if k < before.len() {
                        assert(hay@[before[k]] == wanted@.take(i as int)[k]);
                    }
                }
                assert forall|k: int, l: int| 0 <= k < l < at.len() implies #[trigger] at[k]
                    < #[trigger] at[l] by {
                    if l == before.len() {
                        if k < before.len() - 1 {
                            assert(before[k] < before[before.len() - 1]);
                        }
                    } else {
                        assert(before[k] < before[l]);
                    }
                }
                assert forall|g: Seq<int>| #[trigger]
                    embeds(hay@, wanted@, g) && i + 1 < wanted@.len() implies g[i + 1] >= j + 1 by {
                    assert(g[i as int] < g[i + 1]);
                }
            }
            i += 1;
        } else {
            proof {
                assert forall|g: Seq<int>| #[trigger]
                    embeds(hay@, wanted@, g) && i < wanted@.len() implies g[i as int] >= j + 1 by {
                    assert(hay@[g[i as int]] == wanted@[i as int]);
                }
            }
        }
        j += 1;
    }
    proof {
        if i == wanted@.len() {
            assert(wanted@.take(i as int) == wanted@);
        } else if subsequence(hay@, wanted@) {
            let g = choose|g: Seq<int>| embeds(hay@, wanted@, g);
            assert(0 <= g[i as int] < hay@.len());
        }
    }
    i == wanted.len()
}

/// Whether `text` matches `keyword`: the keyword, in lower case, occurs as a
/// subsequence in the text, in its pinyin or in its pinyin initials.
pub open spec fn fuzzy(text: Seq<char>, keyword: Seq<char>) -> bool {
    let kw = lowered(trimmed(keyword));
    ||| subsequence(lowered(text), kw)
    ||| subsequence(lowered(pinyin_of(text)), kw)
    ||| subsequence(lowered(initials_of(text)), kw)
}

/// Whether `text` matches `keyword`.
pub fn fuzzy_matches(text: &str, keyword: &str) -> (r: bool)
    ensures
        r == fuzzy(text@, keyword@),
        trimmed(keyword@).len() == 0 ==> r,
        trimmed(keyword@).len() > 0 && text@.len() == 0 ==> !r,
{
    let kw = keyword.trim().to_lowercase();
    if kw.as_str().is_empty() {
        proof {
            law_subsequence_reflexive(lowered(text@));
            assert(kw@ == Seq::<char>::empty());
        }
        return true;
    }
    let lower = text.to_lowercase();
    proof {
        if text@.len() == 0 {
            assert(text@ == Seq::<char>::empty());
            law_fuzzy_empty_text(keyword@);
        }
    }
    is_subsequence(lower.as_str(), kw.as_str()) || is_subsequence(
        pinyin_text(text).as_str().to_lowercase().as_str(),
        kw.as_str(),
    ) || is_subsequence(pinyin_initials(text).as_str().to_lowercase().as_str(), kw.as_str())
}

/// Keywords that differ only in letter case or in outer white space match the
/// same texts.
pub proof fn law_fuzzy_ignores_case(text: Seq<char>, a: Seq<char>, b: Seq<char>)
    requires
        lowered(trimmed(a)) == lowered(trimmed(b)),
    ensures
        fuzzy(text, a) == fuzzy(text, b),
{
}

/// A text matches itself.
pub proof fn law_fuzzy_reflexive(text: Seq<char>)
    ensures
        fuzzy(text, text),
{
    lowered_holds_trimmed(text);
}

/// White space around a name changes neither its key nor its group.
pub proof fn law_key_ignores_outer_space(text: Seq<char>)
    ensures
        key_of(trimmed(text)) == key_of(text),
        group_of(trimmed(text)) == group_of(text),
{
    law_trimmed_idempotent(text);
}

/// White space around a keyword does not matter.
pub proof fn law_fuzzy_ignores_outer_space(text: Seq<char>, keyword: Seq<char>)
    ensures
        fuzzy(text, trimmed(keyword)) == fuzzy(text, keyword),
{
    law_trimmed_idempotent(keyword);
}

/// The pinyin of texts that differ only in the case of ASCII letters differs
/// only in the case of ASCII letters.
proof fn pinyin_keeps_case(a: Seq<char>, b: Seq<char>)
    requires
        ascii_lowered(a) == ascii_lowered(b),
    ensures
        ascii_lowered(pinyin_of(a)) == ascii_lowered(pinyin_of(b)),
    decreases a.len(),
{
    ascii_case_variants(a, b);
    if a.len() > 0 {
        assert(ascii_lowered(a.drop_last()) == ascii_lowered(a).drop_last());
        assert(ascii_lowered(b.drop_last()) == ascii_lowered(b).drop_last());
        pinyin_keeps_case(a.drop_last(), b.drop_last());
        let (x, y) = (a.last(), b.last());
        assert(same_but_case(a[a.len() - 1], b[b.len() - 1]));
        assert(ascii_lowered(spelled(x)) == ascii_lowered(spelled(y)));
        assert(ascii_lowered(pinyin_of(a)) == ascii_lowered(pinyin_of(a.drop_last()))
            + ascii_lowered(spelled(x)));
        assert(ascii_lowered(pinyin_of(b)) == ascii_lowered(pinyin_of(b.drop_last()))
            + ascii_lowered(spelled(y)));
    }
}

/// The pinyin initials of texts that differ only in the case of ASCII letters
/// differ only in the case of ASCII letters.
proof fn initials_keep_case(a: Seq<char>, b: Seq<char>)
    requires
        ascii_lowered(a) == ascii_lowered(b),
    ensures
        ascii_lowered(initials_of(a)) == ascii_lowered(initials_of(b)),
{
    ascii_case_variants(a, b);
    let (x, y) = (ascii_lowered(initials_of(a)), ascii_lowered(initials_of(b)));
    assert forall|i: int| 0 <= i < a.len() implies #[trigger] x[i] == y[i] by {
        assert(same_but_case(a[i], b[i]));
        assert(initials_of(a)[i] == initial(a[i]));
        assert(initials_of(b)[i] == initial(b[i]));
    }
    assert(x == y);
}

/// Names that differ only in the case of ASCII letters have the same key and
/// the same group.
pub proof fn law_key_ignores_ascii_case(a: Seq<char>, b: Seq<char>)
    requires
        ascii_lowered(a) == ascii_lowered(b),
    ensures
        key_of(a) == key_of(b),
        group_of(a) == group_of(b),
{
    law_trimmed_keeps_case(a, b);
    let (s, t) = (trimmed(a), trimmed(b));
    ascii_case_variants(s, t);
    if s.len() > 0 {
        assert(same_but_case(s[0], t[0]));
    }
    assert(group_of(a) == group_of(b));
    law_lowered_ignores_ascii_case(s, t);
    pinyin_keeps_case(s, t);
    law_lowered_ignores_ascii_case(pinyin_of(s), pinyin_of(t));
}

/// Texts and keywords that differ only in the case of ASCII letters match
/// alike.
pub proof fn law_fuzzy_ignores_ascii_case(
    text: Seq<char>,
    other: Seq<char>,
    keyword: Seq<char>,
    variant: Seq<char>,
)
    requires
        ascii_lowered(text) == ascii_lowered(other),
        ascii_lowered(keyword) == ascii_lowered(variant),
    ensures
        fuzzy(text, keyword) == fuzzy(other, variant),
{
    law_trimmed_keeps_case(keyword, variant);
    law_lowered_ignores_ascii_case(trimmed(keyword), trimmed(variant));
    law_lowered_ignores_ascii_case(text, other);
    pinyin_keeps_case(text, other);
    law_lowered_ignores_ascii_case(pinyin_of(text), pinyin_of(other));
    initials_keep_case(text, other);
    law_lowered_ignores_ascii_case(initials_of(text), initials_of(other));
}

/// A text is found by its pinyin and by its pinyin initials.
pub proof fn law_fuzzy_by_pinyin(text: Seq<char>)
    ensures
        fuzzy(text, pinyin_of(text)),
        fuzzy(text, initials_of(text)),
{
    lowered_holds_trimmed(pinyin_of(text));
    lowered_holds_trimmed(initials_of(text));
}

/// The lowercase form of a text holds that of its trimmed form.
proof fn lowered_holds_trimmed(s: Seq<char>)
    ensures
        subsequence(lowered(s), lowered(trimmed(s))),
{
    let kw = lowered(trimmed(s));
    law_subsequence_reflexive(kw);
    law_subsequence_in_context(white_before(s), kw, white_after(s), kw);
    law_lowered_within(s);
}

/// A keyword that matches in one form of a text still matches when characters
/// are left out of it.
pub proof fn law_fuzzy_skips_characters(text: Seq<char>, longer: Seq<char>, shorter: Seq<char>)
    requires
        fuzzy(text, longer),
        subsequence(lowered(trimmed(longer)), lowered(trimmed(shorter))),
    ensures
        fuzzy(text, shorter),
{
    let a = lowered(trimmed(longer));
    let b = lowered(trimmed(shorter));
    if subsequence(lowered(text), a) {
        law_subsequence_transitive(lowered(text), a, b);
    } else if subsequence(lowered(pinyin_of(text)), a) {
        law_subsequence_transitive(lowered(pinyin_of(text)), a, b);
    } else {
        law_subsequence_transitive(lowered(initials_of(text)), a, b);
    }
}

/// Text that ends alike in both is a subsequence as far as the rest is; where
/// the ends differ, the last character of the longer text plays no part. The
/// empty text holds nothing but itself.
pub proof fn law_subsequence_steps(hay: Seq<char>, needle: Seq<char>)
    ensures
        needle.len() == 0 ==> subsequence(hay, needle),
        hay.len() == 0 && needle.len() > 0 ==> !subsequence(hay, needle),
        hay.len() > 0 && needle.len() > 0 && hay.last() == needle.last() ==> (subsequence(
            hay,
            needle,
        ) <==> subsequence(hay.drop_last(), needle.drop_last())),
        hay.len() > 0 && needle.len() > 0 && hay.last() != needle.last() ==> (subsequence(
            hay,
            needle,
        ) <==> subsequence(hay.drop_last(), needle)),
{
    if needle.len() == 0 {
        assert(embeds(hay, needle, Seq::empty()));
    } else if hay.len() == 0 {
        if subsequence(hay, needle) {
            law_subsequence_length(hay, needle);
        }
    } else {
        let short = hay.drop_last();
        assert(hay == Seq::empty() + short + seq![hay.last()]);
        if hay.last() == needle.last() {
            if subsequence(hay, needle) {
                let f = choose|at: Seq<int>| embeds(hay, needle, at);
                let g = f.drop_last();
                assert forall|i: int| 0 <= i < g.len() implies 0 <= #[trigger] g[i]
                    < short.len() by {
                    assert(f[i] < f[f.len() - 1]);
                }
                assert forall|i: int| 0 <= i < g.len() implies short[#[trigger] g[i]]
                    == needle.drop_last()[i] by {
                    assert(f[i] < f[f.len() - 1]);
                    assert(hay[f[i]] == needle[i]);
                }
                assert(embeds(short, needle.drop_last(), g));
            }
            if subsequence(short, needle.drop_last()) {
                let g = choose|at: Seq<int>| embeds(short, needle.drop_last(), at);
                let f = g.push(hay.len() - 1);
                assert forall|i: int| 0 <= i < f.len() implies hay[#[trigger] f[i]]
                    == needle[i] by {
                    if i < g.len() {
                        assert(0 <= g[i] < short.len());
                        assert(short[g[i]] == needle.drop_last()[i]);
                    }
                }
                assert forall|i: int, j: int| 0 <= i < j < f.len() implies #[trigger] f[i]
                    < #[trigger] f[j] by {
                    assert(0 <= g[i] < short.len());
                    if j < g.len() {
                        assert(g[i] < g[j]);
                    }
                }
                assert forall|i: int| 0 <= i < f.len() implies 0 <= #[trigger] f[i]
                    < hay.len() by {
                    if i < g.len() {
                        assert(0 <= g[i] < short.len());
                    }
                }
                assert(embeds(hay, needle, f));
            }
        } else {
            if subsequence(hay, needle) {
                let f = choose|at: Seq<int>| embeds(hay, needle, at);
                let last = f.len() - 1;
                assert(hay[f[last]] == needle[last]);
                assert forall|i: int| 0 <= i < f.len() implies 0 <= #[trigger] f[i]
                    < short.len() by {
                    if i < last {
                        assert(f[i] < f[last]);
                    }
                }
                assert forall|i: int| 0 <= i < f.len() implies short[#[trigger] f[i]]
                    == needle[i] by {
                    assert(hay[f[i]] == needle[i]);
                }
                assert(embeds(short, needle, f));
            }
            if subsequence(short, needle) {
                law_subsequence_in_context(Seq::empty(), short, seq![hay.last()], needle);
            }
        }
    }
}

/// Every character of a subsequence occurs in the text.
pub proof fn law_subsequence_occurs(hay: Seq<char>, needle: Seq<char>, c: char)
    requires
        subsequence(hay, needle),
        needle.contains(c),
    ensures
        hay.contains(c),
{
    let f = choose|at: Seq<int>| embeds(hay, needle, at);
    let i = choose|i: int| 0 <= i < needle.len() && needle[i] == c;
    assert(0 <= f[i] < hay.len());
    assert(hay[f[i]] == c);
}

/// Spelling in pinyin goes character by character, to the end of the text: a
/// character above ASCII that has a pinyin gives it, any other gives itself.
pub proof fn law_pinyin_by_character(a: Seq<char>, c: char, b: Seq<char>)
    ensures
        pinyin_of(a + b) == pinyin_of(a) + pinyin_of(b),
        pinyin_of(Seq::empty()) == Seq::<char>::empty(),
        c <= '\x7f' || plain_pinyin(c) is None ==> pinyin_of(seq![c]) == seq![c],
        c > '\x7f' && plain_pinyin(c) is Some ==> Some(pinyin_of(seq![c])) == plain_pinyin(c),
    decreases b.len(),
{
    assert(seq![c].drop_last() == Seq::<char>::empty());
    reveal_with_fuel(pinyin_of, 2);
    assert(pinyin_of(seq![c]) == Seq::<char>::empty() + spelled(c));
    assert(pinyin_of(seq![c]) == spelled(c));
    if b.len() == 0 {
        assert(a + b == a);
    } else {
        law_pinyin_by_character(a, c, b.drop_last());
        assert((a + b).drop_last() == a + b.drop_last());
        assert(pinyin_of(a + b) == pinyin_of(a) + pinyin_of(b));
    }
}

/// The initials of text are one for each character, to its end: the first
/// letter of the pinyin of a character above ASCII that has one, any other
/// character itself.
pub proof fn law_initials_by_character(s: Seq<char>, i: int)
    requires
        0 <= i < s.len(),
    ensures
        initials_of(s).len() == s.len(),
        s[i] <= '\x7f' || plain_pinyin(s[i]) is None ==> initials_of(s)[i] == s[i],
        s[i] > '\x7f' && plain_pinyin(s[i]) is Some ==> initials_of(s)[i] == plain_pinyin(
            s[i],
        )->0[0],
{
}

/// A keyword matches only if one form of the text, its lowercase, its pinyin
/// or its initials, holds the keyword whole and in order; each character of
/// the keyword then occurs in that form.
pub proof fn law_fuzzy_sound(text: Seq<char>, keyword: Seq<char>)
    requires
        fuzzy(text, keyword),
    ensures
        exists|form: Seq<char>| #[trigger]
            is_form(form, text) && subsequence(form, lowered(trimmed(keyword))) && (forall|c: char|
                lowered(trimmed(keyword)).contains(c) ==> form.contains(c)) && lowered(
                trimmed(keyword),
            ).len() <= form.len(),
{
    let kw = lowered(trimmed(keyword));
    let form = if subsequence(lowered(text), kw) {
        lowered(text)
    } else if subsequence(lowered(pinyin_of(text)), kw) {
        lowered(pinyin_of(text))
    } else {
        lowered(initials_of(text))
    };
    assert(is_form(form, text));
    assert forall|c: char| kw.contains(c) implies form.contains(c) by {
        law_subsequence_occurs(form, kw, c);
    }
    law_subsequence_length(form, kw);
}

/// Whether `form` is one of the three forms in which a text is searched.
pub open spec fn is_form(form: Seq<char>, text: Seq<char>) -> bool {
    form == lowered(text) || form == lowered(pinyin_of(text)) || form == lowered(initials_of(text))
}

/// A keyword that one form of the text holds whole and in order matches.
pub proof fn law_fuzzy_complete(text: Seq<char>, keyword: Seq<char>, form: Seq<char>)
    requires
        is_form(form, text),
        subsequence(form, lowered(trimmed(keyword))),
    ensures
        fuzzy(text, keyword),
{
}

/// A keyword with a character that occurs in no form of the text does not
/// match, nor does one that is longer than each of them.
pub proof fn law_fuzzy_refuses(text: Seq<char>, keyword: Seq<char>, c: char)
    ensures
        lowered(trimmed(keyword)).contains(c) && !lowered(text).contains(c) && !lowered(
            pinyin_of(text),
        ).contains(c) && !lowered(initials_of(text)).contains(c) ==> !fuzzy(text, keyword),
        lowered(trimmed(keyword)).len() > lowered(text).len() && lowered(trimmed(keyword)).len()
            > lowered(pinyin_of(text)).len() && lowered(trimmed(keyword)).len() > lowered(
            initials_of(text),
        ).len() ==> !fuzzy(text, keyword),
{
    if fuzzy(text, keyword) {
        law_fuzzy_sound(text, keyword);
    }
}

/// The empty text matches no keyword but one of white space.
pub proof fn law_fuzzy_empty_text(keyword: Seq<char>)
    ensures
        fuzzy(Seq::empty(), keyword) <==> lowered(trimmed(keyword)).len() == 0,
        trimmed(keyword).len() == 0 ==> fuzzy(Seq::empty(), keyword),
{
    let none = Seq::<char>::empty();
    let kw = lowered(trimmed(keyword));
    assert(pinyin_of(none) == none);
    assert(initials_of(none) == none);
    assert(lowered(none) == none);
    law_subsequence_steps(none, kw);
}

/// An order by code points is that of a dictionary: a text comes before
/// another, or equals it, exactly if it begins the other or has the smaller
/// character where they first differ.
pub proof fn law_text_le_dictionary(a: Seq<char>, b: Seq<char>)
    ensures
        text_le(a, b) <==> (a.len() <= b.len() && b.take(a.len() as int) == a) || exists|i: int|
            0 <= i < a.len() && i < b.len() && a.take(i) == b.take(i) && #[trigger] a[i] < b[i],
    decreases a.len(),
{
    if a.len() == 0 {
        assert(b.take(0) == a);
    } else if b.len() > 0 {
        let (x, y) = (a.drop_first(), b.drop_first());
        law_text_le_dictionary(x, y);
        if text_le(a, b) {
            if a[0] < b[0] {
                assert(a.take(0) == b.take(0));
            } else if x.len() <= y.len() && y.take(x.len() as int) == x {
                assert forall|k: int| 0 <= k < a.len() implies a[k] == b[k] by {
                    if k > 0 {
                        assert(x[k - 1] == y.take(x.len() as int)[k - 1]);
                    }
                }
                assert(b.take(a.len() as int) == a);
            } else {
                let i = choose|i: int|
                    0 <= i < x.len() && i < y.len() && x.take(i) == y.take(i) && #[trigger] x[i]
                        < y[i];
                assert forall|k: int| 0 <= k < i + 1 implies a[k] == b[k] by {
                    if k > 0 {
                        assert(x.take(i)[k - 1] == y.take(i)[k - 1]);
                    }
                }
                assert(a.take(i + 1) == b.take(i + 1));
                assert(a[i + 1] < b[i + 1]);
            }
        }
        if a.len() <= b.len() && b.take(a.len() as int) == a {
            assert(b.take(a.len() as int)[0] == a[0]);
            assert(y.take(x.len() as int) == x) by {
                assert forall|k: int| 0 <= k < x.len() implies y[k] == x[k] by {
                    assert(b.take(a.len() as int)[k + 1] == a[k + 1]);
                }
            }
        }
        if exists|i: int|
            0 <= i < a.len() && i < b.len() && a.take(i) == b.take(i) && #[trigger] a[i] < b[i] {
            let i = choose|i: int|
                0 <= i < a.len() && i < b.len() && a.take(i) == b.take(i) && #[trigger] a[i]
                    < b[i];
            if i > 0 {
                assert(a.take(i)[0] == b.take(i)[0]);
                assert(x.take(i - 1) == y.take(i - 1)) by {
                    assert forall|k: int| 0 <= k < i - 1 implies x[k] == y[k] by {
                        assert(a.take(i)[k + 1] == b.take(i)[k + 1]);
                    }
                }
                assert(x[i - 1] < y[i - 1]);
            }
        }
    }
}

/// The first character of a name, behind white space, decides its group.
pub proof fn law_group_by_first(text: Seq<char>)
    ensures
        trimmed(text).len() == 0 ==> key_of(text).0 == 2,
        trimmed(text).len() > 0 ==> ({
            let c = trimmed(text)[0];
            &&& 'a' <= c <= 'z' || 'A' <= c <= 'Z' || '0' <= c <= '9' <==> key_of(text).0 == 0
            &&& '\u{4e00}' <= c <= '\u{9fff}' <==> key_of(text).0 == 1
            &&& key_of(text).0 <= 2
        }),
        group_of(text) == key_of(text).0,
{
}

/// Two names that start with a Chinese character stand in the order of their
/// whole pinyin, and have the same key only if their pinyin is the same to the
/// end, but for letter case.
pub proof fn law_chinese_order_by_pinyin(a: Seq<char>, b: Seq<char>)
    requires
        trimmed(a).len() > 0,
        trimmed(b).len() > 0,
        '\u{4e00}' <= trimmed(a)[0] <= '\u{9fff}',
        '\u{4e00}' <= trimmed(b)[0] <= '\u{9fff}',
    ensures
        key_le(key_of(a), key_of(b)) <==> text_le(
            lowered(pinyin_of(trimmed(a))),
            lowered(pinyin_of(trimmed(b))),
        ),
        key_of(a) == key_of(b) <==> lowered(pinyin_of(trimmed(a))) == lowered(
            pinyin_of(trimmed(b)),
        ),
{
}

/// Two names of one of the other groups stand in the order of their whole
/// lowercase text, and have the same key only if that is the same to the end.
pub proof fn law_plain_order_by_text(a: Seq<char>, b: Seq<char>)
    requires
        group_of(a) == group_of(b),
        trimmed(a).len() > 0 ==> !('\u{4e00}' <= trimmed(a)[0] <= '\u{9fff}'),
    ensures
        key_le(key_of(a), key_of(b)) <==> text_le(lowered(trimmed(a)), lowered(trimmed(b))),
        key_of(a) == key_of(b) <==> lowered(trimmed(a)) == lowered(trimmed(b)),
{
}

/// A text is found by a keyword only if the whole keyword, trimmed and in
/// lower case, occurs in order in one of the forms of the text, and always
/// then; the empty text is found by white space alone.
pub proof fn law_found_by_keyword(text: &str, keyword: &str, r: bool)
    requires
        call_ensures(fuzzy_matches, (text, keyword), r),
    ensures
        r <==> exists|form: Seq<char>| #[trigger]
            is_form(form, text@) && subsequence(form, lowered(trimmed(keyword@))),
        text@.len() == 0 ==> (r <==> trimmed(keyword@).len() == 0),
{
    if r {
        law_fuzzy_sound(text@, keyword@);
    }
    if exists|form: Seq<char>| #[trigger]
        is_form(form, text@) && subsequence(form, lowered(trimmed(keyword@))) {
        let form = choose|form: Seq<char>| #[trigger]
            is_form(form, text@) && subsequence(form, lowered(trimmed(keyword@)));
        law_fuzzy_complete(text@, keyword@, form);
    }
}

/// The keys of two names compare as the names do: by group, and in a group by
/// the whole pinyin of Chinese names and the whole text of all others.
pub proof fn law_keys_compare(
    a: &str,
    b: &str,
    x: (u8, String),
    y: (u8, String),
    r: bool,
)
    requires
        call_ensures(sort_key, (a,), x),
        call_ensures(sort_key, (b,), y),
        call_ensures(key_before, (&x, &y), r),
    ensures
        group_of(a@) < group_of(b@) ==> r,
        group_of(a@) > group_of(b@) ==> !r,
        group_of(a@) == 1 && group_of(b@) == 1 ==> (r <==> text_le(
            lowered(pinyin_of(trimmed(a@))),
            lowered(pinyin_of(trimmed(b@))),
        )),
        group_of(a@) == group_of(b@) && group_of(a@) != 1 ==> (r <==> text_le(
            lowered(trimmed(a@)),
            lowered(trimmed(b@)),
        )),
        x == y ==> group_of(a@) == group_of(b@),
{
    law_group_by_first(a@);
    law_group_by_first(b@);
}

} // verus!
