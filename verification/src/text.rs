//! Text as sequences of characters: the string operations that the rest of
//! the library is written in, each with its meaning over `Seq<char>`.
use vstd::prelude::*;
use vstd::string::*;
use vstd::utf8::*;

verus! {

/// The Unicode property `White_Space`.
pub open spec fn white_space(c: char) -> bool {
    ||| '\u{9}' <= c <= '\u{d}'
    ||| c == '\u{20}'
    ||| c == '\u{85}'
    ||| c == '\u{a0}'
    ||| c == '\u{1680}'
    ||| '\u{2000}' <= c <= '\u{200a}'
    ||| c == '\u{2028}'
    ||| c == '\u{2029}'
    ||| c == '\u{202f}'
    ||| c == '\u{205f}'
    ||| c == '\u{3000}'
}

/// `s` without its leading white space.
pub open spec fn trimmed_start(s: Seq<char>) -> Seq<char>
    decreases s.len(),
{
    if s.len() > 0 && white_space(s[0]) {
        trimmed_start(s.drop_first())
    } else {
        s
    }
}

/// `s` without its trailing white space.
pub open spec fn trimmed_end(s: Seq<char>) -> Seq<char>
    decreases s.len(),
{
    if s.len() > 0 && white_space(s.last()) {
        trimmed_end(s.drop_last())
    } else {
        s
    }
}

/// `s` without its leading and trailing white space.
pub open spec fn trimmed(s: Seq<char>) -> Seq<char> {
    trimmed_end(trimmed_start(s))
}

/// What is left of the end is a prefix that does not end in white space.
proof fn trimmed_end_prefix(s: Seq<char>)
    ensures
        trimmed_end(s).len() <= s.len(),
        trimmed_end(s) == s.take(trimmed_end(s).len() as int),
        trimmed_end(s).len() > 0 ==> !white_space(trimmed_end(s).last()),
    decreases s.len(),
{
    if s.len() > 0 && white_space(s.last()) {
        trimmed_end_prefix(s.drop_last());
        assert(trimmed_end(s) == s.take(trimmed_end(s).len() as int));
    } else {
        assert(s.take(s.len() as int) == s);
    }
}

/// What is left of the start does not begin with white space.
proof fn trimmed_start_begins(s: Seq<char>)
    ensures
        trimmed_start(s).len() > 0 ==> !white_space(trimmed_start(s)[0]),
    decreases s.len(),
{
    if s.len() > 0 && white_space(s[0]) {
        trimmed_start_begins(s.drop_first());
    }
}

/// A trimmed text has no white space at either end, so trimming it again
/// changes nothing.
pub proof fn law_trimmed_idempotent(s: Seq<char>)
    ensures
        trimmed(trimmed(s)) == trimmed(s),
        trimmed(s).len() > 0 ==> !white_space(trimmed(s)[0]) && !white_space(trimmed(s).last()),
{
    let start = trimmed_start(s);
    let t = trimmed_end(start);
    trimmed_start_begins(s);
    trimmed_end_prefix(start);
    if t.len() > 0 {
        assert(t[0] == start[0]);
        assert(trimmed_start(t) == t);
    }
}

/// The white space before the first other character of `s`.
pub open spec fn white_before(s: Seq<char>) -> Seq<char> {
    s.take(s.len() - trimmed_start(s).len())
}

/// The white space behind the last other character of `s`, where it has one.
pub open spec fn white_after(s: Seq<char>) -> Seq<char> {
    trimmed_start(s).skip(trimmed(s).len() as int)
}

/// A text is its trimmed form with white space before and after it.
pub proof fn law_trimmed_within(s: Seq<char>)
    ensures
        s == white_before(s) + trimmed(s) + white_after(s),
{
    let start = trimmed_start(s);
    trimmed_start_suffix(s);
    trimmed_end_prefix(start);
    assert(start == trimmed(s) + white_after(s));
    assert(s == white_before(s) + start);
    assert(s == white_before(s) + trimmed(s) + white_after(s));
}

/// What is left of the start is a suffix.
proof fn trimmed_start_suffix(s: Seq<char>)
    ensures
        trimmed_start(s).len() <= s.len(),
        trimmed_start(s) == s.skip(s.len() - trimmed_start(s).len()),
    decreases s.len(),
{
    if s.len() > 0 && white_space(s[0]) {
        let rest = s.drop_first();
        trimmed_start_suffix(rest);
        assert(rest.skip(rest.len() - trimmed_start(rest).len()) == s.skip(
            s.len() - trimmed_start(s).len(),
        ));
    } else {
        assert(s.skip(0) == s);
    }
}

/// What is claimed of `str::trim`: the result is the argument without the
/// characters of property `White_Space` at either end.
pub assume_specification[ str::trim ](s: &str) -> (r: &str)
    ensures
        r@ == trimmed(s@),
;

/// The lowercase form that `str::to_lowercase` gives.
pub uninterp spec fn lowercase(s: Seq<char>) -> Seq<char>;

/// Whether `s` holds ASCII characters only.
pub open spec fn is_ascii_text(s: Seq<char>) -> bool {
    forall|i: int| 0 <= i < s.len() ==> #[trigger] s[i] <= '\x7f'
}

/// A text without outer white space in lower case: ASCII text letter by
/// letter, other text as the standard library puts it. Whether ASCII letters
/// in it are in upper or in lower case does not matter.
pub open spec fn lowered_core(s: Seq<char>) -> Seq<char> {
    if is_ascii_text(s) {
        ascii_lowered(s)
    } else {
        lowercase(ascii_lowered(s))
    }
}

/// `s` in lower case; white space round it stays as it is.
pub open spec fn lowered(s: Seq<char>) -> Seq<char> {
    white_before(s) + lowered_core(trimmed(s)) + white_after(s)
}

/// What is claimed of `str::to_lowercase`: the result depends on the argument
/// alone. White space has no case: round a text it stays, and the text has the
/// lowercase form that it has by itself. The lowercase form of ASCII text has
/// `a` to `z` for `A` to `Z` and is otherwise the same, and texts that differ
/// only in the case of ASCII letters have one lowercase form. A character has
/// one or more characters as its lowercase form, so only the empty string has
/// an empty one.
pub assume_specification[ str::to_lowercase ](s: &str) -> (r: String)
    ensures
        r@ == lowercase(s@),
        r@ == lowered(s@),
        r@.len() == 0 <==> s@.len() == 0,
;

/// What is claimed of `String::push`: it appends the character.
pub assume_specification[ String::push ](s: &mut String, c: char)
    ensures
        final(s)@ == old(s)@.push(c),
;

/// What is claimed of `String::pop`: it takes the last character off, if
/// there is one.
pub assume_specification[ String::pop ](s: &mut String) -> (r: Option<char>)
    ensures
        old(s)@.len() == 0 ==> r is None && final(s)@ == old(s)@,
        old(s)@.len() > 0 ==> r == Some(old(s)@.last()) && final(s)@ == old(s)@.drop_last(),
;

/// Calls `String::from_utf8`. What is claimed of it: bytes that are valid
/// UTF-8 give the text they encode, others give an error, here `None`.
#[verifier::external_body]
pub(crate) fn text_from_utf8(bytes: Vec<u8>) -> (r: Option<String>)
    ensures
        match r {
            Some(s) => valid_utf8(bytes@) && s@ == decode_utf8(bytes@),
            None => !valid_utf8(bytes@),
        },
{
    String::from_utf8(bytes).ok()
}

/// The characters of a string.
pub fn chars_of(s: &str) -> (r: Vec<char>)
    ensures
        r@ == s@,
{
    let mut v: Vec<char> = Vec::new();
    for c in it: s.chars()
        invariant
            v@ == it.seq().take(it.index() as int),
            it.seq() == s@,
    {
        v.push(c);
    }
    assert(s@.take(s@.len() as int) == s@);
    v
}

/// Whether two strings hold the same characters.
pub fn same(a: &str, b: &str) -> (r: bool)
    ensures
        r == (a@ == b@),
{
    a.to_owned() == b.to_owned()
}

/// The views of a list of strings.
pub open spec fn views(v: Seq<String>) -> Seq<Seq<char>> {
    Seq::new(v.len(), |i: int| v[i]@)
}

/// `s` written `n` times over.
pub open spec fn repeated(s: Seq<char>, n: nat) -> Seq<char>
    decreases n,
{
    if n == 0 {
        Seq::empty()
    } else {
        repeated(s, (n - 1) as nat) + s
    }
}

/// Writes `s` `n` times over.
pub fn repeat(s: &str, n: usize) -> (r: String)
    ensures
        r@ == repeated(s@, n as nat),
{
    let mut out = String::new();
    let mut i: usize = 0;
    while i < n
        invariant
            i <= n,
            out@ == repeated(s@, i as nat),
        decreases n - i,
    {
        out.append(s);
        i += 1;
    }
    out
}

/// The decimal digit of value `d`.
pub open spec fn digit(d: nat) -> char
    recommends
        d < 10,
{
    (48 + d) as char
}

/// The decimal numeral of `n`.
pub open spec fn decimal(n: nat) -> Seq<char>
    decreases n,
{
    if n < 10 {
        seq![digit(n)]
    } else {
        decimal(n / 10).push(digit(n % 10))
    }
}

/// Writes a number in decimal.
pub fn decimal_text(n: usize) -> (r: String)
    ensures
        r@ == decimal(n as nat),
    decreases n,
{
    let last: u8 = (n % 10) as u8;
    let c = (48 + last) as char;
    let mut out = if n < 10 {
        String::new()
    } else {
        decimal_text(n / 10)
    };
    out.push(c);
    proof {
        if n < 10 {
            assert(out@ == seq![digit(n as nat)]);
        }
    }
    out
}

/// A numeral holds digits only, and at least one.
pub proof fn decimal_is_digits(n: nat)
    ensures
        decimal(n).len() >= 1,
        all_digits(decimal(n)),
    decreases n,
{
    if n >= 10 {
        decimal_is_digits(n / 10);
    }
}

/// Whether `c` is a decimal digit.
pub open spec fn is_digit(c: char) -> bool {
    '0' <= c <= '9'
}

/// Whether `s` holds decimal digits only.
pub open spec fn all_digits(s: Seq<char>) -> bool {
    forall|i: int| 0 <= i < s.len() ==> is_digit(#[trigger] s[i])
}

/// The number that a sequence of decimal digits writes.
pub open spec fn digits_value(s: Seq<char>) -> nat
    decreases s.len(),
{
    if s.len() == 0 {
        0
    } else {
        digits_value(s.drop_last()) * 10 + (s.last() as int - 48) as nat
    }
}

/// Reading a numeral gives back the number it was written for.
pub proof fn law_decimal_reads_back(n: nat)
    ensures
        digits_value(decimal(n)) == n,
        parsed_number(decimal(n)) == Some(n),
    decreases n,
{
    decimal_is_digits(n);
    if n >= 10 {
        law_decimal_reads_back(n / 10);
        assert(decimal(n).drop_last() == decimal(n / 10));
    } else {
        assert(decimal(n).drop_last() == Seq::<char>::empty());
        assert(digits_value(Seq::<char>::empty()) == 0);
    }
    assert(is_digit(decimal(n)[0]));
}

/// Different numbers have different numerals.
pub proof fn law_decimal_injective(m: nat, n: nat)
    requires
        decimal(m) == decimal(n),
    ensures
        m == n,
{
    law_decimal_reads_back(m);
    law_decimal_reads_back(n);
}

/// The number that `s` writes, where it is a numeral: decimal digits, at
/// least one, with one `+` allowed before them.
pub open spec fn parsed_number(s: Seq<char>) -> Option<nat> {
    let digits = if s.len() > 0 && s[0] == '+' {
        s.drop_first()
    } else {
        s
    };
    if digits.len() > 0 && all_digits(digits) {
        Some(digits_value(digits))
    } else {
        None
    }
}

proof fn digits_value_of_prefix(s: Seq<char>, i: int)
    requires
        0 <= i <= s.len(),
    ensures
        digits_value(s.take(i)) <= digits_value(s),
    decreases s.len() - i,
{
    if i < s.len() {
        digits_value_of_prefix(s, i + 1);
        assert(s.take(i + 1).drop_last() == s.take(i));
    } else {
        assert(s.take(i) == s);
    }
}

/// Reads a number in decimal; `None` where `s` is no numeral or the number
/// is too large for `usize`.
pub fn parse_number(s: &str) -> (r: Option<usize>)
    ensures
        match r {
            Some(n) => parsed_number(s@) == Some(n as nat),
            None => parsed_number(s@) is None || parsed_number(s@)->0 > usize::MAX,
        },
{
    let all = chars_of(s);
    let mut i: usize = 0;
    if all.len() > 0 && all[0] == '+' {
        i = 1;
    }
    let ghost from: int = i as int;
    let ghost body = s@.skip(from);
    proof {
        if from == 0 {
            assert(body == s@);
        } else {
            assert(body == s@.drop_first());
        }
    }
    if i == all.len() {
        return None;
    }
    let mut n: usize = 0;
    while i < all.len()
        invariant
            all@ == s@,
            from <= i <= all.len(),
            0 <= from <= 1,
            body == s@.skip(from),
            n == digits_value(body.take(i - from)),
            forall|k: int| 0 <= k < i - from ==> is_digit(#[trigger] body[k]),
            (from == 0 ==> body == s@ && !(s@.len() > 0 && s@[0] == '+')),
            (from == 1 ==> body == s@.drop_first() && s@.len() > 0 && s@[0] == '+'),
        decreases all.len() - i,
    {
        let c = all[i];
        assert(c == body[i - from]);
        if !('0' <= c && c <= '9') {
            assert(!is_digit(body[i - from]));
            return None;
        }
        let d: usize = (c as u32 - 48) as usize;
        proof {
            assert(body.take(i + 1 - from).drop_last() == body.take(i - from));
            digits_value_of_prefix(body, i + 1 - from);
        }
        if n > usize::MAX / 10 {
            return None;
        }
        if n * 10 > usize::MAX - d {
            return None;
        }
        n = n * 10 + d;
        i += 1;
    }
    assert(body.take(i - from) == body);
    Some(n)
}

/// `c` in lower case where it is an ASCII letter, else `c`.
pub open spec fn ascii_lower(c: char) -> char {
    if 'A' <= c <= 'Z' {
        (c as u32 + 32) as char
    } else {
        c
    }
}

/// `s` with its ASCII letters in lower case.
pub open spec fn ascii_lowered(s: Seq<char>) -> Seq<char> {
    s.map_values(|c: char| ascii_lower(c))
}

/// Puts the ASCII letters of `s` in lower case.
pub fn to_ascii_lower(s: &str) -> (r: String)
    ensures
        r@ == ascii_lowered(s@),
{
    let mut out = String::new();
    for c in it: s.chars()
        invariant
            out@ == ascii_lowered(it.seq().take(it.index() as int)),
            it.seq() == s@,
    {
        let ghost before = it.seq().take(it.index() as int);
        if 'A' <= c && c <= 'Z' {
            let b: u8 = c as u8;
            out.push((b + 32) as char);
        } else {
            out.push(c);
        }
        assert(it.seq().take(it.index() + 1) == before.push(c));
        assert(out@ == ascii_lowered(before.push(c)));
    }
    assert(s@.take(s@.len() as int) == s@);
    out
}

/// Whether two characters are the same but for the case of an ASCII letter.
pub open spec fn same_but_case(x: char, y: char) -> bool {
    &&& ascii_lower(x) == ascii_lower(y)
    &&& (x <= '\x7f' <==> y <= '\x7f')
    &&& (x > '\x7f' ==> x == y)
    &&& (white_space(x) <==> white_space(y))
}

/// Characters with the same lower case are the same but for the case of an
/// ASCII letter.
proof fn lower_case_decides(x: char, y: char)
    requires
        ascii_lower(x) == ascii_lower(y),
    ensures
        same_but_case(x, y),
{
    ascii_lower_keeps(x);
    ascii_lower_keeps(y);
}

proof fn ascii_lower_keeps(c: char)
    ensures
        ascii_lower(c) <= '\x7f' <==> c <= '\x7f',
        c > '\x7f' ==> ascii_lower(c) == c,
        white_space(ascii_lower(c)) <==> white_space(c),
{
}

/// Texts that differ only in the case of ASCII letters agree in length, in
/// their other characters, and in whether they are ASCII text.
pub proof fn ascii_case_variants(a: Seq<char>, b: Seq<char>)
    requires
        ascii_lowered(a) == ascii_lowered(b),
    ensures
        a.len() == b.len(),
        forall|i: int| 0 <= i < a.len() ==> #[trigger] same_but_case(a[i], b[i]),
        is_ascii_text(a) == is_ascii_text(b),
{
    assert(a.len() == ascii_lowered(a).len());
    assert(b.len() == ascii_lowered(b).len());
    assert forall|i: int| 0 <= i < a.len() implies #[trigger] same_but_case(a[i], b[i]) by {
        assert(ascii_lowered(a)[i] == ascii_lower(a[i]));
        assert(ascii_lowered(b)[i] == ascii_lower(b[i]));
        lower_case_decides(a[i], b[i]);
    }
    if is_ascii_text(a) {
        assert forall|i: int| 0 <= i < b.len() implies #[trigger] b[i] <= '\x7f' by {
            assert(same_but_case(a[i], b[i]));
        }
    }
    if is_ascii_text(b) {
        assert forall|i: int| 0 <= i < a.len() implies #[trigger] a[i] <= '\x7f' by {
            assert(same_but_case(a[i], b[i]));
        }
    }
}

/// Trimming keeps to the case of letters: texts that differ only in the case
/// of ASCII letters do so when trimmed.
pub proof fn law_trimmed_keeps_case(a: Seq<char>, b: Seq<char>)
    requires
        ascii_lowered(a) == ascii_lowered(b),
    ensures
        ascii_lowered(trimmed(a)) == ascii_lowered(trimmed(b)),
{
    start_keeps_case(a, b);
    end_keeps_case(trimmed_start(a), trimmed_start(b));
}

proof fn start_keeps_case(a: Seq<char>, b: Seq<char>)
    requires
        ascii_lowered(a) == ascii_lowered(b),
    ensures
        ascii_lowered(trimmed_start(a)) == ascii_lowered(trimmed_start(b)),
        white_before(a) == white_before(b),
    decreases a.len(),
{
    ascii_case_variants(a, b);
    trimmed_start_suffix(a);
    trimmed_start_suffix(b);
    if a.len() > 0 {
        assert(same_but_case(a[0], b[0]));
    }
    if a.len() > 0 && white_space(a[0]) {
        let (x, y) = (a.drop_first(), b.drop_first());
        assert(ascii_lowered(x) == ascii_lowered(a).drop_first());
        assert(ascii_lowered(y) == ascii_lowered(b).drop_first());
        start_keeps_case(x, y);
        trimmed_start_suffix(x);
        trimmed_start_suffix(y);
        assert(a[0] == b[0]);
        assert(white_before(a) == seq![a[0]] + white_before(x));
        assert(white_before(b) == seq![b[0]] + white_before(y));
    } else {
        assert(white_before(a) == Seq::<char>::empty());
        assert(white_before(b) == Seq::<char>::empty());
    }
}

proof fn end_keeps_case(a: Seq<char>, b: Seq<char>)
    requires
        ascii_lowered(a) == ascii_lowered(b),
    ensures
        ascii_lowered(trimmed_end(a)) == ascii_lowered(trimmed_end(b)),
        a.skip(trimmed_end(a).len() as int) == b.skip(trimmed_end(b).len() as int),
    decreases a.len(),
{
    ascii_case_variants(a, b);
    trimmed_end_prefix(a);
    trimmed_end_prefix(b);
    if a.len() > 0 {
        assert(same_but_case(a[a.len() - 1], b[b.len() - 1]));
    }
    if a.len() > 0 && white_space(a.last()) {
        let (x, y) = (a.drop_last(), b.drop_last());
        assert(ascii_lowered(x) == ascii_lowered(a).drop_last());
        assert(ascii_lowered(y) == ascii_lowered(b).drop_last());
        end_keeps_case(x, y);
        trimmed_end_prefix(x);
        trimmed_end_prefix(y);
        assert(a.last() == b.last());
        let n = trimmed_end(a).len() as int;
        let m = trimmed_end(b).len() as int;
        assert(a.skip(n) == x.skip(n).push(a.last()));
        assert(b.skip(m) == y.skip(m).push(b.last()));
    } else {
        assert(a.skip(a.len() as int) == b.skip(b.len() as int));
    }
}

/// Texts that differ only in the case of ASCII letters have the same lowercase
/// form.
pub proof fn law_lowered_ignores_ascii_case(a: Seq<char>, b: Seq<char>)
    requires
        ascii_lowered(a) == ascii_lowered(b),
    ensures
        lowered(a) == lowered(b),
{
    law_trimmed_keeps_case(a, b);
    start_keeps_case(a, b);
    end_keeps_case(trimmed_start(a), trimmed_start(b));
    ascii_case_variants(trimmed(a), trimmed(b));
}

/// The lowercase form of a text is that of its trimmed form with the white
/// space round it.
pub proof fn law_lowered_within(s: Seq<char>)
    ensures
        lowered(s) == white_before(s) + lowered(trimmed(s)) + white_after(s),
{
    law_trimmed_idempotent(s);
    let t = trimmed(s);
    law_trimmed_within(t);
    assert(white_before(t).len() + white_after(t).len() == 0);
    assert(white_before(t) == Seq::<char>::empty());
    assert(white_after(t) == Seq::<char>::empty());
    assert(lowered(t) == lowered_core(t));
}

/// The pieces of `s` between the occurrences of `sep`.
pub open spec fn split_on(s: Seq<char>, sep: char) -> Seq<Seq<char>>
    decreases s.len(),
{
    if s.len() == 0 {
        seq![Seq::empty()]
    } else {
        let pieces = split_on(s.drop_last(), sep);
        if s.last() == sep {
            pieces.push(Seq::empty())
        } else {
            pieces.drop_last().push(pieces.last().push(s.last()))
        }
    }
}

/// Splits `s` at each occurrence of `sep`.
pub fn split(s: &str, sep: char) -> (r: Vec<String>)
    ensures
        views(r@) == split_on(s@, sep),
        r@.len() >= 1,
{
    let mut done: Vec<String> = Vec::new();
    let mut piece = String::new();
    proof {
        assert(s@.take(0) == Seq::<char>::empty());
        assert(views(done@).push(piece@) == split_on(s@.take(0), sep));
    }
    for c in it: s.chars()
        invariant
            views(done@).push(piece@) == split_on(it.seq().take(it.index() as int), sep),
            it.seq() == s@,
    {
        let ghost before = it.seq().take(it.index() as int);
        let ghost pieces = views(done@);
        let ghost open_piece = piece@;
        assert(it.seq().take(it.index() + 1).drop_last() == before);
        assert(pieces.push(open_piece).drop_last() == pieces);
        if c == sep {
            done.push(piece);
            piece = String::new();
            assert(views(done@) == pieces.push(open_piece));
        } else {
            piece.push(c);
        }
    }
    assert(s@.take(s@.len() as int) == s@);
    let ghost pieces = views(done@);
    let ghost open_piece = piece@;
    done.push(piece);
    assert(views(done@) == pieces.push(open_piece));
    done
}

/// Text without the separator is one piece.
pub proof fn split_on_without(s: Seq<char>, sep: char)
    requires
        !s.contains(sep),
    ensures
        split_on(s, sep) == seq![s],
    decreases s.len(),
{
    if s.len() > 0 {
        assert(s[s.len() - 1] != sep);
        assert forall|c: char| s.drop_last().contains(c) implies s.contains(c) by {
            let i = choose|i: int| 0 <= i < s.drop_last().len() && s.drop_last()[i] == c;
            assert(s[i] == c);
        }
        split_on_without(s.drop_last(), sep);
        assert(s.drop_last().push(s.last()) == s);
        assert(split_on(s, sep) == seq![s]);
    } else {
        assert(s == Seq::<char>::empty());
    }
}

/// A piece without the separator, put behind a separator, is one piece more.
pub proof fn split_on_last_piece(head: Seq<char>, sep: char, tail: Seq<char>)
    requires
        !tail.contains(sep),
    ensures
        split_on(head.push(sep) + tail, sep) == split_on(head, sep).push(tail),
    decreases tail.len(),
{
    let whole = head.push(sep) + tail;
    if tail.len() == 0 {
        assert(whole == head.push(sep));
        assert(whole.drop_last() == head);
        assert(tail == Seq::<char>::empty());
    } else {
        assert(tail[tail.len() - 1] != sep);
        assert forall|c: char| tail.drop_last().contains(c) implies tail.contains(c) by {
            let i = choose|i: int| 0 <= i < tail.drop_last().len() && tail.drop_last()[i] == c;
            assert(tail[i] == c);
        }
        split_on_last_piece(head, sep, tail.drop_last());
        assert(whole.drop_last() == head.push(sep) + tail.drop_last());
        assert(tail.drop_last().push(tail.last()) == tail);
        assert(split_on(head, sep).push(tail.drop_last()).drop_last() == split_on(head, sep));
    }
}

/// Pieces written one behind the other with `sep` between them.
pub open spec fn joined(pieces: Seq<Seq<char>>, sep: char) -> Seq<char>
    decreases pieces.len(),
{
    if pieces.len() == 0 {
        Seq::empty()
    } else if pieces.len() == 1 {
        pieces[0]
    } else {
        joined(pieces.drop_last(), sep).push(sep) + pieces.last()
    }
}

/// The pieces that text is split into, joined again, are the text.
pub proof fn law_split_joins(s: Seq<char>, sep: char)
    ensures
        split_on(s, sep).len() >= 1,
        joined(split_on(s, sep), sep) == s,
    decreases s.len(),
{
    if s.len() > 0 {
        law_split_joins(s.drop_last(), sep);
        let pieces = split_on(s.drop_last(), sep);
        assert(s.drop_last().push(s.last()) == s);
        if s.last() == sep {
            assert(pieces.push(Seq::empty()).drop_last() == pieces);
            assert(joined(split_on(s, sep), sep) == s);
        } else {
            let grown = pieces.drop_last().push(pieces.last().push(s.last()));
            assert(grown.drop_last() == pieces.drop_last());
            assert(joined(grown, sep) == joined(pieces, sep).push(s.last()));
        }
    } else {
        assert(s == Seq::<char>::empty());
    }
}

/// Trimming takes away white space and nothing else: what stands before and
/// behind the trimmed text is white space.
pub proof fn law_trimmed_takes_white_space(s: Seq<char>)
    ensures
        s == white_before(s) + trimmed(s) + white_after(s),
        forall|i: int|
            0 <= i < white_before(s).len() ==> white_space(#[trigger] white_before(s)[i]),
        forall|i: int| 0 <= i < white_after(s).len() ==> white_space(#[trigger] white_after(s)[i]),
{
    law_trimmed_within(s);
    start_takes_white_space(s);
    end_takes_white_space(trimmed_start(s));
}

proof fn start_takes_white_space(s: Seq<char>)
    ensures
        forall|i: int|
            0 <= i < s.len() - trimmed_start(s).len() ==> white_space(#[trigger] s[i]),
    decreases s.len(),
{
    if s.len() > 0 && white_space(s[0]) {
        let rest = s.drop_first();
        start_takes_white_space(rest);
        assert forall|i: int| 0 <= i < s.len() - trimmed_start(s).len() implies white_space(
            #[trigger] s[i],
        ) by {
            if i > 0 {
                assert(s[i] == rest[i - 1]);
            }
        }
    }
}

proof fn end_takes_white_space(s: Seq<char>)
    ensures
        forall|i: int| trimmed_end(s).len() <= i < s.len() ==> white_space(#[trigger] s[i]),
    decreases s.len(),
{
    if s.len() > 0 && white_space(s.last()) {
        let rest = s.drop_last();
        end_takes_white_space(rest);
        assert forall|i: int| trimmed_end(s).len() <= i < s.len() implies white_space(
            #[trigger] s[i],
        ) by {
            if i < rest.len() {
                assert(s[i] == rest[i]);
            }
        }
    }
}

/// A numeral has no zero before its first other digit, and zero is one digit.
pub proof fn law_decimal_shortest(n: nat)
    ensures
        decimal(n).len() > 0,
        n > 0 ==> decimal(n)[0] != '0',
        decimal(0) == seq!['0'],
        all_digits(decimal(n)),
    decreases n,
{
    decimal_is_digits(n);
    if n >= 10 {
        law_decimal_shortest(n / 10);
        assert(decimal(n)[0] == decimal(n / 10)[0]);
    } else {
        assert(decimal(n)[0] == digit(n));
    }
}

/// One digit more, behind the others, makes ten times the number and the
/// digit.
pub proof fn law_digits_value_grows(s: Seq<char>, d: nat)
    requires
        d < 10,
    ensures
        digits_value(s.push(digit(d))) == 10 * digits_value(s) + d,
        digits_value(Seq::empty()) == 0,
{
    assert(s.push(digit(d)).drop_last() == s);
}

/// Digits are read as the number they write, with or without a `+` before
/// them; nothing else is read as a number.
pub proof fn law_numbers_read(s: Seq<char>, i: int)
    ensures
        s.len() > 0 && all_digits(s) ==> parsed_number(s) == Some(digits_value(s)),
        s.len() > 0 && all_digits(s) ==> parsed_number(seq!['+'] + s) == Some(digits_value(s)),
        s.len() == 0 ==> parsed_number(s) is None && parsed_number(seq!['+'] + s) is None,
        0 <= i < s.len() && !is_digit(s[i]) ==> parsed_number(seq!['+'] + s) is None,
        0 <= i < s.len() && !is_digit(s[i]) && !(i == 0 && s[0] == '+') ==> parsed_number(
            s,
        ) is None,
{
    assert((seq!['+'] + s).drop_first() == s);
    if s.len() > 0 && all_digits(s) {
        assert(is_digit(s[0]));
    }
    if 0 <= i < s.len() && !is_digit(s[i]) {
        assert(!all_digits(s));
        if i > 0 {
            assert(s.drop_first()[i - 1] == s[i]);
        }
    }
}

/// A character written `n` times over makes `n` characters, all alike.
pub proof fn law_repeated_character(c: char, n: nat)
    ensures
        repeated(seq![c], n) == Seq::new(n, |i: int| c),
    decreases n,
{
    if n > 0 {
        law_repeated_character(c, (n - 1) as nat);
        assert(repeated(seq![c], n) == Seq::new(n, |i: int| c));
    } else {
        assert(repeated(seq![c], n) == Seq::new(n, |i: int| c));
    }
}

/// Putting ASCII letters in lower case changes each capital letter, wherever
/// it stands, to the letter 32 code points on, and nothing else.
pub proof fn law_ascii_lowered_each(s: Seq<char>, i: int)
    requires
        0 <= i < s.len(),
    ensures
        ascii_lowered(s).len() == s.len(),
        'A' <= s[i] <= 'Z' ==> ascii_lowered(s)[i] as int == s[i] as int + 32,
        !('A' <= s[i] <= 'Z') ==> ascii_lowered(s)[i] == s[i],
{
}

/// Whether `part` stands in `s`, whole and side by side.
pub open spec fn holds(s: Seq<char>, part: Seq<char>) -> bool {
    exists|i: int|
        0 <= i <= s.len() - part.len() && #[trigger] s.subrange(i, i + part.len()) == part
}

/// A text holds what it was written round.
pub proof fn law_holds_between(a: Seq<char>, part: Seq<char>, b: Seq<char>)
    ensures
        holds(a + part + b, part),
        holds(a + part, part),
{
    let i = a.len() as int;
    assert((a + part + b).subrange(i, i + part.len()) == part);
    assert((a + part).subrange(i, i + part.len()) == part);
}

} // verus!
