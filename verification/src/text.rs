//! Text helpers: decimal and hexadecimal rendering, prefixes, trimming and lines.
//!
//! Every helper works on characters, in one pass over its argument.
use vstd::prelude::*;

verus! {

/// `std::string::String::push`: appends the given character to the end of the string.
pub assume_specification[ std::string::String::push ](s: &mut std::string::String, c: char)
    ensures
        final(s)@ == old(s)@.push(c),
;

/// The character that stands for the digit `d` (at most 15) in lower-case hexadecimal.
pub open spec fn digit_char(d: int) -> char {
    if d < 10 {
        (48 + d) as char
    } else {
        (87 + d) as char
    }
}

/// The decimal notation of `n`.
pub open spec fn decimal_text(n: nat) -> Seq<char>
    decreases n,
{
    if n < 10 {
        seq![digit_char(n as int)]
    } else {
        decimal_text(n / 10).push(digit_char((n % 10) as int))
    }
}

/// The lower-case hexadecimal notation of `bytes`, two characters for each byte.
pub open spec fn hex_text(bytes: Seq<u8>) -> Seq<char> {
    Seq::new(
        2 * bytes.len(),
        |i: int|
            if i % 2 == 0 {
                digit_char(bytes[i / 2] as int / 16)
            } else {
                digit_char(bytes[i / 2] as int % 16)
            },
    )
}

/// The characters with the Unicode property `White_Space`.
pub open spec fn is_white(c: char) -> bool {
    ||| 9 <= c as u32 <= 13
    ||| c as u32 == 0x20
    ||| c as u32 == 0x85
    ||| c as u32 == 0xA0
    ||| c as u32 == 0x1680
    ||| 0x2000 <= c as u32 <= 0x200A
    ||| c as u32 == 0x2028
    ||| c as u32 == 0x2029
    ||| c as u32 == 0x202F
    ||| c as u32 == 0x205F
    ||| c as u32 == 0x3000
}

/// `text` without the white space at its start.
pub open spec fn trim_start_text(text: Seq<char>) -> Seq<char>
    decreases text.len(),
{
    if text.len() > 0 && is_white(text.first()) {
        trim_start_text(text.drop_first())
    } else {
        text
    }
}

/// `text` without the white space at its end.
pub open spec fn trim_end_text(text: Seq<char>) -> Seq<char>
    decreases text.len(),
{
    if text.len() > 0 && is_white(text.last()) {
        trim_end_text(text.drop_last())
    } else {
        text
    }
}

/// `text` without the white space at its two ends.
pub open spec fn trim_text(text: Seq<char>) -> Seq<char> {
    trim_end_text(trim_start_text(text))
}

/// `text` without the slashes at its end.
pub open spec fn trim_slashes_text(text: Seq<char>) -> Seq<char>
    decreases text.len(),
{
    if text.len() > 0 && text.last() == '/' {
        trim_slashes_text(text.drop_last())
    } else {
        text
    }
}

/// `line` without one carriage return at its end.
pub open spec fn strip_return(line: Seq<char>) -> Seq<char> {
    if line.len() > 0 && line.last() == '\r' {
        line.drop_last()
    } else {
        line
    }
}

/// The number of characters of `text` before its first line feed, or all of them if
/// it has none.
pub open spec fn line_end(text: Seq<char>) -> nat
    decreases text.len(),
{
    if text.len() == 0 || text.first() == '\n' {
        0
    } else {
        1 + line_end(text.drop_first())
    }
}

/// The lines of `text`. A line ends with a line feed or with a carriage return and a
/// line feed, which are not part of it; the last line may lack that end.
pub open spec fn lines_of(text: Seq<char>) -> Seq<Seq<char>>
    decreases text.len(),
{
    let end = line_end(text) as int;
    if text.len() == 0 {
        Seq::empty()
    } else if end < text.len() {
        seq![strip_return(text.take(end))] + lines_of(text.skip(end + 1))
    } else {
        seq![text]
    }
}

/// The views of a list of strings.
pub open spec fn views(list: Seq<String>) -> Seq<Seq<char>> {
    list.map_values(|s: String| s@)
}

/// The view of an optional string.
pub open spec fn optional(s: Option<String>) -> Option<Seq<char>> {
    match s {
        Some(found) => Some(found@),
        None => None,
    }
}

/// The digit `d` in lower-case hexadecimal.
pub fn digit(d: u8) -> (c: char)
    requires
        d < 16,
    ensures
        c == digit_char(d as int),
{
    if d < 10 {
        (48 + d) as char
    } else {
        (87 + d) as char
    }
}

/// Appends the decimal notation of `n` to `out`.
pub fn push_decimal(out: &mut String, n: u64)
    ensures
        final(out)@ == old(out)@ + decimal_text(n as nat),
    decreases n,
{
    if n >= 10 {
        push_decimal(out, n / 10);
    }
    out.push(digit((n % 10) as u8));
    assert(out@ =~= old(out)@ + decimal_text(n as nat));
}

/// The decimal notation of `n`.
pub fn decimal(n: u64) -> (text: String)
    ensures
        text@ == decimal_text(n as nat),
{
    let mut out = String::new();
    push_decimal(&mut out, n);
    assert(out@ =~= decimal_text(n as nat));
    out
}

/// The lower-case hexadecimal notation of `bytes`.
pub fn hex(bytes: &[u8]) -> (text: String)
    ensures
        text@ == hex_text(bytes@),
{
    let mut out = String::new();
    let mut i: usize = 0;
    while i < bytes.len()
        invariant
            i <= bytes@.len(),
            out@ == hex_text(bytes@.take(i as int)),
        decreases bytes@.len() - i,
    {
        let b: u8 = bytes[i];
        out.push(digit(b / 16));
        out.push(digit(b % 16));
        i += 1;
        assert(out@ =~= hex_text(bytes@.take(i as int)));
    }
    assert(bytes@.take(i as int) =~= bytes@);
    out
}

/// The concatenation of two texts.
pub fn concat(left: &str, right: &str) -> (text: String)
    ensures
        text@ == left@ + right@,
{
    let mut out = left.to_string();
    out.append(right);
    out
}

/// The characters of `text`.
pub fn chars_of(text: &str) -> (list: Vec<char>)
    ensures
        list@ == text@,
{
    let mut list: Vec<char> = Vec::new();
    for c in it: text.chars()
        invariant
            it.seq() == text@,
            list@ == text@.take(it.index()),
    {
        list.push(c);
    }
    assert(text@.take(text@.len() as int) =~= text@);
    list
}

/// The text made of the characters of `list` from `from` up to `to`.
pub fn text_of(list: &Vec<char>, from: usize, to: usize) -> (text: String)
    requires
        from <= to <= list@.len(),
    ensures
        text@ == list@.subrange(from as int, to as int),
{
    let mut out = String::new();
    let mut i: usize = from;
    while i < to
        invariant
            from <= i <= to <= list@.len(),
            out@ == list@.subrange(from as int, i as int),
        decreases to - i,
    {
        out.push(list[i]);
        i += 1;
        assert(out@ =~= list@.subrange(from as int, i as int));
    }
    out
}

/// Whether `text` starts with `prefix`.
pub fn starts_with(text: &str, prefix: &str) -> (yes: bool)
    ensures
        yes == prefix@.is_prefix_of(text@),
{
    let t = chars_of(text);
    let p = chars_of(prefix);
    if p.len() > t.len() {
        return false;
    }
    let mut i: usize = 0;
    while i < p.len()
        invariant
            p@ == prefix@,
            t@ == text@,
            p@.len() <= t@.len(),
            i <= p@.len(),
            p@.take(i as int) == t@.take(i as int),
        decreases p@.len() - i,
    {
        if p[i] != t[i] {
            assert(text@.subrange(0, p@.len() as int)[i as int] != prefix@[i as int]);
            return false;
        }
        assert(p@.take(i + 1) =~= p@.take(i as int).push(p@[i as int]));
        assert(t@.take(i + 1) =~= t@.take(i as int).push(t@[i as int]));
        i += 1;
    }
    assert(p@.take(i as int) =~= p@);
    true
}

/// Whether two texts are the same.
pub fn same(left: &str, right: &str) -> (yes: bool)
    ensures
        yes == (left@ == right@),
{
    if left.unicode_len() != right.unicode_len() {
        return false;
    }
    let yes = starts_with(left, right);
    assert(left@.take(left@.len() as int) =~= left@);
    yes
}

/// What follows `prefix` in `text`, or `None` if `text` does not start with it.
pub fn strip_prefix(text: &str, prefix: &str) -> (rest: Option<String>)
    ensures
        rest is Some <==> prefix@.is_prefix_of(text@),
        rest matches Some(r) ==> r@ == text@.skip(prefix@.len() as int),
{
    if !starts_with(text, prefix) {
        return None;
    }
    let t = chars_of(text);
    let p = chars_of(prefix);
    let r = text_of(&t, p.len(), t.len());
    assert(r@ =~= text@.skip(prefix@.len() as int));
    Some(r)
}

/// Whether `c` is white space.
pub fn is_whitespace(c: char) -> (yes: bool)
    ensures
        yes == is_white(c),
{
    let n: u32 = c as u32;
    (9 <= n && n <= 13) || n == 0x20 || n == 0x85 || n == 0xA0 || n == 0x1680 || (0x2000 <= n
        && n <= 0x200A) || n == 0x2028 || n == 0x2029 || n == 0x202F || n == 0x205F || n == 0x3000
}

/// `text` without the white space at its two ends.
pub fn trim(text: &str) -> (trimmed: String)
    ensures
        trimmed@ == trim_text(text@),
{
    let list = chars_of(text);
    let mut from: usize = 0;
    assert(text@.skip(0) =~= text@);
    while from < list.len() && is_whitespace(list[from])
        invariant
            list@ == text@,
            from <= list@.len(),
            trim_start_text(text@) == trim_start_text(text@.skip(from as int)),
        decreases list@.len() - from,
    {
        assert(text@.skip(from as int).drop_first() =~= text@.skip(from + 1));
        from += 1;
    }
    let ghost body = text@.skip(from as int);
    assert(trim_start_text(text@) == body);
    let mut to: usize = list.len();
    assert(body.take((to - from) as int) =~= body);
    while to > from && is_whitespace(list[to - 1])
        invariant
            list@ == text@,
            from <= to <= list@.len(),
            body == text@.skip(from as int),
            trim_end_text(body) == trim_end_text(body.take((to - from) as int)),
        decreases to,
    {
        assert(body.take((to - from) as int).drop_last() =~= body.take((to - 1 - from) as int));
        to -= 1;
    }
    assert(body.take((to - from) as int) =~= text@.subrange(from as int, to as int));
    text_of(&list, from, to)
}

/// `text` without the slashes at its end.
pub fn trim_end_slashes(text: &str) -> (trimmed: String)
    ensures
        trimmed@ == trim_slashes_text(text@),
{
    let list = chars_of(text);
    let mut to: usize = list.len();
    assert(text@.take(to as int) =~= text@);
    while to > 0 && list[to - 1] == '/'
        invariant
            list@ == text@,
            to <= list@.len(),
            trim_slashes_text(text@) == trim_slashes_text(text@.take(to as int)),
        decreases to,
    {
        assert(text@.take(to as int).drop_last() =~= text@.take(to - 1));
        to -= 1;
    }
    assert(text@.take(to as int) =~= text@.subrange(0, to as int));
    text_of(&list, 0, to)
}

/// Different bytes have different hexadecimal notations.
pub proof fn lemma_hex_injective(a: Seq<u8>, b: Seq<u8>)
    requires
        hex_text(a) == hex_text(b),
    ensures
        a == b,
{
    assert(hex_text(a).len() == 2 * a.len() && hex_text(b).len() == 2 * b.len());
    assert forall|i: int| 0 <= i < a.len() implies a[i] == b[i] by {
        assert(hex_text(a)[2 * i] == digit_char(a[i] as int / 16));
        assert(hex_text(b)[2 * i] == digit_char(b[i] as int / 16));
        assert(hex_text(a)[2 * i + 1] == digit_char(a[i] as int % 16));
        assert(hex_text(b)[2 * i + 1] == digit_char(b[i] as int % 16));
    }
    assert(a =~= b);
}

/// Where the first line feed stands.
proof fn lemma_line_end(text: Seq<char>)
    ensures
        line_end(text) <= text.len(),
        line_end(text) < text.len() ==> text[line_end(text) as int] == '\n',
        forall|i: int| 0 <= i < line_end(text) ==> text[i] != '\n',
    decreases text.len(),
{
    if text.len() > 0 && text.first() != '\n' {
        lemma_line_end(text.drop_first());
        assert forall|i: int| 0 <= i < line_end(text) implies text[i] != '\n' by {
            if i > 0 {
                assert(text.drop_first()[i - 1] == text[i]);
            }
        }
    }
}

/// The first line feed stands at `at`, if none stands before it.
proof fn lemma_line_end_at(text: Seq<char>, at: int)
    requires
        0 <= at <= text.len(),
        at < text.len() ==> text[at] == '\n',
        forall|i: int| 0 <= i < at ==> text[i] != '\n',
    ensures
        line_end(text) == at,
{
    lemma_line_end(text);
    let end = line_end(text) as int;
    if end < at {
        assert(text[end] != '\n');
    }
}

/// The lines of `text`.
pub fn lines(text: &str) -> (list: Vec<String>)
    ensures
        views(list@) == lines_of(text@),
{
    let t = chars_of(text);
    let mut list: Vec<String> = Vec::new();
    let mut from: usize = 0;
    let mut i: usize = 0;
    assert(text@.skip(0) =~= text@);
    assert(views(list@) + lines_of(text@) =~= lines_of(text@));
    while i < t.len()
        invariant
            t@ == text@,
            from <= i <= t@.len(),
            forall|k: int| from <= k < i ==> text@[k] != '\n',
            views(list@) + lines_of(text@.skip(from as int)) == lines_of(text@),
        decreases t@.len() - i,
    {
        if t[i] == '\n' {
            let ghost rest = text@.skip(from as int);
            let ghost before = views(list@);
            proof {
                lemma_line_end_at(rest, i - from);
            }
            let to: usize = if i > from && t[i - 1] == '\r' {
                i - 1
            } else {
                i
            };
            let line = text_of(&t, from, to);
            assert(rest.take(i - from) =~= text@.subrange(from as int, i as int));
            assert(line@ =~= strip_return(rest.take(i - from)));
            assert(rest.skip(i - from + 1) =~= text@.skip(i + 1));
            list.push(line);
            assert(views(list@) =~= before.push(line@));
            assert(before + (seq![line@] + lines_of(text@.skip(i + 1))) =~= views(list@)
                + lines_of(text@.skip(i + 1)));
            from = i + 1;
        }
        i += 1;
    }
    if from < t.len() {
        let ghost rest = text@.skip(from as int);
        let ghost before = views(list@);
        proof {
            lemma_line_end_at(rest, rest.len() as int);
        }
        let line = text_of(&t, from, t.len());
        assert(line@ =~= rest);
        list.push(line);
        assert(views(list@) =~= before + seq![rest]);
    } else {
        assert(text@.skip(from as int) =~= Seq::empty());
        assert(views(list@) =~= lines_of(text@));
    }
    list
}

/// The number that decimal digits stand for.
pub open spec fn decimal_value(digits: Seq<char>) -> int
    decreases digits.len(),
{
    if digits.len() == 0 {
        0
    } else {
        10 * decimal_value(digits.drop_last()) + (digits.last() as int - '0' as int)
    }
}

/// The decimal notation of a number consists of digits, reads back as the number, and has
/// no zero in front.
pub proof fn law_decimal_notation_reads_back(n: nat)
    ensures
        decimal_value(decimal_text(n)) == n,
        decimal_text(n).len() > 0,
        forall|i: int|
            0 <= i < decimal_text(n).len() ==> '0' <= #[trigger] decimal_text(n)[i] <= '9',
        n > 0 ==> decimal_text(n)[0] != '0',
    decreases n,
{
    if n < 10 {
        assert(decimal_text(n).drop_last() =~= Seq::empty());
        assert(decimal_value(Seq::<char>::empty()) == 0);
    } else {
        law_decimal_notation_reads_back(n / 10);
        let head = decimal_text(n / 10);
        let d = digit_char((n % 10) as int);
        assert(decimal_text(n) == head.push(d));
        assert(head.push(d).drop_last() =~= head);
        assert(head.push(d)[0] == head[0]);
        assert forall|i: int| 0 <= i < decimal_text(n).len() implies '0' <= #[trigger] decimal_text(
            n,
        )[i] <= '9' by {
            if i < head.len() {
                assert(decimal_text(n)[i] == head[i]);
            }
        }
    }
}

/// The number that a hexadecimal digit stands for.
pub open spec fn hex_value(c: char) -> int {
    if '0' <= c <= '9' {
        c as int - '0' as int
    } else {
        10 + (c as int - 'a' as int)
    }
}

/// The hexadecimal notation has two lower-case digits for each byte, in order, which read
/// back as the byte.
pub proof fn law_hexadecimal_notation_reads_back(bytes: Seq<u8>)
    ensures
        hex_text(bytes).len() == 2 * bytes.len(),
        forall|i: int|
            0 <= i < bytes.len() ==> {
                let high = hex_text(bytes)[2 * i];
                let low = hex_text(bytes)[2 * i + 1];
                &&& ('0' <= high <= '9' || 'a' <= high <= 'f')
                &&& ('0' <= low <= '9' || 'a' <= low <= 'f')
                &&& 16 * hex_value(high) + hex_value(low) == #[trigger] bytes[i]
            },
{
    assert forall|i: int| 0 <= i < bytes.len() implies {
        let high = hex_text(bytes)[2 * i];
        let low = hex_text(bytes)[2 * i + 1];
        &&& ('0' <= high <= '9' || 'a' <= high <= 'f')
        &&& ('0' <= low <= '9' || 'a' <= low <= 'f')
        &&& 16 * hex_value(high) + hex_value(low) == #[trigger] bytes[i]
    } by {
        assert(hex_text(bytes)[2 * i] == digit_char(bytes[i] as int / 16));
        assert(hex_text(bytes)[2 * i + 1] == digit_char(bytes[i] as int % 16));
    }
}

/// Of the ASCII characters exactly the space and the control characters from tab to carriage
/// return are white.
pub proof fn law_ascii_white_space(c: char)
    requires
        (c as u32) < 128,
    ensures
        is_white(c) <==> c == ' ' || c == '\t' || c == '\n' || c as u32 == 11 || c as u32 == 12
            || c == '\r',
{
}

proof fn lemma_trim_start(text: Seq<char>)
    ensures
        trim_start_text(text).len() <= text.len(),
        trim_start_text(text) == text.skip(text.len() - trim_start_text(text).len()),
        forall|i: int|
            0 <= i < text.len() - trim_start_text(text).len() ==> is_white(#[trigger] text[i]),
        trim_start_text(text).len() > 0 ==> !is_white(trim_start_text(text)[0]),
    decreases text.len(),
{
    if text.len() > 0 && is_white(text.first()) {
        let rest = text.drop_first();
        lemma_trim_start(rest);
        let k = text.len() - trim_start_text(text).len();
        assert(rest.skip(k - 1) =~= text.skip(k));
        assert forall|i: int| 0 <= i < k implies is_white(#[trigger] text[i]) by {
            if i > 0 {
                assert(rest[i - 1] == text[i]);
            }
        }
    } else {
        assert(text.skip(0) =~= text);
    }
}

proof fn lemma_trim_end(text: Seq<char>)
    ensures
        trim_end_text(text).len() <= text.len(),
        trim_end_text(text) == text.take(trim_end_text(text).len() as int),
        forall|i: int|
            trim_end_text(text).len() <= i < text.len() ==> is_white(#[trigger] text[i]),
        trim_end_text(text).len() > 0 ==> !is_white(trim_end_text(text).last()),
    decreases text.len(),
{
    if text.len() > 0 && is_white(text.last()) {
        let rest = text.drop_last();
        lemma_trim_end(rest);
        let k = trim_end_text(text).len() as int;
        assert(rest.take(k) =~= text.take(k));
        assert forall|i: int| k <= i < text.len() implies is_white(#[trigger] text[i]) by {
            if i < text.len() - 1 {
                assert(rest[i] == text[i]);
            }
        }
    } else {
        assert(text.take(text.len() as int) =~= text);
    }
}

/// Trimming takes off white space at both ends and nothing else: white space around a text
/// that neither begins nor ends with any leaves that text.
pub proof fn law_trimming_takes_off_white_space_only(
    before: Seq<char>,
    core: Seq<char>,
    after: Seq<char>,
)
    requires
        forall|i: int| 0 <= i < before.len() ==> is_white(#[trigger] before[i]),
        forall|i: int| 0 <= i < after.len() ==> is_white(#[trigger] after[i]),
        core.len() > 0 ==> !is_white(core[0]) && !is_white(core.last()),
    ensures
        trim_text(before + core + after) == core,
{
    let all = before + core + after;
    lemma_trim_start(all);
    let start = trim_start_text(all);
    let k = all.len() - start.len();
    lemma_trim_end(start);
    let end = trim_end_text(start);
    if core.len() == 0 {
        assert forall|i: int| 0 <= i < all.len() implies is_white(#[trigger] all[i]) by {
            if i < before.len() {
                assert(all[i] == before[i]);
            } else {
                assert(all[i] == after[i - before.len()]);
            }
        }
        if start.len() > 0 {
            assert(start[0] == all[k as int]);
        }
        assert(end =~= core);
    } else {
        assert(all[before.len() as int] == core[0]);
        if k > before.len() {
            assert(is_white(all[before.len() as int]));
        }
        if k < before.len() {
            assert(start[0] == all[k as int] && all[k as int] == before[k as int]);
        }
        assert(start =~= core + after);
        assert(start[core.len() - 1] == core.last());
        if end.len() < core.len() {
            assert(is_white(start[core.len() - 1]));
        }
        if end.len() > core.len() {
            assert(end.last() == start[end.len() - 1]);
            assert(start[end.len() - 1] == after[end.len() - 1 - core.len()]);
        }
        assert(end =~= core);
    }
}

/// All slashes at the end are taken off, and nothing else.
pub proof fn law_slashes_at_the_end_are_taken_off(base: Seq<char>, slashes: Seq<char>)
    requires
        base.len() > 0 ==> base.last() != '/',
        forall|i: int| 0 <= i < slashes.len() ==> #[trigger] slashes[i] == '/',
    ensures
        trim_slashes_text(base + slashes) == base,
    decreases slashes.len(),
{
    let all = base + slashes;
    if slashes.len() > 0 {
        assert(all.last() == slashes[slashes.len() - 1]);
        assert(all.drop_last() =~= base + slashes.drop_last());
        law_slashes_at_the_end_are_taken_off(base, slashes.drop_last());
    } else {
        assert(all =~= base);
    }
}

/// A line ends with a line feed, or with a carriage return and a line feed, which do not
/// belong to it; the last line may lack that end.
pub proof fn law_lines_end_with_line_feeds(line: Seq<char>, rest: Seq<char>)
    requires
        forall|i: int| 0 <= i < line.len() ==> #[trigger] line[i] != '\n',
    ensures
        line.len() == 0 || line.last() != '\r' ==> lines_of(line + seq!['\n'] + rest) == seq![line]
            + lines_of(rest),
        lines_of(line + seq!['\r', '\n'] + rest) == seq![line] + lines_of(rest),
        line.len() > 0 ==> lines_of(line) == seq![line],
        lines_of(Seq::<char>::empty()) == Seq::<Seq<char>>::empty(),
{
    let a = line + seq!['\n'] + rest;
    assert forall|i: int| 0 <= i < line.len() implies a[i] != '\n' by {
        assert(a[i] == line[i]);
    }
    lemma_line_end_at(a, line.len() as int);
    assert(a.take(line.len() as int) =~= line);
    assert(a.skip(line.len() as int + 1) =~= rest);
    let b = line + seq!['\r', '\n'] + rest;
    assert forall|i: int| 0 <= i < line.len() + 1 implies b[i] != '\n' by {
        if i < line.len() {
            assert(b[i] == line[i]);
        }
    }
    lemma_line_end_at(b, line.len() as int + 1);
    assert(b.take(line.len() as int + 1) =~= line.push('\r'));
    assert(line.push('\r').drop_last() =~= line);
    assert(b.skip(line.len() as int + 2) =~= rest);
    lemma_line_end_at(line, line.len() as int);
}

/// A list of strings is viewed string by string, and an optional string as what it holds.
pub proof fn law_strings_are_viewed_one_by_one(list: Seq<String>, i: int, one: Option<String>)
    ensures
        views(list).len() == list.len(),
        0 <= i < list.len() ==> views(list)[i] == list[i]@,
        optional(one) is Some <==> one is Some,
        one is Some ==> optional(one)->0 == one->0@,
{
}

} // verus!
