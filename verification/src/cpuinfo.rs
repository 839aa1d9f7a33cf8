//! The processor's model name, read out of the text of `/proc/cpuinfo`.

use crate::text::chars_of;
use vstd::prelude::*;

verus! {

/// The position of the first `c` in `s` from position `i` on, or the end of `s`.
pub open spec fn next_at(s: Seq<char>, c: char, i: int) -> int
    decreases s.len() - i,
{
    if i >= s.len() {
        s.len() as int
    } else if s[i] == c {
        i
    } else {
        next_at(s, c, i + 1)
    }
}

/// The position found lies at or behind the one where the search began.
pub proof fn lemma_next_at(s: Seq<char>, c: char, i: int)
    requires
        0 <= i <= s.len(),
    ensures
        i <= next_at(s, c, i) <= s.len(),
    decreases s.len() - i,
{
    if i < s.len() && s[i] != c {
        lemma_next_at(s, c, i + 1);
    }
}

/// `word` stands in `s` at position `i`.
pub open spec fn stands_at(s: Seq<char>, word: Seq<char>, i: int) -> bool {
    i + word.len() <= s.len() && s.subrange(i, i + word.len()) == word
}

/// The first line of `s`, from the line that starts at position `i` on, that
/// starts with `model name`.
pub open spec fn model_line(s: Seq<char>, i: int) -> Option<Seq<char>>
    decreases s.len() - i,
{
    if i < 0 || i >= s.len() {
        None
    } else {
        let end = next_at(s, '\n', i);
        if stands_at(s, "model name"@, i) {
            Some(s.subrange(i, end))
        } else if end >= s.len() {
            None
        } else {
            proof {
                lemma_next_at(s, '\n', i);
            }
            model_line(s, end + 1)
        }
    }
}

/// The second of the fields that colons separate, or nothing where there is no colon.
pub open spec fn second_field(line: Seq<char>) -> Seq<char> {
    let colon = next_at(line, ':', 0);
    if colon >= line.len() {
        Seq::empty()
    } else {
        line.subrange(colon + 1, next_at(line, ':', colon + 1))
    }
}

/// The characters with the Unicode property `White_Space`.
pub open spec fn white_space(c: char) -> bool {
    let v = c as u32;
    ||| 0x9 <= v <= 0xd
    ||| v == 0x20
    ||| v == 0x85
    ||| v == 0xa0
    ||| v == 0x1680
    ||| 0x2000 <= v <= 0x200a
    ||| v == 0x2028
    ||| v == 0x2029
    ||| v == 0x202f
    ||| v == 0x205f
    ||| v == 0x3000
}

/// Tells whether a character has the Unicode property `White_Space`.
pub fn is_white_space(c: char) -> (r: bool)
    ensures
        r == white_space(c),
{
    let v: u32 = c as u32;
    (0x9 <= v && v <= 0xd) || v == 0x20 || v == 0x85 || v == 0xa0 || v == 0x1680 || (0x2000 <= v
        && v <= 0x200a) || v == 0x2028 || v == 0x2029 || v == 0x202f || v == 0x205f || v == 0x3000
}

/// `s` without white space at its start.
pub open spec fn trim_start(s: Seq<char>) -> Seq<char>
    decreases s.len(),
{
    if s.len() > 0 && white_space(s[0]) {
        trim_start(s.drop_first())
    } else {
        s
    }
}

/// `s` without white space at its end.
pub open spec fn trim_end(s: Seq<char>) -> Seq<char>
    decreases s.len(),
{
    if s.len() > 0 && white_space(s.last()) {
        trim_end(s.drop_last())
    } else {
        s
    }
}

/// `s` without white space at either end.
pub open spec fn trimmed(s: Seq<char>) -> Seq<char> {
    trim_end(trim_start(s))
}

/// The model name that a `/proc/cpuinfo` text gives: what stands between the
/// first and the second colon of its first `model name` line, or `unknown`
/// without a text or without such a line. A carriage return before the line's end
/// is white space and does not show.
pub open spec fn cpu_model_of(text: Option<Seq<char>>) -> Seq<char> {
    match text {
        Some(s) => match model_line(s, 0) {
            Some(line) => trimmed(second_field(line)),
            None => "unknown"@,
        },
        None => "unknown"@,
    }
}

fn find(chars: &Vec<char>, c: char, from: usize, to: usize) -> (r: usize)
    requires
        from <= to <= chars@.len(),
    ensures
        from <= r <= to,
        forall|i: int|
            0 <= i <= from ==> #[trigger] next_at(chars@.subrange(i, to as int), c, from - i) == r
                - i,
{
    let mut at: usize = from;
    while at < to && chars[at] != c
        invariant
            from <= at <= to <= chars@.len(),
            forall|i: int|
                0 <= i <= from ==> #[trigger] next_at(chars@.subrange(i, to as int), c, from - i)
                    == next_at(chars@.subrange(i, to as int), c, at - i),
        decreases to - at,
    {
        assert forall|i: int| 0 <= i <= from implies #[trigger] next_at(
            chars@.subrange(i, to as int),
            c,
            from - i,
        ) == next_at(chars@.subrange(i, to as int), c, at + 1 - i) by {
            assert(chars@.subrange(i, to as int)[at - i] == chars@[at as int]);
        }
        at = at + 1;
    }
    assert forall|i: int| 0 <= i <= from implies #[trigger] next_at(
        chars@.subrange(i, to as int),
        c,
        from - i,
    ) == at - i by {
        if at < to {
            assert(chars@.subrange(i, to as int)[at - i] == chars@[at as int]);
        }
    }
    at
}

fn word_at(chars: &Vec<char>, word: &Vec<char>, i: usize) -> (r: bool)
    requires
        i <= chars@.len(),
    ensures
        r == stands_at(chars@, word@, i as int),
{
    if word.len() > chars.len() - i {
        return false;
    }
    let mut k: usize = 0;
    while k < word.len()
        invariant
            i + word.len() <= chars.len(),
            k <= word@.len(),
            forall|a: int| 0 <= a < k ==> chars@[i + a] == #[trigger] word@[a],
        decreases word@.len() - k,
    {
        if chars[i + k] != word[k] {
            assert(chars@.subrange(i as int, i + word@.len())[k as int] != word@[k as int]);
            return false;
        }
        k = k + 1;
    }
    assert(chars@.subrange(i as int, i + word@.len()) =~= word@);
    true
}

fn model_in(text: &str) -> (r: String)
    ensures
        r@ == cpu_model_of(Some(text@)),
{
    let chars: Vec<char> = chars_of(text);
    let word: Vec<char> = chars_of("model name");
    let mut i: usize = 0;
    let mut found: bool = false;
    while i < chars.len() && !found
        invariant
            i <= chars@.len(),
            chars@ == text@,
            word@ == "model name"@,
            model_line(text@, 0) == model_line(text@, i as int),
            found ==> i < chars@.len() && stands_at(text@, word@, i as int),
        decreases
            chars@.len() - i + (if found {
                0int
            } else {
                1
            }),
    {
        if word_at(&chars, &word, i) {
            found = true;
        } else {
            let end: usize = find(&chars, '\n', i, chars.len());
            assert(chars@.subrange(0, chars@.len() as int) =~= chars@);
            assert(next_at(chars@.subrange(0, chars@.len() as int), '\n', i - 0) == end - 0);
            if end == chars.len() {
                i = end;
            } else {
                i = end + 1;
            }
        }
    }
    if !found {
        return "unknown".to_owned();
    }
    let end: usize = find(&chars, '\n', i, chars.len());
    let ghost line = text@.subrange(i as int, end as int);
    proof {
        assert(chars@.subrange(0, chars@.len() as int) =~= chars@);
        assert(next_at(chars@.subrange(0, chars@.len() as int), '\n', i - 0) == end - 0);
        assert(model_line(text@, 0) == Some(line));
    }
    let colon: usize = find(&chars, ':', i, end);
    assert(next_at(chars@.subrange(i as int, end as int), ':', i - i) == colon - i);
    if colon == end {
        assert(trimmed(Seq::<char>::empty()) =~= Seq::empty());
        return String::new();
    }
    let mut a: usize = colon + 1;
    let mut b: usize = find(&chars, ':', colon + 1, end);
    assert(next_at(chars@.subrange(i as int, end as int), ':', colon + 1 - i) == b - i);
    let ghost field = second_field(line);
    assert(field =~= chars@.subrange(a as int, b as int));
    while a < b && is_white_space(chars[a])
        invariant
            a <= b <= chars@.len(),
            trim_start(field) == trim_start(chars@.subrange(a as int, b as int)),
        decreases b - a,
    {
        assert(chars@.subrange(a as int, b as int).drop_first() =~= chars@.subrange(
            a + 1,
            b as int,
        ));
        a = a + 1;
    }
    let ghost rest = trim_start(field);
    assert(rest == chars@.subrange(a as int, b as int));
    while a < b && is_white_space(chars[b - 1])
        invariant
            a <= b <= chars@.len(),
            trim_end(rest) == trim_end(chars@.subrange(a as int, b as int)),
        decreases b - a,
    {
        assert(chars@.subrange(a as int, b as int).drop_last() =~= chars@.subrange(
            a as int,
            b - 1,
        ));
        b = b - 1;
    }
    text.substring_char(a, b).to_owned()
}

/// The processor's model name, given the text of `/proc/cpuinfo` where it could be read.
pub fn cpu_model(cpuinfo: Option<&str>) -> (r: String)
    ensures
        r@ == cpu_model_of(
            match cpuinfo {
                Some(text) => Some(text@),
                None => None,
            },
        ),
        cpuinfo is None ==> r@ == "unknown"@,
{
    match cpuinfo {
        Some(text) => model_in(text),
        None => "unknown".to_owned(),
    }
}

/// The search ends at the first place that fits.
proof fn lemma_next_is(s: Seq<char>, c: char, i: int, p: int)
    requires
        0 <= i <= p <= s.len(),
        forall|j: int| i <= j < p ==> #[trigger] s[j] != c,
        p == s.len() || s[p] == c,
    ensures
        next_at(s, c, i) == p,
    decreases p - i,
{
    if i < p {
        lemma_next_is(s, c, i + 1, p);
    }
}

/// What the search passes over does not fit, and what it ends at does.
proof fn lemma_next_fits(s: Seq<char>, c: char, i: int)
    requires
        0 <= i <= s.len(),
    ensures
        i <= next_at(s, c, i) <= s.len(),
        forall|j: int| i <= j < next_at(s, c, i) ==> #[trigger] s[j] != c,
        next_at(s, c, i) < s.len() ==> s[next_at(s, c, i)] == c,
    decreases s.len() - i,
{
    if i < s.len() && s[i] != c {
        lemma_next_fits(s, c, i + 1);
    }
}

proof fn lemma_model_line_is(s: Seq<char>, i: int, start: int, end: int)
    requires
        0 <= i <= start,
        i == 0 || s[i - 1] == '\n',
        start == 0 || s[start - 1] == '\n',
        start + 10 <= s.len(),
        s.subrange(start, start + 10) == "model name"@,
        forall|j: int|
            i <= j < start && j + 10 <= s.len() && (j == 0 || s[j - 1] == '\n') ==> (
            #[trigger] s.subrange(j, j + 10)) != "model name"@,
        start <= end <= s.len(),
        end == s.len() || s[end] == '\n',
        forall|j: int| start <= j < end ==> #[trigger] s[j] != '\n',
    ensures
        model_line(s, i) == Some(s.subrange(start, end)),
    decreases start - i,
{
    reveal_strlit("model name");
    if i == start {
        lemma_next_is(s, '\n', i, end);
    } else {
        lemma_next_fits(s, '\n', i);
        let e = next_at(s, '\n', i);
        assert(s[start - 1] == '\n');
        assert(e < start);
        lemma_model_line_is(s, e + 1, start, end);
    }
}

proof fn lemma_no_model_line(s: Seq<char>, i: int)
    requires
        0 <= i <= s.len(),
        i == 0 || s[i - 1] == '\n',
        forall|j: int|
            i <= j && j + 10 <= s.len() && (j == 0 || s[j - 1] == '\n') ==> (#[trigger] s.subrange(
                j,
                j + 10,
            )) != "model name"@,
    ensures
        model_line(s, i) is None,
    decreases s.len() - i,
{
    reveal_strlit("model name");
    if i < s.len() {
        lemma_next_fits(s, '\n', i);
        let e = next_at(s, '\n', i);
        if e < s.len() {
            lemma_no_model_line(s, e + 1);
        }
    }
}

proof fn lemma_trim_start_is(s: Seq<char>, n: int)
    requires
        0 <= n <= s.len(),
        forall|j: int| 0 <= j < n ==> white_space(#[trigger] s[j]),
        n == s.len() || !white_space(s[n]),
    ensures
        trim_start(s) == s.skip(n),
    decreases n,
{
    if n == 0 {
        assert(s.skip(0) =~= s);
    } else {
        let rest = s.drop_first();
        assert forall|j: int| 0 <= j < n - 1 implies white_space(#[trigger] rest[j]) by {
            assert(rest[j] == s[j + 1]);
        }
        lemma_trim_start_is(rest, n - 1);
        assert(rest.skip(n - 1) =~= s.skip(n));
    }
}

proof fn lemma_trim_end_is(s: Seq<char>, n: int)
    requires
        0 <= n <= s.len(),
        forall|j: int| n <= j < s.len() ==> white_space(#[trigger] s[j]),
        n == 0 || !white_space(s[n - 1]),
    ensures
        trim_end(s) == s.take(n),
    decreases s.len() - n,
{
    if n == s.len() {
        assert(s.take(n) =~= s);
    } else {
        lemma_trim_end_is(s.drop_last(), n);
        assert(s.drop_last().take(n) =~= s.take(n));
    }
}

/// The model name is found wherever the text holds one. Take the first line that begins
/// with `model name`, from `start` to `end`; in it the first colon, at `colon`, and where
/// the field behind that ends, at the next colon or with the line, at `field_end`. Of
/// this field, all but the white space at both ends, from `a` to `b`, is the name.
pub proof fn lemma_model_is_read_out(
    text: Seq<char>,
    start: int,
    colon: int,
    a: int,
    b: int,
    field_end: int,
    end: int,
)
    requires
        0 <= start <= colon < a <= b <= field_end <= end <= text.len(),
        start == 0 || text[start - 1] == '\n',
        start + 10 <= text.len(),
        text.subrange(start, start + 10) == "model name"@,
        forall|j: int|
            0 <= j < start && j + 10 <= text.len() && (j == 0 || text[j - 1] == '\n') ==> (
            #[trigger] text.subrange(j, j + 10)) != "model name"@,
        end == text.len() || text[end] == '\n',
        forall|j: int| start <= j < end ==> #[trigger] text[j] != '\n',
        text[colon] == ':',
        forall|j: int| start <= j < colon ==> #[trigger] text[j] != ':',
        field_end == end || text[field_end] == ':',
        forall|j: int| colon < j < field_end ==> #[trigger] text[j] != ':',
        forall|j: int| colon < j < a ==> white_space(#[trigger] text[j]),
        forall|j: int| b <= j < field_end ==> white_space(#[trigger] text[j]),
        a < b ==> !white_space(text[a]) && !white_space(text[b - 1]),
    ensures
        cpu_model_of(Some(text)) == text.subrange(a, b),
{
    lemma_model_line_is(text, 0, start, end);
    let line = text.subrange(start, end);
    lemma_next_is(line, ':', 0, colon - start);
    lemma_next_is(line, ':', colon + 1 - start, field_end - start);
    let field = text.subrange(colon + 1, field_end);
    assert(second_field(line) =~= field);
    if a < b {
        lemma_trim_start_is(field, a - colon - 1);
        let rest = field.skip(a - colon - 1);
        lemma_trim_end_is(rest, b - a);
        assert(rest.take(b - a) =~= text.subrange(a, b));
    } else {
        lemma_trim_start_is(field, field.len() as int);
        assert(field.skip(field.len() as int) =~= text.subrange(a, b));
    }
}

/// Where the first line that begins with `model name` holds no colon, the model name is
/// empty.
pub proof fn lemma_model_without_a_colon(text: Seq<char>, start: int, end: int)
    requires
        0 <= start <= end <= text.len(),
        start == 0 || text[start - 1] == '\n',
        start + 10 <= text.len(),
        text.subrange(start, start + 10) == "model name"@,
        forall|j: int|
            0 <= j < start && j + 10 <= text.len() && (j == 0 || text[j - 1] == '\n') ==> (
            #[trigger] text.subrange(j, j + 10)) != "model name"@,
        end == text.len() || text[end] == '\n',
        forall|j: int| start <= j < end ==> #[trigger] text[j] != '\n' && text[j] != ':',
    ensures
        cpu_model_of(Some(text)) == Seq::<char>::empty(),
{
    lemma_model_line_is(text, 0, start, end);
    let line = text.subrange(start, end);
    lemma_next_is(line, ':', 0, line.len() as int);
}

/// Where no line begins with `model name`, or there is no text, the model is `unknown`.
pub proof fn lemma_model_is_unknown(text: Seq<char>)
    requires
        forall|j: int|
            0 <= j && j + 10 <= text.len() && (j == 0 || text[j - 1] == '\n') ==> (
            #[trigger] text.subrange(j, j + 10)) != "model name"@,
    ensures
        cpu_model_of(Some(text)) == "unknown"@,
        cpu_model_of(None) == "unknown"@,
{
    lemma_no_model_line(text, 0);
}

} // verus!
