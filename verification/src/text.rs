//! Small facts about text that the rest of the library rests on: equality, the
//! byte order of strings, and decimal numerals.

use vstd::prelude::*;
use vstd::utf8::encode_utf8;

verus! {

/// Where one text stands relative to another in byte order.
#[derive(Clone, Copy, Debug, PartialEq, Eq, Structural)]
pub enum Place {
    Before,
    Same,
    After,
}

/// Two texts are equal exactly when they encode to the same bytes.
pub proof fn lemma_bytes_determine_text(a: Seq<char>, b: Seq<char>)
    requires
        encode_utf8(a) == encode_utf8(b),
    ensures
        a == b,
{
    vstd::utf8::encode_utf8_decode_utf8(a);
    vstd::utf8::encode_utf8_decode_utf8(b);
}

/// Lexicographic order of byte strings: `a` comes strictly before `b`.
pub open spec fn bytes_before(a: Seq<u8>, b: Seq<u8>) -> bool
    decreases a.len(),
{
    if b.len() == 0 {
        false
    } else if a.len() == 0 {
        true
    } else if a[0] != b[0] {
        a[0] < b[0]
    } else {
        bytes_before(a.drop_first(), b.drop_first())
    }
}

/// The order in which strings are sorted: lexicographically by their bytes.
pub open spec fn text_before(a: Seq<char>, b: Seq<char>) -> bool {
    bytes_before(encode_utf8(a), encode_utf8(b))
}

proof fn lemma_bytes_before_skip(a: Seq<u8>, b: Seq<u8>, n: int)
    requires
        0 <= n <= a.len(),
        n <= b.len(),
        a.take(n) == b.take(n),
    ensures
        bytes_before(a, b) == bytes_before(a.skip(n), b.skip(n)),
    decreases n,
{
    if n == 0 {
        assert(a.skip(0) =~= a);
        assert(b.skip(0) =~= b);
    } else {
        assert(a[0] == a.take(n)[0]);
        assert(b[0] == b.take(n)[0]);
        assert(a.drop_first().take(n - 1) =~= a.take(n).drop_first());
        assert(b.drop_first().take(n - 1) =~= b.take(n).drop_first());
        lemma_bytes_before_skip(a.drop_first(), b.drop_first(), n - 1);
        assert(a.drop_first().skip(n - 1) =~= a.skip(n));
        assert(b.drop_first().skip(n - 1) =~= b.skip(n));
    }
}

/// Byte order is irreflexive.
pub proof fn lemma_bytes_before_irreflexive(a: Seq<u8>)
    ensures
        !bytes_before(a, a),
    decreases a.len(),
{
    if a.len() > 0 {
        lemma_bytes_before_irreflexive(a.drop_first());
    }
}

/// Byte order is transitive.
pub proof fn lemma_bytes_before_transitive(a: Seq<u8>, b: Seq<u8>, c: Seq<u8>)
    requires
        bytes_before(a, b),
        bytes_before(b, c),
    ensures
        bytes_before(a, c),
    decreases a.len(),
{
    if a.len() > 0 && a[0] == b[0] && b[0] == c[0] {
        lemma_bytes_before_transitive(a.drop_first(), b.drop_first(), c.drop_first());
    }
}

/// Places `a` relative to `b` in byte order.
pub fn place_of(a: &str, b: &str) -> (r: Place)
    ensures
        r == Place::Same <==> a@ == b@,
        r == Place::Before <==> text_before(a@, b@),
        r == Place::After <==> text_before(b@, a@),
{
    let x: &[u8] = a.as_bytes();
    let y: &[u8] = b.as_bytes();
    let mut i: usize = 0;
    while i < x.len() && i < y.len() && x[i] == y[i]
        invariant
            i <= x@.len(),
            i <= y@.len(),
            x@.take(i as int) == y@.take(i as int),
        decreases x@.len() - i,
    {
        proof {
            assert(x@.take(i + 1) =~= x@.take(i as int).push(x@[i as int]));
            assert(y@.take(i + 1) =~= y@.take(i as int).push(y@[i as int]));
        }
        i = i + 1;
    }
    proof {
        lemma_bytes_before_skip(x@, y@, i as int);
        lemma_bytes_before_skip(y@, x@, i as int);
        lemma_bytes_before_irreflexive(x@);
        if i == x@.len() && i == y@.len() {
            assert(x@ =~= x@.take(i as int));
            assert(y@ =~= y@.take(i as int));
            lemma_bytes_determine_text(a@, b@);
        }
    }
    if i < x.len() {
        if i < y.len() {
            if x[i] < y[i] {
                Place::Before
            } else {
                Place::After
            }
        } else {
            Place::After
        }
    } else if i < y.len() {
        Place::Before
    } else {
        Place::Same
    }
}

/// Tells whether two texts are equal.
pub fn same_text(a: &str, b: &str) -> (r: bool)
    ensures
        r == (a@ == b@),
{
    match place_of(a, b) {
        Place::Same => true,
        _ => false,
    }
}

/// The decimal digit with value `d`.
pub open spec fn digit_char(d: nat) -> char
    recommends
        d < 10,
{
    (d + '0' as nat) as char
}

/// The value of a decimal digit.
pub open spec fn digit_value(c: char) -> Option<nat> {
    if '0' <= c && c <= '9' {
        Some((c as nat - '0' as nat) as nat)
    } else {
        None
    }
}

/// The decimal numeral of `n`, without leading zeros.
pub open spec fn decimal_of(n: nat) -> Seq<char>
    decreases n,
{
    if n < 10 {
        seq![digit_char(n)]
    } else {
        decimal_of(n / 10).push(digit_char(n % 10))
    }
}

/// The number that a string of decimal digits stands for; `None` when some
/// character is not a decimal digit.
pub open spec fn number_of(s: Seq<char>) -> Option<nat>
    decreases s.len(),
{
    if s.len() == 0 {
        Some(0)
    } else {
        match (number_of(s.drop_last()), digit_value(s.last())) {
            (Some(v), Some(d)) => Some(10 * v + d),
            _ => None,
        }
    }
}

/// The digits of a numeral: everything behind an optional leading `+`.
pub open spec fn unsigned_part(s: Seq<char>) -> Seq<char> {
    if s.len() > 0 && s[0] == '+' {
        s.drop_first()
    } else {
        s
    }
}

/// The value of a 64-bit decimal numeral: an optional `+`, then at least one
/// decimal digit and nothing else, with a value that fits.
pub open spec fn u64_of(s: Seq<char>) -> Option<u64> {
    let digits = unsigned_part(s);
    if digits.len() == 0 {
        None
    } else {
        match number_of(digits) {
            Some(v) => if v <= u64::MAX {
                Some(v as u64)
            } else {
                None
            },
            None => None,
        }
    }
}

proof fn lemma_decimal_is_a_number(n: nat)
    ensures
        decimal_of(n).len() > 0,
        decimal_of(n)[0] != '+',
        number_of(decimal_of(n)) == Some(n),
    decreases n,
{
    reveal_with_fuel(number_of, 2);
    if n < 10 {
        assert(decimal_of(n).drop_last() =~= Seq::<char>::empty());
    } else {
        lemma_decimal_is_a_number(n / 10);
        assert(decimal_of(n).drop_last() =~= decimal_of(n / 10));
        assert(decimal_of(n)[0] == decimal_of(n / 10)[0]);
    }
}

/// Reading a numeral back gives the number it was written from.
pub proof fn lemma_numeral_round_trip(n: u64)
    ensures
        u64_of(decimal_of(n as nat)) == Some(n),
{
    lemma_decimal_is_a_number(n as nat);
}

fn digit_text(d: u64) -> (r: &'static str)
    requires
        d < 10,
    ensures
        r@ == seq![digit_char(d as nat)],
{
    proof {
        reveal_strlit("0");
        reveal_strlit("1");
        reveal_strlit("2");
        reveal_strlit("3");
        reveal_strlit("4");
        reveal_strlit("5");
        reveal_strlit("6");
        reveal_strlit("7");
        reveal_strlit("8");
        reveal_strlit("9");
    }
    match d {
        0 => "0",
        1 => "1",
        2 => "2",
        3 => "3",
        4 => "4",
        5 => "5",
        6 => "6",
        7 => "7",
        8 => "8",
        _ => "9",
    }
}

/// Writes `n` as a decimal numeral.
pub fn decimal(n: u64) -> (r: String)
    ensures
        r@ == decimal_of(n as nat),
    decreases n,
{
    if n < 10 {
        digit_text(n).to_owned()
    } else {
        let mut s = decimal(n / 10);
        s.append(digit_text(n % 10));
        s
    }
}

/// The characters of a text, one by one.
pub fn chars_of(s: &str) -> (r: Vec<char>)
    ensures
        r@ == s@,
{
    let mut out: Vec<char> = Vec::new();
    for c in it: s.chars()
        invariant
            it.seq() == s@,
            out@ == s@.take(it.index() as int),
    {
        out.push(c);
    }
    out
}

proof fn lemma_number_grows(s: Seq<char>, n: int)
    requires
        0 <= n <= s.len(),
    ensures
        number_of(s) is Some ==> number_of(s.take(n)) is Some && number_of(s.take(n))->0
            <= number_of(s)->0,
    decreases s.len(),
{
    if n == s.len() {
        assert(s.take(n) =~= s);
    } else {
        lemma_number_grows(s.drop_last(), n);
        assert(s.drop_last().take(n) =~= s.take(n));
    }
}

/// Reads a decimal numeral that fits in 64 bits.
pub fn parse_u64(s: &str) -> (r: Option<u64>)
    ensures
        r == u64_of(s@),
{
    let chars: Vec<char> = chars_of(s);
    let mut start: usize = 0;
    if chars.len() > 0 && chars[0] == '+' {
        start = 1;
    }
    let ghost digits = unsigned_part(s@);
    assert(digits =~= chars@.skip(start as int));
    if start == chars.len() {
        return None;
    }
    let mut value: u64 = 0;
    let mut i: usize = start;
    assert(digits.take(0) =~= Seq::<char>::empty());
    while i < chars.len()
        invariant
            start <= i <= chars@.len(),
            start < chars@.len(),
            digits == unsigned_part(s@),
            digits == chars@.skip(start as int),
            number_of(digits.take(i - start)) == Some(value as nat),
        decreases chars@.len() - i,
    {
        let c: char = chars[i];
        proof {
            let next = digits.take(i - start + 1);
            assert(next.drop_last() =~= digits.take(i - start));
            assert(next.last() == c);
            lemma_number_grows(digits, i - start + 1);
        }
        if c < '0' || c > '9' {
            return None;
        }
        let d: u64 = (c as u32 - '0' as u32) as u64;
        if value > (u64::MAX - d) / 10 {
            return None;
        }
        value = value * 10 + d;
        i = i + 1;
    }
    assert(digits.take(i - start) =~= digits);
    Some(value)
}

/// One byte string stands before another exactly where, behind some bytes that they
/// have in common, it ends or goes on with a smaller byte.
pub proof fn lemma_bytes_before_is_lexicographic(a: Seq<u8>, b: Seq<u8>)
    ensures
        bytes_before(a, b) <==> exists|i: int|
            0 <= i <= a.len() && i < b.len() && #[trigger] a.take(i) == b.take(i) && (i == a.len()
                || a[i] < b[i]),
    decreases a.len(),
{
    if bytes_before(a, b) {
        let i = lemma_first_difference(a, b);
        assert(a.take(i) == b.take(i));
    }
    if exists|i: int|
        0 <= i <= a.len() && i < b.len() && #[trigger] a.take(i) == b.take(i) && (i == a.len()
            || a[i] < b[i]) {
        let i = choose|i: int|
            0 <= i <= a.len() && i < b.len() && #[trigger] a.take(i) == b.take(i) && (i == a.len()
                || a[i] < b[i]);
        lemma_bytes_before_skip(a, b, i);
        assert(b.skip(i).len() > 0);
        assert(b.skip(i)[0] == b[i]);
        if i < a.len() {
            assert(a.skip(i)[0] == a[i]);
        }
    }
}

proof fn lemma_first_difference(a: Seq<u8>, b: Seq<u8>) -> (i: int)
    requires
        bytes_before(a, b),
    ensures
        0 <= i <= a.len(),
        i < b.len(),
        a.take(i) == b.take(i),
        i == a.len() || a[i] < b[i],
    decreases a.len(),
{
    if a.len() == 0 || a[0] != b[0] {
        assert(a.take(0) =~= b.take(0));
        0
    } else {
        let j = lemma_first_difference(a.drop_first(), b.drop_first());
        assert(a.take(j + 1) =~= b.take(j + 1)) by {
            let (x, y) = (a.take(j + 1), b.take(j + 1));
            assert forall|k: int| 0 <= k < j + 1 implies #[trigger] x[k] == y[k] by {
                if k > 0 {
                    assert(a.drop_first().take(j)[k - 1] == b.drop_first().take(j)[k - 1]);
                }
            }
        }
        j + 1
    }
}

/// Texts are ordered by the bytes of their encoding.
pub proof fn lemma_text_is_ordered_by_its_bytes(a: Seq<char>, b: Seq<char>)
    ensures
        text_before(a, b) == bytes_before(encode_utf8(a), encode_utf8(b)),
{
}

/// A digit behind a numeral is worth itself, and makes what stands before it worth ten
/// times as much; anything else behind it makes it no numeral.
pub proof fn lemma_digit_is_worth_its_place(s: Seq<char>, c: char)
    ensures
        number_of(Seq::empty()) == Some(0nat),
        '0' <= c <= '9' ==> number_of(s.push(c)) == (match number_of(s) {
            Some(v) => Some((10 * v + (c as int - 48)) as nat),
            None => None,
        }),
        !('0' <= c <= '9') ==> number_of(s.push(c)) is None,
{
    assert(s.push(c).drop_last() =~= s);
}

/// A numeral that is written has decimal digits alone, and begins with a zero only where
/// it is the numeral of zero.
pub proof fn lemma_decimal_is_plain(n: nat)
    ensures
        decimal_of(n).len() > 0,
        forall|i: int| 0 <= i < decimal_of(n).len() ==> '0' <= #[trigger] decimal_of(n)[i] <= '9',
        decimal_of(n)[0] == '0' <==> n == 0,
        n < 10 ==> decimal_of(n).len() == 1,
        number_of(decimal_of(n)) == Some(n),
    decreases n,
{
    lemma_decimal_is_a_number(n);
    if n >= 10 {
        lemma_decimal_is_plain(n / 10);
        assert(decimal_of(n)[0] == decimal_of(n / 10)[0]);
    }
}

/// A numeral is read with or without a `+` before it. It has a value where it is made of
/// decimal digits, at least one, and the value fits in 64 bits.
pub proof fn lemma_numeral_may_have_a_sign(s: Seq<char>)
    requires
        s.len() > 0,
    ensures
        u64_of(seq!['+'] + s) == (match number_of(s) {
            Some(v) => if v <= u64::MAX {
                Some(v as u64)
            } else {
                None
            },
            None => None,
        }),
        s[0] != '+' ==> u64_of(s) == u64_of(seq!['+'] + s),
        u64_of(Seq::empty()) is None,
        u64_of(seq!['+']) is None,
{
    assert((seq!['+'] + s).drop_first() =~= s);
    assert(seq!['+'].drop_first() =~= Seq::<char>::empty());
}

} // verus!
