//! Text as a sequence of characters: order, concatenation, and numbers.
use vstd::prelude::*;
use vstd::utf8::*;
use vstd::string::*;

verus! {

/// Strict lexicographic order of texts by code point.
pub open spec fn text_before(a: Seq<char>, b: Seq<char>) -> bool
    decreases a.len(),
{
    if b.len() == 0 {
        false
    } else if a.len() == 0 {
        true
    } else if a[0] != b[0] {
        (a[0] as int) < (b[0] as int)
    } else {
        text_before(a.skip(1), b.skip(1))
    }
}

/// No text comes before itself.
pub proof fn text_before_irreflexive(a: Seq<char>)
    ensures
        !text_before(a, a),
    decreases a.len(),
{
    if a.len() > 0 {
        text_before_irreflexive(a.skip(1));
    }
}

/// The order of texts is transitive.
pub proof fn text_before_transitive(a: Seq<char>, b: Seq<char>, c: Seq<char>)
    requires
        text_before(a, b),
        text_before(b, c),
    ensures
        text_before(a, c),
    decreases a.len(),
{
    if a.len() > 0 && b.len() > 0 && c.len() > 0 && a[0] == b[0] && b[0] == c[0] {
        text_before_transitive(a.skip(1), b.skip(1), c.skip(1));
    }
}

/// Of two different texts one comes before the other.
pub proof fn text_before_total(a: Seq<char>, b: Seq<char>)
    ensures
        a == b || text_before(a, b) || text_before(b, a),
    decreases a.len(),
{
    if a.len() == 0 || b.len() == 0 {
        if a.len() == 0 && b.len() == 0 {
            assert(a =~= b);
        }
    } else if a[0] == b[0] {
        text_before_total(a.skip(1), b.skip(1));
        if a.skip(1) == b.skip(1) {
            assert(a =~= seq![a[0]] + a.skip(1));
            assert(b =~= seq![b[0]] + b.skip(1));
            assert(a == b);
        }
    }
}

/// Whether two texts hold the same characters.
pub(crate) fn text_eq(a: &str, b: &str) -> (r: bool)
    ensures
        r == (a@ == b@),
{
    let mut left = a.chars();
    let mut right = b.chars();
    let ghost mut done: int = 0;
    assert(a@.skip(0) =~= a@);
    assert(b@.skip(0) =~= b@);
    loop
        invariant
            0 <= done <= a@.len(),
            done <= b@.len(),
            vstd::std_specs::iter::IteratorSpec::remaining(&left) == a@.skip(done),
            vstd::std_specs::iter::IteratorSpec::remaining(&right) == b@.skip(done),
            a@.take(done) == b@.take(done),
        decreases a@.len() - done,
    {
        match (left.next(), right.next()) {
            (Some(c), Some(d)) => {
                assert(c == a@[done] && d == b@[done]);
                if c != d {
                    return false;
                }
                proof {
                    assert(a@.take(done + 1) =~= a@.take(done).push(c));
                    assert(b@.take(done + 1) =~= b@.take(done).push(d));
                    assert(a@.skip(done).drop_first() =~= a@.skip(done + 1));
                    assert(b@.skip(done).drop_first() =~= b@.skip(done + 1));
                    done = done + 1;
                }
            },
            (None, None) => {
                assert(a@ =~= a@.take(done));
                assert(b@ =~= b@.take(done));
                return true;
            },
            _ => {
                assert(a@.len() != b@.len());
                return false;
            },
        }
    }
}

/// Whether one text comes before the other.
pub(crate) fn text_lt(a: &str, b: &str) -> (r: bool)
    ensures
        r == text_before(a@, b@),
{
    let mut left = a.chars();
    let mut right = b.chars();
    let ghost mut done: int = 0;
    assert(a@.skip(0) =~= a@);
    assert(b@.skip(0) =~= b@);
    loop
        invariant
            0 <= done <= a@.len(),
            done <= b@.len(),
            vstd::std_specs::iter::IteratorSpec::remaining(&left) == a@.skip(done),
            vstd::std_specs::iter::IteratorSpec::remaining(&right) == b@.skip(done),
            text_before(a@, b@) == text_before(a@.skip(done), b@.skip(done)),
        decreases a@.len() - done,
    {
        match (left.next(), right.next()) {
            (Some(c), Some(d)) => {
                assert(c == a@.skip(done)[0] && d == b@.skip(done)[0]);
                if c != d {
                    return c < d;
                }
                proof {
                    assert(a@.skip(done).drop_first() =~= a@.skip(done + 1));
                    assert(b@.skip(done).drop_first() =~= b@.skip(done + 1));
                    assert(a@.skip(done).skip(1) =~= a@.skip(done + 1));
                    assert(b@.skip(done).skip(1) =~= b@.skip(done + 1));
                    done = done + 1;
                }
            },
            (None, Some(_)) => {
                return true;
            },
            _ => {
                return false;
            },
        }
    }
}

/// What the `Debug` form of a text looks like.
pub uninterp spec fn debug_text(text: Seq<char>) -> Seq<char>;

/// Writes a text with the `Debug` format of `str`, which quotes and escapes it.
/// The result depends on the text alone.
#[verifier::external_body]
pub(crate) fn quoted(value: &str) -> (r: String)
    ensures
        r@ == debug_text(value@),
{
    format!("{value:?}")
}

/// `String::push` appends one character.
pub assume_specification[ String::push ](s: &mut String, c: char)
    ensures
        final(s)@ == old(s)@.push(c),
;

/// The characters of `s`, in order.
pub fn chars_of(s: &str) -> (r: Vec<char>)
    ensures
        r@ == s@,
{
    let mut out: Vec<char> = Vec::new();
    for c in it: s.chars()
        invariant
            out@ == s@.take(it.index()),
            it.seq() == s@,
    {
        out.push(c);
    }
    assert(s@.take(s@.len() as int) =~= s@);
    out
}

/// The text made of characters `from..` of `cs`.
pub fn text_from(cs: &Vec<char>, from: usize, to: usize) -> (r: String)
    requires
        from <= to <= cs@.len(),
    ensures
        r@ == cs@.subrange(from as int, to as int),
{
    let mut out = String::new();
    let mut i: usize = from;
    while i < to
        invariant
            from <= i <= to <= cs@.len(),
            out@ == cs@.subrange(from as int, i as int),
        decreases to - i,
    {
        out.push(cs[i]);
        i = i + 1;
        assert(cs@.subrange(from as int, i as int) =~= cs@.subrange(from as int, i - 1).push(
            cs@[i - 1],
        ));
    }
    out
}

/// Whether `c` is a decimal digit.
pub open spec fn is_digit(c: char) -> bool {
    '0' <= c <= '9'
}

/// The value of a decimal digit.
pub open spec fn digit_value(c: char) -> nat {
    (c as int - '0' as int) as nat
}

/// Every character of `s` is a decimal digit.
pub open spec fn all_digits(s: Seq<char>) -> bool {
    forall|i: int| 0 <= i < s.len() ==> is_digit(#[trigger] s[i])
}

/// The number that the digits of `s` write in base ten.
pub open spec fn number(s: Seq<char>) -> nat
    decreases s.len(),
{
    if s.len() == 0 {
        0
    } else {
        number(s.drop_last()) * 10 + digit_value(s.last())
    }
}

/// The unsigned number that `s` writes: digits, after an optional plus sign.
pub open spec fn unsigned_number(s: Seq<char>) -> Option<nat> {
    let digits = if s.len() > 0 && s[0] == '+' {
        s.skip(1)
    } else {
        s
    };
    if digits.len() > 0 && all_digits(digits) {
        Some(number(digits))
    } else {
        None
    }
}

/// The signed number that `s` writes: digits, after an optional sign.
pub open spec fn signed_number(s: Seq<char>) -> Option<int> {
    if s.len() > 0 && s[0] == '-' {
        match unsigned_digits(s.skip(1)) {
            Some(n) => Some(-(n as int)),
            None => None,
        }
    } else {
        match unsigned_number(s) {
            Some(n) => Some(n as int),
            None => None,
        }
    }
}

/// The number that `s` writes with digits alone.
pub open spec fn unsigned_digits(s: Seq<char>) -> Option<nat> {
    if s.len() > 0 && all_digits(s) {
        Some(number(s))
    } else {
        None
    }
}

proof fn number_grows(s: Seq<char>, i: int)
    requires
        0 <= i <= s.len(),
    ensures
        number(s.take(i)) <= number(s),
    decreases s.len(),
{
    if i == s.len() {
        assert(s.take(i) =~= s);
    } else {
        number_grows(s.drop_last(), i);
        assert(s.drop_last().take(i) =~= s.take(i));
    }
}

/// The number written by the characters from `from`, if they are digits and
/// the number fits.
fn parse_digits(cs: &Vec<char>, from: usize) -> (r: Option<u64>)
    requires
        from <= cs@.len(),
    ensures
        r == match unsigned_digits(cs@.skip(from as int)) {
            Some(n) if n <= u64::MAX => Some(n as u64),
            _ => None,
        },
{
    let ghost s = cs@.skip(from as int);
    if from == cs.len() {
        return None;
    }
    let mut i: usize = from;
    let mut n: u64 = 0;
    assert(s.take(0) =~= Seq::empty());
    while i < cs.len()
        invariant
            from <= i <= cs@.len(),
            s == cs@.skip(from as int),
            n == number(s.take(i - from)),
            forall|j: int| 0 <= j < i - from ==> is_digit(#[trigger] s[j]),
        decreases cs@.len() - i,
    {
        let c: char = cs[i];
        assert(c == s[i - from]);
        if !('0' <= c && c <= '9') {
            assert(!all_digits(s));
            return None;
        }
        let d: u64 = (c as u32 - '0' as u32) as u64;
        proof {
            let t = s.take(i - from + 1);
            assert(t.drop_last() =~= s.take(i - from));
            assert(number(t) == n * 10 + d);
            number_grows(s, i - from + 1);
        }
        match n.checked_mul(10) {
            None => {
                assert(number(s) > u64::MAX);
                return None;
            },
            Some(shifted) => match shifted.checked_add(d) {
                None => {
                    assert(number(s) > u64::MAX);
                    return None;
                },
                Some(sum) => {
                    n = sum;
                },
            },
        }
        i = i + 1;
    }
    assert(s.take(s.len() as int) =~= s);
    assert(all_digits(s));
    Some(n)
}

/// Read an unsigned number.
pub fn parse_u64(value: &str) -> (r: Option<u64>)
    ensures
        r == match unsigned_number(value@) {
            Some(n) if n <= u64::MAX => Some(n as u64),
            _ => None,
        },
{
    let cs = chars_of(value);
    assert(cs@.skip(0) =~= cs@);
    if cs.len() > 0 && cs[0] == '+' {
        parse_digits(&cs, 1)
    } else {
        parse_digits(&cs, 0)
    }
}

/// Read an unsigned number of 32 bits.
pub fn parse_u32(value: &str) -> (r: Option<u32>)
    ensures
        r == match unsigned_number(value@) {
            Some(n) if n <= u32::MAX => Some(n as u32),
            _ => None,
        },
{
    match parse_u64(value) {
        Some(n) => if n <= 0xffff_ffff {
            Some(n as u32)
        } else {
            None
        },
        None => None,
    }
}

/// Read a signed number.
pub fn parse_i64(value: &str) -> (r: Option<i64>)
    ensures
        r == match signed_number(value@) {
            Some(n) if i64::MIN <= n <= i64::MAX => Some(n as i64),
            _ => None,
        },
{
    let cs = chars_of(value);
    if cs.len() > 0 && cs[0] == '-' {
        match parse_digits(&cs, 1) {
            Some(n) => if n < 0x8000_0000_0000_0000 {
                Some(-(n as i64))
            } else if n == 0x8000_0000_0000_0000 {
                Some(i64::MIN)
            } else {
                None
            },
            None => None,
        }
    } else {
        match parse_u64(value) {
            Some(n) => if n <= 0x7fff_ffff_ffff_ffff {
                Some(n as i64)
            } else {
                None
            },
            None => None,
        }
    }
}

/// The decimal digit of value `d`.
pub open spec fn digit_of(d: nat) -> char {
    ('0' as int + d) as char
}

/// `n` written in base ten without leading zeros.
pub open spec fn decimal(n: nat) -> Seq<char>
    decreases n,
{
    if n < 10 {
        seq![digit_of(n)]
    } else {
        decimal(n / 10).push(digit_of(n % 10))
    }
}

/// Write an unsigned number in base ten.
pub fn decimal_of(n: u64) -> (r: String)
    ensures
        r@ == decimal(n as nat),
    decreases n,
{
    let mut out = if n < 10 {
        String::new()
    } else {
        decimal_of(n / 10)
    };
    let d: u8 = (n % 10) as u8;
    let c: char = (48u8 + d) as char;
    assert(c == digit_of((n % 10) as nat));
    out.push(c);
    assert(out@ =~= decimal(n as nat));
    out
}

/// A signed number in base ten.
pub open spec fn signed_decimal(n: int) -> Seq<char> {
    if n < 0 {
        "-"@ + decimal((-n) as nat)
    } else {
        decimal(n as nat)
    }
}

/// Write a signed number in base ten.
pub fn signed_decimal_of(n: i64) -> (r: String)
    ensures
        r@ == signed_decimal(n as int),
{
    if n >= 0 {
        decimal_of(n as u64)
    } else if n == i64::MIN {
        "-".to_owned().concat(decimal_of(0x8000_0000_0000_0000).as_str())
    } else {
        "-".to_owned().concat(decimal_of((-n) as u64).as_str())
    }
}

/// Reading back what was written gives the number.
pub proof fn decimal_round_trip(n: nat)
    ensures
        unsigned_number(decimal(n)) == Some(n),
        unsigned_digits(decimal(n)) == Some(n),
    decreases n,
{
    decimal_digits(n);
    assert(decimal(n)[0] != '+');
}

proof fn decimal_digits(n: nat)
    ensures
        decimal(n).len() > 0,
        all_digits(decimal(n)),
        number(decimal(n)) == n,
    decreases n,
{
    if n < 10 {
        assert(decimal(n).drop_last() =~= Seq::empty());
        assert(number(decimal(n).drop_last()) == 0);
    } else {
        decimal_digits(n / 10);
        assert(decimal(n).drop_last() =~= decimal(n / 10));
    }
}

/// Different numbers are written differently.
pub proof fn decimal_injective(a: nat, b: nat)
    requires
        decimal(a) == decimal(b),
    ensures
        a == b,
{
    decimal_round_trip(a);
    decimal_round_trip(b);
}

/// Whether `c` is a Unicode white-space character.
pub open spec fn is_white_space(c: char) -> bool {
    ||| '\u{9}' <= c <= '\u{d}'
    ||| c == ' '
    ||| c == '\u{85}'
    ||| c == '\u{a0}'
    ||| c == '\u{1680}'
    ||| '\u{2000}' <= c <= '\u{200a}'
    ||| c == '\u{2028}'
    ||| c == '\u{2029}'
    ||| c == '\u{202f}'
    ||| c == '\u{205f}'
    ||| c == '\u{3000}'
}

/// Every character of `s` is white space.
pub open spec fn blank(s: Seq<char>) -> bool {
    forall|i: int| 0 <= i < s.len() ==> is_white_space(#[trigger] s[i])
}

/// `s` without leading white space.
pub open spec fn trimmed_start(s: Seq<char>) -> Seq<char>
    decreases s.len(),
{
    if s.len() > 0 && is_white_space(s[0]) {
        trimmed_start(s.skip(1))
    } else {
        s
    }
}

/// `s` without trailing white space.
pub open spec fn trimmed_end(s: Seq<char>) -> Seq<char>
    decreases s.len(),
{
    if s.len() > 0 && is_white_space(s.last()) {
        trimmed_end(s.drop_last())
    } else {
        s
    }
}

/// `s` without white space around it.
pub open spec fn trimmed(s: Seq<char>) -> Seq<char> {
    trimmed_end(trimmed_start(s))
}

/// Nothing is left of a text once white space is trimmed exactly where it is
/// all white space.
pub proof fn blank_texts_trim_to_nothing(s: Seq<char>)
    ensures
        blank(s) <==> trimmed(s).len() == 0,
    decreases s.len(),
{
    if s.len() > 0 && is_white_space(s[0]) {
        blank_texts_trim_to_nothing(s.skip(1));
        assert(blank(s.skip(1)) <==> blank(s)) by {
            if blank(s.skip(1)) {
                assert forall|i: int| 0 <= i < s.len() implies is_white_space(#[trigger] s[i]) by {
                    if i > 0 {
                        assert(s.skip(1)[i - 1] == s[i]);
                    }
                }
            }
        }
    } else if s.len() > 0 {
        trimmed_end_keeps_start(s);
    }
}

proof fn trimmed_end_keeps_start(s: Seq<char>)
    requires
        s.len() > 0,
        !is_white_space(s[0]),
    ensures
        trimmed_end(s).len() > 0,
    decreases s.len(),
{
    if is_white_space(s.last()) {
        assert(s.drop_last()[0] == s[0]);
        trimmed_end_keeps_start(s.drop_last());
    }
}

fn white(c: char) -> (r: bool)
    ensures
        r == is_white_space(c),
{
    ('\u{9}' <= c && c <= '\u{d}') || c == ' ' || c == '\u{85}' || c == '\u{a0}' || c == '\u{1680}'
        || ('\u{2000}' <= c && c <= '\u{200a}') || c == '\u{2028}' || c == '\u{2029}' || c
        == '\u{202f}' || c == '\u{205f}' || c == '\u{3000}'
}

/// The text without white space around it.
pub fn trim(value: &str) -> (r: String)
    ensures
        r@ == trimmed(value@),
{
    let cs = chars_of(value);
    let n: usize = cs.len();
    let mut i: usize = 0;
    assert(cs@.skip(0) =~= cs@);
    while i < n && white(cs[i])
        invariant
            i <= n,
            n == cs@.len(),
            cs@ == value@,
            trimmed_start(cs@.skip(i as int)) == trimmed_start(value@),
        decreases n - i,
    {
        proof {
            assert(cs@.skip(i as int)[0] == cs@[i as int]);
            assert(cs@.skip(i as int).skip(1) =~= cs@.skip(i + 1));
        }
        i = i + 1;
    }
    let ghost rest = cs@.skip(i as int);
    proof {
        if i < n {
            assert(rest[0] == cs@[i as int]);
        }
        assert(rest == trimmed_start(value@));
        assert(cs@.subrange(i as int, n as int) =~= rest);
    }
    let mut j: usize = n;
    while i < j && white(cs[j - 1])
        invariant
            i <= j <= n,
            n == cs@.len(),
            cs@ == value@,
            trimmed_end(cs@.subrange(i as int, j as int)) == trimmed_end(rest),
        decreases j,
    {
        proof {
            let part = cs@.subrange(i as int, j as int);
            assert(part.last() == cs@[j - 1]);
            assert(part.drop_last() =~= cs@.subrange(i as int, j - 1));
        }
        j = j - 1;
    }
    proof {
        let part = cs@.subrange(i as int, j as int);
        if i < j {
            assert(part.last() == cs@[j - 1]);
        }
    }
    text_from(&cs, i, j)
}

/// Whether nothing is left of `value` once white space is trimmed.
pub fn is_blank(value: &str) -> (r: bool)
    ensures
        r == blank(value@),
{
    let cs = chars_of(value);
    let mut i: usize = 0;
    while i < cs.len()
        invariant
            cs@ == value@,
            i <= cs@.len(),
            forall|j: int| 0 <= j < i ==> is_white_space(#[trigger] value@[j]),
        decreases cs@.len() - i,
    {
        if !white(cs[i]) {
            assert(!is_white_space(value@[i as int]));
            return false;
        }
        assert(is_white_space(value@[i as int]));
        i = i + 1;
    }
    true
}

/// Whether `value` holds the character `c`.
pub fn has_char(value: &str, c: char) -> (r: bool)
    ensures
        r == value@.contains(c),
{
    let cs = chars_of(value);
    let mut i: usize = 0;
    while i < cs.len()
        invariant
            cs@ == value@,
            i <= cs@.len(),
            forall|j: int| 0 <= j < i ==> value@[j] != c,
        decreases cs@.len() - i,
    {
        if cs[i] == c {
            assert(value@[i as int] == c);
            return true;
        }
        i = i + 1;
    }
    false
}

/// What follows `prefix` in `s`.
pub open spec fn after_prefix(s: Seq<char>, prefix: Seq<char>) -> Option<Seq<char>> {
    if prefix.is_prefix_of(s) {
        Some(s.skip(prefix.len() as int))
    } else {
        None
    }
}

/// Whether `value` begins with `prefix`.
pub fn starts_with(value: &str, prefix: &str) -> (r: bool)
    ensures
        r == prefix@.is_prefix_of(value@),
{
    strip_prefix(value, prefix).is_some()
}

/// What follows `prefix` in `value`.
pub fn strip_prefix(value: &str, prefix: &str) -> (r: Option<String>)
    ensures
        match r {
            Some(suffix) => after_prefix(value@, prefix@) == Some(suffix@),
            None => after_prefix(value@, prefix@) is None,
        },
{
    let v = chars_of(value);
    let p = chars_of(prefix);
    if p.len() > v.len() {
        return None;
    }
    let mut i: usize = 0;
    while i < p.len()
        invariant
            v@ == value@,
            p@ == prefix@,
            i <= p@.len() <= v@.len(),
            forall|j: int| 0 <= j < i ==> v@[j] == p@[j],
        decreases p@.len() - i,
    {
        if v[i] != p[i] {
            proof {
                assert(value@.subrange(0, prefix@.len() as int)[i as int] == value@[i as int]);
            }
            return None;
        }
        i = i + 1;
    }
    assert(prefix@ =~= value@.subrange(0, prefix@.len() as int));
    assert(value@.subrange(prefix@.len() as int, value@.len() as int) =~= value@.skip(
        prefix@.len() as int,
    ));
    Some(text_from(&v, p.len(), v.len()))
}

/// Whether `value` ends with `suffix`.
pub fn ends_with(value: &str, suffix: &str) -> (r: bool)
    ensures
        r == suffix@.is_suffix_of(value@),
{
    let v = chars_of(value);
    let s = chars_of(suffix);
    if s.len() > v.len() {
        return false;
    }
    let from: usize = v.len() - s.len();
    let mut i: usize = 0;
    while i < s.len()
        invariant
            v@ == value@,
            s@ == suffix@,
            from == v@.len() - s@.len(),
            v@.len() <= usize::MAX,
            i <= s@.len() <= v@.len(),
            forall|j: int| 0 <= j < i ==> v@[from + j] == s@[j],
        decreases s@.len() - i,
    {
        if v[from + i] != s[i] {
            proof {
                let tail = value@.subrange(from as int, value@.len() as int);
                assert(tail[i as int] == value@[from + i]);
            }
            return false;
        }
        i = i + 1;
    }
    assert(suffix@ =~= value@.subrange(from as int, value@.len() as int));
    true
}

/// The parts of `s` between the separators `c`.
pub open spec fn parts_of(s: Seq<char>, c: char) -> Seq<Seq<char>>
    decreases s.len(),
{
    if s.len() == 0 {
        seq![Seq::<char>::empty()]
    } else {
        let before = parts_of(s.drop_last(), c);
        if s.last() == c {
            before.push(Seq::empty())
        } else {
            before.drop_last().push(before.last().push(s.last()))
        }
    }
}

/// There is always a last part.
pub proof fn parts_not_empty(s: Seq<char>, c: char)
    ensures
        parts_of(s, c).len() > 0,
    decreases s.len(),
{
    if s.len() > 0 {
        parts_not_empty(s.drop_last(), c);
    }
}

/// Split `value` at every separator `c`.
pub fn split(value: &str, c: char) -> (r: Vec<String>)
    ensures
        r.deep_view() == parts_of(value@, c),
        r@.len() > 0,
{
    let cs = chars_of(value);
    let mut out: Vec<String> = Vec::new();
    let mut part = String::new();
    let mut i: usize = 0;
    proof {
        assert(cs@.take(0) =~= Seq::empty());
        assert(out.deep_view() =~= Seq::empty());
        assert(out.deep_view().push(part@) =~= seq![Seq::<char>::empty()]);
    }
    while i < cs.len()
        invariant
            i <= cs@.len(),
            cs@ == value@,
            out.deep_view().push(part@) == parts_of(cs@.take(i as int), c),
        decreases cs@.len() - i,
    {
        let ghost before = out.deep_view();
        let ghost last = part@;
        proof {
            assert(cs@.take(i + 1).drop_last() =~= cs@.take(i as int));
            assert(cs@.take(i + 1).last() == cs@[i as int]);
            assert(before.push(last).drop_last() =~= before);
            assert(before.push(last).last() == last);
        }
        if cs[i] == c {
            out.push(part);
            part = String::new();
            assert(out.deep_view() =~= before.push(last));
        } else {
            part.push(cs[i]);
        }
        i = i + 1;
    }
    let ghost before = out.deep_view();
    assert(cs@.take(cs@.len() as int) =~= cs@);
    let ghost last = part@;
    out.push(part);
    assert(out.deep_view() =~= before.push(last));
    out
}

/// Splitting a joined text gives the parts before and the new part, where the
/// new part holds no separator.
pub proof fn parts_of_join(s: Seq<char>, part: Seq<char>, c: char)
    requires
        !part.contains(c),
    ensures
        parts_of(s.push(c) + part, c) == parts_of(s, c).push(part),
    decreases part.len(),
{
    let joined = s.push(c) + part;
    if part.len() == 0 {
        assert(joined =~= s.push(c));
        assert(joined.drop_last() =~= s);
        assert(part =~= Seq::empty());
    } else {
        let rest = part.drop_last();
        if rest.contains(c) {
            assert(part[rest.index_of(c)] == c);
        }
        parts_of_join(s, rest, c);
        assert(joined.drop_last() =~= s.push(c) + rest);
        assert(joined.last() == part.last());
        assert(part.contains(part.last()));
        let before = parts_of(s, c).push(rest);
        assert(before.drop_last() =~= parts_of(s, c));
        assert(rest.push(part.last()) =~= part);
    }
}

/// A text without a separator is its only part.
pub proof fn parts_of_single(s: Seq<char>, c: char)
    requires
        !s.contains(c),
    ensures
        parts_of(s, c) == seq![s],
    decreases s.len(),
{
    if s.len() == 0 {
        assert(s =~= Seq::empty());
    } else {
        let rest = s.drop_last();
        if rest.contains(c) {
            assert(s[rest.index_of(c)] == c);
        }
        parts_of_single(rest, c);
        assert(s.contains(s.last()));
        assert(rest.push(s.last()) =~= s);
        assert(seq![rest].drop_last() =~= Seq::empty());
        assert(Seq::<Seq<char>>::empty().push(s) =~= seq![s]);
    }
}

/// The bytes of a text.
pub fn bytes_of(value: &str) -> (r: Vec<u8>)
    ensures
        r@ == encode_utf8(value@),
{
    let bytes = value.as_bytes();
    let mut out: Vec<u8> = Vec::new();
    let mut i: usize = 0;
    while i < bytes.len()
        invariant
            i <= bytes@.len(),
            out@ == bytes@.take(i as int),
        decreases bytes@.len() - i,
    {
        out.push(bytes[i]);
        i = i + 1;
        assert(bytes@.take(i as int) =~= bytes@.take(i - 1).push(bytes@[i - 1]));
    }
    assert(bytes@.take(bytes@.len() as int) =~= bytes@);
    out
}

/// Whether some bytes are those of a text.
pub fn bytes_are(bytes: &Vec<u8>, value: &str) -> (r: bool)
    ensures
        r == (bytes@ == encode_utf8(value@)),
{
    let other = bytes_of(value);
    if bytes.len() != other.len() {
        return false;
    }
    let mut i: usize = 0;
    while i < bytes.len()
        invariant
            i <= bytes@.len(),
            bytes@.len() == other@.len(),
            forall|j: int| 0 <= j < i ==> bytes@[j] == other@[j],
            other@ == encode_utf8(value@),
        decreases bytes@.len() - i,
    {
        if bytes[i] != other[i] {
            return false;
        }
        i = i + 1;
    }
    assert(bytes@ =~= other@);
    true
}

} // verus!
