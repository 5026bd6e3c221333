//! What holds of texts: their order, their numbers, and their parts.
use crate::text;
use crate::time;
use vstd::prelude::*;

verus! {

/// Texts are ordered by the first place where they differ. The one whose
/// character has the lower code there comes first, and a text comes before
/// every longer one that begins with it.
pub proof fn first_differences_decide(
    common: Seq<char>,
    a: char,
    b: char,
    rest_a: Seq<char>,
    rest_b: Seq<char>,
)
    ensures
        (a as int) < (b as int) ==> text::text_before(
            common.push(a) + rest_a,
            common.push(b) + rest_b,
        ),
        text::text_before(common, common.push(a) + rest_a),
        !text::text_before(common.push(a) + rest_a, common),
    decreases common.len(),
{
    let x = common.push(a) + rest_a;
    let y = common.push(b) + rest_b;
    if common.len() > 0 {
        let tail = common.skip(1);
        first_differences_decide(tail, a, b, rest_a, rest_b);
        assert(x.skip(1) =~= tail.push(a) + rest_a);
        assert(y.skip(1) =~= tail.push(b) + rest_b);
        assert(x[0] == common[0] && y[0] == common[0]);
    }
}

/// A decimal text has no leading zeros and its digits are its number.
pub proof fn decimals_are_plain(n: nat)
    ensures
        text::decimal(n).len() > 0,
        n > 0 ==> text::decimal(n)[0] != '0',
        n == 0 ==> text::decimal(n) == seq!['0'],
        text::number(text::decimal(n)) == n,
    decreases n,
{
    text::decimal_round_trip(n);
    if n >= 10 {
        decimals_are_plain(n / 10);
        assert(text::decimal(n)[0] == text::decimal(n / 10)[0]);
    }
}

/// A signed number is read back as it was written.
pub proof fn signed_decimals_are_read_back(n: int)
    ensures
        text::signed_number(text::signed_decimal(n)) == Some(n),
{
    reveal_strlit("-");
    if n < 0 {
        let m = (-n) as nat;
        text::decimal_round_trip(m);
        let s = "-"@ + text::decimal(m);
        assert(s.skip(1) =~= text::decimal(m));
        assert(s[0] == '-');
    } else {
        text::decimal_round_trip(n as nat);
        decimals_are_plain(n as nat);
        let d = text::decimal(n as nat);
        digits_only(n as nat);
        assert(text::is_digit(d[0]));
    }
}

proof fn digits_only(n: nat)
    ensures
        text::all_digits(text::decimal(n)),
    decreases n,
{
    text::decimal_round_trip(n);
    if n >= 10 {
        digits_only(n / 10);
        let d = text::decimal(n);
        assert forall|i: int| 0 <= i < d.len() implies text::is_digit(#[trigger] d[i]) by {
            if i < d.len() - 1 {
                assert(d[i] == text::decimal(n / 10)[i]);
            }
        }
    }
}

/// A number is read from its digits, most significant first, with an optional
/// sign in front.
pub proof fn digits_are_weighed(s: Seq<char>, c: char)
    requires
        s.len() > 0,
        text::all_digits(s),
        text::is_digit(c),
    ensures
        text::unsigned_number(s.push(c)) == Some(
            10 * text::number(s) + (c as int - '0' as int) as nat,
        ),
        text::unsigned_number(seq!['+'] + s) == text::unsigned_number(s),
        text::signed_number(seq!['-'] + s) == Some(-(text::number(s) as int)),
{
    let t = s.push(c);
    assert(t.drop_last() =~= s);
    assert forall|i: int| 0 <= i < t.len() implies text::is_digit(#[trigger] t[i]) by {
        if i < s.len() {
            assert(t[i] == s[i]);
        }
    }
    assert(text::is_digit(t[0]));
    assert(text::is_digit(s[0]));
    assert((seq!['+'] + s).skip(1) =~= s);
    assert((seq!['-'] + s).skip(1) =~= s);
}

/// What is not digits is no number.
pub proof fn other_texts_are_no_numbers(s: Seq<char>, i: int)
    requires
        0 <= i < s.len(),
        !text::is_digit(s[i]),
        i > 0 || (s[0] != '+' && s[0] != '-'),
    ensures
        text::unsigned_number(s) is None,
        text::signed_number(s) is None,
        text::unsigned_number(Seq::empty()) is None,
        text::signed_number(Seq::empty()) is None,
{
    if i > 0 {
        assert(s.skip(1)[i - 1] == s[i]);
    }
}

proof fn start_is_trimmed(s: Seq<char>) -> (k: int)
    ensures
        0 <= k <= s.len(),
        text::trimmed_start(s) == s.skip(k),
        forall|i: int| 0 <= i < k ==> text::is_white_space(#[trigger] s[i]),
        k < s.len() ==> !text::is_white_space(s[k]),
    decreases s.len(),
{
    if s.len() > 0 && text::is_white_space(s[0]) {
        let j = start_is_trimmed(s.skip(1));
        assert(s.skip(1).skip(j) =~= s.skip(j + 1));
        assert forall|i: int| 0 <= i < j + 1 implies text::is_white_space(#[trigger] s[i]) by {
            if i > 0 {
                assert(s.skip(1)[i - 1] == s[i]);
            }
        }
        if j + 1 < s.len() {
            assert(s.skip(1)[j] == s[j + 1]);
        }
        j + 1
    } else {
        assert(s.skip(0) =~= s);
        0
    }
}

proof fn end_is_trimmed(s: Seq<char>) -> (k: int)
    ensures
        0 <= k <= s.len(),
        text::trimmed_end(s) == s.take(k),
        forall|i: int| k <= i < s.len() ==> text::is_white_space(#[trigger] s[i]),
        k > 0 ==> !text::is_white_space(s[k - 1]),
    decreases s.len(),
{
    if s.len() > 0 && text::is_white_space(s.last()) {
        let rest = s.drop_last();
        let k = end_is_trimmed(rest);
        assert(rest.take(k) =~= s.take(k));
        assert forall|i: int| k <= i < s.len() implies text::is_white_space(#[trigger] s[i]) by {
            if i < rest.len() {
                assert(rest[i] == s[i]);
            }
        }
        if k > 0 {
            assert(rest[k - 1] == s[k - 1]);
        }
        k
    } else {
        assert(s.take(s.len() as int) =~= s);
        s.len() as int
    }
}

/// A trimmed text is what is left without the white space at both ends: it
/// neither begins nor ends with any, and nothing else was taken away.
pub proof fn only_outer_white_space_is_trimmed(s: Seq<char>) -> (r: (int, int))
    ensures
        0 <= r.0 <= r.1 <= s.len(),
        text::trimmed(s) == s.subrange(r.0, r.1),
        forall|i: int| 0 <= i < r.0 || r.1 <= i < s.len() ==> text::is_white_space(#[trigger] s[i]),
        r.0 < r.1 ==> !text::is_white_space(s[r.0]) && !text::is_white_space(s[r.1 - 1]),
{
    let a = start_is_trimmed(s);
    let mid = s.skip(a);
    let b = end_is_trimmed(mid);
    assert(mid.take(b) =~= s.subrange(a, a + b));
    assert forall|i: int| 0 <= i < a || a + b <= i < s.len() implies text::is_white_space(
        #[trigger] s[i],
    ) by {
        if i >= a + b {
            assert(mid[i - a] == s[i]);
        }
    }
    if b > 0 {
        assert(mid[b - 1] == s[a + b - 1]);
        if a < s.len() {
            assert(mid[0] == s[a]);
        }
    }
    (a, a + b)
}

/// The texts joined by a character.
pub open spec fn joined(parts: Seq<Seq<char>>, c: char) -> Seq<char>
    decreases parts.len(),
{
    if parts.len() == 0 {
        Seq::empty()
    } else if parts.len() == 1 {
        parts[0]
    } else {
        joined(parts.drop_last(), c).push(c) + parts.last()
    }
}

/// A text is its parts joined by what separates them, and no part holds that.
pub proof fn parts_make_the_text(s: Seq<char>, c: char)
    ensures
        joined(text::parts_of(s, c), c) == s,
        forall|i: int|
            0 <= i < text::parts_of(s, c).len() ==> !(#[trigger] text::parts_of(s, c)[i]).contains(c),
    decreases s.len(),
{
    let parts = text::parts_of(s, c);
    text::parts_not_empty(s, c);
    if s.len() > 0 {
        let rest = s.drop_last();
        let before = text::parts_of(rest, c);
        parts_make_the_text(rest, c);
        text::parts_not_empty(rest, c);
        let x = s.last();
        if x == c {
            assert(parts.drop_last() =~= before);
            assert(joined(parts, c) =~= s);
        } else {
            let last = before.last().push(x);
            assert(parts.drop_last() =~= before.drop_last());
            assert forall|i: int| 0 <= i < parts.len() implies !(#[trigger] parts[i]).contains(c) by {
                if i < parts.len() - 1 {
                    assert(parts[i] == before[i]);
                } else if last.contains(c) {
                    let k = last.index_of(c);
                    assert(before[before.len() - 1] == before.last());
                    assert(before.last()[k] == c);
                }
            }
            assert(joined(parts, c) =~= joined(before, c).push(x));
            assert(s =~= rest.push(x));
        }
    } else {
        assert(parts =~= seq![Seq::<char>::empty()]);
        assert(joined(parts, c) =~= s);
    }
}

proof fn padded_digits(n: nat, width: nat)
    ensures
        time::padded(n, width).len() == width,
        width > 0 ==> time::padded(n, width).last() == text::digit_of(n % 10),
    decreases width,
{
    if width > 0 {
        padded_digits(n / 10, (width - 1) as nat);
    }
}

/// A span is written in the largest unit that it fills, with what is left over
/// as a fraction without trailing zeros.
pub proof fn spans_are_written_in_their_unit(nanos: nat, k: nat)
    ensures
        nanos < 1_000 ==> time::duration_text(nanos) == text::decimal(nanos) + "ns"@,
        0 < k < 1_000 ==> time::duration_text(k * 1_000) == text::decimal(k) + "\u{b5}s"@,
        0 < k < 1_000 ==> time::duration_text(k * 1_000_000) == text::decimal(k) + "ms"@,
        0 < k ==> time::duration_text(k * 1_000_000_000) == text::decimal(k) + "s"@,
{
    reveal_with_fuel(time::fraction, 10);
    assert(time::fraction(0, 3) == Seq::<char>::empty());
    assert(time::fraction(0, 6) == Seq::<char>::empty());
    assert(time::fraction(0, 9) == Seq::<char>::empty());
    assert((k * 1_000) / 1_000 == k && (k * 1_000) % 1_000 == 0);
    assert((k * 1_000_000) / 1_000_000 == k && (k * 1_000_000) % 1_000_000 == 0);
    assert((k * 1_000_000_000) / 1_000_000_000 == k && (k * 1_000_000_000) % 1_000_000_000 == 0);
    assert(text::decimal(k) + Seq::<char>::empty() =~= text::decimal(k));
}

/// A fraction is a point and as many digits as it needs: its last one is not a
/// zero, and without any there is no point.
pub proof fn fractions_have_no_trailing_zeros(n: nat, width: nat)
    ensures
        time::fraction(n, width).len() == 0 || (time::fraction(n, width)[0] == '.'
            && time::fraction(n, width).len() <= width + 1 && time::fraction(n, width).last()
            != '0'),
        width > 0 && n % 10 != 0 ==> time::fraction(n, width).len() == width + 1
            && time::fraction(n, width).last() == text::digit_of(n % 10),
        width > 0 && n % 10 == 0 ==> time::fraction(n, width) == time::fraction(
            n / 10,
            (width - 1) as nat,
        ),
    decreases width,
{
    reveal_strlit(".");
    if width > 0 {
        if n % 10 == 0 {
            fractions_have_no_trailing_zeros(n / 10, (width - 1) as nat);
        } else {
            padded_digits(n, width);
            assert(text::digit_of(n % 10) != '0');
        }
    }
}

} // verus!
