//! Spans of time.
use crate::ordered::Duplicate;
use crate::text;
use vstd::prelude::*;
use vstd::string::*;

verus! {

/// A span of time in whole seconds and nanoseconds.
#[derive(Clone, Copy, Debug, PartialEq, Eq, PartialOrd, Ord, Hash, Structural)]
pub struct Duration {
    secs: u64,
    nanos: u32,
}

impl View for Duration {
    type V = nat;

    /// The nanoseconds of the span.
    closed spec fn view(&self) -> nat {
        (self.secs * 1_000_000_000 + self.nanos) as nat
    }
}

impl DeepView for Duration {
    type V = nat;

    open spec fn deep_view(&self) -> nat {
        self@
    }
}

impl Duplicate for Duration {
    fn duplicate(&self) -> (r: Self) {
        *self
    }
}

impl Duration {
    #[verifier::type_invariant]
    spec fn inv(self) -> bool {
        self.nanos < 1_000_000_000
    }

    /// A span of whole seconds and some nanoseconds.
    pub fn new(secs: u64, nanos: u32) -> (r: Duration)
        requires
            nanos < 1_000_000_000,
        ensures
            r@ == secs * 1_000_000_000 + nanos,
    {
        Duration { secs, nanos }
    }

    /// A span of whole seconds.
    pub fn from_secs(secs: u64) -> (r: Duration)
        ensures
            r@ == secs * 1_000_000_000,
    {
        Duration { secs, nanos: 0 }
    }

    /// A span of milliseconds.
    pub fn from_millis(millis: u64) -> (r: Duration)
        ensures
            r@ == millis * 1_000_000,
    {
        let secs: u64 = millis / 1_000;
        let rest: u64 = millis % 1_000;
        proof {
            assert(secs * 1_000 + rest == millis);
        }
        Duration { secs, nanos: (rest as u32) * 1_000_000 }
    }

    /// The span of no time.
    pub fn zero() -> (r: Duration)
        ensures
            r@ == 0,
    {
        Duration { secs: 0, nanos: 0 }
    }

    /// Whether the span is of no time.
    pub fn is_zero(&self) -> (r: bool)
        ensures
            r == (self@ == 0),
    {
        self.secs == 0 && self.nanos == 0
    }

    /// The whole seconds of the span.
    pub fn as_secs(&self) -> (r: u64)
        ensures
            r == self@ / 1_000_000_000,
    {
        proof {
            use_type_invariant(self);
        }
        self.secs
    }

    /// The nanoseconds past the whole seconds.
    pub fn subsec_nanos(&self) -> (r: u32)
        ensures
            r == self@ % 1_000_000_000,
    {
        proof {
            use_type_invariant(self);
        }
        self.nanos
    }

    /// Whether this span is shorter than `other`.
    pub fn is_shorter(&self, other: &Duration) -> (r: bool)
        ensures
            r == (self@ < other@),
    {
        proof {
            use_type_invariant(self);
            use_type_invariant(other);
        }
        self.secs < other.secs || (self.secs == other.secs && self.nanos < other.nanos)
    }

    /// The shorter of two spans.
    pub fn shorter(self, other: Duration) -> (r: Duration)
        ensures
            r@ == if other@ < self@ {
                other@
            } else {
                self@
            },
    {
        if other.is_shorter(&self) {
            other
        } else {
            self
        }
    }

    /// The longer of two spans.
    pub fn longer(self, other: Duration) -> (r: Duration)
        ensures
            r@ == if self@ < other@ {
                other@
            } else {
                self@
            },
    {
        if self.is_shorter(&other) {
            other
        } else {
            self
        }
    }

    /// What is left of this span after `other`, or nothing.
    pub fn saturating_sub(self, other: Duration) -> (r: Duration)
        ensures
            r@ == if self@ < other@ {
                0
            } else {
                (self@ - other@) as nat
            },
    {
        proof {
            use_type_invariant(&self);
            use_type_invariant(&other);
        }
        if self.is_shorter(&other) {
            Duration::zero()
        } else if self.nanos >= other.nanos {
            Duration { secs: self.secs - other.secs, nanos: self.nanos - other.nanos }
        } else {
            Duration {
                secs: self.secs - other.secs - 1,
                nanos: self.nanos + 1_000_000_000 - other.nanos,
            }
        }
    }

    /// A third of the span, rounded down to a nanosecond.
    pub fn third(self) -> (r: Duration)
        ensures
            r@ == self@ / 3,
    {
        proof {
            use_type_invariant(&self);
        }
        let secs: u64 = self.secs / 3;
        let rest: u64 = (self.secs % 3) * 1_000_000_000 + self.nanos as u64;
        let nanos: u64 = rest / 3;
        Duration { secs, nanos: nanos as u32 }
    }
}

/// The last `width` decimal digits of `n`, with leading zeros.
pub open spec fn padded(n: nat, width: nat) -> Seq<char>
    decreases width,
{
    if width == 0 {
        Seq::empty()
    } else {
        padded(n / 10, (width - 1) as nat).push(text::digit_of(n % 10))
    }
}

/// A decimal fraction of `width` digits without trailing zeros.
pub open spec fn fraction(n: nat, width: nat) -> Seq<char>
    decreases width,
{
    if width == 0 {
        Seq::empty()
    } else if n % 10 == 0 {
        fraction(n / 10, (width - 1) as nat)
    } else {
        "."@ + padded(n, width)
    }
}

/// A span of time in its largest unit that is not below one.
pub open spec fn duration_text(nanos: nat) -> Seq<char> {
    if nanos >= 1_000_000_000 {
        text::decimal(nanos / 1_000_000_000) + fraction(nanos % 1_000_000_000, 9) + "s"@
    } else if nanos >= 1_000_000 {
        text::decimal(nanos / 1_000_000) + fraction(nanos % 1_000_000, 6) + "ms"@
    } else if nanos >= 1_000 {
        text::decimal(nanos / 1_000) + fraction(nanos % 1_000, 3) + "\u{b5}s"@
    } else {
        text::decimal(nanos) + "ns"@
    }
}

fn digit_char(d: u64) -> (c: char)
    requires
        d < 10,
    ensures
        c == text::digit_of(d as nat),
{
    (48 + d as u8) as char
}

fn padded_text(n: u64, width: u32) -> (r: String)
    ensures
        r@ == padded(n as nat, width as nat),
    decreases width,
{
    if width == 0 {
        return String::new();
    }
    let mut r = padded_text(n / 10, width - 1);
    r.push(digit_char(n % 10));
    r
}

fn fraction_text(n: u64, width: u32) -> (r: String)
    ensures
        r@ == fraction(n as nat, width as nat),
    decreases width,
{
    if width == 0 {
        String::new()
    } else if n % 10 == 0 {
        fraction_text(n / 10, width - 1)
    } else {
        ".".to_owned().concat(padded_text(n, width).as_str())
    }
}

impl Duration {
    /// The span in its largest unit that is not below one, such as `25ms`.
    pub fn to_string(&self) -> (r: String)
        ensures
            r@ == duration_text(self@),
    {
        let secs: u64 = self.as_secs();
        let nanos: u64 = self.subsec_nanos() as u64;
        if secs > 0 {
            text::decimal_of(secs).concat(fraction_text(nanos, 9).as_str()).concat("s")
        } else if nanos >= 1_000_000 {
            text::decimal_of(nanos / 1_000_000).concat(
                fraction_text(nanos % 1_000_000, 6).as_str(),
            ).concat("ms")
        } else if nanos >= 1_000 {
            text::decimal_of(nanos / 1_000).concat(
                fraction_text(nanos % 1_000, 3).as_str(),
            ).concat("\u{b5}s")
        } else {
            text::decimal_of(nanos).concat("ns")
        }
    }
}

} // verus!
