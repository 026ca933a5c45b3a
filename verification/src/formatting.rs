//! Rendering of fixed-point scalars as display strings.
//!
//! A scalar is an `i64` counting hundredths of a unit.  A [`ValueFormat`]
//! describes how such a scalar becomes text: how many decimal places to
//! keep (at most two), a minimum width to zero-pad to, and whether to
//! append a percent sign.  Rounding to fewer decimal places is half away
//! from zero.

use vstd::prelude::*;

verus! {

/// A closed description of how a scalar is turned into a display string.
///
/// It stands in for a user-supplied formatting function: every formatter of
/// the engine is one of these values, applied with [`ValueFormat::render`].
#[derive(Clone, Copy, Debug, PartialEq, Eq, Structural)]
pub struct ValueFormat {
    /// Number of decimal places kept; values above 2 mean 2.
    pub decimals: u8,
    /// Minimum width of the result, reached by prepending `'0'` characters
    /// before any sign; 0 means no padding.
    pub pad_width: u8,
    /// Whether a `'%'` is appended after any padding.
    pub percent: bool,
}

/// The decimal digit `d` as a character, for `0 <= d <= 9`.
pub open spec fn digit_char(d: int) -> char {
    if d == 0 {
        '0'
    } else if d == 1 {
        '1'
    } else if d == 2 {
        '2'
    } else if d == 3 {
        '3'
    } else if d == 4 {
        '4'
    } else if d == 5 {
        '5'
    } else if d == 6 {
        '6'
    } else if d == 7 {
        '7'
    } else if d == 8 {
        '8'
    } else {
        '9'
    }
}

/// The decimal digits of `n`, most significant first, without sign and
/// without leading zeros (except for `n == 0`, which is the single digit 0).
pub open spec fn dec_digits(n: nat) -> Seq<char>
    decreases n,
{
    if n < 10 {
        seq![digit_char(n as int)]
    } else {
        dec_digits(n / 10) + seq![digit_char((n % 10) as int)]
    }
}

/// `n` zero characters; empty for `n <= 0`.
pub open spec fn zeros(n: int) -> Seq<char>
    decreases n,
{
    if n <= 0 {
        Seq::empty()
    } else {
        zeros(n - 1).push('0')
    }
}

/// The effective number of decimal places of `f`: its `decimals`, capped at
/// the two places a scalar carries.
pub open spec fn eff_decimals(f: ValueFormat) -> int {
    if f.decimals >= 2 {
        2
    } else {
        f.decimals as int
    }
}

/// The exact character sequence that [`ValueFormat::render`] produces for
/// the scalar `v` (in hundredths) under format `f`.
pub open spec fn format_chars(v: int, f: ValueFormat) -> Seq<char> {
    let body = format_body(v, f);
    let padded = zeros(f.pad_width - body.len()) + body;
    if f.percent {
        padded.push('%')
    } else {
        padded
    }
}

/// The decimal digit `d` as a one-character string slice.
fn digit_str(d: u64) -> (r: &'static str)
    requires
        d < 10,
    ensures
        r@ == seq![digit_char(d as int)],
{
    if d == 0 {
        proof {
            reveal_strlit("0");
        }
        "0"
    } else if d == 1 {
        proof {
            reveal_strlit("1");
        }
        "1"
    } else if d == 2 {
        proof {
            reveal_strlit("2");
        }
        "2"
    } else if d == 3 {
        proof {
            reveal_strlit("3");
        }
        "3"
    } else if d == 4 {
        proof {
            reveal_strlit("4");
        }
        "4"
    } else if d == 5 {
        proof {
            reveal_strlit("5");
        }
        "5"
    } else if d == 6 {
        proof {
            reveal_strlit("6");
        }
        "6"
    } else if d == 7 {
        proof {
            reveal_strlit("7");
        }
        "7"
    } else if d == 8 {
        proof {
            reveal_strlit("8");
        }
        "8"
    } else {
        proof {
            reveal_strlit("9");
        }
        "9"
    }
}

/// Appends the decimal digits of `n` to `s`.
fn push_digits(s: &mut String, n: u64)
    ensures
        final(s)@ == old(s)@ + dec_digits(n as nat),
    decreases n,
{
    if n >= 10 {
        push_digits(s, n / 10);
        s.append(digit_str(n % 10));
        assert(final(s)@ =~= old(s)@ + dec_digits(n as nat));
    } else {
        s.append(digit_str(n));
        assert(final(s)@ =~= old(s)@ + dec_digits(n as nat));
    }
}

impl ValueFormat {
    /// A format with the given decimal places, padding and percent flag.
    pub fn new(decimals: u8, pad_width: u8, percent: bool) -> (r: ValueFormat)
        ensures
            r == (ValueFormat { decimals, pad_width, percent }),
    {
        ValueFormat { decimals, pad_width, percent }
    }

    /// Renders the scalar `v` (in hundredths of a unit) under this format.
    pub fn render(&self, v: i64) -> (r: String)
        ensures
            r@ == format_chars(v as int, *self),
    {
        let neg = v < 0;
        let mag: u64 = if neg {
            (-(v as i128)) as u64
        } else {
            v as u64
        };
        let d: u8 = if self.decimals >= 2 {
            2
        } else {
            self.decimals
        };
        let m: u64 = if d == 0 {
            100
        } else if d == 1 {
            10
        } else {
            1
        };
        let p: u64 = if d == 0 {
            1
        } else if d == 1 {
            10
        } else {
            100
        };
        let q: u64 = (mag + m / 2) / m;
        let whole: u64 = q / p;
        let frac: u64 = q % p;
        let mut s = String::new();
        if neg {
            proof {
                reveal_strlit("-");
            }
            s.append("-");
        }
        push_digits(&mut s, whole);
        if d > 0 {
            proof {
                reveal_strlit(".");
                reveal_strlit("0");
            }
            s.append(".");
            if d == 2 && frac < 10 {
                s.append("0");
            }
            push_digits(&mut s, frac);
        }
        proof {
            assert(s@ =~= format_body(v as int, *self));
        }
        let len = s.unicode_len();
        let target = self.pad_width as usize;
        if len < target {
            let mut padded = String::new();
            let mut k: usize = len;
            while k < target
                invariant
                    len <= k <= target,
                    padded@ == zeros(k - len),
                decreases target - k,
            {
                proof {
                    reveal_strlit("0");
                }
                padded.append("0");
                assert(padded@ =~= zeros(k + 1 - len));
                k = k + 1;
            }
            padded.append(s.as_str());
            s = padded;
        }
        assert(s@ =~= zeros(self.pad_width - format_body(v as int, *self).len()) + format_body(
            v as int,
            *self,
        ));
        if self.percent {
            proof {
                reveal_strlit("%");
            }
            s.append("%");
            assert(s@ =~= format_chars(v as int, *self));
        } else {
            assert(s@ =~= format_chars(v as int, *self));
        }
        s
    }
}

/// The unpadded part of [`format_chars`]: sign, whole digits and decimal
/// places, before padding and percent sign.
pub open spec fn format_body(v: int, f: ValueFormat) -> Seq<char> {
    let d = eff_decimals(f);
    let m = if d == 0 {
        100int
    } else if d == 1 {
        10int
    } else {
        1int
    };
    let p = if d == 0 {
        1int
    } else if d == 1 {
        10int
    } else {
        100int
    };
    let mag = if v < 0 {
        -v
    } else {
        v
    };
    let q = (mag + m / 2) / m;
    let whole = q / p;
    let frac = q % p;
    (if v < 0 {
        seq!['-']
    } else {
        Seq::<char>::empty()
    }) + dec_digits(whole as nat) + (if d > 0 {
        seq!['.'] + (if d == 2 && frac < 10 {
            seq!['0']
        } else {
            Seq::<char>::empty()
        }) + dec_digits(frac as nat)
    } else {
        Seq::<char>::empty()
    })
}

impl Default for ValueFormat {
    /// The default formatter: two decimal places, no padding, no percent.
    fn default() -> (r: ValueFormat)
        ensures
            r == (ValueFormat { decimals: 2, pad_width: 0, percent: false }),
    {
        ValueFormat { decimals: 2, pad_width: 0, percent: false }
    }
}

} // verus!
