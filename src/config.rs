//! Startup configuration: grid width, grid height and tick period, given as
//! up to three positional decimal values.

use vstd::prelude::*;
use vstd::string::StrSliceExecFns;

verus! {

/// Width used when none is given.
pub const DEFAULT_WIDTH: usize = 10;

/// Height used when none is given.
pub const DEFAULT_HEIGHT: usize = 10;

/// Tick period, in milliseconds, used when none is given.
pub const DEFAULT_PERIOD_MS: u64 = 10;

/// Why a configuration was refused.
#[derive(Debug, Clone, Copy, PartialEq, Eq, Structural)]
pub enum ConfigError {
    /// The width is not a positive decimal integer.
    Width,
    /// The height is not a positive decimal integer.
    Height,
    /// The period is not a decimal integer.
    Period,
    /// The grid has more cells than can be addressed.
    TooLarge,
}

pub open spec fn is_digit(c: char) -> bool {
    '0' <= c && c <= '9'
}

/// The value of a string of decimal digits.
pub open spec fn decimal_value(s: Seq<char>) -> int
    decreases s.len(),
{
    if s.len() == 0 {
        0
    } else {
        decimal_value(s.drop_last()) * 10 + (s.last() as int - '0' as int)
    }
}

/// The number that `s` writes: one or more decimal digits whose value fits in
/// a `u64`.
pub open spec fn parsed(s: Seq<char>) -> Option<int> {
    if s.len() > 0 && (forall|i: int| 0 <= i < s.len() ==> is_digit(#[trigger] s[i]))
        && decimal_value(s) <= u64::MAX {
        Some(decimal_value(s))
    } else {
        None
    }
}

/// Positional value `i` of `args`, or `default` where there is none.
pub open spec fn arg_or(args: Seq<String>, i: int, default: int) -> Option<int> {
    if i < args.len() {
        parsed(args[i]@)
    } else {
        Some(default)
    }
}

/// The width, height and period that `args` give, or why they are refused:
/// the first of width, height and period that is missing a valid value, then
/// a grid whose cell count does not fit in a `usize`.
pub open spec fn config_of(args: Seq<String>) -> Result<(int, int, int), ConfigError> {
    let w = arg_or(args, 0, DEFAULT_WIDTH as int);
    let h = arg_or(args, 1, DEFAULT_HEIGHT as int);
    let p = arg_or(args, 2, DEFAULT_PERIOD_MS as int);
    if !(w is Some && w->0 > 0) {
        Err(ConfigError::Width)
    } else if !(h is Some && h->0 > 0) {
        Err(ConfigError::Height)
    } else if p is None {
        Err(ConfigError::Period)
    } else if w->0 * h->0 > usize::MAX {
        Err(ConfigError::TooLarge)
    } else {
        Ok((w->0, h->0, p->0))
    }
}

proof fn lemma_decimal_prefix(s: Seq<char>, k: int)
    requires
        0 <= k <= s.len(),
        forall|i: int| 0 <= i < s.len() ==> is_digit(#[trigger] s[i]),
    ensures
        0 <= decimal_value(s.subrange(0, k)) <= decimal_value(s),
    decreases s.len(),
{
    if k == s.len() {
        assert(s.subrange(0, k) =~= s);
        lemma_decimal_nonneg(s);
    } else {
        let t = s.drop_last();
        assert(t.subrange(0, k) =~= s.subrange(0, k));
        lemma_decimal_prefix(t, k);
    }
}

proof fn lemma_decimal_nonneg(s: Seq<char>)
    requires
        forall|i: int| 0 <= i < s.len() ==> is_digit(#[trigger] s[i]),
    ensures
        decimal_value(s) >= 0,
    decreases s.len(),
{
    if s.len() > 0 {
        lemma_decimal_nonneg(s.drop_last());
    }
}

/// Reads `s` as a decimal number: one or more ASCII digits, no sign, whose
/// value fits in a `u64`.
pub fn parse_decimal(s: &str) -> (r: Option<u64>)
    ensures
        r matches Some(v) ==> parsed(s@) == Some(v as int),
        r is None ==> parsed(s@) is None,
{
    let n = s.unicode_len();
    if n == 0 {
        return None;
    }
    let mut v: u64 = 0;
    let mut i: usize = 0;
    while i < n
        invariant
            n == s@.len(),
            i <= n,
            v == decimal_value(s@.subrange(0, i as int)),
            forall|j: int| 0 <= j < i ==> is_digit(#[trigger] s@[j]),
        decreases n - i,
    {
        let c = s.get_char(i);
        if !('0' <= c && c <= '9') {
            return None;
        }
        let d = (c as u32 - '0' as u32) as u64;
        assert(s@.subrange(0, i + 1).drop_last() =~= s@.subrange(0, i as int));
        if v > (u64::MAX - d) / 10 {
            proof {
                assert(v * 10 + d > u64::MAX) by (nonlinear_arith)
                    requires
                        v > (u64::MAX - d) / 10,
                        d <= 9,
                ;
                if forall|j: int| 0 <= j < s@.len() ==> is_digit(#[trigger] s@[j]) {
                    lemma_decimal_prefix(s@, i + 1);
                }
            }
            return None;
        }
        assert(v * 10 + d <= u64::MAX) by (nonlinear_arith)
            requires
                v <= (u64::MAX - d) / 10,
                d <= 9,
        ;
        v = v * 10 + d;
        i = i + 1;
    }
    assert(s@.subrange(0, n as int) =~= s@);
    Some(v)
}

/// A checked startup configuration.
pub struct Config {
    width: usize,
    height: usize,
    period_ms: u64,
}

impl Config {
    pub closed spec fn view(&self) -> (int, int, int) {
        (self.width as int, self.height as int, self.period_ms as int)
    }

    /// Reads width, height and period from `args`, in that order; a value
    /// that is not there takes its default. Width and height must be
    /// positive and their product must fit in a `usize`.
    pub fn from_args(args: &Vec<String>) -> (r: Result<Config, ConfigError>)
        ensures
            r matches Ok(c) ==> config_of(args@) == Ok::<(int, int, int), ConfigError>(c@),
            r matches Err(e) ==> config_of(args@) == Err::<(int, int, int), ConfigError>(e),
    {
        let width: u64 = if args.len() > 0 {
            match parse_decimal(args[0].as_str()) {
                Some(v) => v,
                None => return Err(ConfigError::Width),
            }
        } else {
            DEFAULT_WIDTH as u64
        };
        if width == 0 {
            return Err(ConfigError::Width);
        }
        let height: u64 = if args.len() > 1 {
            match parse_decimal(args[1].as_str()) {
                Some(v) => v,
                None => return Err(ConfigError::Height),
            }
        } else {
            DEFAULT_HEIGHT as u64
        };
        if height == 0 {
            return Err(ConfigError::Height);
        }
        let period_ms: u64 = if args.len() > 2 {
            match parse_decimal(args[2].as_str()) {
                Some(v) => v,
                None => return Err(ConfigError::Period),
            }
        } else {
            DEFAULT_PERIOD_MS
        };
        if width > usize::MAX as u64 || height > usize::MAX as u64 {
            proof {
                assert(width * height > usize::MAX) by (nonlinear_arith)
                    requires
                        width > usize::MAX || height > usize::MAX,
                        width > 0,
                        height > 0,
                ;
            }
            return Err(ConfigError::TooLarge);
        }
        let w = width as usize;
        let h = height as usize;
        if w > usize::MAX / h {
            proof {
                assert(w * h > usize::MAX) by (nonlinear_arith)
                    requires
                        w > usize::MAX / h,
                        h > 0,
                ;
            }
            return Err(ConfigError::TooLarge);
        }
        proof {
            assert(w * h <= usize::MAX) by (nonlinear_arith)
                requires
                    w <= usize::MAX / h,
                    h > 0,
            ;
        }
        Ok(Config { width: w, height: h, period_ms })
    }

    /// The grid width.
    pub fn width(&self) -> (r: usize)
        ensures
            r == self@.0,
    {
        self.width
    }

    /// The grid height.
    pub fn height(&self) -> (r: usize)
        ensures
            r == self@.1,
    {
        self.height
    }

    /// The tick period, in milliseconds.
    pub fn period_ms(&self) -> (r: u64)
        ensures
            r == self@.2,
    {
        self.period_ms
    }
}

} // verus!
