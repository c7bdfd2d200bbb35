//! The command-line surface at its interface to the core: the parsed flag
//! values, tilde expansion of the configuration path, and octal parsing
//! of the mode override. Argument tokenization itself happens outside the
//! library.

use vstd::prelude::*;
use crate::errors::TmpError;

verus! {

/// The values the driver hands the core for one invocation.
#[derive(Debug)]
pub struct Cli {
    /// Configuration path, possibly starting with `~`.
    pub config: String,
    /// Only print the resolved content; touch nothing.
    pub nerf: bool,
    /// Delete the derived filename instead of creating it.
    pub rm: bool,
    /// Mode override for the write action, as an octal string.
    pub chmod: Option<String>,
    /// The selected kind name.
    pub kind: String,
    /// Optional filename hint.
    pub name: Option<String>,
}

/// A path starting with `~` has it replaced by the home directory.
pub open spec fn spec_expanded_path(path: Seq<char>, home: Seq<char>) -> Seq<char> {
    if path.len() >= 1 && path[0] == '~' {
        home + path.skip(1)
    } else {
        path
    }
}

/// Expand a leading `~` in a path against the home directory.
pub fn expand_tilde(path: &str, home: &str) -> (r: String)
    ensures
        r@ == spec_expanded_path(path@, home@),
{
    let n = path.unicode_len();
    if n >= 1 && path.get_char(0) == '~' {
        let rest = path.substring_char(1, n);
        String::from_str(home).concat(rest)
    } else {
        String::from_str(path)
    }
}

/// `c` is one of the digits `0` through `7` (48 and 55 are their code
/// points).
pub open spec fn is_octal_digit(c: char) -> bool {
    48 <= c as u32 && c as u32 <= 55
}

/// The numeric value of an octal digit character.
pub open spec fn octal_digit_val(c: char) -> nat
    recommends
        is_octal_digit(c),
{
    (c as u32 - 48) as nat
}

/// Every character of `s` is an octal digit.
pub open spec fn all_octal_digits(s: Seq<char>) -> bool {
    forall|i: int| 0 <= i < s.len() ==> is_octal_digit(#[trigger] s[i])
}

/// The value of an octal digit string.
pub open spec fn spec_octal_value(s: Seq<char>) -> nat
    decreases s.len(),
{
    if s.len() == 0 {
        0
    } else {
        spec_octal_value(s.drop_last()) * 8 + octal_digit_val(s.last())
    }
}

/// The digit part of a mode argument: one leading `+` is allowed.
pub open spec fn spec_mode_digits(s: Seq<char>) -> Seq<char> {
    if s.len() >= 1 && s[0] == '+' {
        s.skip(1)
    } else {
        s
    }
}

/// A well-formed octal mode argument: after the optional sign, at least
/// one digit, all octal, and a value that fits the mode's integer type.
pub open spec fn spec_mode_arg_valid(s: Seq<char>) -> bool {
    let d = spec_mode_digits(s);
    d.len() >= 1 && all_octal_digits(d) && spec_octal_value(d) <= u32::MAX
}

/// A prefix of a digit string never has a larger value than the whole.
proof fn lemma_octal_value_prefix_le(s: Seq<char>, k: int)
    requires
        0 <= k <= s.len(),
    ensures
        spec_octal_value(s.subrange(0, k)) <= spec_octal_value(s),
    decreases s.len() - k,
{
    if k == s.len() {
        assert(s.subrange(0, k) =~= s);
    } else {
        assert(s.subrange(0, k + 1).drop_last() =~= s.subrange(0, k));
        assert(s.subrange(0, k + 1).last() == s[k]);
        assert(spec_octal_value(s.subrange(0, k + 1)) == spec_octal_value(s.subrange(0, k)) * 8
            + octal_digit_val(s[k]));
        assert(spec_octal_value(s.subrange(0, k)) * 8 >= spec_octal_value(s.subrange(0, k)))
            by (nonlinear_arith);
        lemma_octal_value_prefix_le(s, k + 1);
    }
}

/// Parse a mode override string as an octal numeral, as the command line
/// interprets it.
pub fn parse_octal_mode(s: &str) -> (r: Result<u32, TmpError>)
    ensures
        match r {
            Ok(v) => spec_mode_arg_valid(s@) && v == spec_octal_value(spec_mode_digits(s@)),
            Err(e) => {
                &&& !spec_mode_arg_valid(s@)
                &&& (e matches TmpError::InvalidChmodArg { arg } && arg@ == s@)
            },
        },
{
    let ghost d = spec_mode_digits(s@);
    let n = s.unicode_len();
    let start: usize = if n >= 1 && s.get_char(0) == '+' {
        1
    } else {
        0
    };
    proof {
        if start == 1 {
            assert(d =~= s@.skip(1));
        } else {
            assert(d =~= s@);
        }
    }
    if start == n {
        return Err(TmpError::InvalidChmodArg { arg: String::from_str(s) });
    }
    let mut val: u32 = 0;
    let mut i: usize = start;
    proof {
        assert(d.subrange(0, 0) =~= Seq::<char>::empty());
    }
    while i < n
        invariant
            start <= i <= n,
            n == s@.len(),
            d == spec_mode_digits(s@),
            d.len() == n - start,
            forall|j: int| 0 <= j < d.len() ==> d[j] == s@[start + j],
            forall|j: int| 0 <= j < i - start ==> is_octal_digit(#[trigger] d[j]),
            val == spec_octal_value(d.subrange(0, i - start)),
        decreases n - i,
    {
        let c = s.get_char(i);
        let u = c as u32;
        if u < 48 || u > 55 {
            proof {
                assert(d[i - start] == s@[i as int]);
                assert(!is_octal_digit(d[i - start]));
            }
            return Err(TmpError::InvalidChmodArg { arg: String::from_str(s) });
        }
        let dv = u - 48;
        proof {
            let t = (i - start) as int;
            assert(d.subrange(0, t + 1).drop_last() =~= d.subrange(0, t));
            assert(d.subrange(0, t + 1).last() == d[t]);
            assert(spec_octal_value(d.subrange(0, t + 1)) == spec_octal_value(d.subrange(0, t)) * 8
                + octal_digit_val(d[t]));
        }
        if val > (u32::MAX - dv) / 8 {
            proof {
                let t = (i - start) as int;
                // the next partial value already exceeds the type's range
                assert(val * 8 + dv > u32::MAX) by (nonlinear_arith)
                    requires
                        val > (u32::MAX - dv) / 8,
                        dv <= u32::MAX,
                ;
                lemma_octal_value_prefix_le(d, t + 1);
            }
            return Err(TmpError::InvalidChmodArg { arg: String::from_str(s) });
        }
        proof {
            assert(val * 8 + dv <= u32::MAX) by (nonlinear_arith)
                requires
                    val <= (u32::MAX - dv) / 8,
                    dv <= u32::MAX,
            ;
        }
        val = val * 8 + dv;
        i = i + 1;
    }
    proof {
        assert(d.subrange(0, d.len() as int) =~= d);
    }
    Ok(val)
}

} // verus!
