//! Permission-mode normalization for the `chmod` field of a configured
//! kind. A YAML integer such as `755` is usually a human spelling an octal
//! mode in decimal digits; the loader reinterprets such spellings while
//! leaving values that are already plausible modes untouched.

use vstd::prelude::*;

verus! {

/// True when every decimal digit of `v` is at most 7, so that the decimal
/// spelling of `v` also reads as an octal numeral.
pub open spec fn all_digits_octal(v: nat) -> bool
    decreases v,
{
    if v < 10 {
        v <= 7
    } else {
        v % 10 <= 7 && all_digits_octal(v / 10)
    }
}

/// The value obtained by reading the decimal digit string of `v` as an
/// octal numeral (e.g. the digits of 755 read in base 8 give 493).
pub open spec fn octal_reinterp(v: nat) -> nat
    decreases v,
{
    if v < 10 {
        v
    } else {
        octal_reinterp(v / 10) * 8 + v % 10
    }
}

/// The effective mode for a raw configured `chmod` integer `v`, applied in
/// this order: a handful of common octal spellings are reinterpreted as
/// octal; a value that already fits in `0..=0o777` passes through; any
/// other value whose decimal digits are all octal is read as octal; and
/// everything else is kept unchanged.
pub open spec fn spec_interpret_chmod(v: u32) -> u32 {
    if v == 600 {
        0o600
    } else if v == 644 {
        0o644
    } else if v == 664 {
        0o664
    } else if v == 700 {
        0o700
    } else if v == 744 {
        0o744
    } else if v == 755 {
        0o755
    } else if v == 775 {
        0o775
    } else if v == 777 {
        0o777
    } else if v <= 0o777 {
        v
    } else if all_digits_octal(v as nat) {
        octal_reinterp(v as nat) as u32
    } else {
        v
    }
}

/// Reading decimal digits as octal never increases the value.
proof fn lemma_octal_reinterp_le(v: nat)
    ensures
        octal_reinterp(v) <= v,
    decreases v,
{
    if v < 10 {
    } else {
        lemma_octal_reinterp_le(v / 10);
        assert(octal_reinterp(v / 10) * 8 <= (v / 10) * 8) by (nonlinear_arith)
            requires
                octal_reinterp(v / 10) <= v / 10,
        ;
        assert((v / 10) * 8 + v % 10 <= v) by (nonlinear_arith);
    }
}

/// A positive value keeps a positive octal reinterpretation.
proof fn lemma_octal_reinterp_pos(v: nat)
    ensures
        v >= 1 ==> octal_reinterp(v) >= 1,
    decreases v,
{
    if v < 10 {
    } else {
        lemma_octal_reinterp_pos(v / 10);
    }
}

/// Normalize a raw configured `chmod` integer into an effective mode.
pub fn interpret_chmod_value(value: u32) -> (m: u32)
    ensures
        m == spec_interpret_chmod(value),
{
    if value == 600 {
        return 0o600;
    }
    if value == 644 {
        return 0o644;
    }
    if value == 664 {
        return 0o664;
    }
    if value == 700 {
        return 0o700;
    }
    if value == 744 {
        return 0o744;
    }
    if value == 755 {
        return 0o755;
    }
    if value == 775 {
        return 0o775;
    }
    if value == 777 {
        return 0o777;
    }
    if value <= 0o777 {
        return value;
    }
    // Scan the decimal digits from the least significant end, rejecting the
    // reinterpretation as soon as a digit above 7 appears.
    let mut rest: u32 = value;
    let mut acc: u32 = 0;
    let mut pow: u32 = 1;
    while rest > 0
        invariant
            spec_interpret_chmod(value) == (if all_digits_octal(value as nat) {
                octal_reinterp(value as nat) as u32
            } else {
                value
            }),
            all_digits_octal(value as nat) == all_digits_octal(rest as nat),
            octal_reinterp(value as nat) == octal_reinterp(rest as nat) * pow + acc,
            pow >= 1,
        decreases rest,
    {
        let d = rest % 10;
        if d > 7 {
            proof {
                assert(!all_digits_octal(rest as nat));
            }
            return value;
        }
        let ghost pr: nat = rest as nat;
        let ghost pa: nat = acc as nat;
        let ghost pp: nat = pow as nat;
        proof {
            lemma_octal_reinterp_le(value as nat);
            // the scanned digit never pushes the accumulator past the value
            assert(octal_reinterp(pr) >= d as nat);
            assert((d as nat) * pp <= octal_reinterp(pr) * pp) by (nonlinear_arith)
                requires
                    octal_reinterp(pr) >= d as nat,
                    pp >= 1,
            ;
        }
        acc = acc + d * pow;
        rest = rest / 10;
        if rest > 0 {
            proof {
                lemma_octal_reinterp_pos(rest as nat);
                assert(pr >= 10) by {
                    if pr < 10 {
                        assert(rest as nat == pr / 10);
                        assert(pr / 10 == 0);
                    }
                };
                assert(octal_reinterp(pr) == octal_reinterp(pr / 10) * 8 + pr % 10);
                assert(octal_reinterp(pr) * pp == octal_reinterp(pr / 10) * (pp * 8) + (pr % 10)
                    * pp) by (nonlinear_arith)
                    requires
                        octal_reinterp(pr) == octal_reinterp(pr / 10) * 8 + pr % 10,
                ;
                assert(pp * 8 <= octal_reinterp(pr / 10) * (pp * 8)) by (nonlinear_arith)
                    requires
                        octal_reinterp(pr / 10) >= 1,
                        pp >= 1,
                ;
                assert(octal_reinterp(rest as nat) == octal_reinterp(pr / 10));
                assert(octal_reinterp(value as nat) == octal_reinterp(rest as nat) * (pp * 8) + (
                pa + (d as nat) * pp));
            }
            pow = pow * 8;
        } else {
            proof {
                assert(pr < 10) by {
                    if pr >= 10 {
                        assert(pr / 10 >= 1) by (nonlinear_arith)
                            requires
                                pr >= 10,
                        ;
                    }
                };
                assert(pr % 10 == pr);
                assert(octal_reinterp(pr) == pr);
                assert(octal_reinterp(0nat) == 0);
                assert(octal_reinterp(value as nat) == octal_reinterp(pr) * pp + pa);
                assert(octal_reinterp(pr) * pp == (d as nat) * pp);
                assert(octal_reinterp(rest as nat) == 0);
                assert(octal_reinterp(rest as nat) * pp == 0) by (nonlinear_arith)
                    requires
                        octal_reinterp(rest as nat) == 0,
                ;
                assert(octal_reinterp(value as nat) == octal_reinterp(rest as nat) * pp + (pa + (
                d as nat) * pp));
            }
        }
    }
    proof {
        lemma_octal_reinterp_le(value as nat);
        assert(all_digits_octal(0nat));
        assert(octal_reinterp(rest as nat) == 0);
        assert(octal_reinterp(rest as nat) * pow == 0) by (nonlinear_arith)
            requires
                octal_reinterp(rest as nat) == 0,
        ;
        assert(octal_reinterp(value as nat) == acc as nat);
    }
    acc
}

/// Normalization is idempotent on every raw value whose normal form either
/// fits in `0..=0o777` or has a decimal digit above 7; a second pass then
/// leaves the normalized mode unchanged.
pub proof fn lemma_interpret_chmod_idempotent(v: u32)
    requires
        spec_interpret_chmod(v) <= 0o777 || !all_digits_octal(spec_interpret_chmod(v) as nat),
    ensures
        spec_interpret_chmod(spec_interpret_chmod(v)) == spec_interpret_chmod(v),
{
    let w = spec_interpret_chmod(v);
    if w <= 0o777 {
        assert(w < 600);
    } else {
        reveal_with_fuel(all_digits_octal, 4);
        assert(all_digits_octal(600));
        assert(all_digits_octal(644));
        assert(all_digits_octal(664));
        assert(all_digits_octal(700));
        assert(all_digits_octal(744));
        assert(all_digits_octal(755));
        assert(all_digits_octal(775));
        assert(all_digits_octal(777));
    }
}

} // verus!
