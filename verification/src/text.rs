//! Character-sequence machinery shared by template resolution and filename
//! derivation: substring occurrence, single-pass replacement, and the
//! executable string helpers the rest of the library builds on.

use vstd::prelude::*;

verus! {

/// `pat` occurs in `s` starting at position `i`.
pub open spec fn occurs_at(s: Seq<char>, pat: Seq<char>, i: int) -> bool {
    0 <= i && i + pat.len() <= s.len() && s.subrange(i, i + pat.len() as int) == pat
}

/// `pat` occurs somewhere in `s`.
pub open spec fn contains_seq(s: Seq<char>, pat: Seq<char>) -> bool {
    exists|i: int| occurs_at(s, pat, i)
}

/// Left-to-right, non-overlapping replacement of `pat` by `rep` in `s` in a
/// single pass: text introduced by `rep` is not scanned again.
pub open spec fn spec_replaced(s: Seq<char>, pat: Seq<char>, rep: Seq<char>) -> Seq<char>
    decreases s.len(),
        when pat.len() >= 1
{
    if s.len() == 0 {
        s
    } else if pat.len() <= s.len() && s.subrange(0, pat.len() as int) == pat {
        rep + spec_replaced(s.skip(pat.len() as int), pat, rep)
    } else {
        seq![s[0]] + spec_replaced(s.skip(1), pat, rep)
    }
}

/// `t` is a suffix of `s`.
pub open spec fn spec_ends_with(s: Seq<char>, t: Seq<char>) -> bool {
    t.len() <= s.len() && s.skip(s.len() - t.len()) == t
}

/// No character of `body` occurs anywhere in `tok`.
pub open spec fn chars_disjoint(body: Seq<char>, tok: Seq<char>) -> bool {
    forall|i: int| 0 <= i < body.len() ==> !tok.contains(body[i])
}

/// An occurrence within a tail of `s` is an occurrence within `s`.
pub proof fn lemma_contains_skip(s: Seq<char>, pat: Seq<char>, k: int)
    requires
        0 <= k <= s.len(),
        contains_seq(s.skip(k), pat),
    ensures
        contains_seq(s, pat),
{
    let i = choose|i: int| occurs_at(s.skip(k), pat, i);
    assert(s.skip(k).subrange(i, i + pat.len() as int) =~= s.subrange(k + i, k + i
        + pat.len() as int));
    assert(occurs_at(s, pat, k + i));
}

/// A string with no occurrence of the pattern is left untouched by
/// replacement.
pub proof fn lemma_replaced_identity(s: Seq<char>, pat: Seq<char>, rep: Seq<char>)
    requires
        pat.len() >= 1,
        !contains_seq(s, pat),
    ensures
        spec_replaced(s, pat, rep) == s,
    decreases s.len(),
{
    if s.len() == 0 {
    } else {
        assert(!occurs_at(s, pat, 0));
        if contains_seq(s.skip(1), pat) {
            lemma_contains_skip(s, pat, 1);
        }
        lemma_replaced_identity(s.skip(1), pat, rep);
        assert(seq![s[0]] + s.skip(1) =~= s);
    }
}

/// If the replaced string starts with `x`, and no character of `rep`
/// occurs in `x`, the input string already started with `x`.
proof fn lemma_replaced_prefix_transfer(s: Seq<char>, pat: Seq<char>, rep: Seq<char>, x: Seq<char>)
    requires
        pat.len() >= 1,
        rep.len() >= 1,
        chars_disjoint(rep, x),
        x.len() <= spec_replaced(s, pat, rep).len(),
        spec_replaced(s, pat, rep).subrange(0, x.len() as int) == x,
    ensures
        x.len() <= s.len(),
        s.subrange(0, x.len() as int) == x,
    decreases s.len(),
{
    let r = spec_replaced(s, pat, rep);
    if x.len() == 0 {
        assert(s.subrange(0, 0) =~= x);
    } else if s.len() == 0 {
        // replacement of the empty string is empty, so x cannot be a prefix
        assert(false);
    } else if pat.len() <= s.len() && s.subrange(0, pat.len() as int) == pat {
        // the result starts with rep, whose first character is not in x
        assert(r[0] == rep[0]);
        assert(x[0] == r.subrange(0, x.len() as int)[0]);
        assert(x.contains(rep[0]));
        assert(false);
    } else {
        assert(r[0] == s[0]);
        assert(x[0] == r[0]);
        let rr = spec_replaced(s.skip(1), pat, rep);
        assert(x.skip(1).len() <= rr.len());
        assert(rr.subrange(0, x.skip(1).len() as int) =~= x.skip(1)) by {
            assert forall|j: int| 0 <= j < x.len() - 1 implies rr[j] == x.skip(1)[j] by {
                assert(r[j + 1] == rr[j]);
                assert(r.subrange(0, x.len() as int)[j + 1] == r[j + 1]);
            }
        }
        assert(chars_disjoint(rep, x.skip(1))) by {
            assert forall|i: int| 0 <= i < rep.len() implies !x.skip(1).contains(rep[i]) by {
                if x.skip(1).contains(rep[i]) {
                    let j = choose|j: int| 0 <= j < x.skip(1).len() && x.skip(1)[j] == rep[i];
                    assert(x[j + 1] == rep[i]);
                    assert(x.contains(rep[i]));
                }
            }
        }
        lemma_replaced_prefix_transfer(s.skip(1), pat, rep, x.skip(1));
        assert(s.subrange(0, x.len() as int) =~= x) by {
            assert forall|j: int| 0 <= j < x.len() implies s[j] == x[j] by {
                if j > 0 {
                    assert(s.skip(1).subrange(0, x.skip(1).len() as int)[j - 1] == x.skip(1)[j
                        - 1]);
                    assert(s.skip(1)[j - 1] == s[j]);
                }
            }
        }
    }
}

/// Replacement removes every occurrence of the pattern, provided the
/// replacement text is nonempty and shares no character with the pattern.
pub proof fn lemma_replaced_no_pattern(s: Seq<char>, pat: Seq<char>, rep: Seq<char>)
    requires
        pat.len() >= 1,
        rep.len() >= 1,
        chars_disjoint(rep, pat),
    ensures
        !contains_seq(spec_replaced(s, pat, rep), pat),
    decreases s.len(),
{
    let r = spec_replaced(s, pat, rep);
    if s.len() == 0 {
        assert forall|i: int| !occurs_at(r, pat, i) by {}
    } else if pat.len() <= s.len() && s.subrange(0, pat.len() as int) == pat {
        let rr = spec_replaced(s.skip(pat.len() as int), pat, rep);
        lemma_replaced_no_pattern(s.skip(pat.len() as int), pat, rep);
        assert forall|i: int| !occurs_at(r, pat, i) by {
            if occurs_at(r, pat, i) {
                if i < rep.len() {
                    assert(r.subrange(i, i + pat.len() as int)[0] == r[i]);
                    assert(r[i] == rep[i]);
                    assert(pat.contains(rep[i])) by {
                        assert(pat[0] == rep[i]);
                    }
                } else {
                    assert(r.subrange(i, i + pat.len() as int) =~= rr.subrange(
                        i - rep.len(),
                        i - rep.len() + pat.len() as int,
                    ));
                    assert(occurs_at(rr, pat, i - rep.len()));
                }
            }
        }
    } else {
        let rr = spec_replaced(s.skip(1), pat, rep);
        lemma_replaced_no_pattern(s.skip(1), pat, rep);
        assert forall|i: int| !occurs_at(r, pat, i) by {
            if occurs_at(r, pat, i) {
                if i >= 1 {
                    assert(r.subrange(i, i + pat.len() as int) =~= rr.subrange(
                        i - 1,
                        i - 1 + pat.len() as int,
                    ));
                    assert(occurs_at(rr, pat, i - 1));
                } else {
                    // the result would start with pat, so s would too
                    assert(r.subrange(0, pat.len() as int) == pat);
                    if pat.len() == 1 {
                        assert(s[0] == r[0]);
                        assert(r.subrange(0, 1)[0] == r[0]);
                        assert(s.subrange(0, 1) =~= pat);
                    } else {
                        assert(rr.subrange(0, pat.skip(1).len() as int) =~= pat.skip(1)) by {
                            assert forall|j: int| 0 <= j < pat.len() - 1 implies rr[j] == pat.skip(
                                1,
                            )[j] by {
                                assert(r[j + 1] == rr[j]);
                                assert(r.subrange(0, pat.len() as int)[j + 1] == r[j + 1]);
                            }
                        }
                        assert(chars_disjoint(rep, pat.skip(1))) by {
                            assert forall|k: int| 0 <= k < rep.len() implies !pat.skip(1).contains(
                                rep[k],
                            ) by {
                                if pat.skip(1).contains(rep[k]) {
                                    let j = choose|j: int|
                                        0 <= j < pat.skip(1).len() && pat.skip(1)[j] == rep[k];
                                    assert(pat[j + 1] == rep[k]);
                                    assert(pat.contains(rep[k]));
                                }
                            }
                        }
                        lemma_replaced_prefix_transfer(s.skip(1), pat, rep, pat.skip(1));
                        assert(s.subrange(0, pat.len() as int) =~= pat) by {
                            assert(s[0] == r[0]);
                            assert(r.subrange(0, pat.len() as int)[0] == r[0]);
                            assert forall|j: int| 0 <= j < pat.len() implies s[j] == pat[j] by {
                                if j > 0 {
                                    assert(s.skip(1).subrange(0, pat.skip(1).len() as int)[j - 1]
                                        == pat.skip(1)[j - 1]);
                                    assert(s.skip(1)[j - 1] == s[j]);
                                }
                            }
                        }
                        assert(pat.len() <= s.len());
                        assert(false);
                    }
                }
            }
        }
    }
}

/// Replacement with a nonempty body sharing no character with `other`
/// cannot introduce an occurrence of `other`.
pub proof fn lemma_replaced_preserves_absence(
    s: Seq<char>,
    pat: Seq<char>,
    rep: Seq<char>,
    other: Seq<char>,
)
    requires
        pat.len() >= 1,
        rep.len() >= 1,
        other.len() >= 1,
        chars_disjoint(rep, other),
        !contains_seq(s, other),
    ensures
        !contains_seq(spec_replaced(s, pat, rep), other),
    decreases s.len(),
{
    let r = spec_replaced(s, pat, rep);
    if s.len() == 0 {
        assert forall|i: int| !occurs_at(r, other, i) by {}
    } else if pat.len() <= s.len() && s.subrange(0, pat.len() as int) == pat {
        let rr = spec_replaced(s.skip(pat.len() as int), pat, rep);
        if contains_seq(s.skip(pat.len() as int), other) {
            lemma_contains_skip(s, other, pat.len() as int);
        }
        lemma_replaced_preserves_absence(s.skip(pat.len() as int), pat, rep, other);
        assert forall|i: int| !occurs_at(r, other, i) by {
            if occurs_at(r, other, i) {
                if i < rep.len() {
                    assert(r.subrange(i, i + other.len() as int)[0] == r[i]);
                    assert(r[i] == rep[i]);
                    assert(other.contains(rep[i])) by {
                        assert(other[0] == rep[i]);
                    }
                } else {
                    assert(r.subrange(i, i + other.len() as int) =~= rr.subrange(
                        i - rep.len(),
                        i - rep.len() + other.len() as int,
                    ));
                    assert(occurs_at(rr, other, i - rep.len()));
                }
            }
        }
    } else {
        let rr = spec_replaced(s.skip(1), pat, rep);
        if contains_seq(s.skip(1), other) {
            lemma_contains_skip(s, other, 1);
        }
        lemma_replaced_preserves_absence(s.skip(1), pat, rep, other);
        assert forall|i: int| !occurs_at(r, other, i) by {
            if occurs_at(r, other, i) {
                if i >= 1 {
                    assert(r.subrange(i, i + other.len() as int) =~= rr.subrange(
                        i - 1,
                        i - 1 + other.len() as int,
                    ));
                    assert(occurs_at(rr, other, i - 1));
                } else {
                    assert(r.subrange(0, other.len() as int) == other);
                    if other.len() == 1 {
                        assert(s[0] == r[0]);
                        assert(r.subrange(0, 1)[0] == r[0]);
                        assert(s.subrange(0, 1) =~= other);
                        assert(occurs_at(s, other, 0));
                    } else {
                        assert(rr.subrange(0, other.skip(1).len() as int) =~= other.skip(1)) by {
                            assert forall|j: int| 0 <= j < other.len() - 1 implies rr[j]
                                == other.skip(1)[j] by {
                                assert(r[j + 1] == rr[j]);
                                assert(r.subrange(0, other.len() as int)[j + 1] == r[j + 1]);
                            }
                        }
                        assert(chars_disjoint(rep, other.skip(1))) by {
                            assert forall|k: int| 0 <= k < rep.len() implies !other.skip(
                                1,
                            ).contains(rep[k]) by {
                                if other.skip(1).contains(rep[k]) {
                                    let j = choose|j: int|
                                        0 <= j < other.skip(1).len() && other.skip(1)[j] == rep[k];
                                    assert(other[j + 1] == rep[k]);
                                    assert(other.contains(rep[k]));
                                }
                            }
                        }
                        lemma_replaced_prefix_transfer(s.skip(1), pat, rep, other.skip(1));
                        assert(s.subrange(0, other.len() as int) =~= other) by {
                            assert(s[0] == r[0]);
                            assert(r.subrange(0, other.len() as int)[0] == r[0]);
                            assert forall|j: int| 0 <= j < other.len() implies s[j] == other[j] by {
                                if j > 0 {
                                    assert(s.skip(1).subrange(0, other.skip(1).len() as int)[j - 1]
                                        == other.skip(1)[j - 1]);
                                    assert(s.skip(1)[j - 1] == s[j]);
                                }
                            }
                        }
                        assert(occurs_at(s, other, 0));
                    }
                }
            }
        }
    }
}

/// Executable string equality over the character views.
pub fn str_eq(a: &str, b: &str) -> (r: bool)
    ensures
        r == (a@ == b@),
{
    let n = a.unicode_len();
    if n != b.unicode_len() {
        return false;
    }
    let mut i: usize = 0;
    while i < n
        invariant
            i <= n,
            n == a@.len(),
            n == b@.len(),
            forall|j: int| 0 <= j < i ==> a@[j] == b@[j],
        decreases n - i,
    {
        if a.get_char(i) != b.get_char(i) {
            return false;
        }
        i = i + 1;
    }
    proof {
        assert(a@ =~= b@);
    }
    true
}

/// Does `pat` occur in `s` at position `i`?
pub fn matches_at(s: &str, pat: &str, i: usize) -> (r: bool)
    requires
        i + pat@.len() <= s@.len(),
    ensures
        r == occurs_at(s@, pat@, i as int),
{
    let n = s.unicode_len();
    let m = pat.unicode_len();
    let mut j: usize = 0;
    while j < m
        invariant
            j <= m,
            m == pat@.len(),
            n == s@.len(),
            i + m <= n,
            forall|k: int| 0 <= k < j ==> s@[i + k] == pat@[k],
        decreases m - j,
    {
        if s.get_char(i + j) != pat.get_char(j) {
            proof {
                assert(s@.subrange(i as int, i + m as int)[j as int] == s@[i + j]);
            }
            return false;
        }
        j = j + 1;
    }
    proof {
        assert(s@.subrange(i as int, i + m as int) =~= pat@);
    }
    true
}

/// Does `s` end with `t`?
pub fn ends_with_str(s: &str, t: &str) -> (r: bool)
    ensures
        r == spec_ends_with(s@, t@),
{
    let n = s.unicode_len();
    let m = t.unicode_len();
    if m > n {
        return false;
    }
    let r = matches_at(s, t, n - m);
    proof {
        assert(s@.subrange(n - m as int, n - m + m as int) =~= s@.skip(n - m as int));
    }
    r
}

/// Replace every occurrence of `pat` in `s` by `rep`, scanning once from
/// the left and never rescanning replaced text.
pub fn replace_all(s: &str, pat: &str, rep: &str) -> (out: String)
    requires
        pat@.len() >= 1,
    ensures
        out@ == spec_replaced(s@, pat@, rep@),
{
    let n = s.unicode_len();
    let m = pat.unicode_len();
    let mut out = String::new();
    let mut i: usize = 0;
    proof {
        assert(s@.skip(0) =~= s@);
        assert(out@ + spec_replaced(s@, pat@, rep@) =~= spec_replaced(s@, pat@, rep@));
    }
    while i < n
        invariant
            i <= n,
            n == s@.len(),
            m == pat@.len(),
            m >= 1,
            spec_replaced(s@, pat@, rep@) == out@ + spec_replaced(s@.skip(i as int), pat@, rep@),
        decreases n - i,
    {
        let matched = if m <= n - i {
            matches_at(s, pat, i)
        } else {
            false
        };
        let ghost t = s@.skip(i as int);
        if matched {
            proof {
                assert(t.subrange(0, m as int) =~= s@.subrange(i as int, i + m as int));
                assert(t.skip(m as int) =~= s@.skip(i + m as int));
                assert(spec_replaced(t, pat@, rep@) == rep@ + spec_replaced(
                    s@.skip(i + m as int),
                    pat@,
                    rep@,
                ));
                assert((out@ + rep@) + spec_replaced(s@.skip(i + m as int), pat@, rep@) =~= out@ + (
                rep@ + spec_replaced(s@.skip(i + m as int), pat@, rep@)));
            }
            out.append(rep);
            i = i + m;
        } else {
            proof {
                if m <= t.len() && t.subrange(0, m as int) == pat@ {
                    assert(t.subrange(0, m as int) =~= s@.subrange(i as int, i + m as int));
                    assert(occurs_at(s@, pat@, i as int));
                }
                assert(t.skip(1) =~= s@.skip(i + 1));
                assert(spec_replaced(t, pat@, rep@) == seq![t[0]] + spec_replaced(
                    s@.skip(i + 1),
                    pat@,
                    rep@,
                ));
                assert(s@.subrange(i as int, i + 1) =~= seq![t[0]]);
                assert((out@ + seq![t[0]]) + spec_replaced(s@.skip(i + 1), pat@, rep@) =~= out@ + (
                seq![t[0]] + spec_replaced(s@.skip(i + 1), pat@, rep@)));
            }
            let piece = s.substring_char(i, i + 1);
            out.append(piece);
            i = i + 1;
        }
    }
    proof {
        assert(s@.skip(n as int) =~= Seq::<char>::empty());
        assert(spec_replaced(Seq::<char>::empty(), pat@, rep@) == Seq::<char>::empty());
        assert(out@ + Seq::<char>::empty() =~= out@);
    }
    out
}

} // verus!
