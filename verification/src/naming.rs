//! Collision-free naming: the " (N)" suffix rule.
//!
//! Given a desired base name and the set of names already taken by live
//! siblings, the index uses the base name if it is free and otherwise
//! appends " (1)", " (2)", ... choosing the smallest N >= 1 whose
//! candidate is free.

use vstd::prelude::*;

verus! {

use vstd::string::StringExecFns;

/// The decimal digit character for `d`.
pub open spec fn digit_char(d: int) -> char {
    if d == 0 {
        '0'
    } else if d == 1 {
        '1'
    } else if d == 2 {
        '2'
    } else if d == 3 {
        '3'
    } else if d == 4 {
        '4'
    } else if d == 5 {
        '5'
    } else if d == 6 {
        '6'
    } else if d == 7 {
        '7'
    } else if d == 8 {
        '8'
    } else {
        '9'
    }
}

/// The decimal rendering of `n`, most significant digit first.
pub open spec fn dec_digits(n: nat) -> Seq<char>
    decreases n,
{
    if n < 10 {
        seq![digit_char(n as int)]
    } else {
        dec_digits(n / 10).push(digit_char((n % 10) as int))
    }
}

/// The candidate name for suffix number `n`: `base` followed by " (n)".
pub open spec fn spec_candidate(base: Seq<char>, n: nat) -> Seq<char> {
    base + seq![' ', '('] + dec_digits(n) + seq![')']
}

/// A one-character string slice for the digit `d`.
fn digit_str(d: u128) -> (r: &'static str)
    requires
        d < 10,
    ensures
        r@ == seq![digit_char(d as int)],
{
    let r: &'static str = if d == 0 {
        "0"
    } else if d == 1 {
        "1"
    } else if d == 2 {
        "2"
    } else if d == 3 {
        "3"
    } else if d == 4 {
        "4"
    } else if d == 5 {
        "5"
    } else if d == 6 {
        "6"
    } else if d == 7 {
        "7"
    } else if d == 8 {
        "8"
    } else {
        "9"
    };
    proof {
        reveal_strlit("0");
        reveal_strlit("1");
        reveal_strlit("2");
        reveal_strlit("3");
        reveal_strlit("4");
        reveal_strlit("5");
        reveal_strlit("6");
        reveal_strlit("7");
        reveal_strlit("8");
        reveal_strlit("9");
        assert(r@ =~= seq![digit_char(d as int)]);
    }
    r
}

/// Appends the decimal rendering of `n` to `out`.
fn push_dec(n: u128, out: &mut String)
    ensures
        final(out)@ == old(out)@ + dec_digits(n as nat),
    decreases n,
{
    if n < 10 {
        out.append(digit_str(n));
        proof {
            assert(final(out)@ =~= old(out)@ + dec_digits(n as nat));
        }
    } else {
        push_dec(n / 10, out);
        out.append(digit_str(n % 10));
        proof {
            assert(final(out)@ =~= old(out)@ + dec_digits(n as nat));
        }
    }
}

/// Renders `n` in decimal.
pub fn dec_string(n: u128) -> (r: String)
    ensures
        r@ == dec_digits(n as nat),
{
    let mut s = String::new();
    push_dec(n, &mut s);
    proof {
        assert(s@ =~= dec_digits(n as nat));
    }
    s
}

/// Builds the candidate name `base` + " (n)".
pub fn candidate_name(base: &str, n: u128) -> (r: String)
    ensures
        r@ == spec_candidate(base@, n as nat),
{
    let mut s = base.to_owned();
    s.append(" (");
    push_dec(n, &mut s);
    s.append(")");
    proof {
        reveal_strlit(" (");
        reveal_strlit(")");
        assert(" ("@ =~= seq![' ', '(']);
        assert(")"@ =~= seq![')']);
        assert(s@ =~= spec_candidate(base@, n as nat));
    }
    s
}

/// Every decimal rendering has at least one character, and renderings of
/// numbers from ten up have at least two.
pub proof fn lemma_dec_digits_len(n: nat)
    ensures
        dec_digits(n).len() >= 1,
        n >= 10 ==> dec_digits(n).len() >= 2,
    decreases n,
{
    if n >= 10 {
        lemma_dec_digits_len(n / 10);
    }
}

/// Decimal renderings are injective.
pub proof fn lemma_dec_digits_injective(a: nat, b: nat)
    requires
        dec_digits(a) == dec_digits(b),
    ensures
        a == b,
    decreases a + b,
{
    lemma_dec_digits_len(a);
    lemma_dec_digits_len(b);
    if a < 10 && b < 10 {
        assert(dec_digits(a)[0] == digit_char(a as int));
        assert(dec_digits(b)[0] == digit_char(b as int));
    } else if a < 10 && b >= 10 {
        assert(dec_digits(a).len() == 1);
        assert(false);
    } else if a >= 10 && b < 10 {
        assert(dec_digits(b).len() == 1);
        assert(false);
    } else {
        let da = dec_digits(a / 10);
        let db = dec_digits(b / 10);
        assert(dec_digits(a) == da.push(digit_char((a % 10) as int)));
        assert(dec_digits(b) == db.push(digit_char((b % 10) as int)));
        assert(da.len() == db.len());
        assert(da =~= db) by {
            assert(forall|i: int|
                0 <= i < da.len() ==> da[i] == dec_digits(a)[i] && db[i] == dec_digits(b)[i]);
        }
        lemma_dec_digits_injective(a / 10, b / 10);
        assert(dec_digits(a).last() == digit_char((a % 10) as int));
        assert(dec_digits(b).last() == digit_char((b % 10) as int));
        assert(a % 10 == b % 10);
        assert(a == (a / 10) * 10 + a % 10) by {
            vstd::arithmetic::div_mod::lemma_fundamental_div_mod(a as int, 10);
        }
        assert(b == (b / 10) * 10 + b % 10) by {
            vstd::arithmetic::div_mod::lemma_fundamental_div_mod(b as int, 10);
        }
    }
}

/// Distinct suffix numbers give distinct candidate names.
pub proof fn lemma_candidate_ne(base: Seq<char>, n1: nat, n2: nat)
    requires
        n1 != n2,
    ensures
        spec_candidate(base, n1) != spec_candidate(base, n2),
{
    if spec_candidate(base, n1) == spec_candidate(base, n2) {
        let c1 = spec_candidate(base, n1);
        let c2 = spec_candidate(base, n2);
        lemma_dec_digits_len(n1);
        lemma_dec_digits_len(n2);
        assert(c1.len() == base.len() + 2 + dec_digits(n1).len() + 1);
        assert(c2.len() == base.len() + 2 + dec_digits(n2).len() + 1);
        let d1 = dec_digits(n1);
        let d2 = dec_digits(n2);
        assert(d1.len() == d2.len());
        assert(d1 =~= d2) by {
            assert(forall|i: int|
                0 <= i < d1.len() ==> c1[base.len() + 2 + i] == d1[i] && c2[base.len() + 2 + i]
                    == d2[i]);
        }
        lemma_dec_digits_injective(n1, n2);
        assert(false);
    }
}

/// No record of `s` takes the candidate name for suffix number `n`.
pub open spec fn candidate_free<A>(
    s: Seq<A>,
    taken_by: spec_fn(A, Seq<char>) -> bool,
    base: Seq<char>,
    n: int,
) -> bool {
    !(exists|i: int| 0 <= i < s.len() && #[trigger] taken_by(s[i], spec_candidate(base, n as nat)))
}

/// Among any collection of records, each of which can take at most one
/// candidate name, some suffix number between 1 and the collection's
/// length plus one has a free candidate.
pub proof fn lemma_some_candidate_free<A>(
    s: Seq<A>,
    taken_by: spec_fn(A, Seq<char>) -> bool,
    base: Seq<char>,
)
    requires
        forall|a: A, n1: int, n2: int|
            1 <= n1 && 1 <= n2 && n1 != n2 ==> !(#[trigger] taken_by(
                a,
                spec_candidate(base, n1 as nat),
            ) && #[trigger] taken_by(a, spec_candidate(base, n2 as nat))),
    ensures
        exists|n: int| 1 <= n <= s.len() + 1 && #[trigger] candidate_free(s, taken_by, base, n),
    decreases s.len(),
{
    let len = s.len() as int;
    if exists|n: int| 1 <= n <= len + 1 && #[trigger] candidate_free(s, taken_by, base, n) {
    } else {
        // Every candidate in [1, len + 1] is taken; in particular the last.
        assert(!candidate_free(s, taken_by, base, len + 1));
        assert(exists|i: int|
            0 <= i < len && taken_by(s[i], spec_candidate(base, (len + 1) as nat)));
        let i = choose|i: int|
            0 <= i < len && taken_by(s[i], spec_candidate(base, (len + 1) as nat));
        let s2 = s.remove(i);
        lemma_some_candidate_free(s2, taken_by, base);
        let m = choose|m: int|
            1 <= m <= s2.len() + 1 && #[trigger] candidate_free(s2, taken_by, base, m);
        assert(s2.len() + 1 == len);
        // Candidate m is taken in s by hypothesis; find its witness.
        assert(!candidate_free(s, taken_by, base, m));
        assert(exists|j: int| 0 <= j < len && taken_by(s[j], spec_candidate(base, m as nat)));
        let j = choose|j: int| 0 <= j < len && taken_by(s[j], spec_candidate(base, m as nat));
        // The witness cannot be the record removed: that one takes candidate len + 1.
        assert(j != i);
        // So the witness survives in s2, contradicting m's freedom there.
        if j < i {
            assert(s2[j] == s[j]);
            assert(taken_by(s2[j], spec_candidate(base, m as nat)));
        } else {
            assert(s2[j - 1] == s[j]);
            assert(taken_by(s2[j - 1], spec_candidate(base, m as nat)));
        }
        assert(false);
    }
}

} // verus!
