//! Fresh names: a base name, or the base name numbered " (n)" with the
//! smallest `n` that no existing key takes.

use vstd::prelude::*;
use vstd::string::StringExecFns;

verus! {

/// The decimal digit `d`, for `d < 10`.
pub open spec fn digit_char(d: int) -> char {
    if d == 0 {
        '0'
    } else if d == 1 {
        '1'
    } else if d == 2 {
        '2'
    } else if d == 3 {
        '3'
    } else if d == 4 {
        '4'
    } else if d == 5 {
        '5'
    } else if d == 6 {
        '6'
    } else if d == 7 {
        '7'
    } else if d == 8 {
        '8'
    } else {
        '9'
    }
}

/// The decimal representation of `n`, without leading zeros.
pub open spec fn decimal(n: nat) -> Seq<char>
    decreases n,
{
    if n < 10 {
        seq![digit_char(n as int)]
    } else {
        decimal(n / 10).push(digit_char((n % 10) as int))
    }
}

/// Candidate `n` for a fresh name built from `base`: `base` itself for 0,
/// else `base (n)`.
pub open spec fn numbered_key(base: Seq<char>, n: nat) -> Seq<char> {
    if n == 0 {
        base
    } else {
        base + seq![' ', '('] + decimal(n) + seq![')']
    }
}

/// The smallest `n` whose candidate is not in `keys`.
pub open spec fn is_first_free(keys: Set<Seq<char>>, base: Seq<char>, n: nat) -> bool {
    &&& !keys.contains(numbered_key(base, n))
    &&& forall|m: nat| m < n ==> keys.contains(#[trigger] numbered_key(base, m))
}

/// The fresh name built from `base` that avoids `keys`.
pub open spec fn first_free_key(keys: Set<Seq<char>>, base: Seq<char>) -> Seq<char> {
    numbered_key(base, choose|n: nat| is_first_free(keys, base, n))
}

proof fn lemma_digit_injective(a: int, b: int)
    requires
        0 <= a < 10,
        0 <= b < 10,
        digit_char(a) == digit_char(b),
    ensures
        a == b,
{
}

proof fn lemma_decimal_len(n: nat)
    ensures
        decimal(n).len() >= 1,
        n >= 10 ==> decimal(n).len() >= 2,
    decreases n,
{
    if n >= 10 {
        lemma_decimal_len(n / 10);
    }
}

/// Distinct numbers have distinct decimal representations.
pub proof fn lemma_decimal_injective(n: nat, m: nat)
    requires
        decimal(n) == decimal(m),
    ensures
        n == m,
    decreases n,
{
    lemma_decimal_len(n);
    lemma_decimal_len(m);
    if n < 10 && m < 10 {
        assert(decimal(n)[0] == digit_char(n as int));
        assert(decimal(m)[0] == digit_char(m as int));
        lemma_digit_injective(n as int, m as int);
    } else if n >= 10 && m >= 10 {
        let dn = decimal(n);
        let dm = decimal(m);
        assert(dn.last() == digit_char((n % 10) as int));
        assert(dm.last() == digit_char((m % 10) as int));
        lemma_digit_injective((n % 10) as int, (m % 10) as int);
        assert(dn.drop_last() =~= decimal(n / 10));
        assert(dm.drop_last() =~= decimal(m / 10));
        lemma_decimal_injective(n / 10, m / 10);
        assert(n == 10 * (n / 10) + n % 10);
        assert(m == 10 * (m / 10) + m % 10);
    } else {
        assert(decimal(n).len() != decimal(m).len());
    }
}

/// Distinct numbers give distinct candidates.
pub proof fn lemma_numbered_key_injective(base: Seq<char>, n: nat, m: nat)
    requires
        numbered_key(base, n) == numbered_key(base, m),
    ensures
        n == m,
{
    lemma_decimal_len(n);
    lemma_decimal_len(m);
    if n != 0 && m != 0 {
        let kn = numbered_key(base, n);
        let km = numbered_key(base, m);
        let lo = base.len() + 2;
        assert(kn.subrange(lo as int, kn.len() - 1) =~= decimal(n));
        assert(km.subrange(lo as int, km.len() - 1) =~= decimal(m));
        lemma_decimal_injective(n, m);
    } else if n != 0 || m != 0 {
        assert(numbered_key(base, n).len() != numbered_key(base, m).len());
    }
}

/// Among `keys`, at most `keys.len()` candidates can be taken: if the first
/// `n + 1` candidates are all taken, then `n < keys.len()`.
pub proof fn lemma_candidates_run_out(keys: Seq<Seq<char>>, base: Seq<char>, n: nat)
    requires
        forall|m: nat| m <= n ==> keys.contains(#[trigger] numbered_key(base, m)),
    ensures
        n < keys.len(),
{
    let cands = Seq::new(n + 1, |i: int| numbered_key(base, i as nat));
    assert(cands.no_duplicates()) by {
        assert forall|a: int, b: int| 0 <= a < b < cands.len() implies cands[a] != cands[b] by {
            if cands[a] == cands[b] {
                lemma_numbered_key_injective(base, a as nat, b as nat);
            }
        }
    }
    cands.unique_seq_to_set();
    assert(cands.to_set().subset_of(keys.to_set())) by {
        assert forall|s: Seq<char>| cands.to_set().contains(s) implies keys.to_set().contains(s) by {
            let i = choose|i: int| 0 <= i < cands.len() && cands[i] == s;
            assert(keys.contains(numbered_key(base, i as nat)));
        }
    }
    vstd::set_lib::lemma_len_subset(cands.to_set(), keys.to_set());
    keys.lemma_cardinality_of_set();
}

/// `n` is the first free number, and its candidate is the fresh name.
pub proof fn lemma_first_free_key(keys: Set<Seq<char>>, base: Seq<char>, n: nat)
    requires
        is_first_free(keys, base, n),
    ensures
        first_free_key(keys, base) == numbered_key(base, n),
{
    let c = choose|c: nat| is_first_free(keys, base, c);
    assert(is_first_free(keys, base, c));
    if c < n {
        assert(keys.contains(numbered_key(base, c)));
    } else if n < c {
        assert(keys.contains(numbered_key(base, n)));
    }
}

fn digit_str(d: usize) -> (s: &'static str)
    requires
        d < 10,
    ensures
        s@ == seq![digit_char(d as int)],
{
    if d == 0 {
        proof { reveal_strlit("0"); }
        "0"
    } else if d == 1 {
        proof { reveal_strlit("1"); }
        "1"
    } else if d == 2 {
        proof { reveal_strlit("2"); }
        "2"
    } else if d == 3 {
        proof { reveal_strlit("3"); }
        "3"
    } else if d == 4 {
        proof { reveal_strlit("4"); }
        "4"
    } else if d == 5 {
        proof { reveal_strlit("5"); }
        "5"
    } else if d == 6 {
        proof { reveal_strlit("6"); }
        "6"
    } else if d == 7 {
        proof { reveal_strlit("7"); }
        "7"
    } else if d == 8 {
        proof { reveal_strlit("8"); }
        "8"
    } else {
        proof { reveal_strlit("9"); }
        "9"
    }
}

/// The decimal representation of `n`.
pub fn decimal_string(n: usize) -> (s: String)
    ensures
        s@ == decimal(n as nat),
    decreases n,
{
    if n < 10 {
        String::from_str(digit_str(n))
    } else {
        let prefix = decimal_string(n / 10);
        let s = prefix.concat(digit_str(n % 10));
        proof {
            assert(s@ =~= decimal(n as nat));
        }
        s
    }
}

/// Candidate `n` for a fresh name built from `base`.
pub fn numbered_key_string(base: &String, n: usize) -> (s: String)
    ensures
        s@ == numbered_key(base@, n as nat),
{
    if n == 0 {
        base.clone()
    } else {
        let digits = decimal_string(n);
        proof {
            reveal_strlit(" (");
            reveal_strlit(")");
        }
        let s = base.clone().concat(" (").concat(digits.as_str()).concat(")");
        proof {
            assert(s@ =~= numbered_key(base@, n as nat));
        }
        s
    }
}

} // verus!
