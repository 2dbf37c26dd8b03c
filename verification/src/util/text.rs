use vstd::prelude::*;

verus! {

/// Strict lexicographic order on character strings, by code point. This is
/// the order in which change reports list their paths.
pub open spec fn lex_lt(a: Seq<char>, b: Seq<char>) -> bool
    decreases a.len(),
{
    if b.len() == 0 {
        false
    } else if a.len() == 0 {
        true
    } else if a.first() != b.first() {
        a.first() < b.first()
    } else {
        lex_lt(a.drop_first(), b.drop_first())
    }
}

/// Any two strings are ordered one way, the other way, or equal, and only
/// one of the three holds.
pub proof fn lemma_lex_trichotomy(a: Seq<char>, b: Seq<char>)
    ensures
        lex_lt(a, b) || lex_lt(b, a) || a == b,
        lex_lt(a, b) ==> !lex_lt(b, a) && a != b,
        lex_lt(b, a) ==> !lex_lt(a, b) && a != b,
    decreases a.len(),
{
    if a.len() == 0 && b.len() == 0 {
        assert(a =~= b);
    } else if a.len() == 0 || b.len() == 0 {
    } else if a.first() != b.first() {
    } else {
        lemma_lex_trichotomy(a.drop_first(), b.drop_first());
        if a.drop_first() == b.drop_first() {
            assert(a =~= b) by {
                assert(a.len() == b.len());
                assert(forall|i: int| 1 <= i < a.len() ==> a[i] == a.drop_first()[i - 1]
                    && b[i] == b.drop_first()[i - 1]);
            }
        }
        if a == b {
            assert(a.drop_first() == b.drop_first());
        }
    }
}

/// The order is transitive.
pub proof fn lemma_lex_lt_trans(a: Seq<char>, b: Seq<char>, c: Seq<char>)
    requires
        lex_lt(a, b),
        lex_lt(b, c),
    ensures
        lex_lt(a, c),
    decreases a.len(),
{
    if b.len() == 0 || c.len() == 0 {
    } else if a.len() == 0 {
    } else {
        if a.first() == b.first() && b.first() == c.first() {
            lemma_lex_lt_trans(a.drop_first(), b.drop_first(), c.drop_first());
        }
    }
}

/// Two strings that agree on their first `k` characters compare by what
/// follows: the shorter is below the longer, and otherwise the characters
/// at position `k` decide.
pub proof fn lemma_lex_from_parts(a: Seq<char>, b: Seq<char>, k: int)
    requires
        0 <= k <= a.len(),
        k <= b.len(),
        forall|m: int| 0 <= m < k ==> a[m] == b[m],
    ensures
        (k == a.len() && k < b.len()) ==> lex_lt(a, b),
        (k == b.len() && k < a.len()) ==> lex_lt(b, a),
        (k == a.len() && k == b.len()) ==> a == b,
        (k < a.len() && k < b.len() && a[k] < b[k]) ==> lex_lt(a, b),
    decreases k,
{
    if k == 0 {
        if k == a.len() && k == b.len() {
            assert(a =~= b);
        }
    } else {
        assert(a.len() > 0 && b.len() > 0);
        lemma_lex_from_parts(a.drop_first(), b.drop_first(), k - 1);
        assert(forall|m: int| 0 <= m < k - 1 ==> a.drop_first()[m] == a[m + 1]
            && b.drop_first()[m] == b[m + 1]);
        assert(a.first() == b.first());
        if k == a.len() && k == b.len() && a.drop_first() == b.drop_first() {
            assert(a =~= b) by {
                assert(forall|i: int| 1 <= i < a.len() ==> a[i] == a.drop_first()[i - 1]
                    && b[i] == b.drop_first()[i - 1]);
            }
        }
    }
}

/// Character-wise string equality.
pub fn str_eq(a: &str, b: &str) -> (r: bool)
    ensures
        r == (a@ == b@),
{
    let n: usize = a.unicode_len();
    let m: usize = b.unicode_len();
    if n != m {
        return false;
    }
    let mut k: usize = 0;
    while k < n
        invariant
            0 <= k <= n,
            n == a@.len(),
            n == b@.len(),
            forall|m2: int| 0 <= m2 < k ==> a@[m2] == b@[m2],
        decreases n - k,
    {
        if a.get_char(k) != b.get_char(k) {
            return false;
        }
        k += 1;
    }
    proof {
        assert(a@ =~= b@);
    }
    true
}

/// Three-way character-wise string comparison: -1, 0 or 1 as `a` is below,
/// equal to, or above `b` in lexicographic order.
pub fn str_cmp(a: &str, b: &str) -> (r: i32)
    ensures
        (r == -1) == lex_lt(a@, b@),
        (r == 0) == (a@ == b@),
        (r == 1) == lex_lt(b@, a@),
{
    let n: usize = a.unicode_len();
    let m: usize = b.unicode_len();
    let mut k: usize = 0;
    loop
        invariant
            0 <= k <= n,
            k <= m,
            n == a@.len(),
            m == b@.len(),
            forall|m2: int| 0 <= m2 < k ==> a@[m2] == b@[m2],
        decreases n - k,
    {
        if k >= n || k >= m {
            proof {
                lemma_lex_from_parts(a@, b@, k as int);
                lemma_lex_trichotomy(a@, b@);
            }
            if k >= n && k >= m {
                return 0;
            } else if k >= n {
                return -1;
            } else {
                return 1;
            }
        }
        let ca = a.get_char(k);
        let cb = b.get_char(k);
        if ca != cb {
            proof {
                lemma_lex_from_parts(a@, b@, k as int);
                lemma_lex_from_parts(b@, a@, k as int);
                lemma_lex_trichotomy(a@, b@);
            }
            if ca < cb {
                return -1;
            } else {
                return 1;
            }
        }
        k += 1;
    }
}

} // verus!
