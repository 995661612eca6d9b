use vstd::prelude::*;
use crate::text::chars_of;

verus! {

/// `a` and `b` agree on their first `k` characters.
pub open spec fn agree_upto(a: Seq<char>, b: Seq<char>, k: int) -> bool {
    &&& 0 <= k <= a.len()
    &&& k <= b.len()
    &&& forall|j: int| 0 <= j < k ==> a[j] == b[j]
}

/// `a` comes before `b` and position `k` shows it: the two agree before `k`,
/// and there `a` ends or holds the smaller character.
pub open spec fn precedes_at(a: Seq<char>, b: Seq<char>, k: int) -> bool {
    &&& agree_upto(a, b, k)
    &&& k < b.len()
    &&& (k == a.len() || a[k] < b[k])
}

/// Lexicographic order on strings, character by character.
pub open spec fn lex_lt(a: Seq<char>, b: Seq<char>) -> bool {
    exists|k: int| precedes_at(a, b, k)
}

/// How one string stands to another in lexicographic order.
#[derive(Clone, Copy, PartialEq, Eq, Structural)]
pub enum Rank {
    Before,
    Same,
    After,
}

/// Compares two strings character by character.
pub fn rank(a: &str, b: &str) -> (r: Rank)
    ensures
        r == Rank::Before <==> lex_lt(a@, b@),
        r == Rank::Same <==> a@ == b@,
        r == Rank::After <==> lex_lt(b@, a@),
{
    let x = chars_of(a);
    let y = chars_of(b);
    let n: usize = x.len();
    let m: usize = y.len();
    let mut i: usize = 0;
    while i < n && i < m
        invariant
            x@ == a@,
            y@ == b@,
            n == x@.len(),
            m == y@.len(),
            agree_upto(x@, y@, i as int),
        decreases n - i,
    {
        if x[i] < y[i] {
            proof {
                assert(precedes_at(x@, y@, i as int));
                lemma_lt_excludes(x@, y@);
            }
            return Rank::Before;
        }
        if y[i] < x[i] {
            proof {
                assert(agree_upto(y@, x@, i as int));
                assert(precedes_at(y@, x@, i as int));
                lemma_lt_excludes(y@, x@);
            }
            return Rank::After;
        }
        i = i + 1;
    }
    if n < m {
        proof {
            assert(precedes_at(x@, y@, i as int));
            lemma_lt_excludes(x@, y@);
        }
        Rank::Before
    } else if m < n {
        proof {
            assert(agree_upto(y@, x@, i as int));
            assert(precedes_at(y@, x@, i as int));
            lemma_lt_excludes(y@, x@);
        }
        Rank::After
    } else {
        proof {
            assert(x@ =~= y@);
            lemma_lt_irreflexive(x@);
        }
        Rank::Same
    }
}

/// No string comes before itself.
pub proof fn lemma_lt_irreflexive(a: Seq<char>)
    ensures
        !lex_lt(a, a),
{
    if lex_lt(a, a) {
        let k = choose|k: int| precedes_at(a, a, k);
        assert(precedes_at(a, a, k));
    }
}

/// If `a` comes before `b`, the two differ and `b` does not come before `a`.
pub proof fn lemma_lt_excludes(a: Seq<char>, b: Seq<char>)
    requires
        lex_lt(a, b),
    ensures
        a != b,
        !lex_lt(b, a),
{
    let k = choose|k: int| precedes_at(a, b, k);
    assert(precedes_at(a, b, k));
    if a == b {
        lemma_lt_irreflexive(a);
    }
    if lex_lt(b, a) {
        let l = choose|l: int| precedes_at(b, a, l);
        assert(precedes_at(b, a, l));
        if l < k {
            assert(a[l] == b[l]);
        } else if k < l {
            assert(b[k] == a[k]);
        }
    }
}

/// The order is transitive.
pub proof fn lemma_lt_transitive(a: Seq<char>, b: Seq<char>, c: Seq<char>)
    requires
        lex_lt(a, b),
        lex_lt(b, c),
    ensures
        lex_lt(a, c),
{
    let k = choose|k: int| precedes_at(a, b, k);
    let l = choose|l: int| precedes_at(b, c, l);
    assert(precedes_at(a, b, k));
    assert(precedes_at(b, c, l));
    let m = if k <= l { k } else { l };
    assert(agree_upto(a, c, m)) by {
        assert forall|j: int| 0 <= j < m implies a[j] == c[j] by {
            assert(a[j] == b[j]);
            assert(b[j] == c[j]);
        }
    }
    if k < l {
        assert(b[k] == c[k]);
    } else if l < k {
        assert(a[l] == b[l]);
    }
    assert(precedes_at(a, c, m));
}

} // verus!
