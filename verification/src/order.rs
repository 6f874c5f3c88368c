//! The lexical order of texts, characters compared by code point.

use vstd::prelude::*;

verus! {

/// `k` is the place that decides `a` to be lexically before `b`: the two agree
/// on their first `k` characters, and there `a` ends while `b` goes on, or
/// `a` has the smaller character.
pub open spec fn decides_less(a: Seq<char>, b: Seq<char>, k: int) -> bool {
    &&& 0 <= k <= a.len()
    &&& k < b.len()
    &&& a.take(k) == b.take(k)
    &&& k < a.len() ==> a[k] < b[k]
}

/// `a` comes strictly before `b` in lexical order, characters compared by
/// code point.
pub open spec fn lex_less(a: Seq<char>, b: Seq<char>) -> bool {
    exists|k: int| decides_less(a, b, k)
}

/// Every text comes strictly before each text after it: the sequence is
/// lexically sorted and holds no text twice.
pub open spec fn strictly_sorted(s: Seq<Seq<char>>) -> bool {
    forall|i: int, j: int| 0 <= i < j < s.len() ==> lex_less(#[trigger] s[i], #[trigger] s[j])
}

/// How two texts stand to each other in lexical order.
#[derive(Clone, Copy, Debug, PartialEq, Eq)]
pub enum Order {
    Less,
    Equal,
    Greater,
}

/// Lexical order is asymmetric, and so irreflexive.
pub proof fn lemma_lex_less_asymmetric(a: Seq<char>, b: Seq<char>)
    requires
        lex_less(a, b),
    ensures
        !lex_less(b, a),
        a != b,
{
    let k1 = choose|k: int| decides_less(a, b, k);
    if lex_less(b, a) {
        let k2 = choose|k: int| decides_less(b, a, k);
        if k1 < k2 {
            assert(a.take(k2)[k1] == b.take(k2)[k1]);
        } else if k2 < k1 {
            assert(a.take(k1)[k2] == b.take(k1)[k2]);
        }
    }
}

/// Lexical order is transitive.
pub proof fn lemma_lex_less_transitive(a: Seq<char>, b: Seq<char>, c: Seq<char>)
    requires
        lex_less(a, b),
        lex_less(b, c),
    ensures
        lex_less(a, c),
{
    let k1 = choose|k: int| decides_less(a, b, k);
    let k2 = choose|k: int| decides_less(b, c, k);
    let k = if k1 < k2 {
        k1
    } else {
        k2
    };
    assert(a.take(k) =~= c.take(k));
    if k1 < k2 {
        assert(b.take(k2)[k1] == c.take(k2)[k1]);
    } else if k2 < k1 {
        assert(a.take(k1)[k2] == b.take(k1)[k2]);
    }
    assert(decides_less(a, c, k));
}

/// Compares `a` and `b` in lexical order.
pub fn lex_order(a: &Vec<char>, b: &Vec<char>) -> (o: Order)
    ensures
        o is Less <==> lex_less(a@, b@),
        o is Equal <==> a@ == b@,
        o is Greater <==> lex_less(b@, a@),
{
    let mut k: usize = 0;
    while k < a.len() && k < b.len() && a[k] == b[k]
        invariant
            k <= a.len(),
            k <= b.len(),
            a@.take(k as int) == b@.take(k as int),
        decreases a.len() - k,
    {
        k += 1;
    }
    if k == a.len() && k == b.len() {
        assert(a@.take(k as int) =~= a@);
        assert(b@.take(k as int) =~= b@);
        Order::Equal
    } else if k == a.len() || (k < b.len() && a[k] < b[k]) {
        assert(decides_less(a@, b@, k as int));
        proof {
            lemma_lex_less_asymmetric(a@, b@);
        }
        Order::Less
    } else {
        assert(decides_less(b@, a@, k as int));
        proof {
            lemma_lex_less_asymmetric(b@, a@);
        }
        Order::Greater
    }
}

} // verus!
