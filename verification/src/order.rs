//! The ordering over component sequences: lexicographic, element-wise, with
//! a strict prefix ordered before the longer sequence.

use vstd::prelude::*;

verus! {

/// Strict lexicographic order: the first index at which the sequences differ
/// decides; a strict prefix comes before the longer sequence.
pub open spec fn seq_lt(a: Seq<int>, b: Seq<int>) -> bool
    decreases a.len(),
{
    if b.len() == 0 {
        false
    } else if a.len() == 0 {
        true
    } else if a[0] < b[0] {
        true
    } else if a[0] > b[0] {
        false
    } else {
        seq_lt(a.skip(1), b.skip(1))
    }
}

/// The three-way comparison induced by `seq_lt`.
pub open spec fn seq_cmp(a: Seq<int>, b: Seq<int>) -> core::cmp::Ordering {
    if seq_lt(a, b) {
        core::cmp::Ordering::Less
    } else if seq_lt(b, a) {
        core::cmp::Ordering::Greater
    } else {
        core::cmp::Ordering::Equal
    }
}

/// The order is a strict total order: of any two sequences, exactly one of
/// "less", "equal", "greater" holds.
pub proof fn lemma_order_trichotomy(a: Seq<int>, b: Seq<int>)
    ensures
        seq_lt(a, b) || a == b || seq_lt(b, a),
        seq_lt(a, b) ==> a != b && !seq_lt(b, a),
        a == b ==> !seq_lt(a, b) && !seq_lt(b, a),
        seq_lt(b, a) ==> a != b && !seq_lt(a, b),
    decreases a.len(),
{
    if a.len() == 0 && b.len() == 0 {
        assert(a =~= b);
    } else if a.len() > 0 && b.len() > 0 && a[0] == b[0] {
        lemma_order_trichotomy(a.skip(1), b.skip(1));
        if a.skip(1) == b.skip(1) {
            assert forall|i: int| 0 <= i < a.len() implies a[i] == b[i] by {
                if i >= 1 {
                    assert(a.skip(1)[i - 1] == b.skip(1)[i - 1]);
                }
            }
            assert(a =~= b);
        }
        if a == b {
            assert(a.skip(1) == b.skip(1));
        }
    }
}

/// The order is transitive.
pub proof fn lemma_order_transitive(a: Seq<int>, b: Seq<int>, c: Seq<int>)
    requires
        seq_lt(a, b),
        seq_lt(b, c),
    ensures
        seq_lt(a, c),
    decreases a.len(),
{
    if a.len() > 0 && b.len() > 0 && c.len() > 0 && a[0] == b[0] && b[0] == c[0] {
        lemma_order_transitive(a.skip(1), b.skip(1), c.skip(1));
    }
}

/// Dropping an equal prefix of both sequences does not change the order.
pub proof fn lemma_seq_lt_skip(a: Seq<int>, b: Seq<int>, i: int)
    requires
        0 <= i <= a.len(),
        i <= b.len(),
        forall|j: int| 0 <= j < i ==> a[j] == b[j],
    ensures
        seq_lt(a, b) == seq_lt(a.skip(i), b.skip(i)),
    decreases i,
{
    if i == 0 {
        assert(a.skip(0) =~= a);
        assert(b.skip(0) =~= b);
    } else {
        assert(forall|j: int| 0 <= j < i - 1 ==> a.skip(1)[j] == b.skip(1)[j]);
        lemma_seq_lt_skip(a.skip(1), b.skip(1), i - 1);
        assert(a.skip(1).skip(i - 1) =~= a.skip(i));
        assert(b.skip(1).skip(i - 1) =~= b.skip(i));
    }
}

/// Compares two component vectors in the lexicographic order.
pub fn compare_components(a: &Vec<i32>, b: &Vec<i32>) -> (r: core::cmp::Ordering)
    ensures
        r == seq_cmp(a@.map(|_i, x: i32| x as int), b@.map(|_i, x: i32| x as int)),
{
    let ghost av = a@.map(|_i, x: i32| x as int);
    let ghost bv = b@.map(|_i, x: i32| x as int);
    let a_len = a.len();
    let b_len = b.len();
    let n = if a_len < b_len {
        a_len
    } else {
        b_len
    };
    let mut i: usize = 0;
    while i < n
        invariant
            0 <= i <= n,
            n <= a@.len(),
            n <= b@.len(),
            av == a@.map(|_i, x: i32| x as int),
            bv == b@.map(|_i, x: i32| x as int),
            forall|j: int| 0 <= j < i ==> av[j] == bv[j],
        decreases n - i,
    {
        let x = a[i];
        let y = b[i];
        if x < y {
            proof {
                lemma_seq_lt_skip(av, bv, i as int);
                assert(av.skip(i as int)[0] == av[i as int]);
                assert(bv.skip(i as int)[0] == bv[i as int]);
            }
            return core::cmp::Ordering::Less;
        }
        if y < x {
            proof {
                lemma_seq_lt_skip(bv, av, i as int);
                assert(av.skip(i as int)[0] == av[i as int]);
                assert(bv.skip(i as int)[0] == bv[i as int]);
                lemma_order_trichotomy(av, bv);
            }
            return core::cmp::Ordering::Greater;
        }
        proof {
            assert(av[i as int] == bv[i as int]);
        }
        i += 1;
    }
    proof {
        lemma_seq_lt_skip(av, bv, n as int);
        lemma_seq_lt_skip(bv, av, n as int);
    }
    if a_len < b_len {
        core::cmp::Ordering::Less
    } else if b_len < a_len {
        core::cmp::Ordering::Greater
    } else {
        proof {
            assert(av =~= bv);
            lemma_order_trichotomy(av, bv);
        }
        core::cmp::Ordering::Equal
    }
}

/// The prefix rule: a strict prefix is strictly below the longer sequence.
pub proof fn lemma_prefix_lt(a: Seq<int>, b: Seq<int>)
    requires
        a.len() < b.len(),
        forall|j: int| 0 <= j < a.len() ==> a[j] == b[j],
    ensures
        seq_lt(a, b),
{
    lemma_seq_lt_skip(a, b, a.len() as int);
}

} // verus!
