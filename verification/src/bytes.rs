use vstd::prelude::*;

verus! {

/// The value of a byte string read as a big-endian natural number.
pub open spec fn be_nat(s: Seq<u8>) -> nat
    decreases s.len(),
{
    if s.len() == 0 {
        0
    } else {
        be_nat(s.drop_last()) * 256 + s.last() as nat
    }
}

/// 256 to the power `n`.
pub open spec fn pow256(n: nat) -> nat
    decreases n,
{
    if n == 0 {
        1
    } else {
        256 * pow256((n - 1) as nat)
    }
}

pub proof fn lemma_pow256_pos(n: nat)
    ensures
        pow256(n) >= 1,
    decreases n,
{
    if n > 0 {
        lemma_pow256_pos((n - 1) as nat);
    }
}

/// A byte string's value is below 256 to its length.
pub proof fn lemma_be_nat_bound(s: Seq<u8>)
    ensures
        be_nat(s) < pow256(s.len()),
    decreases s.len(),
{
    if s.len() > 0 {
        lemma_be_nat_bound(s.drop_last());
    }
}

/// Splitting off the most significant byte.
pub proof fn lemma_be_nat_split_first(s: Seq<u8>)
    requires
        s.len() >= 1,
    ensures
        be_nat(s) == s[0] * pow256((s.len() - 1) as nat) + be_nat(s.drop_first()),
    decreases s.len(),
{
    if s.len() == 1 {
        assert(s.drop_last() =~= Seq::<u8>::empty());
        assert(s.drop_first() =~= Seq::<u8>::empty());
        assert(be_nat(Seq::<u8>::empty()) == 0);
        assert(be_nat(s) == s.last() as nat);
        assert(s.last() == s[0]);
        assert(pow256((s.len() - 1) as nat) == 1);
        assert(be_nat(s) == s[0] * pow256((s.len() - 1) as nat) + be_nat(s.drop_first()));
    } else {
        let dl = s.drop_last();
        lemma_be_nat_split_first(dl);
        assert(dl.drop_first() =~= s.drop_first().drop_last());
        let p = pow256((s.len() - 2) as nat);
        assert(be_nat(dl) == s[0] * p + be_nat(s.drop_first().drop_last()));
        assert(s.drop_first().last() == s.last());
        assert(be_nat(s.drop_first()) == be_nat(s.drop_first().drop_last()) * 256 + s.last());
        assert((s[0] * p + be_nat(s.drop_first().drop_last())) * 256 == s[0] * (256 * p)
            + be_nat(s.drop_first().drop_last()) * 256) by (nonlinear_arith);
        assert(pow256((s.len() - 1) as nat) == 256 * p);
        assert(be_nat(s) == be_nat(dl) * 256 + s.last() as nat);
        assert(be_nat(s) == s[0] * (256 * p) + (be_nat(s.drop_first().drop_last()) * 256
            + s.last() as nat));
        assert(be_nat(s) == s[0] * pow256((s.len() - 1) as nat) + be_nat(s.drop_first()));
    }
}

/// The value is zero exactly when every byte is zero.
pub proof fn lemma_be_nat_zero(s: Seq<u8>)
    ensures
        (be_nat(s) == 0) <==> (forall|i: int| 0 <= i < s.len() ==> s[i] == 0),
    decreases s.len(),
{
    if s.len() > 0 {
        let dl = s.drop_last();
        lemma_be_nat_zero(dl);
        if be_nat(s) == 0 {
            assert(forall|i: int| 0 <= i < dl.len() ==> dl[i] == 0);
            assert(forall|i: int| 0 <= i < s.len() - 1 ==> s[i] == dl[i]);
            assert(s[s.len() - 1] == s.last());
        } else {
            if forall|i: int| 0 <= i < s.len() ==> s[i] == 0 {
                assert(forall|i: int| 0 <= i < dl.len() ==> dl[i] == s[i]);
                assert(be_nat(dl) == 0);
                assert(s.last() == s[s.len() - 1]);
                assert(false);
            }
        }
    }
}

/// Big-endian strings of equal length compare numerically as they compare
/// lexicographically: a smaller byte at the first difference means a smaller value.
pub proof fn lemma_be_nat_lt(a: Seq<u8>, b: Seq<u8>, j: int)
    requires
        a.len() == b.len(),
        0 <= j < a.len(),
        forall|i: int| 0 <= i < j ==> a[i] == b[i],
        a[j] < b[j],
    ensures
        be_nat(a) < be_nat(b),
    decreases j,
{
    let p = pow256((a.len() - 1) as nat);
    lemma_be_nat_split_first(a);
    lemma_be_nat_split_first(b);
    if j == 0 {
        lemma_be_nat_bound(a.drop_first());
        lemma_pow256_pos((a.len() - 1) as nat);
        assert(be_nat(a) < a[0] * p + p);
        assert(a[0] * p + p == (a[0] + 1) * p) by (nonlinear_arith);
        assert((a[0] + 1) * p <= b[0] * p) by (nonlinear_arith)
            requires
                a[0] + 1 <= b[0],
                p >= 1,
        ;
        assert(b[0] * p <= be_nat(b));
    } else {
        let at = a.drop_first();
        let bt = b.drop_first();
        assert(forall|i: int| 0 <= i < j - 1 ==> at[i] == bt[i]);
        assert(at[j - 1] == a[j] && bt[j - 1] == b[j]);
        lemma_be_nat_lt(at, bt, j - 1);
        assert(a[0] == b[0]);
    }
}

/// Equal-length byte strings with the same value are equal.
pub proof fn lemma_be_nat_injective(a: Seq<u8>, b: Seq<u8>)
    requires
        a.len() == b.len(),
        be_nat(a) == be_nat(b),
    ensures
        a == b,
    decreases a.len(),
{
    if a.len() == 0 {
        assert(a =~= b);
    } else {
        let ad = a.drop_last();
        let bd = b.drop_last();
        assert(be_nat(ad) * 256 + a.last() == be_nat(bd) * 256 + b.last());
        assert(be_nat(ad) == be_nat(bd) && a.last() == b.last()) by {
            if be_nat(ad) < be_nat(bd) {
                assert(be_nat(ad) * 256 + 256 <= be_nat(bd) * 256) by (nonlinear_arith)
                    requires
                        be_nat(ad) + 1 <= be_nat(bd),
                ;
                assert(false);
            }
            if be_nat(bd) < be_nat(ad) {
                assert(be_nat(bd) * 256 + 256 <= be_nat(ad) * 256) by (nonlinear_arith)
                    requires
                        be_nat(bd) + 1 <= be_nat(ad),
                ;
                assert(false);
            }
        };
        lemma_be_nat_injective(ad, bd);
        assert(a =~= b) by {
            assert(forall|i: int| 0 <= i < a.len() - 1 ==> a[i] == ad[i] && b[i] == bd[i]);
            assert(a[a.len() - 1] == a.last() && b[b.len() - 1] == b.last());
        };
    }
}

/// Whether every byte of a string is zero, decided by a scan.
pub fn bytes_all_zero(a: &Vec<u8>) -> (r: bool)
    ensures
        r == (be_nat(a@) == 0),
{
    let mut i: usize = 0;
    while i < a.len()
        invariant
            0 <= i <= a@.len(),
            forall|k: int| 0 <= k < i ==> a@[k] == 0,
        decreases a@.len() - i,
    {
        if a[i] != 0 {
            proof {
                lemma_be_nat_zero(a@);
            }
            return false;
        }
        i += 1;
    }
    proof {
        lemma_be_nat_zero(a@);
    }
    true
}

/// Numeric comparison of equal-length big-endian byte strings.
pub fn be_lt(a: &Vec<u8>, b: &Vec<u8>) -> (r: bool)
    requires
        a@.len() == b@.len(),
    ensures
        r == (be_nat(a@) < be_nat(b@)),
{
    let mut i: usize = 0;
    while i < a.len()
        invariant
            a@.len() == b@.len(),
            0 <= i <= a@.len(),
            forall|k: int| 0 <= k < i ==> a@[k] == b@[k],
        decreases a@.len() - i,
    {
        let x = a[i];
        let y = b[i];
        if x < y {
            proof {
                lemma_be_nat_lt(a@, b@, i as int);
            }
            return true;
        }
        if x > y {
            proof {
                lemma_be_nat_lt(b@, a@, i as int);
            }
            return false;
        }
        i += 1;
    }
    proof {
        assert(a@ =~= b@);
    }
    false
}

} // verus!
