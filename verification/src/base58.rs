use vstd::prelude::*;

use crate::bytes::{be_nat, lemma_be_nat_split_first, pow256};

verus! {

// ---------------------------------------------------------------------------
// Digits.  The base-58 alphabet is
// "123456789ABCDEFGHJKLMNPQRSTUVWXYZabcdefghijkmnopqrstuvwxyz":
// the digits and letters without 0, O, I and l.
// ---------------------------------------------------------------------------

/// The base-58 digits of a number, most significant first; zero has none.
pub open spec fn b58_digits(n: nat) -> Seq<u8>
    decreases n,
{
    if n == 0 {
        Seq::empty()
    } else {
        b58_digits(n / 58).push((n % 58) as u8)
    }
}

/// The number a digit string stands for.
pub open spec fn b58_value(ds: Seq<u8>) -> nat
    decreases ds.len(),
{
    if ds.len() == 0 {
        0
    } else {
        b58_value(ds.drop_last()) * 58 + ds.last() as nat
    }
}

/// The ASCII byte encoding a base-58 digit.
pub open spec fn b58_char(d: u8) -> u8 {
    if d < 9 { (49 + d) as u8 }  // '1' to '9'
    else if d < 17 { (56 + d) as u8 }  // 'A' to 'H'
    else if d < 22 { (57 + d) as u8 }  // 'J' to 'N'
    else if d < 33 { (58 + d) as u8 }  // 'P' to 'Z'
    else if d < 44 { (64 + d) as u8 }  // 'a' to 'k'
    else { (65 + d) as u8 }  // 'm' to 'z'
}

/// The base-58 digit an ASCII byte stands for, if any.
pub open spec fn b58_rev(c: u8) -> Option<u8> {
    if 49 <= c && c <= 57 { Some((c - 49) as u8) }
    else if 65 <= c && c <= 72 { Some((c - 56) as u8) }
    else if 74 <= c && c <= 78 { Some((c - 57) as u8) }
    else if 80 <= c && c <= 90 { Some((c - 58) as u8) }
    else if 97 <= c && c <= 107 { Some((c - 64) as u8) }
    else if 109 <= c && c <= 122 { Some((c - 65) as u8) }
    else { None }
}

/// The digit and character maps invert each other.
pub proof fn lemma_b58_char_rev(d: u8)
    requires
        d < 58,
    ensures
        b58_rev(b58_char(d)) == Some(d),
{
}

pub proof fn lemma_b58_rev_char(c: u8, d: u8)
    requires
        b58_rev(c) == Some(d),
    ensures
        d < 58,
        b58_char(d) == c,
{
}

/// The base-58 character string of a byte string (no leading zero bytes).
pub open spec fn b58_chars(bytes: Seq<u8>) -> Seq<u8> {
    b58_digits(be_nat(bytes)).map_values(|d: u8| b58_char(d))
}

pub(crate) fn b58_char_at(d: u8) -> (r: u8)
    requires
        d < 58,
    ensures
        r == b58_char(d),
{
    if d < 9 { 49 + d }
    else if d < 17 { 56 + d }
    else if d < 22 { 57 + d }
    else if d < 33 { 58 + d }
    else if d < 44 { 64 + d }
    else { 65 + d }
}

pub(crate) fn b58_rev_at(c: u8) -> (r: Option<u8>)
    ensures
        r == b58_rev(c),
{
    if 49 <= c && c <= 57 { Some(c - 49) }
    else if 65 <= c && c <= 72 { Some(c - 56) }
    else if 74 <= c && c <= 78 { Some(c - 57) }
    else if 80 <= c && c <= 90 { Some(c - 58) }
    else if 97 <= c && c <= 107 { Some(c - 64) }
    else if 109 <= c && c <= 122 { Some(c - 65) }
    else { None }
}

// ---------------------------------------------------------------------------
// Digit strings and values invert each other.
// ---------------------------------------------------------------------------

/// The digits of `n` stand for `n`.
pub proof fn lemma_b58_value_of_digits(n: nat)
    ensures
        b58_value(b58_digits(n)) == n,
    decreases n,
{
    if n > 0 {
        lemma_b58_value_of_digits(n / 58);
        assert(b58_digits(n).drop_last() =~= b58_digits(n / 58));
        assert(b58_digits(n).last() == (n % 58) as u8);
    }
}

/// Every digit is below 58, and the leading digit of a nonzero number is
/// itself nonzero.
pub proof fn lemma_b58_digits_canonical(n: nat)
    ensures
        forall|i: int| 0 <= i < b58_digits(n).len() ==> b58_digits(n)[i] < 58,
        n > 0 ==> b58_digits(n).len() > 0 && b58_digits(n)[0] != 0,
    decreases n,
{
    if n > 0 {
        lemma_b58_digits_canonical(n / 58);
        let front = b58_digits(n / 58);
        assert(b58_digits(n) == front.push((n % 58) as u8));
        assert(forall|i: int| 0 <= i < front.len() ==> b58_digits(n)[i] == front[i]);
        if n / 58 == 0 {
            assert(front.len() == 0);
            assert(b58_digits(n)[0] == (n % 58) as u8);
            assert(n % 58 == n);
        }
    }
}

/// A digit string with a nonzero leading digit stands for a positive number.
pub proof fn lemma_b58_value_pos(ds: Seq<u8>)
    requires
        ds.len() > 0,
        ds[0] != 0,
    ensures
        b58_value(ds) > 0,
    decreases ds.len(),
{
    if ds.len() == 1 {
        assert(ds.drop_last().len() == 0);
        assert(ds.last() == ds[0]);
    } else {
        assert(ds.drop_last()[0] == ds[0]);
        lemma_b58_value_pos(ds.drop_last());
    }
}

/// A canonical digit string (digits below 58, no leading zero) is the digit
/// string of its own value.
pub proof fn lemma_b58_digits_of_value(ds: Seq<u8>)
    requires
        forall|i: int| 0 <= i < ds.len() ==> ds[i] < 58,
        ds.len() > 0 ==> ds[0] != 0,
    ensures
        b58_digits(b58_value(ds)) == ds,
    decreases ds.len(),
{
    if ds.len() > 0 {
        let front = ds.drop_last();
        assert(forall|i: int| 0 <= i < front.len() ==> front[i] == ds[i]);
        lemma_b58_digits_of_value(front);
        let v = b58_value(ds);
        assert(v == b58_value(front) * 58 + ds.last() as nat);
        if front.len() > 0 {
            lemma_b58_value_pos(front);
        } else {
            assert(ds.last() == ds[0]);
        }
        assert(v > 0);
        assert(v / 58 == b58_value(front) && v % 58 == ds.last() as nat);
        assert(b58_digits(v) == b58_digits(v / 58).push((v % 58) as u8));
        assert(b58_digits(v) =~= ds);
    }
}

/// The value of a prefix of a digit string is at most the whole string's.
pub proof fn lemma_b58_value_prefix_le(ds: Seq<u8>, m: int)
    requires
        0 <= m <= ds.len(),
    ensures
        b58_value(ds.subrange(0, m)) <= b58_value(ds),
    decreases ds.len() - m,
{
    if m < ds.len() {
        lemma_b58_value_prefix_le(ds, m + 1);
        assert(ds.subrange(0, m + 1).drop_last() =~= ds.subrange(0, m));
        assert(b58_value(ds.subrange(0, m + 1)) == b58_value(ds.subrange(0, m)) * 58
            + ds.subrange(0, m + 1).last() as nat);
    } else {
        assert(ds.subrange(0, m) =~= ds);
    }
}

// ---------------------------------------------------------------------------
// Executable conversion between byte strings and base-58 text.
// ---------------------------------------------------------------------------

/// Divide a big-endian byte string by 58 in place; the result is the
/// remainder.
fn divmod58(v: &mut Vec<u8>) -> (rem: u8)
    ensures
        final(v)@.len() == old(v)@.len(),
        be_nat(final(v)@) * 58 + rem as nat == be_nat(old(v)@),
        rem < 58,
{
    let ghost orig = v@;
    let len = v.len();
    let mut carry: u16 = 0;
    let mut i: usize = 0;
    while i < len
        invariant
            len == v@.len(),
            v@.len() == orig.len(),
            0 <= i <= len,
            carry < 58,
            v@.subrange(i as int, len as int) == orig.subrange(i as int, len as int),
            be_nat(v@.subrange(0, i as int)) * 58 + carry as nat
                == be_nat(orig.subrange(0, i as int)),
        decreases len - i,
    {
        proof {
            assert(v@[i as int] == orig[i as int]) by {
                assert(v@.subrange(i as int, len as int)[0] == v@[i as int]);
            };
        }
        let cur: u16 = carry * 256 + (v[i] as u16);
        let q: u8 = (cur / 58) as u8;
        let r: u16 = cur % 58;
        let ghost prev = v@;
        v[i] = q;
        proof {
            let ii = i as int;
            assert(v@ =~= prev.update(ii, q));
            assert forall|t: int| ii <= t < len as int implies prev[t] == orig[t] by {
                assert(prev.subrange(ii, len as int)[t - ii] == orig.subrange(
                    ii, len as int)[t - ii]);
            };
            assert(v@.subrange(ii + 1, len as int) =~= orig.subrange(ii + 1, len as int));
            assert(v@.subrange(0, ii) =~= prev.subrange(0, ii));
            assert(v@.subrange(0, ii + 1).drop_last() =~= v@.subrange(0, ii));
            assert(v@.subrange(0, ii + 1).last() == q);
            assert(orig.subrange(0, ii + 1).drop_last() =~= orig.subrange(0, ii));
            assert(orig.subrange(0, ii + 1).last() == orig[ii]);
            let a = be_nat(v@.subrange(0, ii));
            let b = be_nat(orig.subrange(0, ii));
            // a * 58 + carry == b, cur == carry * 256 + orig[ii], cur == q * 58 + r.
            assert(be_nat(v@.subrange(0, ii + 1)) == a * 256 + q as nat);
            assert(be_nat(orig.subrange(0, ii + 1)) == b * 256 + orig[ii] as nat);
            assert((a * 256 + q as nat) * 58 + r as nat == (a * 58 + carry as nat) * 256
                + (q as nat * 58 + r as nat) - carry as nat * 256) by (nonlinear_arith);
            assert(q as nat * 58 + r as nat == carry as nat * 256 + orig[ii] as nat);
        }
        carry = r;
        i += 1;
    }
    proof {
        assert(v@.subrange(0, len as int) =~= v@);
        assert(orig.subrange(0, len as int) =~= orig);
    }
    carry as u8
}

/// Append the whole of `src` to `dst`.
pub(crate) fn append_bytes(dst: &mut Vec<u8>, src: &Vec<u8>)
    ensures
        final(dst)@ == old(dst)@ + src@,
{
    let mut i: usize = 0;
    while i < src.len()
        invariant
            0 <= i <= src@.len(),
            dst@ == old(dst)@ + src@.subrange(0, i as int),
        decreases src@.len() - i,
    {
        dst.push(src[i]);
        proof {
            assert(old(dst)@ + src@.subrange(0, i + 1)
                =~= (old(dst)@ + src@.subrange(0, i as int)).push(src@[i as int]));
        }
        i += 1;
    }
    proof {
        assert(src@.subrange(0, src@.len() as int) =~= src@);
    }
}

/// Encode a byte string with a nonzero leading byte as base-58 text.
pub fn b58_encode(bytes: &Vec<u8>) -> (r: Vec<u8>)
    requires
        bytes@.len() > 0,
        bytes@[0] != 0,
    ensures
        r@ == b58_chars(bytes@),
{
    let ghost n0 = be_nat(bytes@);
    let mut cur: Vec<u8> = Vec::new();
    append_bytes(&mut cur, bytes);
    proof {
        assert(cur@ =~= bytes@);
    }
    let mut digits: Vec<u8> = Vec::new();
    loop
        invariant
            b58_digits(n0) == b58_digits(be_nat(cur@)) + digits@,
            forall|k: int| 0 <= k < digits@.len() ==> digits@[k] < 58,
        ensures
            be_nat(cur@) == 0,
            b58_digits(n0) == b58_digits(be_nat(cur@)) + digits@,
            forall|k: int| 0 <= k < digits@.len() ==> digits@[k] < 58,
        decreases be_nat(cur@),
    {
        if crate::bytes::bytes_all_zero(&cur) {
            break;
        }
        let ghost before = be_nat(cur@);
        let ghost dprev = digits@;
        let d = divmod58(&mut cur);
        digits.insert(0, d);
        proof {
            assert(be_nat(cur@) * 58 + d as nat == before);
            assert(be_nat(cur@) == before / 58 && d as nat == before % 58);
            assert(b58_digits(before) == b58_digits(before / 58).push(d));
            assert(digits@ =~= seq![d] + dprev);
            assert(b58_digits(be_nat(cur@)) + digits@
                =~= b58_digits(be_nat(cur@)).push(d) + dprev);
            assert(b58_digits(n0) == b58_digits(be_nat(cur@)) + digits@);
            assert(be_nat(cur@) < before);
        }
    }
    proof {
        assert(b58_digits(0nat) =~= Seq::<u8>::empty());
        assert(digits@ =~= b58_digits(n0));
    }
    let mut out: Vec<u8> = Vec::new();
    let mut i: usize = 0;
    while i < digits.len()
        invariant
            forall|k: int| 0 <= k < digits@.len() ==> digits@[k] < 58,
            0 <= i <= digits@.len(),
            out@.len() == i,
            forall|k: int| 0 <= k < i ==> out@[k] == b58_char(digits@[k]),
        decreases digits@.len() - i,
    {
        out.push(b58_char_at(digits[i]));
        i += 1;
    }
    proof {
        assert(out@ =~= b58_chars(bytes@));
    }
    out
}

/// Multiply a fixed-width big-endian accumulator by 58 and add a digit.
/// Reports failure when the result no longer fits the width.
pub(crate) fn mul58_add(buf: &mut Vec<u8>, d: u8) -> (ok: bool)
    requires
        d < 58,
    ensures
        final(buf)@.len() == old(buf)@.len(),
        ok ==> be_nat(final(buf)@) == be_nat(old(buf)@) * 58 + d as nat,
        !ok ==> be_nat(old(buf)@) * 58 + d as nat >= pow256(old(buf)@.len()),
{
    let ghost orig = buf@;
    let len = buf.len();
    let mut carry: u16 = d as u16;
    let mut i: usize = len;
    proof {
        assert(buf@.subrange(len as int, len as int).len() == 0);
        assert(be_nat(buf@.subrange(len as int, len as int)) == 0);
        assert(pow256(0nat) == 1);
        assert((len - i) as nat == 0nat);
        assert(pow256((len - i) as nat) == 1);
        assert(carry as nat == d as nat);
        assert(carry as nat * pow256((len - i) as nat) == d as nat);
        assert(be_nat(buf@.subrange(i as int, len as int)) + carry as nat * pow256(
            (len - i) as nat) == be_nat(orig.subrange(i as int, len as int)) * 58 + d as nat);
    }
    while i > 0
        invariant
            len == buf@.len(),
            buf@.len() == orig.len(),
            0 <= i <= len,
            carry < 256,
            buf@.subrange(0, i as int) == orig.subrange(0, i as int),
            be_nat(buf@.subrange(i as int, len as int)) + carry as nat * pow256((len - i) as nat)
                == be_nat(orig.subrange(i as int, len as int)) * 58 + d as nat,
        decreases i,
    {
        i -= 1;
        proof {
            assert(buf@[i as int] == orig[i as int]) by {
                assert(buf@.subrange(0, i + 1)[i as int] == buf@[i as int]);
            };
        }
        let cur: u16 = (buf[i] as u16) * 58 + carry;
        let lo: u8 = (cur % 256) as u8;
        let hi: u16 = cur / 256;
        let ghost prev = buf@;
        buf[i] = lo;
        proof {
            let ii = i as int;
            let li = len as int;
            let p = pow256((len - i - 1) as nat);
            assert(v_sub_facts(prev, orig, buf@, ii, li, lo));
            lemma_be_nat_split_first(buf@.subrange(ii, li));
            lemma_be_nat_split_first(orig.subrange(ii, li));
            assert(buf@.subrange(ii, li)[0] == lo);
            assert(orig.subrange(ii, li)[0] == orig[ii]);
            assert(buf@.subrange(ii, li).drop_first() =~= prev.subrange(ii + 1, li));
            assert(orig.subrange(ii, li).drop_first() =~= orig.subrange(ii + 1, li));
            assert(pow256((len - i) as nat) == 256 * p);
            let a = be_nat(prev.subrange(ii + 1, li));
            let b = be_nat(orig.subrange(ii + 1, li));
            // a + carry * p == b * 58 + d  (the entry invariant, one step in).
            assert(lo as nat + 256 * (hi as nat) == cur as nat);
            assert(cur as nat == orig[ii] as nat * 58 + carry as nat);
            assert(lo as nat * p + hi as nat * (256 * p) == cur as nat * p) by (nonlinear_arith)
                requires
                    lo as nat + 256 * (hi as nat) == cur as nat,
            ;
            assert(cur as nat * p == orig[ii] as nat * 58 * p + carry as nat * p)
                by (nonlinear_arith)
                requires
                    cur as nat == orig[ii] as nat * 58 + carry as nat,
            ;
            assert((orig[ii] as nat * p + b) * 58 == orig[ii] as nat * 58 * p + b * 58)
                by (nonlinear_arith);
        }
        carry = hi;
    }
    proof {
        assert(buf@.subrange(0, len as int) =~= buf@);
        assert(orig.subrange(0, len as int) =~= orig);
        assert(buf@.subrange(len as int, len as int).len() == 0);
        if carry as nat >= 1 {
            vstd::arithmetic::mul::lemma_mul_inequality(1, carry as int, pow256(len as nat) as int);
        }
    }
    if carry == 0 {
        proof {
            assert(pow256(0nat) == 1);
        }
        true
    } else {
        proof {
            crate::bytes::lemma_pow256_pos(len as nat);
            assert(carry as nat * pow256(len as nat) >= pow256(len as nat)) by (nonlinear_arith)
                requires
                    carry as nat >= 1,
                    pow256(len as nat) >= 1,
            ;
        }
        false
    }
}

/// The subrange bookkeeping after one in-place store, gathered so the main
/// argument stays readable.
spec fn v_sub_facts(prev: Seq<u8>, orig: Seq<u8>, now: Seq<u8>, ii: int, li: int, lo: u8) -> bool {
    &&& now =~= prev.update(ii, lo)
    &&& now.subrange(0, ii) =~= prev.subrange(0, ii)
    &&& now.subrange(ii + 1, li) =~= prev.subrange(ii + 1, li)
}

} // verus!
