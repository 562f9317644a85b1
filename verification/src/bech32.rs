use vstd::prelude::*;

verus! {

// ---------------------------------------------------------------------------
// The bech32 character set "qpzry9x8gf2tvdw0s3jn54khce6mua7l".
// ---------------------------------------------------------------------------

/// The ASCII byte encoding a 5-bit value in a bech32 string.
pub open spec fn b32_char(d: u8) -> u8 {
    if d == 0 { 113 } else if d == 1 { 112 } else if d == 2 { 122 } else if d == 3 { 114 }
    else if d == 4 { 121 } else if d == 5 { 57 } else if d == 6 { 120 } else if d == 7 { 56 }
    else if d == 8 { 103 } else if d == 9 { 102 } else if d == 10 { 50 } else if d == 11 { 116 }
    else if d == 12 { 118 } else if d == 13 { 100 } else if d == 14 { 119 } else if d == 15 { 48 }
    else if d == 16 { 115 } else if d == 17 { 51 } else if d == 18 { 106 } else if d == 19 { 110 }
    else if d == 20 { 53 } else if d == 21 { 52 } else if d == 22 { 107 } else if d == 23 { 104 }
    else if d == 24 { 99 } else if d == 25 { 101 } else if d == 26 { 54 } else if d == 27 { 109 }
    else if d == 28 { 117 } else if d == 29 { 97 } else if d == 30 { 55 } else { 108 }
}

/// The 5-bit value an ASCII byte stands for, if it is in the character set.
pub open spec fn b32_rev(c: u8) -> Option<u8> {
    if c == 113 { Some(0u8) } else if c == 112 { Some(1u8) } else if c == 122 { Some(2u8) }
    else if c == 114 { Some(3u8) } else if c == 121 { Some(4u8) } else if c == 57 { Some(5u8) }
    else if c == 120 { Some(6u8) } else if c == 56 { Some(7u8) } else if c == 103 { Some(8u8) }
    else if c == 102 { Some(9u8) } else if c == 50 { Some(10u8) } else if c == 116 { Some(11u8) }
    else if c == 118 { Some(12u8) } else if c == 100 { Some(13u8) } else if c == 119 { Some(14u8) }
    else if c == 48 { Some(15u8) } else if c == 115 { Some(16u8) } else if c == 51 { Some(17u8) }
    else if c == 106 { Some(18u8) } else if c == 110 { Some(19u8) } else if c == 53 { Some(20u8) }
    else if c == 52 { Some(21u8) } else if c == 107 { Some(22u8) } else if c == 104 { Some(23u8) }
    else if c == 99 { Some(24u8) } else if c == 101 { Some(25u8) } else if c == 54 { Some(26u8) }
    else if c == 109 { Some(27u8) } else if c == 117 { Some(28u8) } else if c == 97 { Some(29u8) }
    else if c == 55 { Some(30u8) } else if c == 108 { Some(31u8) } else { None }
}

/// The two maps above invert each other.
pub proof fn lemma_b32_char_rev(d: u8)
    requires
        d < 32,
    ensures
        b32_rev(b32_char(d)) == Some(d),
{
}

pub proof fn lemma_b32_rev_char(c: u8, d: u8)
    requires
        b32_rev(c) == Some(d),
    ensures
        d < 32,
        b32_char(d) == c,
{
}

fn b32_char_at(d: u8) -> (r: u8)
    requires
        d < 32,
    ensures
        r == b32_char(d),
{
    if d == 0 { 113 } else if d == 1 { 112 } else if d == 2 { 122 } else if d == 3 { 114 }
    else if d == 4 { 121 } else if d == 5 { 57 } else if d == 6 { 120 } else if d == 7 { 56 }
    else if d == 8 { 103 } else if d == 9 { 102 } else if d == 10 { 50 } else if d == 11 { 116 }
    else if d == 12 { 118 } else if d == 13 { 100 } else if d == 14 { 119 } else if d == 15 { 48 }
    else if d == 16 { 115 } else if d == 17 { 51 } else if d == 18 { 106 } else if d == 19 { 110 }
    else if d == 20 { 53 } else if d == 21 { 52 } else if d == 22 { 107 } else if d == 23 { 104 }
    else if d == 24 { 99 } else if d == 25 { 101 } else if d == 26 { 54 } else if d == 27 { 109 }
    else if d == 28 { 117 } else if d == 29 { 97 } else if d == 30 { 55 } else { 108 }
}

fn b32_rev_at(c: u8) -> (r: Option<u8>)
    ensures
        r == b32_rev(c),
{
    if c == 113 { Some(0u8) } else if c == 112 { Some(1u8) } else if c == 122 { Some(2u8) }
    else if c == 114 { Some(3u8) } else if c == 121 { Some(4u8) } else if c == 57 { Some(5u8) }
    else if c == 120 { Some(6u8) } else if c == 56 { Some(7u8) } else if c == 103 { Some(8u8) }
    else if c == 102 { Some(9u8) } else if c == 50 { Some(10u8) } else if c == 116 { Some(11u8) }
    else if c == 118 { Some(12u8) } else if c == 100 { Some(13u8) } else if c == 119 { Some(14u8) }
    else if c == 48 { Some(15u8) } else if c == 115 { Some(16u8) } else if c == 51 { Some(17u8) }
    else if c == 106 { Some(18u8) } else if c == 110 { Some(19u8) } else if c == 53 { Some(20u8) }
    else if c == 52 { Some(21u8) } else if c == 107 { Some(22u8) } else if c == 104 { Some(23u8) }
    else if c == 99 { Some(24u8) } else if c == 101 { Some(25u8) } else if c == 54 { Some(26u8) }
    else if c == 109 { Some(27u8) } else if c == 117 { Some(28u8) } else if c == 97 { Some(29u8) }
    else if c == 55 { Some(30u8) } else if c == 108 { Some(31u8) } else { None }
}

// ---------------------------------------------------------------------------
// Regrouping bytes as 5-bit values.  Five bytes carry exactly eight 5-bit
// groups, so a 20-byte witness program regroups without padding.
// ---------------------------------------------------------------------------

/// The `j`-th 5-bit group of a byte string (read in big-endian bit order).
pub open spec fn u5_at(b: Seq<u8>, j: int) -> u8 {
    let b0 = b[5 * (j / 8)];
    let b1 = b[5 * (j / 8) + 1];
    let b2 = b[5 * (j / 8) + 2];
    let b3 = b[5 * (j / 8) + 3];
    let b4 = b[5 * (j / 8) + 4];
    let r = j % 8;
    if r == 0 { b0 >> 3 }
    else if r == 1 { ((b0 & 7) << 2) | (b1 >> 6) }
    else if r == 2 { (b1 >> 1) & 31 }
    else if r == 3 { ((b1 & 1) << 4) | (b2 >> 4) }
    else if r == 4 { ((b2 & 15) << 1) | (b3 >> 7) }
    else if r == 5 { (b3 >> 2) & 31 }
    else if r == 6 { ((b3 & 3) << 3) | (b4 >> 5) }
    else { b4 & 31 }
}

/// A byte string regrouped into 5-bit values.
pub open spec fn u5s_of_bytes(b: Seq<u8>) -> Seq<u8> {
    Seq::new(b.len() / 5 * 8, |j: int| u5_at(b, j))
}

/// The `i`-th byte reassembled from a string of 5-bit values.
pub open spec fn byte_at(g: Seq<u8>, i: int) -> u8 {
    let g0 = g[8 * (i / 5)];
    let g1 = g[8 * (i / 5) + 1];
    let g2 = g[8 * (i / 5) + 2];
    let g3 = g[8 * (i / 5) + 3];
    let g4 = g[8 * (i / 5) + 4];
    let g5 = g[8 * (i / 5) + 5];
    let g6 = g[8 * (i / 5) + 6];
    let g7 = g[8 * (i / 5) + 7];
    let r = i % 5;
    if r == 0 { (g0 << 3) | (g1 >> 2) }
    else if r == 1 { ((g1 & 3) << 6) | (g2 << 1) | (g3 >> 4) }
    else if r == 2 { ((g3 & 15) << 4) | (g4 >> 1) }
    else if r == 3 { ((g4 & 1) << 7) | (g5 << 2) | (g6 >> 3) }
    else { ((g6 & 7) << 5) | g7 }
}

/// A string of 5-bit values reassembled into bytes.
pub open spec fn bytes_of_u5s(g: Seq<u8>) -> Seq<u8> {
    Seq::new(g.len() / 8 * 5, |i: int| byte_at(g, i))
}

/// Every 5-bit group of a byte chunk is below 32.
proof fn lemma_u5_bounds(b0: u8, b1: u8, b2: u8, b3: u8, b4: u8)
    by (bit_vector)
    ensures
        b0 >> 3 < 32,
        (((b0 & 7) << 2) | (b1 >> 6)) < 32,
        ((b1 >> 1) & 31) < 32,
        (((b1 & 1) << 4) | (b2 >> 4)) < 32,
        (((b2 & 15) << 1) | (b3 >> 7)) < 32,
        ((b3 >> 2) & 31) < 32,
        (((b3 & 3) << 3) | (b4 >> 5)) < 32,
        (b4 & 31) < 32,
{
}

/// Reassembling the groups of a byte chunk yields the chunk again.
proof fn lemma_chunk_bytes_id(b0: u8, b1: u8, b2: u8, b3: u8, b4: u8)
    by (bit_vector)
    ensures
        ((b0 >> 3) << 3) | ((((b0 & 7) << 2) | (b1 >> 6)) >> 2) == b0,
        (((((b0 & 7) << 2) | (b1 >> 6)) & 3) << 6) | (((b1 >> 1) & 31) << 1)
            | ((((b1 & 1) << 4) | (b2 >> 4)) >> 4) == b1,
        (((((b1 & 1) << 4) | (b2 >> 4)) & 15) << 4) | ((((b2 & 15) << 1) | (b3 >> 7)) >> 1) == b2,
        (((((b2 & 15) << 1) | (b3 >> 7)) & 1) << 7) | (((b3 >> 2) & 31) << 2)
            | ((((b3 & 3) << 3) | (b4 >> 5)) >> 3) == b3,
        (((((b3 & 3) << 3) | (b4 >> 5)) & 7) << 5) | (b4 & 31) == b4,
{
}

/// Regrouping the bytes built from a group chunk yields the chunk again.
proof fn lemma_chunk_u5s_id(g0: u8, g1: u8, g2: u8, g3: u8, g4: u8, g5: u8, g6: u8, g7: u8)
    by (bit_vector)
    requires
        g0 < 32, g1 < 32, g2 < 32, g3 < 32, g4 < 32, g5 < 32, g6 < 32, g7 < 32,
    ensures
        ((g0 << 3) | (g1 >> 2)) >> 3 == g0,
        ((((g0 << 3) | (g1 >> 2)) & 7) << 2) | ((((g1 & 3) << 6) | (g2 << 1) | (g3 >> 4)) >> 6)
            == g1,
        ((((g1 & 3) << 6) | (g2 << 1) | (g3 >> 4)) >> 1) & 31 == g2,
        ((((g1 & 3) << 6) | (g2 << 1) | (g3 >> 4)) & 1) << 4
            | ((((g3 & 15) << 4) | (g4 >> 1)) >> 4) == g3,
        ((((g3 & 15) << 4) | (g4 >> 1)) & 15) << 1
            | ((((g4 & 1) << 7) | (g5 << 2) | (g6 >> 3)) >> 7) == g4,
        ((((g4 & 1) << 7) | (g5 << 2) | (g6 >> 3)) >> 2) & 31 == g5,
        ((((g4 & 1) << 7) | (g5 << 2) | (g6 >> 3)) & 3) << 3 | ((((g6 & 7) << 5) | g7) >> 5)
            == g6,
        (((g6 & 7) << 5) | g7) & 31 == g7,
{
}

/// The 5-bit groups of a byte string are below 32, and reassembling them
/// yields the string again.
pub proof fn lemma_bytes_groups_id(b: Seq<u8>)
    requires
        b.len() % 5 == 0,
    ensures
        u5s_of_bytes(b).len() == b.len() / 5 * 8,
        forall|j: int| 0 <= j < u5s_of_bytes(b).len() ==> u5s_of_bytes(b)[j] < 32,
        bytes_of_u5s(u5s_of_bytes(b)) == b,
{
    let g = u5s_of_bytes(b);
    assert forall|j: int| 0 <= j < g.len() implies g[j] < 32 by {
        let c = j / 8;
        assert(0 <= c && 5 * c + 4 < b.len());
        lemma_u5_bounds(b[5 * c], b[5 * c + 1], b[5 * c + 2], b[5 * c + 3], b[5 * c + 4]);
    };
    assert(g.len() / 8 * 5 == b.len());
    assert forall|i: int| 0 <= i < b.len() implies bytes_of_u5s(g)[i] == b[i] by {
        let c = i / 5;
        assert(0 <= c && 5 * c + 4 < b.len());
        assert(8 * c + 7 < g.len());
        assert(g[8 * c] == u5_at(b, 8 * c) && g[8 * c + 1] == u5_at(b, 8 * c + 1)
            && g[8 * c + 2] == u5_at(b, 8 * c + 2) && g[8 * c + 3] == u5_at(b, 8 * c + 3)
            && g[8 * c + 4] == u5_at(b, 8 * c + 4) && g[8 * c + 5] == u5_at(b, 8 * c + 5)
            && g[8 * c + 6] == u5_at(b, 8 * c + 6) && g[8 * c + 7] == u5_at(b, 8 * c + 7));
        assert((8 * c) / 8 == c && (8 * c) % 8 == 0 && (8 * c + 1) / 8 == c
            && (8 * c + 1) % 8 == 1 && (8 * c + 2) / 8 == c && (8 * c + 2) % 8 == 2
            && (8 * c + 3) / 8 == c && (8 * c + 3) % 8 == 3 && (8 * c + 4) / 8 == c
            && (8 * c + 4) % 8 == 4 && (8 * c + 5) / 8 == c && (8 * c + 5) % 8 == 5
            && (8 * c + 6) / 8 == c && (8 * c + 6) % 8 == 6 && (8 * c + 7) / 8 == c
            && (8 * c + 7) % 8 == 7);
        lemma_chunk_bytes_id(b[5 * c], b[5 * c + 1], b[5 * c + 2], b[5 * c + 3], b[5 * c + 4]);
        assert(i == 5 * c + i % 5);
    };
    assert(bytes_of_u5s(g) =~= b);
}

/// Regrouping the bytes assembled from 5-bit values yields the values again.
pub proof fn lemma_groups_bytes_id(g: Seq<u8>)
    requires
        g.len() % 8 == 0,
        forall|j: int| 0 <= j < g.len() ==> g[j] < 32,
    ensures
        bytes_of_u5s(g).len() == g.len() / 8 * 5,
        u5s_of_bytes(bytes_of_u5s(g)) == g,
{
    let b = bytes_of_u5s(g);
    assert(b.len() / 5 * 8 == g.len());
    assert forall|j: int| 0 <= j < g.len() implies u5s_of_bytes(b)[j] == g[j] by {
        let c = j / 8;
        assert(0 <= c && 8 * c + 7 < g.len());
        assert(5 * c + 4 < b.len());
        assert(b[5 * c] == byte_at(g, 5 * c) && b[5 * c + 1] == byte_at(g, 5 * c + 1)
            && b[5 * c + 2] == byte_at(g, 5 * c + 2) && b[5 * c + 3] == byte_at(g, 5 * c + 3)
            && b[5 * c + 4] == byte_at(g, 5 * c + 4));
        assert((5 * c) / 5 == c && (5 * c) % 5 == 0 && (5 * c + 1) / 5 == c
            && (5 * c + 1) % 5 == 1 && (5 * c + 2) / 5 == c && (5 * c + 2) % 5 == 2
            && (5 * c + 3) / 5 == c && (5 * c + 3) % 5 == 3 && (5 * c + 4) / 5 == c
            && (5 * c + 4) % 5 == 4);
        lemma_chunk_u5s_id(
            g[8 * c], g[8 * c + 1], g[8 * c + 2], g[8 * c + 3],
            g[8 * c + 4], g[8 * c + 5], g[8 * c + 6], g[8 * c + 7],
        );
        assert(j == 8 * c + j % 8);
    };
    assert(u5s_of_bytes(b) =~= g);
}

/// Regroup a 20-byte witness program into 32 values of 5 bits.
fn bytes_to_u5s(b: &Vec<u8>) -> (r: Vec<u8>)
    requires
        b@.len() == 20,
    ensures
        r@ == u5s_of_bytes(b@),
        r@.len() == 32,
        forall|j: int| 0 <= j < 32 ==> r@[j] < 32,
{
    let mut r: Vec<u8> = Vec::new();
    let mut c: usize = 0;
    while c < 4
        invariant
            b@.len() == 20,
            0 <= c <= 4,
            r@.len() == 8 * c,
            forall|j: int| 0 <= j < 8 * c ==> r@[j] == u5_at(b@, j),
        decreases 4 - c,
    {
        let b0 = b[5 * c];
        let b1 = b[5 * c + 1];
        let b2 = b[5 * c + 2];
        let b3 = b[5 * c + 3];
        let b4 = b[5 * c + 4];
        r.push(b0 >> 3);
        r.push(((b0 & 7) << 2) | (b1 >> 6));
        r.push((b1 >> 1) & 31);
        r.push(((b1 & 1) << 4) | (b2 >> 4));
        r.push(((b2 & 15) << 1) | (b3 >> 7));
        r.push((b3 >> 2) & 31);
        r.push(((b3 & 3) << 3) | (b4 >> 5));
        r.push(b4 & 31);
        proof {
            let ci = c as int;
            assert((8 * ci) / 8 == ci && (8 * ci) % 8 == 0 && (8 * ci + 1) / 8 == ci
                && (8 * ci + 1) % 8 == 1 && (8 * ci + 2) / 8 == ci && (8 * ci + 2) % 8 == 2
                && (8 * ci + 3) / 8 == ci && (8 * ci + 3) % 8 == 3 && (8 * ci + 4) / 8 == ci
                && (8 * ci + 4) % 8 == 4 && (8 * ci + 5) / 8 == ci && (8 * ci + 5) % 8 == 5
                && (8 * ci + 6) / 8 == ci && (8 * ci + 6) % 8 == 6 && (8 * ci + 7) / 8 == ci
                && (8 * ci + 7) % 8 == 7);
            assert forall|j: int| 0 <= j < 8 * (c + 1) implies r@[j] == u5_at(b@, j) by {};
        }
        c += 1;
    }
    proof {
        lemma_bytes_groups_id(b@);
        assert(r@ =~= u5s_of_bytes(b@));
    }
    r
}

/// Reassemble 32 values of 5 bits into the 20-byte witness program.
fn u5s_to_bytes(g: &Vec<u8>) -> (r: Vec<u8>)
    requires
        g@.len() == 32,
        forall|j: int| 0 <= j < 32 ==> g@[j] < 32,
    ensures
        r@ == bytes_of_u5s(g@),
        r@.len() == 20,
{
    let mut r: Vec<u8> = Vec::new();
    let mut c: usize = 0;
    while c < 4
        invariant
            g@.len() == 32,
            0 <= c <= 4,
            r@.len() == 5 * c,
            forall|i: int| 0 <= i < 5 * c ==> r@[i] == byte_at(g@, i),
        decreases 4 - c,
    {
        let g0 = g[8 * c];
        let g1 = g[8 * c + 1];
        let g2 = g[8 * c + 2];
        let g3 = g[8 * c + 3];
        let g4 = g[8 * c + 4];
        let g5 = g[8 * c + 5];
        let g6 = g[8 * c + 6];
        let g7 = g[8 * c + 7];
        r.push((g0 << 3) | (g1 >> 2));
        r.push(((g1 & 3) << 6) | (g2 << 1) | (g3 >> 4));
        r.push(((g3 & 15) << 4) | (g4 >> 1));
        r.push(((g4 & 1) << 7) | (g5 << 2) | (g6 >> 3));
        r.push(((g6 & 7) << 5) | g7);
        proof {
            let ci = c as int;
            assert((5 * ci) / 5 == ci && (5 * ci) % 5 == 0 && (5 * ci + 1) / 5 == ci
                && (5 * ci + 1) % 5 == 1 && (5 * ci + 2) / 5 == ci && (5 * ci + 2) % 5 == 2
                && (5 * ci + 3) / 5 == ci && (5 * ci + 3) % 5 == 3 && (5 * ci + 4) / 5 == ci
                && (5 * ci + 4) % 5 == 4);
            assert forall|i: int| 0 <= i < 5 * (c + 1) implies r@[i] == byte_at(g@, i) by {};
        }
        c += 1;
    }
    proof {
        assert(r@ =~= bytes_of_u5s(g@));
    }
    r
}

// ---------------------------------------------------------------------------
// The bech32 checksum (BIP-173, constant 1: witness version 0 addresses).
// ---------------------------------------------------------------------------

/// One step of the bech32 polynomial-modulus checksum.
pub open spec fn b32_step(chk: u32, v: u8) -> u32 {
    (((chk & 0x1ffffff) << 5) ^ (v as u32))
        ^ (if (chk >> 25) & 1 == 1 { 0x3b6a57b2u32 } else { 0u32 })
        ^ (if (chk >> 25) & 2 == 2 { 0x26508e6du32 } else { 0u32 })
        ^ (if (chk >> 25) & 4 == 4 { 0x1ea119fau32 } else { 0u32 })
        ^ (if (chk >> 25) & 8 == 8 { 0x3d4233ddu32 } else { 0u32 })
        ^ (if (chk >> 25) & 16 == 16 { 0x2a1462b3u32 } else { 0u32 })
}

/// The bech32 polynomial modulus of a string of 5-bit values.
pub open spec fn b32_polymod(vals: Seq<u8>) -> u32
    decreases vals.len(),
{
    if vals.len() == 0 {
        1u32
    } else {
        b32_step(b32_polymod(vals.drop_last()), vals.last())
    }
}

/// The checksum input derived from a human-readable prefix.
pub open spec fn hrp_expand(hrp: Seq<u8>) -> Seq<u8> {
    Seq::new(hrp.len(), |i: int| hrp[i] >> 5) + seq![0u8]
        + Seq::new(hrp.len(), |i: int| hrp[i] & 31)
}

/// The six 5-bit checksum values appended to a bech32 string.
pub open spec fn b32_checksum(hrp: Seq<u8>, data: Seq<u8>) -> Seq<u8> {
    let pm = b32_polymod(hrp_expand(hrp) + data + seq![0u8, 0u8, 0u8, 0u8, 0u8, 0u8]) ^ 1u32;
    seq![
        ((pm >> 25) & 31) as u8,
        ((pm >> 20) & 31) as u8,
        ((pm >> 15) & 31) as u8,
        ((pm >> 10) & 31) as u8,
        ((pm >> 5) & 31) as u8,
        (pm & 31) as u8,
    ]
}

/// Every checksum value is below 32.
proof fn lemma_checksum_bounds(pm: u32)
    by (bit_vector)
    ensures
        ((pm >> 25) & 31) < 32,
        ((pm >> 20) & 31) < 32,
        ((pm >> 15) & 31) < 32,
        ((pm >> 10) & 31) < 32,
        ((pm >> 5) & 31) < 32,
        (pm & 31) < 32,
{
}

fn b32_step_at(chk: u32, v: u8) -> (r: u32)
    ensures
        r == b32_step(chk, v),
{
    let b = chk >> 25;
    let t0: u32 = if b & 1 == 1 { 0x3b6a57b2 } else { 0 };
    let t1: u32 = if b & 2 == 2 { 0x26508e6d } else { 0 };
    let t2: u32 = if b & 4 == 4 { 0x1ea119fa } else { 0 };
    let t3: u32 = if b & 8 == 8 { 0x3d4233dd } else { 0 };
    let t4: u32 = if b & 16 == 16 { 0x2a1462b3 } else { 0 };
    (((chk & 0x1ffffff) << 5) ^ (v as u32)) ^ t0 ^ t1 ^ t2 ^ t3 ^ t4
}

fn b32_polymod_at(vals: &Vec<u8>) -> (r: u32)
    ensures
        r == b32_polymod(vals@),
{
    let mut chk: u32 = 1;
    let mut i: usize = 0;
    while i < vals.len()
        invariant
            0 <= i <= vals@.len(),
            chk == b32_polymod(vals@.subrange(0, i as int)),
        decreases vals@.len() - i,
    {
        proof {
            assert(vals@.subrange(0, i + 1).drop_last() =~= vals@.subrange(0, i as int));
            assert(vals@.subrange(0, i + 1).last() == vals@[i as int]);
        }
        chk = b32_step_at(chk, vals[i]);
        i += 1;
    }
    proof {
        assert(vals@.subrange(0, vals@.len() as int) =~= vals@);
    }
    chk
}

/// Append the whole of `src` to `dst`.
fn push_all(dst: &mut Vec<u8>, src: &Vec<u8>)
    ensures
        final(dst)@ == old(dst)@ + src@,
{
    let mut i: usize = 0;
    while i < src.len()
        invariant
            0 <= i <= src@.len(),
            dst@ == old(dst)@ + src@.subrange(0, i as int),
        decreases src@.len() - i,
    {
        dst.push(src[i]);
        proof {
            assert(old(dst)@ + src@.subrange(0, i + 1)
                =~= (old(dst)@ + src@.subrange(0, i as int)).push(src@[i as int]));
        }
        i += 1;
    }
    proof {
        assert(src@.subrange(0, src@.len() as int) =~= src@);
    }
}

/// Compute the six checksum values for a prefix and data part.
fn b32_checksum_at(hrp: &Vec<u8>, data: &Vec<u8>) -> (r: Vec<u8>)
    ensures
        r@ == b32_checksum(hrp@, data@),
        r@.len() == 6,
        forall|i: int| 0 <= i < 6 ==> r@[i] < 32,
{
    let mut vals: Vec<u8> = Vec::new();
    let mut i: usize = 0;
    while i < hrp.len()
        invariant
            0 <= i <= hrp@.len(),
            vals@.len() == i,
            forall|k: int| 0 <= k < i ==> vals@[k] == hrp@[k] >> 5,
        decreases hrp@.len() - i,
    {
        vals.push(hrp[i] >> 5);
        i += 1;
    }
    vals.push(0);
    let mut i2: usize = 0;
    while i2 < hrp.len()
        invariant
            0 <= i2 <= hrp@.len(),
            vals@.len() == hrp@.len() + 1 + i2,
            forall|k: int| 0 <= k < hrp@.len() ==> vals@[k] == hrp@[k] >> 5,
            vals@[hrp@.len() as int] == 0,
            forall|k: int| 0 <= k < i2 ==> vals@[hrp@.len() + 1 + k] == hrp@[k] & 31,
        decreases hrp@.len() - i2,
    {
        vals.push(hrp[i2] & 31);
        i2 += 1;
    }
    proof {
        assert(vals@ =~= hrp_expand(hrp@));
    }
    push_all(&mut vals, data);
    let mut z: usize = 0;
    while z < 6
        invariant
            0 <= z <= 6,
            vals@ == hrp_expand(hrp@) + data@ + seq![0u8, 0u8, 0u8, 0u8, 0u8, 0u8].subrange(
                0, z as int),
        decreases 6 - z,
    {
        vals.push(0);
        proof {
            assert(hrp_expand(hrp@) + data@ + seq![0u8, 0u8, 0u8, 0u8, 0u8, 0u8].subrange(
                0, z + 1) =~= (hrp_expand(hrp@) + data@
                + seq![0u8, 0u8, 0u8, 0u8, 0u8, 0u8].subrange(0, z as int)).push(0u8));
        }
        z += 1;
    }
    proof {
        assert(seq![0u8, 0u8, 0u8, 0u8, 0u8, 0u8].subrange(0, 6)
            =~= seq![0u8, 0u8, 0u8, 0u8, 0u8, 0u8]);
    }
    let pm = b32_polymod_at(&vals) ^ 1;
    proof {
        lemma_checksum_bounds(pm);
    }
    let mut r: Vec<u8> = Vec::new();
    r.push(((pm >> 25) & 31) as u8);
    r.push(((pm >> 20) & 31) as u8);
    r.push(((pm >> 15) & 31) as u8);
    r.push(((pm >> 10) & 31) as u8);
    r.push(((pm >> 5) & 31) as u8);
    r.push((pm & 31) as u8);
    proof {
        assert(r@ =~= b32_checksum(hrp@, data@));
    }
    r
}

// ---------------------------------------------------------------------------
// Witness version 0 addresses: encoding and decoding.
// ---------------------------------------------------------------------------

/// The data part of a version 0 witness address: the version value followed
/// by the regrouped program.
pub open spec fn addr_data(prog: Seq<u8>) -> Seq<u8> {
    seq![0u8] + u5s_of_bytes(prog)
}

/// The full character string of a version 0 witness address for a 20-byte
/// program: prefix, separator '1', data characters, checksum characters.
pub open spec fn addr_chars(hrp: Seq<u8>, prog: Seq<u8>) -> Seq<u8> {
    let data = addr_data(prog);
    hrp + seq![49u8] + data.map_values(|d: u8| b32_char(d))
        + b32_checksum(hrp, data).map_values(|d: u8| b32_char(d))
}

/// Encode a 20-byte witness program as a version 0 bech32 address.
pub fn encode_witness_v0(hrp: &Vec<u8>, prog: &Vec<u8>) -> (r: Vec<u8>)
    requires
        prog@.len() == 20,
    ensures
        r@ == addr_chars(hrp@, prog@),
{
    let groups = bytes_to_u5s(prog);
    let mut data: Vec<u8> = Vec::new();
    data.push(0);
    push_all(&mut data, &groups);
    proof {
        assert(data@ =~= addr_data(prog@));
        assert(forall|k: int| 0 <= k < data@.len() ==> data@[k] < 32);
    }
    let cs = b32_checksum_at(hrp, &data);
    let mut r: Vec<u8> = Vec::new();
    push_all(&mut r, hrp);
    r.push(49);
    let mut i: usize = 0;
    while i < data.len()
        invariant
            0 <= i <= data@.len(),
            forall|k: int| 0 <= k < data@.len() ==> data@[k] < 32,
            r@ == hrp@ + seq![49u8] + data@.subrange(0, i as int).map_values(
                |d: u8| b32_char(d)),
        decreases data@.len() - i,
    {
        r.push(b32_char_at(data[i]));
        proof {
            assert(data@.subrange(0, i + 1).map_values(|d: u8| b32_char(d))
                =~= data@.subrange(0, i as int).map_values(|d: u8| b32_char(d)).push(
                    b32_char(data@[i as int])));
            assert(hrp@ + seq![49u8] + data@.subrange(0, i + 1).map_values(|d: u8| b32_char(d))
                =~= (hrp@ + seq![49u8] + data@.subrange(0, i as int).map_values(
                    |d: u8| b32_char(d))).push(b32_char(data@[i as int])));
        }
        i += 1;
    }
    proof {
        assert(data@.subrange(0, data@.len() as int) =~= data@);
    }
    let mut i2: usize = 0;
    while i2 < cs.len()
        invariant
            0 <= i2 <= cs@.len(),
            cs@.len() == 6,
            forall|k: int| 0 <= k < 6 ==> cs@[k] < 32,
            r@ == hrp@ + seq![49u8] + data@.map_values(|d: u8| b32_char(d))
                + cs@.subrange(0, i2 as int).map_values(|d: u8| b32_char(d)),
        decreases cs@.len() - i2,
    {
        r.push(b32_char_at(cs[i2]));
        proof {
            assert(cs@.subrange(0, i2 + 1).map_values(|d: u8| b32_char(d))
                =~= cs@.subrange(0, i2 as int).map_values(|d: u8| b32_char(d)).push(
                    b32_char(cs@[i2 as int])));
            assert(hrp@ + seq![49u8] + data@.map_values(|d: u8| b32_char(d))
                + cs@.subrange(0, i2 + 1).map_values(|d: u8| b32_char(d))
                =~= (hrp@ + seq![49u8] + data@.map_values(|d: u8| b32_char(d))
                    + cs@.subrange(0, i2 as int).map_values(|d: u8| b32_char(d))).push(
                    b32_char(cs@[i2 as int])));
        }
        i2 += 1;
    }
    proof {
        assert(cs@.subrange(0, 6) =~= cs@);
        assert(r@ =~= addr_chars(hrp@, prog@));
    }
    r
}

/// Decode a version 0 bech32 address back to its 20-byte witness program.
///
/// Returns the program exactly when the input is the address encoding of some
/// 20-byte program under the given prefix, and `None` otherwise.  The checksum
/// is verified by recomputation, which accepts the same strings as the
/// polynomial-modulus check because the six checksum values of a given prefix
/// and data part are unique.
pub fn decode_witness_v0(hrp: &Vec<u8>, addr: &Vec<u8>) -> (r: Option<Vec<u8>>)
    ensures
        r matches Some(p) ==> p@.len() == 20 && addr@ == addr_chars(hrp@, p@),
        forall|p: Seq<u8>|
            p.len() == 20 && addr@ == addr_chars(hrp@, p) ==> (r matches Some(q) && q@ == p),
{
    proof {
        assert forall|p: Seq<u8>| p.len() == 20 implies addr_chars(hrp@, p).len()
            == hrp@.len() + 40 && addr_data(p).len() == 33 by {
            assert(u5s_of_bytes(p).len() == 32);
        };
    }
    if addr.len() < 40 || addr.len() - 40 != hrp.len() {
        return None;
    }
    let hl = hrp.len();
    let mut i: usize = 0;
    while i < hl
        invariant
            hl == hrp@.len(),
            addr@.len() == hl + 40,
            0 <= i <= hl,
            forall|k: int| 0 <= k < i ==> addr@[k] == hrp@[k],
        decreases hl - i,
    {
        if addr[i] != hrp[i] {
            proof {
                assert forall|p: Seq<u8>| p.len() == 20 && addr@ == addr_chars(hrp@, p)
                    implies false by {
                    assert(addr_chars(hrp@, p)[i as int] == hrp@[i as int]);
                };
            }
            return None;
        }
        i += 1;
    }
    if addr[hl] != 49 {
        proof {
            assert forall|p: Seq<u8>| p.len() == 20 && addr@ == addr_chars(hrp@, p)
                implies false by {
                assert(addr_chars(hrp@, p)[hl as int] == 49);
            };
        }
        return None;
    }
    // Parse the 39 data and checksum characters.
    let mut ds: Vec<u8> = Vec::new();
    let mut k: usize = 0;
    while k < 39
        invariant
            hl == hrp@.len(),
            addr@.len() == hl + 40,
            addr@.len() <= usize::MAX,
            0 <= k <= 39,
            ds@.len() == k,
            forall|t: int| 0 <= t < k ==> b32_rev(addr@[hl + 1 + t]) == Some(ds@[t])
                && ds@[t] < 32 && b32_char(ds@[t]) == addr@[hl + 1 + t],
        decreases 39 - k,
    {
        match b32_rev_at(addr[hl + 1 + k]) {
            None => {
                proof {
                    assert forall|p: Seq<u8>| p.len() == 20 && addr@ == addr_chars(hrp@, p)
                        implies false by {
                        let data = addr_data(p);
                        lemma_bytes_groups_id(p);
                        if k < 33 {
                            assert(addr_chars(hrp@, p)[hl + 1 + k]
                                == b32_char(data[k as int]));
                            assert(data[k as int] < 32);
                            lemma_b32_char_rev(data[k as int]);
                        } else {
                            let cs = b32_checksum(hrp@, data);
                            assert(addr_chars(hrp@, p)[hl + 1 + k]
                                == b32_char(cs[k - 33]));
                            lemma_checksum_bounds(b32_polymod(hrp_expand(hrp@) + data
                                + seq![0u8, 0u8, 0u8, 0u8, 0u8, 0u8]) ^ 1u32);
                            lemma_b32_char_rev(cs[k - 33]);
                        }
                    };
                }
                return None;
            },
            Some(d) => {
                proof {
                    lemma_b32_rev_char(addr@[hl + 1 + k], d);
                }
                ds.push(d);
            },
        }
        k += 1;
    }
    // Witness version must be 0.
    if ds[0] != 0 {
        proof {
            assert forall|p: Seq<u8>| p.len() == 20 && addr@ == addr_chars(hrp@, p)
                implies false by {
                let data = addr_data(p);
                lemma_bytes_groups_id(p);
                assert(addr_chars(hrp@, p)[hl + 1] == b32_char(data[0]));
                assert(data[0] == 0);
                lemma_b32_char_rev(0);
                assert(b32_rev(addr@[hl + 1]) == Some(0u8));
            };
        }
        return None;
    }
    // Recompute and compare the checksum.
    let mut data: Vec<u8> = Vec::new();
    let mut t: usize = 0;
    while t < 33
        invariant
            0 <= t <= 33,
            ds@.len() == 39,
            data@ == ds@.subrange(0, t as int),
        decreases 33 - t,
    {
        data.push(ds[t]);
        proof {
            assert(ds@.subrange(0, t + 1) =~= ds@.subrange(0, t as int).push(ds@[t as int]));
        }
        t += 1;
    }
    let cs = b32_checksum_at(hrp, &data);
    let mut u: usize = 0;
    while u < 6
        invariant
            hl == hrp@.len(),
            addr@.len() == hl + 40,
            0 <= u <= 6,
            ds@.len() == 39,
            data@ == ds@.subrange(0, 33),
            cs@ == b32_checksum(hrp@, data@),
            cs@.len() == 6,
            forall|v: int| 0 <= v < u ==> ds@[33 + v] == cs@[v],
            forall|v: int| 0 <= v < 39 ==> b32_rev(addr@[hl + 1 + v]) == Some(ds@[v])
                && ds@[v] < 32 && b32_char(ds@[v]) == addr@[hl + 1 + v],
            ds@[0] == 0,
        decreases 6 - u,
    {
        if ds[33 + u] != cs[u] {
            proof {
                assert forall|p: Seq<u8>| p.len() == 20 && addr@ == addr_chars(hrp@, p)
                    implies false by {
                    let pdata = addr_data(p);
                    lemma_bytes_groups_id(p);
                    // The parsed data part equals the encoding's data part.
                    assert forall|v: int| 0 <= v < 33 implies ds@[v] == pdata[v] by {
                        assert(addr_chars(hrp@, p)[hl + 1 + v] == b32_char(pdata[v]));
                        assert(pdata[v] < 32);
                        lemma_b32_char_rev(pdata[v]);
                    };
                    assert(data@ =~= pdata);
                    let pcs = b32_checksum(hrp@, pdata);
                    assert(addr_chars(hrp@, p)[hl + 1 + 33 + u] == b32_char(pcs[u as int]));
                    lemma_checksum_bounds(b32_polymod(hrp_expand(hrp@) + pdata
                        + seq![0u8, 0u8, 0u8, 0u8, 0u8, 0u8]) ^ 1u32);
                    lemma_b32_char_rev(pcs[u as int]);
                    assert(ds@[33 + u] == pcs[u as int]);
                };
            }
            return None;
        }
        u += 1;
    }
    // Reassemble the witness program.
    let mut groups: Vec<u8> = Vec::new();
    let mut w: usize = 1;
    while w < 33
        invariant
            1 <= w <= 33,
            ds@.len() == 39,
            groups@ == ds@.subrange(1, w as int),
            forall|v: int| 0 <= v < 39 ==> ds@[v] < 32,
        decreases 33 - w,
    {
        groups.push(ds[w]);
        proof {
            assert(ds@.subrange(1, w + 1) =~= ds@.subrange(1, w as int).push(ds@[w as int]));
        }
        w += 1;
    }
    let prog = u5s_to_bytes(&groups);
    proof {
        let g = ds@.subrange(1, 33);
        lemma_groups_bytes_id(g);
        // Soundness: the input is exactly the encoding of `prog`.
        assert(addr_data(prog@) =~= ds@.subrange(0, 33)) by {
            assert(u5s_of_bytes(bytes_of_u5s(g)) == g);
            assert(addr_data(prog@).len() == 33);
            assert(forall|v: int| 1 <= v < 33 ==> addr_data(prog@)[v] == g[v - 1]);
        };
        let pdata = addr_data(prog@);
        assert(addr_chars(hrp@, prog@) =~= addr@) by {
            assert(pdata.len() == 33);
            assert(b32_checksum(hrp@, pdata).len() == 6);
            assert(addr_chars(hrp@, prog@).len() == hl + 40);
            assert forall|v: int| 0 <= v < hl + 40 implies addr_chars(hrp@, prog@)[v]
                == addr@[v] by {
                if v < hl {
                } else if v == hl {
                } else if v < hl + 34 {
                    assert(addr_chars(hrp@, prog@)[v] == b32_char(pdata[v - hl - 1]));
                    assert(pdata[v - hl - 1] == ds@[v - hl - 1]);
                    assert(b32_char(ds@[v - hl - 1]) == addr@[v]);
                } else {
                    assert(addr_chars(hrp@, prog@)[v]
                        == b32_char(b32_checksum(hrp@, pdata)[v - hl - 34]));
                    assert(data@ =~= pdata);
                    assert(b32_checksum(hrp@, pdata)[v - hl - 34] == cs@[v - hl - 34]);
                    assert(cs@[v - hl - 34] == ds@[33 + (v - hl - 34)]);
                    assert(b32_char(ds@[v - hl - 34 + 33]) == addr@[v]);
                }
            };
        };
        // Completeness: any program whose encoding is the input is this one.
        assert forall|p: Seq<u8>| p.len() == 20 && addr@ == addr_chars(hrp@, p)
            implies prog@ == p by {
            lemma_bytes_groups_id(p);
            let qdata = addr_data(p);
            assert forall|v: int| 0 <= v < 33 implies ds@[v] == qdata[v] by {
                assert(addr_chars(hrp@, p)[hl + 1 + v] == b32_char(qdata[v]));
                assert(qdata[v] < 32);
                lemma_b32_char_rev(qdata[v]);
            };
            assert(g =~= u5s_of_bytes(p));
            assert(prog@ == bytes_of_u5s(u5s_of_bytes(p)));
            assert(bytes_of_u5s(u5s_of_bytes(p)) == p);
        };
    }
    Some(prog)
}

} // verus!
