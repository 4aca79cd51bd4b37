use vstd::prelude::*;

verus! {

/// The masks that keep the lowest `n` bits of a byte, for `n` in `0..=8`.
pub const MASK8: [u8; 9] = [0x00, 0x01, 0x03, 0x07, 0x0F, 0x1F, 0x3F, 0x7F, 0xFF];

/// Bits are handled a byte at a time.
pub const BITS: usize = 8;

/// The bytes a unit of work takes.
pub const ALIGN: usize = 1;

/// Bit `t` of a byte, the lowest bit being bit 0.
pub open spec fn byte_bit(b: u8, t: int) -> bool {
    (b >> (t as u8)) & 1u8 == 1u8
}

/// Bit `i` of a run of bytes: bit `i % 8` of byte `i / 8`, so that the lowest bits of a byte come
/// first; there is no bit outside the bytes.
pub open spec fn bit(data: Seq<u8>, i: int) -> bool {
    0 <= i < data.len() * 8 && byte_bit(data[i / 8], i % 8)
}

/// `size` rounded up to a multiple of `alignment`.
pub open spec fn align_spec(size: int, alignment: int) -> int {
    if size != 0 {
        ((size - 1) / alignment + 1) * alignment
    } else {
        0
    }
}

/// The bytes that hold `total_bits` bits.
pub open spec fn total_bytes(total_bits: int) -> int {
    align_spec(total_bits, 8) / 8
}

/// The smaller of two integers.
pub open spec fn min_int(a: int, b: int) -> int {
    if a < b { a } else { b }
}

/// * Alignment calculation: `size` rounded up to a multiple of `alignment`.
pub fn align(size: usize, alignment: usize) -> (r: usize)
    requires
        alignment > 0,
        align_spec(size as int, alignment as int) <= usize::MAX,
    ensures
        r == align_spec(size as int, alignment as int),
{
    if size != 0 {
        assert((size - 1) / (alignment as int) + 1 <= size) by (nonlinear_arith)
            requires size >= 1, alignment >= 1;
        ((size - 1) / alignment + 1) * alignment
    } else {
        0
    }
}

/// Rounding up gives the least multiple of `alignment` that is at least `size`.
pub proof fn lemma_align(size: int, alignment: int)
    requires
        size >= 0,
        alignment > 0,
    ensures
        align_spec(size, alignment) % alignment == 0,
        size <= align_spec(size, alignment) < size + alignment,
{
    if size != 0 {
        let q = (size - 1) / alignment;
        assert(q * alignment <= size - 1 < q * alignment + alignment) by (nonlinear_arith)
            requires q == (size - 1) / alignment, alignment > 0, size >= 1;
        assert(((q + 1) * alignment) % alignment == 0) by (nonlinear_arith)
            requires alignment > 0;
        assert((q + 1) * alignment == q * alignment + alignment) by (nonlinear_arith);
    }
}

/// The bytes for `total_bits` bits: `total_bits / 8` rounded up.
pub proof fn lemma_total_bytes(total_bits: int)
    requires
        total_bits >= 0,
    ensures
        total_bytes(total_bits) * 8 >= total_bits,
        total_bytes(total_bits) * 8 < total_bits + 8,
        total_bytes(total_bits) == (total_bits + 7) / 8,
{
    lemma_align(total_bits, 8);
}

/// Shifting right then left by the rest of the byte: each bit of the result comes from one of
/// the two bytes.
proof fn lemma_combine_bits(a: u8, b: u8, s: u8, t: u8)
    requires
        1 <= s < 8,
        t < 8,
    ensures
        byte_bit((a >> s) | (b << ((8 - s) as u8)), t as int) == if t + s < 8 {
            byte_bit(a, (t + s) as int)
        } else {
            byte_bit(b, (t + s - 8) as int)
        },
{
    let c = (a >> s) | (b << ((8 - s) as u8));
    if t + s < 8 {
        assert(((c >> t) & 1u8 == 1u8) == ((a >> ((t + s) as u8)) & 1u8 == 1u8)) by (bit_vector)
            requires c == (a >> s) | (b << ((8 - s) as u8)), 1 <= s < 8, t < 8, t + s < 8;
    } else {
        assert(((c >> t) & 1u8 == 1u8) == ((b >> ((t + s - 8) as u8)) & 1u8 == 1u8)) by (bit_vector)
            requires c == (a >> s) | (b << ((8 - s) as u8)), 1 <= s < 8, t < 8, t + s >= 8;
    }
}

/// Masking keeps the lowest `r` bits.
proof fn lemma_mask_bits(a: u8, r: u8, t: u8)
    requires
        r <= 8,
        t < 8,
    ensures
        byte_bit(a & MASK8@[r as int], t as int) == (t < r && byte_bit(a, t as int)),
{
    assert(MASK8@.len() == 9);
    let m = MASK8@[r as int];
    assert(r == 0 ==> m == 0x00);
    assert(r == 1 ==> m == 0x01);
    assert(r == 2 ==> m == 0x03);
    assert(r == 3 ==> m == 0x07);
    assert(r == 4 ==> m == 0x0F);
    assert(r == 5 ==> m == 0x1F);
    assert(r == 6 ==> m == 0x3F);
    assert(r == 7 ==> m == 0x7F);
    assert(r == 8 ==> m == 0xFF);
    let c = a & m;
    assert(((c >> t) & 1u8 == 1u8) == (t < r && (a >> t) & 1u8 == 1u8)) by (bit_vector)
        requires
            c == a & m,
            r <= 8,
            t < 8,
            r == 0 ==> m == 0x00u8,
            r == 1 ==> m == 0x01u8,
            r == 2 ==> m == 0x03u8,
            r == 3 ==> m == 0x07u8,
            r == 4 ==> m == 0x0Fu8,
            r == 5 ==> m == 0x1Fu8,
            r == 6 ==> m == 0x3Fu8,
            r == 7 ==> m == 0x7Fu8,
            r == 8 ==> m == 0xFFu8;
}

/// Setting the bits from `s` up of a byte whose bits from `s` up are clear.
proof fn lemma_or_shift_bits(a: u8, b: u8, s: u8, t: u8)
    requires
        1 <= s < 8,
        t < 8,
        forall|k: u8| s <= k < 8 ==> !#[trigger] byte_bit(a, k as int),
    ensures
        byte_bit(a | (b << s), t as int) == if t < s { byte_bit(a, t as int) } else { byte_bit(b, (t - s) as int) },
{
    let c = a | (b << s);
    if t < s {
        assert(((c >> t) & 1u8 == 1u8) == ((a >> t) & 1u8 == 1u8)) by (bit_vector)
            requires c == a | (b << s), 1 <= s < 8, t < 8, t < s;
    } else {
        assert(!byte_bit(a, t as int));
        assert(((c >> t) & 1u8 == 1u8) == ((b >> ((t - s) as u8)) & 1u8 == 1u8)) by (bit_vector)
            requires c == a | (b << s), 1 <= s < 8, t < 8, t >= s, (a >> t) & 1u8 != 1u8;
    }
}

/// The bytes from `start` on, copied.
fn copy_from(data: &Vec<u8>, start: usize) -> (r: Vec<u8>)
    requires
        start <= data@.len(),
    ensures
        r@ == data@.skip(start as int),
{
    let mut r: Vec<u8> = Vec::new();
    let mut i: usize = start;
    while i < data.len()
        invariant
            start <= i <= data@.len(),
            r@ == data@.subrange(start as int, i as int),
        decreases data@.len() - i,
    {
        r.push(data[i]);
        i += 1;
        assert(r@ =~= data@.subrange(start as int, i as int));
    }
    assert(r@ =~= data@.skip(start as int));
    r
}

/// The bytes `shift_data_to_front` gives for `len` bytes.
pub open spec fn front_len(len: int, bits: int, total_bits: int) -> int {
    if bits == 0 {
        len
    } else if bits >= total_bits {
        0
    } else if bits % 8 == 0 {
        len - bits / 8
    } else {
        min_int(len - bits / 8, total_bytes(total_bits - bits))
    }
}

/// The inputs on which `shift_data_to_front` works: the bytes to skip are there, and a shift
/// within bytes has a byte to shift.
pub open spec fn front_ok(len: int, bits: int, total_bits: int) -> bool {
    bits == 0 || bits >= total_bits || (bits / 8 <= len && (bits % 8 == 0 || bits / 8 < len))
}

/// * Shift an array of bits to the front. In a byte, the lower bits are the front bits.
/// * Bit `j` of the result is bit `j + bits` of `data`; where `bits` is not a whole number of
///   bytes, the result keeps just the bytes for the `total_bits - bits` bits left.
pub fn shift_data_to_front(data: &Vec<u8>, bits: usize, total_bits: usize) -> (r: Vec<u8>)
    requires
        front_ok(data@.len() as int, bits as int, total_bits as int),
        bits == 0 || bits >= total_bits || align_spec(total_bits - bits, 8) <= usize::MAX,
    ensures
        r@.len() == front_len(data@.len() as int, bits as int, total_bits as int),
        forall|j: int| 0 <= j < r@.len() * 8 ==> bit(r@, j) == bit(data@, j + bits),
{
    if bits == 0 {
        copy_from(data, 0)
    } else if bits >= total_bits {
        Vec::new()
    } else {
        let bytes_moving = bits >> 3;
        assert(bytes_moving == bits / 8) by (bit_vector) requires bytes_moving == bits >> 3;
        let data_moved = copy_from(data, bytes_moving);
        let s = bits & 7;
        assert(s == bits % 8) by (bit_vector) requires s == bits & 7;
        if s == 0 {
            assert forall|j: int| 0 <= j < data_moved@.len() * 8 implies bit(data_moved@, j) == bit(data@, j + bits) by {
                assert((j + bits) / 8 == j / 8 + bytes_moving && (j + bits) % 8 == j % 8) by (nonlinear_arith)
                    requires bits == bytes_moving * 8, j >= 0;
            }
            data_moved
        } else {
            let n = data_moved.len();
            let sh = s as u8;
            let keep = total_bits - bits;
            let limit = align(keep, 8) / 8;
            let mut r: Vec<u8> = Vec::new();
            let mut i: usize = 0;
            while i < n && i < limit
                invariant
                    n == data_moved@.len(),
                    n >= 1,
                    1 <= sh < 8,
                    sh == bits % 8,
                    bits == bytes_moving * 8 + sh,
                    data_moved@ == data@.skip(bytes_moving as int),
                    bytes_moving + n == data@.len(),
                    limit == total_bytes(keep as int),
                    i <= n,
                    i <= limit,
                    r@.len() == i,
                    forall|j: int| 0 <= j < r@.len() * 8 ==> bit(r@, j) == bit(data@, j + bits),
                decreases n - i,
            {
                let a = data_moved[i];
                let b = if i + 1 < n { data_moved[i + 1] } else { 0u8 };
                let c = (a >> sh) | (b << (8 - sh));
                let ghost r_old = r@;
                r.push(c);
                proof {
                    assert forall|j: int| 0 <= j < r@.len() * 8 implies bit(r@, j) == bit(data@, j + bits) by {
                        if j >= i * 8 {
                            let t = j - i * 8;
                            assert(0 <= t < 8);
                            assert(j / 8 == i && j % 8 == t) by (nonlinear_arith)
                                requires j == i * 8 + t, 0 <= t < 8;
                            assert(r@[i as int] == c);
                            lemma_combine_bits(a, b, sh, t as u8);
                            assert(a == data@[bytes_moving + i]);
                            if t + sh < 8 {
                                assert((j + bits) / 8 == bytes_moving + i && (j + bits) % 8 == t + sh) by (nonlinear_arith)
                                    requires j == i * 8 + t, bits == bytes_moving * 8 + sh, 0 <= t + sh < 8;
                            } else {
                                assert((j + bits) / 8 == bytes_moving + i + 1 && (j + bits) % 8 == t + sh - 8) by (nonlinear_arith)
                                    requires j == i * 8 + t, bits == bytes_moving * 8 + sh, 8 <= t + sh < 16;
                                if i + 1 >= n {
                                    assert(b == 0);
                                    let tt = (t + sh - 8) as u8;
                                    assert((0u8 >> tt) & 1u8 == 0u8) by (bit_vector);
                                    assert(!bit(data@, j + bits));
                                } else {
                                    assert(b == data@[bytes_moving + i + 1]);
                                }
                            }
                        } else {
                            assert(r@[j / 8] == r_old[j / 8]);
                            assert(bit(r_old, j) == bit(data@, j + bits));
                        }
                    }
                }
                i += 1;
            }
            proof {
                lemma_total_bytes(keep as int);
            }
            r
        }
    }
}

/// `n` zero bytes.
pub open spec fn zero_bytes(n: int) -> Seq<u8> {
    Seq::new(n as nat, |i: int| 0u8)
}

/// The bits of `c` zero bytes followed by `data`: none in the zero bytes, then those of `data`.
proof fn lemma_bit_after_zeros(c: int, data: Seq<u8>, x: int)
    requires
        c >= 0,
        x >= 0,
    ensures
        bit(zero_bytes(c) + data, x) == (x >= 8 * c && bit(data, x - 8 * c)),
{
    let p = zero_bytes(c) + data;
    if x < p.len() * 8 {
        assert(x == (x / 8) * 8 + x % 8);
        if x < 8 * c {
            assert(x / 8 < c);
            assert(p[x / 8] == 0u8);
            let t = (x % 8) as u8;
            assert((0u8 >> t) & 1u8 == 0u8) by (bit_vector);
        } else {
            assert((x - 8 * c) / 8 == x / 8 - c && (x - 8 * c) % 8 == x % 8) by (nonlinear_arith)
                requires x >= 8 * c, c >= 0;
            assert(p[x / 8] == data[x / 8 - c]);
        }
    }
}

/// The bytes `shift_data_to_back` gives for `len` bytes.
pub open spec fn back_len(len: int, bits: int, total_bits: int) -> int {
    if bits == 0 {
        len
    } else if bits % 8 == 0 {
        len + bits / 8
    } else {
        min_int(len + total_bytes(bits), total_bytes(total_bits + bits))
    }
}

/// The sizes for which `shift_data_to_back` computes its counts without overflow.
pub open spec fn back_ok(bits: int, total_bits: int) -> bool {
    bits == 0 || {
        &&& total_bits + bits <= usize::MAX
        &&& align_spec(bits, 8) <= usize::MAX
        &&& bits % 8 == 0 || (total_bits + bits + (8 - bits % 8) <= usize::MAX && align_spec(total_bits + bits, 8) <= usize::MAX)
    }
}

/// * Shift an array of bits to the back. In a byte, the higher bits are the back bits.
/// * Bit `j` of the result is bit `j - bits` of `data`, or zero for the first `bits` bits;
///   where `bits` is not a whole number of bytes, the result keeps just the bytes for the
///   `total_bits + bits` bits.
pub fn shift_data_to_back(data: &Vec<u8>, bits: usize, total_bits: usize) -> (r: Vec<u8>)
    requires
        back_ok(bits as int, total_bits as int),
    ensures
        r@.len() == back_len(data@.len() as int, bits as int, total_bits as int),
        forall|j: int| 0 <= j < r@.len() * 8 ==> bit(r@, j) == (j >= bits && bit(data@, j - bits)),
{
    if bits == 0 {
        copy_from(data, 0)
    } else {
        let shifted_total_bits = total_bits + bits;
        let bytes_added = align(bits, 8) / 8;
        proof {
            lemma_total_bytes(bits as int);
        }
        let mut padded: Vec<u8> = Vec::new();
        let mut k: usize = 0;
        while k < bytes_added
            invariant
                k <= bytes_added,
                padded@ == zero_bytes(k as int),
            decreases bytes_added - k,
        {
            padded.push(0);
            k += 1;
            assert(padded@ =~= zero_bytes(k as int));
        }
        let mut i: usize = 0;
        while i < data.len()
            invariant
                i <= data@.len(),
                padded@ == zero_bytes(bytes_added as int) + data@.take(i as int),
            decreases data@.len() - i,
        {
            padded.push(data[i]);
            i += 1;
            assert(padded@ =~= zero_bytes(bytes_added as int) + data@.take(i as int));
        }
        assert(data@.take(i as int) =~= data@);
        let s = bits & 7;
        assert(s == bits % 8) by (bit_vector) requires s == bits & 7;
        if s == 0 {
            assert(bytes_added * 8 == bits);
            assert forall|j: int| 0 <= j < padded@.len() * 8 implies bit(padded@, j) == (j >= bits && bit(data@, j - bits)) by {
                lemma_bit_after_zeros(bytes_added as int, data@, j);
            }
            padded
        } else {
            let lsh = 8 - s;
            assert(bytes_added * 8 == bits + lsh);
            let r = shift_data_to_front(&padded, lsh, shifted_total_bits + lsh);
            assert forall|j: int| 0 <= j < r@.len() * 8 implies bit(r@, j) == (j >= bits && bit(data@, j - bits)) by {
                lemma_bit_after_zeros(bytes_added as int, data@, j + lsh);
            }
            r
        }
    }
}

/// Whether bit `j` survives clearing the bits past `total_bits` in the last of `len` bytes.
pub open spec fn keep_bit(len: int, total_bits: int, j: int) -> bool {
    total_bits % 8 == 0 || j / 8 != len - 1 || j % 8 < total_bits % 8
}

/// The bytes left after `shrink_to_fit`: at most those for `total_bits` bits.
pub open spec fn shrunk_len(len: int, total_bits: int) -> int {
    min_int(len, total_bytes(total_bits))
}

/// `after` is what `shrink_to_fit` leaves of `before` for `total_bits` bits: at most the bytes for
/// the bits, with the bits past them in the last byte cleared.
pub open spec fn is_shrunk(before: Seq<u8>, total_bits: int, after: Seq<u8>) -> bool {
    &&& after.len() == shrunk_len(before.len() as int, total_bits)
    &&& forall|j: int| 0 <= j < after.len() * 8 ==> bit(after, j) == (bit(before, j) && keep_bit(after.len() as int, total_bits, j))
}

/// Two bytes with the same eight bits are the same byte.
proof fn lemma_byte_from_bits(a: u8, b: u8)
    requires
        forall|t: int| 0 <= t < 8 ==> byte_bit(a, t) == byte_bit(b, t),
    ensures
        a == b,
{
    assert(byte_bit(a, 0) == byte_bit(b, 0) && byte_bit(a, 1) == byte_bit(b, 1));
    assert(byte_bit(a, 2) == byte_bit(b, 2) && byte_bit(a, 3) == byte_bit(b, 3));
    assert(byte_bit(a, 4) == byte_bit(b, 4) && byte_bit(a, 5) == byte_bit(b, 5));
    assert(byte_bit(a, 6) == byte_bit(b, 6) && byte_bit(a, 7) == byte_bit(b, 7));
    assert(a == b) by (bit_vector)
        requires
            (a >> 0u8) & 1u8 == (b >> 0u8) & 1u8 || ((a >> 0u8) & 1u8 != 1u8 && (b >> 0u8) & 1u8 != 1u8),
            (a >> 1u8) & 1u8 == (b >> 1u8) & 1u8 || ((a >> 1u8) & 1u8 != 1u8 && (b >> 1u8) & 1u8 != 1u8),
            (a >> 2u8) & 1u8 == (b >> 2u8) & 1u8 || ((a >> 2u8) & 1u8 != 1u8 && (b >> 2u8) & 1u8 != 1u8),
            (a >> 3u8) & 1u8 == (b >> 3u8) & 1u8 || ((a >> 3u8) & 1u8 != 1u8 && (b >> 3u8) & 1u8 != 1u8),
            (a >> 4u8) & 1u8 == (b >> 4u8) & 1u8 || ((a >> 4u8) & 1u8 != 1u8 && (b >> 4u8) & 1u8 != 1u8),
            (a >> 5u8) & 1u8 == (b >> 5u8) & 1u8 || ((a >> 5u8) & 1u8 != 1u8 && (b >> 5u8) & 1u8 != 1u8),
            (a >> 6u8) & 1u8 == (b >> 6u8) & 1u8 || ((a >> 6u8) & 1u8 != 1u8 && (b >> 6u8) & 1u8 != 1u8),
            (a >> 7u8) & 1u8 == (b >> 7u8) & 1u8 || ((a >> 7u8) & 1u8 != 1u8 && (b >> 7u8) & 1u8 != 1u8),
    ;
}

/// Two runs of bytes of one length with the same bits are the same bytes.
pub proof fn lemma_bytes_from_bits(a: Seq<u8>, b: Seq<u8>)
    requires
        a.len() == b.len(),
        forall|j: int| 0 <= j < a.len() * 8 ==> bit(a, j) == bit(b, j),
    ensures
        a == b,
{
    assert forall|i: int| 0 <= i < a.len() implies a[i] == b[i] by {
        assert forall|t: int| 0 <= t < 8 implies byte_bit(a[i], t) == byte_bit(b[i], t) by {
            let j = i * 8 + t;
            assert(j / 8 == i && j % 8 == t) by (nonlinear_arith)
                requires j == i * 8 + t, 0 <= t < 8;
            assert(0 <= j < a.len() * 8) by (nonlinear_arith)
                requires j == i * 8 + t, 0 <= t < 8, 0 <= i < a.len();
            assert(bit(a, j) == bit(b, j));
        }
        lemma_byte_from_bits(a[i], b[i]);
    }
    assert(a =~= b);
}

/// Where the bytes hold all the bits, `shrink_to_fit` leaves just the bytes for the bits: the bits
/// before `total_bits` kept and every bit after them cleared.
pub proof fn lemma_shrink_to_fit_keeps_the_bits(before: Seq<u8>, total_bits: int, after: Seq<u8>)
    requires
        total_bits >= 0,
        before.len() >= total_bytes(total_bits),
        is_shrunk(before, total_bits, after),
    ensures
        after.len() == total_bytes(total_bits),
        forall|j: int| 0 <= j < total_bits ==> bit(after, j) == bit(before, j),
        forall|j: int| total_bits <= j < after.len() * 8 ==> !bit(after, j),
{
    lemma_total_bytes(total_bits);
    assert forall|j: int| 0 <= j < total_bits implies bit(after, j) == bit(before, j) by {
        lemma_keep_bit_total(total_bits, j);
    }
    assert forall|j: int| total_bits <= j < after.len() * 8 implies !bit(after, j) by {
        lemma_keep_bit_total(total_bits, j);
    }
}

/// `shrink_to_fit` twice leaves what it leaves once.
pub proof fn lemma_shrink_to_fit_idempotent(before: Seq<u8>, total_bits: int, once: Seq<u8>, twice: Seq<u8>)
    requires
        total_bits >= 0,
        is_shrunk(before, total_bits, once),
        is_shrunk(once, total_bits, twice),
    ensures
        twice == once,
{
    lemma_bytes_from_bits(twice, once);
}

/// Counting the bytes for `total_bits` bits does not overflow.
pub open spec fn bits_fit(total_bits: int) -> bool {
    align_spec(total_bits, 8) <= usize::MAX
}

/// In the bytes for `total_bits` bits, the bits that survive clearing the last byte's extra
/// bits are those before `total_bits`.
proof fn lemma_keep_bit_total(total_bits: int, j: int)
    requires
        total_bits >= 0,
        0 <= j < total_bytes(total_bits) * 8,
    ensures
        keep_bit(total_bytes(total_bits), total_bits, j) == (j < total_bits),
{
    lemma_total_bytes(total_bits);
    let n = total_bytes(total_bits);
    if total_bits % 8 != 0 {
        assert(n == total_bits / 8 + 1);
        if j / 8 == n - 1 {
            assert(j == (n - 1) * 8 + j % 8);
            assert(total_bits == (n - 1) * 8 + total_bits % 8);
        } else {
            assert(j / 8 < n - 1);
            assert(j < (n - 1) * 8) by (nonlinear_arith)
                requires j / 8 < n - 1, j >= 0;
        }
    } else {
        assert(n * 8 == total_bits);
    }
}

/// ## A run of bits kept in bytes, the lowest bits of each byte first.
#[derive(Clone, Debug, PartialEq, Eq)]
pub struct BitwiseData {
    /// * Store as bytes
    pub data: Vec<u8>,
    /// * The total bits of the books
    pub total_bits: usize,
}

impl BitwiseData {
    /// The bytes hold all of the bits.
    pub open spec fn wf(&self) -> bool {
        self.total_bits <= self.data@.len() * 8
    }

    /// The run of bits: the first `total_bits` bits of the bytes.
    pub open spec fn bits(&self) -> Seq<bool> {
        Seq::new(self.total_bits as nat, |i: int| bit(self.data@, i))
    }

    /// A copy of the bytes and the bit count.
    fn duplicate(&self) -> (r: Self)
        ensures
            r.data@ == self.data@,
            r.total_bits == self.total_bits,
    {
        Self { data: copy_from(&self.data, 0), total_bits: self.total_bits }
    }

    /// * Keeps the bytes for `total_bits` bits of `data`, the bits past `total_bits` cleared.
    pub fn new(data: &[u8], total_bits: usize) -> (r: Self)
        requires
            bits_fit(total_bits as int),
            total_bytes(total_bits as int) <= data@.len(),
        ensures
            r.total_bits == total_bits,
            r.data@.len() == total_bytes(total_bits as int),
            forall|j: int| 0 <= j < r.data@.len() * 8 ==> bit(r.data@, j) == (j < total_bits && bit(data@, j)),
            r.wf(),
    {
        let n = Self::calc_total_bytes(total_bits);
        let mut bytes: Vec<u8> = Vec::new();
        let mut i: usize = 0;
        while i < n
            invariant
                i <= n <= data@.len(),
                bytes@ == data@.take(i as int),
            decreases n - i,
        {
            bytes.push(data[i]);
            i += 1;
            assert(bytes@ =~= data@.take(i as int));
        }
        let mut ret = Self { data: bytes, total_bits };
        ret.remove_residue();
        proof {
            lemma_total_bytes(total_bits as int);
            assert forall|j: int| 0 <= j < ret.data@.len() * 8 implies bit(ret.data@, j) == (j < total_bits && bit(data@, j)) by {
                lemma_keep_bit_total(total_bits as int, j);
                assert(j / 8 < n) by (nonlinear_arith)
                    requires 0 <= j < n * 8;
                assert(data@.take(n as int)[j / 8] == data@[j / 8]);
            }
        }
        ret
    }

    /// * Construct from bytes: all of their bits.
    pub fn from_bytes(data: &[u8]) -> (r: Self)
        requires
            data@.len() * 8 <= usize::MAX,
        ensures
            r.data@ == data@,
            r.total_bits == data@.len() * 8,
            r.wf(),
    {
        let mut bytes: Vec<u8> = Vec::new();
        let mut i: usize = 0;
        while i < data.len()
            invariant
                i <= data@.len(),
                bytes@ == data@.take(i as int),
            decreases data@.len() - i,
        {
            bytes.push(data[i]);
            i += 1;
            assert(bytes@ =~= data@.take(i as int));
        }
        assert(data@.take(i as int) =~= data@);
        Self { data: bytes, total_bits: data.len() * 8 }
    }

    /// * If there are any `1` bits outside of the byte array, erase them to zeros.
    fn remove_residue(&mut self)
        ensures
            final(self).total_bits == old(self).total_bits,
            final(self).data@.len() == old(self).data@.len(),
            forall|j: int| 0 <= j < final(self).data@.len() * 8 ==> bit(final(self).data@, j) == (bit(old(self).data@, j)
                && keep_bit(old(self).data@.len() as int, old(self).total_bits as int, j)),
    {
        let total = self.total_bits;
        let residue_bits = total & 7;
        assert(residue_bits == total % 8) by (bit_vector) requires residue_bits == total & 7;
        if residue_bits == 0 {
            return;
        }
        let ghost old_data = self.data@;
        match self.data.pop() {
            Some(byte) => {
                let masked = byte & MASK8[residue_bits];
                self.data.push(masked);
                proof {
                    let len = old_data.len() as int;
                    assert forall|j: int| 0 <= j < len * 8 implies bit(self.data@, j) == (bit(old_data, j)
                        && keep_bit(len, self.total_bits as int, j)) by {
                        if j / 8 == len - 1 {
                            lemma_mask_bits(byte, residue_bits as u8, (j % 8) as u8);
                        } else {
                            assert(j / 8 < len - 1) by (nonlinear_arith)
                                requires 0 <= j < len * 8, j / 8 != len - 1;
                            assert(self.data@[j / 8] == old_data[j / 8]);
                        }
                    }
                }
            },
            None => {},
        }
    }

    /// * Get the number of total bits in the `data` field
    pub fn get_total_bits(&self) -> (r: usize)
        ensures
            r == self.total_bits,
    {
        self.total_bits
    }

    /// * Get the number of bytes that are just enough to contain all of the bits.
    pub fn get_total_bytes(&self) -> (r: usize)
        requires
            bits_fit(self.total_bits as int),
        ensures
            r == total_bytes(self.total_bits as int),
    {
        Self::calc_total_bytes(self.total_bits)
    }

    /// * Get the number of bytes that are just enough to contain all of the bits.
    pub fn calc_total_bytes(total_bits: usize) -> (r: usize)
        requires
            bits_fit(total_bits as int),
        ensures
            r == total_bytes(total_bits as int),
    {
        align(total_bits, 8) / 8
    }

    /// * Resize to the aligned size, padding with zero bytes or cutting the bytes past the bits.
    pub fn fit_to_aligned_size(&mut self)
        requires
            bits_fit(old(self).total_bits as int),
        ensures
            final(self).total_bits == old(self).total_bits,
            final(self).data@.len() == total_bytes(old(self).total_bits as int),
            forall|j: int| 0 <= j < final(self).data@.len() * 8 ==> bit(final(self).data@, j) == bit(old(self).data@, j),
    {
        let n = align(self.total_bits, BITS) / 8;
        let ghost old_data = self.data@;
        self.data.resize(n, 0);
        proof {
            assert forall|j: int| 0 <= j < self.data@.len() * 8 implies bit(self.data@, j) == bit(old_data, j) by {
                assert(j / 8 < n) by (nonlinear_arith)
                    requires 0 <= j < n * 8;
                if j / 8 < old_data.len() {
                    if n <= old_data.len() {
                        assert(self.data@[j / 8] == old_data.subrange(0, n as int)[j / 8]);
                    } else {
                        assert(self.data@.subrange(0, old_data.len() as int)[j / 8] == self.data@[j / 8]);
                    }
                } else {
                    assert(cloned::<u8>(0u8, self.data@[j / 8]));
                    assert(self.data@[j / 8] == 0u8);
                    let t = (j % 8) as u8;
                    assert((0u8 >> t) & 1u8 == 0u8) by (bit_vector);
                    assert(j >= old_data.len() * 8) by (nonlinear_arith)
                        requires j / 8 >= old_data.len(), j >= 0;
                }
            }
        }
    }

    /// * Resize to the number of bytes that are just enough to contain all of the bits, clearing
    ///   the bits past them in the last byte.
    pub fn shrink_to_fit(&mut self)
        requires
            bits_fit(old(self).total_bits as int),
        ensures
            final(self).total_bits == old(self).total_bits,
            final(self).data@.len() == shrunk_len(old(self).data@.len() as int, old(self).total_bits as int),
            forall|j: int| 0 <= j < final(self).data@.len() * 8 ==> bit(final(self).data@, j) == (bit(old(self).data@, j)
                && keep_bit(final(self).data@.len() as int, old(self).total_bits as int, j)),
            is_shrunk(old(self).data@, old(self).total_bits as int, final(self).data@),
    {
        let ghost old_data = self.data@;
        let n = self.get_total_bytes();
        self.data.truncate(n);
        let ghost cut = self.data@;
        self.remove_residue();
        proof {
            assert forall|j: int| 0 <= j < self.data@.len() * 8 implies bit(cut, j) == bit(old_data, j) by {
                assert(j / 8 < cut.len()) by (nonlinear_arith)
                    requires 0 <= j < cut.len() * 8;
                if n <= old_data.len() {
                    assert(cut[j / 8] == old_data[j / 8]);
                }
            }
        }
    }

    /// * Check if the data length is just the aligned size: with byte-sized units it always is.
    pub fn is_aligned_size(&self) -> (r: bool)
        ensures
            r,
    {
        self.data.len() == align(self.data.len(), ALIGN)
    }

    /// * Turn to byte array: the bytes for the bits, the bits past them cleared.
    pub fn into_bytes(self) -> (r: Vec<u8>)
        requires
            bits_fit(self.total_bits as int),
        ensures
            r@.len() == shrunk_len(self.data@.len() as int, self.total_bits as int),
            forall|j: int| 0 <= j < r@.len() * 8 ==> bit(r@, j) == (bit(self.data@, j) && keep_bit(r@.len() as int, self.total_bits as int, j)),
            self.wf() ==> r@.len() == total_bytes(self.total_bits as int),
            self.wf() ==> forall|j: int| 0 <= j < r@.len() * 8 ==> bit(r@, j) == (j < self.total_bits && bit(self.data@, j)),
    {
        let mut s = self;
        s.shrink_to_fit();
        proof {
            lemma_total_bytes(self.total_bits as int);
            if self.wf() {
                assert forall|j: int| 0 <= j < s.data@.len() * 8 implies bit(s.data@, j) == (j < self.total_bits && bit(self.data@, j)) by {
                    lemma_keep_bit_total(self.total_bits as int, j);
                }
            }
        }
        s.data
    }
}

impl Default for BitwiseData {
    fn default() -> (r: Self)
        ensures
            r.data@ == Seq::<u8>::empty(),
            r.total_bits == 0,
    {
        Self { data: Vec::new(), total_bits: 0 }
    }
}

impl BitwiseData {
    /// * Breakdown to 2 parts of the data at the specific bitvise position.
    /// * The first part holds the bits before `split_at_bit` (the bits past them in its last byte
    ///   cleared), the second the bits from there on, shifted to the front.
    #[verifier::spinoff_prover]
    pub fn split(&self, split_at_bit: usize) -> (r: (Self, Self))
        requires
            split_at_bit == 0 || split_at_bit >= self.total_bits || {
                &&& front_ok(self.data@.len() as int, split_at_bit as int, self.total_bits as int)
                &&& bits_fit(self.total_bits as int)
            },
        ensures
            split_at_bit == 0 ==> r.0.data@ == Seq::<u8>::empty() && r.0.total_bits == 0 && r.1.data@ == self.data@
                && r.1.total_bits == self.total_bits,
            split_at_bit != 0 && split_at_bit >= self.total_bits ==> r.0.data@ == self.data@ && r.0.total_bits == self.total_bits
                && r.1.data@ == Seq::<u8>::empty() && r.1.total_bits == 0,
            0 < split_at_bit < self.total_bits ==> {
                &&& r.0.total_bits == split_at_bit
                &&& r.0.data@.len() == shrunk_len(self.data@.len() as int, split_at_bit as int)
                &&& forall|j: int| 0 <= j < r.0.data@.len() * 8 ==> bit(r.0.data@, j) == (bit(self.data@, j)
                    && keep_bit(r.0.data@.len() as int, split_at_bit as int, j))
                &&& r.1.total_bits == self.total_bits - split_at_bit
                &&& r.1.data@.len() == front_len(self.data@.len() as int, split_at_bit as int, self.total_bits as int)
                &&& forall|j: int| 0 <= j < r.1.data@.len() * 8 ==> bit(r.1.data@, j) == bit(self.data@, j + split_at_bit)
            },
            self.wf() ==> r.0.wf() && r.1.wf(),
            self.wf() && split_at_bit <= self.total_bits ==> r.0.bits() == self.bits().take(split_at_bit as int)
                && r.1.bits() == self.bits().skip(split_at_bit as int),
    {
        if split_at_bit == 0 {
            let r = (Self::default(), self.duplicate());
            assert(self.bits().skip(0) =~= self.bits());
            assert(r.0.bits() =~= self.bits().take(0));
            r
        } else if split_at_bit >= self.total_bits {
            let r = (self.duplicate(), Self::default());
            if split_at_bit == self.total_bits {
                assert(self.bits().take(split_at_bit as int) =~= self.bits());
                assert(r.1.bits() =~= self.bits().skip(split_at_bit as int));
            }
            r
        } else {
            proof {
                lemma_total_bytes(split_at_bit as int);
                lemma_total_bytes(self.total_bits as int);
                lemma_align(self.total_bits - split_at_bit, 8);
                lemma_align(self.total_bits as int, 8);
            }
            let mut data1 = self.duplicate();
            data1.total_bits = split_at_bit;
            data1.shrink_to_fit();
            let ghost after_shrink = data1.data@;
            let last_bits = split_at_bit & 7;
            assert(last_bits == split_at_bit % 8) by (bit_vector) requires last_bits == split_at_bit & 7;
            if last_bits != 0 {
                let ghost before = data1.data@;
                let last_byte = data1.data.pop().unwrap();
                let masked = last_byte & MASK8[last_bits];
                data1.data.push(masked);
                proof {
                    let len = before.len() as int;
                    assert forall|j: int| 0 <= j < len * 8 implies bit(data1.data@, j) == bit(before, j) by {
                        if j / 8 == len - 1 {
                            lemma_mask_bits(last_byte, last_bits as u8, (j % 8) as u8);
                        } else {
                            assert(j / 8 < len - 1) by (nonlinear_arith)
                                requires 0 <= j < len * 8, j / 8 != len - 1;
                            assert(data1.data@[j / 8] == before[j / 8]);
                        }
                    }
                }
            }
            assert(data1.data@.len() == after_shrink.len());
            assert forall|j: int| 0 <= j < data1.data@.len() * 8 implies bit(data1.data@, j) == (bit(self.data@, j)
                && keep_bit(data1.data@.len() as int, split_at_bit as int, j)) by {
                assert(bit(data1.data@, j) == bit(after_shrink, j));
            }
            let data2 = Self {
                data: shift_data_to_front(&self.data, split_at_bit, self.total_bits),
                total_bits: self.total_bits - split_at_bit,
            };
            proof {
                if self.wf() {
                    assert(data1.bits() =~= self.bits().take(split_at_bit as int)) by {
                        assert forall|j: int| 0 <= j < split_at_bit implies bit(data1.data@, j) == bit(self.data@, j) by {
                            lemma_keep_bit_total(split_at_bit as int, j);
                        }
                    }
                    assert(data2.bits() =~= self.bits().skip(split_at_bit as int));
                }
            }
            (data1, data2)
        }
    }

    /// * Concat another `BitwiseData` to the bitstream, without the gap.
    /// * The bytes are first shrunk to those of the bits; `rhs`'s bytes follow, shifted so that
    ///   its first bit comes right after the last bit.
    pub fn concat(&mut self, rhs: &Self)
        requires
            rhs.total_bits == 0 || {
                &&& bits_fit(old(self).total_bits as int)
                &&& old(self).total_bits + rhs.total_bits <= usize::MAX
                &&& old(self).total_bits % 8 == 0 || {
                    &&& old(self).data@.len() >= 1
                    &&& rhs.data@.len() >= 1
                    &&& 8 - old(self).total_bits % 8 >= rhs.total_bits || bits_fit(rhs.total_bits - (8 - old(self).total_bits % 8))
                }
            },
        ensures
            rhs.total_bits == 0 ==> final(self).data@ == old(self).data@ && final(self).total_bits == old(self).total_bits,
            rhs.total_bits != 0 ==> ({
                let m = shrunk_len(old(self).data@.len() as int, old(self).total_bits as int);
                let s = old(self).total_bits % 8;
                let o = if s == 0 { 8 * m } else { 8 * (m - 1) + s };
                &&& final(self).total_bits == old(self).total_bits + rhs.total_bits
                &&& final(self).data@.len() == m + if s == 0 {
                    rhs.data@.len() as int
                } else {
                    front_len(rhs.data@.len() as int, 8 - s, rhs.total_bits as int)
                }
                &&& forall|j: int| 0 <= j < final(self).data@.len() * 8 ==> bit(final(self).data@, j) == if j < o {
                    bit(old(self).data@, j)
                } else {
                    bit(rhs.data@, j - o)
                }
            }),
            old(self).wf() && rhs.wf() ==> final(self).wf() && final(self).bits() == old(self).bits() + rhs.bits(),
    {
        if rhs.total_bits == 0 {
            proof {
                if self.wf() {
                    assert(self.bits() =~= self.bits() + rhs.bits());
                }
            }
            return;
        }
        let ghost old_data = self.data@;
        let ghost total = self.total_bits as int;
        proof {
            lemma_total_bytes(total);
        }
        self.shrink_to_fit();
        let ghost m = self.data@.len() as int;
        let ghost shrunk = self.data@;
        let t = self.total_bits;
        let shifts = t & 7;
        assert(shifts == t % 8) by (bit_vector) requires shifts == t & 7;
        if shifts == 0 {
            let mut i: usize = 0;
            while i < rhs.data.len()
                invariant
                    i <= rhs.data@.len(),
                    self.data@ == shrunk + rhs.data@.take(i as int),
                    self.total_bits == t,
                decreases rhs.data@.len() - i,
            {
                self.data.push(rhs.data[i]);
                i += 1;
                assert(self.data@ =~= shrunk + rhs.data@.take(i as int));
            }
            assert(rhs.data@.take(i as int) =~= rhs.data@);
            proof {
                assert forall|j: int| 0 <= j < self.data@.len() * 8 implies bit(self.data@, j) == if j < 8 * m {
                    bit(old_data, j)
                } else {
                    bit(rhs.data@, j - 8 * m)
                } by {
                    if j < 8 * m {
                        assert(j / 8 < m) by (nonlinear_arith)
                            requires j < 8 * m, j >= 0;
                        assert(self.data@[j / 8] == shrunk[j / 8]);
                        assert(keep_bit(m, total, j));
                    } else {
                        assert((j - 8 * m) / 8 == j / 8 - m && (j - 8 * m) % 8 == j % 8) by (nonlinear_arith)
                            requires j >= 8 * m, m >= 0;
                        assert(self.data@[j / 8] == rhs.data@[j / 8 - m]);
                    }
                }
            }
        } else {
            let shift_left = 8 - shifts;
            let ghost before_pop = self.data@;
            let last_byte = self.data.pop().unwrap();
            let first = rhs.data[0];
            let sh = shifts as u8;
            let joined = last_byte | (first << sh);
            self.data.push(joined);
            let tail = shift_data_to_front(&rhs.data, shift_left, rhs.total_bits);
            let ghost head = self.data@;
            let mut i: usize = 0;
            while i < tail.len()
                invariant
                    i <= tail@.len(),
                    self.data@ == head + tail@.take(i as int),
                    self.total_bits == t,
                decreases tail@.len() - i,
            {
                self.data.push(tail[i]);
                i += 1;
                assert(self.data@ =~= head + tail@.take(i as int));
            }
            assert(tail@.take(i as int) =~= tail@);
            proof {
                let o = 8 * (m - 1) + shifts;
                assert forall|k: u8| sh <= k < 8 implies !#[trigger] byte_bit(last_byte, k as int) by {
                    let j = 8 * (m - 1) + k;
                    assert(j / 8 == m - 1 && j % 8 == k) by (nonlinear_arith)
                        requires j == 8 * (m - 1) + k, 0 <= k < 8;
                    assert(m >= 1);
                    assert(!keep_bit(m, total, j));
                    assert(shrunk == before_pop);
                    assert(before_pop[m - 1] == last_byte);
                    assert(0 <= j < shrunk.len() * 8);
                    assert(!bit(shrunk, j));
                }
                assert forall|j: int| 0 <= j < self.data@.len() * 8 implies bit(self.data@, j) == if j < o {
                    bit(old_data, j)
                } else {
                    bit(rhs.data@, j - o)
                } by {
                    if j < 8 * (m - 1) {
                        assert(j / 8 < m - 1) by (nonlinear_arith)
                            requires j < 8 * (m - 1), j >= 0;
                        assert(self.data@[j / 8] == before_pop[j / 8]);
                        assert(keep_bit(m, total, j));
                    } else if j < 8 * m {
                        let tt = j - 8 * (m - 1);
                        assert(j / 8 == m - 1 && j % 8 == tt) by (nonlinear_arith)
                            requires j == 8 * (m - 1) + tt, 0 <= tt < 8;
                        assert(self.data@[m - 1] == joined);
                        lemma_or_shift_bits(last_byte, first, sh, tt as u8);
                        if tt < shifts {
                            assert(keep_bit(m, total, j));
                        } else {
                            assert(j - o == tt - shifts);
                            assert((tt - shifts) / 8 == 0 && (tt - shifts) % 8 == tt - shifts);
                        }
                    } else {
                        let i2 = j - 8 * m;
                        assert((i2 / 8) == j / 8 - m && i2 % 8 == j % 8) by (nonlinear_arith)
                            requires i2 == j - 8 * m, i2 >= 0, m >= 0;
                        assert(self.data@[j / 8] == tail@[j / 8 - m]);
                        assert(bit(tail@, i2) == bit(rhs.data@, i2 + shift_left));
                        assert(i2 + shift_left == j - o);
                    }
                }
            }
        }
        self.total_bits = t + rhs.total_bits;
        proof {
            if old(self).wf() && rhs.wf() {
                lemma_total_bytes(rhs.total_bits as int);
                lemma_total_bytes(self.total_bits as int);
                let s = total % 8;
                let o = if s == 0 { 8 * m } else { 8 * (m - 1) + s };
                assert(m == total_bytes(total));
                assert(o == total);
                assert(self.bits() =~= old(self).bits() + rhs.bits());
            }
        }
    }
}

/// Splitting a run of bits at any point and concatenating the two parts gives back the run.
pub proof fn lemma_split_concat(bits: Seq<bool>, at: int)
    requires
        0 <= at <= bits.len(),
    ensures
        bits.take(at) + bits.skip(at) == bits,
{
    assert(bits.take(at) + bits.skip(at) =~= bits);
}

} // verus!
