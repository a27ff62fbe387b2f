use vstd::prelude::*;

use crate::bus::bit_of;

verus! {

/// The line levels that the bytes `bytes` are sent as: eight per byte, bit 0
/// of each byte first.
pub open spec fn unpack(bytes: Seq<u8>) -> Seq<bool> {
    Seq::new(8 * bytes.len(), |k: int| bit_of(bytes[k / 8], (k % 8) as u8))
}

proof fn lemma_set_bit(b: u8, j: u8, t: u8)
    by (bit_vector)
    requires
        j < 8,
        t < 8,
    ensures
        (((b | (1u8 << j)) >> t) & 1u8 == 1u8) == (t == j || (b >> t) & 1u8 == 1u8),
{
}

proof fn lemma_zero_bits(t: u8)
    by (bit_vector)
    requires
        t < 8,
    ensures
        (0u8 >> t) & 1u8 != 1u8,
{
}

proof fn lemma_same_bits(a: u8, b: u8)
    by (bit_vector)
    requires
        (a >> 0u8) & 1u8 == (b >> 0u8) & 1u8,
        (a >> 1u8) & 1u8 == (b >> 1u8) & 1u8,
        (a >> 2u8) & 1u8 == (b >> 2u8) & 1u8,
        (a >> 3u8) & 1u8 == (b >> 3u8) & 1u8,
        (a >> 4u8) & 1u8 == (b >> 4u8) & 1u8,
        (a >> 5u8) & 1u8 == (b >> 5u8) & 1u8,
        (a >> 6u8) & 1u8 == (b >> 6u8) & 1u8,
        (a >> 7u8) & 1u8 == (b >> 7u8) & 1u8,
    ensures
        a == b,
{
}

proof fn lemma_bit_is_one_or_zero(a: u8, t: u8)
    by (bit_vector)
    ensures
        (a >> t) & 1u8 == 1u8 || (a >> t) & 1u8 == 0u8,
{
}

/// A byte is determined by its eight bits.
proof fn lemma_bits_determine_byte(a: u8, b: u8)
    requires
        forall|t: u8| t < 8 ==> bit_of(a, t) == bit_of(b, t),
    ensures
        a == b,
{
    assert forall|t: u8| t < 8 implies (a >> t) & 1u8 == (b >> t) & 1u8 by {
        assert(bit_of(a, t) == bit_of(b, t));
        lemma_bit_is_one_or_zero(a, t);
        lemma_bit_is_one_or_zero(b, t);
    }
    assert((a >> 0u8) & 1u8 == (b >> 0u8) & 1u8);
    assert((a >> 1u8) & 1u8 == (b >> 1u8) & 1u8);
    assert((a >> 2u8) & 1u8 == (b >> 2u8) & 1u8);
    assert((a >> 3u8) & 1u8 == (b >> 3u8) & 1u8);
    assert((a >> 4u8) & 1u8 == (b >> 4u8) & 1u8);
    assert((a >> 5u8) & 1u8 == (b >> 5u8) & 1u8);
    assert((a >> 6u8) & 1u8 == (b >> 6u8) & 1u8);
    assert((a >> 7u8) & 1u8 == (b >> 7u8) & 1u8);
    lemma_same_bits(a, b);
}

/// Line levels are sent one-to-one: two byte sequences that go on the line as
/// the same levels are the same bytes. So packing the levels that a slave sent
/// for `bytes` gives back exactly `bytes`.
pub proof fn lemma_unpack_injective(a: Seq<u8>, b: Seq<u8>)
    requires
        unpack(a) == unpack(b),
    ensures
        a == b,
{
    assert(unpack(a).len() == 8 * a.len());
    assert(unpack(b).len() == 8 * b.len());
    assert(a.len() == b.len());
    assert forall|i: int| 0 <= i < a.len() implies a[i] == b[i] by {
        assert forall|t: u8| t < 8 implies bit_of(a[i], t) == bit_of(b[i], t) by {
            let k = 8 * i + t;
            assert(k / 8 == i && k % 8 == t as int);
            assert(((k % 8) as u8) == t);
            assert(unpack(a)[k] == bit_of(a[i], t));
            assert(unpack(b)[k] == bit_of(b[i], t));
        }
        lemma_bits_determine_byte(a[i], b[i]);
    }
    assert(a =~= b);
}

/// Packs the sampled line levels into bytes, eight to a byte, the first level
/// of each group in bit 0 and a high level giving a one bit. Levels past the
/// last whole group of eight are left out.
pub fn pack_samples(samples: &Vec<bool>) -> (r: Vec<u8>)
    ensures
        r.len() == samples.len() / 8,
        unpack(r@) == samples@.take(8 * r.len()),
{
    let mut bytes: Vec<u8> = Vec::new();
    let n: usize = samples.len() / 8;
    let mut i: usize = 0;
    while i < n
        invariant
            i <= n,
            n == samples.len() / 8,
            bytes.len() == i,
            forall|k: int| 0 <= k < 8 * i ==> #[trigger] unpack(bytes@)[k] == samples@[k],
        decreases n - i,
    {
        let mut byte: u8 = 0;
        let mut j: u8 = 0;
        proof {
            assert forall|t: u8| t < 8 implies #[trigger] bit_of(byte, t) == (t < j && samples@[8
                * i + t]) by {
                lemma_zero_bits(t);
            }
        }
        while j < 8
            invariant
                j <= 8,
                i < n,
                n == samples.len() / 8,
                forall|t: u8| t < 8 ==> #[trigger] bit_of(byte, t) == (t < j && samples@[8 * i + t]),
            decreases 8 - j,
        {
            if samples[8 * i + j as usize] {
                proof {
                    assert forall|t: u8| t < 8 implies bit_of(byte | (1u8 << j), t) == (t <= j
                        && samples@[8 * i + t]) by {
                        assert(bit_of(byte, t) == (t < j && samples@[8 * i + t]));
                        lemma_set_bit(byte, j, t);
                    }
                }
                byte = byte | (1u8 << j);
            }
            j = j + 1;
        }
        let ghost old_bytes = bytes@;
        bytes.push(byte);
        proof {
            assert forall|k: int| 0 <= k < 8 * (i + 1) implies #[trigger] unpack(bytes@)[k]
                == samples@[k] by {
                if k < 8 * i {
                    assert(unpack(old_bytes)[k] == samples@[k]);
                } else {
                    let t = (k - 8 * i) as u8;
                    assert(k / 8 == i && k % 8 == t);
                    assert(bit_of(byte, t) == samples@[8 * i + t]);
                }
            }
        }
        i = i + 1;
    }
    assert(unpack(bytes@) =~= samples@.take(8 * bytes.len()));
    bytes
}

} // verus!
