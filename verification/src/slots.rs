//! Key-to-slot hashing: CRC-16/CCITT-FALSE over the key (or over its
//! hash-tag body), reduced modulo the slot count.

use vstd::prelude::*;
use crate::text::{spec_find_byte, lemma_find_byte, find_byte_from};

verus! {

/// Number of hash slots in a cluster.
pub const SLOT_COUNT: u16 = 16384;

/// One shift-and-reduce round of the CRC.
pub open spec fn crc_shift(c: u16) -> u16 {
    if c & 0x8000 != 0 {
        (c << 1u16) ^ 0x1021
    } else {
        c << 1u16
    }
}

/// `k` shift rounds, applied left to right.
pub open spec fn crc_rounds(c: u16, k: nat) -> u16
    decreases k,
{
    if k == 0 {
        c
    } else {
        crc_rounds(crc_shift(c), (k - 1) as nat)
    }
}

/// Folding one input byte into the running CRC.
pub open spec fn crc_byte(c: u16, b: u8) -> u16 {
    crc_rounds(c ^ ((b as u16) << 8u16), 8)
}

/// The CRC continued from state `c` over the remaining bytes.
pub open spec fn spec_crc16_from(c: u16, s: Seq<u8>) -> u16
    decreases s.len(),
{
    if s.len() == 0 {
        c
    } else {
        spec_crc16_from(crc_byte(c, s[0]), s.skip(1))
    }
}

/// CRC-16/CCITT-FALSE of a byte string: polynomial 0x1021, initial
/// value 0xFFFF, no reflection, no final xor.
pub open spec fn spec_crc16(s: Seq<u8>) -> u16 {
    spec_crc16_from(0xFFFF, s)
}

/// The hash-tag body of a key: the bytes strictly between the first `{`
/// and the first `}` after it, provided there is at least one.
pub open spec fn spec_tag_body(k: Seq<u8>) -> Option<Seq<u8>> {
    match spec_find_byte(k, 123u8) {
        None => None,
        Some(i) => {
            let rest = k.skip(i + 1);
            match spec_find_byte(rest, 125u8) {
                None => None,
                Some(j) => if j > 0 {
                    Some(rest.subrange(0, j))
                } else {
                    None
                },
            }
        },
    }
}

/// The bytes actually hashed for a key.
pub open spec fn spec_hash_input(k: Seq<u8>) -> Seq<u8> {
    match spec_tag_body(k) {
        Some(b) => b,
        None => k,
    }
}

/// The slot of a key.
pub open spec fn spec_slot_of(k: Seq<u8>) -> u16 {
    spec_crc16(spec_hash_input(k)) % 16384
}

fn crc_shift_exec(c: u16) -> (r: u16)
    ensures
        r == crc_shift(c),
{
    if c & 0x8000 != 0 {
        (c << 1u16) ^ 0x1021
    } else {
        c << 1u16
    }
}

/// CRC-16/CCITT-FALSE of `s`.
pub fn crc16(s: &[u8]) -> (r: u16)
    ensures
        r == spec_crc16(s@),
{
    let mut c: u16 = 0xFFFF;
    let mut i: usize = 0;
    assert(s@.skip(0) =~= s@);
    while i < s.len()
        invariant
            0 <= i <= s@.len(),
            spec_crc16_from(c, s@.skip(i as int)) == spec_crc16(s@),
        decreases s.len() - i,
    {
        let b = s[i];
        let mut d: u16 = c ^ ((b as u16) << 8u16);
        let mut k: usize = 0;
        while k < 8
            invariant
                0 <= k <= 8,
                crc_rounds(d, (8 - k) as nat) == crc_byte(c, b),
            decreases 8 - k,
        {
            d = crc_shift_exec(d);
            k = k + 1;
        }
        proof {
            assert(s@.skip(i as int)[0] == s@[i as int]);
            assert(s@.skip(i as int).skip(1) =~= s@.skip(i + 1));
        }
        c = d;
        i = i + 1;
    }
    assert(s@.skip(i as int) =~= Seq::<u8>::empty());
    c
}

/// The slot a key hashes to: the CRC of its hash-tag body when one is
/// present, of the whole key otherwise, reduced modulo the slot count.
pub fn key_to_slot(key: &[u8]) -> (r: u16)
    ensures
        r == spec_slot_of(key@),
        r < 16384,
{
    proof {
        lemma_find_byte(key@, 123u8);
    }
    let input: &[u8] = match find_byte_from(key, 123u8, 0) {
        None => {
            proof {
                lemma_find_first_agrees(key@, 123u8, None);
            }
            key
        },
        Some(i) => {
            let n = key.len();
            assert(i < n);
            proof {
                lemma_find_first_agrees(key@, 123u8, Some(i as int));
            }
            let ghost rest = key@.skip(i + 1);
            proof {
                lemma_find_byte(rest, 125u8);
            }
            match find_byte_from(key, 125u8, i + 1) {
                None => {
                    proof {
                        assert(forall|j: int| 0 <= j < rest.len() ==> rest[j]
                            == #[trigger] key@[j + i + 1]);
                        lemma_find_first_agrees(rest, 125u8, None);
                    }
                    key
                },
                Some(jj) => {
                    proof {
                        assert(forall|j: int| 0 <= j < rest.len() ==> rest[j]
                            == #[trigger] key@[j + i + 1]);
                        lemma_find_first_agrees(rest, 125u8, Some(jj - i - 1));
                    }
                    if jj > i + 1 {
                        let sub = vstd::slice::slice_subrange(key, i + 1, jj);
                        assert(sub@ =~= rest.subrange(0, jj - i - 1));
                        sub
                    } else {
                        key
                    }
                },
            }
        },
    };
    crc16(input) % SLOT_COUNT
}

/// `spec_find_byte` and a first-occurrence description agree: feeding
/// the characterization of an exec search back identifies the result.
proof fn lemma_find_first_agrees(s: Seq<u8>, b: u8, r: Option<int>)
    requires
        match r {
            Some(i) => 0 <= i < s.len() && s[i] == b && (forall|j: int|
                0 <= j < i ==> s[j] != b),
            None => forall|j: int| 0 <= j < s.len() ==> s[j] != b,
        },
    ensures
        spec_find_byte(s, b) == r,
{
    lemma_find_byte(s, b);
    match spec_find_byte(s, b) {
        Some(i) => {
            match r {
                Some(k) => {
                    if i < k {
                        assert(s[i] != b);
                    } else if k < i {
                        assert(s[k] != b);
                    }
                },
                None => {
                    assert(s[i] != b);
                },
            }
        },
        None => {
            match r {
                Some(k) => {
                    assert(s[k] != b);
                },
                None => {},
            }
        },
    }
}

// ---------------------------------------------------------------------------
// Laws.
// ---------------------------------------------------------------------------

/// Every key's slot is in range.
pub proof fn lemma_slot_in_range(k: Seq<u8>)
    ensures
        spec_slot_of(k) < 16384,
{
}

/// A hash-tag body never contains a closing brace.
proof fn lemma_tag_body_no_close(k: Seq<u8>)
    ensures
        match spec_tag_body(k) {
            Some(b) => forall|j: int| 0 <= j < b.len() ==> b[j] != 125u8,
            None => true,
        },
{
    lemma_find_byte(k, 123u8);
    if let Some(i) = spec_find_byte(k, 123u8) {
        let rest = k.skip(i + 1);
        lemma_find_byte(rest, 125u8);
    }
}

/// Hash-tag coherence: two keys sharing a non-empty hash-tag body map to
/// the same slot, which is also the slot of the bare body.
pub proof fn lemma_hash_tag_coherence(k1: Seq<u8>, k2: Seq<u8>, b: Seq<u8>)
    requires
        spec_tag_body(k1) == Some(b),
        spec_tag_body(k2) == Some(b),
    ensures
        spec_slot_of(k1) == spec_slot_of(k2),
        spec_slot_of(k1) == spec_slot_of(b),
{
    lemma_tag_body_no_close(k1);
    lemma_find_byte(b, 123u8);
    if let Some(i) = spec_find_byte(b, 123u8) {
        let rest = b.skip(i + 1);
        lemma_find_byte(rest, 125u8);
        if let Some(j) = spec_find_byte(rest, 125u8) {
            assert(rest[j] == b[j + i + 1]);
            assert(false);
        }
    }
    assert(spec_hash_input(b) == b);
}

} // verus!
