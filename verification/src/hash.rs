//! Stable identifiers: FNV-1a hashing and unpadded URL-safe base64.

use vstd::prelude::*;
use crate::text::push_char;

verus! {

pub const FNV_OFFSET: u64 = 0xcbf2_9ce4_8422_2325;

pub const FNV_PRIME: u64 = 0x0000_0100_0000_01b3;

/// The seed of the second hash lane.
pub const SECOND_LANE_MIX: u64 = 0x9e37_79b9_7f4a_7c15;

/// 64-bit FNV-1a over `bytes`, starting from `seed`.
pub open spec fn fnv_spec(seed: u64, bytes: Seq<u8>) -> u64
    decreases bytes.len(),
{
    if bytes.len() == 0 {
        seed
    } else {
        (fnv_spec(seed, bytes.drop_last()) ^ (bytes.last() as u64)).wrapping_mul(FNV_PRIME)
    }
}

pub fn fnv64_with_seed(seed: u64, input: &[u8]) -> (h: u64)
    ensures
        h == fnv_spec(seed, input@),
{
    let mut hash = seed;
    let mut i: usize = 0;
    while i < input.len()
        invariant
            i <= input@.len(),
            hash == fnv_spec(seed, input@.subrange(0, i as int)),
        decreases input@.len() - i,
    {
        assert(input@.subrange(0, i + 1).drop_last() =~= input@.subrange(0, i as int));
        hash = (hash ^ (input[i] as u64)).wrapping_mul(FNV_PRIME);
        i += 1;
    }
    assert(input@.subrange(0, input@.len() as int) =~= input@);
    hash
}

/// The URL-safe base64 alphabet: `A-Z`, `a-z`, `0-9`, `-`, `_`.
pub open spec fn b64_char(v: u32) -> char {
    if v < 26 {
        (65 + v) as char
    } else if v < 52 {
        (97 + v - 26) as char
    } else if v < 62 {
        (48 + v - 52) as char
    } else if v == 62 {
        '-'
    } else {
        '_'
    }
}

pub fn b64_url_char(v: u32) -> (c: char)
    requires
        v < 64,
    ensures
        c == b64_char(v),
{
    if v < 26 {
        ((65 + v) as u8) as char
    } else if v < 52 {
        ((97 + v - 26) as u8) as char
    } else if v < 62 {
        ((48 + v - 52) as u8) as char
    } else if v == 62 {
        '-'
    } else {
        '_'
    }
}

/// Three bytes packed big-endian into 24 bits.
pub open spec fn pack3(a: u8, b: u8, c: u8) -> u32 {
    ((a as u32) << 16u32) | ((b as u32) << 8u32) | (c as u32)
}

/// The four characters of one full three-byte group.
pub open spec fn quad(a: u8, b: u8, c: u8) -> Seq<char> {
    let v = pack3(a, b, c);
    seq![
        b64_char((v >> 18u32) & 0x3f),
        b64_char((v >> 12u32) & 0x3f),
        b64_char((v >> 6u32) & 0x3f),
        b64_char(v & 0x3f),
    ]
}

/// The characters of the first `k` full groups of `s`.
pub open spec fn b64_groups(s: Seq<u8>, k: nat) -> Seq<char>
    decreases k,
{
    if k == 0 {
        Seq::<char>::empty()
    } else {
        let i = 3 * (k - 1);
        b64_groups(s, (k - 1) as nat) + quad(s[i], s[i + 1], s[i + 2])
    }
}

/// The characters of the final partial group starting at `i` (one or two bytes, or none).
pub open spec fn b64_tail(s: Seq<u8>, i: int) -> Seq<char> {
    if s.len() - i == 1 {
        let v = pack3(s[i], 0, 0);
        seq![b64_char((v >> 18u32) & 0x3f), b64_char((v >> 12u32) & 0x3f)]
    } else if s.len() - i == 2 {
        let v = pack3(s[i], s[i + 1], 0);
        seq![
            b64_char((v >> 18u32) & 0x3f),
            b64_char((v >> 12u32) & 0x3f),
            b64_char((v >> 6u32) & 0x3f),
        ]
    } else {
        Seq::<char>::empty()
    }
}

/// Unpadded URL-safe base64 of `s`.
pub open spec fn b64_spec(s: Seq<u8>) -> Seq<char> {
    b64_groups(s, s.len() / 3) + b64_tail(s, 3 * (s.len() / 3) as int)
}

proof fn lemma_sextets(v: u32)
    ensures
        (v >> 18u32) & 0x3f < 64,
        (v >> 12u32) & 0x3f < 64,
        (v >> 6u32) & 0x3f < 64,
        v & 0x3f < 64,
{
    assert((v >> 18u32) & 0x3f < 64) by (bit_vector);
    assert((v >> 12u32) & 0x3f < 64) by (bit_vector);
    assert((v >> 6u32) & 0x3f < 64) by (bit_vector);
    assert(v & 0x3f < 64) by (bit_vector);
}

/// Encodes `bytes` as unpadded URL-safe base64.
pub fn encode_base64url_no_pad(bytes: &[u8]) -> (out: String)
    ensures
        out@ == b64_spec(bytes@),
{
    let mut out = String::new();
    let n = bytes.len();
    let full = n / 3;
    let mut k: usize = 0;
    while k < full
        invariant
            n == bytes@.len(),
            full == n / 3,
            k <= full,
            out@ == b64_groups(bytes@, k as nat),
        decreases full - k,
    {
        let i = 3 * k;
        let a = bytes[i];
        let b = bytes[i + 1];
        let c = bytes[i + 2];
        let value: u32 = ((a as u32) << 16u32) | ((b as u32) << 8u32) | (c as u32);
        proof {
            lemma_sextets(value);
        }
        push_char(&mut out, b64_url_char((value >> 18u32) & 0x3f));
        push_char(&mut out, b64_url_char((value >> 12u32) & 0x3f));
        push_char(&mut out, b64_url_char((value >> 6u32) & 0x3f));
        push_char(&mut out, b64_url_char(value & 0x3f));
        assert(out@ =~= b64_groups(bytes@, (k + 1) as nat));
        k += 1;
    }
    let i = 3 * full;
    if n - i == 1 {
        let value: u32 = (bytes[i] as u32) << 16u32;
        assert(value == pack3(bytes@[i as int], 0, 0)) by {
            let a = bytes@[i as int];
            assert(((a as u32) << 16u32) == ((a as u32) << 16u32) | ((0u8 as u32) << 8u32) | (
            0u8 as u32)) by (bit_vector);
        }
        proof {
            lemma_sextets(value);
        }
        push_char(&mut out, b64_url_char((value >> 18u32) & 0x3f));
        push_char(&mut out, b64_url_char((value >> 12u32) & 0x3f));
    } else if n - i == 2 {
        let value: u32 = ((bytes[i] as u32) << 16u32) | ((bytes[i + 1] as u32) << 8u32);
        assert(value == pack3(bytes@[i as int], bytes@[i + 1], 0)) by {
            let a = bytes@[i as int];
            let b = bytes@[i + 1];
            assert(((a as u32) << 16u32) | ((b as u32) << 8u32) == ((a as u32) << 16u32) | ((
            b as u32) << 8u32) | (0u8 as u32)) by (bit_vector);
        }
        proof {
            lemma_sextets(value);
        }
        push_char(&mut out, b64_url_char((value >> 18u32) & 0x3f));
        push_char(&mut out, b64_url_char((value >> 12u32) & 0x3f));
        push_char(&mut out, b64_url_char((value >> 6u32) & 0x3f));
    }
    assert(out@ =~= b64_spec(bytes@));
    out
}

/// The eight big-endian bytes of `x`.
pub open spec fn be_bytes(x: u64) -> Seq<u8> {
    seq![
        (x >> 56u64) as u8,
        (x >> 48u64) as u8,
        (x >> 40u64) as u8,
        (x >> 32u64) as u8,
        (x >> 24u64) as u8,
        (x >> 16u64) as u8,
        (x >> 8u64) as u8,
        x as u8,
    ]
}

/// A 120-bit identifier of `input`: two FNV-1a lanes, the first eight bytes of one
/// and the first seven of the other, in base64.
pub open spec fn hash_120_spec(input: Seq<u8>) -> Seq<char> {
    let first = fnv_spec(FNV_OFFSET, input);
    let second = fnv_spec(FNV_OFFSET ^ SECOND_LANE_MIX, input);
    b64_spec(be_bytes(first) + be_bytes(second).take(7))
}

fn push_be_bytes(v: &mut Vec<u8>, x: u64, count: usize)
    requires
        count <= 8,
    ensures
        final(v)@ == old(v)@ + be_bytes(x).take(count as int),
{
    let mut i: usize = 0;
    while i < count
        invariant
            i <= count <= 8,
            v@ == old(v)@ + be_bytes(x).take(i as int),
        decreases count - i,
    {
        let shift: u64 = 56 - 8 * (i as u64);
        let b = (x >> shift) as u8;
        proof {
            let bb = be_bytes(x);
            if i == 0 {
                assert(b == bb[0]);
            } else if i == 1 {
                assert(b == bb[1]);
            } else if i == 2 {
                assert(b == bb[2]);
            } else if i == 3 {
                assert(b == bb[3]);
            } else if i == 4 {
                assert(b == bb[4]);
            } else if i == 5 {
                assert(b == bb[5]);
            } else if i == 6 {
                assert(b == bb[6]);
            } else {
                assert(shift == 0);
                assert((x >> 0u64) == x) by (bit_vector);
                assert(b == bb[7]);
            }
        }
        v.push(b);
        assert(be_bytes(x).take(i + 1) =~= be_bytes(x).take(i as int).push(be_bytes(x)[i as int]));
        i += 1;
    }
}

pub fn hash_120(input: &[u8]) -> (out: String)
    ensures
        out@ == hash_120_spec(input@),
{
    let first = fnv64_with_seed(FNV_OFFSET, input);
    let second = fnv64_with_seed(FNV_OFFSET ^ SECOND_LANE_MIX, input);
    let mut bytes: Vec<u8> = Vec::new();
    push_be_bytes(&mut bytes, first, 8);
    push_be_bytes(&mut bytes, second, 7);
    assert(be_bytes(first).take(8) =~= be_bytes(first));
    assert(bytes@ =~= be_bytes(first) + be_bytes(second).take(7));
    encode_base64url_no_pad(bytes.as_slice())
}

/// The bytes that identify an expectation: `q`, NUL, the question, NUL, `a`, NUL, the
/// expected answer, each text in UTF-8.
pub open spec fn expectation_id_input(q: Seq<char>, a: Seq<char>) -> Seq<u8> {
    seq![113u8, 0u8] + vstd::utf8::encode_utf8(q) + seq![0u8, 97u8, 0u8] + vstd::utf8::encode_utf8(a)
}

#[verifier::opaque]
pub open spec fn expectation_id_spec(q: Seq<char>, a: Seq<char>) -> Seq<char> {
    hash_120_spec(expectation_id_input(q, a))
}

fn push_slice(v: &mut Vec<u8>, s: &[u8])
    ensures
        final(v)@ == old(v)@ + s@,
{
    let mut i: usize = 0;
    while i < s.len()
        invariant
            i <= s@.len(),
            v@ == old(v)@ + s@.take(i as int),
        decreases s@.len() - i,
    {
        v.push(s[i]);
        assert(s@.take(i + 1) =~= s@.take(i as int).push(s@[i as int]));
        i += 1;
    }
    assert(s@.take(s@.len() as int) =~= s@);
}

/// The stable ID of an expectation, from its question and expected answer.
pub fn expectation_id(prompt: &str, expected: &str) -> (id: String)
    ensures
        id@ == expectation_id_spec(prompt@, expected@),
{
    let mut input: Vec<u8> = Vec::new();
    input.push(113u8);
    input.push(0u8);
    push_slice(&mut input, prompt.as_bytes());
    input.push(0u8);
    input.push(97u8);
    input.push(0u8);
    push_slice(&mut input, expected.as_bytes());
    assert(input@ =~= expectation_id_input(prompt@, expected@));
    let id = hash_120(input.as_slice());
    proof {
        reveal(expectation_id_spec);
    }
    id
}

/// The scope that covers the whole repository.
pub open spec fn full_scope_spec() -> Seq<Seq<char>> {
    seq![seq!['.']]
}

pub fn full_scope() -> (r: Vec<String>)
    ensures
        r@.len() == 1,
        r@[0]@ == seq!['.'],
{
    let mut s = String::new();
    push_char(&mut s, '.');
    assert(s@ =~= seq!['.']);
    let mut v = Vec::new();
    v.push(s);
    v
}

} // verus!
