//! The wire form of a proof: how a proof is laid out as bytes, and how bytes are read
//! back as a proof.
//!
//! A proof is encoded as its seed, its key, its slot number as eight little-endian
//! bytes, the number of its checkpoints as a compact integer, the checkpoints one
//! after another, and the injected block hash. No two proofs share an encoding, and
//! only the encodings themselves decode.

use crate::primitives::{
    checkpoints_view, BlockHash, PotBytes, PotCheckpoint, PotKey, PotProof, PotSeed, ProofView,
};
use vstd::prelude::*;

verus! {

/// 256 to the power of `width`.
pub open spec fn radix_pow(width: nat) -> nat
    decreases width,
{
    if width == 0 {
        1
    } else {
        256 * radix_pow((width - 1) as nat)
    }
}

/// The `width` low bytes of `value`, least significant first.
pub open spec fn le_bytes(value: nat, width: nat) -> Seq<u8>
    decreases width,
{
    if width == 0 {
        Seq::empty()
    } else {
        seq![(value % 256) as u8] + le_bytes(value / 256, (width - 1) as nat)
    }
}

/// The number that `bytes` spell, least significant byte first.
pub open spec fn le_value(bytes: Seq<u8>) -> nat
    decreases bytes.len(),
{
    if bytes.len() == 0 {
        0
    } else {
        bytes[0] as nat + 256 * le_value(bytes.drop_first())
    }
}

/// `le_bytes` gives as many bytes as asked for.
pub proof fn lemma_le_bytes_len(value: nat, width: nat)
    ensures
        le_bytes(value, width).len() == width,
    decreases width,
{
    if width > 0 {
        lemma_le_bytes_len(value / 256, (width - 1) as nat);
    }
}

/// A number that fits in `width` bytes is read back from its bytes.
pub proof fn lemma_le_value_of_bytes(value: nat, width: nat)
    requires
        value < radix_pow(width),
    ensures
        le_value(le_bytes(value, width)) == value,
    decreases width,
{
    if width > 0 {
        let rest = le_bytes(value / 256, (width - 1) as nat);
        lemma_le_bytes_len(value / 256, (width - 1) as nat);
        lemma_le_value_of_bytes(value / 256, (width - 1) as nat);
        assert(le_bytes(value, width).drop_first() =~= rest);
    }
}

/// Bytes are written back from the number they spell, which fits in as many bytes.
pub proof fn lemma_le_bytes_of_value(bytes: Seq<u8>)
    ensures
        le_value(bytes) < radix_pow(bytes.len()),
        le_bytes(le_value(bytes), bytes.len()) == bytes,
    decreases bytes.len(),
{
    if bytes.len() > 0 {
        let rest = bytes.drop_first();
        lemma_le_bytes_of_value(rest);
        let value = le_value(bytes);
        assert(value / 256 == le_value(rest));
        assert(value % 256 == bytes[0] as nat);
        assert(le_bytes(value, bytes.len()) =~= bytes);
    } else {
        assert(le_bytes(0, 0) =~= bytes);
    }
}

/// The compact form of a count: one, two, four or five bytes, the shortest that
/// holds it. The two low bits of the first byte tell which.
pub open spec fn compact_u32(count: u32) -> Seq<u8> {
    if count < 0x40 {
        le_bytes(4 * count as nat, 1)
    } else if count < 0x4000 {
        le_bytes(4 * count as nat + 1, 2)
    } else if count < 0x4000_0000 {
        le_bytes(4 * count as nat + 2, 4)
    } else {
        seq![3u8] + le_bytes(count as nat, 4)
    }
}

/// Number of bytes of the compact form of `count`.
pub open spec fn compact_len(count: u32) -> nat {
    if count < 0x40 {
        1
    } else if count < 0x4000 {
        2
    } else if count < 0x4000_0000 {
        4
    } else {
        5
    }
}

/// Reads a compact count from the front of `bytes`: the count and the number of
/// bytes it took. There is none where the bytes end early, or spell a count in more
/// bytes than it needs.
#[verifier::opaque]
pub open spec fn parse_compact(bytes: Seq<u8>) -> Option<(u32, nat)> {
    if bytes.len() == 0 {
        None
    } else if bytes[0] % 4 == 0 {
        Some(((bytes[0] / 4) as u32, 1))
    } else if bytes[0] % 4 == 1 {
        if bytes.len() >= 2 && le_value(bytes.subrange(0, 2)) / 4 >= 0x40 {
            Some(((le_value(bytes.subrange(0, 2)) / 4) as u32, 2))
        } else {
            None
        }
    } else if bytes[0] % 4 == 2 {
        if bytes.len() >= 4 && le_value(bytes.subrange(0, 4)) / 4 >= 0x4000 {
            Some(((le_value(bytes.subrange(0, 4)) / 4) as u32, 4))
        } else {
            None
        }
    } else {
        if bytes[0] == 3 && bytes.len() >= 5 && le_value(bytes.subrange(1, 5)) >= 0x4000_0000 {
            Some((le_value(bytes.subrange(1, 5)) as u32, 5))
        } else {
            None
        }
    }
}

proof fn lemma_radix_pow_values()
    ensures
        radix_pow(1) == 0x100,
        radix_pow(2) == 0x1_0000,
        radix_pow(4) == 0x1_0000_0000,
        radix_pow(8) == 0x1_0000_0000_0000_0000,
{
    reveal_with_fuel(radix_pow, 9);
}

/// The first byte of some little-endian bytes is the number modulo 256.
proof fn lemma_le_bytes_first(value: nat, width: nat)
    requires
        width > 0,
    ensures
        le_bytes(value, width).len() == width,
        le_bytes(value, width)[0] == (value % 256) as u8,
{
    lemma_le_bytes_len(value, width);
}

/// The compact form has the length that `compact_len` gives.
pub proof fn lemma_compact_len(count: u32)
    ensures
        compact_u32(count).len() == compact_len(count),
{
    lemma_le_bytes_len(4 * count as nat, 1);
    lemma_le_bytes_len(4 * count as nat + 1, 2);
    lemma_le_bytes_len(4 * count as nat + 2, 4);
    lemma_le_bytes_len(count as nat, 4);
}

/// Reading the compact form of a count gives the count back, whatever follows it.
pub proof fn lemma_parse_compact_of_encoding(count: u32, rest: Seq<u8>)
    ensures
        parse_compact(compact_u32(count) + rest) == Some((count, compact_len(count))),
{
    let bytes = compact_u32(count) + rest;
    reveal(parse_compact);
    lemma_compact_len(count);
    lemma_radix_pow_values();
    if count < 0x40 {
        lemma_le_bytes_first(4 * count as nat, 1);
    } else if count < 0x4000 {
        let value = 4 * count as nat + 1;
        lemma_le_bytes_first(value, 2);
        assert(bytes.subrange(0, 2) =~= le_bytes(value, 2));
        lemma_le_value_of_bytes(value, 2);
    } else if count < 0x4000_0000 {
        let value = 4 * count as nat + 2;
        lemma_le_bytes_first(value, 4);
        assert(bytes.subrange(0, 4) =~= le_bytes(value, 4));
        lemma_le_value_of_bytes(value, 4);
    } else {
        lemma_le_bytes_len(count as nat, 4);
        assert(bytes[0] == 3u8);
        assert(bytes.subrange(1, 5) =~= le_bytes(count as nat, 4));
        lemma_le_value_of_bytes(count as nat, 4);
    }
}

/// What reads as a compact count is the compact form of that count.
pub proof fn lemma_parse_compact_sound(bytes: Seq<u8>)
    ensures
        parse_compact(bytes) matches Some((count, taken)) ==> {
            &&& taken == compact_len(count)
            &&& taken <= bytes.len()
            &&& bytes.subrange(0, taken as int) == compact_u32(count)
        },
{
    reveal(parse_compact);
    lemma_radix_pow_values();
    if let Some((count, taken)) = parse_compact(bytes) {
        if bytes[0] % 4 == 0 {
            let head = bytes.subrange(0, 1);
            lemma_le_bytes_of_value(head);
            assert(head.drop_first() =~= Seq::<u8>::empty());
            assert(le_value(head.drop_first()) == 0);
            assert(le_value(head) == bytes[0] as nat);
        } else if bytes[0] % 4 == 1 {
            let head = bytes.subrange(0, 2);
            lemma_le_bytes_of_value(head);
            assert(le_value(head) % 256 == bytes[0] as nat) by {
                assert(head[0] == bytes[0]);
            }
            assert(le_value(head) % 4 == 1);
        } else if bytes[0] % 4 == 2 {
            let head = bytes.subrange(0, 4);
            lemma_le_bytes_of_value(head);
            assert(le_value(head) % 256 == bytes[0] as nat) by {
                assert(head[0] == bytes[0]);
            }
            assert(le_value(head) % 4 == 2);
        } else {
            let tail = bytes.subrange(1, 5);
            lemma_le_bytes_of_value(tail);
            assert(bytes.subrange(0, 5) =~= seq![3u8] + tail);
        }
    }
}

/// Appends `bytes` to `out`.
fn append_bytes(out: &mut Vec<u8>, bytes: &[u8])
    ensures
        final(out)@ == old(out)@ + bytes@,
{
    let mut i: usize = 0;
    while i < bytes.len()
        invariant
            i <= bytes.len(),
            out@ == old(out)@ + bytes@.subrange(0, i as int),
        decreases bytes.len() - i,
    {
        out.push(bytes[i]);
        assert(out@ =~= old(out)@ + bytes@.subrange(0, i + 1));
        i += 1;
    }
    assert(bytes@.subrange(0, bytes.len() as int) =~= bytes@);
}

/// Appends the `width` low bytes of `value` to `out`, least significant first.
fn append_le(out: &mut Vec<u8>, value: u64, width: usize)
    ensures
        final(out)@ == old(out)@ + le_bytes(value as nat, width as nat),
{
    let mut left: u64 = value;
    let mut i: usize = 0;
    while i < width
        invariant
            i <= width,
            old(out)@ + le_bytes(value as nat, width as nat) == out@ + le_bytes(
                left as nat,
                (width - i) as nat,
            ),
        decreases width - i,
    {
        let ghost before = out@;
        out.push((left % 256) as u8);
        proof {
            let rest = le_bytes(left as nat / 256, (width - i - 1) as nat);
            assert(before + le_bytes(left as nat, (width - i) as nat) =~= out@ + rest);
        }
        left = left / 256;
        i += 1;
    }
    assert(out@ + le_bytes(left as nat, 0) =~= out@);
}

/// Reads `width` bytes at `start` as a number, least significant byte first.
fn read_le(bytes: &[u8], start: usize, width: usize) -> (value: u64)
    requires
        width <= 8,
        start + width <= bytes.len(),
    ensures
        value == le_value(bytes@.subrange(start as int, start + width)),
{
    let mut value: u64 = 0;
    let mut i: usize = width;
    proof {
        lemma_radix_pow_values();
        assert(bytes@.subrange(start + width, start + width) =~= Seq::<u8>::empty());
    }
    while i > 0
        invariant
            i <= width <= 8,
            start + width <= bytes.len(),
            value == le_value(bytes@.subrange(start + i, start + width)),
            value < radix_pow((width - i) as nat),
            radix_pow(8) == 0x1_0000_0000_0000_0000,
        decreases i,
    {
        i -= 1;
        proof {
            let longer = bytes@.subrange(start + i, start + width);
            assert(longer.drop_first() =~= bytes@.subrange(start + i + 1, start + width));
            lemma_le_bytes_of_value(longer);
            lemma_radix_pow_mono((width - i) as nat, 8);
        }
        value = value * 256 + bytes[start + i] as u64;
    }
    value
}

/// `radix_pow` does not fall as the width grows.
proof fn lemma_radix_pow_mono(narrow: nat, wide: nat)
    requires
        narrow <= wide,
    ensures
        radix_pow(narrow) <= radix_pow(wide),
    decreases wide,
{
    if narrow < wide {
        lemma_radix_pow_mono(narrow, (wide - 1) as nat);
    }
}

/// Appends the compact form of `count` to `out`.
fn append_compact(out: &mut Vec<u8>, count: u32)
    ensures
        final(out)@ == old(out)@ + compact_u32(count),
{
    if count < 0x40 {
        append_le(out, 4 * (count as u64), 1);
    } else if count < 0x4000 {
        append_le(out, 4 * (count as u64) + 1, 2);
    } else if count < 0x4000_0000 {
        append_le(out, 4 * (count as u64) + 2, 4);
    } else {
        out.push(3u8);
        append_le(out, count as u64, 4);
        assert(out@ =~= old(out)@ + (seq![3u8] + le_bytes(count as nat, 4)));
    }
}

/// Reads a compact count at `start`: the count and the number of bytes it took.
fn read_compact(bytes: &[u8], start: usize) -> (read: Option<(u32, usize)>)
    requires
        start <= bytes.len(),
    ensures
        match read {
            Some((count, taken)) => parse_compact(bytes@.subrange(start as int, bytes.len() as int))
                == Some((count, taken as nat)),
            None => parse_compact(bytes@.subrange(start as int, bytes.len() as int)) is None,
        },
{
    let ghost tail = bytes@.subrange(start as int, bytes.len() as int);
    let left = bytes.len() - start;
    if left == 0 {
        proof {
            reveal(parse_compact);
        }
        return None;
    }
    let first = bytes[start];
    assert(first == tail[0]);
    proof {
        reveal(parse_compact);
        lemma_radix_pow_values();
    }
    if first % 4 == 0 {
        Some(((first / 4) as u32, 1))
    } else if first % 4 == 1 {
        if left < 2 {
            return None;
        }
        assert(tail.subrange(0, 2) =~= bytes@.subrange(start as int, start + 2));
        proof {
            lemma_le_bytes_of_value(tail.subrange(0, 2));
        }
        let value = read_le(bytes, start, 2);
        if value / 4 >= 0x40 {
            Some(((value / 4) as u32, 2))
        } else {
            None
        }
    } else if first % 4 == 2 {
        if left < 4 {
            return None;
        }
        assert(tail.subrange(0, 4) =~= bytes@.subrange(start as int, start + 4));
        proof {
            lemma_le_bytes_of_value(tail.subrange(0, 4));
        }
        let value = read_le(bytes, start, 4);
        if value / 4 >= 0x4000 {
            Some(((value / 4) as u32, 4))
        } else {
            None
        }
    } else {
        if first != 3 || left < 5 {
            return None;
        }
        assert(tail.subrange(1, 5) =~= bytes@.subrange(start + 1, start + 5));
        proof {
            lemma_le_bytes_of_value(tail.subrange(1, 5));
        }
        let value = read_le(bytes, start + 1, 4);
        if value >= 0x4000_0000 {
            Some((value as u32, 5))
        } else {
            None
        }
    }
}

/// The checkpoints laid end to end.
pub open spec fn flatten(checkpoints: Seq<Seq<u8>>) -> Seq<u8> {
    Seq::new(16 * checkpoints.len(), |k: int| checkpoints[k / 16][k % 16])
}

/// The wire form of a proof.
pub open spec fn encode_proof(p: ProofView) -> Seq<u8> {
    p.seed + p.key + le_bytes(p.slot_number as nat, 8) + compact_u32(p.checkpoints.len() as u32)
        + flatten(p.checkpoints) + p.injected_block_hash
}

/// `bytes` are the wire form of some proof.
pub open spec fn is_encoding(bytes: Seq<u8>) -> bool {
    exists|p: ProofView| p.wf() && #[trigger] encode_proof(p) == bytes
}

/// Where the parts of an encoding lie.
proof fn lemma_encoding_shape(p: ProofView)
    requires
        p.wf(),
    ensures
        ({
            let e = encode_proof(p);
            let n = p.checkpoints.len() as int;
            let k = compact_len(n as u32) as int;
            &&& e.len() == 72 + k + 16 * n
            &&& e.subrange(0, 16) == p.seed
            &&& e.subrange(16, 32) == p.key
            &&& e.subrange(32, 40) == le_bytes(p.slot_number as nat, 8)
            &&& e.subrange(40, e.len() as int) == compact_u32(n as u32) + (flatten(p.checkpoints)
                + p.injected_block_hash)
            &&& e.subrange(40 + k, 40 + k + 16 * n) == flatten(p.checkpoints)
            &&& e.subrange(40 + k + 16 * n, e.len() as int) == p.injected_block_hash
        }),
{
    let e = encode_proof(p);
    let n = p.checkpoints.len() as int;
    let k = compact_len(n as u32) as int;
    lemma_le_bytes_len(p.slot_number as nat, 8);
    lemma_compact_len(n as u32);
    assert(e.subrange(0, 16) =~= p.seed);
    assert(e.subrange(16, 32) =~= p.key);
    assert(e.subrange(32, 40) =~= le_bytes(p.slot_number as nat, 8));
    assert(e.subrange(40, e.len() as int) =~= compact_u32(n as u32) + (flatten(p.checkpoints)
        + p.injected_block_hash));
    assert(e.subrange(40 + k, 40 + k + 16 * n) =~= flatten(p.checkpoints));
    assert(e.subrange(40 + k + 16 * n, e.len() as int) =~= p.injected_block_hash);
}

/// Checkpoints that lie end to end in the same bytes are the same checkpoints.
proof fn lemma_flatten_injective(a: Seq<Seq<u8>>, b: Seq<Seq<u8>>)
    requires
        a.len() == b.len(),
        forall|i: int| 0 <= i < a.len() ==> (#[trigger] a[i]).len() == 16,
        forall|i: int| 0 <= i < b.len() ==> (#[trigger] b[i]).len() == 16,
        flatten(a) == flatten(b),
    ensures
        a == b,
{
    assert forall|i: int| 0 <= i < a.len() implies a[i] == b[i] by {
        assert forall|j: int| 0 <= j < 16 implies a[i][j] == b[i][j] by {
            let k = 16 * i + j;
            assert(k / 16 == i && k % 16 == j);
            assert(flatten(a)[k] == a[i][j]);
            assert(flatten(b)[k] == b[i][j]);
        }
        assert(a[i] =~= b[i]);
    }
    assert(a =~= b);
}

/// No two proofs share a wire form.
pub proof fn lemma_encoding_injective(a: ProofView, b: ProofView)
    requires
        a.wf(),
        b.wf(),
        encode_proof(a) == encode_proof(b),
    ensures
        a == b,
{
    let e = encode_proof(a);
    lemma_encoding_shape(a);
    lemma_encoding_shape(b);
    lemma_radix_pow_values();
    lemma_le_value_of_bytes(a.slot_number as nat, 8);
    lemma_le_value_of_bytes(b.slot_number as nat, 8);
    assert(a.slot_number == b.slot_number);
    lemma_parse_compact_of_encoding(
        a.checkpoints.len() as u32,
        flatten(a.checkpoints) + a.injected_block_hash,
    );
    lemma_parse_compact_of_encoding(
        b.checkpoints.len() as u32,
        flatten(b.checkpoints) + b.injected_block_hash,
    );
    assert(a.checkpoints.len() == b.checkpoints.len());
    lemma_flatten_injective(a.checkpoints, b.checkpoints);
}

/// What holds of bytes that are the wire form of a proof: the count of checkpoints
/// reads at offset 40, is not zero, and accounts for the length.
proof fn lemma_encoding_facts(bytes: Seq<u8>)
    ensures
        is_encoding(bytes) ==> {
            &&& bytes.len() >= 41
            &&& parse_compact(bytes.subrange(40, bytes.len() as int)) matches Some((count, taken))
            &&& count >= 1
            &&& bytes.len() == 72 + taken + 16 * count
        },
{
    if is_encoding(bytes) {
        let p = choose|p: ProofView| p.wf() && #[trigger] encode_proof(p) == bytes;
        lemma_encoding_shape(p);
        lemma_parse_compact_of_encoding(
            p.checkpoints.len() as u32,
            flatten(p.checkpoints) + p.injected_block_hash,
        );
    }
}

/// Decoding undoes encoding: the one proof whose wire form `bytes` are, if there is one.
pub open spec fn decode_proof(bytes: Seq<u8>) -> Option<ProofView> {
    if is_encoding(bytes) {
        Some(choose|p: ProofView| p.wf() && #[trigger] encode_proof(p) == bytes)
    } else {
        None
    }
}

/// A proof is read back from its wire form.
pub proof fn lemma_decode_of_encoding(p: ProofView)
    requires
        p.wf(),
    ensures
        decode_proof(encode_proof(p)) == Some(p),
{
    let bytes = encode_proof(p);
    assert(is_encoding(bytes));
    let q = choose|q: ProofView| q.wf() && #[trigger] encode_proof(q) == bytes;
    lemma_encoding_injective(p, q);
}

/// Bytes whose parts are the parts of a proof are its wire form.
proof fn lemma_assembled(bytes: Seq<u8>, p: ProofView, taken: int)
    requires
        p.wf(),
        taken == compact_len(p.checkpoints.len() as u32),
        bytes.len() == 72 + taken + 16 * p.checkpoints.len(),
        p.seed == bytes.subrange(0, 16),
        p.key == bytes.subrange(16, 32),
        p.slot_number == le_value(bytes.subrange(32, 40)),
        bytes.subrange(40, 40 + taken) == compact_u32(p.checkpoints.len() as u32),
        forall|k: int|
            0 <= k < p.checkpoints.len() ==> (#[trigger] p.checkpoints[k]) == bytes.subrange(
                40 + taken + 16 * k,
                40 + taken + 16 * k + 16,
            ),
        p.injected_block_hash == bytes.subrange(
            40 + taken + 16 * p.checkpoints.len(),
            bytes.len() as int,
        ),
    ensures
        encode_proof(p) == bytes,
        decode_proof(bytes) == Some(p),
{
    let count = p.checkpoints.len() as int;
    let base = 40 + taken;
    let flat = bytes.subrange(base, base + 16 * count);
    assert(flatten(p.checkpoints) =~= flat) by {
        assert forall|k: int| 0 <= k < 16 * count implies flatten(p.checkpoints)[k] == flat[k] by {
            let c = k / 16;
            assert(p.checkpoints[c] == bytes.subrange(base + 16 * c, base + 16 * c + 16));
        }
    }
    lemma_le_bytes_of_value(bytes.subrange(32, 40));
    lemma_encoding_shape(p);
    assert(encode_proof(p) =~= bytes.subrange(0, 16) + bytes.subrange(16, 32) + bytes.subrange(32, 40)
        + bytes.subrange(40, base) + flat + bytes.subrange(base + 16 * count, bytes.len() as int));
    assert(encode_proof(p) =~= bytes);
    lemma_decode_of_encoding(p);
}

/// Copies the sixteen bytes at `start`.
fn read_pot_bytes(bytes: &[u8], start: usize) -> (out: PotBytes)
    requires
        start + 16 <= bytes.len(),
    ensures
        out@ == bytes@.subrange(start as int, start + 16),
{
    let mut out: PotBytes = [0u8; 16];
    let mut i: usize = 0;
    while i < 16
        invariant
            i <= 16,
            start + 16 <= bytes.len(),
            forall|k: int| 0 <= k < i ==> out[k] == bytes[start + k],
        decreases 16 - i,
    {
        out[i] = bytes[start + i];
        i += 1;
    }
    assert(out@ =~= bytes@.subrange(start as int, start + 16));
    out
}

/// Copies the thirty-two bytes at `start`.
fn read_block_hash(bytes: &[u8], start: usize) -> (out: BlockHash)
    requires
        start + 32 <= bytes.len(),
    ensures
        out@ == bytes@.subrange(start as int, start + 32),
{
    let mut out: BlockHash = [0u8; 32];
    let mut i: usize = 0;
    while i < 32
        invariant
            i <= 32,
            start + 32 <= bytes.len(),
            forall|k: int| 0 <= k < i ==> out[k] == bytes[start + k],
        decreases 32 - i,
    {
        out[i] = bytes[start + i];
        i += 1;
    }
    assert(out@ =~= bytes@.subrange(start as int, start + 32));
    out
}

/// Reads the frame of a wire form: the number of checkpoints that it announces and
/// the number of bytes that the announcement takes. There is none where the bytes
/// are no wire form.
fn read_frame(bytes: &[u8]) -> (frame: Option<(u32, usize)>)
    ensures
        frame is None ==> !is_encoding(bytes@),
        frame matches Some((count, taken)) ==> {
            &&& count >= 1
            &&& taken == compact_len(count)
            &&& bytes.len() == 72 + taken + 16 * count
            &&& bytes@.subrange(40, 40 + taken) == compact_u32(count)
        },
{
    proof {
        lemma_encoding_facts(bytes@);
    }
    if bytes.len() < 41 {
        return None;
    }
    let ghost tail = bytes@.subrange(40, bytes.len() as int);
    let (count, taken) = match read_compact(bytes, 40) {
        Some(read) => read,
        None => {
            return None;
        },
    };
    proof {
        lemma_parse_compact_sound(tail);
        assert(tail.subrange(0, taken as int) =~= bytes@.subrange(40, 40 + taken));
    }
    let body = bytes.len() - 40 - taken;
    if count == 0 || body < 32 || (body - 32) % 16 != 0 || (body - 32) / 16 != count as usize {
        return None;
    }
    Some((count, taken))
}

impl PotProof {
    /// The wire form of the proof.
    pub fn encode(&self) -> (bytes: Vec<u8>)
        ensures
            bytes@ == encode_proof(self@),
            is_encoding(bytes@),
            decode_proof(bytes@) == Some(self@),
    {
        proof {
            use_type_invariant(self);
        }
        let checkpoints = self.checkpoints();
        let mut bytes: Vec<u8> = Vec::new();
        append_bytes(&mut bytes, self.seed().0.as_slice());
        append_bytes(&mut bytes, self.key().0.as_slice());
        append_le(&mut bytes, self.slot_number(), 8);
        append_compact(&mut bytes, checkpoints.len() as u32);
        let ghost head = bytes@;
        let ghost all = self@.checkpoints;
        let mut i: usize = 0;
        while i < checkpoints.len()
            invariant
                i <= checkpoints.len(),
                all == checkpoints_view(checkpoints@),
                bytes@ == head + flatten(all.take(i as int)),
            decreases checkpoints.len() - i,
        {
            append_bytes(&mut bytes, checkpoints[i].0.as_slice());
            proof {
                assert(flatten(all.take(i + 1)) =~= flatten(all.take(i as int)) + all[i as int]);
                assert(bytes@ =~= head + flatten(all.take(i + 1)));
            }
            i += 1;
        }
        assert(all.take(i as int) =~= all);
        append_bytes(&mut bytes, self.injected_block_hash().as_slice());
        assert(bytes@ =~= encode_proof(self@));
        proof {
            lemma_decode_of_encoding(self@);
        }
        bytes
    }

    /// Reads a proof from its wire form. Bytes that are not the wire form of a
    /// proof, whole and with nothing after it, give none.
    pub fn decode(bytes: &[u8]) -> (decoded: Option<PotProof>)
        ensures
            decoded is Some <==> is_encoding(bytes@),
            decoded matches Some(p) ==> encode_proof(p@) == bytes@ && decode_proof(bytes@) == Some(p@),
    {
        let (count, taken) = match read_frame(bytes) {
            Some(frame) => frame,
            None => {
                return None;
            },
        };
        let base = 40 + taken;
        let seed = PotSeed(read_pot_bytes(bytes, 0));
        let key = PotKey(read_pot_bytes(bytes, 16));
        let slot_number = read_le(bytes, 32, 8);
        let mut checkpoints: Vec<PotCheckpoint> = Vec::new();
        let mut i: usize = 0;
        while i < count as usize
            invariant
                i <= count,
                checkpoints.len() == i,
                base + 16 * count + 32 == bytes.len(),
                forall|k: int|
                    0 <= k < i ==> (#[trigger] checkpoints[k])@ == bytes@.subrange(
                        base + 16 * k,
                        base + 16 * k + 16,
                    ),
            decreases count - i,
        {
            checkpoints.push(PotCheckpoint(read_pot_bytes(bytes, base + 16 * i)));
            i += 1;
        }
        let injected_block_hash = read_block_hash(bytes, base + 16 * (count as usize));
        let decoded = PotProof::new(slot_number, seed, key, checkpoints, injected_block_hash);
        proof {
            let p = decoded->0@;
            assert(p.checkpoints.len() == count);
            assert(p.wf());
            lemma_assembled(bytes@, p, taken as int);
        }
        decoded
    }
}

} // verus!
