//! The chunk byte format.
//!
//! A serialized chunk is a fixed 32-byte header — width, height, grid
//! version and entry count, each 8 bytes little-endian — followed by one
//! 15-byte record per particle: its lattice position (two 4-byte
//! little-endian two's-complement coordinates), its color (3 bytes) and its
//! mass (4 bytes little-endian). Decoding accepts exactly the byte strings
//! this format produces and restores the same values; anything else is
//! rejected whole.

use vstd::arithmetic::div_mod::{
    lemma_div_denominator, lemma_fundamental_div_mod, lemma_mod_bound,
};
use vstd::prelude::*;

use crate::color::Color;

verus! {

/// The particle fields that persist in a chunk: its color and its mass.
#[derive(Clone, Copy, Debug, PartialEq, Eq, Structural)]
pub struct CellRecord {
    pub color: Color,
    pub mass: i32,
}

/// One serialized particle: a lattice position and its record.
#[derive(Clone, Copy, Debug, PartialEq, Eq, Structural)]
pub struct ChunkEntry {
    pub x: i32,
    pub y: i32,
    pub record: CellRecord,
}

/// A decoded chunk: its dimensions, grid version, and particle list.
pub struct ChunkData {
    pub width: u64,
    pub height: u64,
    pub version: u64,
    pub entries: Vec<ChunkEntry>,
}

/// Why a byte string was rejected: it does not have the length the format
/// demands.
#[derive(Clone, Copy, Debug, PartialEq, Eq, Structural)]
pub enum DecodeError {
    TruncatedHeader,
    LengthMismatch,
}

/// The most entries one chunk encoding may carry.
pub const MAX_CHUNK_ENTRIES: usize = 0x100_0000;

/// The four little-endian bytes of a 32-bit value.
pub open spec fn spec_le32(v: int) -> Seq<u8> {
    seq![
        (v % 0x100) as u8,
        ((v / 0x100) % 0x100) as u8,
        ((v / 0x1_0000) % 0x100) as u8,
        ((v / 0x100_0000) % 0x100) as u8,
    ]
}

/// The 32-bit value carried by four little-endian bytes.
pub open spec fn spec_le32_decode(b: Seq<u8>) -> int {
    b[0] + 0x100 * b[1] + 0x1_0000 * b[2] + 0x100_0000 * b[3]
}

/// The eight little-endian bytes of a 64-bit value: its low half, then its
/// high half.
pub open spec fn spec_le64(v: int) -> Seq<u8> {
    spec_le32(v % 0x1_0000_0000) + spec_le32(v / 0x1_0000_0000)
}

/// The 64-bit value carried by eight little-endian bytes.
pub open spec fn spec_le64_decode(b: Seq<u8>) -> int {
    spec_le32_decode(b.take(4)) + 0x1_0000_0000 * spec_le32_decode(b.skip(4))
}

/// A 32-bit value splits into its four little-endian bytes and back.
proof fn lemma_le32_round_trip(v: int)
    requires
        0 <= v < 0x1_0000_0000,
    ensures
        spec_le32(v).len() == 4,
        forall|i: int| 0 <= i < 4 ==> 0 <= #[trigger] spec_le32(v)[i] < 0x100,
        spec_le32_decode(spec_le32(v)) == v,
{
    lemma_fundamental_div_mod(v, 0x100);
    lemma_mod_bound(v, 0x100);
    lemma_fundamental_div_mod(v / 0x100, 0x100);
    lemma_mod_bound(v / 0x100, 0x100);
    lemma_fundamental_div_mod(v / 0x1_0000, 0x100);
    lemma_mod_bound(v / 0x1_0000, 0x100);
    lemma_div_denominator(v, 0x100, 0x100);
    lemma_div_denominator(v, 0x1_0000, 0x100);
    assert(v / 0x100_0000 < 0x100) by (nonlinear_arith)
        requires
            0 <= v < 0x1_0000_0000,
    ;
    assert(v / 0x100_0000 >= 0) by (nonlinear_arith)
        requires
            v >= 0,
    ;
}

/// A 64-bit value splits into its eight little-endian bytes and back.
proof fn lemma_le64_round_trip(v: int)
    requires
        0 <= v < 0x1_0000_0000_0000_0000,
    ensures
        spec_le64(v).len() == 8,
        spec_le64_decode(spec_le64(v)) == v,
{
    lemma_fundamental_div_mod(v, 0x1_0000_0000);
    lemma_mod_bound(v, 0x1_0000_0000);
    assert(v / 0x1_0000_0000 < 0x1_0000_0000) by (nonlinear_arith)
        requires
            0 <= v < 0x1_0000_0000_0000_0000,
    ;
    assert(v / 0x1_0000_0000 >= 0) by (nonlinear_arith)
        requires
            v >= 0,
    ;
    lemma_le32_round_trip(v % 0x1_0000_0000);
    lemma_le32_round_trip(v / 0x1_0000_0000);
    assert(spec_le64(v).take(4) == spec_le32(v % 0x1_0000_0000));
    assert(spec_le64(v).skip(4) == spec_le32(v / 0x1_0000_0000));
}

/// The 15 bytes of one entry.
pub open spec fn spec_entry_bytes(e: ChunkEntry) -> Seq<u8> {
    spec_le32(e.x as u32 as int) + spec_le32(e.y as u32 as int) + seq![
        e.record.color.r,
        e.record.color.g,
        e.record.color.b,
    ] + spec_le32(e.record.mass as u32 as int)
}

/// The concatenated bytes of an entry list, first entry first.
pub open spec fn spec_entries_bytes(entries: Seq<ChunkEntry>) -> Seq<u8>
    decreases entries.len(),
{
    if entries.len() == 0 {
        Seq::empty()
    } else {
        spec_entry_bytes(entries[0]) + spec_entries_bytes(entries.skip(1))
    }
}


/// The entries of a list that sit at lattice cell `(x, y)`, in list order.
pub open spec fn spec_entries_at(entries: Seq<ChunkEntry>, x: int, y: int) -> Seq<ChunkEntry> {
    entries.filter(|e: ChunkEntry| e.x == x && e.y == y)
}

/// The records carried by a list of entries, in order.
pub open spec fn spec_entry_records(entries: Seq<ChunkEntry>) -> Seq<CellRecord> {
    entries.map_values(|e: ChunkEntry| e.record)
}

/// The full encoding of a chunk.
pub open spec fn spec_encode_chunk(
    width: u64,
    height: u64,
    version: u64,
    entries: Seq<ChunkEntry>,
) -> Seq<u8> {
    spec_le64(width as int) + spec_le64(height as int) + spec_le64(version as int) + spec_le64(
        entries.len() as int,
    ) + spec_entries_bytes(entries)
}

/// Appending an entry appends its 15 bytes.
proof fn lemma_entries_bytes_push(entries: Seq<ChunkEntry>, e: ChunkEntry)
    ensures
        spec_entries_bytes(entries.push(e)) == spec_entries_bytes(entries) + spec_entry_bytes(e),
    decreases entries.len(),
{
    if entries.len() == 0 {
        let p = entries.push(e);
        assert(p[0] == e);
        assert(p.skip(1) =~= Seq::<ChunkEntry>::empty());
        assert(spec_entries_bytes(p.skip(1)) =~= Seq::<u8>::empty());
        assert(spec_entries_bytes(p) =~= spec_entry_bytes(e) + spec_entries_bytes(p.skip(1)));
        assert(spec_entries_bytes(entries) =~= Seq::<u8>::empty());
        assert(spec_entries_bytes(p) =~= spec_entries_bytes(entries) + spec_entry_bytes(e));
    } else {
        assert(entries.push(e).skip(1) =~= entries.skip(1).push(e));
        lemma_entries_bytes_push(entries.skip(1), e);
        assert(spec_entries_bytes(entries.push(e)) =~= spec_entries_bytes(entries)
            + spec_entry_bytes(e));
    }
}

/// An entry list's bytes are 15 bytes per entry.
proof fn lemma_entries_bytes_len(entries: Seq<ChunkEntry>)
    ensures
        spec_entries_bytes(entries).len() == 15 * entries.len(),
    decreases entries.len(),
{
    if entries.len() > 0 {
        lemma_entries_bytes_len(entries.skip(1));
    }
}

/// Appends the four little-endian bytes of a 32-bit value.
fn push_le32(out: &mut Vec<u8>, v: u32)
    ensures
        final(out)@ == old(out)@ + spec_le32(v as int),
{
    proof {
        lemma_le32_round_trip(v as int);
    }
    out.push((v % 0x100) as u8);
    out.push(((v / 0x100) % 0x100) as u8);
    out.push(((v / 0x1_0000) % 0x100) as u8);
    out.push(((v / 0x100_0000) % 0x100) as u8);
    proof {
        assert(final(out)@ =~= old(out)@ + spec_le32(v as int));
    }
}

/// Appends the eight little-endian bytes of a 64-bit value.
fn push_le64(out: &mut Vec<u8>, v: u64)
    ensures
        final(out)@ == old(out)@ + spec_le64(v as int),
{
    push_le32(out, (v % 0x1_0000_0000) as u32);
    push_le32(out, (v / 0x1_0000_0000) as u32);
    proof {
        assert(final(out)@ =~= old(out)@ + spec_le64(v as int));
    }
}

/// Reads the 32-bit value at `at`.
fn read_le32(bytes: &Vec<u8>, at: usize) -> (v: u32)
    requires
        at + 4 <= bytes@.len(),
    ensures
        v == spec_le32_decode(bytes@.subrange(at as int, at + 4)),
{
    let n = bytes.len();
    let b0 = bytes[at] as u32;
    let b1 = bytes[at + 1] as u32;
    let b2 = bytes[at + 2] as u32;
    let b3 = bytes[at + 3] as u32;
    b0 + 0x100 * b1 + 0x1_0000 * b2 + 0x100_0000 * b3
}

/// Reads the 64-bit value at `at`.
fn read_le64(bytes: &Vec<u8>, at: usize) -> (v: u64)
    requires
        at + 8 <= bytes@.len(),
    ensures
        v == spec_le64_decode(bytes@.subrange(at as int, at + 8)),
{
    let n = bytes.len();
    let lo = read_le32(bytes, at) as u64;
    let hi = read_le32(bytes, at + 4) as u64;
    proof {
        assert(bytes@.subrange(at as int, at + 8).take(4) =~= bytes@.subrange(at as int, at + 4));
        assert(bytes@.subrange(at as int, at + 8).skip(4) =~= bytes@.subrange(at + 4, at + 8));
    }
    lo + 0x1_0000_0000 * hi
}

/// Serializes a chunk: header, then one record per entry in order.
#[verifier::rlimit(80)]
pub fn encode_chunk(width: u64, height: u64, version: u64, entries: &Vec<ChunkEntry>) -> (r: Vec<
    u8,
>)
    requires
        entries@.len() <= MAX_CHUNK_ENTRIES,
    ensures
        r@ == spec_encode_chunk(width, height, version, entries@),
{
    let mut out: Vec<u8> = Vec::new();
    push_le64(&mut out, width);
    push_le64(&mut out, height);
    push_le64(&mut out, version);
    push_le64(&mut out, entries.len() as u64);
    let ghost header = out@;
    let n = entries.len();
    for i in 0..n
        invariant
            n == entries@.len(),
            out@ == header + spec_entries_bytes(entries@.take(i as int)),
            header == spec_le64(width as int) + spec_le64(height as int) + spec_le64(
                version as int,
            ) + spec_le64(entries@.len() as int),
    {
        let e = entries[i];
        push_le32(&mut out, e.x as u32);
        push_le32(&mut out, e.y as u32);
        out.push(e.record.color.r);
        out.push(e.record.color.g);
        out.push(e.record.color.b);
        push_le32(&mut out, e.record.mass as u32);
        proof {
            lemma_entries_bytes_push(entries@.take(i as int), entries@[i as int]);
            assert(entries@.take(i + 1) == entries@.take(i as int).push(entries@[i as int]));
            assert(out@ =~= header + spec_entries_bytes(entries@.take(i + 1)));
        }
    }
    proof {
        assert(entries@.take(n as int) == entries@);
        assert(out@ =~= spec_encode_chunk(width, height, version, entries@));
    }
    out
}

/// The chunk a valid byte string encodes, if any: the header must be whole
/// and the total length must match the entry count it declares.
pub open spec fn spec_decode_chunk(bytes: Seq<u8>) -> Option<(u64, u64, u64, Seq<ChunkEntry>)> {
    if bytes.len() < 32 {
        None
    } else {
        let width = spec_le64_decode(bytes.subrange(0, 8));
        let height = spec_le64_decode(bytes.subrange(8, 16));
        let version = spec_le64_decode(bytes.subrange(16, 24));
        let count = spec_le64_decode(bytes.subrange(24, 32));
        if count > MAX_CHUNK_ENTRIES || bytes.len() != 32 + 15 * count {
            None
        } else {
            Some(
                (
                    width as u64,
                    height as u64,
                    version as u64,
                    spec_decode_entries(bytes.skip(32), count as nat),
                ),
            )
        }
    }
}

/// The entry list carried by `15 * n` record bytes.
pub open spec fn spec_decode_entries(b: Seq<u8>, n: nat) -> Seq<ChunkEntry>
    decreases n,
{
    if n == 0 {
        Seq::empty()
    } else {
        seq![spec_decode_entry(b.take(15))] + spec_decode_entries(b.skip(15), (n - 1) as nat)
    }
}

/// The entry carried by one 15-byte record.
pub open spec fn spec_decode_entry(b: Seq<u8>) -> ChunkEntry {
    ChunkEntry {
        x: spec_le32_decode(b.subrange(0, 4)) as u32 as i32,
        y: spec_le32_decode(b.subrange(4, 8)) as u32 as i32,
        record: CellRecord {
            color: Color { r: b[8], g: b[9], b: b[10] },
            mass: spec_le32_decode(b.subrange(11, 15)) as u32 as i32,
        },
    }
}

/// Deserializes a chunk, accepting exactly the byte strings the encoder
/// produces: a whole header and exactly as many record bytes as the declared
/// count. A malformed byte string is rejected whole, never partially
/// applied.
pub fn decode_chunk(bytes: &Vec<u8>) -> (r: Result<ChunkData, DecodeError>)
    ensures
        match r {
            Ok(d) => {
                &&& spec_decode_chunk(bytes@) == Some(
                    (d.width, d.height, d.version, d.entries@),
                )
                &&& d.entries@.len() <= MAX_CHUNK_ENTRIES
            },
            Err(_) => spec_decode_chunk(bytes@) == None::<(u64, u64, u64, Seq<ChunkEntry>)>,
        },
{
    if bytes.len() < 32 {
        return Err(DecodeError::TruncatedHeader);
    }
    let width = read_le64(bytes, 0);
    let height = read_le64(bytes, 8);
    let version = read_le64(bytes, 16);
    let count = read_le64(bytes, 24);
    if count > MAX_CHUNK_ENTRIES as u64 {
        return Err(DecodeError::LengthMismatch);
    }
    let count = count as usize;
    if bytes.len() != 32 + 15 * count {
        return Err(DecodeError::LengthMismatch);
    }
    let ghost body = bytes@.skip(32);
    let mut entries: Vec<ChunkEntry> = Vec::new();
    proof {
        assert(body.skip(0) =~= body);
        assert(Seq::<ChunkEntry>::empty() + spec_decode_entries(body, count as nat)
            =~= spec_decode_entries(body, count as nat));
    }
    for i in 0..count
        invariant
            count <= MAX_CHUNK_ENTRIES,
            bytes@.len() == 32 + 15 * count,
            body == bytes@.skip(32),
            entries@.len() == i,
            spec_decode_entries(body, count as nat) == entries@ + spec_decode_entries(
                body.skip(15 * i as int),
                (count - i) as nat,
            ),
    {
        let base = 32 + 15 * i;
        let x = read_le32(bytes, base) as i32;
        let y = read_le32(bytes, base + 4) as i32;
        let r = bytes[base + 8];
        let g = bytes[base + 9];
        let b = bytes[base + 10];
        let mass = read_le32(bytes, base + 11) as i32;
        let e = ChunkEntry { x, y, record: CellRecord { color: Color { r, g, b }, mass } };
        proof {
            let rest = body.skip(15 * i as int);
            assert(rest.take(15) =~= bytes@.subrange(base as int, base + 15));
            assert(rest.take(15).subrange(0, 4) =~= bytes@.subrange(base as int, base + 4));
            assert(rest.take(15).subrange(4, 8) =~= bytes@.subrange(base + 4, base + 8));
            assert(rest.take(15).subrange(11, 15) =~= bytes@.subrange(base + 11, base + 15));
            assert(e == spec_decode_entry(rest.take(15)));
            assert(rest.skip(15) =~= body.skip(15 * (i + 1)));
            assert(entries@.push(e) + spec_decode_entries(body.skip(15 * (i + 1)), (count - i
                - 1) as nat) =~= entries@ + spec_decode_entries(rest, (count - i) as nat));
        }
        entries.push(e);
    }
    proof {
        assert(spec_decode_entries(body.skip(15 * count as int), 0) =~= Seq::<ChunkEntry>::empty());
        assert(entries@ =~= spec_decode_entries(body, count as nat));
    }
    Ok(ChunkData { width, height, version, entries })
}

/// Chunk round trip: decoding an encoded chunk restores its dimensions, its
/// version, and its exact entry list.
pub proof fn lemma_encode_decode_round_trip(
    width: u64,
    height: u64,
    version: u64,
    entries: Seq<ChunkEntry>,
)
    requires
        entries.len() <= MAX_CHUNK_ENTRIES,
    ensures
        spec_decode_chunk(spec_encode_chunk(width, height, version, entries)) == Some(
            (width, height, version, entries),
        ),
{
    let bytes = spec_encode_chunk(width, height, version, entries);
    lemma_le64_round_trip(width as int);
    lemma_le64_round_trip(height as int);
    lemma_le64_round_trip(version as int);
    lemma_le64_round_trip(entries.len() as int);
    lemma_entries_bytes_len(entries);
    assert(bytes.subrange(0, 8) =~= spec_le64(width as int));
    assert(bytes.subrange(8, 16) =~= spec_le64(height as int));
    assert(bytes.subrange(16, 24) =~= spec_le64(version as int));
    assert(bytes.subrange(24, 32) =~= spec_le64(entries.len() as int));
    assert(bytes.skip(32) =~= spec_entries_bytes(entries));
    lemma_decode_entries_round_trip(entries);
}

/// Decoding an entry list's bytes restores the list.
proof fn lemma_decode_entries_round_trip(entries: Seq<ChunkEntry>)
    ensures
        spec_decode_entries(spec_entries_bytes(entries), entries.len()) == entries,
    decreases entries.len(),
{
    if entries.len() > 0 {
        let b = spec_entries_bytes(entries);
        let e = entries[0];
        lemma_entry_bytes_round_trip(e);
        lemma_entries_bytes_len(entries.skip(1));
        assert(b.take(15) =~= spec_entry_bytes(e));
        assert(b.skip(15) =~= spec_entries_bytes(entries.skip(1)));
        lemma_decode_entries_round_trip(entries.skip(1));
        assert(spec_decode_entries(b, entries.len()) =~= entries);
    }
}

/// Decoding one record's bytes restores the entry.
proof fn lemma_entry_bytes_round_trip(e: ChunkEntry)
    ensures
        spec_entry_bytes(e).len() == 15,
        spec_decode_entry(spec_entry_bytes(e)) == e,
{
    lemma_le32_round_trip(e.x as u32 as int);
    lemma_le32_round_trip(e.y as u32 as int);
    lemma_le32_round_trip(e.record.mass as u32 as int);
    let b = spec_entry_bytes(e);
    assert(b.subrange(0, 4) =~= spec_le32(e.x as u32 as int));
    assert(b.subrange(4, 8) =~= spec_le32(e.y as u32 as int));
    assert(b.subrange(11, 15) =~= spec_le32(e.record.mass as u32 as int));
    let xv = e.x;
    let yv = e.y;
    let mv = e.record.mass;
    assert(xv as u32 as i32 == xv) by (bit_vector);
    assert(yv as u32 as i32 == yv) by (bit_vector);
    assert(mv as u32 as i32 == mv) by (bit_vector);
}

} // verus!
