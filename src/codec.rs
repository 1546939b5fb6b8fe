use vstd::prelude::*;

use crate::block::BlockId;
use crate::chunk::{ChunkBlocks, ChunkData, ChunkHeightmaps, ChunkPosition, CHUNK_VOLUME};

verus! {

/// Offset of the first heightmap's length in an encoded chunk.
pub const HEIGHTMAPS_OFFSET: usize = 8 + 2 * CHUNK_VOLUME;

/// Why a byte buffer does not start with an encoded chunk.
#[derive(Clone, Copy, Debug, PartialEq, Eq, Structural)]
pub enum CodecError {
    /// The buffer ends before the layout does.
    TruncatedInput,
}

/// Little-endian bytes of a 16-bit value.
pub open spec fn u16_le(v: u16) -> Seq<u8> {
    seq![(v & 0xff) as u8, ((v >> 8u16) & 0xff) as u8]
}

/// Little-endian bytes of a 32-bit value.
pub open spec fn u32_le(v: u32) -> Seq<u8> {
    seq![
        (v & 0xff) as u8,
        ((v >> 8u32) & 0xff) as u8,
        ((v >> 16u32) & 0xff) as u8,
        ((v >> 24u32) & 0xff) as u8,
    ]
}

/// Little-endian bytes of a 64-bit value.
pub open spec fn u64_le(v: u64) -> Seq<u8> {
    seq![
        (v & 0xff) as u8,
        ((v >> 8u64) & 0xff) as u8,
        ((v >> 16u64) & 0xff) as u8,
        ((v >> 24u64) & 0xff) as u8,
        ((v >> 32u64) & 0xff) as u8,
        ((v >> 40u64) & 0xff) as u8,
        ((v >> 48u64) & 0xff) as u8,
        ((v >> 56u64) & 0xff) as u8,
    ]
}

/// Little-endian two's-complement bytes of a signed 32-bit value.
pub open spec fn i32_le(v: i32) -> Seq<u8> {
    u32_le(#[verifier::truncate] (v as u32))
}

/// Little-endian two's-complement bytes of a signed 64-bit value.
pub open spec fn i64_le(v: i64) -> Seq<u8> {
    u64_le(#[verifier::truncate] (v as u64))
}

/// The 16-bit value stored little-endian at `i`.
pub open spec fn read_u16(b: Seq<u8>, i: int) -> u16 {
    (b[i] as u16) | ((b[i + 1] as u16) << 8u16)
}

/// The 32-bit value stored little-endian at `i`.
pub open spec fn read_u32(b: Seq<u8>, i: int) -> u32 {
    (b[i] as u32) | ((b[i + 1] as u32) << 8u32) | ((b[i + 2] as u32) << 16u32) | ((b[i + 3] as u32)
        << 24u32)
}

/// The 64-bit value stored little-endian at `i`.
pub open spec fn read_u64(b: Seq<u8>, i: int) -> u64 {
    (b[i] as u64) | ((b[i + 1] as u64) << 8u64) | ((b[i + 2] as u64) << 16u64) | ((b[i + 3] as u64)
        << 24u64) | ((b[i + 4] as u64) << 32u64) | ((b[i + 5] as u64) << 40u64) | ((b[i + 6] as u64)
        << 48u64) | ((b[i + 7] as u64) << 56u64)
}

/// The signed 32-bit value stored at `i`.
pub open spec fn read_i32(b: Seq<u8>, i: int) -> i32 {
    #[verifier::truncate] (read_u32(b, i) as i32)
}

/// The signed 64-bit value stored at `i`.
pub open spec fn read_i64(b: Seq<u8>, i: int) -> i64 {
    #[verifier::truncate] (read_u64(b, i) as i64)
}

/// Two bytes per block identifier, in array order.
pub open spec fn blocks_bytes(b: Seq<BlockId>) -> Seq<u8> {
    Seq::new(2 * b.len(), |j: int| u16_le(b[j / 2].data)[j % 2])
}

/// Eight bytes per word, in array order.
pub open spec fn words_bytes(w: Seq<i64>) -> Seq<u8> {
    Seq::new(8 * w.len(), |j: int| i64_le(w[j / 8])[j % 8])
}

/// A heightmap: its length as a 64-bit count, then its words.
pub open spec fn heightmap_bytes(w: Seq<i64>) -> Seq<u8> {
    u64_le(w.len() as u64) + words_bytes(w)
}

/// The encoding of a chunk: position, block array, then the motion-blocking
/// and world-surface heightmaps.
pub open spec fn encode_spec(c: ChunkData) -> Seq<u8> {
    i32_le(c.position.x) + i32_le(c.position.z) + blocks_bytes(c.blocks@) + heightmap_bytes(
        c.blocks.heightmaps().motion_blocking@,
    ) + heightmap_bytes(c.blocks.heightmaps().world_surface@)
}

/// Word count of the first heightmap of an encoded chunk.
pub open spec fn motion_len(b: Seq<u8>) -> nat {
    read_u64(b, HEIGHTMAPS_OFFSET as int) as nat
}

/// Offset of the second heightmap's length.
pub open spec fn surface_offset(b: Seq<u8>) -> nat {
    (HEIGHTMAPS_OFFSET + 8 + 8 * motion_len(b)) as nat
}

/// Word count of the second heightmap.
pub open spec fn surface_len(b: Seq<u8>) -> nat {
    read_u64(b, surface_offset(b) as int) as nat
}

/// Where the layout of an encoded chunk ends.
pub open spec fn layout_end(b: Seq<u8>) -> nat {
    surface_offset(b) + 8 + 8 * surface_len(b)
}

/// Whether a buffer is cut short of its own layout.
pub open spec fn is_truncated(b: Seq<u8>) -> bool {
    b.len() < HEIGHTMAPS_OFFSET + 8 || b.len() < surface_offset(b) + 8 || b.len() < layout_end(b)
}

/// The position stored in an encoded chunk.
pub open spec fn decoded_position(b: Seq<u8>) -> ChunkPosition {
    ChunkPosition { x: read_i32(b, 0), z: read_i32(b, 4) }
}

/// The block array stored in an encoded chunk.
pub open spec fn decoded_blocks(b: Seq<u8>) -> Seq<BlockId> {
    Seq::new(CHUNK_VOLUME as nat, |k: int| BlockId { data: read_u16(b, 8 + 2 * k) })
}

/// The first heightmap stored in an encoded chunk.
pub open spec fn decoded_motion(b: Seq<u8>) -> Seq<i64> {
    Seq::new(motion_len(b), |k: int| read_i64(b, HEIGHTMAPS_OFFSET + 8 + 8 * k))
}

/// The second heightmap stored in an encoded chunk.
pub open spec fn decoded_surface(b: Seq<u8>) -> Seq<i64> {
    Seq::new(surface_len(b), |k: int| read_i64(b, surface_offset(b) + 8 + 8 * k))
}

fn push_u16(out: &mut Vec<u8>, v: u16)
    ensures
        final(out)@ == old(out)@ + u16_le(v),
{
    out.push((v & 0xff) as u8);
    out.push(((v >> 8u16) & 0xff) as u8);
    assert(final(out)@ =~= old(out)@ + u16_le(v));
}

fn push_u32(out: &mut Vec<u8>, v: u32)
    ensures
        final(out)@ == old(out)@ + u32_le(v),
{
    out.push((v & 0xff) as u8);
    out.push(((v >> 8u32) & 0xff) as u8);
    out.push(((v >> 16u32) & 0xff) as u8);
    out.push(((v >> 24u32) & 0xff) as u8);
    assert(final(out)@ =~= old(out)@ + u32_le(v));
}

fn push_u64(out: &mut Vec<u8>, v: u64)
    ensures
        final(out)@ == old(out)@ + u64_le(v),
{
    out.push((v & 0xff) as u8);
    out.push(((v >> 8u64) & 0xff) as u8);
    out.push(((v >> 16u64) & 0xff) as u8);
    out.push(((v >> 24u64) & 0xff) as u8);
    out.push(((v >> 32u64) & 0xff) as u8);
    out.push(((v >> 40u64) & 0xff) as u8);
    out.push(((v >> 48u64) & 0xff) as u8);
    out.push(((v >> 56u64) & 0xff) as u8);
    assert(final(out)@ =~= old(out)@ + u64_le(v));
}

fn push_heightmap(out: &mut Vec<u8>, words: &Vec<i64>)
    ensures
        final(out)@ == old(out)@ + heightmap_bytes(words@),
{
    let ghost start = out@;
    push_u64(out, words.len() as u64);
    let ghost base = out@;
    let mut k: usize = 0;
    while k < words.len()
        invariant
            k <= words@.len(),
            base == start + u64_le(words@.len() as u64),
            out@ == base + words_bytes(words@.take(k as int)),
        decreases words@.len() - k,
    {
        let ghost before = out@;
        push_u64(out, #[verifier::truncate] (words[k] as u64));
        proof {
            assert(words_bytes(words@.take(k + 1)) =~= words_bytes(words@.take(k as int)) + i64_le(
                words@[k as int],
            ));
            assert(out@ =~= base + words_bytes(words@.take(k + 1)));
        }
        k += 1;
    }
    assert(words@.take(k as int) =~= words@);
    assert(out@ =~= start + heightmap_bytes(words@));
}

impl ChunkData {
    /// Encodes the chunk: x and z as little-endian `i32`, each block identifier
    /// as a little-endian `u16` in array order, then each heightmap as a
    /// little-endian `u64` count followed by its words as little-endian `i64`.
    pub fn write_to(&self) -> (r: Vec<u8>)
        requires
            self.blocks.wf(),
        ensures
            r@ == encode_spec(*self),
    {
        let mut out: Vec<u8> = Vec::new();
        push_u32(&mut out, #[verifier::truncate] (self.position.x as u32));
        push_u32(&mut out, #[verifier::truncate] (self.position.z as u32));
        let ghost base = out@;
        let blocks = self.blocks.blocks();
        let mut k: usize = 0;
        while k < blocks.len()
            invariant
                k <= blocks@.len(),
                blocks@ == self.blocks@,
                base == i32_le(self.position.x) + i32_le(self.position.z),
                out@ == base + blocks_bytes(blocks@.take(k as int)),
            decreases blocks@.len() - k,
        {
            push_u16(&mut out, blocks[k].data);
            proof {
                assert(blocks_bytes(blocks@.take(k + 1)) =~= blocks_bytes(blocks@.take(k as int))
                    + u16_le(blocks@[k as int].data));
                assert(out@ =~= base + blocks_bytes(blocks@.take(k + 1)));
            }
            k += 1;
        }
        assert(blocks@.take(k as int) =~= blocks@);
        let heightmap = self.blocks.heightmap();
        push_heightmap(&mut out, &heightmap.motion_blocking);
        push_heightmap(&mut out, &heightmap.world_surface);
        out
    }
}

fn get_u16(b: &[u8], i: usize) -> (r: u16)
    requires
        i + 2 <= b@.len(),
    ensures
        r == read_u16(b@, i as int),
{
    (b[i] as u16) | ((b[i + 1] as u16) << 8u16)
}

fn get_u32(b: &[u8], i: usize) -> (r: u32)
    requires
        i + 4 <= b@.len(),
    ensures
        r == read_u32(b@, i as int),
{
    (b[i] as u32) | ((b[i + 1] as u32) << 8u32) | ((b[i + 2] as u32) << 16u32) | ((b[i + 3] as u32)
        << 24u32)
}

fn get_u64(b: &[u8], i: usize) -> (r: u64)
    requires
        i + 8 <= b@.len(),
    ensures
        r == read_u64(b@, i as int),
{
    (b[i] as u64) | ((b[i + 1] as u64) << 8u64) | ((b[i + 2] as u64) << 16u64) | ((b[i + 3] as u64)
        << 24u64) | ((b[i + 4] as u64) << 32u64) | ((b[i + 5] as u64) << 40u64) | ((b[i + 6] as u64)
        << 48u64) | ((b[i + 7] as u64) << 56u64)
}

fn get_words(b: &[u8], start: usize, count: usize) -> (r: Vec<i64>)
    requires
        start + 8 * count <= b@.len(),
    ensures
        r@ == Seq::new(count as nat, |k: int| read_i64(b@, start + 8 * k)),
{
    let len = b.len();
    let mut out: Vec<i64> = Vec::new();
    let mut k: usize = 0;
    while k < count
        invariant
            len == b@.len(),
            k <= count,
            start + 8 * count <= b@.len(),
            out@ == Seq::new(k as nat, |j: int| read_i64(b@, start + 8 * j)),
        decreases count - k,
    {
        let v = get_u64(b, start + 8 * k);
        out.push(#[verifier::truncate] (v as i64));
        k += 1;
        assert(out@ =~= Seq::new(k as nat, |j: int| read_i64(b@, start + 8 * j)));
    }
    out
}

impl ChunkData {
    /// Decodes the chunk that `write_to` wrote at the start of `bytes` and
    /// returns it with the number of bytes it took; bytes after it are left
    /// alone. Fails with `TruncatedInput` when the buffer ends before the
    /// layout that its own length prefixes give.
    pub fn read_from(bytes: &[u8]) -> (r: Result<(ChunkData, usize), CodecError>)
        ensures
            r is Err <==> is_truncated(bytes@),
            r is Err ==> r == Err::<(ChunkData, usize), CodecError>(CodecError::TruncatedInput),
            r matches Ok((c, used)) ==> {
                &&& used == layout_end(bytes@)
                &&& c.blocks.wf()
                &&& c.position == decoded_position(bytes@)
                &&& c.blocks@ == decoded_blocks(bytes@)
                &&& c.blocks.heightmaps().motion_blocking@ == decoded_motion(bytes@)
                &&& c.blocks.heightmaps().world_surface@ == decoded_surface(bytes@)
            },
    {
        let n = bytes.len();
        if n < HEIGHTMAPS_OFFSET + 8 {
            return Err(CodecError::TruncatedInput);
        }
        let m = get_u64(bytes, HEIGHTMAPS_OFFSET);
        let rem = n - (HEIGHTMAPS_OFFSET + 8);
        if rem < 8 || m > ((rem - 8) / 8) as u64 {
            return Err(CodecError::TruncatedInput);
        }
        let mc = m as usize;
        let soff = HEIGHTMAPS_OFFSET + 8 + 8 * mc;
        assert(soff == surface_offset(bytes@));
        let s = get_u64(bytes, soff);
        let rem2 = n - (soff + 8);
        if s > (rem2 / 8) as u64 {
            return Err(CodecError::TruncatedInput);
        }
        let sc = s as usize;
        let end = soff + 8 + 8 * sc;
        assert(end == layout_end(bytes@));
        let position = ChunkPosition {
            x: #[verifier::truncate] (get_u32(bytes, 0) as i32),
            z: #[verifier::truncate] (get_u32(bytes, 4) as i32),
        };
        let mut blocks: Vec<BlockId> = Vec::new();
        let mut k: usize = 0;
        while k < CHUNK_VOLUME
            invariant
                k <= CHUNK_VOLUME,
                n == bytes@.len(),
                HEIGHTMAPS_OFFSET <= n,
                blocks@ == Seq::new(k as nat, |j: int| BlockId { data: read_u16(bytes@, 8 + 2 * j) }),
            decreases CHUNK_VOLUME - k,
        {
            let v = get_u16(bytes, 8 + 2 * k);
            blocks.push(BlockId { data: v });
            k += 1;
            assert(blocks@ =~= Seq::new(
                k as nat,
                |j: int| BlockId { data: read_u16(bytes@, 8 + 2 * j) },
            ));
        }
        let motion_blocking = get_words(bytes, HEIGHTMAPS_OFFSET + 8, mc);
        let world_surface = get_words(bytes, soff + 8, sc);
        let heightmap = ChunkHeightmaps { motion_blocking, world_surface };
        match ChunkBlocks::from_blocks(blocks, heightmap) {
            Some(chunk_blocks) => Ok((ChunkData { blocks: chunk_blocks, position }, end)),
            None => Err(CodecError::TruncatedInput),
        }
    }
}

proof fn lemma_read_u16_at(b: Seq<u8>, i: int, v: u16)
    requires
        0 <= i,
        i + 2 <= b.len(),
        forall|t: int| 0 <= t < 2 ==> b[i + t] == #[trigger] u16_le(v)[t],
    ensures
        read_u16(b, i) == v,
{
    assert(b[i + 0] == u16_le(v)[0]);
    assert(b[i + 1] == u16_le(v)[1]);
    assert((((v & 0xff) as u8) as u16) | (((((v >> 8u16) & 0xff) as u8) as u16) << 8u16) == v)
        by (bit_vector);
}

proof fn lemma_read_u32_at(b: Seq<u8>, i: int, v: u32)
    requires
        0 <= i,
        i + 4 <= b.len(),
        forall|t: int| 0 <= t < 4 ==> b[i + t] == #[trigger] u32_le(v)[t],
    ensures
        read_u32(b, i) == v,
{
    assert(b[i + 0] == u32_le(v)[0]);
    assert(b[i + 1] == u32_le(v)[1]);
    assert(b[i + 2] == u32_le(v)[2]);
    assert(b[i + 3] == u32_le(v)[3]);
    assert((((v & 0xff) as u8) as u32) | (((((v >> 8u32) & 0xff) as u8) as u32) << 8u32) | (((((v
        >> 16u32) & 0xff) as u8) as u32) << 16u32) | (((((v >> 24u32) & 0xff) as u8) as u32)
        << 24u32) == v) by (bit_vector);
}

proof fn lemma_read_u64_at(b: Seq<u8>, i: int, v: u64)
    requires
        0 <= i,
        i + 8 <= b.len(),
        forall|t: int| 0 <= t < 8 ==> b[i + t] == #[trigger] u64_le(v)[t],
    ensures
        read_u64(b, i) == v,
{
    assert(b[i + 0] == u64_le(v)[0]);
    assert(b[i + 1] == u64_le(v)[1]);
    assert(b[i + 2] == u64_le(v)[2]);
    assert(b[i + 3] == u64_le(v)[3]);
    assert(b[i + 4] == u64_le(v)[4]);
    assert(b[i + 5] == u64_le(v)[5]);
    assert(b[i + 6] == u64_le(v)[6]);
    assert(b[i + 7] == u64_le(v)[7]);
    assert((((v & 0xff) as u8) as u64) | (((((v >> 8u64) & 0xff) as u8) as u64) << 8u64) | (((((v
        >> 16u64) & 0xff) as u8) as u64) << 16u64) | (((((v >> 24u64) & 0xff) as u8) as u64)
        << 24u64) | (((((v >> 32u64) & 0xff) as u8) as u64) << 32u64) | (((((v >> 40u64) & 0xff)
        as u8) as u64) << 40u64) | (((((v >> 48u64) & 0xff) as u8) as u64) << 48u64) | (((((v
        >> 56u64) & 0xff) as u8) as u64) << 56u64) == v) by (bit_vector);
}

proof fn lemma_read_i32_at(b: Seq<u8>, i: int, v: i32)
    requires
        0 <= i,
        i + 4 <= b.len(),
        forall|t: int| 0 <= t < 4 ==> b[i + t] == #[trigger] i32_le(v)[t],
    ensures
        read_i32(b, i) == v,
{
    let u = #[verifier::truncate] (v as u32);
    assert(i32_le(v) == u32_le(u));
    assert forall|t: int| 0 <= t < 4 implies b[i + t] == #[trigger] u32_le(u)[t] by {
        assert(b[i + t] == i32_le(v)[t]);
    }
    lemma_read_u32_at(b, i, u);
    assert(#[verifier::truncate] (u as i32) == v) by (bit_vector)
        requires
            u == #[verifier::truncate] (v as u32),
    ;
}

proof fn lemma_read_i64_at(b: Seq<u8>, i: int, v: i64)
    requires
        0 <= i,
        i + 8 <= b.len(),
        forall|t: int| 0 <= t < 8 ==> b[i + t] == #[trigger] i64_le(v)[t],
    ensures
        read_i64(b, i) == v,
{
    let u = #[verifier::truncate] (v as u64);
    assert(i64_le(v) == u64_le(u));
    assert forall|t: int| 0 <= t < 8 implies b[i + t] == #[trigger] u64_le(u)[t] by {
        assert(b[i + t] == i64_le(v)[t]);
    }
    lemma_read_u64_at(b, i, u);
    assert(#[verifier::truncate] (u as i64) == v) by (bit_vector)
        requires
            u == #[verifier::truncate] (v as u64),
    ;
}

/// A heightmap written at offset `i` of `b` reads back as the same words.
proof fn lemma_heightmap_at(b: Seq<u8>, i: int, w: Seq<i64>)
    requires
        0 <= i,
        w.len() <= u64::MAX,
        i + heightmap_bytes(w).len() <= b.len(),
        forall|t: int|
            0 <= t < heightmap_bytes(w).len() ==> b[i + t] == #[trigger] heightmap_bytes(w)[t],
    ensures
        heightmap_bytes(w).len() == 8 + 8 * w.len(),
        read_u64(b, i) == w.len(),
        forall|k: int| 0 <= k < w.len() ==> #[trigger] read_i64(b, i + 8 + 8 * k) == w[k],
{
    let h = heightmap_bytes(w);
    assert forall|t: int| 0 <= t < 8 implies b[i + t] == #[trigger] u64_le(w.len() as u64)[t] by {
        assert(b[i + t] == h[t]);
    }
    lemma_read_u64_at(b, i, w.len() as u64);
    assert forall|k: int| 0 <= k < w.len() implies #[trigger] read_i64(b, i + 8 + 8 * k) == w[k] by {
        assert forall|t: int| 0 <= t < 8 implies b[i + 8 + 8 * k + t] == #[trigger] i64_le(w[k])[t] by {
            assert(b[i + (8 + 8 * k + t)] == h[8 + 8 * k + t]);
            assert(h[8 + 8 * k + t] == words_bytes(w)[8 * k + t]);
            assert((8 * k + t) / 8 == k && (8 * k + t) % 8 == t);
        }
        lemma_read_i64_at(b, i + 8 + 8 * k, w[k]);
    }
}

/// Decoding a buffer that starts with the encoding of a chunk gives back its
/// position, its block array entry for entry and both heightmaps word for
/// word, takes exactly the bytes of the encoding, and leaves what follows.
pub proof fn lemma_round_trip(c: ChunkData, rest: Seq<u8>)
    requires
        c.blocks.wf(),
        c.blocks.heightmaps().motion_blocking@.len() <= u64::MAX,
        c.blocks.heightmaps().world_surface@.len() <= u64::MAX,
    ensures
        ({
            let b = encode_spec(c) + rest;
            &&& !is_truncated(b)
            &&& layout_end(b) == encode_spec(c).len()
            &&& decoded_position(b) == c.position
            &&& decoded_blocks(b) == c.blocks@
            &&& decoded_motion(b) == c.blocks.heightmaps().motion_blocking@
            &&& decoded_surface(b) == c.blocks.heightmaps().world_surface@
        }),
{
    let e = encode_spec(c);
    let b = e + rest;
    let m = c.blocks.heightmaps().motion_blocking@;
    let s = c.blocks.heightmaps().world_surface@;
    let px = i32_le(c.position.x);
    let pz = i32_le(c.position.z);
    let bb = blocks_bytes(c.blocks@);
    let hm = heightmap_bytes(m);
    let hs = heightmap_bytes(s);
    let h = HEIGHTMAPS_OFFSET as int;
    assert(e == px + pz + bb + hm + hs);
    assert(hm.len() == 8 + 8 * m.len());
    assert(hs.len() == 8 + 8 * s.len());
    assert(e.len() == h + hm.len() + hs.len());
    assert forall|j: int| 0 <= j < e.len() implies b[j] == #[trigger] e[j] by {}
    assert forall|t: int| 0 <= t < 4 implies b[0 + t] == #[trigger] px[t] by {
        assert(b[0 + t] == e[0 + t]);
    }
    assert forall|t: int| 0 <= t < 4 implies b[4 + t] == #[trigger] pz[t] by {
        assert(b[4 + t] == e[4 + t]);
    }
    lemma_read_i32_at(b, 0, c.position.x);
    lemma_read_i32_at(b, 4, c.position.z);
    assert forall|k: int| 0 <= k < CHUNK_VOLUME implies #[trigger] read_u16(b, 8 + 2 * k)
        == c.blocks@[k].data by {
        assert forall|t: int| 0 <= t < 2 implies b[8 + 2 * k + t] == #[trigger] u16_le(
            c.blocks@[k].data,
        )[t] by {
            assert(b[8 + 2 * k + t] == e[8 + 2 * k + t]);
            assert(e[8 + 2 * k + t] == bb[2 * k + t]);
            assert((2 * k + t) / 2 == k && (2 * k + t) % 2 == t);
        }
        lemma_read_u16_at(b, 8 + 2 * k, c.blocks@[k].data);
    }
    assert(decoded_blocks(b) =~= c.blocks@);
    assert forall|t: int| 0 <= t < hm.len() implies b[h + t] == #[trigger] hm[t] by {
        assert(b[h + t] == e[h + t]);
    }
    lemma_heightmap_at(b, h, m);
    assert(motion_len(b) == m.len());
    assert(surface_offset(b) == h + hm.len());
    assert forall|t: int| 0 <= t < hs.len() implies b[(h + hm.len()) + t] == #[trigger] hs[t] by {
        assert(b[(h + hm.len()) + t] == e[(h + hm.len()) + t]);
    }
    lemma_heightmap_at(b, h + hm.len(), s);
    assert(surface_len(b) == s.len());
    assert(decoded_motion(b) =~= m);
    assert(decoded_surface(b) =~= s);
}

} // verus!
