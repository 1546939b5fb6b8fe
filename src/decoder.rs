use vstd::prelude::*;
use vstd::arithmetic::power2::{pow2, lemma2_to64};
use vstd::arithmetic::div_mod::lemma_fundamental_div_mod;

use crate::block::{BlockId, BlockRegistry, BlockState, PaletteEntry, resolve_spec};
use crate::chunk::{ChunkBlocks, ChunkData, ChunkHeightmaps, ChunkPosition, all_air, CHUNK_VOLUME, SUBCHUNK_VOLUME};

verus! {

/// Number of bits needed to write `n` in binary.
pub open spec fn bit_len(n: nat) -> nat
    decreases n,
{
    if n == 0 {
        0
    } else {
        1 + bit_len(n / 2)
    }
}

/// Bits per packed entry for a palette of `palette_len` entries: enough for
/// the largest index, and never fewer than four.
pub open spec fn bit_width(palette_len: nat) -> nat {
    let b = if palette_len == 0 {
        0
    } else {
        bit_len((palette_len - 1) as nat)
    };
    if b < 4 {
        4
    } else {
        b
    }
}

proof fn lemma_bit_len_bound(n: nat, k: nat)
    requires
        n < pow2(k),
    ensures
        bit_len(n) <= k,
    decreases k,
{
    if n > 0 {
        if k == 0 {
            vstd::arithmetic::power2::lemma_pow2_pos(0);
            vstd::arithmetic::power2::lemma2_to64();
        } else {
            vstd::arithmetic::power2::lemma_pow2_unfold(k);
            lemma_bit_len_bound(n / 2, (k - 1) as nat);
        }
    }
}

/// Bits per packed entry for a palette of the given length.
pub fn palette_bit_width(palette_len: usize) -> (w: usize)
    ensures
        w == bit_width(palette_len as nat),
        4 <= w <= 64,
{
    let mut v: usize = if palette_len == 0 {
        0
    } else {
        palette_len - 1
    };
    let ghost v0: nat = v as nat;
    proof {
        lemma2_to64();
        lemma_bit_len_bound(v0, 64);
    }
    let mut b: usize = 0;
    while v > 0
        invariant
            b + bit_len(v as nat) == bit_len(v0),
            bit_len(v0) <= 64,
        decreases v,
    {
        v = v / 2;
        b = b + 1;
    }
    if b < 4 {
        4
    } else {
        b
    }
}

/// Mask of the low `w` bits of a word.
pub open spec fn low_mask(w: nat) -> u64 {
    if w >= 64 {
        0xffff_ffff_ffff_ffffu64
    } else {
        ((1u64 << (w as u64)) - 1) as u64
    }
}

/// Entries of `w` bits held by one 64-bit word.
pub open spec fn entries_per_word(w: nat) -> nat {
    64nat / w
}

/// The `i`-th `w`-bit field of a word, counted from the least significant bit.
pub open spec fn packed_field(word: i64, i: nat, w: nat) -> u64 {
    ((#[verifier::truncate] (word as u64)) >> ((i * w) as u64)) & low_mask(w)
}

/// The `k`-th packed entry of a word array, with no entry split across words.
pub open spec fn entry_at(data: Seq<i64>, w: nat, k: nat) -> u64 {
    let e = entries_per_word(w);
    packed_field(data[(k / e) as int], k % e, w)
}

/// How many entries a section starting at `cursor` yields: all the array
/// holds, but never past the end of the subchunk that `cursor` lies in.
pub open spec fn section_count(data_len: nat, w: nat, cursor: nat) -> nat {
    let total = data_len * entries_per_word(w);
    let room = (SUBCHUNK_VOLUME - cursor % (SUBCHUNK_VOLUME as nat)) as nat;
    if total < room {
        total
    } else {
        room
    }
}

/// `blocks` with `n` positions from `cursor` on replaced by `f` of their
/// distance from `cursor`.
pub open spec fn overwrite(
    blocks: Seq<BlockId>,
    cursor: nat,
    n: nat,
    f: spec_fn(nat) -> BlockId,
) -> Seq<BlockId> {
    Seq::new(
        blocks.len(),
        |j: int|
            if cursor <= j < cursor + n {
                f((j - cursor) as nat)
            } else {
                blocks[j]
            },
    )
}

/// Why a chunk could not be decoded.
#[derive(Clone, Debug, PartialEq, Eq)]
pub enum DecodeError {
    /// The chunk is not fully generated yet.
    IncompleteGeneration,
    /// The tag data could not be parsed; holds the parser's message.
    MalformedTag(String),
    /// A palette names a block state that the registry does not know.
    UnknownBlock(String),
    /// A packed entry points past the end of its palette.
    PaletteIndexOutOfRange,
    /// The sections hold more blocks than the chunk column.
    SectionOverflow,
}

/// Outcome of unpacking one section's packed array at `cursor`: the new
/// blocks and cursor, or the error.
pub open spec fn unpack_spec(
    palette: Seq<BlockId>,
    data: Seq<i64>,
    blocks: Seq<BlockId>,
    cursor: nat,
) -> Result<(Seq<BlockId>, nat), DecodeError> {
    let w = bit_width(palette.len());
    let n = section_count(data.len(), w, cursor);
    if cursor + n > CHUNK_VOLUME {
        Err(DecodeError::SectionOverflow)
    } else if exists|k: nat| k < n && entry_at(data, w, k) >= palette.len() {
        Err(DecodeError::PaletteIndexOutOfRange)
    } else {
        Ok(
            (
                overwrite(blocks, cursor, n, |k: nat| palette[entry_at(data, w, k) as int]),
                cursor + n,
            ),
        )
    }
}

/// Unpacking a section writes only from `cursor` up to the end of the
/// subchunk that `cursor` lies in: every block before `cursor` or after the
/// new cursor is kept, and the new cursor never passes that subchunk's end.
pub proof fn lemma_unpack_stays_in_subchunk(
    palette: Seq<BlockId>,
    data: Seq<i64>,
    blocks: Seq<BlockId>,
    cursor: nat,
)
    requires
        unpack_spec(palette, data, blocks, cursor) is Ok,
    ensures
        ({
            let (b, c) = unpack_spec(palette, data, blocks, cursor)->Ok_0;
            &&& cursor <= c
            &&& c <= cursor + (SUBCHUNK_VOLUME - cursor % (SUBCHUNK_VOLUME as nat))
            &&& b.len() == blocks.len()
            &&& forall|j: int| 0 <= j < blocks.len() && !(cursor <= j < c) ==> b[j] == blocks[j]
        }),
{
}

/// Writes the entries of one section's packed array into `blocks` from
/// `cursor` on, and returns the cursor after the last block written.
/// Stops at the end of the subchunk that `cursor` lies in, even inside a word.
pub fn unpack_section(
    blocks: &mut ChunkBlocks,
    cursor: usize,
    palette: &Vec<BlockId>,
    data: &Vec<i64>,
) -> (r: Result<usize, DecodeError>)
    requires
        old(blocks).wf(),
        cursor <= CHUNK_VOLUME,
    ensures
        final(blocks).wf(),
        final(blocks).heightmaps() == old(blocks).heightmaps(),
        match unpack_spec(palette@, data@, old(blocks)@, cursor as nat) {
            Ok((b, c)) => r == Ok::<usize, DecodeError>(c as usize) && final(blocks)@ == b,
            Err(e) => r == Err::<usize, DecodeError>(e),
        },
{
    let ghost old_blocks = blocks@;
    let ghost pal = palette@;
    let plen = palette.len();
    let w = palette_bit_width(plen);
    let epw: usize = 64 / w;
    proof {
        lemma_fundamental_div_mod(64, w as int);
        let r = 64int % (w as int);
        assert(epw * w <= 64) by (nonlinear_arith)
            requires
                w * epw + r == 64,
                0 <= r,
        ;
        assert(1 <= epw) by (nonlinear_arith)
            requires
                w * epw + r == 64,
                r < w,
                w <= 64,
        ;
        assert(epw <= 16) by (nonlinear_arith)
            requires
                epw * w <= 64,
                4 <= w,
        ;
    }
    let mask: u64 = if w >= 64 {
        0xffff_ffff_ffff_ffffu64
    } else {
        assert(1u64 << (w as u64) >= 1) by (bit_vector)
            requires
                w < 64,
        ;
        (1u64 << (w as u64)) - 1
    };
    let room: usize = SUBCHUNK_VOLUME - cursor % SUBCHUNK_VOLUME;
    let n: usize = if data.len() >= room {
        proof {
            assert(data@.len() * epw >= room) by (nonlinear_arith)
                requires
                    data@.len() >= room,
                    epw >= 1,
            ;
        }
        room
    } else {
        proof {
            assert(data@.len() * epw <= 4096 * 16) by (nonlinear_arith)
                requires
                    data@.len() < room,
                    room <= 4096,
                    epw <= 16,
            ;
        }
        let total = data.len() * epw;
        if total < room {
            total
        } else {
            room
        }
    };
    assert(n == section_count(data@.len(), w as nat, cursor as nat));
    if n > CHUNK_VOLUME - cursor {
        return Err(DecodeError::SectionOverflow);
    }
    let mut k: usize = 0;
    let mut word_i: usize = 0;
    while k < n
        invariant
            blocks.wf(),
            blocks.heightmaps() == old(blocks).heightmaps(),
            old_blocks == old(blocks)@,
            old_blocks.len() == CHUNK_VOLUME,
            pal == palette@,
            plen == pal.len(),
            w == bit_width(plen as nat),
            4 <= w <= 64,
            epw == entries_per_word(w as nat),
            1 <= epw <= 16,
            epw * w <= 64,
            mask == low_mask(w as nat),
            n == section_count(data@.len(), w as nat, cursor as nat),
            n <= data@.len() * epw,
            cursor + n <= CHUNK_VOLUME,
            k <= n,
            k < n ==> k == word_i * epw,
            forall|kk: nat| kk < k ==> entry_at(data@, w as nat, kk) < plen,
            forall|j: int|
                0 <= j < CHUNK_VOLUME ==> #[trigger] blocks@[j] == (if cursor <= j < cursor + k {
                    pal[entry_at(data@, w as nat, (j - cursor) as nat) as int]
                } else {
                    old_blocks[j]
                }),
        decreases n - k,
    {
        proof {
            assert(word_i < data@.len()) by (nonlinear_arith)
                requires
                    word_i * epw < data@.len() * epw,
                    epw >= 1,
            ;
        }
        let word: u64 = #[verifier::truncate] (data[word_i] as u64);
        let mut i: usize = 0;
        while i < epw && k < n
            invariant
                blocks.wf(),
                blocks.heightmaps() == old(blocks).heightmaps(),
                old_blocks == old(blocks)@,
                old_blocks.len() == CHUNK_VOLUME,
                pal == palette@,
                plen == pal.len(),
                w == bit_width(plen as nat),
                4 <= w <= 64,
                epw == entries_per_word(w as nat),
                1 <= epw <= 16,
                epw * w <= 64,
                mask == low_mask(w as nat),
                cursor + n <= CHUNK_VOLUME,
                n == section_count(data@.len(), w as nat, cursor as nat),
                word_i < data@.len(),
                word == #[verifier::truncate] (data@[word_i as int] as u64),
                i <= epw,
                k <= n,
                k == word_i * epw + i,
                forall|kk: nat| kk < k ==> entry_at(data@, w as nat, kk) < plen,
                forall|j: int|
                    0 <= j < CHUNK_VOLUME ==> #[trigger] blocks@[j] == (if cursor <= j < cursor
                        + k {
                        pal[entry_at(data@, w as nat, (j - cursor) as nat) as int]
                    } else {
                        old_blocks[j]
                    }),
            decreases epw - i,
        {
            proof {
                assert(i * w + w <= 64) by (nonlinear_arith)
                    requires
                        i < epw,
                        epw * w <= 64,
                ;
                lemma_fundamental_div_mod(k as int, epw as int);
                assert(k as nat / (epw as nat) == word_i && k as nat % (epw as nat) == i) by {
                    vstd::arithmetic::div_mod::lemma_fundamental_div_mod_converse(k as int, epw as int, word_i as int, i as int);
                }
            }
            let idx: u64 = (word >> ((i * w) as u64)) & mask;
            assert(idx == entry_at(data@, w as nat, k as nat));
            if idx >= plen as u64 {
                proof {
                    assert(k < n && entry_at(data@, w as nat, k as nat) >= palette@.len());
                }
                return Err(DecodeError::PaletteIndexOutOfRange);
            }
            let ghost before = blocks@;
            blocks.set_index(cursor + k, palette[idx as usize]);
            proof {
                assert forall|j: int| 0 <= j < CHUNK_VOLUME implies #[trigger] blocks@[j] == (if cursor
                    <= j < cursor + k + 1 {
                    pal[entry_at(data@, w as nat, (j - cursor) as nat) as int]
                } else {
                    old_blocks[j]
                }) by {
                    if j != cursor + k {
                        assert(blocks@[j] == before[j]);
                    } else {
                        assert(blocks@[j] == palette@[idx as int]);
                    }
                }
            }
            k += 1;
            i += 1;
        }
        assert(word_i < data.len());
        word_i += 1;
        proof {
            if k < n {
                assert(k == word_i * epw) by (nonlinear_arith)
                    requires
                        k == (word_i - 1) * epw + i,
                        i == epw,
                ;
            }
        }
    }
    proof {
        assert(blocks@ =~= overwrite(
            old_blocks,
            cursor as nat,
            n as nat,
            |k: nat| pal[entry_at(data@, w as nat, k) as int],
        ));
        assert(!exists|kk: nat| kk < n && entry_at(data@, w as nat, kk) >= palette@.len());
    }
    Ok(cursor + n)
}

/// Generation stage recorded in a chunk; only `Full` chunks can be decoded.
#[derive(Clone, Copy, Debug, PartialEq, Eq, Structural)]
pub enum ChunkStatus {
    Empty,
    StructureStarts,
    StructureReferences,
    Biomes,
    Noise,
    Surface,
    Carvers,
    LiquidCarvers,
    Features,
    Light,
    Spawn,
    Heightmaps,
    Full,
}

/// The block states of one section: a palette and, unless the section holds
/// a single state, the packed palette indices.
#[derive(Clone, Debug)]
pub struct ChunkSectionBlockStates {
    pub data: Option<Vec<i64>>,
    pub palette: Vec<PaletteEntry>,
}

/// One 16-block-high section of a stored chunk.
#[derive(Clone, Debug)]
pub struct ChunkSection {
    pub y: i32,
    pub block_states: Option<ChunkSectionBlockStates>,
}

/// The parts of a stored chunk that decoding reads.
#[derive(Clone, Debug)]
pub struct ChunkNbt {
    pub data_version: usize,
    pub sections: Vec<ChunkSection>,
    pub heightmaps: ChunkHeightmaps,
}

/// The identifiers of a palette, or the first entry the registry does not know.
pub open spec fn resolve_palette_spec(states: Seq<BlockState>, entries: Seq<PaletteEntry>) -> Result<
    Seq<BlockId>,
    DecodeError,
>
    decreases entries.len(),
{
    if entries.len() == 0 {
        Ok(Seq::empty())
    } else {
        match resolve_palette_spec(states, entries.drop_last()) {
            Err(e) => Err(e),
            Ok(p) => match resolve_spec(states, entries.last()) {
                None => Err(DecodeError::UnknownBlock(entries.last().name)),
                Some(id) => Ok(p.push(BlockId { data: id as u16 })),
            },
        }
    }
}

/// Resolves every entry of a palette through the registry, in order.
pub fn resolve_palette(registry: &BlockRegistry, entries: &Vec<PaletteEntry>) -> (r: Result<
    Vec<BlockId>,
    DecodeError,
>)
    requires
        registry.wf(),
    ensures
        match resolve_palette_spec(registry@, entries@) {
            Ok(p) => r is Ok && r->Ok_0@ == p,
            Err(e) => r == Err::<Vec<BlockId>, DecodeError>(e),
        },
{
    let mut out: Vec<BlockId> = Vec::new();
    let mut i: usize = 0;
    while i < entries.len()
        invariant
            i <= entries@.len(),
            registry.wf(),
            resolve_palette_spec(registry@, entries@.take(i as int)) == Ok::<
                Seq<BlockId>,
                DecodeError,
            >(out@),
        decreases entries@.len() - i,
    {
        assert(entries@.take(i + 1).drop_last() =~= entries@.take(i as int));
        match registry.resolve(&entries[i]) {
            Some(id) => {
                out.push(id);
            },
            None => {
                let name = entries[i].name.clone();
                proof {
                    lemma_resolve_palette_err(registry@, entries@, (i + 1) as nat);
                }
                return Err(DecodeError::UnknownBlock(name));
            },
        }
        i += 1;
    }
    assert(entries@.take(i as int) =~= entries@);
    Ok(out)
}

/// Once a prefix of a palette fails to resolve, the whole palette fails alike.
proof fn lemma_resolve_palette_err(states: Seq<BlockState>, entries: Seq<PaletteEntry>, i: nat)
    requires
        i <= entries.len(),
        resolve_palette_spec(states, entries.take(i as int)) is Err,
    ensures
        resolve_palette_spec(states, entries) == resolve_palette_spec(states, entries.take(i as int)),
    decreases entries.len() - i,
{
    if i < entries.len() {
        assert(entries.take((i + 1) as int).drop_last() =~= entries.take(i as int));
        lemma_resolve_palette_err(states, entries, i + 1);
    } else {
        assert(entries.take(i as int) =~= entries);
    }
}

/// Outcome of one section at `cursor`. A section without block states holds
/// only lighting data outside the world's height and writes nothing; one
/// without packed data is filled with its first palette entry.
pub open spec fn section_step(
    states: Seq<BlockState>,
    section: ChunkSection,
    blocks: Seq<BlockId>,
    cursor: nat,
) -> Result<(Seq<BlockId>, nat), DecodeError> {
    match section.block_states {
        None => Ok((blocks, cursor)),
        Some(bs) => match resolve_palette_spec(states, bs.palette@) {
            Err(e) => Err(e),
            Ok(palette) => match bs.data {
                None => if cursor + SUBCHUNK_VOLUME > CHUNK_VOLUME {
                    Err(DecodeError::SectionOverflow)
                } else if palette.len() == 0 {
                    Err(DecodeError::PaletteIndexOutOfRange)
                } else {
                    Ok(
                        (
                            overwrite(blocks, cursor, SUBCHUNK_VOLUME as nat, |k: nat| palette[0]),
                            (cursor + SUBCHUNK_VOLUME) as nat,
                        ),
                    )
                },
                Some(data) => unpack_spec(palette, data@, blocks, cursor),
            },
        },
    }
}

/// Blocks and cursor after the first `sections.len()` sections, starting
/// from an all-air chunk at cursor zero.
pub open spec fn decode_sections(states: Seq<BlockState>, sections: Seq<ChunkSection>) -> Result<
    (Seq<BlockId>, nat),
    DecodeError,
>
    decreases sections.len(),
{
    if sections.len() == 0 {
        Ok((all_air(), 0))
    } else {
        match decode_sections(states, sections.drop_last()) {
            Err(e) => Err(e),
            Ok((b, c)) => section_step(states, sections.last(), b, c),
        }
    }
}

/// Fills `SUBCHUNK_VOLUME` blocks from `cursor` on with one block.
pub fn fill_section(blocks: &mut ChunkBlocks, cursor: usize, block: BlockId)
    requires
        old(blocks).wf(),
        cursor + SUBCHUNK_VOLUME <= CHUNK_VOLUME,
    ensures
        final(blocks).wf(),
        final(blocks).heightmaps() == old(blocks).heightmaps(),
        final(blocks)@ == overwrite(old(blocks)@, cursor as nat, SUBCHUNK_VOLUME as nat, |k: nat| block),
{
    let ghost old_blocks = blocks@;
    let mut k: usize = 0;
    while k < SUBCHUNK_VOLUME
        invariant
            blocks.wf(),
            blocks.heightmaps() == old(blocks).heightmaps(),
            old_blocks == old(blocks)@,
            old_blocks.len() == CHUNK_VOLUME,
            cursor + SUBCHUNK_VOLUME <= CHUNK_VOLUME,
            k <= SUBCHUNK_VOLUME,
            forall|j: int|
                0 <= j < CHUNK_VOLUME ==> #[trigger] blocks@[j] == (if cursor <= j < cursor + k {
                    block
                } else {
                    old_blocks[j]
                }),
        decreases SUBCHUNK_VOLUME - k,
    {
        blocks.set_index(cursor + k, block);
        k += 1;
    }
    assert(blocks@ =~= overwrite(old_blocks, cursor as nat, SUBCHUNK_VOLUME as nat, |k: nat| block));
}

/// Applies one section at `cursor` and returns the cursor after it.
pub fn decode_section(
    registry: &BlockRegistry,
    blocks: &mut ChunkBlocks,
    cursor: usize,
    section: &ChunkSection,
) -> (r: Result<usize, DecodeError>)
    requires
        registry.wf(),
        old(blocks).wf(),
        cursor <= CHUNK_VOLUME,
    ensures
        final(blocks).wf(),
        final(blocks).heightmaps() == old(blocks).heightmaps(),
        match section_step(registry@, *section, old(blocks)@, cursor as nat) {
            Ok((b, c)) => r == Ok::<usize, DecodeError>(c as usize) && final(blocks)@ == b,
            Err(e) => r == Err::<usize, DecodeError>(e),
        },
{
    let block_states = match &section.block_states {
        Some(states) => states,
        None => {
            return Ok(cursor);
        },
    };
    let palette = resolve_palette(registry, &block_states.palette)?;
    match &block_states.data {
        None => {
            if cursor > CHUNK_VOLUME - SUBCHUNK_VOLUME {
                return Err(DecodeError::SectionOverflow);
            }
            if palette.len() == 0 {
                return Err(DecodeError::PaletteIndexOutOfRange);
            }
            fill_section(blocks, cursor, palette[0]);
            Ok(cursor + SUBCHUNK_VOLUME)
        },
        Some(data) => unpack_section(blocks, cursor, &palette, data),
    }
}

/// Lets a chunk through only when it is fully generated.
pub fn check_status(status: ChunkStatus) -> (r: Result<(), DecodeError>)
    ensures
        r is Ok <==> status == ChunkStatus::Full,
        r is Err ==> r == Err::<(), DecodeError>(DecodeError::IncompleteGeneration),
{
    if status == ChunkStatus::Full {
        Ok(())
    } else {
        Err(DecodeError::IncompleteGeneration)
    }
}

impl ChunkData {
    /// Decodes a stored chunk into its block array. Fails with
    /// `IncompleteGeneration` unless the chunk is fully generated; otherwise
    /// the result is what `decode_sections` gives, with the stored heightmaps.
    pub fn from_nbt(
        status: ChunkStatus,
        chunk: ChunkNbt,
        at: ChunkPosition,
        registry: &BlockRegistry,
    ) -> (r: Result<ChunkData, DecodeError>)
        requires
            registry.wf(),
        ensures
            status != ChunkStatus::Full ==> r == Err::<ChunkData, DecodeError>(
                DecodeError::IncompleteGeneration,
            ),
            status == ChunkStatus::Full ==> match decode_sections(registry@, chunk.sections@) {
                Ok((b, c)) => r matches Ok(d) && d.blocks.wf() && d.blocks@ == b
                    && d.blocks.heightmaps() == chunk.heightmaps && d.position == at,
                Err(e) => r == Err::<ChunkData, DecodeError>(e),
            },
    {
        check_status(status)?;
        let sections = chunk.sections;
        let mut blocks = ChunkBlocks::empty_with_heightmap(chunk.heightmaps);
        let mut cursor: usize = 0;
        let mut i: usize = 0;
        while i < sections.len()
            invariant
                status == ChunkStatus::Full,
                registry.wf(),
                sections@ == chunk.sections@,
                i <= sections@.len(),
                blocks.wf(),
                blocks.heightmaps() == chunk.heightmaps,
                cursor <= CHUNK_VOLUME,
                decode_sections(registry@, sections@.take(i as int)) == Ok::<
                    (Seq<BlockId>, nat),
                    DecodeError,
                >((blocks@, cursor as nat)),
            decreases sections@.len() - i,
        {
            assert(sections@.take(i + 1).drop_last() =~= sections@.take(i as int));
            let ghost before = blocks@;
            match decode_section(registry, &mut blocks, cursor, &sections[i]) {
                Ok(c) => {
                    proof {
                        lemma_step_cursor(registry@, sections@[i as int], before, cursor as nat);
                    }
                    cursor = c;
                },
                Err(e) => {
                    proof {
                        lemma_decode_sections_err(registry@, sections@, (i + 1) as nat);
                    }
                    return Err(e);
                },
            }
            i += 1;
        }
        assert(sections@.take(i as int) =~= sections@);
        Ok(ChunkData { blocks, position: at })
    }
}

/// A successful section step keeps the cursor within the chunk.
proof fn lemma_step_cursor(
    states: Seq<BlockState>,
    section: ChunkSection,
    blocks: Seq<BlockId>,
    cursor: nat,
)
    requires
        cursor <= CHUNK_VOLUME,
        section_step(states, section, blocks, cursor) is Ok,
    ensures
        section_step(states, section, blocks, cursor)->Ok_0.1 <= CHUNK_VOLUME,
{
}

/// Once a prefix of the sections fails, decoding them all fails alike.
proof fn lemma_decode_sections_err(states: Seq<BlockState>, sections: Seq<ChunkSection>, i: nat)
    requires
        i <= sections.len(),
        decode_sections(states, sections.take(i as int)) is Err,
    ensures
        decode_sections(states, sections) == decode_sections(states, sections.take(i as int)),
    decreases sections.len() - i,
{
    if i < sections.len() {
        assert(sections.take((i + 1) as int).drop_last() =~= sections.take(i as int));
        lemma_decode_sections_err(states, sections, i + 1);
    } else {
        assert(sections.take(i as int) =~= sections);
    }
}

} // verus!
