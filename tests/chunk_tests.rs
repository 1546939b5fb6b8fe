use pumpkin_chunk::block::{BlockId, BlockRegistry, BlockState, PaletteEntry};
use pumpkin_chunk::chunk::{
    ChunkBlocks, ChunkData, ChunkHeightmaps, ChunkPosition, ChunkRelativeBlockCoordinates,
    CHUNK_VOLUME, SUBCHUNK_VOLUME, WORLD_HEIGHT,
};
use pumpkin_chunk::codec::CodecError;
use pumpkin_chunk::decoder::{
    check_status, palette_bit_width, unpack_section, ChunkNbt, ChunkSection,
    ChunkSectionBlockStates, ChunkStatus, DecodeError,
};

fn state(name: &str) -> BlockState {
    BlockState {
        name: name.to_string(),
        properties: Vec::new(),
    }
}

fn entry(name: &str) -> PaletteEntry {
    PaletteEntry {
        name: name.to_string(),
        properties: None,
    }
}

fn registry(names: &[&str]) -> BlockRegistry {
    BlockRegistry::new(names.iter().map(|n| state(n)).collect()).unwrap()
}

fn heightmaps() -> ChunkHeightmaps {
    ChunkHeightmaps {
        motion_blocking: vec![1, -2, 3],
        world_surface: vec![i64::MIN, i64::MAX],
    }
}

fn section(palette: Vec<PaletteEntry>, data: Option<Vec<i64>>) -> ChunkSection {
    ChunkSection {
        y: 0,
        block_states: Some(ChunkSectionBlockStates { data, palette }),
    }
}

fn full(sections: Vec<ChunkSection>) -> ChunkNbt {
    ChunkNbt {
        data_version: 3953,
        sections,
        heightmaps: heightmaps(),
    }
}

#[test]
fn ordering_is_y_then_z_then_x() {
    let mut blocks = ChunkBlocks::default();
    for y in 0..WORLD_HEIGHT as u16 {
        for z in 0..16u8 {
            for x in 0..16u8 {
                let c = ChunkRelativeBlockCoordinates::new(x, y, z).unwrap();
                let id = ((y as usize * 256 + z as usize * 16 + x as usize) % 65536) as u16;
                let old = blocks.set_block_no_heightmap_update(c, BlockId::from_id(id));
                assert_eq!(old, BlockId::default());
            }
        }
    }
    for (i, b) in blocks.blocks().iter().enumerate() {
        assert_eq!(b.get_id() as usize, i % 65536);
    }
    let c = ChunkRelativeBlockCoordinates::new(3, 200, 7).unwrap();
    assert_eq!(blocks.get_block(c).get_id() as usize, 200 * 256 + 7 * 16 + 3);
    assert_eq!(
        blocks.set_block(c, BlockId::from_id(9)).get_id() as usize,
        200 * 256 + 7 * 16 + 3
    );
    assert_eq!(blocks.block_at(200 * 256 + 7 * 16 + 3), BlockId::from_id(9));
}

#[test]
fn coordinates_outside_the_column_are_refused() {
    assert!(ChunkRelativeBlockCoordinates::new(16, 0, 0).is_none());
    assert!(ChunkRelativeBlockCoordinates::new(0, 0, 16).is_none());
    assert!(ChunkRelativeBlockCoordinates::new(0, WORLD_HEIGHT as u16, 0).is_none());
    assert!(ChunkRelativeBlockCoordinates::new(15, WORLD_HEIGHT as u16 - 1, 15).is_some());
}

#[test]
fn empty_chunk_keeps_heightmaps() {
    let blocks = ChunkBlocks::empty_with_heightmap(heightmaps());
    assert_eq!(blocks.blocks().len(), CHUNK_VOLUME);
    assert!(blocks.blocks().iter().all(|b| *b == BlockId::default()));
    assert_eq!(blocks.heightmap().motion_blocking, vec![1, -2, 3]);
    let d = ChunkHeightmaps::default();
    assert_eq!(d.motion_blocking, vec![0; 37]);
    assert_eq!(d.world_surface, vec![0; 37]);
}

#[test]
fn subchunks_split_the_array_in_order() {
    let mut blocks = ChunkBlocks::default();
    blocks.set_index(SUBCHUNK_VOLUME * 5 + 17, BlockId::from_id(4));
    let subs = blocks.iter_subchunks();
    assert_eq!(subs.len(), 24);
    assert!(subs.iter().all(|s| s.len() == SUBCHUNK_VOLUME));
    assert_eq!(subs[5][17], BlockId::from_id(4));
    assert_eq!(subs[5][16], BlockId::default());
    assert_eq!(subs[4][17], BlockId::default());
}

#[test]
fn from_blocks_needs_a_full_array() {
    assert!(ChunkBlocks::from_blocks(vec![BlockId::default(); 10], heightmaps()).is_none());
    assert!(ChunkBlocks::from_blocks(vec![BlockId::default(); CHUNK_VOLUME], heightmaps()).is_some());
}

#[test]
fn palette_bit_widths() {
    assert_eq!(palette_bit_width(1), 4);
    assert_eq!(palette_bit_width(2), 4);
    assert_eq!(palette_bit_width(16), 4);
    assert_eq!(palette_bit_width(17), 5);
    assert_eq!(palette_bit_width(256), 8);
    assert_eq!(palette_bit_width(257), 9);
    assert_eq!(palette_bit_width(0), 4);
    assert_eq!(palette_bit_width(usize::MAX), 64);
}

#[test]
fn unpacking_stops_at_the_subchunk_boundary() {
    // width 5: twelve entries per word, and 4096 is not a multiple of twelve
    let palette: Vec<BlockId> = (0..17u16).map(BlockId::from_id).collect();
    let mut word: u64 = 0;
    for i in 0..12 {
        word |= 3u64 << (i * 5);
    }
    let data = vec![word as i64; 342];
    let mut blocks = ChunkBlocks::default();
    let end = unpack_section(&mut blocks, 0, &palette, &data).unwrap();
    assert_eq!(end, SUBCHUNK_VOLUME);
    assert_eq!(blocks.block_at(4095), BlockId::from_id(3));
    assert_eq!(blocks.block_at(4096), BlockId::default());
    assert!(blocks.blocks()[SUBCHUNK_VOLUME..].iter().all(|b| *b == BlockId::default()));
}

#[test]
fn unpacking_from_mid_subchunk_stops_at_its_end() {
    let palette = vec![BlockId::from_id(0), BlockId::from_id(1)];
    let data = vec![0x1111_1111_1111_1111i64; 300];
    let mut blocks = ChunkBlocks::default();
    let end = unpack_section(&mut blocks, 4000, &palette, &data).unwrap();
    assert_eq!(end, 4096);
    assert_eq!(blocks.block_at(3999), BlockId::default());
    assert_eq!(blocks.block_at(4000), BlockId::from_id(1));
    assert_eq!(blocks.block_at(4095), BlockId::from_id(1));
    assert_eq!(blocks.block_at(4096), BlockId::default());
}

#[test]
fn short_data_moves_the_cursor_by_what_it_holds() {
    let palette = vec![BlockId::from_id(7)];
    let data = vec![0i64; 3];
    let mut blocks = ChunkBlocks::default();
    assert_eq!(unpack_section(&mut blocks, 0, &palette, &data), Ok(48));
}

#[test]
fn incomplete_chunks_are_refused() {
    let reg = registry(&["minecraft:air"]);
    let statuses = [
        ChunkStatus::Empty,
        ChunkStatus::StructureStarts,
        ChunkStatus::StructureReferences,
        ChunkStatus::Biomes,
        ChunkStatus::Noise,
        ChunkStatus::Surface,
        ChunkStatus::Carvers,
        ChunkStatus::LiquidCarvers,
        ChunkStatus::Features,
        ChunkStatus::Light,
        ChunkStatus::Spawn,
        ChunkStatus::Heightmaps,
    ];
    for s in statuses {
        assert_eq!(check_status(s), Err(DecodeError::IncompleteGeneration));
        let r = ChunkData::from_nbt(s, full(Vec::new()), ChunkPosition::new(0, 0), &reg);
        assert!(matches!(r, Err(DecodeError::IncompleteGeneration)));
    }
    assert_eq!(check_status(ChunkStatus::Full), Ok(()));
}

fn alternating_chunk() -> ChunkData {
    let reg = registry(&["minecraft:air", "minecraft:stone"]);
    let sec = section(
        vec![entry("minecraft:air"), entry("minecraft:stone")],
        Some(vec![0x1010_1010_1010_1010i64; 256]),
    );
    ChunkData::from_nbt(ChunkStatus::Full, full(vec![sec]), ChunkPosition::new(-3, 12), &reg)
        .unwrap()
}

#[test]
fn alternating_palette_decodes_and_round_trips() {
    let chunk = alternating_chunk();
    let air = BlockId::from_id(0);
    let stone = BlockId::from_id(1);
    for i in 0..SUBCHUNK_VOLUME {
        let want = if i % 2 == 0 { air } else { stone };
        assert_eq!(chunk.blocks.block_at(i), want);
    }
    assert!(chunk.blocks.blocks()[SUBCHUNK_VOLUME..].iter().all(|b| *b == air));
    let bytes = chunk.write_to();
    let (back, used) = ChunkData::read_from(&bytes).unwrap();
    assert_eq!(used, bytes.len());
    assert_eq!(back.blocks.blocks(), chunk.blocks.blocks());
    assert_eq!(back.position, chunk.position);
}

#[test]
fn encoding_round_trips() {
    let mut blocks = ChunkBlocks::empty_with_heightmap(heightmaps());
    for i in 0..CHUNK_VOLUME {
        blocks.set_index(i, BlockId::from_id((i * 7 % 65536) as u16));
    }
    let chunk = ChunkData {
        blocks,
        position: ChunkPosition::new(i32::MIN, 77),
    };
    let bytes = chunk.write_to();
    assert_eq!(bytes.len(), 8 + 2 * CHUNK_VOLUME + 8 + 24 + 8 + 16);
    let (back, used) = ChunkData::read_from(&bytes).unwrap();
    assert_eq!(used, bytes.len());
    assert_eq!(back.position, ChunkPosition::new(i32::MIN, 77));
    assert_eq!(back.blocks.blocks(), chunk.blocks.blocks());
    assert_eq!(back.blocks.heightmap().motion_blocking, vec![1, -2, 3]);
    assert_eq!(back.blocks.heightmap().world_surface, vec![i64::MIN, i64::MAX]);
}

#[test]
fn encoding_layout_is_little_endian() {
    let mut blocks = ChunkBlocks::empty_with_heightmap(ChunkHeightmaps {
        motion_blocking: vec![-1],
        world_surface: vec![],
    });
    blocks.set_index(1, BlockId::from_id(0x0102));
    let chunk = ChunkData {
        blocks,
        position: ChunkPosition::new(1, -1),
    };
    let bytes = chunk.write_to();
    assert_eq!(&bytes[0..8], &[1, 0, 0, 0, 0xff, 0xff, 0xff, 0xff]);
    assert_eq!(&bytes[8..12], &[0, 0, 2, 1]);
    let h = 8 + 2 * CHUNK_VOLUME;
    assert_eq!(&bytes[h..h + 8], &[1, 0, 0, 0, 0, 0, 0, 0]);
    assert_eq!(&bytes[h + 8..h + 16], &[0xff; 8]);
    assert_eq!(&bytes[h + 16..], &[0; 8]);
}

#[test]
fn short_buffers_are_refused_and_trailing_bytes_left() {
    let chunk = ChunkData {
        blocks: ChunkBlocks::empty_with_heightmap(heightmaps()),
        position: ChunkPosition::new(5, 6),
    };
    let bytes = chunk.write_to();
    for cut in [0, 7, 8 + 2 * CHUNK_VOLUME, bytes.len() - 1, bytes.len() - 16] {
        assert!(matches!(
            ChunkData::read_from(&bytes[..cut]),
            Err(CodecError::TruncatedInput)
        ));
    }
    let mut long = bytes.clone();
    long.extend_from_slice(&[9, 8, 7]);
    let (back, used) = ChunkData::read_from(&long).unwrap();
    assert_eq!(used, bytes.len());
    assert_eq!(&long[used..], &[9, 8, 7]);
    assert_eq!(back.position, ChunkPosition::new(5, 6));
    assert_eq!(back.blocks.heightmap().motion_blocking, vec![1, -2, 3]);
    let mut huge = bytes.clone();
    let h = 8 + 2 * CHUNK_VOLUME;
    huge[h + 7] = 0x7f;
    assert!(matches!(
        ChunkData::read_from(&huge),
        Err(CodecError::TruncatedInput)
    ));
}

#[test]
fn unknown_block_fails_the_decode() {
    let reg = registry(&["minecraft:air"]);
    let sec = section(vec![entry("minecraft:air"), entry("minecraft:dirt")], None);
    let r = ChunkData::from_nbt(ChunkStatus::Full, full(vec![sec]), ChunkPosition::new(0, 0), &reg);
    assert!(matches!(r, Err(DecodeError::UnknownBlock(n)) if n == "minecraft:dirt"));
}

#[test]
fn properties_take_part_in_resolution() {
    let reg = BlockRegistry::new(vec![
        state("minecraft:log"),
        BlockState {
            name: "minecraft:log".to_string(),
            properties: vec![("axis".to_string(), "x".to_string())],
        },
    ])
    .unwrap();
    let plain = entry("minecraft:log");
    let axis = PaletteEntry {
        name: "minecraft:log".to_string(),
        properties: Some(vec![("axis".to_string(), "x".to_string())]),
    };
    let other = PaletteEntry {
        name: "minecraft:log".to_string(),
        properties: Some(vec![("axis".to_string(), "z".to_string())]),
    };
    assert_eq!(reg.resolve(&plain), Some(BlockId::from_id(0)));
    assert_eq!(reg.resolve(&axis), Some(BlockId::from_id(1)));
    assert_eq!(reg.resolve(&other), None);
    assert_eq!(reg.lookup(BlockId::from_id(1)).unwrap().properties.len(), 1);
    assert!(reg.lookup(BlockId::from_id(2)).is_none());
}

#[test]
fn bad_palette_index_fails_the_decode() {
    let reg = registry(&["minecraft:air", "minecraft:stone"]);
    let sec = section(vec![entry("minecraft:stone")], Some(vec![0x10; 256]));
    let r = ChunkData::from_nbt(ChunkStatus::Full, full(vec![sec]), ChunkPosition::new(0, 0), &reg);
    assert!(matches!(r, Err(DecodeError::PaletteIndexOutOfRange)));
}

#[test]
fn sections_past_the_top_fail_the_decode() {
    let reg = registry(&["minecraft:air", "minecraft:stone"]);
    let sections: Vec<ChunkSection> = (0..25)
        .map(|_| section(vec![entry("minecraft:stone")], None))
        .collect();
    let r = ChunkData::from_nbt(ChunkStatus::Full, full(sections), ChunkPosition::new(0, 0), &reg);
    assert!(matches!(r, Err(DecodeError::SectionOverflow)));
}

#[test]
fn single_state_and_empty_sections() {
    let reg = registry(&["minecraft:air", "minecraft:stone", "minecraft:dirt"]);
    let sections = vec![
        ChunkSection {
            y: -5,
            block_states: None,
        },
        section(vec![entry("minecraft:stone")], None),
        section(vec![entry("minecraft:dirt")], None),
    ];
    let chunk =
        ChunkData::from_nbt(ChunkStatus::Full, full(sections), ChunkPosition::new(1, 2), &reg)
            .unwrap();
    assert_eq!(chunk.blocks.block_at(0), BlockId::from_id(1));
    assert_eq!(chunk.blocks.block_at(4095), BlockId::from_id(1));
    assert_eq!(chunk.blocks.block_at(4096), BlockId::from_id(2));
    assert_eq!(chunk.blocks.block_at(8191), BlockId::from_id(2));
    assert_eq!(chunk.blocks.block_at(8192), BlockId::default());
    assert_eq!(chunk.blocks.heightmap().world_surface, vec![i64::MIN, i64::MAX]);
    assert_eq!(chunk.position, ChunkPosition::new(1, 2));
}

#[test]
fn registry_size_is_bounded() {
    assert!(BlockRegistry::new(vec![state("a"); 0x10000]).is_some());
    assert!(BlockRegistry::new(vec![state("a"); 0x10001]).is_none());
}

fn numbered_registry(n: usize) -> (BlockRegistry, Vec<PaletteEntry>) {
    let names: Vec<String> = (0..=n).map(|i| format!("test:block_{}", i)).collect();
    let reg = BlockRegistry::new(names.iter().map(|n| state(n)).collect()).unwrap();
    // palette entry j is registry state j + 1, so no entry resolves to air
    let palette = (1..=n).map(|i| entry(&names[i])).collect();
    (reg, palette)
}

fn decode_one(n: usize, data: Vec<i64>) -> ChunkData {
    let (reg, palette) = numbered_registry(n);
    let sec = section(palette, Some(data));
    ChunkData::from_nbt(ChunkStatus::Full, full(vec![sec]), ChunkPosition::new(0, 0), &reg).unwrap()
}

fn assert_prefix(chunk: &ChunkData, want: &[u16]) {
    for (i, w) in want.iter().enumerate() {
        assert_eq!(chunk.blocks.block_at(i), BlockId::from_id(*w), "block {}", i);
    }
    assert!(chunk.blocks.blocks()[want.len()..].iter().all(|b| *b == BlockId::default()));
}

#[test]
fn tiny_palettes_use_four_bits() {
    let one = decode_one(1, vec![0]);
    assert_prefix(&one, &[1; 16]);
    let two = decode_one(2, vec![0x1111_1111_1111_1111]);
    assert_prefix(&two, &[2; 16]);
}

#[test]
fn sixteen_entries_read_from_bit_zero_up() {
    let chunk = decode_one(16, vec![0xFEDC_BA98_7654_3210u64 as i64]);
    let want: Vec<u16> = (1..=16).collect();
    assert_prefix(&chunk, &want);
}

#[test]
fn seventeen_entries_use_five_bits_and_ignore_the_top() {
    let mut w: u64 = 0;
    for j in 0..12u64 {
        w |= j << (5 * j);
    }
    w |= 0xF000_0000_0000_0000;
    let chunk = decode_one(17, vec![w as i64]);
    let want: Vec<u16> = (1..=12).collect();
    assert_prefix(&chunk, &want);
}

#[test]
fn large_palettes_use_eight_bits() {
    let chunk = decode_one(256, vec![0x0706_0504_0302_0100]);
    let want: Vec<u16> = (1..=8).collect();
    assert_prefix(&chunk, &want);
}

#[test]
fn chunk_decode_stops_at_the_subchunk_boundary() {
    let mut w: i64 = 0;
    for j in 0..12 {
        w |= 1i64 << (5 * j);
    }
    let chunk = decode_one(17, vec![w; 342]);
    assert_prefix(&chunk, &[2; 4096]);
}

#[test]
fn property_order_does_not_matter() {
    let reg = BlockRegistry::new(vec![BlockState {
        name: "minecraft:stairs".to_string(),
        properties: vec![
            ("facing".to_string(), "east".to_string()),
            ("half".to_string(), "top".to_string()),
        ],
    }])
    .unwrap();
    let swapped = PaletteEntry {
        name: "minecraft:stairs".to_string(),
        properties: Some(vec![
            ("half".to_string(), "top".to_string()),
            ("facing".to_string(), "east".to_string()),
        ]),
    };
    let partial = PaletteEntry {
        name: "minecraft:stairs".to_string(),
        properties: Some(vec![("half".to_string(), "top".to_string())]),
    };
    assert_eq!(reg.resolve(&swapped), Some(BlockId::from_id(0)));
    assert_eq!(reg.resolve(&partial), None);
    assert_eq!(reg.resolve(&entry("minecraft:stairs")), None);
}

#[test]
fn registry_refuses_a_repeated_key() {
    let twice = BlockState {
        name: "minecraft:log".to_string(),
        properties: vec![
            ("axis".to_string(), "x".to_string()),
            ("axis".to_string(), "y".to_string()),
        ],
    };
    assert!(BlockRegistry::new(vec![state("minecraft:air"), twice]).is_none());
}
