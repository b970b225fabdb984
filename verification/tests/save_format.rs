use torxel_engine::serialization::checksum::{crc32, crc32_prefix};
use torxel_engine::serialization::save_format::{
    encode_save, is_save_file_name, read_chunk_frames, secs_or_zero, read_frame, read_u32_le, sort_newest_first,
    SaveError, SaveHeader, SerializedChunk, SAVE_FORMAT_VERSION, SAVE_MAGIC,
};
use torxel_engine::voxel::cell::{Cell, Material};
use torxel_engine::voxel::chunk::{Chunk, ChunkPos, CHUNK_VOLUME};

#[test]
fn serialized_chunk_roundtrip() {
    let mut chunk = Chunk::new(ChunkPos::new(3, -4));
    chunk.set(0, 0, 0, Cell::new(Material::Stone));
    let mut hot = Cell::WATER();
    hot.set_temperature_quantized(-12345);
    hot.set_velocity_quantized(-1, 300, i16::MIN);
    hot._padding[30] = 7;
    chunk.set(15, 63, 15, hot);
    let stored = SerializedChunk::from_chunk(&chunk);
    assert_eq!((stored.pos_x, stored.pos_z), (3, -4));
    assert_eq!(stored.cells.len(), CHUNK_VOLUME * 48);
    let back = stored.to_chunk().unwrap();
    assert_eq!(back.pos, chunk.pos);
    assert!(back.is_dirty);
    assert_eq!((back.active_cell_count, back.min_y, back.max_y), (2, 0, 63));
    let c = back.get(15, 63, 15);
    assert_eq!(c.temperature, -12345);
    assert_eq!((c.velocity_x, c.velocity_y, c.velocity_z), (-1, 300, i16::MIN));
    assert_eq!(c._padding[30], 7);
    assert_eq!(c.flags, hot.flags);
    for (a, b) in back.cells().iter().zip(chunk.cells().iter()) {
        assert_eq!(a.material, b.material);
        assert_eq!(a.pressure, b.pressure);
    }
}

#[test]
fn cell_bytes_are_little_endian_in_field_order() {
    let chunk = Chunk::from_cells(ChunkPos::new(0, 0), vec![Cell::AIR(); CHUNK_VOLUME]);
    let stored = SerializedChunk::from_chunk(&chunk);
    let first = &stored.cells[0..48];
    // material, flags, liquid, depth, temperature 29300 = 0x7274, pressure 10132 = 0x2794
    assert_eq!(&first[0..8], &[0, 0, 0, 0, 0x74, 0x72, 0x94, 0x27]);
    assert_eq!(&first[14..17], &[128, 128, 0]);
}

#[test]
fn to_chunk_rejects_wrong_sizes() {
    let stored = SerializedChunk { pos_x: 0, pos_z: 0, cells: vec![0u8; 47] };
    match stored.to_chunk() {
        Err(SaveError::InvalidChunkSize(n)) => assert_eq!(n, 47),
        _ => panic!("a short chunk must be refused"),
    }
}

#[test]
fn frames_read_back_what_was_written() {
    let header = vec![1u8, 2, 3];
    let chunks = vec![vec![9u8; 5], vec![], vec![7u8]];
    let data = encode_save(&header, &chunks);
    assert_eq!(&data[0..4], &[3, 0, 0, 0]);
    let (h, pos) = read_frame(&data, 0).unwrap();
    assert_eq!(h, header);
    let (count, mut pos) = read_u32_le(&data, pos).unwrap();
    assert_eq!(count, 3);
    for expected in &chunks {
        let (c, next) = read_frame(&data, pos).unwrap();
        assert_eq!(&c, expected);
        pos = next;
    }
    assert_eq!(pos, data.len() - 4);
    let (sum, end) = read_u32_le(&data, pos).unwrap();
    assert_eq!(end, data.len());
    assert_eq!(sum, crc32(&data[..pos]));
    assert_eq!(read_chunk_frames(&data, 7).unwrap(), chunks);
}

#[test]
fn crc32_matches_the_standard_check_value() {
    assert_eq!(crc32(b"123456789"), 0xCBF4_3926);
    assert_eq!(crc32(b""), 0);
    assert_eq!(crc32(b"a"), 0xE8B7_BE43);
    assert_eq!(crc32_prefix(b"123456789xyz", 9), 0xCBF4_3926);
}

#[test]
fn empty_save_ends_with_its_checksum() {
    let data = encode_save(&[], &vec![]);
    // empty header frame, zero chunks, then the CRC-32 of those eight zero bytes
    assert_eq!(data.len(), 12);
    assert_eq!(&data[0..8], &[0u8; 8]);
    let sum = crc32(&[0u8; 8]);
    assert_eq!(&data[8..12], &sum.to_le_bytes());
    assert_eq!(read_chunk_frames(&data, 4).unwrap(), Vec::<Vec<u8>>::new());
}

#[test]
fn corrupted_save_fails_its_checksum() {
    let chunks = vec![vec![1u8, 2, 3], vec![4u8; 10]];
    let mut data = encode_save(&[5, 6], &chunks);
    data[15] ^= 0x40;
    assert!(matches!(read_chunk_frames(&data, 6), Err(SaveError::ChecksumMismatch)));
    let mut data = encode_save(&[5, 6], &chunks);
    let last = data.len() - 1;
    data[last] ^= 1;
    assert!(matches!(read_chunk_frames(&data, 6), Err(SaveError::ChecksumMismatch)));
}

#[test]
fn truncated_chunk_section_is_an_io_error() {
    let data = encode_save(&[5, 6], &vec![vec![1u8, 2, 3]]);
    // without the footer
    assert!(matches!(read_chunk_frames(&data[..data.len() - 4], 6), Err(SaveError::IoError(_))));
    // inside a frame
    assert!(matches!(read_chunk_frames(&data[..12], 6), Err(SaveError::IoError(_))));
    // before the count
    assert!(matches!(read_chunk_frames(&data, data.len()), Err(SaveError::IoError(_))));
}

#[test]
fn chunk_count_records_the_saved_chunks() {
    let mut header = SaveHeader::new_at(7, "w".to_string(), 256, 5);
    assert_eq!(header.chunk_count, 0);
    header.set_chunk_count(12);
    assert_eq!(header.chunk_count, 12);
    assert_eq!((header.seed, header.created_at, header.name.as_str()), (7, 5, "w"));
    header.set_chunk_count((u32::MAX as usize) + 3);
    assert_eq!(header.chunk_count, 2);
}

#[test]
fn truncated_data_is_an_io_error() {
    let data = encode_save(&[1, 2, 3, 4], &vec![]);
    match read_frame(&data[..6], 0) {
        Err(SaveError::IoError(e)) => assert_eq!(e.kind(), std::io::ErrorKind::UnexpectedEof),
        _ => panic!("truncated frame must fail"),
    }
    assert!(matches!(read_u32_le(&data, 13), Err(SaveError::IoError(_))));
    assert!(matches!(read_u32_le(&data, 100), Err(SaveError::IoError(_))));
    assert_eq!(read_u32_le(&[0x78, 0x56, 0x34, 0x12], 0).unwrap(), (0x1234_5678, 4));
}

#[test]
fn header_validation() {
    let header = SaveHeader::new_at(12345, "Test World".to_string(), 256, 99);
    assert!(header.is_valid());
    assert!(header.is_version_compatible());
    assert!(header.validate().is_ok());
    assert_eq!((header.seed, header.world_size_blocks_xz), (12345, 256));
    assert_eq!((header.created_at, header.modified_at), (99, 99));
    assert_eq!((header.camera_zoom, header.camera_rotation), (3, 0));
    assert_eq!(header.name, "Test World");
    assert_eq!(header.magic, SAVE_MAGIC);
    assert_eq!(&header.magic, b"TXLS");

    let mut bad = header.clone();
    bad.magic = *b"TXLZ";
    assert!(matches!(bad.validate(), Err(SaveError::InvalidMagic)));
    let mut newer = header.clone();
    newer.version = SAVE_FORMAT_VERSION + 1;
    assert!(matches!(newer.validate(), Err(SaveError::VersionMismatch(2))));
    let fresh = SaveHeader::new(1, String::new(), 16);
    assert_eq!(fresh.created_at, fresh.modified_at);
    let d = SaveHeader::default();
    assert_eq!((d.seed, d.world_size_blocks_xz, d.version), (0, 256, 1));
}

#[test]
fn saves_sort_newest_first_keeping_ties_in_order() {
    let mk = |name: &str, t: u64| SaveHeader::new_at(0, name.to_string(), 256, t);
    let saves = vec![mk("a", 5), mk("b", 9), mk("c", 5), mk("d", 1), mk("e", 9)];
    let sorted = sort_newest_first(saves);
    let names: Vec<String> = sorted.iter().map(|h| h.name.clone()).collect();
    assert_eq!(names, vec!["b", "e", "a", "c", "d"]);
}

#[test]
fn save_file_names() {
    assert!(is_save_file_name("world.vxls"));
    assert!(is_save_file_name("a.b.vxls"));
    assert!(!is_save_file_name(".vxls"));
    assert!(!is_save_file_name("world.vxl"));
    assert!(!is_save_file_name("worldvxls"));
    assert!(is_save_file_name("мир.vxls"));
}

#[test]
fn clock_before_the_epoch_stamps_zero() {
    assert_eq!(secs_or_zero(Some(1_700_000_000)), 1_700_000_000);
    assert_eq!(secs_or_zero(None), 0);
}

#[test]
fn short_chunk_serializes_its_cells_and_is_refused_on_load() {
    let mut chunk = Chunk::new(ChunkPos::new(1, 2));
    chunk.cells.truncate(10);
    let stored = SerializedChunk::from_chunk(&chunk);
    assert_eq!(stored.cells.len(), 10 * 48);
    match stored.to_chunk() {
        Err(SaveError::InvalidChunkSize(n)) => assert_eq!(n, 480),
        _ => panic!("a short chunk must be refused"),
    }
}

#[test]
fn save_errors_as_text() {
    assert_eq!(SaveError::InvalidMagic.to_string(), "Invalid save file magic number");
    assert_eq!(SaveError::VersionMismatch(2).to_string(), "Unsupported save format version: 2");
    assert_eq!(SaveError::VersionMismatch(0).to_string(), "Unsupported save format version: 0");
    assert_eq!(SaveError::InvalidChunkSize(786431).to_string(), "Invalid chunk size: 786431");
    assert_eq!(SaveError::ChecksumMismatch.to_string(), "Save file checksum mismatch");
    let io = SaveError::IoError(std::io::Error::from(std::io::ErrorKind::UnexpectedEof));
    assert!(io.to_string().starts_with("IO error: "));
    let missing = SaveError::FileNotFound(std::path::PathBuf::from("a/b.vxls"));
    assert_eq!(missing.to_string(), "Save file not found: \"a/b.vxls\"");
}
