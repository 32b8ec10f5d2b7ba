use rgb9e5_ktx2::image::PackedTexture;
use rgb9e5_ktx2::ktx2::{write_container, DESCRIPTOR_LEN, FORMAT_E5B9G9R9, TYPE_SIZE};

const IDENTIFIER: [u8; 12] =
    [0xAB, 0x4B, 0x54, 0x58, 0x20, 0x32, 0x30, 0xBB, 0x0D, 0x0A, 0x1A, 0x0A];

fn read32(file: &[u8], at: usize) -> u32 {
    u32::from_le_bytes([file[at], file[at + 1], file[at + 2], file[at + 3]])
}

fn read64(file: &[u8], at: usize) -> u64 {
    let mut bytes = [0u8; 8];
    bytes.copy_from_slice(&file[at..at + 8]);
    u64::from_le_bytes(bytes)
}

#[test]
fn single_level_file_byte_for_byte() {
    let texture = PackedTexture { width: 1, height: 1, mip_count: 1, levels: vec![vec![1, 2, 3, 4]] };
    let mut expected: Vec<u8> = IDENTIFIER.to_vec();
    for field in [123u32, 4, 1, 1, 1, 1, 1, 1, 0] {
        expected.extend_from_slice(&field.to_le_bytes());
    }
    // section index: the descriptor at 104, four bytes long; nothing else
    expected.extend_from_slice(&[104, 0, 0, 0, 4, 0, 0, 0]);
    expected.extend_from_slice(&[0u8; 24]);
    for field in [108u64, 4, 4] {
        expected.extend_from_slice(&field.to_le_bytes());
    }
    expected.extend_from_slice(&[4, 0, 0, 0]);
    expected.extend_from_slice(&[1, 2, 3, 4]);
    assert_eq!(expected.len(), 112);
    assert_eq!(write_container(&texture), Ok(expected));
}

#[test]
fn header_fields() {
    let texture = PackedTexture {
        width: 0x0102_0304,
        height: 0x0a0b_0c0d,
        mip_count: 2,
        levels: vec![vec![0; 8], vec![0; 4]],
    };
    let file = write_container(&texture).unwrap();
    assert_eq!(&file[0..12], &IDENTIFIER);
    assert_eq!(read32(&file, 12), FORMAT_E5B9G9R9);
    assert_eq!(read32(&file, 12), 123);
    assert_eq!(read32(&file, 16), TYPE_SIZE);
    assert_eq!(&file[20..24], &[0x04, 0x03, 0x02, 0x01]);
    assert_eq!(&file[24..28], &[0x0d, 0x0c, 0x0b, 0x0a]);
    assert_eq!(read32(&file, 28), 1);
    assert_eq!(read32(&file, 32), 1);
    assert_eq!(read32(&file, 36), 1);
    assert_eq!(read32(&file, 40), 2);
    assert_eq!(read32(&file, 44), 0);
}

#[test]
fn section_index_names_the_descriptor_only() {
    let texture = PackedTexture {
        width: 4,
        height: 4,
        mip_count: 3,
        levels: vec![vec![0; 64], vec![0; 16], vec![0; 4]],
    };
    let file = write_container(&texture).unwrap();
    let descriptor_at = read32(&file, 48) as usize;
    assert_eq!(descriptor_at, 80 + 3 * 24);
    assert_eq!(read32(&file, 52), DESCRIPTOR_LEN);
    assert_eq!(read32(&file, 52), 4);
    assert_eq!(&file[56..80], &[0u8; 24]);
    assert_eq!(read32(&file, descriptor_at), 4);
    // the level data starts right after the descriptor
    assert_eq!(read64(&file, 80 + 2 * 24), descriptor_at as u64 + 4);
}

#[test]
fn levels_are_stored_smallest_first() {
    let level0: Vec<u8> = (100..116).collect();
    let level1: Vec<u8> = vec![7, 8, 9, 10];
    let texture = PackedTexture {
        width: 2,
        height: 2,
        mip_count: 2,
        levels: vec![level0.clone(), level1.clone()],
    };
    let file = write_container(&texture).unwrap();
    assert_eq!(file.len(), 152);
    // entry 0 describes the largest level, which comes last
    assert_eq!(read64(&file, 80), 136);
    assert_eq!(read64(&file, 88), 16);
    assert_eq!(read64(&file, 96), 16);
    assert_eq!(read64(&file, 104), 132);
    assert_eq!(read64(&file, 112), 4);
    assert_eq!(read64(&file, 120), 4);
    assert_eq!(&file[132..136], &level1[..]);
    assert_eq!(&file[136..152], &level0[..]);
}

#[test]
fn index_entries_stay_in_bounds_and_apart() {
    let texture = PackedTexture {
        width: 8,
        height: 4,
        mip_count: 4,
        levels: vec![vec![1; 128], vec![2; 32], vec![3; 8], vec![4; 4]],
    };
    let file = write_container(&texture).unwrap();
    let count = read32(&file, 40) as usize;
    assert_eq!(count, 4);
    let mut regions: Vec<(u64, u64)> = Vec::new();
    for i in 0..count {
        let offset = read64(&file, 80 + 24 * i);
        let length = read64(&file, 88 + 24 * i);
        assert_eq!(read64(&file, 96 + 24 * i), length);
        assert_eq!(length as usize, texture.levels[i].len());
        assert!(offset >= 84 + 24 * count as u64);
        assert_eq!(offset % 4, 0);
        assert!(offset + length <= file.len() as u64);
        assert_eq!(&file[offset as usize..(offset + length) as usize], &texture.levels[i][..]);
        for &(other, other_length) in regions.iter() {
            assert!(offset + length <= other || other + other_length <= offset);
        }
        regions.push((offset, length));
    }
    assert_eq!(file.len(), 84 + 24 * 4 + 128 + 32 + 8 + 4);
}

#[test]
fn levels_are_padded_to_four_bytes() {
    let texture = PackedTexture {
        width: 2,
        height: 1,
        mip_count: 3,
        levels: vec![vec![0xaa; 5], vec![0xbb; 3], vec![0xcc; 6]],
    };
    let file = write_container(&texture).unwrap();
    // head: 80 + 3 * 24 + 4 = 156
    assert_eq!(read64(&file, 128), 156);
    assert_eq!(read64(&file, 136), 6);
    assert_eq!(read64(&file, 104), 164);
    assert_eq!(read64(&file, 112), 3);
    assert_eq!(read64(&file, 80), 168);
    assert_eq!(read64(&file, 88), 5);
    assert_eq!(file.len(), 173);
    assert_eq!(
        &file[156..],
        &[
            0xcc, 0xcc, 0xcc, 0xcc, 0xcc, 0xcc, 0, 0, 0xbb, 0xbb, 0xbb, 0, 0xaa, 0xaa, 0xaa, 0xaa,
            0xaa
        ]
    );
}

#[test]
fn texture_without_levels_is_a_bare_head() {
    let texture = PackedTexture { width: 3, height: 5, mip_count: 0, levels: vec![] };
    let file = write_container(&texture).unwrap();
    assert_eq!(file.len(), 84);
    assert_eq!(read32(&file, 20), 3);
    assert_eq!(read32(&file, 24), 5);
    assert_eq!(read32(&file, 40), 0);
}

#[test]
fn empty_levels_take_no_room() {
    let texture =
        PackedTexture { width: 1, height: 1, mip_count: 2, levels: vec![vec![], vec![9, 9, 9, 9]] };
    let file = write_container(&texture).unwrap();
    assert_eq!(file.len(), 136);
    assert_eq!(read64(&file, 80), 136);
    assert_eq!(read64(&file, 88), 0);
    assert_eq!(read64(&file, 104), 132);
    assert_eq!(read64(&file, 112), 4);
}
