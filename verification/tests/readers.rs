use bevy::asset::RenderAssetUsages;
use bevy::image::{CompressedImageFormats, Image, ImageSampler, ImageType};
use rgb9e5_ktx2::binary16::widen;
use rgb9e5_ktx2::encoder::encode;
use rgb9e5_ktx2::image::{DecodedImage, PackedTexture};
use rgb9e5_ktx2::ktx2::write_container;

#[test]
fn ktx2_reader_accepts_the_container() {
    let texture = PackedTexture {
        width: 4,
        height: 2,
        mip_count: 3,
        levels: vec![(0..32).collect(), (100..108).collect(), vec![7, 7, 7, 7]],
    };
    let file = write_container(&texture).unwrap();
    let reader = ktx2::Reader::new(&file[..]).expect("a readable container");
    let header = reader.header();
    assert_eq!(header.format, Some(ktx2::Format::E5B9G9R9_UFLOAT_PACK32));
    assert_eq!(header.type_size, 4);
    assert_eq!(header.pixel_width, 4);
    assert_eq!(header.pixel_height, 2);
    assert_eq!(header.pixel_depth, 1);
    assert_eq!(header.layer_count, 1);
    assert_eq!(header.face_count, 1);
    assert_eq!(header.level_count, 3);
    assert_eq!(header.supercompression_scheme, None);
    assert_eq!(header.index.dfd_byte_offset, 152);
    assert_eq!(header.index.dfd_byte_length, 4);
    assert_eq!(header.index.kvd_byte_offset, 0);
    assert_eq!(header.index.kvd_byte_length, 0);
    assert_eq!(header.index.sgd_byte_offset, 0);
    assert_eq!(header.index.sgd_byte_length, 0);
    let levels: Vec<_> = reader.levels().collect();
    assert_eq!(levels.len(), 3);
    for (level, expected) in levels.iter().zip(texture.levels.iter()) {
        assert_eq!(level.data, &expected[..]);
        assert_eq!(level.uncompressed_byte_length, expected.len() as u64);
    }
    assert_eq!(reader.dfd_blocks().count(), 0);
    assert_eq!(reader.key_value_data().count(), 0);
    assert!(reader.supercompression_global_data().is_empty());
}

#[test]
fn ktx2_reader_finds_the_encoded_pixels() {
    let sample = |value: f32| value.to_bits();
    let level0: Vec<u32> = vec![
        sample(1.0), sample(0.5), sample(0.25), sample(1.0),
        sample(100.0), sample(1000.0), sample(10000.0), sample(1.0),
    ];
    let level1: Vec<u32> = vec![sample(0.1), sample(0.2), sample(0.3), sample(1.0)];
    let image = DecodedImage::new(2, 1, vec![level0, level1]).unwrap();
    let file = write_container(&encode(&image)).unwrap();
    let reader = ktx2::Reader::new(file).expect("a readable container");
    let levels: Vec<_> = reader.levels().collect();
    assert_eq!(levels[0].data, &[0x00, 0x01, 0x01, 0x81, 0x03, 0x3e, 0xe4, 0xec]);
    assert_eq!(levels[1].data, &[0x66, 0x9a, 0xcd, 0x74]);
}

#[test]
fn widen_agrees_with_half() {
    for bits in 0..=u16::MAX {
        let expected = half::f16::from_bits(bits).to_f32();
        let widened = f32::from_bits(widen(bits));
        if expected.is_nan() {
            assert!(widened.is_nan());
            assert_eq!(widened.is_sign_negative(), expected.is_sign_negative());
        } else {
            assert_eq!(widened.to_bits(), expected.to_bits());
        }
    }
}

#[test]
fn bevy_loads_the_container() {
    let sample = |value: f32| value.to_bits();
    let mut level0: Vec<u32> = Vec::new();
    for pixel in 0..8 {
        let value = pixel as f32 * 0.25;
        level0.extend([sample(value), sample(value * 2.0), sample(value * 4.0), sample(1.0)]);
    }
    let level1: Vec<u32> = [
        [sample(1.0), sample(0.5), sample(0.25), sample(1.0)],
        [sample(100.0), sample(1000.0), sample(10000.0), sample(1.0)],
    ]
    .concat();
    let level2: Vec<u32> = vec![sample(0.1), sample(0.2), sample(0.3), sample(1.0)];
    let texture = encode(&DecodedImage::new(4, 2, vec![level0, level1, level2]).unwrap());
    let file = write_container(&texture).unwrap();

    let image = Image::from_buffer(
        &file,
        ImageType::Extension("ktx2"),
        CompressedImageFormats::NONE,
        false,
        ImageSampler::Default,
        RenderAssetUsages::default(),
    )
    .expect("an image that bevy can load");
    assert_eq!(image.texture_descriptor.format, wgpu_types::TextureFormat::Rgb9e5Ufloat);
    assert_eq!(image.texture_descriptor.size.width, 4);
    assert_eq!(image.texture_descriptor.size.height, 2);
    assert_eq!(image.texture_descriptor.size.depth_or_array_layers, 1);
    assert_eq!(image.texture_descriptor.mip_level_count, 3);
    assert_eq!(image.data, Some(texture.levels.concat()));
}
