use hip_limiter::sizes::{
    array_format_bytes, channel_desc_alloc_size, channel_desc_bytes_per_elem, driver_array_alloc_size,
    mip_chain_total_size, HipChannelFormatDesc,
};

#[test]
fn test_format_bytes_unsigned_int8() {
    assert_eq!(array_format_bytes(0x01), Some(1));
}

#[test]
fn test_format_bytes_unsigned_int16() {
    assert_eq!(array_format_bytes(0x02), Some(2));
}

#[test]
fn test_format_bytes_unsigned_int32() {
    assert_eq!(array_format_bytes(0x03), Some(4));
}

#[test]
fn test_format_bytes_signed_int8() {
    assert_eq!(array_format_bytes(0x08), Some(1));
}

#[test]
fn test_format_bytes_signed_int16() {
    assert_eq!(array_format_bytes(0x09), Some(2));
}

#[test]
fn test_format_bytes_signed_int32() {
    assert_eq!(array_format_bytes(0x0a), Some(4));
}

#[test]
fn test_format_bytes_half() {
    assert_eq!(array_format_bytes(0x10), Some(2));
}

#[test]
fn test_format_bytes_float() {
    assert_eq!(array_format_bytes(0x20), Some(4));
}

#[test]
fn test_format_bytes_unknown() {
    assert_eq!(array_format_bytes(0x00), None);
    assert_eq!(array_format_bytes(0x04), None);
    assert_eq!(array_format_bytes(0xFF), None);
}

fn make_desc(x: i32, y: i32, z: i32, w: i32) -> HipChannelFormatDesc {
    HipChannelFormatDesc { x: x, y: y, z: z, w: w, f: 0 }
}

#[test]
fn test_channel_desc_rgba_float_2d() {
    let desc = make_desc(32, 32, 32, 32);
    assert_eq!(channel_desc_alloc_size(&desc, 256, 256, 0), Some(16 * 256 * 256));
}

#[test]
fn test_channel_desc_single_u8_2d() {
    let desc = make_desc(8, 0, 0, 0);
    assert_eq!(channel_desc_alloc_size(&desc, 1024, 512, 0), Some(1024 * 512));
}

#[test]
fn test_channel_desc_1d_height_zero() {
    let desc = make_desc(32, 0, 0, 0);
    assert_eq!(channel_desc_alloc_size(&desc, 1000, 0, 0), Some(4 * 1000));
}

#[test]
fn test_channel_desc_zero_width() {
    let desc = make_desc(8, 0, 0, 0);
    assert_eq!(channel_desc_alloc_size(&desc, 0, 100, 0), Some(0));
}

#[test]
fn test_channel_desc_non_byte_aligned() {
    let desc = make_desc(7, 0, 0, 0);
    assert_eq!(channel_desc_alloc_size(&desc, 100, 100, 0), None);
}

#[test]
fn test_channel_desc_zero_bits() {
    let desc = make_desc(0, 0, 0, 0);
    assert_eq!(channel_desc_alloc_size(&desc, 100, 100, 0), None);
}

#[test]
fn test_channel_desc_overflow() {
    let desc = make_desc(32, 0, 0, 0);
    assert_eq!(channel_desc_alloc_size(&desc, usize::MAX, 2, 0), None);
}

#[test]
fn test_channel_desc_3d() {
    let desc = make_desc(32, 0, 0, 0);
    assert_eq!(channel_desc_alloc_size(&desc, 64, 64, 64), Some(4 * 64 * 64 * 64));
}

#[test]
fn test_channel_desc_negative_bits() {
    assert_eq!(channel_desc_alloc_size(&make_desc(-8, 16, 0, 0), 100, 100, 0), None);
}

#[test]
fn test_driver_2ch_float_2d() {
    assert_eq!(driver_array_alloc_size(0x20, 2, 512, 512, 0), Some(4 * 2 * 512 * 512));
}

#[test]
fn test_driver_4ch_u8_3d() {
    assert_eq!(driver_array_alloc_size(0x01, 4, 64, 64, 64), Some(4 * 64 * 64 * 64));
}

#[test]
fn test_driver_1d_height_zero() {
    assert_eq!(driver_array_alloc_size(0x01, 1, 1000, 0, 0), Some(1000));
}

#[test]
fn test_driver_unknown_format() {
    assert_eq!(driver_array_alloc_size(0xFF, 1, 100, 100, 0), None);
}

#[test]
fn test_driver_overflow() {
    assert_eq!(driver_array_alloc_size(0x20, 4, usize::MAX, 2, 0), None);
}

#[test]
fn test_mip_single_level_equals_base() {
    assert_eq!(mip_chain_total_size(4, 256, 256, 0, 1), Some(4 * 256 * 256));
}

#[test]
fn test_mip_2d_two_levels() {
    assert_eq!(mip_chain_total_size(4, 256, 256, 0, 2), Some(262144 + 65536));
}

#[test]
fn test_mip_2d_full_chain() {
    assert_eq!(mip_chain_total_size(4, 256, 256, 0, 9), Some(4 * 87381));
}

#[test]
fn test_mip_1d() {
    assert_eq!(mip_chain_total_size(1, 128, 0, 0, 8), Some(255));
}

#[test]
fn test_mip_3d() {
    assert_eq!(mip_chain_total_size(1, 8, 8, 8, 4), Some(512 + 64 + 8 + 1));
}

#[test]
fn test_mip_zero_levels() {
    assert_eq!(mip_chain_total_size(4, 256, 256, 0, 0), Some(0));
}

#[test]
fn test_mip_dimensions_floor_to_one() {
    assert_eq!(mip_chain_total_size(1, 3, 1, 0, 3), Some(3 + 1 + 1));
}

#[test]
fn test_mip_overflow() {
    assert_eq!(mip_chain_total_size(4, usize::MAX, 2, 0, 1), None);
}

#[test]
fn test_mip_exceeds_max_alloc() {
    assert_eq!(mip_chain_total_size(u64::MAX / 4, 4, 1, 0, 1), None);
}

#[test]
fn test_mip_exceeds_max_levels() {
    assert_eq!(mip_chain_total_size(4, 256, 256, 0, 33), None);
    assert!(mip_chain_total_size(4, 256, 256, 0, 32).is_some());
}

#[test]
fn test_mip_non_power_of_two() {
    assert_eq!(mip_chain_total_size(1, 100, 50, 0, 3), Some(5000 + 1250 + 300));
}

#[test]
fn test_bytes_per_elem_rgba_float() {
    let desc = make_desc(32, 32, 32, 32);
    assert_eq!(channel_desc_bytes_per_elem(&desc), Some(16));
}

#[test]
fn test_bytes_per_elem_two_channel() {
    let desc = make_desc(16, 16, 0, 0);
    assert_eq!(channel_desc_bytes_per_elem(&desc), Some(4));
}

#[test]
fn test_bytes_per_elem_negative() {
    assert_eq!(channel_desc_bytes_per_elem(&make_desc(-8, 16, 0, 0)), None);
}

#[test]
fn test_bytes_per_elem_non_byte_aligned() {
    assert_eq!(channel_desc_bytes_per_elem(&make_desc(7, 0, 0, 0)), None);
}

#[test]
fn test_bytes_per_elem_zero() {
    assert_eq!(channel_desc_bytes_per_elem(&make_desc(0, 0, 0, 0)), None);
}
