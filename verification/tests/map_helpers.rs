use optibridge_protocol::{BpfMapMetadata, lookup, update, value_range};

fn map() -> BpfMapMetadata {
    BpfMapMetadata {
        backing_offset: 4,
        backing_len: 8,
        key_size: 4,
        value_size: 4,
    }
}

#[test]
fn array_entries_are_fixed_size_and_bounded() {
    assert_eq!(value_range(&map(), 0), Some(0..4));
    assert_eq!(value_range(&map(), 1), Some(4..8));
    assert_eq!(value_range(&map(), 2), None);
}

#[test]
fn lookup_and_update_use_value_ranges() {
    let metadata = map();
    let mut backing = [0; 12];
    assert_eq!(lookup(&metadata, 0, &backing), Some(&[0, 0, 0, 0][..]));
    assert_eq!(update(&metadata, 1, &[1, 2, 3, 4], &mut backing), Ok(()));
    assert_eq!(lookup(&metadata, 1, &backing), Some(&[1, 2, 3, 4][..]));
    assert_eq!(&backing[..4], &[0, 0, 0, 0]);
    assert_eq!(update(&metadata, 0, &[1, 2], &mut backing), Err(()));
}

#[test]
fn update_then_lookup_returns_value_and_spares_other_entries() {
    let metadata = BpfMapMetadata { backing_offset: 2, backing_len: 6, key_size: 4, value_size: 2 };
    let mut backing = [7u8; 10];
    assert_eq!(update(&metadata, 2, &[1, 2], &mut backing), Ok(()));
    assert_eq!(lookup(&metadata, 2, &backing), Some(&[1, 2][..]));
    assert_eq!(lookup(&metadata, 0, &backing), Some(&[7, 7][..]));
    assert_eq!(lookup(&metadata, 1, &backing), Some(&[7, 7][..]));
    assert_eq!(backing, [7, 7, 7, 7, 7, 7, 1, 2, 7, 7]);
}

#[test]
fn map_helpers_refuse_bad_keys_and_short_stores() {
    let wide_key = BpfMapMetadata { backing_offset: 0, backing_len: 8, key_size: 8, value_size: 4 };
    assert_eq!(value_range(&wide_key, 0), None);
    let metadata = BpfMapMetadata { backing_offset: 4, backing_len: 8, key_size: 4, value_size: 4 };
    let mut short = [0u8; 10];
    assert_eq!(lookup(&metadata, 1, &short), None);
    assert_eq!(update(&metadata, 1, &[1, 2, 3, 4], &mut short), Err(()));
    assert_eq!(short, [0; 10]);
    assert_eq!(value_range(&metadata, u32::MAX), None);
}
