use tlc::error::TLCError;
use tlc::video::{PacketCache, extract_green_row};

#[test]
fn green_extraction_addresses_the_region() {
    // One decoded frame: 2 rows of 4 RGB pixels, 12 bytes per row,
    // bytes numbered 0..24. Region of 2x2 pixels at top-left (0, 1):
    // green offsets (0+r)*12 + (1+c)*3 + 1.
    let rgb: Vec<u8> = (0..24).collect();
    let row = extract_green_row(&rgb, 12, 0, 1, 2, 2).unwrap();
    assert_eq!(row, vec![4, 7, 16, 19]);
}

#[test]
fn green_extraction_rejects_short_frames() {
    let rgb: Vec<u8> = vec![0; 10];
    let err = extract_green_row(&rgb, 12, 0, 1, 2, 2).unwrap_err();
    assert!(matches!(err, TLCError::FrameTooSmall { .. }));
}

#[test]
fn green_extraction_of_empty_region() {
    let rgb: Vec<u8> = vec![0; 10];
    assert_eq!(extract_green_row(&rgb, 12, 0, 1, 0, 2).unwrap(), Vec::<u8>::new());
}

#[test]
fn packet_cache_is_bounded_and_append_only() {
    let mut cache: PacketCache<u32> = PacketCache::new(3);
    assert!(!cache.is_complete());
    assert!(cache.push(10));
    assert!(cache.push(11));
    assert!(!cache.ready_for(2));
    assert!(cache.push(12));
    assert!(cache.is_complete());
    assert!(cache.ready_for(2));
    // The bound holds: a fourth packet is refused.
    assert!(!cache.push(13));
    assert_eq!(cache.len(), 3);
    assert_eq!(*cache.get(1), 11);
    cache.clear();
    assert_eq!(cache.len(), 0);
    assert_eq!(cache.target(), 3);
}

#[test]
fn packet_cache_reset_rearms() {
    let mut cache: PacketCache<u8> = PacketCache::new(1);
    assert!(cache.push(1));
    cache.reset(2);
    assert_eq!(cache.len(), 0);
    assert_eq!(cache.target(), 2);
    assert!(cache.push(2));
    assert!(cache.push(3));
    assert!(cache.is_complete());
}
