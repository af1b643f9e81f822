use kfs::gdt::{gdt_image, gdt_pointer, gdt_table, make_entry, GdtEntry, GDT_ADDR, GDT_ENTRIES};

#[test]
fn make_entry_flat_kernel_code() {
    let e = make_entry(0, 0xFFFFF, 0x9A, 0xCF);
    assert_eq!(
        e,
        GdtEntry { limit_low: 0xFFFF, base_low: 0, base_middle: 0, access: 0x9A, granularity: 0xCF, base_high: 0 }
    );
}

#[test]
fn make_entry_spreads_base_and_limit() {
    let e = make_entry(0x12345678, 0xABCDE, 0x92, 0x4F);
    assert_eq!(e.base_low, 0x5678);
    assert_eq!(e.base_middle, 0x34);
    assert_eq!(e.base_high, 0x12);
    assert_eq!(e.limit_low, 0xBCDE);
    assert_eq!(e.granularity, 0x4A);
    assert_eq!(e.access, 0x92);
}

#[test]
fn null_entry_is_zero() {
    assert_eq!(make_entry(0, 0, 0, 0).to_bytes(), [0u8; 8]);
}

#[test]
fn entry_bytes_in_table_order() {
    assert_eq!(make_entry(0, 0xFFFFF, 0x9A, 0xCF).to_bytes(), [0xFF, 0xFF, 0x00, 0x00, 0x00, 0x9A, 0xCF, 0x00]);
    assert_eq!(make_entry(0x12345678, 0xABCDE, 0x92, 0x4F).to_bytes(), [0xDE, 0xBC, 0x78, 0x56, 0x34, 0x92, 0x4A, 0x12]);
}

#[test]
fn table_has_seven_descriptors_in_selector_order() {
    let t = gdt_table();
    assert_eq!(t.len(), GDT_ENTRIES);
    let access: Vec<u8> = t.iter().map(|e| e.access).collect();
    assert_eq!(access, vec![0x00, 0x9A, 0x92, 0x92, 0xFA, 0xF2, 0xF2]);
    assert!(t[1..].iter().all(|e| e.granularity == 0xCF && e.limit_low == 0xFFFF));
}

#[test]
fn image_and_pointer() {
    let img = gdt_image();
    assert_eq!(img.len(), 56);
    assert_eq!(&img[0..8], &[0u8; 8]);
    assert_eq!(&img[8..16], &[0xFF, 0xFF, 0x00, 0x00, 0x00, 0x9A, 0xCF, 0x00]);
    assert_eq!(&img[32..40], &[0xFF, 0xFF, 0x00, 0x00, 0x00, 0xFA, 0xCF, 0x00]);
    let p = gdt_pointer();
    assert_eq!(p.limit, 55);
    assert_eq!(p.base, GDT_ADDR);
    assert_eq!(GDT_ADDR, 0x800);
}
