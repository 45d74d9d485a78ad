use rustc_codegen_cranelift::debuginfo::{DebugContext, FunctionDebugContext};
use rustc_codegen_cranelift::endian::Endian;
use rustc_codegen_cranelift::unit::Address;
use rustc_codegen_cranelift::writer::{DebugReloc, SectionId, WriteError, WriterRelocate};

fn context_with_symbol(name: &str) -> DebugContext {
    let mut ctx = DebugContext::new(8, "/work");
    FunctionDebugContext::new(&mut ctx, name, "lib.rs", 1, 1);
    ctx
}

fn window_is_zero(bytes: &[u8], reloc: &DebugReloc) -> bool {
    let start = reloc.offset as usize;
    let end = start + reloc.size as usize;
    end <= bytes.len() && bytes[start..end].iter().all(|b| *b == 0)
}

#[test]
fn absolute_address_is_written_in_byte_order() {
    let ctx = DebugContext::new(8, "/work");
    let mut little = WriterRelocate::new(&ctx, Endian::Little);
    assert_eq!(little.write_address(Address::Absolute(0x1122_3344), 4), Ok(()));
    assert_eq!(little.slice(), &[0x44, 0x33, 0x22, 0x11]);
    assert!(little.relocs().is_empty());

    let mut big = WriterRelocate::new(&ctx, Endian::Big);
    assert_eq!(big.write_address(Address::Absolute(0x1122_3344), 4), Ok(()));
    assert_eq!(big.write_word(0x0102, 2), Ok(()));
    assert_eq!(big.write_word(0x0102_0304_0506_0708, 8), Ok(()));
    assert_eq!(
        big.slice(),
        &[0x11, 0x22, 0x33, 0x44, 0x01, 0x02, 0x01, 0x02, 0x03, 0x04, 0x05, 0x06, 0x07, 0x08]
    );
    assert_eq!(big.endian(), Endian::Big);
}

#[test]
fn relative_address_is_deferred() {
    let ctx = context_with_symbol("main");
    let mut w = WriterRelocate::new(&ctx, Endian::Little);
    w.write(&[0xaa, 0xbb]);
    assert_eq!(
        w.write_address(Address::Relative { symbol: 0, addend: 16 }, 8),
        Ok(())
    );
    assert_eq!(w.slice(), &[0xaa, 0xbb, 0, 0, 0, 0, 0, 0, 0, 0]);
    assert_eq!(
        w.relocs(),
        &vec![DebugReloc { offset: 2, size: 8, name: "main".to_string(), addend: 16 }]
    );
    assert!(w.relocs().iter().all(|r| window_is_zero(w.slice(), r)));
}

#[test]
fn relative_address_of_unknown_symbol_is_refused() {
    let ctx = context_with_symbol("main");
    let mut w = WriterRelocate::new(&ctx, Endian::Little);
    assert_eq!(
        w.write_address(Address::Relative { symbol: 1, addend: 0 }, 8),
        Err(WriteError::InvalidAddress)
    );
    assert_eq!(
        w.write_address(Address::Relative { symbol: 0, addend: 0 }, 3),
        Err(WriteError::UnsupportedWordSize(3))
    );
    assert_eq!(w.len(), 0);
    assert!(w.relocs().is_empty());
}

#[test]
fn section_offset_always_gives_one_relocation() {
    let ctx = DebugContext::new(8, "/work");
    let mut w = WriterRelocate::new(&ctx, Endian::Little);
    assert_eq!(w.write_offset(0, SectionId::DebugAbbrev, 4), Ok(()));
    assert_eq!(w.write_offset(0x1234, SectionId::DebugStr, 4), Ok(()));
    assert_eq!(w.write_offset(7, SectionId::DebugLine, 8), Ok(()));
    assert_eq!(w.slice(), &[0u8; 16]);
    assert_eq!(
        w.relocs(),
        &vec![
            DebugReloc { offset: 0, size: 4, name: ".debug_abbrev".to_string(), addend: 0 },
            DebugReloc { offset: 4, size: 4, name: ".debug_str".to_string(), addend: 0x1234 },
            DebugReloc { offset: 8, size: 8, name: ".debug_line".to_string(), addend: 7 },
        ]
    );
    assert_eq!(
        w.write_offset(1, SectionId::DebugStr, 5),
        Err(WriteError::UnsupportedWordSize(5))
    );
    assert_eq!(w.relocs().len(), 3);
}

#[test]
fn section_names_are_the_elf_names() {
    let ctx = DebugContext::new(8, "/work");
    let all = [
        (SectionId::DebugAbbrev, ".debug_abbrev"),
        (SectionId::DebugInfo, ".debug_info"),
        (SectionId::DebugLine, ".debug_line"),
        (SectionId::DebugLineStr, ".debug_line_str"),
        (SectionId::DebugLoc, ".debug_loc"),
        (SectionId::DebugLocLists, ".debug_loclists"),
        (SectionId::DebugMacinfo, ".debug_macinfo"),
        (SectionId::DebugRanges, ".debug_ranges"),
        (SectionId::DebugRngLists, ".debug_rnglists"),
        (SectionId::DebugStr, ".debug_str"),
    ];
    for (id, name) in all {
        let mut w = WriterRelocate::new(&ctx, Endian::Little);
        assert_eq!(w.write_offset(0, id, 4), Ok(()));
        assert_eq!(w.relocs()[0].name, name);
    }
}

#[test]
fn offset_at_patches_zeros_and_records() {
    let ctx = DebugContext::new(8, "/work");
    let mut w = WriterRelocate::new(&ctx, Endian::Little);
    w.write(&[1, 2, 3, 4, 5, 6]);
    assert_eq!(w.write_offset_at(1, 9, SectionId::DebugInfo, 4), Ok(()));
    assert_eq!(w.slice(), &[1, 0, 0, 0, 0, 6]);
    assert_eq!(
        w.relocs(),
        &vec![DebugReloc { offset: 1, size: 4, name: ".debug_info".to_string(), addend: 9 }]
    );
    assert_eq!(
        w.write_offset_at(7, 9, SectionId::DebugInfo, 4),
        Err(WriteError::OffsetOutOfBounds)
    );
    assert_eq!(
        w.write_offset_at(3, 9, SectionId::DebugInfo, 4),
        Err(WriteError::LengthOutOfBounds)
    );
    assert_eq!(
        w.write_offset_at(0, 9, SectionId::DebugInfo, 0),
        Err(WriteError::UnsupportedWordSize(0))
    );
    assert_eq!(w.relocs().len(), 1);
}

#[test]
fn write_at_patches_in_place() {
    let ctx = DebugContext::new(8, "/work");
    let mut w = WriterRelocate::new(&ctx, Endian::Little);
    w.write(&[1, 2, 3, 4]);
    assert_eq!(w.write_at(1, &[9, 8]), Ok(()));
    assert_eq!(w.slice(), &[1, 9, 8, 4]);
    assert_eq!(w.write_at(4, &[]), Ok(()));
    assert_eq!(w.write_at(5, &[]), Err(WriteError::OffsetOutOfBounds));
    assert_eq!(w.write_at(3, &[1, 2]), Err(WriteError::LengthOutOfBounds));
    assert_eq!(w.write_word_at(0, 0x0201, 2), Ok(()));
    assert_eq!(w.slice(), &[1, 2, 8, 4]);
    assert_eq!(w.write_word_at(0, 0x1_0000, 2), Err(WriteError::ValueTooLarge));
    assert_eq!(w.slice(), &[1, 2, 8, 4]);
}

#[test]
fn words_that_do_not_fit_are_refused() {
    let ctx = DebugContext::new(8, "/work");
    let mut w = WriterRelocate::new(&ctx, Endian::Little);
    assert_eq!(w.write_word(0x100, 1), Err(WriteError::ValueTooLarge));
    assert_eq!(w.write_word(0xff, 1), Ok(()));
    assert_eq!(w.write_word(0x1_0000, 2), Err(WriteError::ValueTooLarge));
    assert_eq!(w.write_word(0x1_0000_0000, 4), Err(WriteError::ValueTooLarge));
    assert_eq!(w.write_word(1, 3), Err(WriteError::UnsupportedWordSize(3)));
    assert_eq!(w.write_word(u64::MAX, 8), Ok(()));
    assert_eq!(w.slice(), &[0xff, 0xff, 0xff, 0xff, 0xff, 0xff, 0xff, 0xff, 0xff]);
    let (bytes, relocs) = w.into_parts();
    assert_eq!(bytes.len(), 9);
    assert!(relocs.is_empty());
}

#[test]
fn offset_beyond_the_addend_is_refused() {
    let ctx = DebugContext::new(8, "/work");
    let mut w = WriterRelocate::new(&ctx, Endian::Little);
    if usize::MAX as u64 > i64::MAX as u64 {
        assert_eq!(
            w.write_offset(usize::MAX, SectionId::DebugStr, 8),
            Err(WriteError::ValueTooLarge)
        );
        w.write(&[0; 8]);
        assert_eq!(
            w.write_offset_at(0, usize::MAX, SectionId::DebugStr, 8),
            Err(WriteError::ValueTooLarge)
        );
        assert!(w.relocs().is_empty());
    }
}

#[test]
fn patches_may_break_a_window_only_with_a_byte_that_is_not_zero() {
    let ctx = DebugContext::new(8, "/work");
    let mut w = WriterRelocate::new(&ctx, Endian::Little);
    w.write(&[1, 2]);
    w.write_offset(3, SectionId::DebugStr, 4).unwrap();
    w.write(&[5]);
    assert_eq!(w.write_at(0, &[9, 9, 0, 0]), Ok(()));
    assert!(w.relocs().iter().all(|r| window_is_zero(w.slice(), r)));
    assert_eq!(w.write_at(5, &[7]), Ok(()));
    assert!(!w.relocs().iter().all(|r| window_is_zero(w.slice(), r)));
}
