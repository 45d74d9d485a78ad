use object::write::Object;
use object::{Architecture, BinaryFormat, Endianness, SectionKind};
use rustc_codegen_cranelift::metadata::{
    contains, find_metadata, ContainerSection, CraneliftMetadataLoader, MetadataError,
};

fn object_with_section(name: &[u8], data: &[u8]) -> Vec<u8> {
    let mut obj = Object::new(BinaryFormat::Elf, Architecture::X86_64, Endianness::Little);
    let text = obj.add_section(Vec::new(), b".text".to_vec(), SectionKind::Text);
    obj.append_section_data(text, &[0x90, 0xc3], 1);
    let section = obj.add_section(Vec::new(), name.to_vec(), SectionKind::Data);
    obj.append_section_data(section, data, 1);
    obj.write().unwrap()
}

#[test]
fn metadata_round_trip() {
    let file = object_with_section(b"__SOMETHING__.clif_metadata", &[1, 2, 3]);
    let loader = CraneliftMetadataLoader;
    assert_eq!(loader.get_rlib_metadata(&file), Ok(vec![1, 2, 3]));
    assert_eq!(loader.get_dylib_metadata(&file), Ok(vec![1, 2, 3]));
}

#[test]
fn metadata_missing_is_not_found() {
    let file = object_with_section(b".rodata.other", &[1, 2, 3]);
    let loader = CraneliftMetadataLoader;
    assert_eq!(loader.get_rlib_metadata(&file), Err(MetadataError::NotFound));
    assert_eq!(
        MetadataError::NotFound.message(),
        "couldn't find metadata entry"
    );
}

#[test]
fn metadata_of_garbage_is_parse_error() {
    let loader = CraneliftMetadataLoader;
    match loader.get_rlib_metadata(&[1, 2, 3, 4]) {
        Err(MetadataError::ParseError(message)) => assert!(!message.is_empty()),
        other => panic!("unexpected result {:?}", other),
    }
}

#[test]
fn first_matching_section_wins() {
    let sections = vec![
        ContainerSection { name: None, data: Ok(vec![9]) },
        ContainerSection { name: Some(b".text".to_vec()), data: Ok(vec![8]) },
        ContainerSection { name: Some(b".rustc.clif_metadata".to_vec()), data: Ok(vec![1, 2, 3]) },
        ContainerSection { name: Some(b"x.clif_metadata".to_vec()), data: Ok(vec![4]) },
    ];
    assert_eq!(find_metadata(&sections), Ok(vec![1, 2, 3]));
}

#[test]
fn unreadable_metadata_section_is_parse_error() {
    let sections = vec![ContainerSection {
        name: Some(b".clif_metadata".to_vec()),
        data: Err("truncated".to_string()),
    }];
    assert_eq!(
        find_metadata(&sections),
        Err(MetadataError::ParseError("truncated".to_string()))
    );
    assert_eq!(find_metadata(&Vec::new()), Err(MetadataError::NotFound));
}

#[test]
fn contains_finds_subslices() {
    assert!(contains(b"abc.clif_metadata", b".clif_metadata"));
    assert!(contains(b"abc", b""));
    assert!(contains(b"abc", b"bc"));
    assert!(!contains(b"abc", b"bd"));
    assert!(!contains(b"ab", b"abc"));
}
