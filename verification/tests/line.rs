use rustc_codegen_cranelift::line::{
    check_within_code, line_rows, sort_by_offset, InstructionLocation, LineRow,
};

fn at(offset: u32, line: u64) -> InstructionLocation {
    InstructionLocation { offset, line: Some(line) }
}

#[test]
fn sort_is_stable() {
    let table = vec![at(8, 1), at(0, 2), at(8, 3), at(4, 4), at(0, 5)];
    assert_eq!(
        sort_by_offset(&table),
        vec![at(0, 2), at(0, 5), at(4, 4), at(8, 1), at(8, 3)]
    );
    assert_eq!(sort_by_offset(&Vec::new()), Vec::new());
    let mut expected = table.clone();
    expected.sort_by_key(|e| e.offset);
    assert_eq!(sort_by_offset(&table), expected);
}

#[test]
fn one_row_per_run_of_a_line() {
    let table = vec![
        at(0, 10),
        at(2, 10),
        InstructionLocation { offset: 3, line: None },
        at(4, 10),
        at(6, 11),
        at(8, 10),
    ];
    assert_eq!(
        line_rows(&table),
        vec![
            LineRow { address_offset: 0, line: 10 },
            LineRow { address_offset: 6, line: 11 },
            LineRow { address_offset: 8, line: 10 },
        ]
    );
    assert_eq!(line_rows(&Vec::new()), Vec::new());
}

#[test]
fn rows_of_distinct_offsets_increase_strictly() {
    let table = vec![at(12, 3), at(4, 2), at(0, 1), at(8, 2), at(16, 1)];
    let rows = line_rows(&sort_by_offset(&table));
    assert_eq!(
        rows,
        vec![
            LineRow { address_offset: 0, line: 1 },
            LineRow { address_offset: 4, line: 2 },
            LineRow { address_offset: 12, line: 3 },
            LineRow { address_offset: 16, line: 1 },
        ]
    );
    assert!(rows.windows(2).all(|w| w[0].address_offset < w[1].address_offset));
}

#[test]
fn shared_offsets_give_rows_at_one_address() {
    let rows = line_rows(&sort_by_offset(&vec![at(4, 1), at(4, 2)]));
    assert_eq!(
        rows,
        vec![LineRow { address_offset: 4, line: 1 }, LineRow { address_offset: 4, line: 2 }]
    );
}

#[test]
fn within_code_allows_the_end() {
    assert!(check_within_code(&vec![at(0, 1), at(4, 1)], 4));
    assert!(!check_within_code(&vec![at(0, 1), at(5, 1)], 4));
    assert!(check_within_code(&Vec::new(), 0));
}
