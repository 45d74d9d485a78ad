//! The DWARF codes that the debug-information builder uses.

use vstd::prelude::*;

verus! {

/// Tag of the root entry of a translation unit.
pub const DW_TAG_COMPILE_UNIT: u16 = 0x11;

/// Tag of a function entry.
pub const DW_TAG_SUBPROGRAM: u16 = 0x2e;

/// Tag of a base type entry.
pub const DW_TAG_BASE_TYPE: u16 = 0x24;

/// Tag of a formal parameter entry.
pub const DW_TAG_FORMAL_PARAMETER: u16 = 0x05;

pub const DW_AT_NAME: u16 = 0x03;

pub const DW_AT_LOW_PC: u16 = 0x11;

pub const DW_AT_HIGH_PC: u16 = 0x12;

pub const DW_AT_LANGUAGE: u16 = 0x13;

pub const DW_AT_COMP_DIR: u16 = 0x1b;

pub const DW_AT_PRODUCER: u16 = 0x25;

pub const DW_AT_DECL_COLUMN: u16 = 0x39;

pub const DW_AT_DECL_FILE: u16 = 0x3a;

pub const DW_AT_DECL_LINE: u16 = 0x3b;

pub const DW_AT_LINKAGE_NAME: u16 = 0x6e;

/// Source-language code of Rust.
pub const DW_LANG_RUST: u64 = 0x1c;

} // verus!
