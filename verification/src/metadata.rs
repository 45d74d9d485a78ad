//! The metadata locator: finds the embedded metadata section of an object
//! file that was produced earlier.

use object::{Object, ObjectSection};
use vstd::prelude::*;

verus! {

/// Loads crate metadata from object files.
pub struct CraneliftMetadataLoader;

/// One section of an object file: its name, where it has one that is text,
/// and its contents or the reason why they cannot be read.
pub struct ContainerSection {
    pub name: Option<Vec<u8>>,
    pub data: Result<Vec<u8>, String>,
}

/// A section as the contracts see it.
pub struct ContainerSectionView {
    pub name: Option<Seq<u8>>,
    pub data: Result<Seq<u8>, Seq<char>>,
}

/// Why no metadata was loaded.
#[derive(Debug, PartialEq, Eq)]
pub enum MetadataError {
    /// The file is no object file that can be read; the text says why.
    ParseError(String),
    /// No section of the file holds metadata.
    NotFound,
}

/// An error as the contracts see it.
pub enum MetadataErrorView {
    ParseError(Seq<char>),
    NotFound,
}

impl View for ContainerSection {
    type V = ContainerSectionView;

    open spec fn view(&self) -> ContainerSectionView {
        ContainerSectionView {
            name: match self.name {
                Some(name) => Some(name@),
                None => None,
            },
            data: match self.data {
                Ok(data) => Ok(data@),
                Err(message) => Err(message@),
            },
        }
    }
}

impl View for MetadataError {
    type V = MetadataErrorView;

    open spec fn view(&self) -> MetadataErrorView {
        match self {
            MetadataError::ParseError(message) => MetadataErrorView::ParseError(message@),
            MetadataError::NotFound => MetadataErrorView::NotFound,
        }
    }
}

/// What `object::File::parse` and the section iterator of the parsed file
/// give for a file: its sections in the order of the file, or the text of
/// the parse error.
pub uninterp spec fn container_sections(file: Seq<u8>) -> Result<
    Seq<ContainerSectionView>,
    Seq<char>,
>;

/// The sections of `sections`, each as the contracts see it.
pub open spec fn section_views(sections: Seq<ContainerSection>) -> Seq<ContainerSectionView> {
    Seq::new(sections.len(), |i: int| sections[i]@)
}

/// The bytes of `.clif_metadata`, the text by which a metadata section is
/// known.
pub open spec fn metadata_marker() -> Seq<u8> {
    seq![
        0x2eu8, 0x63u8, 0x6cu8, 0x69u8, 0x66u8, 0x5fu8, 0x6du8, 0x65u8, 0x74u8, 0x61u8, 0x64u8,
        0x61u8, 0x74u8, 0x61u8,
    ]
}

/// `needle` occurs in `haystack` at position `at`.
pub open spec fn occurs_at(haystack: Seq<u8>, needle: Seq<u8>, at: int) -> bool {
    &&& 0 <= at
    &&& at + needle.len() <= haystack.len()
    &&& haystack.subrange(at, at + needle.len()) == needle
}

/// `needle` occurs somewhere in `haystack`.
pub open spec fn contains_bytes(haystack: Seq<u8>, needle: Seq<u8>) -> bool {
    exists|at: int| occurs_at(haystack, needle, at)
}

/// A section holds metadata when its name contains the marker.
pub open spec fn is_metadata_section(section: ContainerSectionView) -> bool {
    section.name matches Some(name) && contains_bytes(name, metadata_marker())
}

/// The position of the first metadata section, or the number of sections
/// where there is none.
pub open spec fn first_metadata_section(sections: Seq<ContainerSectionView>) -> nat
    decreases sections.len(),
{
    if sections.len() == 0 {
        0
    } else if is_metadata_section(sections[0]) {
        0
    } else {
        1 + first_metadata_section(sections.drop_first())
    }
}

/// The metadata of a file with these sections: the contents of the first
/// metadata section.
pub open spec fn located(sections: Seq<ContainerSectionView>) -> Result<
    Seq<u8>,
    MetadataErrorView,
> {
    let at = first_metadata_section(sections);
    if at < sections.len() {
        match sections[at as int].data {
            Ok(data) => Ok(data),
            Err(message) => Err(MetadataErrorView::ParseError(message)),
        }
    } else {
        Err(MetadataErrorView::NotFound)
    }
}

/// The metadata of a file, from what parsing it gave.
pub open spec fn loaded(parsed: Result<Seq<ContainerSectionView>, Seq<char>>) -> Result<
    Seq<u8>,
    MetadataErrorView,
> {
    match parsed {
        Ok(sections) => located(sections),
        Err(message) => Err(MetadataErrorView::ParseError(message)),
    }
}

/// A result of loading as the contracts see it.
pub open spec fn result_view(result: Result<Vec<u8>, MetadataError>) -> Result<
    Seq<u8>,
    MetadataErrorView,
> {
    match result {
        Ok(data) => Ok(data@),
        Err(e) => Err(e@),
    }
}

/// A result of parsing as the contracts see it.
pub open spec fn parsed_view(parsed: Result<Vec<ContainerSection>, String>) -> Result<
    Seq<ContainerSectionView>,
    Seq<char>,
> {
    match parsed {
        Ok(sections) => Ok(section_views(sections@)),
        Err(message) => Err(message@),
    }
}

/// The first metadata section is the one at `at` when no earlier section is
/// one, and `at` is the number of sections when none is one.
proof fn lemma_first_metadata_section(sections: Seq<ContainerSectionView>, at: int)
    requires
        0 <= at <= sections.len(),
        at < sections.len() ==> is_metadata_section(sections[at]),
        forall|k: int| 0 <= k < at ==> !is_metadata_section(sections[k]),
    ensures
        first_metadata_section(sections) == at,
    decreases sections.len(),
{
    if sections.len() != 0 && at != 0 {
        let rest = sections.drop_first();
        assert(!is_metadata_section(sections[0]));
        assert forall|k: int| 0 <= k < at - 1 implies !is_metadata_section(rest[k]) by {
            assert(rest[k] == sections[k + 1]);
        }
        lemma_first_metadata_section(rest, at - 1);
    }
}

/// Parses an object file with `object::File::parse` and hands out its
/// sections in the order of the file: for each the bytes of its name, where
/// `ObjectSection::name` gives one, and what `ObjectSection::data` gives.
/// Errors come as their `Debug` text.
#[verifier::external_body]
fn parse_container(file: &[u8]) -> (parsed: Result<Vec<ContainerSection>, String>)
    ensures
        parsed_view(parsed) == container_sections(file@),
{
    let obj = object::File::parse(file).map_err(|e| format!("{:?}", e))?;
    Ok(
        obj.sections().map(
            |s|
                ContainerSection {
                    name: s.name().ok().map(|n| n.as_bytes().to_vec()),
                    data: s.data().map(|d| d.to_vec()).map_err(|e| format!("{:?}", e)),
                },
        ).collect(),
    )
}

/// Whether `needle` occurs at position `at` of `haystack`.
fn matches_at(haystack: &[u8], needle: &[u8], at: usize) -> (found: bool)
    requires
        at + needle@.len() <= haystack@.len(),
    ensures
        found == occurs_at(haystack@, needle@, at as int),
{
    let total = haystack.len();
    let mut k: usize = 0;
    while k < needle.len()
        invariant
            k <= needle.len(),
            at + needle@.len() <= haystack@.len() == total,
            forall|j: int| 0 <= j < k ==> haystack@[at + j] == needle@[j],
        decreases needle.len() - k,
    {
        if haystack[at + k] != needle[k] {
            assert(haystack@.subrange(at as int, at + needle@.len())[k as int]
                != needle@[k as int]);
            return false;
        }
        k = k + 1;
    }
    assert(haystack@.subrange(at as int, at + needle@.len()) =~= needle@);
    true
}

/// Whether `needle` occurs in `haystack`.
pub fn contains(haystack: &[u8], needle: &[u8]) -> (found: bool)
    ensures
        found == contains_bytes(haystack@, needle@),
{
    if needle.len() > haystack.len() {
        return false;
    }
    if needle.len() == 0 {
        assert(haystack@.subrange(0, 0) =~= needle@);
        assert(occurs_at(haystack@, needle@, 0));
        return true;
    }
    let last = haystack.len() - needle.len();
    let mut at: usize = 0;
    while at <= last
        invariant
            at <= last + 1,
            needle@.len() > 0,
            last == haystack@.len() - needle@.len(),
            haystack@.len() <= usize::MAX,
            forall|k: int| 0 <= k < at ==> !occurs_at(haystack@, needle@, k),
        decreases last + 1 - at,
    {
        if matches_at(haystack, needle, at) {
            return true;
        }
        at = at + 1;
    }
    false
}

/// The marker by which a metadata section is known.
fn marker() -> (bytes: [u8; 14])
    ensures
        bytes@ == metadata_marker(),
{
    let bytes: [u8; 14] = [
        0x2e,
        0x63,
        0x6c,
        0x69,
        0x66,
        0x5f,
        0x6d,
        0x65,
        0x74,
        0x61,
        0x64,
        0x61,
        0x74,
        0x61,
    ];
    assert(bytes@ =~= metadata_marker());
    bytes
}

/// Copies `bytes`.
fn copy_bytes(bytes: &Vec<u8>) -> (copy: Vec<u8>)
    ensures
        copy@ == bytes@,
{
    let mut copy: Vec<u8> = Vec::new();
    copy.extend_from_slice(bytes.as_slice());
    assert(copy@ =~= bytes@);
    copy
}

/// Scans the sections in their order and returns the contents of the first
/// one whose name contains `.clif_metadata`.
pub fn find_metadata(sections: &Vec<ContainerSection>) -> (result: Result<Vec<u8>, MetadataError>)
    ensures
        result_view(result) == located(section_views(sections@)),
{
    let marker = marker();
    let ghost views = section_views(sections@);
    let mut i: usize = 0;
    while i < sections.len()
        invariant
            i <= sections.len(),
            marker@ == metadata_marker(),
            views == section_views(sections@),
            forall|k: int| 0 <= k < i ==> !is_metadata_section(views[k]),
        decreases sections.len() - i,
    {
        let found = match &sections[i].name {
            Some(name) => contains(name.as_slice(), marker.as_slice()),
            None => false,
        };
        assert(found == is_metadata_section(views[i as int]));
        if found {
            proof {
                lemma_first_metadata_section(views, i as int);
            }
            return match &sections[i].data {
                Ok(data) => Ok(copy_bytes(data)),
                Err(message) => Err(MetadataError::ParseError(message.clone())),
            };
        }
        i = i + 1;
    }
    proof {
        lemma_first_metadata_section(views, sections.len() as int);
    }
    Err(MetadataError::NotFound)
}

impl CraneliftMetadataLoader {
    /// Loads the metadata of an rlib from the bytes of its object file.
    pub fn get_rlib_metadata(&self, file: &[u8]) -> (result: Result<Vec<u8>, MetadataError>)
        ensures
            result_view(result) == loaded(container_sections(file@)),
    {
        match parse_container(file) {
            Ok(sections) => find_metadata(&sections),
            Err(message) => Err(MetadataError::ParseError(message)),
        }
    }

    /// Loads the metadata of a dylib from the bytes of its object file.
    pub fn get_dylib_metadata(&self, file: &[u8]) -> (result: Result<Vec<u8>, MetadataError>)
        ensures
            result_view(result) == loaded(container_sections(file@)),
    {
        self.get_rlib_metadata(file)
    }
}

impl MetadataError {
    /// The error as text.
    pub fn message(&self) -> (text: String)
        ensures
            text@ == match self@ {
                MetadataErrorView::ParseError(message) => message,
                MetadataErrorView::NotFound => "couldn't find metadata entry"@,
            },
    {
        match self {
            MetadataError::ParseError(message) => message.clone(),
            MetadataError::NotFound => "couldn't find metadata entry".to_owned(),
        }
    }
}

} // verus!
