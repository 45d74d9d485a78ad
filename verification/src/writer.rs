//! The relocating section writer: the bytes of one section, with every
//! address and section offset that is not known yet left as zeros and
//! recorded as a relocation.

use crate::debuginfo::DebugContext;
use crate::endian::{encode_word, fits_in, word_bytes, Endian};
use crate::unit::Address;
use vstd::prelude::*;

verus! {

/// The sections that a writer can be asked to refer to.
#[derive(Clone, Copy, Debug, PartialEq, Eq, Structural)]
pub enum SectionId {
    DebugAbbrev,
    DebugInfo,
    DebugLine,
    DebugLineStr,
    DebugLoc,
    DebugLocLists,
    DebugMacinfo,
    DebugRanges,
    DebugRngLists,
    DebugStr,
}

impl SectionId {
    /// The ELF name of the section.
    pub open spec fn name(self) -> Seq<char> {
        match self {
            SectionId::DebugAbbrev => ".debug_abbrev"@,
            SectionId::DebugInfo => ".debug_info"@,
            SectionId::DebugLine => ".debug_line"@,
            SectionId::DebugLineStr => ".debug_line_str"@,
            SectionId::DebugLoc => ".debug_loc"@,
            SectionId::DebugLocLists => ".debug_loclists"@,
            SectionId::DebugMacinfo => ".debug_macinfo"@,
            SectionId::DebugRanges => ".debug_ranges"@,
            SectionId::DebugRngLists => ".debug_rnglists"@,
            SectionId::DebugStr => ".debug_str"@,
        }
    }
}

/// Why a write was refused.
#[derive(Clone, Copy, Debug, PartialEq, Eq, Structural)]
pub enum WriteError {
    /// The offset lies beyond the end of the section.
    OffsetOutOfBounds,
    /// The bytes would reach beyond the end of the section.
    LengthOutOfBounds,
    /// The value does not fit the size.
    ValueTooLarge,
    /// A word of this many bytes cannot be written.
    UnsupportedWordSize(u8),
    /// The address names a code symbol that does not exist.
    InvalidAddress,
}

/// A deferred patch: `size` bytes at `offset` of the section stand for the
/// address of `name` plus `addend`.
#[derive(Debug, PartialEq, Eq)]
pub struct DebugReloc {
    pub offset: u64,
    pub size: u8,
    pub name: String,
    pub addend: i64,
}

/// A relocation as the contracts see it.
pub struct DebugRelocView {
    pub offset: u64,
    pub size: u8,
    pub name: Seq<char>,
    pub addend: i64,
}

impl View for DebugReloc {
    type V = DebugRelocView;

    open spec fn view(&self) -> DebugRelocView {
        DebugRelocView { offset: self.offset, size: self.size, name: self.name@, addend: self.addend }
    }
}

/// A writer as the contracts see it.
pub struct WriterView {
    pub endian: Endian,
    pub bytes: Seq<u8>,
    pub relocs: Seq<DebugRelocView>,
}

/// The writer of one section.
pub struct WriterRelocate<'a> {
    ctx: &'a DebugContext,
    relocs: Vec<DebugReloc>,
    writer: Vec<u8>,
    endian: Endian,
}

/// A word can be written in 1, 2, 4 or 8 bytes.
pub open spec fn word_size_supported(size: u8) -> bool {
    size == 1 || size == 2 || size == 4 || size == 8
}

/// `n` zero bytes.
pub open spec fn zeros(n: nat) -> Seq<u8> {
    Seq::new(n, |i: int| 0u8)
}

/// `bytes` with `patch` in place of what stood at `offset`.
pub open spec fn patched(bytes: Seq<u8>, offset: int, patch: Seq<u8>) -> Seq<u8> {
    Seq::new(
        bytes.len(),
        |i: int|
            if offset <= i < offset + patch.len() {
                patch[i - offset]
            } else {
                bytes[i]
            },
    )
}

/// The window of `reloc` lies within `bytes` and holds zeros only.
pub open spec fn window_zeroed(bytes: Seq<u8>, reloc: DebugRelocView) -> bool {
    &&& word_size_supported(reloc.size)
    &&& reloc.offset + reloc.size <= bytes.len()
    &&& forall|k: int| reloc.offset <= k < reloc.offset + reloc.size ==> bytes[k] == 0u8
}

/// Every relocation has a zeroed window.
pub open spec fn windows_zeroed(bytes: Seq<u8>, relocs: Seq<DebugRelocView>) -> bool {
    forall|i: int| 0 <= i < relocs.len() ==> window_zeroed(bytes, #[trigger] relocs[i])
}

/// A patch of `patch` at `offset` puts no byte other than zero into the
/// window of a relocation.
pub open spec fn patch_spares_windows(
    relocs: Seq<DebugRelocView>,
    offset: int,
    patch: Seq<u8>,
) -> bool {
    forall|i: int, k: int|
        0 <= i < relocs.len() && 0 <= k < patch.len() && (#[trigger] relocs[i]).offset <= offset + k
            < relocs[i].offset + relocs[i].size ==> #[trigger] patch[k] == 0u8
}

/// The relocations of `relocs`, each as the contracts see it.
pub open spec fn reloc_views(relocs: Seq<DebugReloc>) -> Seq<DebugRelocView> {
    Seq::new(relocs.len(), |i: int| relocs[i]@)
}

/// Why a word of `size` bytes cannot hold `val`, if it cannot.
pub open spec fn word_refusal(val: u64, size: u8) -> Option<WriteError> {
    if !word_size_supported(size) {
        Some(WriteError::UnsupportedWordSize(size))
    } else if !fits_in(val, size as nat) {
        Some(WriteError::ValueTooLarge)
    } else {
        None
    }
}

/// Why `len` bytes cannot be patched at `offset` of a section of `total`
/// bytes, if they cannot.
pub open spec fn patch_refusal(total: nat, offset: nat, len: nat) -> Option<WriteError> {
    if offset > total {
        Some(WriteError::OffsetOutOfBounds)
    } else if len > total - offset {
        Some(WriteError::LengthOutOfBounds)
    } else {
        None
    }
}

/// The writer after `size` placeholder bytes were appended and recorded as
/// a relocation against `name`.
pub open spec fn deferred(w: WriterView, name: Seq<char>, addend: i64, size: u8) -> WriterView {
    WriterView {
        endian: w.endian,
        bytes: w.bytes + zeros(size as nat),
        relocs: w.relocs.push(
            DebugRelocView { offset: w.bytes.len() as u64, size, name, addend },
        ),
    }
}

/// The writer after the `size` bytes at `offset` were turned into a
/// placeholder and recorded as a relocation against `name`.
pub open spec fn deferred_at(
    w: WriterView,
    offset: usize,
    name: Seq<char>,
    addend: i64,
    size: u8,
) -> WriterView {
    WriterView {
        endian: w.endian,
        bytes: patched(w.bytes, offset as int, zeros(size as nat)),
        relocs: w.relocs.push(DebugRelocView { offset: offset as u64, size, name, addend }),
    }
}

/// The encoding of zero is all zeros, in either byte order.
proof fn lemma_zero_word(endian: Endian, size: nat)
    ensures
        word_bytes(endian, 0, size) == zeros(size),
{
    assert forall|s: u64| ((0u64 >> s) & 0xff) == 0 by {
        assert(((0u64 >> s) & 0xff) == 0) by (bit_vector);
    }
    assert(word_bytes(endian, 0, size) =~= zeros(size));
}

/// Appending bytes keeps every relocation window zeroed.
pub proof fn lemma_append_keeps_windows(bytes: Seq<u8>, relocs: Seq<DebugRelocView>, more: Seq<u8>)
    requires
        windows_zeroed(bytes, relocs),
    ensures
        windows_zeroed(bytes + more, relocs),
{
    assert forall|i: int| 0 <= i < relocs.len() implies window_zeroed(
        bytes + more,
        #[trigger] relocs[i],
    ) by {
        assert(window_zeroed(bytes, relocs[i]));
    }
}

/// A patch keeps every relocation window zeroed exactly when it puts
/// nothing but zeros into the windows.
pub proof fn lemma_patch_and_windows(
    bytes: Seq<u8>,
    relocs: Seq<DebugRelocView>,
    offset: int,
    patch: Seq<u8>,
)
    requires
        windows_zeroed(bytes, relocs),
        0 <= offset,
        offset + patch.len() <= bytes.len(),
    ensures
        windows_zeroed(patched(bytes, offset, patch), relocs) <==> patch_spares_windows(
            relocs,
            offset,
            patch,
        ),
{
    let after = patched(bytes, offset, patch);
    if patch_spares_windows(relocs, offset, patch) {
        assert forall|i: int| 0 <= i < relocs.len() implies window_zeroed(
            after,
            #[trigger] relocs[i],
        ) by {
            assert(window_zeroed(bytes, relocs[i]));
            assert forall|k: int|
                relocs[i].offset <= k < relocs[i].offset + relocs[i].size implies after[k]
                == 0u8 by {
                if offset <= k < offset + patch.len() {
                    assert(patch[k - offset] == 0u8);
                }
            }
        }
    }
    if windows_zeroed(after, relocs) {
        assert forall|i: int, k: int|
            0 <= i < relocs.len() && 0 <= k < patch.len() && (#[trigger] relocs[i]).offset <= offset
                + k < relocs[i].offset + relocs[i].size implies #[trigger] patch[k] == 0u8 by {
            assert(window_zeroed(after, relocs[i]));
            assert(after[offset + k] == patch[k]);
        }
    }
}

/// An offset into another section is never written as a value: whatever
/// the value is, the bytes that are appended are zeros, and exactly one
/// relocation is recorded, against the section and with the value as its
/// addend.
pub proof fn lemma_offset_is_deferred(w: WriterView, section: SectionId, val: i64, size: u8)
    requires
        w.bytes.len() <= u64::MAX,
    ensures
        ({
            let after = deferred(w, section.name(), val, size);
            &&& after.bytes.len() == w.bytes.len() + size
            &&& forall|k: int| w.bytes.len() <= k < after.bytes.len() ==> after.bytes[k] == 0u8
            &&& forall|k: int| 0 <= k < w.bytes.len() ==> after.bytes[k] == w.bytes[k]
            &&& after.relocs.len() == w.relocs.len() + 1
            &&& after.relocs.last() == (DebugRelocView {
                offset: w.bytes.len() as u64,
                size,
                name: section.name(),
                addend: val,
            })
            &&& forall|i: int| 0 <= i < w.relocs.len() ==> after.relocs[i] == w.relocs[i]
        }),
{
}

/// A placeholder that is appended and recorded has a zeroed window, and
/// leaves the earlier windows zeroed.
pub proof fn lemma_deferred_keeps_windows(w: WriterView, name: Seq<char>, addend: i64, size: u8)
    requires
        windows_zeroed(w.bytes, w.relocs),
        word_size_supported(size),
        w.bytes.len() <= u64::MAX,
    ensures
        windows_zeroed(deferred(w, name, addend, size).bytes, deferred(w, name, addend, size).relocs),
        window_zeroed(
            deferred(w, name, addend, size).bytes,
            deferred(w, name, addend, size).relocs.last(),
        ),
{
    let after = deferred(w, name, addend, size);
    lemma_append_keeps_windows(w.bytes, w.relocs, zeros(size as nat));
    assert forall|i: int| 0 <= i < after.relocs.len() implies window_zeroed(
        after.bytes,
        #[trigger] after.relocs[i],
    ) by {
        if i < w.relocs.len() {
            assert(after.relocs[i] == w.relocs[i]);
        }
    }
}

/// A placeholder that is patched in and recorded has a zeroed window, and
/// leaves the earlier windows zeroed.
pub proof fn lemma_deferred_at_keeps_windows(
    w: WriterView,
    offset: usize,
    name: Seq<char>,
    addend: i64,
    size: u8,
)
    requires
        windows_zeroed(w.bytes, w.relocs),
        word_size_supported(size),
        offset + size <= w.bytes.len(),
    ensures
        windows_zeroed(
            deferred_at(w, offset, name, addend, size).bytes,
            deferred_at(w, offset, name, addend, size).relocs,
        ),
        window_zeroed(
            deferred_at(w, offset, name, addend, size).bytes,
            deferred_at(w, offset, name, addend, size).relocs.last(),
        ),
{
    let after = deferred_at(w, offset, name, addend, size);
    assert(patch_spares_windows(w.relocs, offset as int, zeros(size as nat)));
    lemma_patch_and_windows(w.bytes, w.relocs, offset as int, zeros(size as nat));
    assert forall|i: int| 0 <= i < after.relocs.len() implies window_zeroed(
        after.bytes,
        #[trigger] after.relocs[i],
    ) by {
        if i < w.relocs.len() {
            assert(after.relocs[i] == w.relocs[i]);
        }
    }
}

impl<'a> View for WriterRelocate<'a> {
    type V = WriterView;

    closed spec fn view(&self) -> WriterView {
        WriterView { endian: self.endian, bytes: self.writer@, relocs: reloc_views(self.relocs@) }
    }
}

impl<'a> WriterRelocate<'a> {
    /// The debug context whose code symbols the writer resolves.
    pub closed spec fn context(&self) -> &DebugContext {
        self.ctx
    }

    /// Every relocation that was recorded has its window of zeros in the
    /// section.
    pub open spec fn windows_zeroed(&self) -> bool {
        windows_zeroed(self@.bytes, self@.relocs)
    }

    /// An empty section.
    pub fn new(ctx: &'a DebugContext, endian: Endian) -> (writer: WriterRelocate<'a>)
        ensures
            writer.context() == ctx,
            writer@.endian == endian,
            writer@.bytes == Seq::<u8>::empty(),
            writer@.relocs == Seq::<DebugRelocView>::empty(),
            writer.windows_zeroed(),
    {
        let writer = WriterRelocate { ctx, relocs: Vec::new(), writer: Vec::new(), endian };
        assert(writer@.relocs =~= Seq::<DebugRelocView>::empty());
        writer
    }

    /// The byte order of the words that are written.
    pub fn endian(&self) -> (endian: Endian)
        ensures
            endian == self@.endian,
    {
        self.endian
    }

    /// The length of the section so far.
    pub fn len(&self) -> (n: usize)
        ensures
            n == self@.bytes.len(),
    {
        self.writer.len()
    }

    /// Appends `bytes`.
    pub fn write(&mut self, bytes: &[u8])
        ensures
            final(self).context() == old(self).context(),
            final(self)@.endian == old(self)@.endian,
            final(self)@.bytes == old(self)@.bytes + bytes@,
            final(self)@.relocs == old(self)@.relocs,
            old(self).windows_zeroed() ==> final(self).windows_zeroed(),
    {
        self.writer.extend_from_slice(bytes);
        proof {
            assert(self@.bytes =~= old(self)@.bytes + bytes@);
            if old(self).windows_zeroed() {
                lemma_append_keeps_windows(old(self)@.bytes, old(self)@.relocs, bytes@);
            }
        }
    }

    /// Puts `bytes` in place of what stands at `offset`. The bytes must lie
    /// within the section as it is.
    pub fn write_at(&mut self, offset: usize, bytes: &[u8]) -> (result: Result<(), WriteError>)
        ensures
            final(self).context() == old(self).context(),
            final(self)@.endian == old(self)@.endian,
            final(self)@.relocs == old(self)@.relocs,
            match result {
                Ok(()) => {
                    &&& patch_refusal(old(self)@.bytes.len(), offset as nat, bytes@.len()) is None
                    &&& final(self)@.bytes == patched(old(self)@.bytes, offset as int, bytes@)
                },
                Err(e) => {
                    &&& patch_refusal(old(self)@.bytes.len(), offset as nat, bytes@.len()) == Some(e)
                    &&& final(self)@.bytes == old(self)@.bytes
                },
            },
            old(self).windows_zeroed() && result is Ok ==> (final(self).windows_zeroed()
                <==> patch_spares_windows(old(self)@.relocs, offset as int, bytes@)),
            old(self).windows_zeroed() && result is Err ==> final(self).windows_zeroed(),
    {
        if offset > self.writer.len() {
            return Err(WriteError::OffsetOutOfBounds);
        }
        if bytes.len() > self.writer.len() - offset {
            return Err(WriteError::LengthOutOfBounds);
        }
        let ghost before = self.writer@;
        let mut i: usize = 0;
        while i < bytes.len()
            invariant
                i <= bytes.len(),
                offset + bytes.len() <= before.len() <= usize::MAX,
                self.writer@.len() == before.len(),
                self.relocs == old(self).relocs,
                self.ctx == old(self).ctx,
                self.endian == old(self).endian,
                forall|k: int|
                    0 <= k < before.len() ==> self.writer@[k] == (if offset <= k < offset + i {
                        bytes@[k - offset]
                    } else {
                        before[k]
                    }),
            decreases bytes.len() - i,
        {
            self.writer.set(offset + i, bytes[i]);
            i = i + 1;
        }
        proof {
            assert(self@.bytes =~= patched(before, offset as int, bytes@));
            if old(self).windows_zeroed() {
                lemma_patch_and_windows(before, old(self)@.relocs, offset as int, bytes@);
            }
        }
        Ok(())
    }

    /// Appends `val` as a word of `size` bytes in the section's byte order.
    pub fn write_word(&mut self, val: u64, size: u8) -> (result: Result<(), WriteError>)
        ensures
            final(self).context() == old(self).context(),
            final(self)@.endian == old(self)@.endian,
            final(self)@.relocs == old(self)@.relocs,
            match result {
                Ok(()) => {
                    &&& word_refusal(val, size) is None
                    &&& final(self)@.bytes == old(self)@.bytes + word_bytes(
                        old(self)@.endian,
                        val,
                        size as nat,
                    )
                },
                Err(e) => {
                    &&& word_refusal(val, size) == Some(e)
                    &&& final(self)@.bytes == old(self)@.bytes
                },
            },
            old(self).windows_zeroed() ==> final(self).windows_zeroed(),
    {
        match check_word(val, size) {
            Some(e) => Err(e),
            None => {
                let word = encode_word(self.endian, val, size);
                self.write(word.as_slice());
                Ok(())
            },
        }
    }

    /// Puts `val`, as a word of `size` bytes in the section's byte order, in
    /// place of what stands at `offset`.
    pub fn write_word_at(&mut self, offset: usize, val: u64, size: u8) -> (result: Result<
        (),
        WriteError,
    >)
        ensures
            final(self).context() == old(self).context(),
            final(self)@.endian == old(self)@.endian,
            final(self)@.relocs == old(self)@.relocs,
            match result {
                Ok(()) => {
                    &&& word_refusal(val, size) is None
                    &&& patch_refusal(old(self)@.bytes.len(), offset as nat, size as nat) is None
                    &&& final(self)@.bytes == patched(
                        old(self)@.bytes,
                        offset as int,
                        word_bytes(old(self)@.endian, val, size as nat),
                    )
                },
                Err(e) => {
                    &&& final(self)@.bytes == old(self)@.bytes
                    &&& if word_refusal(val, size) is Some {
                        word_refusal(val, size) == Some(e)
                    } else {
                        patch_refusal(old(self)@.bytes.len(), offset as nat, size as nat) == Some(e)
                    }
                },
            },
            old(self).windows_zeroed() && result is Ok ==> (final(self).windows_zeroed()
                <==> patch_spares_windows(
                old(self)@.relocs,
                offset as int,
                word_bytes(old(self)@.endian, val, size as nat),
            )),
            old(self).windows_zeroed() && result is Err ==> final(self).windows_zeroed(),
    {
        match check_word(val, size) {
            Some(e) => Err(e),
            None => {
                let word = encode_word(self.endian, val, size);
                self.write_at(offset, word.as_slice())
            },
        }
    }

    /// Appends an address of `size` bytes. A known address is written as a
    /// word. An address relative to a code symbol is left as zeros and
    /// recorded as a relocation against the symbol's name.
    pub fn write_address(&mut self, address: Address, size: u8) -> (result: Result<(), WriteError>)
        ensures
            final(self).context() == old(self).context(),
            match address {
                Address::Absolute(val) => {
                    &&& final(self)@.endian == old(self)@.endian
                    &&& final(self)@.relocs == old(self)@.relocs
                    &&& match result {
                        Ok(()) => {
                            &&& word_refusal(val, size) is None
                            &&& final(self)@.bytes == old(self)@.bytes + word_bytes(
                                old(self)@.endian,
                                val,
                                size as nat,
                            )
                        },
                        Err(e) => {
                            &&& word_refusal(val, size) == Some(e)
                            &&& final(self)@.bytes == old(self)@.bytes
                        },
                    }
                },
                Address::Relative { symbol, addend } => match result {
                    Ok(()) => {
                        &&& symbol < old(self).context()@.symbol_names.len()
                        &&& word_size_supported(size)
                        &&& final(self)@ == deferred(
                            old(self)@,
                            old(self).context()@.symbol_names[symbol as int],
                            addend,
                            size,
                        )
                    },
                    Err(e) => {
                        &&& final(self)@ == old(self)@
                        &&& if symbol >= old(self).context()@.symbol_names.len() {
                            e == WriteError::InvalidAddress
                        } else {
                            !word_size_supported(size) && e == WriteError::UnsupportedWordSize(size)
                        }
                    },
                },
            },
            old(self).windows_zeroed() ==> final(self).windows_zeroed(),
    {
        match address {
            Address::Absolute(val) => self.write_word(val, size),
            Address::Relative { symbol, addend } => {
                if symbol >= self.ctx.symbol_count() {
                    return Err(WriteError::InvalidAddress);
                }
                if !(size == 1 || size == 2 || size == 4 || size == 8) {
                    return Err(WriteError::UnsupportedWordSize(size));
                }
                let name = self.ctx.symbol_name(symbol).clone();
                self.defer(name, addend, size);
                Ok(())
            },
        }
    }

    /// Appends an offset into `section` of `size` bytes: always as zeros
    /// with a relocation against the section, whose addend is `val`.
    pub fn write_offset(&mut self, val: usize, section: SectionId, size: u8) -> (result: Result<
        (),
        WriteError,
    >)
        ensures
            final(self).context() == old(self).context(),
            match result {
                Ok(()) => {
                    &&& word_size_supported(size)
                    &&& val <= i64::MAX
                    &&& final(self)@ == deferred(old(self)@, section.name(), val as i64, size)
                },
                Err(e) => {
                    &&& final(self)@ == old(self)@
                    &&& if !word_size_supported(size) {
                        e == WriteError::UnsupportedWordSize(size)
                    } else {
                        val > i64::MAX && e == WriteError::ValueTooLarge
                    }
                },
            },
            old(self).windows_zeroed() ==> final(self).windows_zeroed(),
    {
        if !(size == 1 || size == 2 || size == 4 || size == 8) {
            return Err(WriteError::UnsupportedWordSize(size));
        }
        if val as u64 > i64::MAX as u64 {
            return Err(WriteError::ValueTooLarge);
        }
        let name = self.ctx.section_name(section);
        self.defer(name, val as i64, size);
        Ok(())
    }

    /// Turns the `size` bytes at `offset` into an offset into `section`:
    /// zeros with a relocation against the section, whose addend is `val`.
    pub fn write_offset_at(&mut self, offset: usize, val: usize, section: SectionId, size: u8) -> (result:
        Result<(), WriteError>)
        ensures
            final(self).context() == old(self).context(),
            match result {
                Ok(()) => {
                    &&& word_size_supported(size)
                    &&& val <= i64::MAX
                    &&& patch_refusal(old(self)@.bytes.len(), offset as nat, size as nat) is None
                    &&& final(self)@ == deferred_at(
                        old(self)@,
                        offset,
                        section.name(),
                        val as i64,
                        size,
                    )
                },
                Err(e) => {
                    &&& final(self)@ == old(self)@
                    &&& if !word_size_supported(size) {
                        e == WriteError::UnsupportedWordSize(size)
                    } else if val > i64::MAX {
                        e == WriteError::ValueTooLarge
                    } else {
                        patch_refusal(old(self)@.bytes.len(), offset as nat, size as nat) == Some(e)
                    }
                },
            },
            old(self).windows_zeroed() ==> final(self).windows_zeroed(),
    {
        if !(size == 1 || size == 2 || size == 4 || size == 8) {
            return Err(WriteError::UnsupportedWordSize(size));
        }
        if val as u64 > i64::MAX as u64 {
            return Err(WriteError::ValueTooLarge);
        }
        if offset > self.writer.len() {
            return Err(WriteError::OffsetOutOfBounds);
        }
        if size as usize > self.writer.len() - offset {
            return Err(WriteError::LengthOutOfBounds);
        }
        let ghost before = self@;
        let name = self.ctx.section_name(section);
        let word = encode_word(self.endian, 0, size);
        proof {
            lemma_zero_word(self.endian, size as nat);
        }
        let patch = self.write_at(offset, word.as_slice());
        self.relocs.push(DebugReloc { offset: offset as u64, size, name, addend: val as i64 });
        proof {
            assert(self@.relocs =~= before.relocs.push(
                DebugRelocView {
                    offset: offset as u64,
                    size,
                    name: section.name(),
                    addend: val as i64,
                },
            ));
            if old(self).windows_zeroed() {
                lemma_deferred_at_keeps_windows(before, offset, section.name(), val as i64, size);
            }
        }
        Ok(())
    }

    /// Appends `size` zeros and records them as a relocation against
    /// `name`.
    fn defer(&mut self, name: String, addend: i64, size: u8)
        requires
            word_size_supported(size),
        ensures
            final(self).context() == old(self).context(),
            final(self)@ == deferred(old(self)@, name@, addend, size),
            old(self).windows_zeroed() ==> final(self).windows_zeroed(),
    {
        let ghost before = self@;
        let offset = self.writer.len() as u64;
        let word = encode_word(self.endian, 0, size);
        proof {
            lemma_zero_word(self.endian, size as nat);
        }
        self.write(word.as_slice());
        self.relocs.push(DebugReloc { offset, size, name, addend });
        proof {
            assert(self@.relocs =~= before.relocs.push(
                DebugRelocView { offset, size, name: name@, addend },
            ));
            if old(self).windows_zeroed() {
                lemma_deferred_keeps_windows(before, name@, addend, size);
            }
        }
    }

    /// The bytes of the section.
    pub fn slice(&self) -> (bytes: &[u8])
        ensures
            bytes@ == self@.bytes,
    {
        self.writer.as_slice()
    }

    /// The relocations that were recorded, in the order of their recording.
    pub fn relocs(&self) -> (relocs: &Vec<DebugReloc>)
        ensures
            reloc_views(relocs@) == self@.relocs,
    {
        &self.relocs
    }

    /// Takes the writer apart into the bytes of the section and its
    /// relocations.
    pub fn into_parts(self) -> (parts: (Vec<u8>, Vec<DebugReloc>))
        ensures
            parts.0@ == self@.bytes,
            reloc_views(parts.1@) == self@.relocs,
    {
        (self.writer, self.relocs)
    }
}

/// Tests whether a word of `size` bytes can hold `val`.
pub fn check_word(val: u64, size: u8) -> (refusal: Option<WriteError>)
    ensures
        refusal == word_refusal(val, size),
{
    if size == 1 {
        if val > 0xff {
            Some(WriteError::ValueTooLarge)
        } else {
            None
        }
    } else if size == 2 {
        if val > 0xffff {
            Some(WriteError::ValueTooLarge)
        } else {
            None
        }
    } else if size == 4 {
        if val > 0xffff_ffff {
            Some(WriteError::ValueTooLarge)
        } else {
            None
        }
    } else if size == 8 {
        None
    } else {
        Some(WriteError::UnsupportedWordSize(size))
    }
}

} // verus!
