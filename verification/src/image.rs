//! Loading kernels into a Domain's RAM.
//!
//! Guest RAM is a byte string; the index of a byte is its guest physical address.

use vstd::prelude::*;
use vstd::string::*;

use crate::bytes::{
    law_le32_reads_back, law_le64_reads_back, le32, le64, push_u32, push_u64, read_u16, read_u32,
    read_u64, same_bytes, splice, spliced, u16_at, u32_at, u64_at,
};
use crate::Error;

verus! {

pub const ELF_MAGIC: [u8; 4] = [0x7f, 0x45, 0x4c, 0x46];

pub const ELF_CLASS_64: u8 = 2;

pub const ELF_DATA_LITTLE_ENDIAN: u8 = 1;

pub const ELF_TYPE_EXECUTABLE: u16 = 2;

pub const ELF_MACHINE_X86_64: u16 = 0x3e;

pub const ELF_HEADER_SIZE: usize = 64;

pub const PROGRAM_HEADER_SIZE: usize = 56;

pub const PT_LOAD: u32 = 1;

pub const PT_NOTE: u32 = 4;

pub const MINIMUM_LOAD_GPA: u64 = 0x1_0000;

pub const XEN_ELFNOTE_PHYS32_ENTRY: u32 = 18;

pub const PVH_START_INFO_GPA: u64 = 0x4000;

pub const PVH_MODULE_LIST_GPA: u64 = 0x4040;

pub const PVH_MEMORY_MAP_GPA: u64 = 0x4080;

pub const PVH_COMMAND_LINE_GPA: u64 = 0x40c0;

pub const PVH_COMMAND_LINE_LIMIT: usize = 1024;

pub const XEN_HVM_START_MAGIC_VALUE: u32 = 0x336e_c578;

pub const XEN_HVM_MEMMAP_TYPE_RAM: u32 = 1;

pub const XEN_HVM_MEMMAP_TYPE_RESERVED: u32 = 2;

/// Where a loaded kernel starts and finds its boot information.
#[derive(Clone, Copy, Debug, PartialEq, Eq, Structural)]
pub struct GuestImage {
    entry: u64,
    boot_info: u64,
    loaded_end: u64,
}

impl GuestImage {
    pub closed spec fn spec_entry(self) -> u64 {
        self.entry
    }

    pub closed spec fn spec_boot_info(self) -> u64 {
        self.boot_info
    }

    pub closed spec fn spec_loaded_end(self) -> u64 {
        self.loaded_end
    }

    pub fn entry(self) -> (r: u64)
        ensures
            r == self.spec_entry(),
    {
        self.entry
    }

    pub fn boot_info(self) -> (r: u64)
        ensures
            r == self.spec_boot_info(),
    {
        self.boot_info
    }

    /// The end of the highest segment.
    pub fn loaded_end(self) -> (r: u64)
        ensures
            r == self.spec_loaded_end(),
    {
        self.loaded_end
    }
}

/// The fields of a program header that matter here.
#[derive(Clone, Copy, Debug, PartialEq, Eq, Structural)]
pub struct ProgramHeader {
    pub segment_type: u32,
    pub offset: u64,
    pub virtual_address: u64,
    pub physical_address: u64,
    pub file_size: u64,
    pub memory_size: u64,
}

/// Whether the bytes start with the header of a 64-bit x86 executable.
pub open spec fn has_elf_header(image: Seq<u8>) -> bool {
    &&& image.len() >= 64
    &&& image.subrange(0, 4) == ELF_MAGIC@
    &&& image[4] == ELF_CLASS_64
    &&& image[5] == ELF_DATA_LITTLE_ENDIAN
    &&& u16_at(image, 16) == ELF_TYPE_EXECUTABLE
    &&& u16_at(image, 18) == ELF_MACHINE_X86_64
    &&& u16_at(image, 54) == PROGRAM_HEADER_SIZE
}

pub open spec fn elf_entry(image: Seq<u8>) -> u64 {
    u64_at(image, 24)
}

pub open spec fn program_header_count(image: Seq<u8>) -> int {
    u16_at(image, 56) as int
}

/// Program header `index`, if the image holds all of it.
pub open spec fn program_header_at(image: Seq<u8>, index: int) -> Option<ProgramHeader> {
    let o = u64_at(image, 32) + 56 * index;
    if o + 56 <= image.len() {
        Some(
            ProgramHeader {
                segment_type: u32_at(image, o),
                offset: u64_at(image, o + 8),
                virtual_address: u64_at(image, o + 16),
                physical_address: u64_at(image, o + 24),
                file_size: u64_at(image, o + 32),
                memory_size: u64_at(image, o + 40),
            },
        )
    } else {
        None
    }
}

/// Checks the header of a 64-bit x86 executable.
fn elf_header(image: &[u8]) -> (r: Result<(), Error>)
    ensures
        r == (if has_elf_header(image@) {
            Ok(())
        } else {
            Err(Error::InvalidImage)
        }),
{
    if image.len() < ELF_HEADER_SIZE {
        return Err(Error::InvalidImage);
    }
    let magic = ELF_MAGIC;
    if !same_bytes(vstd::slice::slice_subrange(image, 0, 4), &magic) || image[4] != ELF_CLASS_64
        || image[5] != ELF_DATA_LITTLE_ENDIAN || read_u16(image, 16).unwrap() != ELF_TYPE_EXECUTABLE
        || read_u16(image, 18).unwrap() != ELF_MACHINE_X86_64 || read_u16(image, 54).unwrap() as usize
        != PROGRAM_HEADER_SIZE {
        return Err(Error::InvalidImage);
    }
    Ok(())
}

/// Reads program header `index`.
fn program_header(image: &[u8], index: u16) -> (r: Result<ProgramHeader, Error>)
    requires
        has_elf_header(image@),
    ensures
        r == (match program_header_at(image@, index as int) {
            Some(h) => Ok::<_, Error>(h),
            None => Err(Error::InvalidImage),
        }),
{
    let table: u64 = read_u64(image, 32).unwrap();
    let len: u64 = image.len() as u64;
    if table > len || (index as u64) * 56 + 56 > len - table {
        return Err(Error::InvalidImage);
    }
    let offset: usize = table as usize + (index as usize) * PROGRAM_HEADER_SIZE;
    Ok(
        ProgramHeader {
            segment_type: read_u32(image, offset).unwrap(),
            offset: read_u64(image, offset + 8).unwrap(),
            virtual_address: read_u64(image, offset + 16).unwrap(),
            physical_address: read_u64(image, offset + 24).unwrap(),
            file_size: read_u64(image, offset + 32).unwrap(),
            memory_size: read_u64(image, offset + 40).unwrap(),
        },
    )
}

/// RAM with a segment's file bytes, and zeros up to its size in memory.
pub open spec fn with_segment(ram: Seq<u8>, image: Seq<u8>, h: ProgramHeader) -> Seq<u8> {
    let at = h.physical_address as int;
    Seq::new(
        ram.len(),
        |i: int|
            if at <= i < at + h.file_size {
                image[h.offset + (i - at)]
            } else if at <= i < at + h.memory_size {
                0
            } else {
                ram[i]
            },
    )
}

/// Copies a segment into RAM.
fn place_segment(image: &[u8], h: &ProgramHeader, ram: &mut Vec<u8>)
    requires
        h.file_size <= h.memory_size,
        h.offset + h.file_size <= image@.len(),
        h.physical_address + h.memory_size <= old(ram)@.len(),
    ensures
        final(ram)@ == with_segment(old(ram)@, image@, *h),
{
    let limit: usize = ram.len();
    assert(h.offset + h.file_size <= image.len());
    let at: usize = h.physical_address as usize;
    let from: usize = h.offset as usize;
    let copied: usize = h.file_size as usize;
    let size: usize = h.memory_size as usize;
    let mut i: usize = 0;
    while i < size
        invariant
            i <= size,
            at + size <= limit,
            limit == ram@.len() == old(ram)@.len(),
            from + copied <= image.len(),
            at == h.physical_address,
            from == h.offset,
            copied == h.file_size,
            size == h.memory_size,
            forall|j: int|
                0 <= j < ram@.len() ==> #[trigger] ram@[j] == (if at <= j < at + i {
                    with_segment(old(ram)@, image@, *h)[j]
                } else {
                    old(ram)@[j]
                }),
        decreases size - i,
    {
        ram[at + i] = if i < copied {
            image[from + i]
        } else {
            0
        };
        i += 1;
    }
    assert(ram@ =~= with_segment(old(ram)@, image@, *h));
}

/// The verdict on one loadable segment of a native kernel.
pub open spec fn elf_segment_error(
    image: Seq<u8>,
    h: ProgramHeader,
    ram_size: int,
) -> Option<Error> {
    if h.physical_address != h.virtual_address || h.virtual_address < MINIMUM_LOAD_GPA || h.file_size
        > h.memory_size || h.offset + h.file_size > image.len() {
        Some(Error::InvalidImage)
    } else if h.physical_address + h.memory_size > ram_size {
        Some(Error::ImageTooLarge)
    } else {
        None
    }
}

/// The verdict on one loadable segment of a PVH kernel.
pub open spec fn pvh_segment_error(
    image: Seq<u8>,
    h: ProgramHeader,
    usable: int,
) -> Option<Error> {
    if h.physical_address < MINIMUM_LOAD_GPA || h.file_size > h.memory_size || h.offset + h.file_size
        > image.len() || h.physical_address + h.memory_size > u64::MAX {
        Some(Error::InvalidImage)
    } else if h.physical_address + h.memory_size > usable {
        Some(Error::ImageTooLarge)
    } else {
        None
    }
}

/// How far loading has come.
pub struct Loading {
    /// The RAM so far.
    pub ram: Seq<u8>,
    /// The end of the highest segment, or zero.
    pub end: int,
    /// Whether there was any segment.
    pub loaded: bool,
    /// What stopped it.
    pub error: Option<Error>,
}

/// The first `n` program headers loaded in order, up to the first that is wrong.
/// `limit` is the RAM that a segment may use.
pub open spec fn load_segments(
    image: Seq<u8>,
    ram: Seq<u8>,
    pvh: bool,
    limit: int,
    n: int,
) -> Loading
    decreases n,
{
    if n <= 0 {
        Loading { ram, end: 0, loaded: false, error: None }
    } else {
        let before = load_segments(image, ram, pvh, limit, n - 1);
        if before.error is Some {
            before
        } else {
            match program_header_at(image, n - 1) {
                None => Loading { error: Some(Error::InvalidImage), ..before },
                Some(h) => if h.segment_type != PT_LOAD {
                    before
                } else {
                    let error = if pvh {
                        pvh_segment_error(image, h, limit)
                    } else {
                        elf_segment_error(image, h, limit)
                    };
                    if error is Some {
                        Loading { error, ..before }
                    } else {
                        let end = h.physical_address + h.memory_size;
                        Loading {
                            ram: with_segment(before.ram, image, h),
                            end: if end > before.end {
                                end
                            } else {
                                before.end
                            },
                            loaded: true,
                            error: None,
                        }
                    }
                },
            }
        }
    }
}

proof fn lemma_load_error_is_final(
    image: Seq<u8>,
    ram: Seq<u8>,
    pvh: bool,
    limit: int,
    n: int,
    m: int,
)
    requires
        0 <= n <= m,
        load_segments(image, ram, pvh, limit, n).error is Some,
    ensures
        load_segments(image, ram, pvh, limit, m) == load_segments(image, ram, pvh, limit, n),
    decreases m - n,
{
    if n < m {
        lemma_load_error_is_final(image, ram, pvh, limit, n, m - 1);
    }
}

/// Loads every segment; gives the end of the highest one, if there was any.
fn load_all(
    image: &[u8],
    ram: &mut Vec<u8>,
    pvh: bool,
    limit: u64,
) -> (r: Result<Option<u64>, Error>)
    requires
        has_elf_header(image@),
        limit <= old(ram)@.len(),
    ensures
        ({
            let l = load_segments(
                image@,
                old(ram)@,
                pvh,
                limit as int,
                program_header_count(image@),
            );
            &&& final(ram)@ == l.ram
            &&& final(ram)@.len() == old(ram)@.len()
            &&& match r {
                Ok(Some(end)) => l.error is None && l.loaded && l.end == end && end <= limit,
                Ok(None) => l.error is None && !l.loaded,
                Err(e) => l.error == Some(e),
            }
        }),
{
    let count: u16 = read_u16(image, 56).unwrap();
    let mut loaded = false;
    let mut load_end: u64 = 0;
    let mut index: u16 = 0;
    while index < count
        invariant
            has_elf_header(image@),
            limit <= old(ram)@.len(),
            ram@.len() == old(ram)@.len(),
            count == program_header_count(image@),
            index <= count,
            load_end <= limit,
            load_segments(image@, old(ram)@, pvh, limit as int, index as int) == (Loading {
                ram: ram@,
                end: load_end as int,
                loaded,
                error: None,
            }),
        decreases count - index,
    {
        proof {
            if load_segments(image@, old(ram)@, pvh, limit as int, index + 1).error is Some {
                lemma_load_error_is_final(
                    image@,
                    old(ram)@,
                    pvh,
                    limit as int,
                    index + 1,
                    count as int,
                );
            }
        }
        let h = program_header(image, index)?;
        if h.segment_type == PT_LOAD {
            if !pvh && h.physical_address != h.virtual_address {
                return Err(Error::InvalidImage);
            }
            if h.physical_address < MINIMUM_LOAD_GPA || h.file_size > h.memory_size {
                return Err(Error::InvalidImage);
            }
            let len: u64 = image.len() as u64;
            if h.offset > len || h.file_size > len - h.offset {
                return Err(Error::InvalidImage);
            }
            let end: u64 = match h.physical_address.checked_add(h.memory_size) {
                Some(end) => end,
                None => {
                    return Err(if pvh { Error::InvalidImage } else { Error::ImageTooLarge });
                },
            };
            if end > limit {
                return Err(Error::ImageTooLarge);
            }
            place_segment(image, &h, ram);
            if end > load_end {
                load_end = end;
            }
            loaded = true;
        }
        index += 1;
    }
    Ok(
        if loaded {
            Some(load_end)
        } else {
            None
        },
    )
}

/// What loading a native kernel gives, and the RAM after it.
pub open spec fn elf_outcome(image: Seq<u8>, ram: Seq<u8>) -> (Result<u64, Error>, Seq<u8>) {
    let l = load_segments(image, ram, false, ram.len() as int, program_header_count(image));
    if !has_elf_header(image) {
        (Err(Error::InvalidImage), ram)
    } else if elf_entry(image) < MINIMUM_LOAD_GPA || elf_entry(image) >= ram.len() {
        (Err(Error::ImageTooLarge), ram)
    } else if l.error is Some {
        (Err(l.error->0), l.ram)
    } else if !l.loaded {
        (Err(Error::InvalidImage), l.ram)
    } else {
        (Ok(elf_entry(image)), l.ram)
    }
}

/// Where the highest segment of a native kernel ends.
pub open spec fn elf_end(image: Seq<u8>, ram: Seq<u8>) -> int {
    load_segments(image, ram, false, ram.len() as int, program_header_count(image)).end
}

/// Copies the loadable parts of a fixed-address x86_64 ELF into guest RAM.
///
/// No vCPU may be executing from `ram` yet.
pub fn load_elf(image: &[u8], ram: &mut Vec<u8>) -> (r: Result<GuestImage, Error>)
    ensures
        final(ram)@ == elf_outcome(image@, old(ram)@).1,
        match elf_outcome(image@, old(ram)@).0 {
            Ok(entry) => r matches Ok(g) && g.spec_entry() == entry && g.spec_boot_info() == 0
                && g.spec_loaded_end() == elf_end(image@, old(ram)@),
            Err(e) => r == Err::<GuestImage, Error>(e),
        },
{
    elf_header(image)?;
    let entry: u64 = read_u64(image, 24).unwrap();
    let size: u64 = ram.len() as u64;
    if entry < MINIMUM_LOAD_GPA || entry >= size {
        return Err(Error::ImageTooLarge);
    }
    match load_all(image, ram, false, size)? {
        Some(loaded_end) => Ok(GuestImage { entry, boot_info: 0, loaded_end }),
        None => Err(Error::InvalidImage),
    }
}

/// The next multiple of four.
#[verifier::opaque]
pub open spec fn align_4(n: int) -> int {
    (n + 3) / 4 * 4
}

/// The next page boundary.
#[verifier::opaque]
pub open spec fn align_page(n: int) -> int {
    (n + 0xfff) / 0x1000 * 0x1000
}

/// `Xen` and a zero byte.
pub const XEN_NOTE_NAME: [u8; 4] = [0x58, 0x65, 0x6e, 0];

/// What is found among the notes of one segment.
pub enum NoteSearch {
    /// A note is cut short, or the entry has an impossible size.
    Invalid,
    /// There is no entry note.
    Absent,
    /// The entry point.
    Entry(u64),
}

/// Searches the notes from `offset` on for the 32-bit entry point.
pub open spec fn search_notes(notes: Seq<u8>, offset: int) -> NoteSearch
    decreases
            (if offset < notes.len() {
                notes.len() - offset
            } else {
                0
            }),
{
    proof {
        reveal(align_4);
    }
    let name_size = u32_at(notes, offset) as int;
    let description_size = u32_at(notes, offset + 4) as int;
    let name_end = offset + 12 + name_size;
    let description = align_4(name_end);
    let description_end = description + description_size;
    if offset < 0 || offset >= notes.len() {
        NoteSearch::Absent
    } else if offset + 12 > notes.len() || name_end > notes.len() || description_end > notes.len() {
        NoteSearch::Invalid
    } else if u32_at(notes, offset + 8) == XEN_ELFNOTE_PHYS32_ENTRY && notes.subrange(
        offset + 12,
        name_end,
    ) == XEN_NOTE_NAME@ {
        if description_size == 4 {
            NoteSearch::Entry(u32_at(notes, description) as u64)
        } else if description_size == 8 {
            NoteSearch::Entry(u64_at(notes, description))
        } else {
            NoteSearch::Invalid
        }
    } else {
        search_notes(notes, align_4(description_end))
    }
}

/// The entry point that the note segments from header `index` on declare.
pub open spec fn pvh_entry_of(image: Seq<u8>, index: int) -> Option<u64>
    decreases program_header_count(image) - index,
{
    if index >= program_header_count(image) {
        None
    } else {
        match program_header_at(image, index) {
            None => None,
            Some(h) => if h.segment_type != PT_NOTE {
                pvh_entry_of(image, index + 1)
            } else if h.offset + h.file_size > image.len() {
                None
            } else {
                match search_notes(image.subrange(h.offset as int, h.offset + h.file_size), 0) {
                    NoteSearch::Invalid => None,
                    NoteSearch::Entry(entry) => Some(entry),
                    NoteSearch::Absent => pvh_entry_of(image, index + 1),
                }
            },
        }
    }
}

/// How many bytes it takes to the next multiple of four.
fn padding_to_4(n: u64) -> (r: u64)
    ensures
        r < 4,
        n + r == align_4(n as int),
{
    reveal(align_4);
    (4 - n % 4) % 4
}

/// How many bytes it takes to the next page.
fn padding_to_page(n: u64) -> (r: u64)
    ensures
        r < 0x1000,
        n + r == align_page(n as int),
{
    reveal(align_page);
    (0x1000 - n % 0x1000) % 0x1000
}

/// Rounding up to a page does not pass a page boundary above.
proof fn lemma_page_below(n: int, limit: int)
    requires
        0 <= n <= limit,
        limit % 0x1000 == 0,
    ensures
        n <= align_page(n) <= limit,
{
    reveal(align_page);
}

/// Loading a native kernel does not change the size of the RAM.
pub proof fn lemma_loaded_length(image: Seq<u8>, ram: Seq<u8>)
    ensures
        elf_outcome(image, ram).1.len() == ram.len(),
{
    lemma_segments_length(image, ram, program_header_count(image));
}

proof fn lemma_segments_length(image: Seq<u8>, ram: Seq<u8>, n: int)
    ensures
        load_segments(image, ram, false, ram.len() as int, n).ram.len() == ram.len(),
    decreases n,
{
    if n > 0 {
        lemma_segments_length(image, ram, n - 1);
    }
}

/// Puts a boot module on the first page behind a native kernel, below `limit`.
/// Gives its address and size.
pub fn load_boot_module(
    module: &[u8],
    loaded_end: u64,
    limit: u64,
    ram: &mut Vec<u8>,
) -> (r: Result<(u64, u64), Error>)
    requires
        limit <= old(ram)@.len(),
    ensures
        ({
            let address = align_page(loaded_end as int);
            if address + module@.len() > limit {
                r == Err::<(u64, u64), Error>(Error::ImageTooLarge) && final(ram)@ == old(ram)@
            } else {
                &&& r == Ok::<(u64, u64), Error>((address as u64, module@.len() as u64))
                &&& final(ram)@ == spliced(old(ram)@, address, module@)
            }
        }),
{
    let padding: u64 = padding_to_page(loaded_end);
    let size: u64 = module.len() as u64;
    if loaded_end > limit || padding > limit - loaded_end || size > limit - loaded_end - padding {
        return Err(Error::ImageTooLarge);
    }
    let address: u64 = loaded_end + padding;
    assert(address + size <= ram.len());
    splice(ram, address as usize, module);
    Ok((address, size))
}

/// Searches the notes of one segment for the entry point.
fn find_entry_note(notes: &[u8]) -> (r: NoteSearch)
    ensures
        r == search_notes(notes@, 0),
{
    let len: u64 = notes.len() as u64;
    let mut offset: u64 = 0;
    while offset < len
        invariant
            len == notes.len(),
            search_notes(notes@, 0) == search_notes(notes@, offset as int),
        decreases
                (if len > offset {
                    len - offset
                } else {
                    0
                }),
    {
        if len - offset < 12 {
            return NoteSearch::Invalid;
        }
        let at: usize = offset as usize;
        assert(at == offset && at + 12 <= notes.len());
        let name_size: u64 = read_u32(notes, at).unwrap() as u64;
        let description_size: u64 = read_u32(notes, at + 4).unwrap() as u64;
        let kind: u32 = read_u32(notes, at + 8).unwrap();
        if name_size > len - offset - 12 {
            return NoteSearch::Invalid;
        }
        let name_end: u64 = offset + 12 + name_size;
        let padding: u64 = padding_to_4(name_end);
        if padding > len - name_end || description_size > len - name_end - padding {
            return NoteSearch::Invalid;
        }
        let description: u64 = name_end + padding;
        let description_end: u64 = description + description_size;
        let name = vstd::slice::slice_subrange(notes, at + 12, name_end as usize);
        let xen = XEN_NOTE_NAME;
        if kind == XEN_ELFNOTE_PHYS32_ENTRY && same_bytes(name, &xen) {
            return if description_size == 4 {
                NoteSearch::Entry(read_u32(notes, description as usize).unwrap() as u64)
            } else if description_size == 8 {
                NoteSearch::Entry(read_u64(notes, description as usize).unwrap())
            } else {
                NoteSearch::Invalid
            };
        }
        let tail: u64 = padding_to_4(description_end);
        if tail > len - description_end {
            assert(search_notes(notes@, align_4(description_end as int)) == NoteSearch::Absent);
            return NoteSearch::Absent;
        }
        offset = description_end + tail;
    }
    NoteSearch::Absent
}

/// The entry point that a PVH kernel declares in its notes.
fn pvh_entry(image: &[u8]) -> (r: Result<u64, Error>)
    requires
        has_elf_header(image@),
    ensures
        r == (match pvh_entry_of(image@, 0) {
            Some(entry) => Ok::<u64, Error>(entry),
            None => Err(Error::InvalidImage),
        }),
{
    let count: u16 = read_u16(image, 56).unwrap();
    let mut index: u16 = 0;
    while index < count
        invariant
            has_elf_header(image@),
            index <= count == program_header_count(image@),
            pvh_entry_of(image@, 0) == pvh_entry_of(image@, index as int),
        decreases count - index,
    {
        let h = program_header(image, index)?;
        if h.segment_type == PT_NOTE {
            let len: u64 = image.len() as u64;
            if h.offset > len || h.file_size > len - h.offset {
                return Err(Error::InvalidImage);
            }
            let start: usize = h.offset as usize;
            let end: usize = start + h.file_size as usize;
            let notes = vstd::slice::slice_subrange(image, start, end);
            match find_entry_note(notes) {
                NoteSearch::Invalid => return Err(Error::InvalidImage),
                NoteSearch::Entry(entry) => return Ok(entry),
                NoteSearch::Absent => {},
            }
        }
        index += 1;
    }
    Err(Error::InvalidImage)
}

/// The module list entry of the initramfs.
pub open spec fn module_block(address: u64, size: u64) -> Seq<u8> {
    le64(address) + le64(size) + le64(0) + le64(0)
}

/// The memory map: the usable RAM, and what is reserved above it.
pub open spec fn memory_map_block(usable: u64, total: u64) -> Seq<u8> {
    le64(0) + le64(usable) + le32(XEN_HVM_MEMMAP_TYPE_RAM) + le32(0) + le64(usable) + le64(
        (total - usable) as u64,
    ) + le32(XEN_HVM_MEMMAP_TYPE_RESERVED) + le32(0)
}

/// The version 1 start-info block.
pub open spec fn start_info_block(has_initramfs: bool, rsdp: u64) -> Seq<u8> {
    le32(XEN_HVM_START_MAGIC_VALUE) + le32(1) + le32(0) + le32(
        if has_initramfs {
            1
        } else {
            0
        },
    ) + le64(
        if has_initramfs {
            PVH_MODULE_LIST_GPA
        } else {
            0
        },
    ) + le64(PVH_COMMAND_LINE_GPA) + le64(rsdp) + le64(PVH_MEMORY_MAP_GPA) + le32(2) + le32(0)
}

/// RAM with the initramfs behind the kernel and its module list entry.
pub open spec fn with_initramfs(
    ram: Seq<u8>,
    load_end: int,
    initramfs: Option<Seq<u8>>,
) -> Seq<u8> {
    match initramfs {
        None => ram,
        Some(data) => spliced(
            spliced(ram, align_page(load_end), data),
            PVH_MODULE_LIST_GPA as int,
            module_block(align_page(load_end) as u64, data.len() as u64),
        ),
    }
}

/// RAM with the command line, the memory map and the start information.
pub open spec fn with_boot_information(
    ram: Seq<u8>,
    has_initramfs: bool,
    command_line: Seq<u8>,
    rsdp: u64,
    usable: u64,
) -> Seq<u8> {
    let lined = spliced(ram, PVH_COMMAND_LINE_GPA as int, command_line.push(0));
    let mapped = spliced(
        lined,
        PVH_MEMORY_MAP_GPA as int,
        memory_map_block(usable, ram.len() as u64),
    );
    spliced(mapped, PVH_START_INFO_GPA as int, start_info_block(has_initramfs, rsdp))
}

/// What loading a PVH kernel gives, and the RAM after it.
pub open spec fn pvh_outcome(
    kernel: Seq<u8>,
    initramfs: Option<Seq<u8>>,
    command_line: Seq<char>,
    rsdp: u64,
    usable: u64,
    ram: Seq<u8>,
) -> (Result<u64, Error>, Seq<u8>) {
    let line = vstd::utf8::encode_utf8(command_line);
    let l = load_segments(kernel, ram, true, usable as int, program_header_count(kernel));
    let address = align_page(l.end);
    if line.len() + 1 > PVH_COMMAND_LINE_LIMIT || !vstd::utf8::is_ascii_chars(command_line) {
        (Err(Error::InvalidImage), ram)
    } else if usable < MINIMUM_LOAD_GPA || usable % 0x1000 != 0 || usable >= ram.len() {
        (Err(Error::InvalidImage), ram)
    } else if !has_elf_header(kernel) || pvh_entry_of(kernel, 0) is None {
        (Err(Error::InvalidImage), ram)
    } else if pvh_entry_of(kernel, 0)->0 < MINIMUM_LOAD_GPA || pvh_entry_of(kernel, 0)->0 >= usable {
        (Err(Error::ImageTooLarge), ram)
    } else if l.error is Some {
        (Err(l.error->0), l.ram)
    } else if !l.loaded {
        (Err(Error::InvalidImage), l.ram)
    } else if initramfs is Some && address + initramfs->0.len() > usable {
        (Err(Error::ImageTooLarge), l.ram)
    } else {
        (
            Ok(pvh_entry_of(kernel, 0)->0),
            with_boot_information(
                with_initramfs(l.ram, l.end, initramfs),
                initramfs is Some,
                line,
                rsdp,
                usable,
            ),
        )
    }
}

/// Writes the module list entry of the initramfs.
fn write_module(ram: &mut Vec<u8>, address: u64, size: u64)
    requires
        old(ram)@.len() >= MINIMUM_LOAD_GPA,
    ensures
        final(ram)@ == spliced(old(ram)@, PVH_MODULE_LIST_GPA as int, module_block(address, size)),
{
    let mut module: Vec<u8> = Vec::new();
    push_u64(&mut module, address);
    push_u64(&mut module, size);
    push_u64(&mut module, 0);
    push_u64(&mut module, 0);
    assert(module@ =~= module_block(address, size));
    splice(ram, PVH_MODULE_LIST_GPA as usize, &module);
}

/// Writes the command line, the memory map and the start information.
fn write_boot_information(
    ram: &mut Vec<u8>,
    has_initramfs: bool,
    line: &[u8],
    rsdp: u64,
    usable: u64,
)
    requires
        old(ram)@.len() >= MINIMUM_LOAD_GPA,
        usable <= old(ram)@.len(),
        line@.len() < PVH_COMMAND_LINE_LIMIT,
    ensures
        final(ram)@ == with_boot_information(old(ram)@, has_initramfs, line@, rsdp, usable),
{
    let total: u64 = ram.len() as u64;
    let mut text: Vec<u8> = vstd::slice::slice_to_vec(line);
    text.push(0);
    splice(ram, PVH_COMMAND_LINE_GPA as usize, &text);
    let mut memory_map: Vec<u8> = Vec::new();
    push_u64(&mut memory_map, 0);
    push_u64(&mut memory_map, usable);
    push_u32(&mut memory_map, XEN_HVM_MEMMAP_TYPE_RAM);
    push_u32(&mut memory_map, 0);
    push_u64(&mut memory_map, usable);
    push_u64(&mut memory_map, total - usable);
    push_u32(&mut memory_map, XEN_HVM_MEMMAP_TYPE_RESERVED);
    push_u32(&mut memory_map, 0);
    assert(memory_map@ =~= memory_map_block(usable, total));
    splice(ram, PVH_MEMORY_MAP_GPA as usize, &memory_map);
    let mut start_info: Vec<u8> = Vec::new();
    push_u32(&mut start_info, XEN_HVM_START_MAGIC_VALUE);
    push_u32(&mut start_info, 1);
    push_u32(&mut start_info, 0);
    push_u32(&mut start_info, if has_initramfs { 1 } else { 0 });
    push_u64(&mut start_info, if has_initramfs { PVH_MODULE_LIST_GPA } else { 0 });
    push_u64(&mut start_info, PVH_COMMAND_LINE_GPA);
    push_u64(&mut start_info, rsdp);
    push_u64(&mut start_info, PVH_MEMORY_MAP_GPA);
    push_u32(&mut start_info, 2);
    push_u32(&mut start_info, 0);
    assert(start_info@ =~= start_info_block(has_initramfs, rsdp));
    splice(ram, PVH_START_INFO_GPA as usize, &start_info);
}

/// Loads an x86 Linux PVH ELF and constructs the version 1 start-info block.
/// The first module is exposed as the initramfs, as required by the PVH ABI.
///
/// No vCPU may be executing from `ram` yet.
pub fn load_linux_pvh(
    kernel: &[u8],
    initramfs: Option<&[u8]>,
    command_line: &str,
    rsdp: u64,
    usable_memory_size: u64,
    ram: &mut Vec<u8>,
) -> (r: Result<GuestImage, Error>)
    ensures
        ({
            let data = match initramfs {
                Some(d) => Some(d@),
                None => None,
            };
            let outcome = pvh_outcome(
                kernel@,
                data,
                command_line@,
                rsdp,
                usable_memory_size,
                old(ram)@,
            );
            &&& final(ram)@ == outcome.1
            &&& match outcome.0 {
                Ok(entry) => r matches Ok(g) && g.spec_entry() == entry && g.spec_boot_info()
                    == PVH_START_INFO_GPA && g.spec_loaded_end() == load_segments(
                    kernel@,
                    old(ram)@,
                    true,
                    usable_memory_size as int,
                    program_header_count(kernel@),
                ).end,
                Err(e) => r == Err::<GuestImage, Error>(e),
            }
        }),
{
    let line = command_line.as_bytes();
    if line.len() >= PVH_COMMAND_LINE_LIMIT || !command_line.is_ascii() {
        return Err(Error::InvalidImage);
    }
    let total: u64 = ram.len() as u64;
    if usable_memory_size < MINIMUM_LOAD_GPA || usable_memory_size % 0x1000 != 0
        || usable_memory_size >= total {
        return Err(Error::InvalidImage);
    }
    elf_header(kernel)?;
    let entry: u64 = pvh_entry(kernel)?;
    if entry < MINIMUM_LOAD_GPA || entry >= usable_memory_size {
        return Err(Error::ImageTooLarge);
    }
    let load_end: u64 = match load_all(kernel, ram, true, usable_memory_size)? {
        Some(end) => end,
        None => return Err(Error::InvalidImage),
    };
    assert(ram@.len() == total);
    if let Some(data) = initramfs {
        let padding: u64 = padding_to_page(load_end);
        proof {
            lemma_page_below(load_end as int, usable_memory_size as int);
        }
        let address: u64 = load_end + padding;
        let size: u64 = data.len() as u64;
        if size > usable_memory_size - address {
            return Err(Error::ImageTooLarge);
        }
        assert(address + size <= ram.len());
        splice(ram, address as usize, data);
        write_module(ram, address, size);
    }
    write_boot_information(ram, initramfs.is_some(), line, rsdp, usable_memory_size);
    Ok(GuestImage { entry, boot_info: PVH_START_INFO_GPA, loaded_end: load_end })
}

/// The guest finds what it needs at the start-info address: the magic number,
/// the version, the module count, where the module list, the command line, the
/// ACPI tables and the memory map are, and how long the map is.
pub proof fn law_start_info_reads_back(
    ram: Seq<u8>,
    has_initramfs: bool,
    command_line: Seq<u8>,
    rsdp: u64,
    usable: u64,
)
    requires
        ram.len() >= MINIMUM_LOAD_GPA,
        command_line.len() < PVH_COMMAND_LINE_LIMIT,
        usable <= ram.len() <= u64::MAX,
    ensures
        ({
            let after = with_boot_information(ram, has_initramfs, command_line, rsdp, usable);
            let info = 0x4000int;
            &&& u32_at(after, info) == 0x336e_c578
            &&& u32_at(after, info + 4) == 1
            &&& u32_at(after, info + 8) == 0
            &&& u32_at(after, info + 12) == (if has_initramfs { 1u32 } else { 0 })
            &&& u64_at(after, info + 16) == (if has_initramfs { 0x4040u64 } else { 0 })
            &&& u64_at(after, info + 24) == 0x40c0
            &&& u64_at(after, info + 32) == rsdp
            &&& u64_at(after, info + 40) == 0x4080
            &&& u32_at(after, info + 48) == 2
        }),
{
    let after = with_boot_information(ram, has_initramfs, command_line, rsdp, usable);
    let info = PVH_START_INFO_GPA as int;
    let modules: u32 = if has_initramfs { 1 } else { 0 };
    let list: u64 = if has_initramfs { PVH_MODULE_LIST_GPA } else { 0 };
    let block = start_info_block(has_initramfs, rsdp);
    assert(block.len() == 56);
    assert(after.subrange(info, info + 4) =~= le32(XEN_HVM_START_MAGIC_VALUE));
    assert(after.subrange(info + 4, info + 8) =~= le32(1));
    assert(after.subrange(info + 8, info + 12) =~= le32(0));
    assert(after.subrange(info + 12, info + 16) =~= le32(modules));
    assert(after.subrange(info + 16, info + 24) =~= le64(list));
    assert(after.subrange(info + 24, info + 32) =~= le64(PVH_COMMAND_LINE_GPA));
    assert(after.subrange(info + 32, info + 40) =~= le64(rsdp));
    assert(after.subrange(info + 40, info + 48) =~= le64(PVH_MEMORY_MAP_GPA));
    assert(after.subrange(info + 48, info + 52) =~= le32(2));
    law_le32_reads_back(after, info, XEN_HVM_START_MAGIC_VALUE);
    law_le32_reads_back(after, info + 4, 1);
    law_le32_reads_back(after, info + 8, 0);
    law_le32_reads_back(after, info + 12, modules);
    law_le64_reads_back(after, info + 16, list);
    law_le64_reads_back(after, info + 24, PVH_COMMAND_LINE_GPA);
    law_le64_reads_back(after, info + 32, rsdp);
    law_le64_reads_back(after, info + 40, PVH_MEMORY_MAP_GPA);
    law_le32_reads_back(after, info + 48, 2);
}

/// The memory map that the guest finds splits its RAM into the usable part and
/// the reserved part above it.
pub proof fn law_memory_map_reads_back(
    ram: Seq<u8>,
    has_initramfs: bool,
    command_line: Seq<u8>,
    rsdp: u64,
    usable: u64,
)
    requires
        ram.len() >= MINIMUM_LOAD_GPA,
        command_line.len() < PVH_COMMAND_LINE_LIMIT,
        usable <= ram.len() <= u64::MAX,
    ensures
        ({
            let after = with_boot_information(ram, has_initramfs, command_line, rsdp, usable);
            let map = 0x4080int;
            &&& u64_at(after, map) == 0
            &&& u64_at(after, map + 8) == usable
            &&& u32_at(after, map + 16) == 1
            &&& u64_at(after, map + 24) == usable
            &&& u64_at(after, map + 32) == ram.len() - usable
            &&& u32_at(after, map + 40) == 2
        }),
{
    let after = with_boot_information(ram, has_initramfs, command_line, rsdp, usable);
    let map = PVH_MEMORY_MAP_GPA as int;
    let rest = (ram.len() - usable) as u64;
    assert(start_info_block(has_initramfs, rsdp).len() == 56);
    assert(memory_map_block(usable, ram.len() as u64).len() == 48);
    assert(after.subrange(map, map + 8) =~= le64(0));
    assert(after.subrange(map + 8, map + 16) =~= le64(usable));
    assert(after.subrange(map + 16, map + 20) =~= le32(XEN_HVM_MEMMAP_TYPE_RAM));
    assert(after.subrange(map + 24, map + 32) =~= le64(usable));
    assert(after.subrange(map + 32, map + 40) =~= le64(rest));
    assert(after.subrange(map + 40, map + 44) =~= le32(XEN_HVM_MEMMAP_TYPE_RESERVED));
    law_le64_reads_back(after, map, 0);
    law_le64_reads_back(after, map + 8, usable);
    law_le32_reads_back(after, map + 16, XEN_HVM_MEMMAP_TYPE_RAM);
    law_le64_reads_back(after, map + 24, usable);
    law_le64_reads_back(after, map + 32, rest);
    law_le32_reads_back(after, map + 40, XEN_HVM_MEMMAP_TYPE_RESERVED);
}

/// Where entry `i` of the program header table lies: the table starts where the file
/// header says at 32, and an entry has 56 bytes.
#[verifier::opaque]
pub open spec fn table_entry(image: Seq<u8>, i: int) -> int {
    u64_at(image, 32) + 56 * i
}

/// Whether entry `i` describes a segment to load (type 1).
#[verifier::opaque]
pub open spec fn is_loadable(image: Seq<u8>, i: int) -> bool {
    table_entry(image, i) + 56 <= image.len() && u32_at(image, table_entry(image, i)) == 1
}

/// Where the file bytes of a segment start.
#[verifier::opaque]
pub open spec fn segment_offset(image: Seq<u8>, i: int) -> int {
    u64_at(image, table_entry(image, i) + 8) as int
}

/// Where a segment is loaded.
#[verifier::opaque]
pub open spec fn segment_start(image: Seq<u8>, i: int) -> int {
    u64_at(image, table_entry(image, i) + 24) as int
}

/// Where a segment expects to run.
#[verifier::opaque]
pub open spec fn segment_virtual(image: Seq<u8>, i: int) -> int {
    u64_at(image, table_entry(image, i) + 16) as int
}

/// How many bytes of a segment the file holds.
#[verifier::opaque]
pub open spec fn segment_file_size(image: Seq<u8>, i: int) -> int {
    u64_at(image, table_entry(image, i) + 32) as int
}

/// How many bytes a segment has in memory.
#[verifier::opaque]
pub open spec fn segment_memory_size(image: Seq<u8>, i: int) -> int {
    u64_at(image, table_entry(image, i) + 40) as int
}

/// Whether a segment to load lies at an address.
pub open spec fn segment_covers(image: Seq<u8>, i: int, address: int) -> bool {
    &&& is_loadable(image, i)
    &&& segment_start(image, i) <= address < segment_start(image, i) + segment_memory_size(image, i)
}

/// Whether a segment may be loaded below `limit`: above the first 64 KiB, its file bytes
/// within the image and no more than its memory, and, for a native kernel, at its
/// virtual address.
pub open spec fn segment_fits(image: Seq<u8>, i: int, pvh: bool, limit: int) -> bool {
    &&& segment_start(image, i) >= 0x1_0000
    &&& segment_file_size(image, i) <= segment_memory_size(image, i)
    &&& segment_offset(image, i) + segment_file_size(image, i) <= image.len()
    &&& segment_start(image, i) + segment_memory_size(image, i) <= limit
    &&& !pvh ==> segment_start(image, i) == segment_virtual(image, i)
}

/// The byte that a segment puts at an address: its file bytes, and zeros behind them.
pub open spec fn segment_byte(image: Seq<u8>, i: int, address: int) -> u8 {
    let at = address - segment_start(image, i);
    if at < segment_file_size(image, i) {
        image[segment_offset(image, i) + at]
    } else {
        0
    }
}

/// Program header `i`, field by field.
proof fn lemma_header(image: Seq<u8>, i: int, pvh: bool, limit: int)
    requires
        limit <= u64::MAX,
    ensures
        program_header_at(image, i) is Some <==> table_entry(image, i) + 56 <= image.len(),
        is_loadable(image, i) ==> program_header_at(image, i) is Some,
        program_header_at(image, i) matches Some(h) ==> {
            &&& is_loadable(image, i) <==> h.segment_type == PT_LOAD
            &&& h.offset == segment_offset(image, i)
            &&& h.physical_address == segment_start(image, i)
            &&& h.virtual_address == segment_virtual(image, i)
            &&& h.file_size == segment_file_size(image, i)
            &&& h.memory_size == segment_memory_size(image, i)
            &&& segment_fits(image, i, pvh, limit) <==> (if pvh {
                pvh_segment_error(image, h, limit)
            } else {
                elf_segment_error(image, h, limit)
            }) is None
        },
{
    reveal(table_entry);
    reveal(is_loadable);
    reveal(segment_offset);
    reveal(segment_start);
    reveal(segment_virtual);
    reveal(segment_file_size);
    reveal(segment_memory_size);
}

/// Whether nothing about program header `i` stops a load.
pub open spec fn header_passes(image: Seq<u8>, i: int, pvh: bool, limit: int) -> bool {
    &&& table_entry(image, i) + 56 <= image.len()
    &&& is_loadable(image, i) ==> segment_fits(image, i, pvh, limit)
}

/// Loading goes through every program header: nothing stops it exactly where each lies in
/// the image and each segment to load fits.
pub proof fn law_loading_stops_only_at_a_wrong_header(
    image: Seq<u8>,
    ram: Seq<u8>,
    pvh: bool,
    limit: int,
    n: int,
)
    requires
        0 <= n,
        limit <= u64::MAX,
    ensures
        load_segments(image, ram, pvh, limit, n).error is None <==> forall|i: int|
            0 <= i < n ==> #[trigger] header_passes(image, i, pvh, limit),
        load_segments(image, ram, pvh, limit, n).error is None ==> (load_segments(
            image,
            ram,
            pvh,
            limit,
            n,
        ).loaded <==> exists|i: int| 0 <= i < n && #[trigger] is_loadable(image, i)),
    decreases n,
{
    if n > 0 {
        let k = n - 1;
        law_loading_stops_only_at_a_wrong_header(image, ram, pvh, limit, k);
        lemma_header(image, k, pvh, limit);
        let before = load_segments(image, ram, pvh, limit, k);
        let after = load_segments(image, ram, pvh, limit, n);
        if before.error is None {
            assert(after.error is None <==> header_passes(image, k, pvh, limit));
            assert(after.error is None ==> (after.loaded <==> before.loaded || is_loadable(
                image,
                k,
            )));
        }
        if after.error is None && before.loaded {
            let i = choose|i: int| 0 <= i < k && #[trigger] is_loadable(image, i);
            assert(0 <= i < n && is_loadable(image, i));
        }
    }
}

proof fn lemma_loaded_ram(
    image: Seq<u8>,
    ram: Seq<u8>,
    pvh: bool,
    limit: int,
    n: int,
    i: int,
    a: int,
)
    requires
        0 <= i < n,
        limit <= u64::MAX,
        limit <= ram.len(),
        load_segments(image, ram, pvh, limit, n).error is None,
        segment_covers(image, i, a),
        forall|j: int| i < j < n ==> !#[trigger] segment_covers(image, j, a),
    ensures
        0x1_0000 <= a < limit,
        load_segments(image, ram, pvh, limit, n).ram[a] == segment_byte(image, i, a),
    decreases n,
{
    let k = n - 1;
    lemma_header(image, k, pvh, limit);
    lemma_loading_length(image, ram, pvh, limit, k);
    if i < k {
        assert(!segment_covers(image, k, a));
        lemma_loaded_ram(image, ram, pvh, limit, k, i, a);
    }
}

proof fn lemma_unloaded_ram(image: Seq<u8>, ram: Seq<u8>, pvh: bool, limit: int, n: int, a: int)
    requires
        0 <= n,
        0 <= a < ram.len(),
        limit <= u64::MAX,
        load_segments(image, ram, pvh, limit, n).error is None,
        forall|j: int| 0 <= j < n ==> !#[trigger] segment_covers(image, j, a),
    ensures
        load_segments(image, ram, pvh, limit, n).ram[a] == ram[a],
    decreases n,
{
    if n > 0 {
        let k = n - 1;
        lemma_header(image, k, pvh, limit);
        lemma_loading_length(image, ram, pvh, limit, k);
        assert(!segment_covers(image, k, a));
        lemma_unloaded_ram(image, ram, pvh, limit, k, a);
    }
}

proof fn lemma_loading_length(image: Seq<u8>, ram: Seq<u8>, pvh: bool, limit: int, n: int)
    ensures
        load_segments(image, ram, pvh, limit, n).ram.len() == ram.len(),
    decreases n,
{
    if n > 0 {
        lemma_loading_length(image, ram, pvh, limit, n - 1);
    }
}

/// Once nothing has stopped loading, RAM holds at every address the byte of the last
/// segment that lies there, or what it held before.
pub proof fn law_loaded_ram_is_the_segments(
    image: Seq<u8>,
    ram: Seq<u8>,
    pvh: bool,
    limit: int,
    n: int,
)
    requires
        0 <= n,
        limit <= ram.len(),
        limit <= u64::MAX,
        load_segments(image, ram, pvh, limit, n).error is None,
    ensures
        load_segments(image, ram, pvh, limit, n).ram.len() == ram.len(),
        forall|i: int, a: int|
            0 <= i < n && #[trigger] segment_covers(image, i, a) && (forall|j: int|
                i < j < n ==> !#[trigger] segment_covers(image, j, a)) ==> 0x1_0000 <= a < limit
                && load_segments(image, ram, pvh, limit, n).ram[a] == segment_byte(image, i, a),
        forall|a: int|
            0 <= a < ram.len() && (forall|j: int|
                0 <= j < n ==> !#[trigger] segment_covers(image, j, a))
                ==> #[trigger] load_segments(image, ram, pvh, limit, n).ram[a] == ram[a],
{
    lemma_loading_length(image, ram, pvh, limit, n);
    assert forall|i: int, a: int|
        0 <= i < n && #[trigger] segment_covers(image, i, a) && (forall|j: int|
            i < j < n ==> !#[trigger] segment_covers(image, j, a)) implies 0x1_0000 <= a < limit
        && load_segments(image, ram, pvh, limit, n).ram[a] == segment_byte(image, i, a) by {
        lemma_loaded_ram(image, ram, pvh, limit, n, i, a);
    }
    assert forall|a: int|
        0 <= a < ram.len() && (forall|j: int|
            0 <= j < n ==> !#[trigger] segment_covers(image, j, a)) implies #[trigger] load_segments(
        image,
        ram,
        pvh,
        limit,
        n,
    ).ram[a] == ram[a] by {
        lemma_unloaded_ram(image, ram, pvh, limit, n, a);
    }
}

/// The end that loading reports is the highest end of a segment, or zero without one.
pub proof fn law_loaded_end_is_the_highest(
    image: Seq<u8>,
    ram: Seq<u8>,
    pvh: bool,
    limit: int,
    n: int,
)
    requires
        0 <= n,
        limit <= u64::MAX,
        load_segments(image, ram, pvh, limit, n).error is None,
    ensures
        forall|i: int|
            0 <= i < n && #[trigger] is_loadable(image, i) ==> segment_start(image, i)
                + segment_memory_size(image, i) <= load_segments(image, ram, pvh, limit, n).end,
        load_segments(image, ram, pvh, limit, n).loaded ==> 0x1_0000 <= load_segments(
            image,
            ram,
            pvh,
            limit,
            n,
        ).end <= limit && exists|i: int|
            0 <= i < n && #[trigger] is_loadable(image, i) && segment_start(image, i)
                + segment_memory_size(image, i) == load_segments(image, ram, pvh, limit, n).end,
        !load_segments(image, ram, pvh, limit, n).loaded ==> load_segments(
            image,
            ram,
            pvh,
            limit,
            n,
        ).end == 0,
    decreases n,
{
    if n > 0 {
        let k = n - 1;
        law_loaded_end_is_the_highest(image, ram, pvh, limit, k);
        lemma_header(image, k, pvh, limit);
        let before = load_segments(image, ram, pvh, limit, k);
        let after = load_segments(image, ram, pvh, limit, n);
        if before.loaded && after.end == before.end {
            let i = choose|i: int|
                0 <= i < k && #[trigger] is_loadable(image, i) && segment_start(image, i)
                    + segment_memory_size(image, i) == before.end;
            assert(0 <= i < n && is_loadable(image, i));
        } else if after.loaded {
            assert(is_loadable(image, k));
        }
    }
}

/// Whether the bytes start as a 64-bit little-endian x86-64 executable with program
/// headers of 56 bytes.
pub open spec fn is_executable(image: Seq<u8>) -> bool {
    &&& image.len() >= 64
    &&& image[0] == 0x7f && image[1] == 0x45 && image[2] == 0x4c && image[3] == 0x46
    &&& image[4] == 2 && image[5] == 1
    &&& u16_at(image, 16) == 2
    &&& u16_at(image, 18) == 0x3e
    &&& u16_at(image, 54) == 56
}

proof fn lemma_executable(image: Seq<u8>)
    ensures
        has_elf_header(image) <==> is_executable(image),
{
    if image.len() >= 64 {
        let magic = ELF_MAGIC@;
        let first = image.subrange(0, 4);
        assert(first[0] == image[0] && first[1] == image[1] && first[2] == image[2] && first[3]
            == image[3]);
        if is_executable(image) {
            assert(first =~= magic);
        }
        if has_elf_header(image) {
            assert(first[0] == magic[0] && first[1] == magic[1] && first[2] == magic[2] && first[3]
                == magic[3]);
        }
    }
}

/// A native kernel is loaded exactly where it is an executable whose entry (at 24 of the
/// file) lies in RAM above the first 64 KiB, it has a segment to load, and every one of
/// its segments fits. It then starts at its entry; RAM holds all its segments, the later
/// over the earlier, and is otherwise as it was; and the end that is reported is the
/// highest end of a segment.
pub proof fn law_native_kernel_is_in_ram(image: Seq<u8>, ram: Seq<u8>)
    requires
        ram.len() <= u64::MAX,
    ensures
        elf_outcome(image, ram).0 is Ok <==> is_executable(image) && 0x1_0000 <= u64_at(image, 24)
            < ram.len() && (exists|i: int|
            0 <= i < u16_at(image, 56) && #[trigger] is_loadable(image, i)) && (forall|i: int|
            0 <= i < u16_at(image, 56) ==> #[trigger] header_passes(
                image,
                i,
                false,
                ram.len() as int,
            )),
        elf_outcome(image, ram).0 matches Ok(entry) ==> {
            &&& entry == u64_at(image, 24)
            &&& elf_outcome(image, ram).1.len() == ram.len()
            &&& forall|i: int, a: int|
                0 <= i < u16_at(image, 56) && #[trigger] segment_covers(image, i, a) && (forall|
                    j: int,
                |
                    i < j < u16_at(image, 56) ==> !#[trigger] segment_covers(image, j, a)) ==> 0 <= a
                    < ram.len() && elf_outcome(image, ram).1[a] == segment_byte(image, i, a)
            &&& forall|a: int|
                0 <= a < ram.len() && (forall|j: int|
                    0 <= j < u16_at(image, 56) ==> !#[trigger] segment_covers(image, j, a))
                    ==> #[trigger] elf_outcome(image, ram).1[a] == ram[a]
            &&& forall|i: int|
                0 <= i < u16_at(image, 56) && #[trigger] is_loadable(image, i) ==> segment_start(
                    image,
                    i,
                ) + segment_memory_size(image, i) <= elf_end(image, ram)
            &&& exists|i: int|
                0 <= i < u16_at(image, 56) && #[trigger] is_loadable(image, i) && segment_start(
                    image,
                    i,
                ) + segment_memory_size(image, i) == elf_end(image, ram)
        },
        !is_executable(image) ==> elf_outcome(image, ram).0 == Err::<u64, Error>(
            Error::InvalidImage,
        ),
        is_executable(image) && !(0x1_0000 <= u64_at(image, 24) < ram.len()) ==> elf_outcome(
            image,
            ram,
        ).0 == Err::<u64, Error>(Error::ImageTooLarge),
{
    lemma_executable(image);
    let n = program_header_count(image);
    let limit = ram.len() as int;
    law_loading_stops_only_at_a_wrong_header(image, ram, false, limit, n);
    if load_segments(image, ram, false, limit, n).error is None {
        law_loaded_ram_is_the_segments(image, ram, false, limit, n);
        law_loaded_end_is_the_highest(image, ram, false, limit, n);
    }
}

/// A PVH kernel that was loaded has every segment in RAM, the later over the earlier: no
/// block that is written for it, nor its initramfs, lies on one of them. Its entry lies
/// in its usable RAM above the first 64 KiB.
pub proof fn law_pvh_kernel_is_in_ram(
    kernel: Seq<u8>,
    initramfs: Option<Seq<u8>>,
    command_line: Seq<char>,
    rsdp: u64,
    usable: u64,
    ram: Seq<u8>,
)
    requires
        ram.len() <= u64::MAX,
        pvh_outcome(kernel, initramfs, command_line, rsdp, usable, ram).0 is Ok,
    ensures
        is_executable(kernel),
        pvh_outcome(kernel, initramfs, command_line, rsdp, usable, ram).1.len() == ram.len(),
        usable % 0x1000 == 0,
        0x1_0000 <= pvh_outcome(kernel, initramfs, command_line, rsdp, usable, ram).0->Ok_0
            < usable,
        usable < ram.len(),
        exists|i: int| 0 <= i < u16_at(kernel, 56) && #[trigger] is_loadable(kernel, i),
        forall|i: int|
            0 <= i < u16_at(kernel, 56) ==> #[trigger] header_passes(
                kernel,
                i,
                true,
                usable as int,
            ),
        forall|i: int, a: int|
            0 <= i < u16_at(kernel, 56) && #[trigger] segment_covers(kernel, i, a) && (forall|
                j: int,
            |
                i < j < u16_at(kernel, 56) ==> !#[trigger] segment_covers(kernel, j, a))
                ==> pvh_outcome(kernel, initramfs, command_line, rsdp, usable, ram).1[a]
                == segment_byte(kernel, i, a),
        forall|i: int|
            0 <= i < u16_at(kernel, 56) && #[trigger] is_loadable(kernel, i) ==> segment_start(
                kernel,
                i,
            ) + segment_memory_size(kernel, i) <= load_segments(
                kernel,
                ram,
                true,
                usable as int,
                program_header_count(kernel),
            ).end,
        exists|i: int|
            0 <= i < u16_at(kernel, 56) && #[trigger] is_loadable(kernel, i) && segment_start(
                kernel,
                i,
            ) + segment_memory_size(kernel, i) == load_segments(
                kernel,
                ram,
                true,
                usable as int,
                program_header_count(kernel),
            ).end,
{
    lemma_executable(kernel);
    let n = program_header_count(kernel);
    law_loading_stops_only_at_a_wrong_header(kernel, ram, true, usable as int, n);
    law_loaded_ram_is_the_segments(kernel, ram, true, usable as int, n);
    law_loaded_end_is_the_highest(kernel, ram, true, usable as int, n);
    let l = load_segments(kernel, ram, true, usable as int, n);
    let line = vstd::utf8::encode_utf8(command_line);
    let after = pvh_outcome(kernel, initramfs, command_line, rsdp, usable, ram).1;
    let filled = with_initramfs(l.ram, l.end, initramfs);
    lemma_page_below(l.end, usable as int);
    assert(start_info_block(initramfs is Some, rsdp).len() == 56);
    assert(memory_map_block(usable, filled.len() as u64).len() == 48);
    assert forall|b: u64, c: u64| #[trigger] module_block(b, c).len() == 32 by {}
    assert(after.len() == ram.len());
    assert forall|i: int, a: int|
        0 <= i < u16_at(kernel, 56) && #[trigger] segment_covers(kernel, i, a) && (forall|j: int|
            i < j < u16_at(kernel, 56) ==> !#[trigger] segment_covers(kernel, j, a)) implies after[a]
        == segment_byte(kernel, i, a) by {
        assert(is_loadable(kernel, i));
        assert(0x1_0000 <= a < l.end);
        assert(l.ram[a] == segment_byte(kernel, i, a));
        assert(filled[a] == l.ram[a]);
        assert(after[a] == filled[a]);
    }
}

/// The initramfs of a PVH kernel lies on a page behind the kernel, in the usable RAM, and
/// the module list at 0x4040 says where and how long it is.
pub proof fn law_initramfs_is_found(
    kernel: Seq<u8>,
    initramfs: Seq<u8>,
    command_line: Seq<char>,
    rsdp: u64,
    usable: u64,
    ram: Seq<u8>,
)
    requires
        ram.len() <= u64::MAX,
        pvh_outcome(kernel, Some(initramfs), command_line, rsdp, usable, ram).0 is Ok,
    ensures
        ({
            let after = pvh_outcome(kernel, Some(initramfs), command_line, rsdp, usable, ram).1;
            let end = load_segments(
                kernel,
                ram,
                true,
                usable as int,
                program_header_count(kernel),
            ).end;
            let address = u64_at(after, 0x4040);
            &&& address % 0x1000 == 0
            &&& end <= address < end + 0x1000
            &&& u64_at(after, 0x4048) == initramfs.len()
            &&& address + initramfs.len() <= usable < after.len()
            &&& after.subrange(address as int, address + initramfs.len()) == initramfs
        }),
{
    let n = program_header_count(kernel);
    law_loading_stops_only_at_a_wrong_header(kernel, ram, true, usable as int, n);
    law_loaded_ram_is_the_segments(kernel, ram, true, usable as int, n);
    law_loaded_end_is_the_highest(kernel, ram, true, usable as int, n);
    let l = load_segments(kernel, ram, true, usable as int, n);
    let line = vstd::utf8::encode_utf8(command_line);
    let after = pvh_outcome(kernel, Some(initramfs), command_line, rsdp, usable, ram).1;
    let filled = with_initramfs(l.ram, l.end, Some(initramfs));
    lemma_page_below(l.end, usable as int);
    let address = align_page(l.end);
    assert(address % 0x1000 == 0 && address < l.end + 0x1000) by {
        reveal(align_page);
    }
    assert(address >= 0x1_0000);
    assert(start_info_block(true, rsdp).len() == 56);
    assert(memory_map_block(usable, filled.len() as u64).len() == 48);
    assert(module_block(address as u64, initramfs.len() as u64).len() == 32);
    assert(filled.len() == ram.len());
    assert(after.subrange(0x4040, 0x4048) =~= le64(address as u64));
    assert(after.subrange(0x4048, 0x4050) =~= le64(initramfs.len() as u64));
    law_le64_reads_back(after, 0x4040, address as u64);
    law_le64_reads_back(after, 0x4048, initramfs.len() as u64);
    assert(after.subrange(address, address + initramfs.len()) =~= initramfs);
}

/// The command line of a PVH kernel stands at 0x40c0, as its bytes and a zero behind.
pub proof fn law_command_line_is_found(
    ram: Seq<u8>,
    has_initramfs: bool,
    command_line: Seq<u8>,
    rsdp: u64,
    usable: u64,
)
    requires
        ram.len() >= 0x1_0000,
        command_line.len() < 1024,
    ensures
        ({
            let after = with_boot_information(ram, has_initramfs, command_line, rsdp, usable);
            &&& after.len() == ram.len()
            &&& after.subrange(0x40c0, 0x40c0int + command_line.len()) == command_line
            &&& after[0x40c0int + command_line.len()] == 0
            &&& forall|a: int|
                0 <= a < 0x4000 || 0x44c0 <= a < ram.len() ==> #[trigger] after[a] == ram[a]
        }),
{
    let after = with_boot_information(ram, has_initramfs, command_line, rsdp, usable);
    assert(start_info_block(has_initramfs, rsdp).len() == 56);
    assert(memory_map_block(usable, ram.len() as u64).len() == 48);
    assert(after.subrange(0x40c0, 0x40c0int + command_line.len()) =~= command_line);
}

/// Whether a note with the 32-bit entry lies at `o` of the notes: named `Xen`, of type
/// 18, with an entry of four or eight bytes behind its name.
pub open spec fn is_entry_note(notes: Seq<u8>, o: int, entry: u64) -> bool {
    &&& 0 <= o && o % 4 == 0 && o + 16 <= notes.len()
    &&& u32_at(notes, o) == 4
    &&& u32_at(notes, o + 8) == 18
    &&& notes[o + 12] == 0x58 && notes[o + 13] == 0x65 && notes[o + 14] == 0x6e && notes[o + 15]
        == 0
    &&& u32_at(notes, o + 4) == 4 && o + 20 <= notes.len() && entry == u32_at(notes, o + 16) || u32_at(
        notes,
        o + 4,
    ) == 8 && o + 24 <= notes.len() && entry == u64_at(notes, o + 16)
}

proof fn lemma_search_notes(notes: Seq<u8>, offset: int)
    requires
        0 <= offset,
        offset % 4 == 0,
    ensures
        search_notes(notes, offset) matches NoteSearch::Entry(entry) ==> exists|o: int|
            offset <= o && #[trigger] is_entry_note(notes, o, entry),
    decreases
            (if offset < notes.len() {
                notes.len() - offset
            } else {
                0
            }),
{
    reveal(align_4);
    let name_size = u32_at(notes, offset) as int;
    let description_size = u32_at(notes, offset + 4) as int;
    let name_end = offset + 12 + name_size;
    let description = align_4(name_end);
    let description_end = description + description_size;
    if offset >= notes.len() || offset + 12 > notes.len() || name_end > notes.len()
        || description_end > notes.len() {
    } else if u32_at(notes, offset + 8) == 18 && notes.subrange(offset + 12, name_end)
        == XEN_NOTE_NAME@ {
        let name = notes.subrange(offset + 12, name_end);
        assert(name.len() == 4);
        assert(name[0] == notes[offset + 12] && name[1] == notes[offset + 13] && name[2]
            == notes[offset + 14] && name[3] == notes[offset + 15]);
        assert(XEN_NOTE_NAME@[0] == 0x58 && XEN_NOTE_NAME@[1] == 0x65 && XEN_NOTE_NAME@[2] == 0x6e
            && XEN_NOTE_NAME@[3] == 0);
        assert(description == offset + 16);
        if description_size == 4 || description_size == 8 {
            let entry = search_notes(notes, offset)->Entry_0;
            assert(is_entry_note(notes, offset, entry));
        }
    } else {
        lemma_search_notes(notes, align_4(description_end));
    }
}

/// The entry of a PVH kernel is what an entry note in one of its note segments (type 4)
/// says.
pub proof fn law_pvh_entry_comes_from_a_note(image: Seq<u8>, index: int) -> (at: (int, int))
    requires
        0 <= index,
        pvh_entry_of(image, index) is Some,
    ensures
        index <= at.0 < u16_at(image, 56),
        table_entry(image, at.0) + 56 <= image.len(),
        u32_at(image, table_entry(image, at.0)) == 4,
        segment_offset(image, at.0) + segment_file_size(image, at.0) <= image.len(),
        is_entry_note(
            image.subrange(
                segment_offset(image, at.0),
                segment_offset(image, at.0) + segment_file_size(image, at.0),
            ),
            at.1,
            pvh_entry_of(image, index)->0,
        ),
    decreases program_header_count(image) - index,
{
    let h = program_header_at(image, index)->0;
    let notes = image.subrange(h.offset as int, h.offset + h.file_size);
    lemma_search_notes(notes, 0);
    lemma_header(image, index, true, 0);
    assert(u32_at(image, table_entry(image, index)) == h.segment_type) by {
        reveal(table_entry);
    }
    if h.segment_type == 4 && search_notes(notes, 0) is Entry {
        let entry = search_notes(notes, 0)->Entry_0;
        let o = choose|o: int| 0 <= o && #[trigger] is_entry_note(notes, o, entry);
        (index, o)
    } else {
        law_pvh_entry_comes_from_a_note(image, index + 1)
    }
}

} // verus!
