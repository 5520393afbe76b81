//! Image file directories: their entries, and the walk over the graph that
//! the directories of a file form.
//!
//! A directory is a count followed by twelve-byte records. A record names a
//! tag, a value type and a component count, and holds either the value itself
//! (when it fits in four bytes) or the offset at which the value lies. Offsets
//! are relative to the base of the directory that holds the record.

use crate::error::Error;
use crate::tags::{
    code_width, tag_of_code, type_of_code, IfdEntryTag, IfdEntryType, IfdType, TagParam,
};
use crate::unpacked::{
    decode_14le_unpacked, flipped_index, image_fits, image_size_ok, unpacked_sample,
};
use crate::utils::{bytes_to_num, spec_bytes_to_num, spec_le_u16, spec_le_u32};
use vstd::prelude::*;

verus! {

/// What an entry is: the twelve bytes of its record, and the base that its
/// offset is relative to. Everything else about an entry follows from these.
pub struct EntryView {
    pub raw: Seq<u8>,
    pub base: int,
}

impl EntryView {
    /// The 16-bit code of the tag.
    pub open spec fn tag_code(self) -> int {
        spec_le_u16(self.raw, 0)
    }

    /// The tag.
    pub open spec fn tag(self) -> IfdEntryTag {
        tag_of_code(spec_le_u16(self.raw, 0) as u16)
    }

    /// The 16-bit code of the value type.
    pub open spec fn type_code(self) -> int {
        spec_le_u16(self.raw, 2)
    }

    /// The value type.
    pub open spec fn data_type(self) -> IfdEntryType {
        type_of_code(spec_le_u16(self.raw, 2) as u16)
    }

    /// The number of components.
    pub open spec fn count(self) -> int {
        spec_le_u32(self.raw, 4)
    }

    /// The last four bytes read as a number: the value of a small entry, the
    /// offset of a large one.
    pub open spec fn value(self) -> int {
        spec_le_u32(self.raw, 8)
    }

    /// The last four bytes.
    pub open spec fn inline(self) -> Seq<u8> {
        self.raw.subrange(8, 12)
    }

    /// The number of bytes that the value takes: the component count times
    /// the width of one component.
    pub open spec fn data_length(self) -> int {
        self.count() * code_width(self.type_code() as u16)
    }

    /// Whether the value lies at an offset, which it does when it takes more
    /// than four bytes.
    pub open spec fn is_offset(self) -> bool {
        self.data_length() > 4
    }

    /// Where the value of an offset-form entry begins in the file.
    pub open spec fn data_start(self) -> int {
        self.base + self.value()
    }

    /// Whether the value lies inside a buffer of `len` bytes. A value held
    /// in the record itself always does.
    pub open spec fn resolves(self, len: int) -> bool {
        self.is_offset() ==> self.data_start() + self.data_length() <= len
    }

    /// The bytes of the value.
    pub open spec fn data(self, buf: Seq<u8>) -> Seq<u8> {
        if self.is_offset() {
            buf.subrange(self.data_start(), self.data_start() + self.data_length())
        } else {
            self.inline().subrange(0, self.data_length())
        }
    }
}

/// One record of a directory.
#[derive(Debug, Copy, Clone, PartialEq, Eq)]
pub struct IfdEntry {
    /// The base that the entry's offset is relative to.
    pub ifd_buffer_start_point: usize,
    pub tag: IfdEntryTag,
    pub data_type: IfdEntryType,
    /// The number of components.
    pub count: u32,
    /// The last four bytes of the record.
    pub data_or_offset: [u8; 4],
    /// The number of bytes that the value takes.
    pub data_length: u64,
    /// Whether the value lies at an offset.
    pub offset: bool,
    /// The twelve bytes of the record.
    pub raw_entry: [u8; 12],
}

impl View for IfdEntry {
    type V = EntryView;

    open spec fn view(&self) -> EntryView {
        EntryView { raw: self.raw_entry@, base: self.ifd_buffer_start_point as int }
    }
}

impl IfdEntry {
    /// The fields agree with the record: each holds what the twelve bytes
    /// spell.
    pub open spec fn wf(&self) -> bool {
        &&& self.tag == self@.tag()
        &&& self.data_type == self@.data_type()
        &&& self.count as int == self@.count()
        &&& self.data_or_offset@ == self@.inline()
        &&& self.data_length as int == self@.data_length()
        &&& self.offset == self@.is_offset()
    }

    /// Reads one record. The offset of the entry is relative to
    /// `ifd_buffer_start_point`, or to the start of the file where none is given.
    pub fn parse_entry(data: &[u8; 12], ifd_buffer_start_point: Option<usize>) -> (entry: Self)
        ensures
            entry.wf(),
            entry@.raw == data@,
            entry@.base == match ifd_buffer_start_point {
                Some(base) => base as int,
                None => 0,
            },
            entry.raw_entry == *data,
    {
        let raw_entry = *data;
        let bytes = data.as_slice();
        let tag_code = bytes_to_num(&bytes[0..2]);
        let type_code = bytes_to_num(&bytes[2..4]);
        let num_values = bytes_to_num(&bytes[4..8]);
        assert(tag_code as int == spec_le_u16(data@, 0));
        assert(type_code as int == spec_le_u16(data@, 2));
        assert(num_values as int == spec_le_u32(data@, 4));
        let tag = IfdEntryTag::from(tag_code as u16);
        let data_type = IfdEntryType::from(type_code as u16);
        let width = data_type.bytes_per_component();
        assert(num_values as int * width as int <= 0xffff_ffff * 8) by (nonlinear_arith)
            requires
                0 <= num_values as int <= 0xffff_ffff,
                0 <= width as int <= 8,
        ;
        let data_length = (num_values as u64) * (width as u64);
        let offset = data_length > 4;
        let data_or_offset = [data[8], data[9], data[10], data[11]];
        assert(data_or_offset@ =~= data@.subrange(8, 12));
        let ifd_buffer_start_point = match ifd_buffer_start_point {
            Some(base) => base,
            None => 0,
        };
        Self {
            ifd_buffer_start_point,
            tag,
            data_type,
            count: num_values as u32,
            data_or_offset,
            data_length,
            offset,
            raw_entry,
        }
    }

    /// The last four bytes of the record as a number.
    pub fn get_data_or_offset(&self) -> (value: usize)
        ensures
            value as int == spec_bytes_to_num(self.data_or_offset@),
            self.wf() ==> value as int == self@.value(),
    {
        bytes_to_num(self.data_or_offset.as_slice())
    }
}

/// What `String::from_utf8_lossy` makes of a byte sequence: the text that the
/// bytes spell in UTF-8, each malformed run replaced by U+FFFD.
pub uninterp spec fn utf8_lossy(bytes: Seq<u8>) -> Seq<char>;

/// `String::from_utf8_lossy`, with the borrowed-or-owned result made owned:
/// the text depends on the bytes alone.
#[verifier::external_body]
fn lossy_text(bytes: &[u8]) -> (text: String)
    ensures
        text@ == utf8_lossy(bytes@),
{
    String::from_utf8_lossy(bytes).into_owned()
}

impl IfdEntry {
    /// What `get_human_readable_value` shows of an entry.
    pub open spec fn readable(&self) -> Seq<char> {
        if !self.offset && !(self.data_type is AsciiString) {
            "Not implemented yet"@
        } else {
            utf8_lossy(self.data_or_offset@)
        }
    }

    /// A printable form of the last four bytes: their text for a string
    /// value and for an offset, a fixed notice for any other small value.
    pub fn get_human_readable_value(&self) -> (text: String)
        ensures
            text@ == self.readable(),
    {
        if !self.offset {
            match self.data_type {
                IfdEntryType::AsciiString(_) => lossy_text(self.data_or_offset.as_slice()),
                _ => "Not implemented yet".to_owned(),
            }
        } else {
            lossy_text(self.data_or_offset.as_slice())
        }
    }

    /// The bytes of the entry's value: the first `data_length` of the four
    /// bytes in the record for a small value, the bytes at the entry's offset
    /// for a large one. Fails when those bytes are not all inside `buffer`.
    pub fn read_data<'a>(&'a self, buffer: &'a [u8]) -> (r: Result<&'a [u8], Error>)
        requires
            self.wf(),
        ensures
            match r {
                Ok(data) => self@.resolves(buffer@.len() as int) && data@ == self@.data(buffer@),
                Err(e) => e == Error::OutOfRange && !self@.resolves(buffer@.len() as int),
            },
            self@.data_length() == 0 ==> r is Ok && r->Ok_0@.len() == 0,
    {
        if !self.offset {
            let inline = self.data_or_offset.as_slice();
            Ok(&inline[0..self.data_length as usize])
        } else {
            let base = self.ifd_buffer_start_point;
            let value = bytes_to_num(self.data_or_offset.as_slice());
            if base > buffer.len() || value > buffer.len() - base {
                return Err(Error::OutOfRange);
            }
            let start = base + value;
            if self.data_length > (buffer.len() - start) as u64 {
                return Err(Error::OutOfRange);
            }
            Ok(&buffer[start..start + self.data_length as usize])
        }
    }

    /// The bytes of the entry's value, as `read_data` gives them: the first
    /// `data_length` of the four bytes in the record for a small value, which
    /// does not consult `buffer`; the bytes at the entry's offset for a large
    /// one. Fails when the bytes of a large value are not all inside `buffer`.
    pub fn get_offset_data<'a>(&'a self, buffer: &'a [u8]) -> (r: Result<&'a [u8], Error>)
        requires
            self.wf(),
        ensures
            match r {
                Ok(data) => self@.resolves(buffer@.len() as int) && data@ == self@.data(buffer@),
                Err(e) => e == Error::OutOfRange && !self@.resolves(buffer@.len() as int),
            },
            !self@.is_offset() ==> r is Ok && r->Ok_0@ == self@.inline().subrange(
                0,
                self@.data_length(),
            ),
            self@.data_length() == 0 ==> r is Ok && r->Ok_0@.len() == 0,
    {
        self.read_data(buffer)
    }
}

/// What a directory is: its kind, the base that the offsets of its entries
/// are relative to, and its entries in file order.
pub struct IfdView {
    pub kind: IfdType,
    pub base: int,
    pub entries: Seq<EntryView>,
}

/// One directory of a file.
#[derive(Debug, Clone, PartialEq, Eq)]
pub struct Ifd {
    pub ifd_type: IfdType,
    /// The base that the offsets of the entries are relative to.
    pub ifd_buffer_start_point: usize,
    pub entries: Vec<IfdEntry>,
}

impl View for Ifd {
    type V = IfdView;

    open spec fn view(&self) -> IfdView {
        IfdView {
            kind: self.ifd_type,
            base: self.ifd_buffer_start_point as int,
            entries: self.entries@.map_values(|e: IfdEntry| e@),
        }
    }
}

/// The index of the first entry from `from` on whose tag code is `code`.
pub open spec fn find_code_from(entries: Seq<EntryView>, code: int, from: int) -> Option<int>
    decreases entries.len() - from,
{
    if from < 0 || from >= entries.len() {
        None
    } else if entries[from].tag_code() == code {
        Some(from)
    } else {
        find_code_from(entries, code, from + 1)
    }
}

/// The entry that a search by code finds lies at or behind `from` and has
/// the code; no entry between `from` and it has the code.
pub proof fn lemma_find_code(entries: Seq<EntryView>, code: int, from: int)
    requires
        0 <= from,
    ensures
        match find_code_from(entries, code, from) {
            Some(i) => from <= i < entries.len() && entries[i].tag_code() == code && forall|k: int|
                from <= k < i ==> (#[trigger] entries[k]).tag_code() != code,
            None => forall|k: int|
                from <= k < entries.len() ==> (#[trigger] entries[k]).tag_code() != code,
        },
    decreases entries.len() - from,
{
    if from < entries.len() && entries[from].tag_code() != code {
        lemma_find_code(entries, code, from + 1);
    }
}

/// The index of the first entry from `from` on whose tag is `tag`.
pub open spec fn find_tag_from(entries: Seq<EntryView>, tag: IfdEntryTag, from: int) -> Option<
    int,
>
    decreases entries.len() - from,
{
    if from < 0 || from >= entries.len() {
        None
    } else if entries[from].tag() == tag {
        Some(from)
    } else {
        find_tag_from(entries, tag, from + 1)
    }
}

/// The index of the first entry that `ifd_name` names.
pub open spec fn find_entry(entries: Seq<EntryView>, ifd_name: TagParam) -> Option<int> {
    match ifd_name {
        TagParam::IfdEntry(tag) => find_tag_from(entries, tag, 0),
        TagParam::U8(value) => find_code_from(entries, value as int, 0),
    }
}

impl Ifd {
    /// Every entry agrees with its record and carries the directory's base.
    pub open spec fn wf(&self) -> bool {
        forall|i: int|
            0 <= i < self.entries@.len() ==> (#[trigger] self.entries@[i]).wf()
                && self.entries@[i].ifd_buffer_start_point == self.ifd_buffer_start_point
    }

    /// The first entry whose tag is the one asked for, in the order of the
    /// file; `None` where the directory has no such entry.
    pub fn get_entry(&self, ifd_name: TagParam) -> (r: Option<&IfdEntry>)
        requires
            self.wf(),
        ensures
            match find_entry(self@.entries, ifd_name) {
                Some(i) => 0 <= i < self.entries@.len() && r == Some(&self.entries@[i]),
                None => r is None,
            },
    {
        match ifd_name {
            TagParam::IfdEntry(ifd_entry_name) => {
                let mut i: usize = 0;
                while i < self.entries.len()
                    invariant
                        self.wf(),
                        ifd_name == TagParam::IfdEntry(ifd_entry_name),
                        i <= self.entries@.len(),
                        find_tag_from(self@.entries, ifd_entry_name, 0) == find_tag_from(
                            self@.entries,
                            ifd_entry_name,
                            i as int,
                        ),
                    decreases self.entries@.len() - i,
                {
                    assert(self@.entries[i as int] == self.entries@[i as int]@);
                    if self.entries[i].tag == ifd_entry_name {
                        return Some(&self.entries[i]);
                    }
                    i += 1;
                }
                None
            },
            TagParam::U8(value) => self.get_by_raw_tag(value as u16),
        }
    }

    /// The first entry whose tag code is `code`, whether or not the code
    /// carries a name; `None` where the directory has no such entry.
    pub fn get_by_raw_tag(&self, code: u16) -> (r: Option<&IfdEntry>)
        requires
            self.wf(),
        ensures
            match find_code_from(self@.entries, code as int, 0) {
                Some(i) => 0 <= i < self.entries@.len() && r == Some(&self.entries@[i]),
                None => r is None,
            },
    {
        let mut i: usize = 0;
        while i < self.entries.len()
            invariant
                self.wf(),
                i <= self.entries@.len(),
                find_code_from(self@.entries, code as int, 0) == find_code_from(
                    self@.entries,
                    code as int,
                    i as int,
                ),
            decreases self.entries@.len() - i,
        {
            if self.entries[i].tag.usize_value() == code as usize {
                proof {
                    crate::tags::lemma_tag_code_round_trip(
                        spec_le_u16(self.entries@[i as int]@.raw, 0) as u16,
                    );
                }
                return Some(&self.entries[i]);
            }
            proof {
                crate::tags::lemma_tag_code_round_trip(
                    spec_le_u16(self.entries@[i as int]@.raw, 0) as u16,
                );
            }
            i += 1;
        }
        None
    }
}

/// How deep the directories of a file may nest.
pub const MAX_IFD_DEPTH: usize = 32;

/// Whether the eight bytes at `at` are the little-endian TIFF header whose
/// first directory follows it at once.
pub open spec fn is_tiff_header(buf: Seq<u8>, at: int) -> bool {
    &&& 0 <= at
    &&& at + 8 <= buf.len()
    &&& buf[at] == 0x49
    &&& buf[at + 1] == 0x49
    &&& buf[at + 2] == 0x2A
    &&& buf[at + 3] == 0
    &&& buf[at + 4] == 8
    &&& buf[at + 5] == 0
    &&& buf[at + 6] == 0
    &&& buf[at + 7] == 0
}

/// Whether the ten bytes at `at` are a Nikon MakerNote signature: the text
/// "Nikon", a zero byte, and one of the format versions 2.00, 2.10 and 2.11.
pub open spec fn is_nikon_header(buf: Seq<u8>, at: int) -> bool {
    &&& 0 <= at
    &&& at + 10 <= buf.len()
    &&& buf[at] == 0x4E
    &&& buf[at + 1] == 0x69
    &&& buf[at + 2] == 0x6B
    &&& buf[at + 3] == 0x6F
    &&& buf[at + 4] == 0x6E
    &&& buf[at + 5] == 0
    &&& buf[at + 6] == 2
    &&& (buf[at + 7] == 0x00 || buf[at + 7] == 0x10 || buf[at + 7] == 0x11)
    &&& buf[at + 8] == 0
    &&& buf[at + 9] == 0
}

/// Where a directory lies: its kind, the base of its offsets, and the place
/// of its entry count.
pub struct DirLayout {
    pub kind: IfdType,
    pub base: int,
    pub start: int,
}

/// The layout of the directory at `offset`, told by what the bytes there
/// begin with. Behind a TIFF header the entries start eight bytes on. Behind a
/// Nikon signature a TIFF header must follow, and the offsets are relative to
/// that header. Anything else is taken as a directory that starts at once.
pub open spec fn dir_layout(buf: Seq<u8>, offset: int) -> Result<DirLayout, Error> {
    if is_tiff_header(buf, offset) {
        Ok(DirLayout { kind: IfdType::Standard, base: offset, start: offset + 8 })
    } else if is_nikon_header(buf, offset) {
        if is_tiff_header(buf, offset + 10) {
            Ok(DirLayout { kind: IfdType::NikonMakerNote, base: offset + 10, start: offset + 18 })
        } else {
            Err(Error::BadMagic)
        }
    } else {
        Ok(DirLayout { kind: IfdType::Standard, base: offset, start: offset })
    }
}

/// The `i`-th entry of the directory with this layout.
pub open spec fn entry_at(buf: Seq<u8>, layout: DirLayout, i: int) -> EntryView {
    EntryView {
        raw: buf.subrange(layout.start + 2 + 12 * i, layout.start + 14 + 12 * i),
        base: layout.base,
    }
}

/// The first `n` entries of the directory with this layout.
pub open spec fn entries_of(buf: Seq<u8>, layout: DirLayout, n: int) -> Seq<EntryView> {
    Seq::new(n as nat, |i: int| entry_at(buf, layout, i))
}

/// Whether the value of every entry lies inside a buffer of `len` bytes.
pub open spec fn all_resolve(entries: Seq<EntryView>, len: int) -> bool {
    forall|i: int| 0 <= i < entries.len() ==> (#[trigger] entries[i]).resolves(len)
}

/// Whether the buffer holds all of the directory: its count, its records,
/// the value of every record, and for a standard directory the link that
/// follows the records.
pub open spec fn dir_fits(buf: Seq<u8>, layout: DirLayout) -> bool {
    let n = spec_le_u16(buf, layout.start);
    &&& 0 <= layout.start
    &&& layout.start + 2 <= buf.len()
    &&& layout.start + 2 + 12 * n <= buf.len()
    &&& all_resolve(entries_of(buf, layout, n), buf.len() as int)
    &&& (layout.kind is Standard ==> layout.start + 2 + 12 * n + 4 <= buf.len())
}

/// A directory as read, with the place where its records end.
pub struct Dir {
    pub ifd: IfdView,
    pub end: int,
}

/// The directory at `offset`, without its links followed.
pub open spec fn spec_dir(buf: Seq<u8>, offset: int) -> Result<Dir, Error> {
    match dir_layout(buf, offset) {
        Err(e) => Err(e),
        Ok(layout) => if dir_fits(buf, layout) {
            let n = spec_le_u16(buf, layout.start);
            Ok(
                Dir {
                    ifd: IfdView {
                        kind: layout.kind,
                        base: layout.base,
                        entries: entries_of(buf, layout, n),
                    },
                    end: layout.start + 2 + 12 * n,
                },
            )
        } else {
            Err(Error::OutOfRange)
        },
    }
}

/// The `k`-th four-byte offset in `data`; a last chunk of fewer bytes is
/// zero-extended.
pub open spec fn chunk_value(data: Seq<u8>, k: int) -> int {
    spec_bytes_to_num(
        data.subrange(
            4 * k,
            if 4 * k + 4 <= data.len() {
                4 * k + 4
            } else {
                data.len() as int
            },
        ),
    )
}

/// The offsets that the value of the SubIFDs entry lists, in order.
pub open spec fn subifd_links(buf: Seq<u8>, ifd: IfdView) -> Seq<int> {
    match find_code_from(ifd.entries, 0x14A, 0) {
        None => Seq::empty(),
        Some(i) => {
            let data = ifd.entries[i].data(buf);
            Seq::new(((data.len() + 3) / 4) as nat, |k: int| chunk_value(data, k))
        },
    }
}

/// The single offset that the first entry with tag code `code` holds.
pub open spec fn pointer_links(ifd: IfdView, code: int) -> Seq<int> {
    match find_code_from(ifd.entries, code, 0) {
        None => Seq::empty(),
        Some(i) => seq![ifd.entries[i].value()],
    }
}

/// The link behind the records at `end`; zero ends the chain.
pub open spec fn next_links(buf: Seq<u8>, end: int) -> Seq<int> {
    if spec_le_u32(buf, end) == 0 {
        Seq::empty()
    } else {
        seq![spec_le_u32(buf, end)]
    }
}

/// The offsets of the directories that a standard directory links to, in
/// the order in which they are visited: the sub-directories, the Exif
/// directory, the MakerNote, and the next directory of the chain.
pub open spec fn spec_links(buf: Seq<u8>, dir: Dir) -> Seq<int> {
    subifd_links(buf, dir.ifd) + pointer_links(dir.ifd, 0x8769) + pointer_links(dir.ifd, 0x927C)
        + next_links(buf, dir.end)
}

/// The offset that a directory was read at.
pub open spec fn origin(ifd: IfdView) -> int {
    if ifd.kind is NikonMakerNote {
        ifd.base - 10
    } else {
        ifd.base
    }
}

/// Whether one of the directories in `seen` was read at `offset`.
pub open spec fn visited(seen: Seq<IfdView>, offset: int) -> bool {
    exists|i: int| 0 <= i < seen.len() && origin(#[trigger] seen[i]) == offset
}

/// The directories found from `offset` on, appended to `seen`: the directory
/// at `offset`, then all that its first link leads to, then all that its
/// second link leads to, and so on. A MakerNote directory has no links. The
/// walk fails with `BadMagic` where a link leads to a directory that was
/// read before, or nests deeper than `MAX_IFD_DEPTH`.
pub open spec fn walk(buf: Seq<u8>, offset: int, seen: Seq<IfdView>, depth: nat) -> Result<
    Seq<IfdView>,
    Error,
>
    decreases MAX_IFD_DEPTH - depth, 0int,
{
    if depth >= MAX_IFD_DEPTH || visited(seen, offset) {
        Err(Error::BadMagic)
    } else {
        match spec_dir(buf, offset) {
            Err(e) => Err(e),
            Ok(dir) => if dir.ifd.kind is NikonMakerNote {
                Ok(seen.push(dir.ifd))
            } else {
                walk_links(buf, spec_links(buf, dir), 0, seen.push(dir.ifd), depth + 1)
            },
        }
    }
}

/// The directories found by walking from each of `links[from..]` in turn.
pub open spec fn walk_links(
    buf: Seq<u8>,
    links: Seq<int>,
    from: int,
    seen: Seq<IfdView>,
    depth: nat,
) -> Result<Seq<IfdView>, Error>
    decreases MAX_IFD_DEPTH - depth, 1 + links.len() - from,
{
    if from < 0 || from >= links.len() {
        Ok(seen)
    } else {
        match walk(buf, links[from], seen, depth) {
            Err(e) => Err(e),
            Ok(next) => walk_links(buf, links, from + 1, next, depth),
        }
    }
}

/// The views of a list of directories.
pub open spec fn views(ifds: Seq<Ifd>) -> Seq<IfdView> {
    ifds.map_values(|ifd: Ifd| ifd@)
}

/// Every directory of the list is well-formed, and the value of every entry
/// lies inside a buffer of `len` bytes.
pub open spec fn all_sound(ifds: Seq<Ifd>, len: int) -> bool {
    forall|i: int|
        0 <= i < ifds.len() ==> (#[trigger] ifds[i]).wf() && all_resolve(ifds[i]@.entries, len)
}

fn has_tiff_header(buffer: &[u8], at: usize) -> (r: bool)
    requires
        at + 8 <= buffer@.len(),
    ensures
        r == is_tiff_header(buffer@, at as int),
{
    buffer[at] == 0x49 && buffer[at + 1] == 0x49 && buffer[at + 2] == 0x2A && buffer[at + 3] == 0
        && buffer[at + 4] == 8 && buffer[at + 5] == 0 && buffer[at + 6] == 0 && buffer[at + 7]
        == 0
}

fn has_nikon_header(buffer: &[u8], at: usize) -> (r: bool)
    requires
        at + 10 <= buffer@.len(),
    ensures
        r == is_nikon_header(buffer@, at as int),
{
    buffer[at] == 0x4E && buffer[at + 1] == 0x69 && buffer[at + 2] == 0x6B && buffer[at + 3]
        == 0x6F && buffer[at + 4] == 0x6E && buffer[at + 5] == 0 && buffer[at + 6] == 2 && (
    buffer[at + 7] == 0x00 || buffer[at + 7] == 0x10 || buffer[at + 7] == 0x11) && buffer[at + 8]
        == 0 && buffer[at + 9] == 0
}

fn record_at(buffer: &[u8], at: usize) -> (record: [u8; 12])
    requires
        at + 12 <= buffer@.len(),
    ensures
        record@ == buffer@.subrange(at as int, at + 12),
{
    let record = [
        buffer[at],
        buffer[at + 1],
        buffer[at + 2],
        buffer[at + 3],
        buffer[at + 4],
        buffer[at + 5],
        buffer[at + 6],
        buffer[at + 7],
        buffer[at + 8],
        buffer[at + 9],
        buffer[at + 10],
        buffer[at + 11],
    ];
    assert(record@ =~= buffer@.subrange(at as int, at + 12));
    record
}

fn find_layout(buffer: &[u8], offset: usize) -> (r: Result<(IfdType, usize, usize), Error>)
    requires
        offset <= buffer@.len(),
    ensures
        match dir_layout(buffer@, offset as int) {
            Ok(layout) => r is Ok && r->Ok_0.0 == layout.kind && r->Ok_0.1 == layout.base
                && r->Ok_0.2 == layout.start && offset <= layout.base <= layout.start
                <= buffer@.len(),
            Err(e) => r == Err::<(IfdType, usize, usize), Error>(e),
        },
{
    let rest = buffer.len() - offset;
    if rest >= 8 && has_tiff_header(buffer, offset) {
        Ok((IfdType::Standard, offset, offset + 8))
    } else if rest >= 10 && has_nikon_header(buffer, offset) {
        if rest >= 18 && has_tiff_header(buffer, offset + 10) {
            Ok((IfdType::NikonMakerNote, offset + 10, offset + 18))
        } else {
            Err(Error::BadMagic)
        }
    } else {
        Ok((IfdType::Standard, offset, offset))
    }
}

/// Reads the directory at `offset` without following its links. Gives the
/// directory and the place where its records end.
fn parse_dir(buffer: &[u8], offset: usize) -> (r: Result<(Ifd, usize), Error>)
    ensures
        match spec_dir(buffer@, offset as int) {
            Ok(dir) => r is Ok && r->Ok_0.0@ == dir.ifd && r->Ok_0.0.wf() && r->Ok_0.1 == dir.end
                && all_resolve(dir.ifd.entries, buffer@.len() as int) && (dir.ifd.kind is Standard
                ==> dir.end + 4 <= buffer@.len()),
            Err(e) => r == Err::<(Ifd, usize), Error>(e),
        },
{
    let len = buffer.len();
    if offset > len {
        return Err(Error::OutOfRange);
    }
    let (kind, base, start) = match find_layout(buffer, offset) {
        Ok(found) => found,
        Err(e) => {
            return Err(e);
        },
    };
    let ghost layout = DirLayout { kind, base: base as int, start: start as int };
    if len - start < 2 {
        return Err(Error::OutOfRange);
    }
    let num_entries = bytes_to_num(&buffer[start..start + 2]);
    assert(num_entries as int == spec_le_u16(buffer@, start as int));
    if (len - start - 2) / 12 < num_entries {
        return Err(Error::OutOfRange);
    }
    let mut entries: Vec<IfdEntry> = Vec::new();
    let mut i: usize = 0;
    while i < num_entries
        invariant
            i <= num_entries,
            base <= start,
            len == buffer@.len(),
            start + 2 + 12 * num_entries <= len,
            layout == (DirLayout { kind, base: base as int, start: start as int }),
            dir_layout(buffer@, offset as int) == Ok::<DirLayout, Error>(layout),
            num_entries as int == spec_le_u16(buffer@, start as int),
            entries@.len() == i,
            forall|k: int|
                0 <= k < i ==> (#[trigger] entries@[k]).wf() && entries@[k]@ == entry_at(
                    buffer@,
                    layout,
                    k,
                ) && entries@[k]@.resolves(len as int),
        decreases num_entries - i,
    {
        let at = start + 2 + 12 * i;
        let record = record_at(buffer, at);
        let entry = IfdEntry::parse_entry(&record, Some(base));
        assert(entry@ == entry_at(buffer@, layout, i as int));
        if entry.offset {
            let value = entry.get_data_or_offset();
            if value > len - base || entry.data_length > (len - base - value) as u64 {
                proof {
                    let all = entries_of(buffer@, layout, num_entries as int);
                    assert(all[i as int] == entry@);
                    assert(!all[i as int].resolves(len as int));
                }
                return Err(Error::OutOfRange);
            }
        }
        entries.push(entry);
        i += 1;
    }
    let end = start + 2 + 12 * num_entries;
    proof {
        let all = entries_of(buffer@, layout, num_entries as int);
        assert forall|k: int| 0 <= k < all.len() implies (#[trigger] all[k]).resolves(
            len as int,
        ) by {
            assert(entries@[k]@ == all[k]);
        }
    }
    match kind {
        IfdType::Standard => {
            if len - end < 4 {
                return Err(Error::OutOfRange);
            }
        },
        IfdType::NikonMakerNote => {},
    }
    let ifd = Ifd { ifd_type: kind, ifd_buffer_start_point: base, entries };
    assert(ifd@.entries =~= entries_of(buffer@, layout, num_entries as int));
    Ok((ifd, end))
}

/// A list of offsets as mathematical integers.
pub open spec fn ints(links: Seq<usize>) -> Seq<int> {
    links.map_values(|v: usize| v as int)
}

/// The offsets that a standard directory links to, in visiting order.
fn parse_links(buffer: &[u8], ifd: &Ifd, end: usize) -> (links: Vec<usize>)
    requires
        ifd.wf(),
        all_resolve(ifd@.entries, buffer@.len() as int),
        end + 4 <= buffer@.len(),
    ensures
        ints(links@) == spec_links(buffer@, Dir { ifd: ifd@, end: end as int }),
{
    let len = buffer.len();
    let mut links: Vec<usize> = Vec::new();
    match ifd.get_by_raw_tag(0x14A) {
        Some(entry) => {
            let ghost at = find_code_from(ifd@.entries, 0x14A, 0)->Some_0;
            assert(ifd@.entries[at] == entry@);
            assert(entry@.resolves(buffer@.len() as int));
            match entry.read_data(buffer) {
                Ok(data) => {
                    let extra: usize = if data.len() % 4 != 0 {
                        1
                    } else {
                        0
                    };
                    let chunks = data.len() / 4 + extra;
                    let mut k: usize = 0;
                    while k < chunks
                        invariant
                            k <= chunks,
                            data@.len() <= usize::MAX,
                            chunks as int == (data@.len() + 3) / 4,
                            links@.len() == k,
                            forall|j: int|
                                0 <= j < k ==> (#[trigger] links@[j]) as int == chunk_value(
                                    data@,
                                    j,
                                ),
                        decreases chunks - k,
                    {
                        let lo = 4 * k;
                        let hi = if data.len() - lo >= 4 {
                            lo + 4
                        } else {
                            data.len()
                        };
                        let value = bytes_to_num(&data[lo..hi]);
                        links.push(value);
                        k += 1;
                    }
                },
                Err(_) => {},
            }
        },
        None => {},
    }
    assert(ints(links@) =~= subifd_links(buffer@, ifd@));
    let ghost subs = ints(links@);
    match ifd.get_by_raw_tag(0x8769) {
        Some(entry) => {
            links.push(entry.get_data_or_offset());
        },
        None => {},
    }
    assert(ints(links@) =~= subs + pointer_links(ifd@, 0x8769));
    let ghost with_exif = ints(links@);
    match ifd.get_by_raw_tag(0x927C) {
        Some(entry) => {
            links.push(entry.get_data_or_offset());
        },
        None => {},
    }
    assert(ints(links@) =~= with_exif + pointer_links(ifd@, 0x927C));
    let ghost with_note = ints(links@);
    let next = bytes_to_num(&buffer[end..end + 4]);
    assert(next as int == spec_le_u32(buffer@, end as int));
    if next != 0 {
        links.push(next);
    }
    assert(ints(links@) =~= with_note + next_links(buffer@, end as int));
    links
}

/// Whether one of the directories read so far was read at `offset`.
fn was_visited(ifds: &Vec<Ifd>, offset: usize) -> (r: bool)
    ensures
        r == visited(views(ifds@), offset as int),
{
    let mut i: usize = 0;
    while i < ifds.len()
        invariant
            i <= ifds@.len(),
            forall|k: int| 0 <= k < i ==> origin(#[trigger] views(ifds@)[k]) != offset,
        decreases ifds@.len() - i,
    {
        let ifd = &ifds[i];
        assert(views(ifds@)[i as int] == ifd@);
        let here = match ifd.ifd_type {
            IfdType::NikonMakerNote => ifd.ifd_buffer_start_point >= 10
                && ifd.ifd_buffer_start_point - 10 == offset,
            IfdType::Standard => ifd.ifd_buffer_start_point == offset,
        };
        if here {
            return true;
        }
        i += 1;
    }
    false
}

/// Walks the directories from `offset` on and appends them to `ifds`.
fn parse_into(buffer: &[u8], offset: usize, ifds: &mut Vec<Ifd>, depth: usize) -> (r: Result<
    (),
    Error,
>)
    requires
        all_sound(old(ifds)@, buffer@.len() as int),
    ensures
        match walk(buffer@, offset as int, views(old(ifds)@), depth as nat) {
            Ok(seen) => r is Ok && views(final(ifds)@) == seen && all_sound(
                final(ifds)@,
                buffer@.len() as int,
            ) && final(ifds)@.len() > old(ifds)@.len(),
            Err(e) => r == Err::<(), Error>(e),
        },
    decreases MAX_IFD_DEPTH - depth,
{
    if depth >= MAX_IFD_DEPTH || was_visited(ifds, offset) {
        return Err(Error::BadMagic);
    }
    let (ifd, end) = match parse_dir(buffer, offset) {
        Ok(found) => found,
        Err(e) => {
            return Err(e);
        },
    };
    let ghost dir = Dir { ifd: ifd@, end: end as int };
    let ghost before = views(ifds@);
    match ifd.ifd_type {
        IfdType::NikonMakerNote => {
            ifds.push(ifd);
            assert(views(ifds@) =~= before.push(dir.ifd));
            Ok(())
        },
        IfdType::Standard => {
            let links = parse_links(buffer, &ifd, end);
            ifds.push(ifd);
            assert(views(ifds@) =~= before.push(dir.ifd));
            let ghost start_len = ifds@.len();
            let mut i: usize = 0;
            while i < links.len()
                invariant
                    i <= links@.len(),
                    depth < MAX_IFD_DEPTH,
                    all_sound(ifds@, buffer@.len() as int),
                    ifds@.len() >= start_len,
                    walk(buffer@, offset as int, views(old(ifds)@), depth as nat) == walk_links(
                        buffer@,
                        ints(links@),
                        0,
                        before.push(dir.ifd),
                        (depth + 1) as nat,
                    ),
                    walk_links(
                        buffer@,
                        ints(links@),
                        i as int,
                        views(ifds@),
                        (depth + 1) as nat,
                    ) == walk_links(
                        buffer@,
                        ints(links@),
                        0,
                        before.push(dir.ifd),
                        (depth + 1) as nat,
                    ),
                decreases links@.len() - i,
            {
                assert(ints(links@)[i as int] == links@[i as int] as int);
                match parse_into(buffer, links[i], ifds, depth + 1) {
                    Ok(()) => {},
                    Err(e) => {
                        return Err(e);
                    },
                }
                i += 1;
            }
            Ok(())
        },
    }
}

impl Ifd {
    /// Reads the directory at `offset` and every directory that it leads
    /// to. The directories come in the order of a depth-first walk: a
    /// directory, then what its sub-directories lead to, then what its Exif
    /// pointer, its MakerNote and its next-directory link lead to. On success
    /// every entry agrees with its record and has its value inside `buffer`.
    pub fn parse_ifd(buffer: &[u8], offset: usize) -> (r: Result<Vec<Self>, Error>)
        ensures
            match walk(buffer@, offset as int, Seq::empty(), 0) {
                Ok(seen) => r is Ok && views(r->Ok_0@) == seen && all_sound(
                    r->Ok_0@,
                    buffer@.len() as int,
                ) && r->Ok_0@.len() >= 1,
                Err(e) => r == Err::<Vec<Self>, Error>(e),
            },
    {
        let mut ifds: Vec<Ifd> = Vec::new();
        assert(views(ifds@) =~= Seq::empty());
        match parse_into(buffer, offset, &mut ifds, 0) {
            Ok(()) => Ok(ifds),
            Err(e) => Err(e),
        }
    }
}

/// The number in the last four bytes of the first entry with tag `tag`.
pub open spec fn tagged_value(ifd: IfdView, tag: IfdEntryTag) -> Option<int> {
    match find_tag_from(ifd.entries, tag, 0) {
        Some(i) => Some(ifd.entries[i].value()),
        None => None,
    }
}

/// Where the unpacked image of a directory lies and how large it is.
pub struct StripImage {
    pub start: int,
    pub size: int,
    pub width: int,
    pub height: int,
}

/// The unpacked image that a directory describes inside a buffer of `len`
/// bytes. There is none where the directory lacks one of the tags for the
/// strip offset, the rows per strip, the strip size, the image length, the
/// samples per pixel and the image width; where it has no rows per strip;
/// where the strip does not lie inside the buffer; where the image is too
/// large or has no width; or where one of its rows starts behind the strip.
pub open spec fn strip_image(ifd: IfdView, len: int) -> Option<StripImage> {
    match (
        tagged_value(ifd, IfdEntryTag::StripOffsets),
        tagged_value(ifd, IfdEntryTag::RowsPerStrip),
        tagged_value(ifd, IfdEntryTag::StripByteCounts),
        tagged_value(ifd, IfdEntryTag::ImageLength),
        tagged_value(ifd, IfdEntryTag::SamplesPerPixel),
        tagged_value(ifd, IfdEntryTag::ImageWidth),
    ) {
        (Some(start), Some(rows_per_strip), Some(size), Some(height), Some(_), Some(width)) => {
            if rows_per_strip != 0 && start + size <= len && image_fits(width, height) && width > 0
                && (height > 0 ==> 2 * ((height - 1) * width) <= size) {
                Some(StripImage { start, size, width, height })
            } else {
                None
            }
        },
        _ => None,
    }
}

impl Ifd {
    /// The number in the last four bytes of the first entry with tag `tag`.
    fn value_of(&self, tag: IfdEntryTag) -> (r: Option<usize>)
        requires
            self.wf(),
        ensures
            match r {
                Some(value) => tagged_value(self@, tag) == Some(value as int),
                None => tagged_value(self@, tag) is None,
            },
    {
        match self.get_entry(TagParam::IfdEntry(tag)) {
            Some(entry) => {
                let ghost at = find_tag_from(self@.entries, tag, 0)->Some_0;
                assert(self@.entries[at] == entry@);
                Some(entry.get_data_or_offset())
            },
            None => None,
        }
    }

    /// The image of a directory whose strip holds 14-bit samples unpacked,
    /// two bytes each. The rows of the strip are laid out from the end of the
    /// image. `None` where the directory describes no such image inside
    /// `ifd_buffer`.
    pub fn get_image_data(&self, ifd_buffer: &[u8]) -> (r: Option<Vec<u16>>)
        requires
            self.wf(),
        ensures
            match strip_image(self@, ifd_buffer@.len() as int) {
                None => r is None,
                Some(image) => {
                    &&& r is Some
                    &&& r->Some_0@.len() == image.width * image.height
                    &&& forall|row: int, col: int|
                        0 <= row < image.height && 0 <= col < image.width ==> (
                        #[trigger] r->Some_0@[flipped_index(image.width, image.height, row, col)])
                            as int == unpacked_sample(
                            ifd_buffer@.subrange(image.start, image.start + image.size),
                            image.width,
                            row,
                            col,
                        )
                },
            },
    {
        let img_strip_offsets = self.value_of(IfdEntryTag::StripOffsets);
        let img_rows_per_strip = self.value_of(IfdEntryTag::RowsPerStrip);
        let img_strip_byte_count = self.value_of(IfdEntryTag::StripByteCounts);
        let img_length = self.value_of(IfdEntryTag::ImageLength);
        let img_sample_per_pixel = self.value_of(IfdEntryTag::SamplesPerPixel);
        let img_width = self.value_of(IfdEntryTag::ImageWidth);
        match (
            img_strip_offsets,
            img_rows_per_strip,
            img_strip_byte_count,
            img_length,
            img_sample_per_pixel,
            img_width,
        ) {
            (
                Some(strip_start),
                Some(rows_per_strip),
                Some(strip_size),
                Some(height),
                Some(_),
                Some(width),
            ) => {
                if rows_per_strip == 0 || strip_start > ifd_buffer.len() || strip_size
                    > ifd_buffer.len() - strip_start {
                    return None;
                }
                if !image_size_ok(width, height) || width == 0 {
                    return None;
                }
                if height > 0 {
                    assert(0 <= (height - 1) * width <= width * height) by (nonlinear_arith)
                        requires
                            0 < height,
                            0 <= width,
                    ;
                    if 2 * ((height - 1) * width) > strip_size {
                        return None;
                    }
                }
                let strip_data = &ifd_buffer[strip_start..strip_start + strip_size];
                Some(decode_14le_unpacked(strip_data, width, height, false))
            },
            _ => None,
        }
    }
}

/// Where the embedded JPEG preview of a directory lies.
pub struct Preview {
    pub start: int,
    pub size: int,
}

/// The JPEG preview that a directory describes inside a buffer. There is
/// none where the directory lacks one of the tags for the preview's offset,
/// its size and the compression; where the preview does not lie inside the
/// buffer; or where it does not begin with the JPEG start marker FF D8.
pub open spec fn preview_of(ifd: IfdView, buf: Seq<u8>) -> Option<Preview> {
    match (
        tagged_value(ifd, IfdEntryTag::JpgFromRawStart),
        tagged_value(ifd, IfdEntryTag::JpgFromRawLength),
        tagged_value(ifd, IfdEntryTag::Compression),
    ) {
        (Some(start), Some(size), Some(_)) => {
            if start + 2 <= buf.len() && start + size <= buf.len() && buf[start] == 0xFF && buf[start
                + 1] == 0xD8 {
                Some(Preview { start, size })
            } else {
                None
            }
        },
        _ => None,
    }
}

impl Ifd {
    /// The bytes of the embedded JPEG preview; `None` where the directory
    /// describes none inside `buffer`.
    pub fn get_thumbnail_data<'a>(&self, buffer: &'a [u8]) -> (r: Option<&'a [u8]>)
        requires
            self.wf(),
        ensures
            match preview_of(self@, buffer@) {
                Some(preview) => r is Some && r->Some_0@ == buffer@.subrange(
                    preview.start,
                    preview.start + preview.size,
                ),
                None => r is None,
            },
    {
        let jpeg_offset_entry = self.value_of(IfdEntryTag::JpgFromRawStart);
        let jpeg_bytecount_entry = self.value_of(IfdEntryTag::JpgFromRawLength);
        let jpeg_compression_entry = self.value_of(IfdEntryTag::Compression);
        match (jpeg_offset_entry, jpeg_bytecount_entry, jpeg_compression_entry) {
            (Some(jpeg_offset), Some(jpeg_byte_count), Some(_)) => {
                let len = buffer.len();
                if len < 2 || jpeg_offset > len - 2 || jpeg_byte_count > len - jpeg_offset {
                    return None;
                }
                let start_byte = bytes_to_num(&buffer[jpeg_offset..jpeg_offset + 2]);
                if start_byte == 0xD8FF {
                    Some(&buffer[jpeg_offset..jpeg_offset + jpeg_byte_count])
                } else {
                    None
                }
            },
            _ => None,
        }
    }
}

impl IfdEntry {
    /// Whether the fields agree with the record. An entry that `parse_entry`
    /// made does; one whose fields were written since may not.
    pub fn is_sound(&self) -> (r: bool)
        ensures
            r == self.wf(),
    {
        let again = IfdEntry::parse_entry(&self.raw_entry, Some(self.ifd_buffer_start_point));
        assert(again@ == self@);
        let same_bytes = self.data_or_offset[0] == again.data_or_offset[0]
            && self.data_or_offset[1] == again.data_or_offset[1] && self.data_or_offset[2]
            == again.data_or_offset[2] && self.data_or_offset[3] == again.data_or_offset[3];
        proof {
            if same_bytes {
                assert(self.data_or_offset@ =~= again.data_or_offset@);
            }
        }
        self.tag == again.tag && self.data_type == again.data_type && self.count == again.count
            && same_bytes && self.data_length == again.data_length && self.offset == again.offset
    }
}

impl Ifd {
    /// Whether the directory is well-formed and the value of every entry
    /// lies inside a buffer of `len` bytes.
    pub fn is_sound(&self, len: usize) -> (r: bool)
        ensures
            r == (self.wf() && all_resolve(self@.entries, len as int)),
    {
        let mut i: usize = 0;
        while i < self.entries.len()
            invariant
                i <= self.entries@.len(),
                forall|k: int|
                    0 <= k < i ==> (#[trigger] self.entries@[k]).wf()
                        && self.entries@[k].ifd_buffer_start_point == self.ifd_buffer_start_point
                        && self.entries@[k]@.resolves(len as int),
            decreases self.entries@.len() - i,
        {
            let entry = &self.entries[i];
            assert(self@.entries[i as int] == entry@);
            if !entry.is_sound() || entry.ifd_buffer_start_point != self.ifd_buffer_start_point {
                return false;
            }
            if entry.offset {
                let base = entry.ifd_buffer_start_point;
                let value = entry.get_data_or_offset();
                if base > len || value > len - base || entry.data_length > (len - base - value) as u64 {
                    assert(!self@.entries[i as int].resolves(len as int));
                    return false;
                }
            }
            i += 1;
        }
        assert forall|k: int| 0 <= k < self@.entries.len() implies (
        #[trigger] self@.entries[k]).resolves(len as int) by {
            assert(self@.entries[k] == self.entries@[k]@);
        }
        true
    }
}

} // verus!
