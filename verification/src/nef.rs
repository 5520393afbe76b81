//! A NEF file as a whole: its directories, the choice of the directory that
//! describes the raw image and of the MakerNote, and the decoding of the raw
//! image from them.

use crate::decoder::{
    curve_points, do_decode, frame_error, nikon_lookup, parse_decoder_state, spec_decode,
    spec_selector, spec_split, state_error, Frame,
};
use crate::curve::curve_table;
use crate::error::Error;
use crate::ifd::{
    all_resolve, all_sound, find_code_from, lemma_find_code, views, walk, Ifd, IfdView,
};
use crate::tags::IfdType;
use crate::utils::spec_le_u16;
use vstd::prelude::*;

verus! {

/// Figures about a file. Parsing does not fill them in.
#[derive(Debug, Copy, Clone, PartialEq, Eq)]
pub struct ImageMetadata {
    pub image_size: usize,
}

/// Figures about the raw image. Parsing does not fill them in.
#[derive(Debug, Copy, Clone, PartialEq, Eq)]
pub struct ImageData {
    pub height: usize,
}

/// The embedded preview of a file.
#[derive(Debug, Copy, Clone, PartialEq, Eq)]
pub struct ImageThumbnail {}

/// A decoded raw image: one sample per sensor cell, row by row, in the
/// order of the sensor's colour filter.
#[derive(Debug)]
pub struct DecodedRaw {
    pub width: u32,
    pub height: u32,
    pub samples: Vec<u16>,
}

/// A NEF file held in memory, with its directories.
#[derive(Debug)]
pub struct NefFile {
    pub file_name: String,
    pub meta_data: ImageMetadata,
    pub image_data: ImageData,
    pub ifds: Vec<Ifd>,
    /// The bytes of the file.
    pub buffer: Vec<u8>,
}

/// Whether the bytes start as a little-endian TIFF file does.
pub open spec fn has_magic(buf: Seq<u8>) -> bool {
    buf.len() >= 4 && buf[0] == 0x49 && buf[1] == 0x49 && buf[2] == 0x2A && buf[3] == 0
}

/// The directories of a file, in the order of the walk from its start.
pub open spec fn file_ifds(buf: Seq<u8>) -> Result<Seq<IfdView>, Error> {
    if has_magic(buf) {
        walk(buf, 0, Seq::empty(), 0)
    } else {
        Err(Error::BadMagic)
    }
}

/// The number that the first entry with tag code `code` holds in its last
/// four bytes.
pub open spec fn entry_value(ifd: IfdView, code: int) -> Option<int> {
    match find_code_from(ifd.entries, code, 0) {
        Some(i) => Some(ifd.entries[i].value()),
        None => None,
    }
}

/// Whether a directory describes an image behind a colour filter array: its
/// photometric interpretation is 0x8023.
pub open spec fn is_cfa(ifd: IfdView) -> bool {
    ifd.kind is Standard && entry_value(ifd, 0x106) == Some(0x8023int)
}

/// The first directory from `from` on that describes a colour filter array
/// image.
pub open spec fn first_cfa(ifds: Seq<IfdView>, from: int) -> Option<int>
    decreases ifds.len() - from,
{
    if from < 0 || from >= ifds.len() {
        None
    } else if is_cfa(ifds[from]) {
        Some(from)
    } else {
        first_cfa(ifds, from + 1)
    }
}

/// The number of bytes of the strip that a standard directory describes.
pub open spec fn strip_size(ifd: IfdView) -> Option<int> {
    if ifd.kind is Standard {
        entry_value(ifd, 0x117)
    } else {
        None
    }
}

/// Among the first `upto` directories, the one with the largest strip; of
/// several such, the first.
pub open spec fn largest_strip(ifds: Seq<IfdView>, upto: int) -> Option<int>
    decreases upto,
{
    if upto <= 0 || upto > ifds.len() {
        None
    } else {
        match (largest_strip(ifds, upto - 1), strip_size(ifds[upto - 1])) {
            (rest, None) => rest,
            (None, Some(_)) => Some(upto - 1),
            (Some(best), Some(size)) => if size > strip_size(ifds[best])->Some_0 {
                Some(upto - 1)
            } else {
                Some(best)
            },
        }
    }
}

/// The directory of the raw image: the first that describes a colour filter
/// array image, or where there is none, the one with the largest strip.
pub open spec fn raw_index(ifds: Seq<IfdView>) -> Option<int> {
    match first_cfa(ifds, 0) {
        Some(i) => Some(i),
        None => largest_strip(ifds, ifds.len() as int),
    }
}

/// The first MakerNote directory from `from` on.
pub open spec fn note_index(ifds: Seq<IfdView>, from: int) -> Option<int>
    decreases ifds.len() - from,
{
    if from < 0 || from >= ifds.len() {
        None
    } else if ifds[from].kind is NikonMakerNote {
        Some(from)
    } else {
        note_index(ifds, from + 1)
    }
}

/// What the directory of the raw image says of it.
pub struct RawLayout {
    pub width: int,
    pub height: int,
    pub bps: u16,
    pub strip_start: int,
    pub strip_len: int,
}

/// What a directory says of its image; the tag that is missing where it
/// does not say all.
pub open spec fn raw_layout(ifd: IfdView) -> Result<RawLayout, Error> {
    match (
        entry_value(ifd, 0x100),
        entry_value(ifd, 0x101),
        entry_value(ifd, 0x102),
        entry_value(ifd, 0x111),
        entry_value(ifd, 0x117),
    ) {
        (None, _, _, _, _) => Err(Error::MissingTag(0x100)),
        (_, None, _, _, _) => Err(Error::MissingTag(0x101)),
        (_, _, None, _, _) => Err(Error::MissingTag(0x102)),
        (_, _, _, None, _) => Err(Error::MissingTag(0x111)),
        (_, _, _, _, None) => Err(Error::MissingTag(0x117)),
        (Some(width), Some(height), Some(bps), Some(strip_start), Some(strip_len)) => Ok(
            RawLayout { width, height, bps: (bps % 65536) as u16, strip_start, strip_len },
        ),
    }
}

/// The frame that a decoder blob makes of a strip.
pub open spec fn blob_frame(blob: Seq<u8>, layout: RawLayout, stream: Seq<u8>) -> Frame {
    Frame {
        stream,
        width: layout.width as nat,
        height: layout.height as nat,
        bps: layout.bps as u32,
        split: spec_split(blob) as nat,
        first: nikon_lookup(spec_selector(blob[0], layout.bps as int)),
        second: nikon_lookup(spec_selector(blob[0], layout.bps as int) + 1),
        curve: curve_table(curve_points(blob, layout.bps as u32)),
    }
}

/// The samples that a strip decodes to with the parameters of a blob.
#[verifier::opaque]
pub open spec fn blob_decode(blob: Seq<u8>, layout: RawLayout, stream: Seq<u8>) -> Result<
    Seq<u16>,
    Error,
> {
    match state_error(blob, layout.bps) {
        Some(e) => Err(e),
        None => match frame_error(
            layout.width,
            layout.height,
            layout.bps as u32,
            spec_split(blob),
            spec_selector(blob[0], layout.bps as int),
        ) {
            Some(e) => Err(e),
            None => spec_decode(
                blob_frame(blob, layout, stream),
                (spec_le_u16(blob, 2), spec_le_u16(blob, 4)),
                (spec_le_u16(blob, 6), spec_le_u16(blob, 8)),
            ),
        },
    }
}

/// The raw image of a file with these directories: the directory of the raw
/// image says where the strip lies and how large the image is, and tag 0x96
/// of the MakerNote holds the parameters of the decoder.
pub open spec fn spec_raw_image(ifds: Seq<IfdView>, buf: Seq<u8>) -> Result<
    (RawLayout, Seq<u16>),
    Error,
> {
    match raw_index(ifds) {
        None => Err(Error::MissingTag(0x117)),
        Some(raw) => match raw_layout(ifds[raw]) {
            Err(e) => Err(e),
            Ok(layout) => if layout.strip_start + layout.strip_len > buf.len() {
                Err(Error::OutOfRange)
            } else {
                match note_index(ifds, 0) {
                    None => Err(Error::MissingTag(0x927C)),
                    Some(note) => match find_code_from(ifds[note].entries, 0x96, 0) {
                        None => Err(Error::MissingTag(0x96)),
                        Some(at) => match blob_decode(
                            ifds[note].entries[at].data(buf),
                            layout,
                            buf.subrange(
                                layout.strip_start,
                                layout.strip_start + layout.strip_len,
                            ),
                        ) {
                            Err(e) => Err(e),
                            Ok(samples) => Ok((layout, samples)),
                        },
                    },
                }
            },
        },
    }
}

/// The number in the last four bytes of the first entry with tag code
/// `code`.
fn tag_value(ifd: &Ifd, code: u16) -> (r: Option<usize>)
    requires
        ifd.wf(),
    ensures
        match r {
            Some(value) => value <= u32::MAX && entry_value(ifd@, code as int) == Some(
                value as int,
            ),
            None => entry_value(ifd@, code as int) is None,
        },
{
    match ifd.get_by_raw_tag(code) {
        Some(entry) => {
            let ghost at = find_code_from(ifd@.entries, code as int, 0)->Some_0;
            assert(ifd@.entries[at] == entry@);
            Some(entry.get_data_or_offset())
        },
        None => None,
    }
}

/// Finds the directory of the raw image.
pub fn select_raw_ifd(ifds: &Vec<Ifd>) -> (r: Option<usize>)
    requires
        forall|i: int| 0 <= i < ifds@.len() ==> (#[trigger] ifds@[i]).wf(),
    ensures
        match r {
            Some(i) => i < ifds@.len() && raw_index(views(ifds@)) == Some(i as int),
            None => raw_index(views(ifds@)) is None,
        },
{
    let mut i: usize = 0;
    while i < ifds.len()
        invariant
            i <= ifds@.len(),
            forall|k: int| 0 <= k < ifds@.len() ==> (#[trigger] ifds@[k]).wf(),
            first_cfa(views(ifds@), 0) == first_cfa(views(ifds@), i as int),
        decreases ifds@.len() - i,
    {
        assert(views(ifds@)[i as int] == ifds@[i as int]@);
        let cfa = match ifds[i].ifd_type {
            IfdType::Standard => match tag_value(&ifds[i], 0x106) {
                Some(value) => value == 0x8023,
                None => false,
            },
            IfdType::NikonMakerNote => false,
        };
        if cfa {
            return Some(i);
        }
        i += 1;
    }
    let mut best: Option<(usize, usize)> = None;
    let mut i: usize = 0;
    while i < ifds.len()
        invariant
            i <= ifds@.len(),
            forall|k: int| 0 <= k < ifds@.len() ==> (#[trigger] ifds@[k]).wf(),
            match largest_strip(views(ifds@), i as int) {
                Some(b) => 0 <= b < i && best == Some((b as usize, strip_size(
                    views(ifds@)[b],
                )->Some_0 as usize)) && strip_size(views(ifds@)[b]) is Some && strip_size(
                    views(ifds@)[b],
                )->Some_0 <= u32::MAX,
                None => best is None,
            },
        decreases ifds@.len() - i,
    {
        assert(views(ifds@)[i as int] == ifds@[i as int]@);
        let size = match ifds[i].ifd_type {
            IfdType::Standard => tag_value(&ifds[i], 0x117),
            IfdType::NikonMakerNote => None,
        };
        match size {
            Some(size) => {
                match best {
                    Some((_, largest)) => {
                        if size > largest {
                            best = Some((i, size));
                        }
                    },
                    None => {
                        best = Some((i, size));
                    },
                }
            },
            None => {},
        }
        i += 1;
    }
    match best {
        Some((at, _)) => Some(at),
        None => None,
    }
}

/// Finds the MakerNote directory.
pub fn select_makernote(ifds: &Vec<Ifd>) -> (r: Option<usize>)
    ensures
        match r {
            Some(i) => i < ifds@.len() && note_index(views(ifds@), 0) == Some(i as int),
            None => note_index(views(ifds@), 0) is None,
        },
{
    let mut i: usize = 0;
    while i < ifds.len()
        invariant
            i <= ifds@.len(),
            note_index(views(ifds@), 0) == note_index(views(ifds@), i as int),
        decreases ifds@.len() - i,
    {
        assert(views(ifds@)[i as int] == ifds@[i as int]@);
        match ifds[i].ifd_type {
            IfdType::NikonMakerNote => {
                return Some(i);
            },
            IfdType::Standard => {},
        }
        i += 1;
    }
    None
}

/// The first colour filter array directory, where there is one, is a
/// standard directory of the list.
pub proof fn lemma_first_cfa(ifds: Seq<IfdView>, from: int)
    requires
        0 <= from,
    ensures
        first_cfa(ifds, from) matches Some(i) ==> from <= i < ifds.len() && ifds[i].kind
            is Standard,
    decreases ifds.len() - from,
{
    if from < ifds.len() && !is_cfa(ifds[from]) {
        lemma_first_cfa(ifds, from + 1);
    }
}

/// The directory with the largest strip, where there is one, is a standard
/// directory of the list.
pub proof fn lemma_largest_strip(ifds: Seq<IfdView>, upto: int)
    ensures
        largest_strip(ifds, upto) matches Some(i) ==> 0 <= i < upto && i < ifds.len()
            && ifds[i].kind is Standard && strip_size(ifds[i]) is Some,
    decreases upto,
{
    if 0 < upto <= ifds.len() {
        lemma_largest_strip(ifds, upto - 1);
    }
}

/// The first MakerNote directory, where there is one, is a MakerNote
/// directory of the list.
pub proof fn lemma_note_index(ifds: Seq<IfdView>, from: int)
    requires
        0 <= from,
    ensures
        note_index(ifds, from) matches Some(i) ==> from <= i < ifds.len() && ifds[i].kind
            is NikonMakerNote,
    decreases ifds.len() - from,
{
    if from < ifds.len() && !(ifds[from].kind is NikonMakerNote) {
        lemma_note_index(ifds, from + 1);
    }
}

/// A file whose raw image can be decoded has at least two directories: the
/// one that describes the raw image, and the MakerNote.
pub proof fn lemma_valid_nef_has_two_ifds(ifds: Seq<IfdView>, buf: Seq<u8>)
    requires
        spec_raw_image(ifds, buf) is Ok,
    ensures
        ifds.len() >= 2,
        raw_index(ifds) is Some,
        note_index(ifds, 0) is Some,
        raw_index(ifds)->Some_0 != note_index(ifds, 0)->Some_0,
{
    lemma_first_cfa(ifds, 0);
    lemma_largest_strip(ifds, ifds.len() as int);
    lemma_note_index(ifds, 0);
}

/// Decoding is a function of the bytes of the file: whatever two runs read
/// from the same bytes, they find the same directories, and they end with
/// the same samples or with the same error.
pub proof fn lemma_decoding_is_deterministic(
    buf: Seq<u8>,
    first: Seq<IfdView>,
    second: Seq<IfdView>,
)
    requires
        file_ifds(buf) == Ok::<Seq<IfdView>, Error>(first),
        file_ifds(buf) == Ok::<Seq<IfdView>, Error>(second),
    ensures
        first == second,
        spec_raw_image(first, buf) == spec_raw_image(second, buf),
{
}

impl NefFile {
    /// The bytes of the file.
    pub open spec fn bytes(&self) -> Seq<u8> {
        self.buffer@
    }

    /// The directories are well-formed, and the value of every entry lies
    /// inside the file.
    pub open spec fn wf(&self) -> bool {
        all_sound(self.ifds@, self.bytes().len() as int)
    }

    /// Whether the directories are well-formed and the value of every entry
    /// lies inside the file. A file that `open` made is; one whose fields were
    /// written since may not be.
    pub fn is_sound(&self) -> (r: bool)
        ensures
            r == self.wf(),
    {
        let len = self.buffer.len();
        let mut i: usize = 0;
        while i < self.ifds.len()
            invariant
                i <= self.ifds@.len(),
                len == self.buffer@.len(),
                all_sound(self.ifds@.take(i as int), len as int),
            decreases self.ifds@.len() - i,
        {
            if !self.ifds[i].is_sound(len) {
                return false;
            }
            assert forall|k: int| 0 <= k < i + 1 implies (#[trigger] self.ifds@.take(i + 1)[k]).wf()
                && all_resolve(self.ifds@.take(i + 1)[k]@.entries, len as int) by {
                if k < i {
                    assert(self.ifds@.take(i as int)[k] == self.ifds@[k]);
                }
            }
            i += 1;
        }
        assert(self.ifds@.take(self.ifds@.len() as int) =~= self.ifds@);
        true
    }

    /// Takes the bytes of a file and reads its directories. Fails with
    /// `BadMagic` where the bytes do not start as a little-endian TIFF file
    /// does, and as the walk over the directories fails.
    pub fn open(file_name: String, buffer: Vec<u8>) -> (r: Result<NefFile, Error>)
        ensures
            match file_ifds(buffer@) {
                Ok(seen) => r is Ok && r->Ok_0.bytes() == buffer@ && views(r->Ok_0.ifds@) == seen
                    && r->Ok_0.wf() && r->Ok_0.file_name == file_name && r->Ok_0.ifds@.len() >= 1
                    && r->Ok_0.meta_data.image_size == 0 && r->Ok_0.image_data.height == 0,
                Err(e) => r is Err && r->Err_0 == e,
            },
    {
        let meta_data = ImageMetadata { image_size: 0 };
        let image_data = ImageData { height: 0 };
        let mut nef_file = NefFile { file_name, meta_data, image_data, ifds: Vec::new(), buffer };
        match nef_file.parse_ifds() {
            Ok(ifds) => {
                nef_file.ifds = ifds;
                Ok(nef_file)
            },
            Err(e) => Err(e),
        }
    }

    /// Reads the directories of the file from its start.
    pub fn parse_ifds(&self) -> (r: Result<Vec<Ifd>, Error>)
        ensures
            match file_ifds(self.bytes()) {
                Ok(seen) => r is Ok && views(r->Ok_0@) == seen && all_sound(
                    r->Ok_0@,
                    self.bytes().len() as int,
                ) && r->Ok_0@.len() >= 1,
                Err(e) => r == Err::<Vec<Ifd>, Error>(e),
            },
    {
        let buffer = self.buffer.as_slice();
        if buffer.len() < 4 || buffer[0] != 0x49 || buffer[1] != 0x49 || buffer[2] != 0x2A
            || buffer[3] != 0 {
            return Err(Error::BadMagic);
        }
        Ifd::parse_ifd(buffer, 0)
    }

    /// Decodes the raw image of the file.
    ///
    /// The directory of the raw image is the first that describes a colour
    /// filter array image or, where none does, the one with the largest strip.
    /// It gives the width, the height, the bit depth and the place of the
    /// strip. The decoder parameters are tag 0x96 of the first MakerNote
    /// directory. A success means that the file has at least two directories.
    pub fn parse_raw_image_data(&self) -> (r: Result<DecodedRaw, Error>)
        requires
            self.wf(),
        ensures
            match spec_raw_image(views(self.ifds@), self.bytes()) {
                Ok((layout, samples)) => {
                    &&& r is Ok
                    &&& r->Ok_0.width as int == layout.width
                    &&& r->Ok_0.height as int == layout.height
                    &&& r->Ok_0.samples@ == samples
                    &&& samples.len() == layout.width * layout.height
                    &&& self.ifds@.len() >= 2
                },
                Err(e) => r is Err && r->Err_0 == e,
            },
    {
        let buffer = self.buffer.as_slice();
        let ghost seen = views(self.ifds@);
        let raw = match select_raw_ifd(&self.ifds) {
            Some(raw) => raw,
            None => {
                return Err(Error::MissingTag(0x117));
            },
        };
        let data_ifd = &self.ifds[raw];
        assert(seen[raw as int] == data_ifd@);
        assert(raw_index(seen) == Some(raw as int));
        assert(buffer@ == self.bytes());
        let (width, height, tiff_bps, stripoffsets, stripbytecounts) = match read_layout(data_ifd) {
            Ok(found) => found,
            Err(e) => {
                return Err(e);
            },
        };
        let ghost layout = raw_layout(seen[raw as int])->Ok_0;
        if stripoffsets > buffer.len() || stripbytecounts > buffer.len() - stripoffsets {
            return Err(Error::OutOfRange);
        }
        let src = &buffer[stripoffsets..stripoffsets + stripbytecounts];
        let note = match select_makernote(&self.ifds) {
            Some(note) => note,
            None => {
                return Err(Error::MissingTag(0x927C));
            },
        };
        let makernote_ifd = &self.ifds[note];
        assert(seen[note as int] == makernote_ifd@);
        proof {
            lemma_find_code(makernote_ifd@.entries, 0x96, 0);
        }
        let blob = match find_decoder_blob(makernote_ifd, buffer) {
            Ok(blob) => blob,
            Err(e) => {
                return Err(e);
            },
        };
        let samples = match decode_with_blob(
            blob,
            src,
            width,
            height,
            tiff_bps,
            Ghost(layout),
        ) {
            Ok(samples) => samples,
            Err(e) => {
                return Err(e);
            },
        };
        proof {
            lemma_valid_nef_has_two_ifds(seen, buffer@);
        }
        Ok(DecodedRaw { width: width as u32, height: height as u32, samples })
    }
}

/// Reads what a directory says of its image: width, height, bit depth, and
/// the place and size of the strip.
fn read_layout(ifd: &Ifd) -> (r: Result<(usize, usize, u16, usize, usize), Error>)
    requires
        ifd.wf(),
    ensures
        match raw_layout(ifd@) {
            Ok(layout) => {
                &&& r is Ok
                &&& r->Ok_0.0 as int == layout.width
                &&& r->Ok_0.1 as int == layout.height
                &&& r->Ok_0.2 == layout.bps
                &&& r->Ok_0.3 as int == layout.strip_start
                &&& r->Ok_0.4 as int == layout.strip_len
                &&& layout.width <= u32::MAX
                &&& layout.height <= u32::MAX
            },
            Err(e) => r == Err::<(usize, usize, u16, usize, usize), Error>(e),
        },
{
    let width = match tag_value(ifd, 0x100) {
        Some(value) => value,
        None => {
            return Err(Error::MissingTag(0x100));
        },
    };
    let height = match tag_value(ifd, 0x101) {
        Some(value) => value,
        None => {
            return Err(Error::MissingTag(0x101));
        },
    };
    let tiff_bps = match tag_value(ifd, 0x102) {
        Some(value) => (value % 65536) as u16,
        None => {
            return Err(Error::MissingTag(0x102));
        },
    };
    let stripoffsets = match tag_value(ifd, 0x111) {
        Some(value) => value,
        None => {
            return Err(Error::MissingTag(0x111));
        },
    };
    let stripbytecounts = match tag_value(ifd, 0x117) {
        Some(value) => value,
        None => {
            return Err(Error::MissingTag(0x117));
        },
    };
    Ok((width, height, tiff_bps, stripoffsets, stripbytecounts))
}

/// The bytes of tag 0x96 of a MakerNote directory: the decoder parameters.
pub fn find_decoder_blob<'a>(makernote: &'a Ifd, buffer: &'a [u8]) -> (r: Result<&'a [u8], Error>)
    requires
        makernote.wf(),
    ensures
        match find_code_from(makernote@.entries, 0x96, 0) {
            None => r is Err && r->Err_0 == Error::MissingTag(0x96),
            Some(at) => if makernote@.entries[at].resolves(buffer@.len() as int) {
                r is Ok && r->Ok_0@ == makernote@.entries[at].data(buffer@)
            } else {
                r is Err && r->Err_0 == Error::OutOfRange
            },
        },
{
    let entry_0x96 = match makernote.get_by_raw_tag(0x96) {
        Some(entry) => entry,
        None => {
            return Err(Error::MissingTag(0x96));
        },
    };
    let ghost at = find_code_from(makernote@.entries, 0x96, 0)->Some_0;
    assert(makernote@.entries[at] == entry_0x96@);
    entry_0x96.read_data(buffer)
}

/// Decodes a strip with the parameters that a blob holds.
fn decode_with_blob(
    blob: &[u8],
    src: &[u8],
    width: usize,
    height: usize,
    tiff_bps: u16,
    Ghost(layout): Ghost<RawLayout>,
) -> (r: Result<Vec<u16>, Error>)
    requires
        layout.width == width,
        layout.height == height,
        layout.bps == tiff_bps,
    ensures
        match blob_decode(blob@, layout, src@) {
            Ok(samples) => r is Ok && r->Ok_0@ == samples && samples.len() == width * height,
            Err(e) => r == Err::<Vec<u16>, Error>(e),
        },
{
    proof {
        reveal(blob_decode);
    }
    let state = match parse_decoder_state(blob, tiff_bps) {
        Ok(state) => state,
        Err(e) => {
            return Err(e);
        },
    };
    assert(state.frame(src@, width as nat, height as nat) == blob_frame(blob@, layout, src@));
    do_decode(src, width, height, &state)
}

/// Whether `low` and `high` are the least and the greatest of the samples.
pub open spec fn is_range_of(samples: Seq<u16>, low: u16, high: u16) -> bool {
    &&& forall|i: int| 0 <= i < samples.len() ==> low <= (#[trigger] samples[i]) <= high
    &&& exists|i: int| 0 <= i < samples.len() && samples[i] == low
    &&& exists|i: int| 0 <= i < samples.len() && samples[i] == high
}

/// The least and the greatest of the samples; `None` where there are no
/// samples. A viewer scales the samples between the two.
pub fn sample_range(raw: &[u16]) -> (r: Option<(u16, u16)>)
    ensures
        match r {
            Some((low, high)) => raw@.len() > 0 && is_range_of(raw@, low, high),
            None => raw@.len() == 0,
        },
{
    if raw.len() == 0 {
        return None;
    }
    let mut min_v = raw[0];
    let mut max_v = raw[0];
    let mut i: usize = 1;
    while i < raw.len()
        invariant
            1 <= i <= raw@.len(),
            forall|k: int| 0 <= k < i ==> min_v <= (#[trigger] raw@[k]) <= max_v,
            exists|k: int| 0 <= k < i && raw@[k] == min_v,
            exists|k: int| 0 <= k < i && raw@[k] == max_v,
        decreases raw@.len() - i,
    {
        let v = raw[i];
        if v < min_v {
            min_v = v;
        }
        if v > max_v {
            max_v = v;
        }
        i += 1;
    }
    Some((min_v, max_v))
}

} // verus!
