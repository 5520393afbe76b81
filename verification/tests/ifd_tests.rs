use nef_decoder::error::Error;
use nef_decoder::ifd::{Ifd, IfdEntry, MAX_IFD_DEPTH};
use nef_decoder::tags::{IfdEntryTag, IfdEntryType, IfdType, TagParam};

const TIFF_HEADER: [u8; 8] = [0x49, 0x49, 0x2A, 0x00, 8, 0, 0, 0];

fn record(tag: u16, kind: u16, count: u32, value: u32) -> [u8; 12] {
    let t = tag.to_le_bytes();
    let k = kind.to_le_bytes();
    let c = count.to_le_bytes();
    let v = value.to_le_bytes();
    [t[0], t[1], k[0], k[1], c[0], c[1], c[2], c[3], v[0], v[1], v[2], v[3]]
}

fn directory(records: &[[u8; 12]], next: Option<u32>) -> Vec<u8> {
    let mut out = Vec::new();
    out.extend_from_slice(&(records.len() as u16).to_le_bytes());
    for r in records {
        out.extend_from_slice(r);
    }
    if let Some(link) = next {
        out.extend_from_slice(&link.to_le_bytes());
    }
    out
}

fn place(buffer: &mut Vec<u8>, at: usize, bytes: &[u8]) {
    if buffer.len() < at + bytes.len() {
        buffer.resize(at + bytes.len(), 0);
    }
    buffer[at..at + bytes.len()].copy_from_slice(bytes);
}

#[test]
fn single_empty_directory_is_one_ifd() {
    let mut buffer = TIFF_HEADER.to_vec();
    buffer.extend_from_slice(&directory(&[], Some(0)));
    let ifds = Ifd::parse_ifd(&buffer, 0).unwrap();
    assert_eq!(ifds.len(), 1);
    assert_eq!(ifds[0].ifd_type, IfdType::Standard);
    assert_eq!(ifds[0].ifd_buffer_start_point, 0);
    assert!(ifds[0].entries.is_empty());
}

#[test]
fn zero_count_entry_has_no_data() {
    let entry = IfdEntry::parse_entry(&record(0x100, 4, 0, 0xdeadbeef), None);
    assert_eq!(entry.count, 0);
    assert_eq!(entry.data_length, 0);
    assert!(!entry.offset);
    let empty: &[u8] = &[];
    assert_eq!(entry.read_data(&[1, 2, 3]), Ok(empty));
    assert_eq!(entry.read_data(&[]), Ok(empty));
}

#[test]
fn entry_of_four_bytes_is_inline() {
    let long = IfdEntry::parse_entry(&record(0x100, 4, 1, 0x04030201), None);
    assert_eq!(long.data_length, 4);
    assert!(!long.offset);
    let four: &[u8] = &[1, 2, 3, 4];
    assert_eq!(long.read_data(&[]), Ok(four));
    let shorts = IfdEntry::parse_entry(&record(0x102, 3, 2, 0x000e000c), None);
    assert_eq!(shorts.data_length, 4);
    assert!(!shorts.offset);
    let short = IfdEntry::parse_entry(&record(0x102, 3, 1, 0xffff000c), None);
    assert_eq!(short.data_length, 2);
    let two: &[u8] = &[0x0c, 0x00];
    assert_eq!(short.read_data(&[9, 9, 9, 9, 9, 9]), Ok(two));
    let five = IfdEntry::parse_entry(&record(0x10F, 1, 5, 0), None);
    assert_eq!(five.data_length, 5);
    assert!(five.offset);
}

#[test]
fn parse_entry_reads_every_field() {
    let raw = record(0x111, 4, 3, 0x1000);
    let entry = IfdEntry::parse_entry(&raw, Some(150));
    assert_eq!(entry.ifd_buffer_start_point, 150);
    assert_eq!(entry.tag, IfdEntryTag::StripOffsets);
    assert_eq!(entry.data_type, IfdEntryType::UnsignedLong(4));
    assert_eq!(entry.count, 3);
    assert_eq!(entry.data_length, 12);
    assert!(entry.offset);
    assert_eq!(entry.data_or_offset, [0x00, 0x10, 0, 0]);
    assert_eq!(entry.raw_entry, raw);
    assert_eq!(entry.get_data_or_offset(), 0x1000);
    let unnamed = IfdEntry::parse_entry(&record(0x96, 7, 0x20000, 0x30), None);
    assert_eq!(unnamed.tag, IfdEntryTag::Unknown(0x96));
    assert_eq!(unnamed.data_type, IfdEntryType::Undefined(1));
    assert_eq!(unnamed.data_length, 0x20000);
    assert_eq!(unnamed.ifd_buffer_start_point, 0);
}

#[test]
fn data_length_is_count_times_width() {
    let rational = IfdEntry::parse_entry(&record(0x11A, 5, 0xffff_ffff, 0), None);
    assert_eq!(rational.data_length, 0xffff_ffffu64 * 8);
    assert!(rational.offset);
    let unknown = IfdEntry::parse_entry(&record(0x11A, 13, 1000, 0), None);
    assert_eq!(unknown.data_type, IfdEntryType::Unknown(13));
    assert_eq!(unknown.data_length, 0);
    assert!(!unknown.offset);
    let double = IfdEntry::parse_entry(&record(0x11A, 12, 1, 0), None);
    assert_eq!(double.data_length, 8);
    assert!(double.offset);
}

#[test]
fn offset_entry_resolves_up_to_the_end_of_the_buffer() {
    let entry = IfdEntry::parse_entry(&record(0x10F, 1, 6, 10), None);
    let buffer: Vec<u8> = (0u8..16).collect();
    let tail: &[u8] = &[10, 11, 12, 13, 14, 15];
    assert_eq!(entry.read_data(&buffer), Ok(tail));
    assert_eq!(entry.read_data(&buffer[..15]), Err(Error::OutOfRange));
    assert_eq!(entry.read_data(&buffer[..5]), Err(Error::OutOfRange));
    let based = IfdEntry::parse_entry(&record(0x10F, 1, 6, 6), Some(4));
    assert_eq!(based.read_data(&buffer), Ok(tail));
    assert_eq!(based.read_data(&buffer[..15]), Err(Error::OutOfRange));
    let far = IfdEntry::parse_entry(&record(0x10F, 1, 6, 0xffff_fff0), Some(usize::MAX - 3));
    assert_eq!(far.read_data(&buffer), Err(Error::OutOfRange));
}

#[test]
fn parse_accepts_a_value_that_ends_with_the_buffer() {
    // header, one entry of six bytes at offset 26, link: 8 + 2 + 12 + 4 = 26
    let mut buffer = TIFF_HEADER.to_vec();
    buffer.extend_from_slice(&directory(&[record(0x10F, 2, 6, 26)], Some(0)));
    buffer.extend_from_slice(b"Nikon\0");
    assert_eq!(buffer.len(), 32);
    let ifds = Ifd::parse_ifd(&buffer, 0).unwrap();
    assert_eq!(ifds.len(), 1);
    assert_eq!(ifds[0].entries.len(), 1);
    let make: &[u8] = b"Nikon\0";
    assert_eq!(ifds[0].entries[0].read_data(&buffer), Ok(make));
    buffer.pop();
    assert_eq!(Ifd::parse_ifd(&buffer, 0), Err(Error::OutOfRange));
}

#[test]
fn parse_rejects_what_does_not_fit() {
    assert_eq!(Ifd::parse_ifd(&[], 0), Err(Error::OutOfRange));
    assert_eq!(Ifd::parse_ifd(&[0], 0), Err(Error::OutOfRange));
    assert_eq!(Ifd::parse_ifd(&[1, 2, 3], 4), Err(Error::OutOfRange));
    assert_eq!(Ifd::parse_ifd(&[1, 2, 3], usize::MAX), Err(Error::OutOfRange));
    // the header alone: no entry count behind it
    assert_eq!(Ifd::parse_ifd(&TIFF_HEADER, 0), Err(Error::OutOfRange));
    // an entry count of two, one record
    let mut short = TIFF_HEADER.to_vec();
    short.extend_from_slice(&[2, 0]);
    short.extend_from_slice(&record(0x100, 4, 1, 1));
    assert_eq!(Ifd::parse_ifd(&short, 0), Err(Error::OutOfRange));
    // the records are there, the link is not
    let mut no_link = TIFF_HEADER.to_vec();
    no_link.extend_from_slice(&directory(&[record(0x100, 4, 1, 1)], None));
    assert_eq!(Ifd::parse_ifd(&no_link, 0), Err(Error::OutOfRange));
    no_link.extend_from_slice(&[0, 0, 0]);
    assert_eq!(Ifd::parse_ifd(&no_link, 0), Err(Error::OutOfRange));
    no_link.push(0);
    assert_eq!(Ifd::parse_ifd(&no_link, 0).unwrap().len(), 1);
}

#[test]
fn directory_without_a_header_starts_at_once() {
    let mut buffer = vec![0xEEu8; 5];
    buffer.extend_from_slice(&directory(&[record(0x100, 4, 1, 640), record(0x101, 4, 1, 480)], Some(0)));
    let ifds = Ifd::parse_ifd(&buffer, 5).unwrap();
    assert_eq!(ifds.len(), 1);
    assert_eq!(ifds[0].ifd_type, IfdType::Standard);
    assert_eq!(ifds[0].ifd_buffer_start_point, 5);
    assert_eq!(ifds[0].entries.len(), 2);
    assert_eq!(ifds[0].entries[0].tag, IfdEntryTag::ImageWidth);
    assert_eq!(ifds[0].entries[1].get_data_or_offset(), 480);
    assert_eq!(ifds[0].entries[1].ifd_buffer_start_point, 5);
}

#[test]
fn links_are_followed_depth_first() {
    // 0: header, 8: root, 100: sub A, 200: sub B, 300: exif, 400: next, 500: child of sub A
    let mut buffer = TIFF_HEADER.to_vec();
    let root = directory(
        &[
            record(0x8769, 4, 1, 300),
            record(0x14A, 4, 2, 60),
            record(0x100, 4, 1, 1),
        ],
        Some(400),
    );
    place(&mut buffer, 8, &root);
    place(&mut buffer, 60, &[100, 0, 0, 0, 200, 0, 0, 0]);
    place(&mut buffer, 100, &directory(&[record(0x14A, 4, 1, 500), record(0x100, 4, 1, 2)], Some(0)));
    place(&mut buffer, 200, &directory(&[record(0x100, 4, 1, 3)], Some(0)));
    place(&mut buffer, 300, &directory(&[record(0x100, 4, 1, 4)], Some(0)));
    place(&mut buffer, 400, &directory(&[record(0x100, 4, 1, 5)], Some(0)));
    place(&mut buffer, 500, &directory(&[record(0x100, 4, 1, 6)], Some(0)));
    let ifds = Ifd::parse_ifd(&buffer, 0).unwrap();
    let starts: Vec<usize> = ifds.iter().map(|ifd| ifd.ifd_buffer_start_point).collect();
    assert_eq!(starts, vec![0, 100, 500, 200, 300, 400]);
    let widths: Vec<usize> = ifds
        .iter()
        .map(|ifd| ifd.get_entry(TagParam::IfdEntry(IfdEntryTag::ImageWidth)).unwrap().get_data_or_offset())
        .collect();
    assert_eq!(widths, vec![1, 2, 6, 3, 4, 5]);
}

#[test]
fn sub_directory_list_with_a_short_last_chunk() {
    // six bytes of offsets: one whole offset and a chunk of two bytes
    let mut buffer = TIFF_HEADER.to_vec();
    place(&mut buffer, 8, &directory(&[record(0x14A, 1, 6, 40)], Some(0)));
    place(&mut buffer, 40, &[100, 0, 0, 0, 200, 0]);
    place(&mut buffer, 100, &directory(&[], Some(0)));
    place(&mut buffer, 200, &directory(&[], Some(0)));
    let ifds = Ifd::parse_ifd(&buffer, 0).unwrap();
    let starts: Vec<usize> = ifds.iter().map(|ifd| ifd.ifd_buffer_start_point).collect();
    assert_eq!(starts, vec![0, 100, 200]);
}

#[test]
fn makernote_is_recognised_and_not_followed() {
    for version in [0x00u8, 0x10, 0x11] {
        let mut buffer = TIFF_HEADER.to_vec();
        place(&mut buffer, 8, &directory(&[record(0x927C, 7, 4, 40)], Some(0)));
        place(&mut buffer, 40, &[0x4E, 0x69, 0x6B, 0x6F, 0x6E, 0x00, 0x02, version, 0x00, 0x00]);
        place(&mut buffer, 50, &TIFF_HEADER);
        // a MakerNote whose entries would lead on if they were followed
        place(
            &mut buffer,
            58,
            &directory(&[record(0x96, 7, 4, 0x11223344), record(0x14A, 4, 1, 8)], None),
        );
        let ifds = Ifd::parse_ifd(&buffer, 0).unwrap();
        assert_eq!(ifds.len(), 2);
        assert_eq!(ifds[1].ifd_type, IfdType::NikonMakerNote);
        assert_eq!(ifds[1].ifd_buffer_start_point, 50);
        assert_eq!(ifds[1].entries.len(), 2);
        assert_eq!(ifds[1].entries[0].ifd_buffer_start_point, 50);
        assert_eq!(ifds[1].entries[0].tag, IfdEntryTag::Unknown(0x96));
    }
}

#[test]
fn makernote_offsets_are_relative_to_its_header() {
    let mut buffer = vec![0u8; 40];
    place(&mut buffer, 40, &[0x4E, 0x69, 0x6B, 0x6F, 0x6E, 0x00, 0x02, 0x10, 0x00, 0x00]);
    place(&mut buffer, 50, &TIFF_HEADER);
    place(&mut buffer, 58, &directory(&[record(0x96, 7, 6, 30)], None));
    place(&mut buffer, 80, &[1, 2, 3, 4, 5, 6]);
    let ifds = Ifd::parse_ifd(&buffer, 40).unwrap();
    assert_eq!(ifds.len(), 1);
    let blob: &[u8] = &[1, 2, 3, 4, 5, 6];
    assert_eq!(ifds[0].entries[0].read_data(&buffer), Ok(blob));
    buffer.pop();
    assert_eq!(Ifd::parse_ifd(&buffer, 40), Err(Error::OutOfRange));
}

#[test]
fn makernote_without_a_tiff_header_is_bad_magic() {
    let mut buffer = vec![0u8; 0];
    place(&mut buffer, 0, &[0x4E, 0x69, 0x6B, 0x6F, 0x6E, 0x00, 0x02, 0x10, 0x00, 0x00]);
    place(&mut buffer, 10, &[0x4D, 0x4D, 0x00, 0x2A, 0, 0, 0, 8]);
    place(&mut buffer, 18, &directory(&[], Some(0)));
    assert_eq!(Ifd::parse_ifd(&buffer, 0), Err(Error::BadMagic));
    // the signature with nothing behind it
    assert_eq!(
        Ifd::parse_ifd(&[0x4E, 0x69, 0x6B, 0x6F, 0x6E, 0x00, 0x02, 0x11, 0x00, 0x00], 0),
        Err(Error::BadMagic)
    );
}

#[test]
fn unknown_makernote_version_is_read_as_a_plain_directory() {
    // version 2.20 is no MakerNote signature: the bytes are taken as a directory
    let mut buffer = vec![0x4Eu8, 0x69, 0x6B, 0x6F, 0x6E, 0x00, 0x02, 0x20, 0x00, 0x00];
    buffer.extend_from_slice(&TIFF_HEADER);
    assert_eq!(Ifd::parse_ifd(&buffer, 0), Err(Error::OutOfRange));
}

#[test]
fn directory_that_links_to_itself_is_bad_magic() {
    let mut buffer = TIFF_HEADER.to_vec();
    buffer.extend_from_slice(&directory(&[], Some(0)));
    assert!(Ifd::parse_ifd(&buffer, 0).is_ok());
    // the next link leads back to the start
    let mut looped = vec![0xEEu8; 4];
    looped.extend_from_slice(&directory(&[], Some(4)));
    assert_eq!(Ifd::parse_ifd(&looped, 4), Err(Error::BadMagic));
    // two sub-directory pointers to one directory
    let mut twice = TIFF_HEADER.to_vec();
    place(&mut twice, 8, &directory(&[record(0x14A, 4, 2, 40)], Some(0)));
    place(&mut twice, 40, &[100, 0, 0, 0, 100, 0, 0, 0]);
    place(&mut twice, 100, &directory(&[], Some(0)));
    assert_eq!(Ifd::parse_ifd(&twice, 0), Err(Error::BadMagic));
    // an Exif pointer of zero leads back to the start
    let mut exif = TIFF_HEADER.to_vec();
    place(&mut exif, 8, &directory(&[record(0x8769, 4, 1, 0)], Some(0)));
    assert_eq!(Ifd::parse_ifd(&exif, 0), Err(Error::BadMagic));
}

#[test]
fn chain_of_directories_is_capped() {
    let chain = |count: usize| -> Vec<u8> {
        let mut buffer = Vec::new();
        for i in 0..count {
            let next = if i + 1 < count { ((i + 1) * 8) as u32 } else { 0 };
            place(&mut buffer, i * 8, &directory(&[], Some(next)));
        }
        // the first directory is at offset 0 and links to 8, 16, ...
        buffer
    };
    assert_eq!(MAX_IFD_DEPTH, 32);
    // offsets start at 8 so that no link is zero
    let mut fits = vec![0xEEu8; 8];
    fits.extend_from_slice(&chain(1));
    let mut buffer = vec![0u8; 0];
    for i in 0..32usize {
        let next = if i + 1 < 32 { ((i + 2) * 8) as u32 } else { 0 };
        place(&mut buffer, (i + 1) * 8, &directory(&[], Some(next)));
    }
    let ifds = Ifd::parse_ifd(&buffer, 8).unwrap();
    assert_eq!(ifds.len(), 32);
    assert_eq!(ifds[31].ifd_buffer_start_point, 32 * 8);
    let mut deep = vec![0u8; 0];
    for i in 0..33usize {
        let next = if i + 1 < 33 { ((i + 2) * 8) as u32 } else { 0 };
        place(&mut deep, (i + 1) * 8, &directory(&[], Some(next)));
    }
    assert_eq!(Ifd::parse_ifd(&deep, 8), Err(Error::BadMagic));
    assert_eq!(Ifd::parse_ifd(&fits, 8).unwrap().len(), 1);
}

#[test]
fn get_entry_finds_the_first_match() {
    let mut buffer = TIFF_HEADER.to_vec();
    buffer.extend_from_slice(&directory(
        &[
            record(0x100, 4, 1, 11),
            record(0x96, 7, 1, 22),
            record(0x100, 4, 1, 33),
            record(0x96, 7, 1, 44),
            record(0x1234, 4, 1, 55),
        ],
        Some(0),
    ));
    let ifds = Ifd::parse_ifd(&buffer, 0).unwrap();
    let ifd = &ifds[0];
    let width = ifd.get_entry(TagParam::IfdEntry(IfdEntryTag::ImageWidth)).unwrap();
    assert_eq!(width.get_data_or_offset(), 11);
    assert_eq!(ifd.get_entry(TagParam::U8(0x96)).unwrap().get_data_or_offset(), 22);
    assert_eq!(ifd.get_by_raw_tag(0x96).unwrap().get_data_or_offset(), 22);
    assert_eq!(ifd.get_by_raw_tag(0x100).unwrap().get_data_or_offset(), 11);
    assert_eq!(ifd.get_by_raw_tag(0x1234).unwrap().get_data_or_offset(), 55);
    assert_eq!(
        ifd.get_entry(TagParam::IfdEntry(IfdEntryTag::Unknown(0x1234))).unwrap().get_data_or_offset(),
        55
    );
    assert!(ifd.get_entry(TagParam::IfdEntry(IfdEntryTag::ImageLength)).is_none());
    assert!(ifd.get_entry(TagParam::U8(0x8C)).is_none());
    assert!(ifd.get_by_raw_tag(0x101).is_none());
    // a named code never hides in `Unknown`
    assert!(ifd.get_entry(TagParam::IfdEntry(IfdEntryTag::Unknown(0x100))).is_none());
}

#[test]
fn get_offset_data_gives_the_value() {
    let buffer: Vec<u8> = (0u8..32).collect();
    let large = IfdEntry::parse_entry(&record(0x10F, 1, 5, 20), None);
    let five: &[u8] = &[20, 21, 22, 23, 24];
    assert_eq!(large.get_offset_data(&buffer), Ok(five));
    // a small value is held in the record: the buffer is not consulted
    let small = IfdEntry::parse_entry(&record(0x10F, 1, 3, 0x00070914), None);
    let three: &[u8] = &[0x14, 0x09, 0x07];
    assert_eq!(small.get_offset_data(&buffer), Ok(three));
    assert_eq!(small.get_offset_data(&[]), Ok(three));
    let depth = IfdEntry::parse_entry(&[0x02, 0x01, 3, 0, 1, 0, 0, 0, 0x0E, 0, 0, 0], None);
    let fourteen: &[u8] = &[0x0E, 0x00];
    assert_eq!(depth.get_offset_data(&buffer), Ok(fourteen));
    assert_eq!(depth.get_offset_data(&[]), Ok(fourteen));
    assert_eq!(depth.get_offset_data(&[0xAA; 3]), Ok(fourteen));
    // the strip offsets are a value like any other
    let strip = IfdEntry::parse_entry(&record(0x111, 4, 1, 28), None);
    let four: &[u8] = &[28, 0, 0, 0];
    assert_eq!(strip.get_offset_data(&buffer), Ok(four));
    let beyond = IfdEntry::parse_entry(&record(0x111, 4, 1, 0xffff_fff0), None);
    let wide: &[u8] = &[0xf0, 0xff, 0xff, 0xff];
    assert_eq!(beyond.get_offset_data(&buffer), Ok(wide));
    let none: &[u8] = &[];
    let empty = IfdEntry::parse_entry(&record(0x111, 4, 0, 28), None);
    assert_eq!(empty.get_offset_data(&buffer), Ok(none));
    let based = IfdEntry::parse_entry(&record(0x10F, 1, 5, 20), Some(8));
    assert_eq!(based.get_offset_data(&buffer), Err(Error::OutOfRange));
    let based_fits = IfdEntry::parse_entry(&record(0x10F, 1, 5, 19), Some(8));
    let last: &[u8] = &[27, 28, 29, 30, 31];
    assert_eq!(based_fits.get_offset_data(&buffer), Ok(last));
    assert_eq!(based_fits.get_offset_data(&buffer[..31]), Err(Error::OutOfRange));
    // the two ways to the value agree
    for entry in [large, small, depth, strip, beyond, empty, based, based_fits] {
        assert_eq!(entry.get_offset_data(&buffer), entry.read_data(&buffer));
    }
}

#[test]
fn readable_value_of_an_entry() {
    let text = IfdEntry::parse_entry(&[0x0F, 0x01, 2, 0, 4, 0, 0, 0, b'a', b'b', b'c', b'd'], None);
    assert_eq!(text.get_human_readable_value(), "abcd");
    let number = IfdEntry::parse_entry(&record(0x100, 4, 1, 0x64636261), None);
    assert_eq!(number.get_human_readable_value(), "Not implemented yet");
    let offset = IfdEntry::parse_entry(&[0x0F, 0x01, 2, 0, 9, 0, 0, 0, b'N', b'E', b'F', b'!'], None);
    assert_eq!(offset.get_human_readable_value(), "NEF!");
    let broken = IfdEntry::parse_entry(&[0x0F, 0x01, 2, 0, 4, 0, 0, 0, b'a', 0xFF, b'c', 0], None);
    assert_eq!(broken.get_human_readable_value(), "a\u{FFFD}c\0");
}

#[test]
fn unpacked_image_of_a_directory() {
    let mut buffer = TIFF_HEADER.to_vec();
    place(
        &mut buffer,
        8,
        &directory(
            &[
                record(0x100, 4, 1, 2),
                record(0x101, 4, 1, 2),
                record(0x111, 4, 1, 100),
                record(0x115, 3, 1, 1),
                record(0x116, 4, 1, 2),
                record(0x117, 4, 1, 8),
            ],
            Some(0),
        ),
    );
    place(&mut buffer, 100, &[0x01, 0x00, 0x02, 0x40, 0xff, 0xff, 0x34, 0x12]);
    let ifds = Ifd::parse_ifd(&buffer, 0).unwrap();
    // the rows of the strip come out from the last row of the image to the first
    assert_eq!(ifds[0].get_image_data(&buffer), Some(vec![0x3fff, 0x1234, 0x0001, 0x0002]));
    assert_eq!(ifds[0].get_image_data(&buffer[..107]), None);
}

#[test]
fn unpacked_image_needs_all_its_tags() {
    let all = [
        record(0x100, 4, 1, 2),
        record(0x101, 4, 1, 1),
        record(0x111, 4, 1, 0),
        record(0x115, 3, 1, 1),
        record(0x116, 4, 1, 1),
        record(0x117, 4, 1, 4),
    ];
    for missing in 0..all.len() {
        let mut records = all.to_vec();
        records.remove(missing);
        let buffer = directory(&records, Some(0));
        let ifds = Ifd::parse_ifd(&buffer, 0).unwrap();
        assert_eq!(ifds[0].get_image_data(&buffer), None);
    }
    let buffer = directory(&all, Some(0));
    let ifds = Ifd::parse_ifd(&buffer, 0).unwrap();
    assert_eq!(ifds[0].get_image_data(&buffer), Some(vec![6, 0x0100]));
    // no rows per strip, no width, too wide
    for (at, value) in [(4usize, 0u32), (0, 0), (0, 50001)] {
        let mut records = all.to_vec();
        let tag = u16::from_le_bytes([records[at][0], records[at][1]]);
        let kind = u16::from_le_bytes([records[at][2], records[at][3]]);
        records[at] = record(tag, kind, 1, value);
        let buffer = directory(&records, Some(0));
        let ifds = Ifd::parse_ifd(&buffer, 0).unwrap();
        assert_eq!(ifds[0].get_image_data(&buffer), None);
    }
}

#[test]
fn preview_of_a_directory() {
    let mut buffer = TIFF_HEADER.to_vec();
    place(
        &mut buffer,
        8,
        &directory(
            &[record(0x103, 3, 1, 6), record(0x201, 4, 1, 60), record(0x202, 4, 1, 5)],
            Some(0),
        ),
    );
    place(&mut buffer, 60, &[0xFF, 0xD8, 0xFF, 0xE0, 0x00, 0x77]);
    let ifds = Ifd::parse_ifd(&buffer, 0).unwrap();
    let jpeg: &[u8] = &[0xFF, 0xD8, 0xFF, 0xE0, 0x00];
    assert_eq!(ifds[0].get_thumbnail_data(&buffer), Some(jpeg));
    assert_eq!(ifds[0].get_thumbnail_data(&buffer[..64]), None);
    buffer[61] = 0xD9;
    assert_eq!(ifds[0].get_thumbnail_data(&buffer), None);
    let plain = directory(&[record(0x201, 4, 1, 60), record(0x202, 4, 1, 5)], Some(0));
    let ifds = Ifd::parse_ifd(&plain, 0).unwrap();
    assert_eq!(ifds[0].get_thumbnail_data(&buffer), None);
}
