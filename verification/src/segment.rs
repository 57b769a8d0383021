//! The segment stream of a costume save.
//!
//! A file is a two-byte start-of-image marker followed by segments. A segment
//! is a two-byte marker, a big-endian 16-bit length that counts itself, and a
//! payload. One segment, marked `FF ED`, is the metadata segment: it holds an
//! identifier, a signature, a resource id, a name, a 32-bit resource length
//! and then that many bytes of records. What stands before it and what stands
//! after its records is kept as it is and never looked into.

use crate::dataset::{all_well_formed, big_endian_16, decode_records, encode_records, Record};
use vstd::prelude::*;
use vstd::utf8::valid_utf8;

verus! {

/// The size of the start-of-image marker.
pub const START_OF_IMAGE_LEN: usize = 2;

/// The size of a segment's marker and length field together.
pub const SEGMENT_HEADER_LEN: usize = 4;

/// The marker of the metadata segment.
pub const APP_13_SEGMENT_MARKER: [u8; 2] = [0xFF, 0xED];

/// The metadata segment's identifier: the text `Photoshop 3.0` and a
/// terminating zero.
pub const APP_13_SEGMENT_ID: [u8; 14] = [
    0x50, 0x68, 0x6F, 0x74, 0x6F, 0x73, 0x68, 0x6F, 0x70, 0x20, 0x33, 0x2E, 0x30, 0x00,
];

/// The metadata segment's signature: the text `8BIM`.
pub const APP_13_SEGMENT_SIGNATURE: [u8; 4] = [0x38, 0x42, 0x49, 0x4D];

/// The id of the resource that holds the records.
pub const APP_13_RESOURCE_ID: [u8; 2] = [0x04, 0x04];

/// The resource's name, which this format leaves empty.
pub const APP_13_RESOURCE_NAME: [u8; 2] = [0x00, 0x00];

/// The size of what the metadata segment holds between its length field and
/// its records, without the resource length: identifier, signature, resource
/// id and name.
pub const APP_13_FIXED_LEN: usize = 22;

/// The size of what stands between the end of the identifier and the first
/// record: signature, resource id, name and resource length.
pub const AFTER_IDENTIFIER_LEN: usize = 12;

/// The size of the metadata segment's header as this codec writes it, from
/// the marker up to the first record.
pub const METADATA_HEADER_LEN: usize = 30;

/// The largest number of record bytes whose segment length still fits its
/// 16-bit field.
pub const MAX_RESOURCE_LEN: usize = 0xFFFF - 24;

/// The value of four bytes read as a big-endian number.
pub open spec fn big_endian_32(b0: u8, b1: u8, b2: u8, b3: u8) -> int {
    b0 as int * 0x100_0000 + b1 as int * 0x1_0000 + b2 as int * 0x100 + b3 as int
}

/// The two bytes that spell `value` as a big-endian number.
pub open spec fn big_endian_16_bytes(value: int) -> Seq<u8> {
    seq![(value / 0x100 % 0x100) as u8, (value % 0x100) as u8]
}

/// The four bytes that spell `value` as a big-endian number.
pub open spec fn big_endian_32_bytes(value: int) -> Seq<u8> {
    seq![
        (value / 0x100_0000 % 0x100) as u8,
        (value / 0x1_0000 % 0x100) as u8,
        (value / 0x100 % 0x100) as u8,
        (value % 0x100) as u8,
    ]
}

/// The length that the metadata segment declares for `resource_len` bytes of
/// records: identifier, signature, resource id, name and records, and two for
/// the length field itself.
pub open spec fn segment_length_for(resource_len: nat) -> int {
    APP_13_FIXED_LEN + resource_len + 2
}

/// The metadata segment's header as this codec writes it in front of
/// `resource_len` bytes of records.
pub open spec fn metadata_header(resource_len: nat) -> Seq<u8> {
    APP_13_SEGMENT_MARKER@ + big_endian_16_bytes(segment_length_for(resource_len))
        + APP_13_SEGMENT_ID@ + APP_13_SEGMENT_SIGNATURE@ + APP_13_RESOURCE_ID@
        + APP_13_RESOURCE_NAME@ + big_endian_32_bytes(resource_len as int)
}

/// Where the metadata segment starts, going segment by segment from `pos`.
/// There is none when the bytes run out first, when a segment declares a
/// length below two, or when a segment is longer than what is left.
pub open spec fn metadata_offset(bytes: Seq<u8>, pos: int) -> Option<int>
    decreases bytes.len() - pos,
{
    if pos < 0 || bytes.len() - pos < SEGMENT_HEADER_LEN {
        None
    } else if bytes[pos] == APP_13_SEGMENT_MARKER[0] && bytes[pos + 1] == APP_13_SEGMENT_MARKER[1] {
        Some(pos)
    } else {
        let length = big_endian_16(bytes[pos + 2], bytes[pos + 3]);
        if length < 2 || bytes.len() - pos - 2 < length {
            None
        } else {
            metadata_offset(bytes, pos + 2 + length)
        }
    }
}

/// From `pos` to their end the bytes are whole segments, none of them the
/// metadata segment.
pub open spec fn opaque_segments(bytes: Seq<u8>, pos: int) -> bool
    decreases bytes.len() - pos,
{
    if pos == bytes.len() {
        true
    } else if pos < 0 || bytes.len() - pos < SEGMENT_HEADER_LEN {
        false
    } else if bytes[pos] == APP_13_SEGMENT_MARKER[0] && bytes[pos + 1] == APP_13_SEGMENT_MARKER[1] {
        false
    } else {
        let length = big_endian_16(bytes[pos + 2], bytes[pos + 3]);
        length >= 2 && bytes.len() - pos - 2 >= length && opaque_segments(
            bytes,
            pos + 2 + length,
        )
    }
}

/// `prefix` can stand in front of a metadata segment: it is a start-of-image
/// marker and then whole segments, none of them the metadata segment.
pub open spec fn opaque_prefix(prefix: Seq<u8>) -> bool {
    prefix.len() >= START_OF_IMAGE_LEN && opaque_segments(prefix, START_OF_IMAGE_LEN as int)
}

/// The position of the first zero byte at or after `pos`.
pub open spec fn nul_position(bytes: Seq<u8>, pos: int) -> Option<int>
    decreases bytes.len() - pos,
{
    if pos < 0 || pos >= bytes.len() {
        None
    } else if bytes[pos] == 0 {
        Some(pos)
    } else {
        nul_position(bytes, pos + 1)
    }
}

/// A costume save as a mathematical value: the bytes in front of the metadata
/// segment, the records in file order, and the bytes after the records.
pub struct SaveModel {
    pub prefix: Seq<u8>,
    pub records: Seq<Record>,
    pub suffix: Seq<u8>,
}

impl SaveModel {
    /// The prefix is whole segments in front of the metadata segment, and
    /// every record's payload fits its length field.
    pub open spec fn well_formed(self) -> bool {
        opaque_prefix(self.prefix) && all_well_formed(self.records)
    }

    /// The number of bytes that the records take on the wire.
    pub open spec fn resource_len(self) -> nat {
        encode_records(self.records).len()
    }

    /// The metadata segment's length fits its 16-bit field.
    pub open spec fn fits_segment(self) -> bool {
        self.resource_len() <= MAX_RESOURCE_LEN
    }

    /// The file that holds this save: the prefix, the metadata segment with
    /// freshly computed lengths, and the suffix.
    pub open spec fn file_image(self) -> Seq<u8> {
        self.prefix + metadata_header(self.resource_len()) + encode_records(self.records)
            + self.suffix
    }

    /// The metadata header that `bytes` holds, where `bytes` is a file that
    /// was read as this save: what stands between the prefix and the
    /// records.
    pub open spec fn header_in(self, bytes: Seq<u8>) -> Seq<u8> {
        bytes.subrange(
            self.prefix.len() as int,
            bytes.len() - self.suffix.len() - self.resource_len(),
        )
    }

    /// This save with the payload of record `index` replaced.
    pub open spec fn with_payload_at(self, index: int, payload: Seq<u8>) -> SaveModel {
        SaveModel {
            records: self.records.update(index, self.records[index].with_payload(payload)),
            ..self
        }
    }
}

/// `header` is a metadata segment's header as the reader takes it in front
/// of `resource_len` bytes of records: the marker; a segment length of two or
/// more; an identifier that is text and ends in its only zero byte; four
/// bytes of signature that are text; a resource id and a name of two bytes
/// each, whatever they hold; and `resource_len` as the resource length.
pub open spec fn readable_header(header: Seq<u8>, resource_len: nat) -> bool {
    let nul = header.len() - 1 - AFTER_IDENTIFIER_LEN;
    &&& SEGMENT_HEADER_LEN <= nul
    &&& header[0] == APP_13_SEGMENT_MARKER[0]
    &&& header[1] == APP_13_SEGMENT_MARKER[1]
    &&& big_endian_16(header[2], header[3]) >= 2
    &&& header[nul] == 0
    &&& forall|i: int| SEGMENT_HEADER_LEN <= i < nul ==> header[i] != 0
    &&& valid_utf8(header.subrange(SEGMENT_HEADER_LEN as int, nul + 1))
    &&& valid_utf8(header.subrange(nul + 1, nul + 5))
    &&& big_endian_32(header[nul + 9], header[nul + 10], header[nul + 11], header[nul + 12])
        == resource_len
}

/// The save that the metadata segment at `start` and its surroundings hold.
pub open spec fn parse_metadata(bytes: Seq<u8>, start: int) -> Option<SaveModel> {
    if big_endian_16(bytes[start + 2], bytes[start + 3]) < 2 {
        None
    } else {
        match nul_position(bytes, start + SEGMENT_HEADER_LEN) {
            None => None,
            Some(nul) => {
                let signature = nul + 1;
                let body = signature + AFTER_IDENTIFIER_LEN;
                if bytes.len() < body {
                    None
                } else if !valid_utf8(bytes.subrange(start + SEGMENT_HEADER_LEN, signature))
                    || !valid_utf8(bytes.subrange(signature, signature + 4)) {
                    None
                } else {
                    let resource_len = big_endian_32(
                        bytes[signature + 8],
                        bytes[signature + 9],
                        bytes[signature + 10],
                        bytes[signature + 11],
                    );
                    if bytes.len() - body < resource_len {
                        None
                    } else {
                        match decode_records(bytes.subrange(body, body + resource_len)) {
                            None => None,
                            Some(records) => Some(
                                SaveModel {
                                    prefix: bytes.take(start),
                                    records,
                                    suffix: bytes.skip(body + resource_len),
                                },
                            ),
                        }
                    }
                }
            },
        }
    }
}

/// The save that a file holds, if the file is readable as one.
pub open spec fn parse_save(bytes: Seq<u8>) -> Option<SaveModel> {
    if bytes.len() < START_OF_IMAGE_LEN {
        None
    } else {
        match metadata_offset(bytes, START_OF_IMAGE_LEN as int) {
            None => None,
            Some(start) => parse_metadata(bytes, start),
        }
    }
}

/// What stands in front of the metadata segment that a search from `pos`
/// finds is whole segments.
pub proof fn lemma_segments_before_metadata(bytes: Seq<u8>, pos: int)
    requires
        metadata_offset(bytes, pos) is Some,
    ensures
        pos <= metadata_offset(bytes, pos)->0,
        metadata_offset(bytes, pos)->0 + SEGMENT_HEADER_LEN <= bytes.len(),
        bytes[metadata_offset(bytes, pos)->0] == APP_13_SEGMENT_MARKER[0],
        bytes[metadata_offset(bytes, pos)->0 + 1] == APP_13_SEGMENT_MARKER[1],
        opaque_segments(bytes.take(metadata_offset(bytes, pos)->0), pos),
    decreases bytes.len() - pos,
{
    let start = metadata_offset(bytes, pos)->0;
    if !(bytes[pos] == APP_13_SEGMENT_MARKER[0] && bytes[pos + 1] == APP_13_SEGMENT_MARKER[1]) {
        let length = big_endian_16(bytes[pos + 2], bytes[pos + 3]);
        lemma_segments_before_metadata(bytes, pos + 2 + length);
    }
}

/// A search that starts among the whole segments of `prefix` finds the
/// metadata segment that follows `prefix`.
pub proof fn lemma_metadata_after_segments(prefix: Seq<u8>, rest: Seq<u8>, pos: int)
    requires
        opaque_segments(prefix, pos),
        0 <= pos <= prefix.len(),
        rest.len() >= SEGMENT_HEADER_LEN,
        rest[0] == APP_13_SEGMENT_MARKER[0],
        rest[1] == APP_13_SEGMENT_MARKER[1],
    ensures
        metadata_offset(prefix + rest, pos) == Some(prefix.len() as int),
    decreases prefix.len() - pos,
{
    let bytes = prefix + rest;
    if pos == prefix.len() {
        assert(bytes[pos] == rest[0]);
        assert(bytes[pos + 1] == rest[1]);
    } else {
        assert(bytes[pos] == prefix[pos]);
        assert(bytes[pos + 1] == prefix[pos + 1]);
        assert(bytes[pos + 2] == prefix[pos + 2]);
        assert(bytes[pos + 3] == prefix[pos + 3]);
        let length = big_endian_16(prefix[pos + 2], prefix[pos + 3]);
        lemma_metadata_after_segments(prefix, rest, pos + 2 + length);
    }
}

/// The first zero byte at or after `pos`, where there is one, is a zero byte
/// at or after `pos`.
pub proof fn lemma_nul_position_in_range(bytes: Seq<u8>, pos: int)
    ensures
        nul_position(bytes, pos) matches Some(nul) ==> 0 <= pos <= nul < bytes.len() && bytes[nul]
            == 0,
    decreases bytes.len() - pos,
{
    if 0 <= pos < bytes.len() && bytes[pos] != 0 {
        lemma_nul_position_in_range(bytes, pos + 1);
    }
}

/// No byte between `pos` and the first zero byte at or after it is zero.
pub proof fn lemma_nul_position_is_first(bytes: Seq<u8>, pos: int, between: int)
    requires
        nul_position(bytes, pos) is Some,
        pos <= between < nul_position(bytes, pos)->0,
    ensures
        bytes[between] != 0,
    decreases bytes.len() - pos,
{
    if pos < between {
        lemma_nul_position_is_first(bytes, pos + 1, between);
    }
}

/// The first zero byte at or after `pos` is at `nul` when no byte between the
/// two is zero.
pub proof fn lemma_nul_position(bytes: Seq<u8>, pos: int, nul: int)
    requires
        0 <= pos <= nul < bytes.len(),
        bytes[nul] == 0,
        forall|i: int| pos <= i < nul ==> bytes[i] != 0,
    ensures
        nul_position(bytes, pos) == Some(nul),
    decreases nul - pos,
{
    if pos < nul {
        lemma_nul_position(bytes, pos + 1, nul);
    }
}

/// Finds the metadata segment of a file, going segment by segment from
/// behind the start-of-image marker.
pub fn find_metadata(bytes: &[u8]) -> (found: Option<usize>)
    ensures
        match found {
            Some(start) => metadata_offset(bytes@, START_OF_IMAGE_LEN as int) == Some(start as int)
                && start + SEGMENT_HEADER_LEN <= bytes@.len(),
            None => metadata_offset(bytes@, START_OF_IMAGE_LEN as int) is None,
        },
{
    if bytes.len() < START_OF_IMAGE_LEN {
        return None;
    }
    let mut pos: usize = START_OF_IMAGE_LEN;
    loop
        invariant
            START_OF_IMAGE_LEN <= pos <= bytes@.len(),
            metadata_offset(bytes@, START_OF_IMAGE_LEN as int) == metadata_offset(
                bytes@,
                pos as int,
            ),
        decreases bytes@.len() - pos,
    {
        if bytes.len() - pos < SEGMENT_HEADER_LEN {
            return None;
        }
        if bytes[pos] == APP_13_SEGMENT_MARKER[0] && bytes[pos + 1] == APP_13_SEGMENT_MARKER[1] {
            return Some(pos);
        }
        let length: usize = bytes[pos + 2] as usize * 0x100 + bytes[pos + 3] as usize;
        if length < 2 || bytes.len() - pos - 2 < length {
            return None;
        }
        pos = pos + 2 + length;
    }
}

/// Finds the first zero byte at or after `start`.
pub fn find_nul(bytes: &[u8], start: usize) -> (found: Option<usize>)
    ensures
        match found {
            Some(nul) => nul_position(bytes@, start as int) == Some(nul as int) && start <= nul
                < bytes@.len(),
            None => nul_position(bytes@, start as int) is None,
        },
{
    let mut pos: usize = start;
    while pos < bytes.len()
        invariant
            start <= pos,
            nul_position(bytes@, start as int) == nul_position(bytes@, pos as int),
        decreases bytes@.len() - pos,
    {
        if bytes[pos] == 0 {
            return Some(pos);
        }
        pos += 1;
    }
    None
}

} // verus!
