//! How reading and writing undo each other, and what neither of them
//! touches.

use crate::dataset::{
    all_well_formed, encode_records, lemma_decode_of_encoded_records,
    lemma_encoded_of_decoded_records, Record,
};
use crate::schema::lemma_current_means_refresh_changes_nothing;
use crate::segment::{
    big_endian_32, lemma_metadata_after_segments, lemma_nul_position, lemma_nul_position_in_range,
    lemma_nul_position_is_first, lemma_segments_before_metadata, metadata_header, metadata_offset,
    nul_position, opaque_prefix, parse_metadata, parse_save, readable_header, SaveModel,
    AFTER_IDENTIFIER_LEN, APP_13_SEGMENT_ID, APP_13_SEGMENT_SIGNATURE, MAX_RESOURCE_LEN,
    METADATA_HEADER_LEN, SEGMENT_HEADER_LEN, START_OF_IMAGE_LEN,
};
use vstd::prelude::*;
use vstd::utf8::{
    encode_utf8, encode_utf8_valid_utf8, is_ascii_chars, is_ascii_chars_encode_utf8, valid_utf8,
};

verus! {

/// Bytes below 128 are text.
pub proof fn lemma_ascii_is_text(bytes: Seq<u8>)
    requires
        forall|i: int| 0 <= i < bytes.len() ==> bytes[i] < 0x80,
    ensures
        valid_utf8(bytes),
{
    let chars = Seq::new(bytes.len(), |i: int| bytes[i] as char);
    assert(is_ascii_chars(chars));
    is_ascii_chars_encode_utf8(chars);
    assert(encode_utf8(chars) =~= bytes);
    encode_utf8_valid_utf8(chars);
}

/// The header that this codec writes is thirty bytes long, and the reader
/// takes it wherever the records fit one segment.
pub proof fn lemma_written_header_is_readable(resource_len: nat)
    ensures
        metadata_header(resource_len).len() == METADATA_HEADER_LEN,
        resource_len <= MAX_RESOURCE_LEN ==> readable_header(
            metadata_header(resource_len),
            resource_len,
        ),
{
    let header = metadata_header(resource_len);
    assert(header.len() == METADATA_HEADER_LEN);
    if resource_len <= MAX_RESOURCE_LEN {
        assert(header.subrange(4, 18) =~= APP_13_SEGMENT_ID@);
        assert(header.subrange(18, 22) =~= APP_13_SEGMENT_SIGNATURE@);
        lemma_ascii_is_text(APP_13_SEGMENT_ID@);
        lemma_ascii_is_text(APP_13_SEGMENT_SIGNATURE@);
        assert forall|i: int| SEGMENT_HEADER_LEN <= i < 17 implies header[i] != 0 by {
            assert(header[i] == APP_13_SEGMENT_ID[i - 4]);
        }
        assert(header[17] == APP_13_SEGMENT_ID[13]);
    }
}

/// A prefix of whole segments, a readable header, records and any suffix,
/// one after the other, are read as the save with that prefix, those records
/// and that suffix.
pub proof fn lemma_layout_is_read(
    prefix: Seq<u8>,
    header: Seq<u8>,
    records: Seq<Record>,
    suffix: Seq<u8>,
)
    requires
        opaque_prefix(prefix),
        all_well_formed(records),
        readable_header(header, encode_records(records).len()),
    ensures
        parse_save(prefix + header + encode_records(records) + suffix) == Some(
            SaveModel { prefix, records, suffix },
        ),
{
    let encoded = encode_records(records);
    let bytes = prefix + header + encoded + suffix;
    let rest = header + encoded + suffix;
    let start = prefix.len() as int;
    let nul = start + header.len() - 1 - AFTER_IDENTIFIER_LEN;
    let body = start + header.len();
    assert(bytes =~= prefix + rest);
    assert(rest[0] == header[0] && rest[1] == header[1]);
    lemma_metadata_after_segments(prefix, rest, START_OF_IMAGE_LEN as int);
    assert forall|i: int| 0 <= i < header.len() implies bytes[start + i] == header[i] by {}
    assert forall|i: int| start + SEGMENT_HEADER_LEN <= i < nul implies bytes[i] != 0 by {
        assert(bytes[i] == header[i - start]);
    }
    assert(bytes[nul] == header[nul - start]);
    lemma_nul_position(bytes, start + SEGMENT_HEADER_LEN, nul);
    assert(bytes.subrange(start + SEGMENT_HEADER_LEN, nul + 1) =~= header.subrange(
        SEGMENT_HEADER_LEN as int,
        nul - start + 1,
    ));
    assert(bytes.subrange(nul + 1, nul + 5) =~= header.subrange(nul - start + 1, nul - start + 5));
    assert(bytes[nul + 9] == header[nul + 9 - start]);
    assert(bytes[nul + 10] == header[nul + 10 - start]);
    assert(bytes[nul + 11] == header[nul + 11 - start]);
    assert(bytes[nul + 12] == header[nul + 12 - start]);
    assert(bytes[start + 2] == header[2]);
    assert(bytes[start + 3] == header[3]);
    assert(bytes.subrange(body, body + encoded.len()) =~= encoded);
    lemma_decode_of_encoded_records(records);
    assert(bytes.take(start) =~= prefix);
    assert(bytes.skip(body + encoded.len()) =~= suffix);
    assert(parse_metadata(bytes, start) == Some(SaveModel { prefix, records, suffix }));
}

/// Reading takes a file apart without changing a byte: a file that is read
/// as a save is that save's prefix, a readable header, the save's records and
/// the save's suffix, one after the other, and the save is well formed.
pub proof fn lemma_read_gives_layout(bytes: Seq<u8>)
    requires
        parse_save(bytes) is Some,
    ensures
        ({
            let model = parse_save(bytes)->0;
            &&& model.well_formed()
            &&& readable_header(model.header_in(bytes), model.resource_len())
            &&& bytes == model.prefix + model.header_in(bytes) + encode_records(model.records)
                + model.suffix
        }),
{
    let model = parse_save(bytes)->0;
    let start = metadata_offset(bytes, START_OF_IMAGE_LEN as int)->0;
    lemma_segments_before_metadata(bytes, START_OF_IMAGE_LEN as int);
    assert(parse_metadata(bytes, start) is Some);
    let nul = nul_position(bytes, start + SEGMENT_HEADER_LEN)->0;
    lemma_nul_position_in_range(bytes, start + SEGMENT_HEADER_LEN);
    let body = nul + 1 + AFTER_IDENTIFIER_LEN;
    let declared = big_endian_32(bytes[nul + 9], bytes[nul + 10], bytes[nul + 11], bytes[nul + 12]);
    lemma_encoded_of_decoded_records(bytes.subrange(body, body + declared));
    let header = model.header_in(bytes);
    assert(header =~= bytes.subrange(start, body));
    assert forall|i: int| SEGMENT_HEADER_LEN <= i < nul - start implies header[i] != 0 by {
        lemma_nul_position_is_first(bytes, start + SEGMENT_HEADER_LEN, start + i);
    }
    assert(header.subrange(SEGMENT_HEADER_LEN as int, nul - start + 1) =~= bytes.subrange(
        start + SEGMENT_HEADER_LEN,
        nul + 1,
    ));
    assert(header.subrange(nul - start + 1, nul - start + 5) =~= bytes.subrange(nul + 1, nul + 5));
    assert(bytes =~= model.prefix + header + encode_records(model.records) + model.suffix);
}

/// Which files are read as which save: `bytes` is read as `model` exactly
/// when `model` is well formed and `bytes` is its prefix, a readable header
/// that declares the size of its records, its records and its suffix.
pub proof fn lemma_readable_files(bytes: Seq<u8>, model: SaveModel)
    ensures
        parse_save(bytes) == Some(model) <==> (model.well_formed() && exists|header: Seq<u8>|
            #[trigger] readable_header(header, model.resource_len()) && bytes == model.prefix
                + header + encode_records(model.records) + model.suffix),
{
    if parse_save(bytes) == Some(model) {
        lemma_read_gives_layout(bytes);
        assert(readable_header(model.header_in(bytes), model.resource_len()));
    }
    if model.well_formed() && exists|header: Seq<u8>|
        #[trigger] readable_header(header, model.resource_len()) && bytes == model.prefix + header
            + encode_records(model.records) + model.suffix {
        let header = choose|header: Seq<u8>|
            #[trigger] readable_header(header, model.resource_len()) && bytes == model.prefix
                + header + encode_records(model.records) + model.suffix;
        lemma_layout_is_read(model.prefix, header, model.records, model.suffix);
    }
}

/// Whatever was edited, the written file begins with the save's prefix and
/// ends with its suffix, byte for byte, and holds nothing but the metadata
/// segment between them.
pub proof fn lemma_file_image_keeps_regions(model: SaveModel)
    ensures
        model.file_image().len() == model.prefix.len() + METADATA_HEADER_LEN
            + model.resource_len() + model.suffix.len(),
        model.file_image().take(model.prefix.len() as int) == model.prefix,
        model.file_image().skip(model.file_image().len() - model.suffix.len()) == model.suffix,
        model.header_in(model.file_image()) == metadata_header(model.resource_len()),
        model.file_image().subrange(
            model.prefix.len() + METADATA_HEADER_LEN,
            model.prefix.len() + METADATA_HEADER_LEN + model.resource_len(),
        ) == encode_records(model.records),
{
    lemma_written_header_is_readable(model.resource_len());
    let image = model.file_image();
    assert(image.take(model.prefix.len() as int) =~= model.prefix);
    assert(image.skip(image.len() - model.suffix.len()) =~= model.suffix);
    assert(model.header_in(image) =~= metadata_header(model.resource_len()));
    assert(image.subrange(
        model.prefix.len() + METADATA_HEADER_LEN,
        model.prefix.len() + METADATA_HEADER_LEN + model.resource_len(),
    ) =~= encode_records(model.records));
}

/// The regions around the metadata segment go from the file that was read,
/// through any edit of a field and any refreshing of the validity id, into
/// the file that is written.
pub proof fn lemma_edits_keep_regions(model: SaveModel, class: u8, n: nat, payload: Seq<u8>)
    ensures
        model.with_field(class, n, payload) matches Ok(edited) ==> edited.prefix == model.prefix
            && edited.suffix == model.suffix && edited.file_image().take(
            model.prefix.len() as int,
        ) == model.prefix && edited.file_image().skip(
            edited.file_image().len() - model.suffix.len(),
        ) == model.suffix,
        model.refreshed() matches Ok(fresh) ==> fresh.prefix == model.prefix && fresh.suffix
            == model.suffix && fresh.file_image().take(model.prefix.len() as int) == model.prefix
            && fresh.file_image().skip(fresh.file_image().len() - model.suffix.len())
            == model.suffix,
{
    if let Ok(edited) = model.with_field(class, n, payload) {
        lemma_file_image_keeps_regions(edited);
    }
    if let Ok(fresh) = model.refreshed() {
        lemma_file_image_keeps_regions(fresh);
    }
}

/// Reading what was written gives the save back: the file image of a
/// well-formed save whose records fit one segment is read as that save.
pub proof fn lemma_read_restores_written_save(model: SaveModel)
    requires
        model.well_formed(),
        model.fits_segment(),
    ensures
        parse_save(model.file_image()) == Some(model),
{
    lemma_written_header_is_readable(model.resource_len());
    lemma_layout_is_read(
        model.prefix,
        metadata_header(model.resource_len()),
        model.records,
        model.suffix,
    );
}

/// Writing a save that was just read, with nothing edited, gives the file
/// back byte for byte: the refreshed save is the save as read, and its file
/// image is the file. This holds of a file whose validity id is the one that
/// belongs to its costume specification, whose metadata header is the one
/// that this codec writes for its records, and whose records fit one segment.
pub proof fn lemma_write_restores_read_file(bytes: Seq<u8>)
    requires
        parse_save(bytes) matches Some(model) && model.validity_is_current()
            && model.fits_segment() && model.header_in(bytes) == metadata_header(
            model.resource_len(),
        ),
    ensures
        parse_save(bytes)->0.refreshed() matches Ok(fresh) && fresh.fits_segment()
            && fresh.file_image() == bytes,
{
    lemma_read_gives_layout(bytes);
    lemma_current_means_refresh_changes_nothing(parse_save(bytes)->0);
}

} // verus!
