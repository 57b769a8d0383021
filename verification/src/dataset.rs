//! The tagged records that the metadata block is made of.
//!
//! On the wire a record is a tag marker, a record number, a data set number
//! (the record's class), a big-endian 16-bit payload length and the payload.

use crate::error::CostumeError;
use vstd::prelude::*;
use vstd::slice::{slice_subrange, slice_to_vec};

verus! {

/// The largest payload that the 16-bit length field can express.
pub const MAX_PAYLOAD_LEN: usize = 0xFFFF;

/// The number of bytes in front of a record's payload.
pub const RECORD_HEADER_LEN: usize = 5;

/// The value of two bytes read as a big-endian number.
pub open spec fn big_endian_16(high: u8, low: u8) -> int {
    high as int * 0x100 + low as int
}

/// A record as a mathematical value.
pub struct Record {
    pub tag_marker: u8,
    pub record_number: u8,
    pub data_set_number: u8,
    pub payload: Seq<u8>,
}

impl Record {
    /// The payload fits the length field.
    pub open spec fn well_formed(self) -> bool {
        self.payload.len() <= MAX_PAYLOAD_LEN
    }

    /// The record's bytes on the wire. The length field is taken from the
    /// payload itself.
    pub open spec fn encoded(self) -> Seq<u8> {
        seq![
            self.tag_marker,
            self.record_number,
            self.data_set_number,
            (self.payload.len() / 0x100) as u8,
            (self.payload.len() % 0x100) as u8,
        ] + self.payload
    }

    /// This record with its payload replaced.
    pub open spec fn with_payload(self, payload: Seq<u8>) -> Record {
        Record { payload, ..self }
    }
}

/// Every record of `records` is well formed.
pub open spec fn all_well_formed(records: Seq<Record>) -> bool {
    forall|i: int| 0 <= i < records.len() ==> (#[trigger] records[i]).well_formed()
}

/// The record at the front of `bytes`, if `bytes` holds all of it.
pub open spec fn decode_record(bytes: Seq<u8>) -> Option<Record> {
    if bytes.len() < RECORD_HEADER_LEN {
        None
    } else if bytes.len() < RECORD_HEADER_LEN + big_endian_16(bytes[3], bytes[4]) {
        None
    } else {
        Some(
            Record {
                tag_marker: bytes[0],
                record_number: bytes[1],
                data_set_number: bytes[2],
                payload: bytes.subrange(
                    RECORD_HEADER_LEN as int,
                    RECORD_HEADER_LEN + big_endian_16(bytes[3], bytes[4]),
                ),
            },
        )
    }
}

/// The records' bytes, one record after the other.
pub open spec fn encode_records(records: Seq<Record>) -> Seq<u8>
    decreases records.len(),
{
    if records.len() == 0 {
        Seq::empty()
    } else {
        records[0].encoded() + encode_records(records.skip(1))
    }
}

/// The records that `bytes` is made of, if `bytes` is records back to back
/// with nothing left over.
pub open spec fn decode_records(bytes: Seq<u8>) -> Option<Seq<Record>>
    decreases bytes.len(),
{
    if bytes.len() == 0 {
        Some(Seq::empty())
    } else {
        match decode_record(bytes) {
            None => None,
            Some(first) => match decode_records(bytes.skip(first.encoded().len() as int)) {
                None => None,
                Some(rest) => Some(seq![first] + rest),
            },
        }
    }
}

/// A well-formed record's length field holds the size of its payload.
pub proof fn lemma_length_field_matches_payload(record: Record)
    requires
        record.well_formed(),
    ensures
        record.encoded().len() == RECORD_HEADER_LEN + record.payload.len(),
        big_endian_16(record.encoded()[3], record.encoded()[4]) == record.payload.len(),
        record.encoded().skip(RECORD_HEADER_LEN as int) == record.payload,
{
    assert(record.encoded().skip(RECORD_HEADER_LEN as int) =~= record.payload);
}

/// Replacing a payload changes the length field with it: the field of the
/// re-encoded record is the size of the new payload.
pub proof fn lemma_length_field_follows_payload(record: Record, payload: Seq<u8>)
    requires
        payload.len() <= MAX_PAYLOAD_LEN,
    ensures
        big_endian_16(
            record.with_payload(payload).encoded()[3],
            record.with_payload(payload).encoded()[4],
        ) == payload.len(),
{
}

/// Decoding the bytes of a well-formed record gives the record back, whatever
/// follows it.
pub proof fn lemma_decode_record_of_encoded(record: Record, rest: Seq<u8>)
    requires
        record.well_formed(),
    ensures
        decode_record(record.encoded() + rest) == Some(record),
{
    let bytes = record.encoded() + rest;
    let decoded = decode_record(bytes)->0;
    assert(bytes[3] == record.encoded()[3]);
    assert(bytes[4] == record.encoded()[4]);
    assert(decoded.payload =~= record.payload);
}

/// A decoded record is well formed, and its bytes are the front of what it
/// was decoded from.
pub proof fn lemma_encoded_of_decode_record(bytes: Seq<u8>)
    requires
        decode_record(bytes) is Some,
    ensures
        decode_record(bytes)->0.well_formed(),
        decode_record(bytes)->0.encoded().len() <= bytes.len(),
        decode_record(bytes)->0.encoded() == bytes.take(
            decode_record(bytes)->0.encoded().len() as int,
        ),
{
    let record = decode_record(bytes)->0;
    assert(record.encoded() =~= bytes.take(record.encoded().len() as int));
}

/// One record alone encodes to its own bytes.
pub proof fn lemma_encode_single_record(record: Record)
    ensures
        encode_records(seq![record]) == record.encoded(),
{
    let single = seq![record];
    assert(single.skip(1) =~= Seq::<Record>::empty());
    assert(encode_records(single.skip(1)) =~= Seq::<u8>::empty());
    assert(encode_records(single) =~= record.encoded());
}

/// Encoding distributes over concatenation.
pub proof fn lemma_encode_records_concat(front: Seq<Record>, back: Seq<Record>)
    ensures
        encode_records(front + back) == encode_records(front) + encode_records(back),
    decreases front.len(),
{
    if front.len() == 0 {
        assert(front + back =~= back);
        assert(encode_records(front) + encode_records(back) =~= encode_records(back));
    } else {
        assert((front + back).skip(1) =~= front.skip(1) + back);
        lemma_encode_records_concat(front.skip(1), back);
        assert(encode_records(front + back) =~= encode_records(front) + encode_records(back));
    }
}

/// Decoding what was encoded gives the records back.
pub proof fn lemma_decode_of_encoded_records(records: Seq<Record>)
    requires
        all_well_formed(records),
    ensures
        decode_records(encode_records(records)) == Some(records),
    decreases records.len(),
{
    if records.len() > 0 {
        let first = records[0];
        let rest = records.skip(1);
        assert(first.well_formed());
        assert(all_well_formed(rest)) by {
            assert forall|i: int| 0 <= i < rest.len() implies (#[trigger] rest[i]).well_formed() by {
                assert(rest[i] == records[i + 1]);
            }
        }
        lemma_decode_of_encoded_records(rest);
        lemma_decode_record_of_encoded(first, encode_records(rest));
        let bytes = encode_records(records);
        assert(bytes.skip(first.encoded().len() as int) =~= encode_records(rest));
        assert(seq![first] + rest =~= records);
    }
}

/// What decodes to records is exactly their encoding, and the records are
/// well formed.
pub proof fn lemma_encoded_of_decoded_records(bytes: Seq<u8>)
    requires
        decode_records(bytes) is Some,
    ensures
        all_well_formed(decode_records(bytes)->0),
        encode_records(decode_records(bytes)->0) == bytes,
    decreases bytes.len(),
{
    if bytes.len() > 0 {
        let first = decode_record(bytes)->0;
        lemma_encoded_of_decode_record(bytes);
        let tail = bytes.skip(first.encoded().len() as int);
        lemma_encoded_of_decoded_records(tail);
        let rest = decode_records(tail)->0;
        let records = seq![first] + rest;
        assert(records.skip(1) =~= rest);
        assert(encode_records(records) =~= bytes);
        assert(all_well_formed(records)) by {
            assert forall|i: int| 0 <= i < records.len() implies (#[trigger] records[i]).well_formed() by {
                if i > 0 {
                    assert(records[i] == rest[i - 1]);
                }
            }
        }
    }
}

/// One record of the metadata block.
pub struct DataSet {
    tag_marker: u8,
    record_number: u8,
    data_set_number: u8,
    data: Vec<u8>,
}

impl View for DataSet {
    type V = Record;

    closed spec fn view(&self) -> Record {
        Record {
            tag_marker: self.tag_marker,
            record_number: self.record_number,
            data_set_number: self.data_set_number,
            payload: self.data@,
        }
    }
}

impl DataSet {
    #[verifier::type_invariant]
    spec fn payload_fits(self) -> bool {
        self.data@.len() <= MAX_PAYLOAD_LEN
    }

    /// Decodes the record at the front of `bytes`. Fails with `Parse` when
    /// `bytes` ends before the record does.
    pub fn read(bytes: &[u8]) -> (decoded: Result<DataSet, CostumeError>)
        ensures
            match decoded {
                Ok(data_set) => decode_record(bytes@) == Some(data_set@),
                Err(error) => error == CostumeError::Parse && decode_record(bytes@) is None,
            },
    {
        if bytes.len() < RECORD_HEADER_LEN {
            return Err(CostumeError::Parse);
        }
        let data_length: usize = bytes[3] as usize * 0x100 + bytes[4] as usize;
        if bytes.len() - RECORD_HEADER_LEN < data_length {
            return Err(CostumeError::Parse);
        }
        let data = slice_to_vec(
            slice_subrange(bytes, RECORD_HEADER_LEN, RECORD_HEADER_LEN + data_length),
        );
        Ok(
            DataSet {
                tag_marker: bytes[0],
                record_number: bytes[1],
                data_set_number: bytes[2],
                data,
            },
        )
    }

    /// Encodes the record. The length field is computed from the payload.
    pub fn as_bytes(&self) -> (bytes: Vec<u8>)
        ensures
            self@.well_formed(),
            bytes@ == self@.encoded(),
    {
        proof {
            use_type_invariant(self);
        }
        let data_length: usize = self.data.len();
        let mut bytes: Vec<u8> = Vec::new();
        bytes.push(self.tag_marker);
        bytes.push(self.record_number);
        bytes.push(self.data_set_number);
        bytes.push((data_length / 0x100) as u8);
        bytes.push((data_length % 0x100) as u8);
        bytes.extend_from_slice(self.data.as_slice());
        proof {
            assert(bytes@ =~= self@.encoded());
        }
        bytes
    }

    /// The record's class.
    pub fn data_set_number(&self) -> (number: u8)
        ensures
            number == self@.data_set_number,
    {
        self.data_set_number
    }

    /// The record's payload.
    pub fn data(&self) -> (payload: &[u8])
        ensures
            self@.well_formed(),
            payload@ == self@.payload,
    {
        proof {
            use_type_invariant(self);
        }
        self.data.as_slice()
    }

    /// A record like this one that carries `data`. Fails with `Oversize`
    /// when `data` is longer than the length field can express.
    pub fn with_data(&self, data: Vec<u8>) -> (replaced: Result<DataSet, CostumeError>)
        ensures
            match replaced {
                Ok(data_set) => data@.len() <= MAX_PAYLOAD_LEN && data_set@ == self@.with_payload(
                    data@,
                ),
                Err(error) => error == CostumeError::Oversize && data@.len() > MAX_PAYLOAD_LEN,
            },
    {
        if data.len() > MAX_PAYLOAD_LEN {
            return Err(CostumeError::Oversize);
        }
        Ok(
            DataSet {
                tag_marker: self.tag_marker,
                record_number: self.record_number,
                data_set_number: self.data_set_number,
                data,
            },
        )
    }
}

/// The records that a vector of data sets stands for.
pub open spec fn records_of(datasets: Seq<DataSet>) -> Seq<Record> {
    datasets.map_values(|data_set: DataSet| data_set@)
}

/// `front`, followed by `rest` where there is one.
spec fn prepend(front: Seq<Record>, rest: Option<Seq<Record>>) -> Option<Seq<Record>> {
    match rest {
        Some(records) => Some(front + records),
        None => None,
    }
}

/// Decodes records back to back until `body` is used up. Fails with `Parse`
/// when a record runs past the end of `body`.
pub fn read_datasets(body: &[u8]) -> (decoded: Result<Vec<DataSet>, CostumeError>)
    ensures
        match decoded {
            Ok(datasets) => decode_records(body@) == Some(records_of(datasets@)),
            Err(error) => error == CostumeError::Parse && decode_records(body@) is None,
        },
{
    let mut datasets: Vec<DataSet> = Vec::new();
    let mut pos: usize = 0;
    proof {
        assert(body@.skip(0) =~= body@);
        assert(records_of(datasets@) + decode_records(body@)->0 =~= decode_records(body@)->0);
    }
    while pos < body.len()
        invariant
            pos <= body@.len(),
            decode_records(body@) == prepend(
                records_of(datasets@),
                decode_records(body@.skip(pos as int)),
            ),
        decreases body@.len() - pos,
    {
        let rest = slice_subrange(body, pos, body.len());
        proof {
            assert(rest@ =~= body@.skip(pos as int));
        }
        match DataSet::read(rest) {
            Err(error) => {
                return Err(error);
            },
            Ok(data_set) => {
                let size: usize = RECORD_HEADER_LEN + data_set.data().len();
                proof {
                    lemma_encoded_of_decode_record(rest@);
                    lemma_length_field_matches_payload(data_set@);
                    assert(rest@.skip(size as int) =~= body@.skip(pos + size));
                    let tail = decode_records(body@.skip(pos + size));
                    if tail is Some {
                        assert(records_of(datasets@.push(data_set)) + tail->0 =~= records_of(
                            datasets@,
                        ) + (seq![data_set@] + tail->0));
                    }
                }
                datasets.push(data_set);
                pos = pos + size;
            },
        }
    }
    proof {
        assert(records_of(datasets@) + Seq::<Record>::empty() =~= records_of(datasets@));
    }
    Ok(datasets)
}

/// Encodes the records one after the other.
pub fn write_datasets(datasets: &Vec<DataSet>) -> (bytes: Vec<u8>)
    ensures
        bytes@ == encode_records(records_of(datasets@)),
{
    let mut bytes: Vec<u8> = Vec::new();
    let mut i: usize = 0;
    while i < datasets.len()
        invariant
            i <= datasets@.len(),
            bytes@ == encode_records(records_of(datasets@).take(i as int)),
        decreases datasets@.len() - i,
    {
        let encoded = datasets[i].as_bytes();
        proof {
            let records = records_of(datasets@);
            assert(records.take(i + 1) =~= records.take(i as int) + seq![records[i as int]]);
            lemma_encode_records_concat(records.take(i as int), seq![records[i as int]]);
            lemma_encode_single_record(records[i as int]);
        }
        bytes.extend_from_slice(encoded.as_slice());
        proof {
            assert(bytes@ =~= encode_records(records_of(datasets@).take(i as int))
                + encoded@);
        }
        i += 1;
    }
    proof {
        assert(records_of(datasets@).take(i as int) =~= records_of(datasets@));
    }
    bytes
}

} // verus!
