//! The costume save itself: what a file holds, the named fields that can be
//! read and edited, and the bytes to write back.

use crate::checksum::validity_id;
use crate::dataset::{
    all_well_formed, lemma_encoded_of_decoded_records, read_datasets, records_of, write_datasets,
    DataSet,
};
use crate::error::CostumeError;
use crate::schema::{
    find_occurrence, text_view, ACCOUNT_NAME_OCCURRENCE, CHARACTER_NAME_OCCURRENCE,
    COSTUME_SIGNATURE_DATA_SET_NUMBER, COSTUME_SPECIFICATION_DATA_SET_NUMBER,
    COSTUME_SPECIFICATION_OCCURRENCE, VALIDITY_ID_OCCURRENCE,
};
use crate::segment::{
    find_metadata, find_nul, lemma_segments_before_metadata, metadata_header, opaque_prefix,
    parse_save, SaveModel, AFTER_IDENTIFIER_LEN, APP_13_FIXED_LEN, APP_13_RESOURCE_ID,
    APP_13_RESOURCE_NAME, APP_13_SEGMENT_ID, APP_13_SEGMENT_MARKER, APP_13_SEGMENT_SIGNATURE,
    MAX_RESOURCE_LEN, SEGMENT_HEADER_LEN, START_OF_IMAGE_LEN,
};
use vstd::prelude::*;
use vstd::slice::{slice_subrange, slice_to_vec};
use vstd::string::StringExecFns;
use vstd::utf8::{encode_utf8, encode_utf8_decode_utf8};

verus! {

/// A costume save held in memory: the two regions of the file that are kept
/// as they are, and the records between them.
pub struct CostumeSave {
    first_segments: Vec<u8>,
    last_segments: Vec<u8>,
    datasets: Vec<DataSet>,
}

impl View for CostumeSave {
    type V = SaveModel;

    closed spec fn view(&self) -> SaveModel {
        SaveModel {
            prefix: self.first_segments@,
            records: records_of(self.datasets@),
            suffix: self.last_segments@,
        }
    }
}

impl CostumeSave {
    #[verifier::type_invariant]
    spec fn regions_and_records_fit(self) -> bool {
        opaque_prefix(self.first_segments@) && all_well_formed(records_of(self.datasets@))
    }

    /// Reads a costume save from the contents of its file. Fails with
    /// `Parse` when the contents are not readable as one.
    pub fn from_file(bytes: &[u8]) -> (parsed: Result<CostumeSave, CostumeError>)
        ensures
            match parsed {
                Ok(save) => parse_save(bytes@) == Some(save@) && save@.well_formed(),
                Err(error) => error == CostumeError::Parse && parse_save(bytes@) is None,
            },
    {
        if bytes.len() < START_OF_IMAGE_LEN {
            return Err(CostumeError::Parse);
        }
        let start: usize = match find_metadata(bytes) {
            Some(start) => start,
            None => {
                return Err(CostumeError::Parse);
            },
        };
        let segment_length: usize = bytes[start + 2] as usize * 0x100 + bytes[start + 3] as usize;
        if segment_length < 2 {
            return Err(CostumeError::Parse);
        }
        let nul: usize = match find_nul(bytes, start + SEGMENT_HEADER_LEN) {
            Some(nul) => nul,
            None => {
                return Err(CostumeError::Parse);
            },
        };
        let signature: usize = nul + 1;
        if bytes.len() - signature < AFTER_IDENTIFIER_LEN {
            return Err(CostumeError::Parse);
        }
        let body: usize = signature + AFTER_IDENTIFIER_LEN;
        match std::str::from_utf8(slice_subrange(bytes, start + SEGMENT_HEADER_LEN, signature)) {
            Ok(_) => {},
            Err(_) => {
                return Err(CostumeError::Parse);
            },
        }
        match std::str::from_utf8(slice_subrange(bytes, signature, signature + 4)) {
            Ok(_) => {},
            Err(_) => {
                return Err(CostumeError::Parse);
            },
        }
        let resource_length: u64 = bytes[signature + 8] as u64 * 0x100_0000 + bytes[signature
            + 9] as u64 * 0x1_0000 + bytes[signature + 10] as u64 * 0x100 + bytes[signature
            + 11] as u64;
        if ((bytes.len() - body) as u64) < resource_length {
            return Err(CostumeError::Parse);
        }
        let end: usize = body + resource_length as usize;
        let datasets: Vec<DataSet> = match read_datasets(slice_subrange(bytes, body, end)) {
            Ok(datasets) => datasets,
            Err(error) => {
                return Err(error);
            },
        };
        proof {
            lemma_encoded_of_decoded_records(bytes@.subrange(body as int, end as int));
            lemma_segments_before_metadata(bytes@, START_OF_IMAGE_LEN as int);
        }
        let first_segments = slice_to_vec(slice_subrange(bytes, 0, start));
        let last_segments = slice_to_vec(slice_subrange(bytes, end, bytes.len()));
        Ok(CostumeSave { first_segments, last_segments, datasets })
    }

    /// Computes the validity id anew, stores it in its record, and returns
    /// the bytes of the file that holds the save. Fails with `Lookup`, and
    /// changes nothing, when the costume specification or the validity id's
    /// record is absent. Fails with `Oversize` when the records no longer fit
    /// one metadata segment; the validity id is up to date all the same.
    pub fn write_to_file(&mut self) -> (written: Result<Vec<u8>, CostumeError>)
        ensures
            match old(self)@.refreshed() {
                Err(error) => written == Err::<Vec<u8>, CostumeError>(error) && final(self)@
                    == old(self)@,
                Ok(fresh) => final(self)@ == fresh && match written {
                    Ok(bytes) => fresh.fits_segment() && bytes@ == fresh.file_image(),
                    Err(error) => error == CostumeError::Oversize && !fresh.fits_segment(),
                },
            },
            final(self)@.well_formed(),
    {
        let validity_id: Vec<u8> = match self.generate_validity_id() {
            Ok(id) => id,
            Err(error) => {
                return Err(error);
            },
        };
        match self.set_field(
            COSTUME_SIGNATURE_DATA_SET_NUMBER,
            VALIDITY_ID_OCCURRENCE,
            validity_id,
        ) {
            Ok(()) => {},
            Err(error) => {
                return Err(error);
            },
        }
        proof {
            use_type_invariant(&*self);
        }
        let resource: Vec<u8> = write_datasets(&self.datasets);
        if resource.len() > MAX_RESOURCE_LEN {
            return Err(CostumeError::Oversize);
        }
        let segment_length: usize = APP_13_FIXED_LEN + resource.len() + 2;
        let resource_length: usize = resource.len();
        let mut bytes: Vec<u8> = Vec::new();
        bytes.extend_from_slice(self.first_segments.as_slice());
        bytes.extend_from_slice(APP_13_SEGMENT_MARKER.as_slice());
        bytes.push((segment_length / 0x100 % 0x100) as u8);
        bytes.push((segment_length % 0x100) as u8);
        bytes.extend_from_slice(APP_13_SEGMENT_ID.as_slice());
        bytes.extend_from_slice(APP_13_SEGMENT_SIGNATURE.as_slice());
        bytes.extend_from_slice(APP_13_RESOURCE_ID.as_slice());
        bytes.extend_from_slice(APP_13_RESOURCE_NAME.as_slice());
        bytes.push((resource_length / 0x100_0000 % 0x100) as u8);
        bytes.push((resource_length / 0x1_0000 % 0x100) as u8);
        bytes.push((resource_length / 0x100 % 0x100) as u8);
        bytes.push((resource_length % 0x100) as u8);
        proof {
            assert(bytes@ =~= self.first_segments@ + metadata_header(resource@.len()));
        }
        bytes.extend_from_slice(resource.as_slice());
        bytes.extend_from_slice(self.last_segments.as_slice());
        proof {
            assert(bytes@ =~= self@.file_image());
        }
        Ok(bytes)
    }

    /// Replaces the character name. Fails with `Lookup` when the save has no
    /// record for it and with `Oversize` when the name is longer than a
    /// payload can be; the save is then left as it was.
    pub fn set_character_name(&mut self, name: &str) -> (outcome: Result<(), CostumeError>)
        ensures
            match old(self)@.with_field(
                COSTUME_SIGNATURE_DATA_SET_NUMBER,
                CHARACTER_NAME_OCCURRENCE as nat,
                encode_utf8(name@),
            ) {
                Ok(edited) => outcome is Ok && final(self)@ == edited,
                Err(error) => outcome == Err::<(), CostumeError>(error) && final(self)@ == old(
                    self,
                )@,
            },
            final(self)@.well_formed(),
    {
        self.set_field(
            COSTUME_SIGNATURE_DATA_SET_NUMBER,
            CHARACTER_NAME_OCCURRENCE,
            name.as_bytes_vec(),
        )
    }

    /// The character name. Fails with `Lookup` when the save has no record
    /// for it and with `TextDecode` when the record does not hold text.
    pub fn get_character_name(&self) -> (name: Result<String, CostumeError>)
        ensures
            text_view(name) == self@.field_text(
                COSTUME_SIGNATURE_DATA_SET_NUMBER,
                CHARACTER_NAME_OCCURRENCE as nat,
            ),
            self@.well_formed(),
    {
        self.get_field(COSTUME_SIGNATURE_DATA_SET_NUMBER, CHARACTER_NAME_OCCURRENCE)
    }

    /// Replaces the account name. Fails with `Lookup` when the save has no
    /// record for it and with `Oversize` when the name is longer than a
    /// payload can be; the save is then left as it was.
    pub fn set_account_name(&mut self, name: &str) -> (outcome: Result<(), CostumeError>)
        ensures
            match old(self)@.with_field(
                COSTUME_SIGNATURE_DATA_SET_NUMBER,
                ACCOUNT_NAME_OCCURRENCE as nat,
                encode_utf8(name@),
            ) {
                Ok(edited) => outcome is Ok && final(self)@ == edited,
                Err(error) => outcome == Err::<(), CostumeError>(error) && final(self)@ == old(
                    self,
                )@,
            },
            final(self)@.well_formed(),
    {
        self.set_field(
            COSTUME_SIGNATURE_DATA_SET_NUMBER,
            ACCOUNT_NAME_OCCURRENCE,
            name.as_bytes_vec(),
        )
    }

    /// The account name. Fails with `Lookup` when the save has no record for
    /// it and with `TextDecode` when the record does not hold text.
    pub fn get_account_name(&self) -> (name: Result<String, CostumeError>)
        ensures
            text_view(name) == self@.field_text(
                COSTUME_SIGNATURE_DATA_SET_NUMBER,
                ACCOUNT_NAME_OCCURRENCE as nat,
            ),
            self@.well_formed(),
    {
        self.get_field(COSTUME_SIGNATURE_DATA_SET_NUMBER, ACCOUNT_NAME_OCCURRENCE)
    }

    /// Replaces the costume specification. Fails with `Lookup` when the save
    /// has no record for it and with `Oversize` when the text is longer than
    /// a payload can be; the save is then left as it was.
    pub fn set_costume_specification(&mut self, specification: &str) -> (outcome: Result<
        (),
        CostumeError,
    >)
        ensures
            match old(self)@.with_field(
                COSTUME_SPECIFICATION_DATA_SET_NUMBER,
                COSTUME_SPECIFICATION_OCCURRENCE as nat,
                encode_utf8(specification@),
            ) {
                Ok(edited) => outcome is Ok && final(self)@ == edited,
                Err(error) => outcome == Err::<(), CostumeError>(error) && final(self)@ == old(
                    self,
                )@,
            },
            final(self)@.well_formed(),
    {
        self.set_field(
            COSTUME_SPECIFICATION_DATA_SET_NUMBER,
            COSTUME_SPECIFICATION_OCCURRENCE,
            specification.as_bytes_vec(),
        )
    }

    /// The costume specification. Fails with `Lookup` when the save has no
    /// record for it and with `TextDecode` when the record does not hold
    /// text.
    pub fn get_costume_specification(&self) -> (specification: Result<String, CostumeError>)
        ensures
            text_view(specification) == self@.field_text(
                COSTUME_SPECIFICATION_DATA_SET_NUMBER,
                COSTUME_SPECIFICATION_OCCURRENCE as nat,
            ),
            self@.well_formed(),
    {
        self.get_field(COSTUME_SPECIFICATION_DATA_SET_NUMBER, COSTUME_SPECIFICATION_OCCURRENCE)
    }

    /// The validity id that belongs to the costume specification as it is
    /// now. Fails with `Lookup` when the save has no costume specification.
    pub fn generate_validity_id(&self) -> (id: Result<Vec<u8>, CostumeError>)
        ensures
            match id {
                Ok(bytes) => self@.validity_id() == Ok::<Seq<u8>, CostumeError>(bytes@),
                Err(error) => self@.validity_id() == Err::<Seq<u8>, CostumeError>(error),
            },
            self@.well_formed(),
    {
        proof {
            use_type_invariant(self);
        }
        match find_occurrence(
            &self.datasets,
            COSTUME_SPECIFICATION_DATA_SET_NUMBER,
            COSTUME_SPECIFICATION_OCCURRENCE,
        ) {
            None => Err(CostumeError::Lookup),
            Some(index) => Ok(validity_id(self.datasets[index].data())),
        }
    }

    /// Decodes the payload of occurrence `n` of class `class` as text.
    fn get_field(&self, class: u8, n: usize) -> (text: Result<String, CostumeError>)
        ensures
            text_view(text) == self@.field_text(class, n as nat),
            self@.well_formed(),
    {
        proof {
            use_type_invariant(self);
        }
        match find_occurrence(&self.datasets, class, n) {
            None => Err(CostumeError::Lookup),
            Some(index) => match std::str::from_utf8(self.datasets[index].data()) {
                Ok(text) => {
                    proof {
                        encode_utf8_decode_utf8(text@);
                    }
                    Ok(String::from_str(text))
                },
                Err(_) => Err(CostumeError::TextDecode),
            },
        }
    }

    /// Replaces the payload of occurrence `n` of class `class`.
    fn set_field(&mut self, class: u8, n: usize, payload: Vec<u8>) -> (outcome: Result<
        (),
        CostumeError,
    >)
        ensures
            match old(self)@.with_field(class, n as nat, payload@) {
                Ok(edited) => outcome is Ok && final(self)@ == edited,
                Err(error) => outcome == Err::<(), CostumeError>(error) && final(self)@ == old(
                    self,
                )@,
            },
            final(self)@.well_formed(),
    {
        proof {
            use_type_invariant(&*self);
        }
        let index: usize = match find_occurrence(&self.datasets, class, n) {
            Some(index) => index,
            None => {
                return Err(CostumeError::Lookup);
            },
        };
        let ghost before = self.datasets@;
        let ghost replacement = payload@;
        let replaced: DataSet = match self.datasets[index].with_data(payload) {
            Ok(replaced) => replaced,
            Err(error) => {
                return Err(error);
            },
        };
        let mut datasets: Vec<DataSet> = Vec::new();
        std::mem::swap(&mut datasets, &mut self.datasets);
        datasets.set(index, replaced);
        proof {
            assert(records_of(datasets@) =~= records_of(before).update(
                index as int,
                records_of(before)[index as int].with_payload(replacement),
            ));
        }
        self.datasets = datasets;
        Ok(())
    }
}

} // verus!
