//! The fixed schema of a costume save. The format names no field: a field is
//! the n-th record of a class, counted in file order.

use crate::checksum::{lemma_validity_id_len, validity_id_of};
use crate::dataset::{big_endian_16, records_of, DataSet, Record, MAX_PAYLOAD_LEN};
use crate::error::CostumeError;
use crate::segment::SaveModel;
use vstd::prelude::*;
use vstd::utf8::{
    decode_utf8, encode_utf8, encode_utf8_decode_utf8, encode_utf8_valid_utf8, valid_utf8,
};

verus! {

/// The class of the records that sign the costume: account name, character
/// name and validity id, in that order.
pub const COSTUME_SIGNATURE_DATA_SET_NUMBER: u8 = 0x78;

/// The class of the record that holds the costume specification.
pub const COSTUME_SPECIFICATION_DATA_SET_NUMBER: u8 = 0xCA;

/// Which signature record holds the account name.
pub const ACCOUNT_NAME_OCCURRENCE: usize = 0;

/// Which signature record holds the character name.
pub const CHARACTER_NAME_OCCURRENCE: usize = 1;

/// Which signature record holds the validity id.
pub const VALIDITY_ID_OCCURRENCE: usize = 2;

/// Which specification record holds the costume specification.
pub const COSTUME_SPECIFICATION_OCCURRENCE: usize = 0;

/// How many records of `records` have the class `class`.
pub open spec fn class_count(records: Seq<Record>, class: u8) -> nat
    decreases records.len(),
{
    if records.len() == 0 {
        0
    } else if records.last().data_set_number == class {
        class_count(records.drop_last(), class) + 1
    } else {
        class_count(records.drop_last(), class)
    }
}

/// The index, at or after `start`, of the record of class `class` that has
/// `skip` records of that class between `start` and itself.
pub open spec fn occurrence_from(records: Seq<Record>, class: u8, skip: nat, start: int) -> Option<
    int,
>
    decreases records.len() - start,
{
    if start < 0 || start >= records.len() {
        None
    } else if records[start].data_set_number == class {
        if skip == 0 {
            Some(start)
        } else {
            occurrence_from(records, class, (skip - 1) as nat, start + 1)
        }
    } else {
        occurrence_from(records, class, skip, start + 1)
    }
}

/// The index of occurrence `n` of class `class`: of the record of that class
/// that has exactly `n` records of that class in front of it.
pub open spec fn occurrence(records: Seq<Record>, class: u8, n: nat) -> Option<int> {
    occurrence_from(records, class, n, 0)
}

impl SaveModel {
    /// The text of occurrence `n` of class `class`.
    pub open spec fn field_text(self, class: u8, n: nat) -> Result<Seq<char>, CostumeError> {
        match occurrence(self.records, class, n) {
            None => Err(CostumeError::Lookup),
            Some(index) => if valid_utf8(self.records[index].payload) {
                Ok(decode_utf8(self.records[index].payload))
            } else {
                Err(CostumeError::TextDecode)
            },
        }
    }

    /// This save with `payload` as the payload of occurrence `n` of class
    /// `class`.
    pub open spec fn with_field(self, class: u8, n: nat, payload: Seq<u8>) -> Result<
        SaveModel,
        CostumeError,
    > {
        match occurrence(self.records, class, n) {
            None => Err(CostumeError::Lookup),
            Some(index) => if payload.len() > MAX_PAYLOAD_LEN {
                Err(CostumeError::Oversize)
            } else {
                Ok(self.with_payload_at(index, payload))
            },
        }
    }

    /// The validity id that belongs to this save's costume specification.
    pub open spec fn validity_id(self) -> Result<Seq<u8>, CostumeError> {
        match occurrence(
            self.records,
            COSTUME_SPECIFICATION_DATA_SET_NUMBER,
            COSTUME_SPECIFICATION_OCCURRENCE as nat,
        ) {
            None => Err(CostumeError::Lookup),
            Some(index) => Ok(validity_id_of(self.records[index].payload)),
        }
    }

    /// The validity id that this save stores is the one that belongs to its
    /// costume specification.
    pub open spec fn validity_is_current(self) -> bool {
        match occurrence(
            self.records,
            COSTUME_SIGNATURE_DATA_SET_NUMBER,
            VALIDITY_ID_OCCURRENCE as nat,
        ) {
            None => false,
            Some(index) => self.validity_id() == Ok::<Seq<u8>, CostumeError>(
                self.records[index].payload,
            ),
        }
    }

    /// This save with its validity id computed anew from its costume
    /// specification.
    pub open spec fn refreshed(self) -> Result<SaveModel, CostumeError> {
        match self.validity_id() {
            Err(error) => Err(error),
            Ok(id) => self.with_field(
                COSTUME_SIGNATURE_DATA_SET_NUMBER,
                VALIDITY_ID_OCCURRENCE as nat,
                id,
            ),
        }
    }
}

/// An occurrence, where there is one, is a record of the class at or after
/// the place where the search began.
pub proof fn lemma_occurrence_from_in_range(records: Seq<Record>, class: u8, skip: nat, start: int)
    ensures
        occurrence_from(records, class, skip, start) matches Some(index) ==> 0 <= start <= index
            < records.len() && records[index].data_set_number == class,
    decreases records.len() - start,
{
    if 0 <= start < records.len() {
        if records[start].data_set_number == class {
            if skip > 0 {
                lemma_occurrence_from_in_range(records, class, (skip - 1) as nat, start + 1);
            }
        } else {
            lemma_occurrence_from_in_range(records, class, skip, start + 1);
        }
    }
}

/// Searching from `start` for the record that has `skip` records of the class
/// behind `start` in front of it finds `index` exactly when `index` is such a
/// record.
proof fn lemma_occurrence_from_counts(
    records: Seq<Record>,
    class: u8,
    skip: nat,
    start: int,
    index: int,
)
    requires
        0 <= start <= records.len(),
    ensures
        occurrence_from(records, class, skip, start) == Some(index) <==> (start <= index
            < records.len() && records[index].data_set_number == class && class_count(
            records.take(index),
            class,
        ) == class_count(records.take(start), class) + skip),
    decreases records.len() - start,
{
    lemma_occurrence_from_in_range(records, class, skip, start);
    if start < records.len() {
        assert(records.take(start + 1).drop_last() =~= records.take(start));
        assert(records.take(start + 1).last() == records[start]);
        if start <= index < records.len() {
            lemma_class_count_grows(records, class, start + 1, index);
            lemma_class_count_grows(records, class, start, index);
        }
        if records[start].data_set_number == class {
            if skip > 0 {
                lemma_occurrence_from_counts(records, class, (skip - 1) as nat, start + 1, index);
            }
        } else {
            lemma_occurrence_from_counts(records, class, skip, start + 1, index);
        }
    }
}

/// A longer front part of the records holds at least as many records of a
/// class as a shorter one.
proof fn lemma_class_count_grows(records: Seq<Record>, class: u8, shorter: int, longer: int)
    requires
        0 <= shorter <= records.len(),
        0 <= longer <= records.len(),
    ensures
        shorter <= longer ==> class_count(records.take(shorter), class) <= class_count(
            records.take(longer),
            class,
        ),
    decreases longer,
{
    if shorter < longer {
        assert(records.take(longer).drop_last() =~= records.take(longer - 1));
        lemma_class_count_grows(records, class, shorter, longer - 1);
    }
}

/// Occurrence `n` of a class is the record of that class that has exactly
/// `n` records of that class in front of it.
pub proof fn lemma_occurrence_counts(records: Seq<Record>, class: u8, n: nat, index: int)
    ensures
        occurrence(records, class, n) == Some(index) <==> (0 <= index < records.len()
            && records[index].data_set_number == class && class_count(records.take(index), class)
            == n),
{
    assert(records.take(0) =~= Seq::<Record>::empty());
    lemma_occurrence_from_counts(records, class, n, 0, index);
}

/// Searching from `start` finds a record whenever enough records of the
/// class stand at or after `start`.
proof fn lemma_occurrence_from_exists(records: Seq<Record>, class: u8, skip: nat, start: int)
    requires
        0 <= start <= records.len(),
        class_count(records.take(start), class) + skip < class_count(records, class),
    ensures
        occurrence_from(records, class, skip, start) is Some,
    decreases records.len() - start,
{
    if start == records.len() {
        assert(records.take(start) =~= records);
    } else {
        assert(records.take(start + 1).drop_last() =~= records.take(start));
        assert(records.take(start + 1).last() == records[start]);
        if records[start].data_set_number == class {
            if skip > 0 {
                lemma_occurrence_from_exists(records, class, (skip - 1) as nat, start + 1);
            }
        } else {
            lemma_occurrence_from_exists(records, class, skip, start + 1);
        }
    }
}

/// A file with more than `n` records of a class has an occurrence `n` of it.
/// So a save with three signature records has an account name, a character
/// name and a validity id.
pub proof fn lemma_occurrence_exists(records: Seq<Record>, class: u8, n: nat)
    requires
        n < class_count(records, class),
    ensures
        occurrence(records, class, n) is Some,
{
    assert(records.take(0) =~= Seq::<Record>::empty());
    lemma_occurrence_from_exists(records, class, n, 0);
}

/// Which record an occurrence picks depends on the classes of the records
/// and on nothing else that they hold.
proof fn lemma_occurrence_from_ignores_payloads(
    a: Seq<Record>,
    b: Seq<Record>,
    class: u8,
    skip: nat,
    start: int,
)
    requires
        a.len() == b.len(),
        forall|i: int| 0 <= i < a.len() ==> a[i].data_set_number == b[i].data_set_number,
    ensures
        occurrence_from(a, class, skip, start) == occurrence_from(b, class, skip, start),
    decreases a.len() - start,
{
    if 0 <= start < a.len() {
        if a[start].data_set_number == class {
            if skip > 0 {
                lemma_occurrence_from_ignores_payloads(a, b, class, (skip - 1) as nat, start + 1);
            }
        } else {
            lemma_occurrence_from_ignores_payloads(a, b, class, skip, start + 1);
        }
    }
}

/// Which record an occurrence picks depends on the classes of the records
/// and on nothing else that they hold: two files whose records have the same
/// classes in the same order keep each field in the same record.
pub proof fn lemma_occurrence_ignores_payloads(a: Seq<Record>, b: Seq<Record>, class: u8, n: nat)
    requires
        a.len() == b.len(),
        forall|i: int| 0 <= i < a.len() ==> a[i].data_set_number == b[i].data_set_number,
    ensures
        occurrence(a, class, n) == occurrence(b, class, n),
{
    lemma_occurrence_from_ignores_payloads(a, b, class, n, 0);
}

/// Replacing a payload moves no field: every occurrence is found where it
/// was, and the two regions around the records stay as they were.
pub proof fn lemma_edit_keeps_layout(
    model: SaveModel,
    index: int,
    payload: Seq<u8>,
    class: u8,
    n: nat,
)
    requires
        0 <= index < model.records.len(),
    ensures
        occurrence(model.with_payload_at(index, payload).records, class, n) == occurrence(
            model.records,
            class,
            n,
        ),
        model.with_payload_at(index, payload).prefix == model.prefix,
        model.with_payload_at(index, payload).suffix == model.suffix,
        model.with_payload_at(index, payload).records.len() == model.records.len(),
{
    lemma_occurrence_ignores_payloads(
        model.with_payload_at(index, payload).records,
        model.records,
        class,
        n,
    );
}

/// The validity id is a function of the costume specification alone: two
/// saves with the same specification have the same validity id, whatever
/// else they hold.
pub proof fn lemma_validity_id_follows_specification(a: SaveModel, b: SaveModel)
    requires
        occurrence(
            a.records,
            COSTUME_SPECIFICATION_DATA_SET_NUMBER,
            COSTUME_SPECIFICATION_OCCURRENCE as nat,
        ) matches Some(i) && occurrence(
            b.records,
            COSTUME_SPECIFICATION_DATA_SET_NUMBER,
            COSTUME_SPECIFICATION_OCCURRENCE as nat,
        ) matches Some(j) && a.records[i].payload == b.records[j].payload,
    ensures
        a.validity_id() == b.validity_id(),
        a.validity_id() is Ok,
{
}

/// After an edit the field's record carries the new payload and a length
/// field that spells the new payload's size, the field is still found in
/// that record, and every other record is as it was.
pub proof fn lemma_edit_sets_payload_and_length(
    model: SaveModel,
    class: u8,
    n: nat,
    payload: Seq<u8>,
)
    ensures
        model.with_field(class, n, payload) matches Ok(edited) ==> ({
            let index = occurrence(model.records, class, n)->0;
            &&& 0 <= index < model.records.len()
            &&& edited.records.len() == model.records.len()
            &&& occurrence(edited.records, class, n) == Some(index)
            &&& edited.records[index].payload == payload
            &&& big_endian_16(
                edited.records[index].encoded()[3],
                edited.records[index].encoded()[4],
            ) == payload.len()
            &&& forall|other: int|
                0 <= other < model.records.len() && other != index ==> edited.records[other]
                    == model.records[other]
        }),
{
    if let Ok(edited) = model.with_field(class, n, payload) {
        let index = occurrence(model.records, class, n)->0;
        lemma_occurrence_from_in_range(model.records, class, n, 0);
        lemma_edit_keeps_layout(model, index, payload, class, n);
    }
}

/// A field reads as the text that was last set: after an edit with the
/// bytes of `text`, the field's text is `text`.
pub proof fn lemma_field_reads_as_set(model: SaveModel, class: u8, n: nat, text: Seq<char>)
    ensures
        model.with_field(class, n, encode_utf8(text)) matches Ok(edited) ==> edited.field_text(
            class,
            n,
        ) == Ok::<Seq<char>, CostumeError>(text),
{
    lemma_edit_sets_payload_and_length(model, class, n, encode_utf8(text));
    encode_utf8_valid_utf8(text);
    encode_utf8_decode_utf8(text);
}

/// A save's validity id is current exactly when computing it anew changes
/// nothing.
pub proof fn lemma_current_means_refresh_changes_nothing(model: SaveModel)
    ensures
        model.validity_is_current() <==> model.refreshed() == Ok::<SaveModel, CostumeError>(
            model,
        ),
{
    if let Ok(id) = model.validity_id() {
        let specification = occurrence(
            model.records,
            COSTUME_SPECIFICATION_DATA_SET_NUMBER,
            COSTUME_SPECIFICATION_OCCURRENCE as nat,
        )->0;
        lemma_validity_id_len(model.records[specification].payload);
        if let Some(index) = occurrence(
            model.records,
            COSTUME_SIGNATURE_DATA_SET_NUMBER,
            VALIDITY_ID_OCCURRENCE as nat,
        ) {
            lemma_occurrence_from_in_range(
                model.records,
                COSTUME_SIGNATURE_DATA_SET_NUMBER,
                VALIDITY_ID_OCCURRENCE as nat,
                0,
            );
            let fresh = model.with_payload_at(index, id);
            assert(fresh.records[index].payload == id);
            if model.records[index].payload == id {
                assert(fresh.records =~= model.records);
            }
        }
    }
}

/// Computing the validity id anew leaves a save whose validity id is
/// current, so that doing it a second time changes nothing: the id never goes
/// stale between the computing and the writing.
pub proof fn lemma_refresh_is_idempotent(model: SaveModel)
    ensures
        model.refreshed() matches Ok(fresh) ==> fresh.validity_is_current() && fresh.refreshed()
            == Ok::<SaveModel, CostumeError>(fresh),
{
    if let Ok(fresh) = model.refreshed() {
        let specification = occurrence(
            model.records,
            COSTUME_SPECIFICATION_DATA_SET_NUMBER,
            COSTUME_SPECIFICATION_OCCURRENCE as nat,
        )->0;
        let id_index = occurrence(
            model.records,
            COSTUME_SIGNATURE_DATA_SET_NUMBER,
            VALIDITY_ID_OCCURRENCE as nat,
        )->0;
        lemma_occurrence_from_in_range(
            model.records,
            COSTUME_SPECIFICATION_DATA_SET_NUMBER,
            COSTUME_SPECIFICATION_OCCURRENCE as nat,
            0,
        );
        lemma_occurrence_from_in_range(
            model.records,
            COSTUME_SIGNATURE_DATA_SET_NUMBER,
            VALIDITY_ID_OCCURRENCE as nat,
            0,
        );
        let id = model.validity_id()->Ok_0;
        lemma_validity_id_len(model.records[specification].payload);
        lemma_edit_keeps_layout(
            model,
            id_index,
            id,
            COSTUME_SPECIFICATION_DATA_SET_NUMBER,
            COSTUME_SPECIFICATION_OCCURRENCE as nat,
        );
        lemma_edit_keeps_layout(
            model,
            id_index,
            id,
            COSTUME_SIGNATURE_DATA_SET_NUMBER,
            VALIDITY_ID_OCCURRENCE as nat,
        );
        assert(fresh == model.with_payload_at(id_index, id));
        assert(fresh.records[specification] == model.records[specification]);
        assert(fresh.with_payload_at(id_index, id).records =~= fresh.records);
        lemma_current_means_refresh_changes_nothing(fresh);
    }
}

/// The validity id always fits its record, so computing it anew fails only
/// when the costume specification or the validity id's record is absent.
pub proof fn lemma_refresh_fails_on_lookup_only(model: SaveModel)
    ensures
        model.refreshed() matches Err(error) ==> error == CostumeError::Lookup,
{
    if let Ok(id) = model.validity_id() {
        let specification = occurrence(
            model.records,
            COSTUME_SPECIFICATION_DATA_SET_NUMBER,
            COSTUME_SPECIFICATION_OCCURRENCE as nat,
        )->0;
        lemma_validity_id_len(model.records[specification].payload);
    }
}

/// The text that a `String` result stands for.
pub open spec fn text_view(text: Result<String, CostumeError>) -> Result<Seq<char>, CostumeError> {
    match text {
        Ok(string) => Ok(string@),
        Err(error) => Err(error),
    }
}

/// Finds occurrence `n` of class `class` among `datasets`.
pub fn find_occurrence(datasets: &Vec<DataSet>, class: u8, n: usize) -> (found: Option<usize>)
    ensures
        match found {
            Some(index) => occurrence(records_of(datasets@), class, n as nat) == Some(
                index as int,
            ) && index < datasets@.len(),
            None => occurrence(records_of(datasets@), class, n as nat) is None,
        },
{
    let mut skip: usize = n;
    let mut i: usize = 0;
    while i < datasets.len()
        invariant
            i <= datasets@.len(),
            occurrence(records_of(datasets@), class, n as nat) == occurrence_from(
                records_of(datasets@),
                class,
                skip as nat,
                i as int,
            ),
        decreases datasets@.len() - i,
    {
        if datasets[i].data_set_number() == class {
            if skip == 0 {
                return Some(i);
            }
            skip -= 1;
        }
        i += 1;
    }
    None
}

} // verus!
