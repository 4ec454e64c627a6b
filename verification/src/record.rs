//! Delimited records, as the `csv` crate holds them.

use vstd::prelude::*;

verus! {

/// `csv::StringRecord`: one record of delimited text, already split into
/// fields. Nothing of its representation is known here; what it holds is
/// spoken of as [`fields_of`].
#[verifier::external_type_specification]
#[verifier::external_body]
pub struct ExStringRecord(csv::StringRecord);

/// The fields of a record, in order, each as its text.
pub uninterp spec fn fields_of(record: csv::StringRecord) -> Seq<Seq<char>>;

/// `csv::StringRecord::len`: the number of fields in the record.
pub assume_specification[ csv::StringRecord::len ](record: &csv::StringRecord) -> (count: usize)
    ensures
        count == fields_of(*record).len(),
;

/// `csv::StringRecord::get`: the field at `i`, counted from zero, or `None`
/// where the record has no such field.
pub assume_specification<'a>[ csv::StringRecord::get ](
    record: &'a csv::StringRecord,
    i: usize,
) -> (field: Option<&'a str>)
    ensures
        match field {
            Some(text) => i < fields_of(*record).len() && text@ == fields_of(*record)[i as int],
            None => i >= fields_of(*record).len(),
        },
;

} // verus!
