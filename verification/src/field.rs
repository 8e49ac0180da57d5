//! The field decoder contract: how the bytes of one field become a typed
//! value.

use vstd::prelude::*;

verus! {

/// A type that can be decoded from the bytes of one field.
///
/// `'a` is the lifetime of the buffer, from which a decoded value may borrow.
pub trait ParseCsvField<'a>: Sized + Clone {
    /// Whether a field that holds these bytes can be decoded.
    spec fn accepts(field: Seq<u8>) -> bool;

    /// Whether `value` is what a field that holds these bytes decodes to.
    spec fn decodes_to(field: Seq<u8>, value: Self) -> bool;

    /// A clone of a decoded value stands for the same field.
    proof fn lemma_clone_decodes_alike(field: Seq<u8>, value: Self, copy: Self)
        requires
            Self::decodes_to(field, value),
            cloned(value, copy),
        ensures
            Self::decodes_to(field, copy),
    ;

    /// Decodes one field. Fails exactly on the fields that the type does not
    /// accept.
    fn parse_csv_field(buffer: &'a [u8]) -> (value: Result<Self, ()>)
        ensures
            value is Ok <==> Self::accepts(buffer@),
            value is Ok ==> Self::decodes_to(buffer@, value->Ok_0),
    ;
}

/// Whether every field of a column can be decoded as a `T`.
pub open spec fn column_accepted<'a, T: ParseCsvField<'a>>(fields: Seq<Seq<u8>>) -> bool {
    forall|r: int| 0 <= r < fields.len() ==> T::accepts(#[trigger] fields[r])
}

/// Whether `values` holds, row by row, what the fields of a column decode to.
pub open spec fn column_decoded<'a, T: ParseCsvField<'a>>(
    fields: Seq<Seq<u8>>,
    values: Seq<T>,
) -> bool {
    &&& values.len() == fields.len()
    &&& forall|r: int| 0 <= r < fields.len() ==> T::decodes_to(fields[r], #[trigger] values[r])
}

} // verus!
