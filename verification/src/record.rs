//! The record model: one catalog entry, identified by a generated id, with a
//! title and an optional rating.

use vstd::prelude::*;

verus! {

/// The mathematical value of a [`MovieRecord`]: id and title as character
/// sequences, the rating as it stands.
pub ghost struct RecordView {
    pub record_id: Seq<char>,
    pub title: Seq<char>,
    pub rating: Option<u64>,
}

/// One stored entry. The id is generated by the store at creation time and is
/// never recomputed. The title is free text; the store does not validate it.
/// The rating is carried as an opaque 64-bit encoding chosen by the caller;
/// `None` means "no rating given", which is distinct from every encoded value.
pub struct MovieRecord {
    pub record_id: String,
    pub title: String,
    pub rating: Option<u64>,
}

impl View for MovieRecord {
    type V = RecordView;

    open spec fn view(&self) -> RecordView {
        RecordView { record_id: self.record_id@, title: self.title@, rating: self.rating }
    }
}

impl Clone for MovieRecord {
    fn clone(&self) -> (r: Self)
        ensures
            r@ == self@,
    {
        MovieRecord {
            record_id: self.record_id.clone(),
            title: self.title.clone(),
            rating: self.rating,
        }
    }
}

/// Relies on `uuid::Uuid::new_v4` and its `Display` form: a freshly drawn
/// random version-4 UUID, rendered in the hyphenated format, which is always
/// 36 characters long. The draw is random, so nothing is assumed about which
/// string comes back, nor that two draws differ.
#[verifier::external_body]
pub(crate) fn fresh_id() -> (r: String)
    ensures
        r@.len() == 36,
{
    uuid::Uuid::new_v4().to_string()
}

} // verus!
