//! The persisted row envelope: identity, two timestamps and a payload.
use vstd::prelude::*;
use crate::db_model_type::ModelType;
use crate::db_model_type::ModelTypeV;
use crate::db_model_type::format_model;
use crate::text::MAIN_SEPARATOR;
use crate::text::dec_text;
use crate::text::format_u128;
use crate::text::format_u64;
use crate::text::join_strings;
use crate::text::join_text;
use crate::text::views_of;

verus! {

/// A persisted row: identity, when it was added and last changed, and the
/// payload it carries. Ids and timestamps are assigned by the storage layer.
#[derive(Debug, Clone, PartialEq, Eq)]
pub struct Entry {
    pub id: u64,
    pub timestamp_added: u128,
    pub timestamp_changed: u128,
    pub model_type: ModelType,
}

/// The flattened row text: id, the two timestamps and the encoded payload,
/// four fields joined by the top-level separator. No decode is defined for
/// whole rows here; the storage layer reads them back field by field.
pub open spec fn row_text(id: nat, added: nat, changed: nat, m: ModelTypeV) -> Seq<char> {
    join_text(
        seq![dec_text(id), dec_text(added), dec_text(changed), format_model(m)],
        MAIN_SEPARATOR,
    )
}

impl Entry {
    /// Flattens the row for persistence.
    pub fn to_data_row_string(&self) -> (r: String)
        ensures
            r@ == row_text(
                self.id as nat,
                self.timestamp_added as nat,
                self.timestamp_changed as nat,
                self.model_type@,
            ),
    {
        let mut parts: Vec<String> = Vec::new();
        parts.push(format_u64(self.id));
        parts.push(format_u128(self.timestamp_added));
        parts.push(format_u128(self.timestamp_changed));
        parts.push(self.model_type.to_model_string());
        proof {
            reveal_strlit(";");
            assert(";"@ =~= seq![MAIN_SEPARATOR]);
            assert(views_of(parts@) =~= seq![
                dec_text(self.id as nat),
                dec_text(self.timestamp_added as nat),
                dec_text(self.timestamp_changed as nat),
                format_model(self.model_type@),
            ]);
        }
        join_strings(&parts, MAIN_SEPARATOR, ";")
    }
}

} // verus!
