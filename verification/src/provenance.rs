//! Where an entry comes from: the source text, clause and document, its effective
//! period and who verified it when.

use vstd::prelude::*;
use crate::json::{dup_opt_str, Duplicate, json_object, json_opt_str, json_str, opt_member, opt_str_json, push_member, push_opt_member, Json, JsonValue, ToJson};

verus! {

/// Provenance of an entry.
#[derive(Debug)]
pub struct Provenance {
    pub source: String,
    pub clause: Option<String>,
    pub document_id: Option<String>,
    pub effective_from: Option<String>,
    pub effective_to: Option<String>,
    pub last_verified: Option<String>,
    pub verified_by: Option<String>,
}

impl View for Provenance {
    type V = Json;

    open spec fn view(&self) -> Json {
        Json::Object(
            seq![("source"@, Json::Str(self.source@))]
                + opt_member("clause"@, opt_str_json(self.clause))
                + opt_member("document_id"@, opt_str_json(self.document_id))
                + opt_member("effective_from"@, opt_str_json(self.effective_from))
                + opt_member("effective_to"@, opt_str_json(self.effective_to))
                + opt_member("last_verified"@, opt_str_json(self.last_verified))
                + opt_member("verified_by"@, opt_str_json(self.verified_by)),
        )
    }
}

impl ToJson for Provenance {
    fn to_json(&self) -> (r: JsonValue) {
        let mut m: Vec<(String, JsonValue)> = Vec::new();
        push_member(&mut m, "source", json_str(&self.source));
        push_opt_member(&mut m, "clause", json_opt_str(&self.clause));
        push_opt_member(&mut m, "document_id", json_opt_str(&self.document_id));
        push_opt_member(&mut m, "effective_from", json_opt_str(&self.effective_from));
        push_opt_member(&mut m, "effective_to", json_opt_str(&self.effective_to));
        push_opt_member(&mut m, "last_verified", json_opt_str(&self.last_verified));
        push_opt_member(&mut m, "verified_by", json_opt_str(&self.verified_by));
        assert(crate::json::members_of(m@) =~= self@->Object_0);
        json_object(m)
    }
}


impl Duplicate for Provenance {
    fn duplicate(&self) -> (r: Provenance) {
        Provenance {
            source: self.source.clone(),
            clause: dup_opt_str(&self.clause),
            document_id: dup_opt_str(&self.document_id),
            effective_from: dup_opt_str(&self.effective_from),
            effective_to: dup_opt_str(&self.effective_to),
            last_verified: dup_opt_str(&self.last_verified),
            verified_by: dup_opt_str(&self.verified_by),
        }
    }
}

} // verus!
