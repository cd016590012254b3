//! Stored relationships between two memories of a library.

use vstd::prelude::*;
use crate::ids::new_uuid;
use crate::store::UNIT;
use crate::text::same_text;
use vstd::string::StringExecFns;

verus! {

/// JSON values are carried through unchanged.
#[verifier::external_type_specification]
#[verifier::external_body]
pub struct ExValue(serde_json::Value);

/// Relies on `serde_json::Map::new`: the metadata of a new relationship is an
/// empty JSON object.
#[verifier::external_body]
fn empty_metadata() -> (r: serde_json::Value) {
    serde_json::Value::Object(serde_json::Map::new())
}

/// A directed relationship `source_id → target_id`.
#[derive(Debug)]
pub struct Relationship {
    pub id: String,
    pub source_id: String,
    pub target_id: String,
    /// Kind of the relationship (`entangled`, `caused`, `related_to`, ...).
    pub relationship_type: String,
    /// Free-form JSON metadata.
    pub metadata: serde_json::Value,
    pub created_at: u64,
    pub updated_at: u64,
    /// Strength in millionths, at most `UNIT`.
    pub strength: u32,
}

/// `x` limited to `UNIT`.
pub open spec fn clamp_unit(x: u32) -> u32 {
    if x > UNIT { UNIT } else { x }
}

impl Relationship {
    /// A relationship with id `id`, made at `now`, of full strength.
    pub fn new_with_id(id: &str, source_id: &str, target_id: &str, relationship_type: &str, now: u64) -> (r: Relationship)
        ensures
            r.id@ == id@,
            r.source_id@ == source_id@,
            r.target_id@ == target_id@,
            r.relationship_type@ == relationship_type@,
            r.created_at == now,
            r.updated_at == now,
            r.strength == UNIT,
    {
        Relationship {
            id: String::from_str(id),
            source_id: String::from_str(source_id),
            target_id: String::from_str(target_id),
            relationship_type: String::from_str(relationship_type),
            metadata: empty_metadata(),
            created_at: now,
            updated_at: now,
            strength: UNIT,
        }
    }

    /// A relationship under a fresh id, made at `now`, of full strength.
    pub fn new(source_id: &str, target_id: &str, relationship_type: &str, now: u64) -> (r: Relationship)
        ensures
            r.id@.len() == 36,
            r.source_id@ == source_id@,
            r.target_id@ == target_id@,
            r.relationship_type@ == relationship_type@,
            r.created_at == now,
            r.updated_at == now,
            r.strength == UNIT,
    {
        let id = new_uuid();
        Relationship::new_with_id(id.as_str(), source_id, target_id, relationship_type, now)
    }

    /// This relationship with other metadata.
    pub fn with_metadata(self, metadata: serde_json::Value) -> (r: Relationship)
        ensures
            r == (Relationship { metadata, ..self }),
    {
        Relationship { metadata, ..self }
    }

    /// Replaces the metadata as of `now`.
    pub fn update_metadata(&mut self, metadata: serde_json::Value, now: u64)
        ensures
            *final(self) == (Relationship { metadata, updated_at: now, ..*old(self) }),
    {
        self.metadata = metadata;
        self.updated_at = now;
    }

    /// This relationship with strength `strength`, limited to `UNIT`.
    pub fn with_strength(self, strength: u32) -> (r: Relationship)
        ensures
            r == (Relationship { strength: clamp_unit(strength), ..self }),
    {
        Relationship { strength: if strength > UNIT { UNIT } else { strength }, ..self }
    }

    /// Sets the strength, limited to `UNIT`, as of `now`.
    pub fn update_strength(&mut self, strength: u32, now: u64)
        ensures
            *final(self) == (Relationship { strength: clamp_unit(strength), updated_at: now, ..*old(self) }),
    {
        self.strength = if strength > UNIT { UNIT } else { strength };
        self.updated_at = now;
    }

    /// Whether the relationship joins the two memories, in either direction.
    pub fn is_between(&self, memory_id1: &str, memory_id2: &str) -> (r: bool)
        ensures
            r == ((self.source_id@ == memory_id1@ && self.target_id@ == memory_id2@)
                || (self.source_id@ == memory_id2@ && self.target_id@ == memory_id1@)),
    {
        (same_text(self.source_id.as_str(), memory_id1) && same_text(self.target_id.as_str(), memory_id2))
            || (same_text(self.source_id.as_str(), memory_id2) && same_text(self.target_id.as_str(), memory_id1))
    }

    /// Whether the memory is one of the two ends.
    pub fn involves(&self, memory_id: &str) -> (r: bool)
        ensures
            r == (self.source_id@ == memory_id@ || self.target_id@ == memory_id@),
    {
        same_text(self.source_id.as_str(), memory_id) || same_text(self.target_id.as_str(), memory_id)
    }

    /// The other end, seen from `memory_id`; `None` when it is not an end.
    pub fn get_other_memory_id(&self, memory_id: &str) -> (r: Option<&str>)
        ensures
            self.source_id@ == memory_id@ ==> (r matches Some(o) && o@ == self.target_id@),
            self.source_id@ != memory_id@ && self.target_id@ == memory_id@ ==> (r matches Some(o) && o@ == self.source_id@),
            self.source_id@ != memory_id@ && self.target_id@ != memory_id@ ==> r is None,
    {
        if same_text(self.source_id.as_str(), memory_id) {
            Some(self.target_id.as_str())
        } else if same_text(self.target_id.as_str(), memory_id) {
            Some(self.source_id.as_str())
        } else {
            None
        }
    }
}

} // verus!
