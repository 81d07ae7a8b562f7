//! The data model: dated weight records, the optional profile and goal, and
//! the document that holds them, with ghost views for contracts.
//!
//! Weights and heights are carried as integers in thousandths of a unit
//! (milli-kilograms and milli-centimetres), the precision that the validation
//! bounds speak in. Text fields are byte strings.

use vstd::prelude::*;

verus! {

/// One dated weight measurement.
pub struct WeightRecord {
    /// Opaque unique identifier.
    pub id: Vec<u8>,
    /// ISO 8601 calendar date; the natural dedup key.
    pub date: Vec<u8>,
    /// Weight in thousandths of a kilogram.
    pub weight_milli: u64,
    /// Optional free text.
    pub note: Option<Vec<u8>>,
    /// Creation timestamp, immutable once set.
    pub created_at: Vec<u8>,
}

#[verifier::ext_equal]
pub ghost struct RecordV {
    pub id: Seq<u8>,
    pub date: Seq<u8>,
    pub weight_milli: u64,
    pub note: Option<Seq<u8>>,
    pub created_at: Seq<u8>,
}

impl View for WeightRecord {
    type V = RecordV;

    open spec fn view(&self) -> RecordV {
        RecordV {
            id: self.id@,
            date: self.date@,
            weight_milli: self.weight_milli,
            note: match self.note {
                Some(n) => Some(n@),
                None => None,
            },
            created_at: self.created_at@,
        }
    }
}

impl WeightRecord {
    /// A fresh copy of the record.
    pub fn duplicate(&self) -> (r: WeightRecord)
        ensures
            r@ == self@,
    {
        WeightRecord {
            id: crate::bytes::copy_bytes(&self.id),
            date: crate::bytes::copy_bytes(&self.date),
            weight_milli: self.weight_milli,
            note: match &self.note {
                Some(n) => Some(crate::bytes::copy_bytes(n)),
                None => None,
            },
            created_at: crate::bytes::copy_bytes(&self.created_at),
        }
    }
}

/// The singleton user profile.
pub struct UserProfile {
    /// Height in thousandths of a centimetre.
    pub height_milli: u64,
    pub gender: Option<Vec<u8>>,
}

#[verifier::ext_equal]
pub ghost struct ProfileV {
    pub height_milli: u64,
    pub gender: Option<Seq<u8>>,
}

impl View for UserProfile {
    type V = ProfileV;

    open spec fn view(&self) -> ProfileV {
        ProfileV {
            height_milli: self.height_milli,
            gender: match self.gender {
                Some(g) => Some(g@),
                None => None,
            },
        }
    }
}

/// The singleton goal.
pub struct Goal {
    /// Target weight in thousandths of a kilogram.
    pub target_weight_milli: u64,
    pub target_date: Option<Vec<u8>>,
    pub created_at: Vec<u8>,
}

#[verifier::ext_equal]
pub ghost struct GoalV {
    pub target_weight_milli: u64,
    pub target_date: Option<Seq<u8>>,
    pub created_at: Seq<u8>,
}

impl View for Goal {
    type V = GoalV;

    open spec fn view(&self) -> GoalV {
        GoalV {
            target_weight_milli: self.target_weight_milli,
            target_date: match self.target_date {
                Some(d) => Some(d@),
                None => None,
            },
            created_at: self.created_at@,
        }
    }
}

/// The durable unit: records, optional profile, optional goal, version tag.
pub struct AppData {
    pub records: Vec<WeightRecord>,
    pub profile: Option<UserProfile>,
    pub goal: Option<Goal>,
    pub version: i32,
}

#[verifier::ext_equal]
pub ghost struct AppDataV {
    pub records: Seq<RecordV>,
    pub profile: Option<ProfileV>,
    pub goal: Option<GoalV>,
    pub version: i32,
}

impl View for AppData {
    type V = AppDataV;

    open spec fn view(&self) -> AppDataV {
        AppDataV {
            records: self.records@.map_values(|r: WeightRecord| r@),
            profile: match self.profile {
                Some(p) => Some(p@),
                None => None,
            },
            goal: match self.goal {
                Some(g) => Some(g@),
                None => None,
            },
            version: self.version,
        }
    }
}

/// The document a store starts from when no backing file exists yet.
pub open spec fn empty_doc() -> AppDataV {
    AppDataV { records: Seq::empty(), profile: None, goal: None, version: 1 }
}

impl AppData {
    /// The empty document: no records, no profile, no goal, version 1.
    pub fn empty() -> (r: AppData)
        ensures
            r@ == empty_doc(),
    {
        let r = AppData { records: Vec::new(), profile: None, goal: None, version: 1 };
        proof {
            assert(r@.records =~= empty_doc().records);
            assert(r@ =~= empty_doc());
        }
        r
    }
}

/// The outcome of a bulk import: counts plus one message per rejected or
/// skipped input row, in input order.
pub struct ImportResult {
    pub success: usize,
    pub failed: usize,
    pub skipped: usize,
    pub errors: Vec<Vec<u8>>,
}

#[verifier::ext_equal]
pub ghost struct ImportResultV {
    pub success: int,
    pub failed: int,
    pub skipped: int,
    pub errors: Seq<Seq<u8>>,
}

impl View for ImportResult {
    type V = ImportResultV;

    open spec fn view(&self) -> ImportResultV {
        ImportResultV {
            success: self.success as int,
            failed: self.failed as int,
            skipped: self.skipped as int,
            errors: self.errors@.map_values(|e: Vec<u8>| e@),
        }
    }
}

/// How an import candidate is resolved against an existing record on the
/// same date.
#[derive(Clone, Copy, PartialEq, Eq, Structural)]
pub enum Policy {
    Overwrite,
    Keep,
    Skip,
}

/// The policy as callers hand it over: a word, with every unrecognized word
/// behaving like `skip`.
pub struct ConflictResolution {
    pub on_conflict: Vec<u8>,
}

impl ConflictResolution {
    /// The closed policy the word denotes; unrecognized words mean `skip`.
    pub open spec fn policy_spec(&self) -> Policy {
        if self.on_conflict@ == crate::lit::pol_overwrite() {
            Policy::Overwrite
        } else if self.on_conflict@ == crate::lit::pol_keep() {
            Policy::Keep
        } else {
            Policy::Skip
        }
    }

    pub fn policy(&self) -> (p: Policy)
        ensures
            p == self.policy_spec(),
    {
        if crate::bytes::bytes_eq(&self.on_conflict, &crate::lit::pol_overwrite_vec()) {
            Policy::Overwrite
        } else if crate::bytes::bytes_eq(&self.on_conflict, &crate::lit::pol_keep_vec()) {
            Policy::Keep
        } else {
            Policy::Skip
        }
    }
}

} // verus!
