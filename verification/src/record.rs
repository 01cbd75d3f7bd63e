//! The data model: source records as read from the store, normalized records
//! as emitted, and the pure projection between them.

use vstd::prelude::*;

use crate::errors::TailError;

verus! {

/// Mathematical model of a source record: the five fields of a row of the
/// event table, as plain values.
#[verifier::ext_equal]
pub ghost struct SourceRecordModel {
    pub timestamp: int,
    pub level: Seq<char>,
    pub category: Seq<char>,
    pub origin: Seq<char>,
    pub message: Seq<char>,
}

/// Mathematical model of a normalized record.
#[verifier::ext_equal]
pub ghost struct NormalizedRecordModel {
    pub timestamp: int,
    pub level: Seq<char>,
    pub source: Seq<char>,
    pub category: Seq<char>,
    pub message: Seq<char>,
}

/// A record as read from the source store: a unix timestamp (monotonically
/// assigned at write time, not guaranteed unique), a severity level, the
/// originating logical component (`category`), the originating execution
/// context (`origin`), and the message text.
#[derive(Debug, Clone)]
pub struct SourceRecord {
    pub timestamp: i64,
    pub level: String,
    pub category: String,
    pub origin: String,
    pub message: String,
}

/// A record in the normalized output schema: a renaming/projection of a
/// source record (`origin` becomes `source`), with nothing added or removed.
#[derive(Debug, Clone)]
pub struct NormalizedRecord {
    pub timestamp: i64,
    pub level: String,
    pub source: String,
    pub category: String,
    pub message: String,
}

impl View for SourceRecord {
    type V = SourceRecordModel;

    open spec fn view(&self) -> SourceRecordModel {
        SourceRecordModel {
            timestamp: self.timestamp as int,
            level: self.level@,
            category: self.category@,
            origin: self.origin@,
            message: self.message@,
        }
    }
}

impl View for NormalizedRecord {
    type V = NormalizedRecordModel;

    open spec fn view(&self) -> NormalizedRecordModel {
        NormalizedRecordModel {
            timestamp: self.timestamp as int,
            level: self.level@,
            source: self.source@,
            category: self.category@,
            message: self.message@,
        }
    }
}

/// The models of a sequence of source records.
pub open spec fn source_models(s: Seq<SourceRecord>) -> Seq<SourceRecordModel> {
    s.map_values(|r: SourceRecord| r@)
}

/// The models of a sequence of normalized records.
pub open spec fn normalized_models(s: Seq<NormalizedRecord>) -> Seq<NormalizedRecordModel> {
    s.map_values(|n: NormalizedRecord| n@)
}

/// What `transform` computes: the full projection of a source record onto the
/// normalized schema. `timestamp`, `level`, `category` and `message` are kept
/// unchanged; `origin` is mapped to `source`.
pub open spec fn transform_model(r: SourceRecordModel) -> NormalizedRecordModel {
    NormalizedRecordModel {
        timestamp: r.timestamp,
        level: r.level,
        source: r.origin,
        category: r.category,
        message: r.message,
    }
}

/// Maps a source record into the normalized output schema. Pure and
/// stateless; cannot fail.
pub fn transform(r: &SourceRecord) -> (n: NormalizedRecord)
    ensures
        n@ == transform_model(r@),
{
    NormalizedRecord {
        timestamp: r.timestamp,
        level: r.level.clone(),
        source: r.origin.clone(),
        category: r.category.clone(),
        message: r.message.clone(),
    }
}

/// Two distinct source records never normalize to the same record: the
/// projection keeps every field.
pub proof fn lemma_transform_injective(a: SourceRecordModel, b: SourceRecordModel)
    ensures
        transform_model(a) == transform_model(b) ==> a == b,
{
    if transform_model(a) == transform_model(b) {
        assert(a =~= b);
    }
}

impl SourceRecord {
    /// An exact copy: every field carried over unchanged.
    pub fn duplicate(&self) -> (r: SourceRecord)
        ensures
            r@ == self@,
            r.timestamp == self.timestamp,
    {
        SourceRecord {
            timestamp: self.timestamp,
            level: self.level.clone(),
            category: self.category.clone(),
            origin: self.origin.clone(),
            message: self.message.clone(),
        }
    }

    /// Assembles a source record from the raw fields of one row, each absent
    /// or present. Succeeds exactly when every required field is present;
    /// a missing field is the per-record `MalformedRecordError`.
    pub fn from_fields(
        timestamp: Option<i64>,
        level: Option<String>,
        category: Option<String>,
        origin: Option<String>,
        message: Option<String>,
    ) -> (r: Result<SourceRecord, TailError>)
        ensures
            r is Ok <==> (timestamp is Some && level is Some && category is Some
                && origin is Some && message is Some),
            r is Ok ==> r->Ok_0@ == (SourceRecordModel {
                timestamp: timestamp->0 as int,
                level: level->0@,
                category: category->0@,
                origin: origin->0@,
                message: message->0@,
            }),
            r is Err ==> r->Err_0 == TailError::MalformedRecordError,
    {
        match (timestamp, level, category, origin, message) {
            (Some(timestamp), Some(level), Some(category), Some(origin), Some(message)) => {
                Ok(SourceRecord { timestamp, level, category, origin, message })
            },
            _ => Err(TailError::MalformedRecordError),
        }
    }
}

} // verus!
