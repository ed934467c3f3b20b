//! The stored form of the cache: a sequence of records, and its bytes.
//!
//! A record is an identifier with the four fields of its evaluation: the
//! number of the kind, the depth, the time and the nodes. The bytes of a
//! sequence of records are bincode's: the number of records in eight bytes,
//! then each record field by field, all fixed-width and little-endian.

use crate::eval::{EvalKind, Evaluation};
use vstd::prelude::*;

verus! {

/// `bincode::ErrorKind`, carried through as it is.
#[verifier::external_type_specification]
#[verifier::external_body]
pub struct ExErrorKind(bincode::ErrorKind);

/// Why a cache could not be stored or loaded.
#[derive(Debug, Clone, Copy, PartialEq, Eq, Structural)]
pub enum StoreError {
    /// The records could not be turned into bytes.
    Unwritable,
    /// The bytes are not those of a sequence of records.
    Unreadable,
    /// A record names a kind that does not exist.
    UnknownKind,
}

/// What `bincode::serialize` gives for a sequence of records: the bytes, or
/// nothing where it fails.
pub uninterp spec fn bincode_serialized(records: Seq<(u64, (u32, u16, u32, u64))>) -> Option<
    Seq<u8>,
>;

/// What `bincode::deserialize` gives for bytes, read as a sequence of records:
/// the records, or nothing where it fails.
pub uninterp spec fn bincode_deserialized(bytes: Seq<u8>) -> Option<
    Seq<(u64, (u32, u16, u32, u64))>,
>;

/// `bincode::serialize` on a vector of records. The result is named, not
/// described: it is `bincode_serialized` of the records.
#[verifier::external_body]
fn serialize(records: &Vec<(u64, (u32, u16, u32, u64))>) -> (r: Result<
    Vec<u8>,
    Box<bincode::ErrorKind>,
>)
    ensures
        match r {
            Ok(bytes) => bincode_serialized(records@) == Some(bytes@),
            Err(_) => bincode_serialized(records@) is None,
        },
{
    bincode::serialize(records)
}

/// `bincode::deserialize` to a vector of records. The result is named, not
/// described: it is `bincode_deserialized` of the bytes.
#[verifier::external_body]
fn deserialize(bytes: &[u8]) -> (r: Result<
    Vec<(u64, (u32, u16, u32, u64))>,
    Box<bincode::ErrorKind>,
>)
    ensures
        match r {
            Ok(records) => bincode_deserialized(bytes@) == Some(records@),
            Err(_) => bincode_deserialized(bytes@) is None,
        },
{
    bincode::deserialize(bytes)
}

/// The number that stands for a kind in a record.
pub open spec fn spec_kind_index(kind: EvalKind) -> u32 {
    match kind {
        EvalKind::TooFar => 0,
        EvalKind::Loss => 1,
        EvalKind::Draw => 2,
        EvalKind::Win => 3,
    }
}

/// The kind that a number stands for, if it stands for one.
pub open spec fn spec_kind_at(index: u32) -> Option<EvalKind> {
    if index == 0 {
        Some(EvalKind::TooFar)
    } else if index == 1 {
        Some(EvalKind::Loss)
    } else if index == 2 {
        Some(EvalKind::Draw)
    } else if index == 3 {
        Some(EvalKind::Win)
    } else {
        None
    }
}

/// The fields of an evaluation as a record holds them.
pub open spec fn spec_fields(eval: Evaluation) -> (u32, u16, u32, u64) {
    (spec_kind_index(eval.kind), eval.depth, eval.time, eval.nodes)
}

/// The evaluation that the fields of a record stand for, if its kind exists.
pub open spec fn spec_evaluation(fields: (u32, u16, u32, u64)) -> Option<Evaluation> {
    match spec_kind_at(fields.0) {
        Some(kind) => Some(Evaluation { kind, depth: fields.1, time: fields.2, nodes: fields.3 }),
        None => None,
    }
}

/// Whether every record names a kind that exists.
pub open spec fn readable(records: Seq<(u64, (u32, u16, u32, u64))>) -> bool {
    forall|i: int| 0 <= i < records.len() ==> spec_evaluation(#[trigger] records[i].1) is Some
}

/// The map that the records give, entered one after the other: of two records
/// with one identifier the later one counts.
pub open spec fn collected(records: Seq<(u64, (u32, u16, u32, u64))>) -> Map<u64, Evaluation>
    decreases records.len(),
{
    if records.len() == 0 {
        Map::empty()
    } else {
        collected(records.drop_last()).insert(
            records.last().0,
            spec_evaluation(records.last().1)->0,
        )
    }
}

/// Whether the records hold the map entry by entry: each record is an entry,
/// no two records share an identifier, and each entry has its record.
pub open spec fn snapshot_of(
    cache: Map<u64, Evaluation>,
    records: Seq<(u64, (u32, u16, u32, u64))>,
) -> bool {
    &&& forall|i: int|
        0 <= i < records.len() ==> cache.contains_key(#[trigger] records[i].0) && records[i].1
            == spec_fields(cache[records[i].0])
    &&& forall|i: int, j: int|
        0 <= i < j < records.len() ==> #[trigger] records[i].0 != #[trigger] records[j].0
    &&& forall|id: u64|
        cache.contains_key(id) ==> exists|i: int|
            0 <= i < records.len() && #[trigger] records[i].0 == id
}

/// The fields of `eval` as a record holds them.
pub fn fields(eval: &Evaluation) -> (r: (u32, u16, u32, u64))
    ensures
        r == spec_fields(*eval),
{
    let index: u32 = match eval.kind {
        EvalKind::TooFar => 0,
        EvalKind::Loss => 1,
        EvalKind::Draw => 2,
        EvalKind::Win => 3,
    };
    (index, eval.depth, eval.time, eval.nodes)
}

/// The evaluation that the fields of a record stand for, if its kind exists.
pub fn evaluation(fields: (u32, u16, u32, u64)) -> (r: Option<Evaluation>)
    ensures
        r == spec_evaluation(fields),
{
    let kind = match fields.0 {
        0 => EvalKind::TooFar,
        1 => EvalKind::Loss,
        2 => EvalKind::Draw,
        3 => EvalKind::Win,
        _ => {
            return None;
        },
    };
    Some(Evaluation { kind, depth: fields.1, time: fields.2, nodes: fields.3 })
}

/// The bytes of the records.
pub fn encode(records: &Vec<(u64, (u32, u16, u32, u64))>) -> (r: Result<Vec<u8>, StoreError>)
    ensures
        match r {
            Ok(bytes) => bincode_serialized(records@) == Some(bytes@),
            Err(e) => bincode_serialized(records@) is None && e == StoreError::Unwritable,
        },
{
    match serialize(records) {
        Ok(bytes) => Ok(bytes),
        Err(_) => Err(StoreError::Unwritable),
    }
}

/// The records that the bytes hold.
pub fn decode(bytes: &[u8]) -> (r: Result<Vec<(u64, (u32, u16, u32, u64))>, StoreError>)
    ensures
        match r {
            Ok(records) => bincode_deserialized(bytes@) == Some(records@),
            Err(e) => bincode_deserialized(bytes@) is None && e == StoreError::Unreadable,
        },
{
    match deserialize(bytes) {
        Ok(records) => Ok(records),
        Err(_) => Err(StoreError::Unreadable),
    }
}

/// The fields of an evaluation stand for that evaluation.
pub proof fn lemma_fields_round_trip(eval: Evaluation)
    ensures
        spec_evaluation(spec_fields(eval)) == Some(eval),
{
}

/// What the records give, identifier by identifier, where no two records
/// share one.
proof fn lemma_collected(records: Seq<(u64, (u32, u16, u32, u64))>)
    requires
        forall|i: int, j: int|
            0 <= i < j < records.len() ==> #[trigger] records[i].0 != #[trigger] records[j].0,
    ensures
        forall|i: int|
            0 <= i < records.len() ==> collected(records).contains_key(#[trigger] records[i].0)
                && collected(records)[records[i].0] == spec_evaluation(records[i].1)->0,
        forall|id: u64|
            collected(records).contains_key(id) ==> exists|i: int|
                0 <= i < records.len() && #[trigger] records[i].0 == id,
    decreases records.len(),
{
    if records.len() > 0 {
        let front = records.drop_last();
        lemma_collected(front);
        assert forall|i: int| 0 <= i < records.len() implies collected(records).contains_key(
            #[trigger] records[i].0,
        ) && collected(records)[records[i].0] == spec_evaluation(records[i].1)->0 by {
            if i < records.len() - 1 {
                assert(front[i] == records[i]);
                assert(records[i].0 != records[records.len() - 1].0);
            }
        }
        assert forall|id: u64| collected(records).contains_key(id) implies exists|i: int|
            0 <= i < records.len() && #[trigger] records[i].0 == id by {
            if id == records.last().0 {
                assert(records[records.len() - 1].0 == id);
            } else {
                assert(collected(records) == collected(front).insert(
                    records.last().0,
                    spec_evaluation(records.last().1)->0,
                ));
                assert(collected(front).contains_key(id));
                let i = choose|i: int| 0 <= i < front.len() && #[trigger] front[i].0 == id;
                assert(front[i] == records[i]);
                assert(records[i].0 == id);
            }
        }
    }
}

/// Records that hold a map entry by entry give that map back.
pub proof fn lemma_snapshot_restores(
    cache: Map<u64, Evaluation>,
    records: Seq<(u64, (u32, u16, u32, u64))>,
)
    requires
        snapshot_of(cache, records),
    ensures
        readable(records),
        collected(records) == cache,
{
    lemma_collected(records);
    assert forall|i: int| 0 <= i < records.len() implies spec_evaluation(
        #[trigger] records[i].1,
    ) is Some by {
        lemma_fields_round_trip(cache[records[i].0]);
    }
    assert forall|id: u64| cache.contains_key(id) implies collected(records).contains_key(id)
        && collected(records)[id] == cache[id] by {
        let i = choose|i: int| 0 <= i < records.len() && #[trigger] records[i].0 == id;
        lemma_fields_round_trip(cache[records[i].0]);
    }
    assert forall|id: u64| collected(records).contains_key(id) implies cache.contains_key(id) by {
        let i = choose|i: int| 0 <= i < records.len() && #[trigger] records[i].0 == id;
    }
    assert(collected(records) =~= cache);
}

} // verus!
