//! Records of the relational store and the rules by which they are written:
//! the merge of a code unit into the row already stored under its name, and
//! the canonical order of a similar pair.
use vstd::prelude::*;
use std::collections::HashMap;
use crate::text::{lex_lt, lex_less, lemma_lex_total, lemma_lex_irreflexive, str_eq};

verus! {

/// Review status of a similar pair.
#[derive(Debug, Clone, Copy, PartialEq, Eq, Structural)]
pub enum PairStatus {
    New,
    Confirmed,
    Redundant,
    Ignored,
}

/// The stored name of each status.
pub open spec fn status_name(s: PairStatus) -> Seq<char> {
    match s {
        PairStatus::New => "new"@,
        PairStatus::Confirmed => "confirmed"@,
        PairStatus::Redundant => "redundant"@,
        PairStatus::Ignored => "ignored"@,
    }
}

impl PairStatus {
    /// The stored name: `new`, `confirmed`, `redundant` or `ignored`.
    pub fn as_str(&self) -> (r: &'static str)
        ensures
            r@ == status_name(*self),
    {
        match self {
            PairStatus::New => "new",
            PairStatus::Confirmed => "confirmed",
            PairStatus::Redundant => "redundant",
            PairStatus::Ignored => "ignored",
        }
    }

    /// The status stored under the name `s`, if any.
    pub fn from_str(s: &str) -> (r: Option<PairStatus>)
        ensures
            r matches Some(st) ==> status_name(st) == s@,
            r is None ==> forall|st: PairStatus| status_name(st) != s@,
    {
        if str_eq(s, "new") {
            Some(PairStatus::New)
        } else if str_eq(s, "confirmed") {
            Some(PairStatus::Confirmed)
        } else if str_eq(s, "redundant") {
            Some(PairStatus::Redundant)
        } else if str_eq(s, "ignored") {
            Some(PairStatus::Ignored)
        } else {
            proof {
                assert forall|st: PairStatus| status_name(st) != s@ by {
                    match st {
                        PairStatus::New => {},
                        PairStatus::Confirmed => {},
                        PairStatus::Redundant => {},
                        PairStatus::Ignored => {},
                    }
                }
            }
            None
        }
    }
}

/// Distinct statuses have distinct names.
pub proof fn lemma_status_names_distinct(a: PairStatus, b: PairStatus)
    requires
        a != b,
    ensures
        status_name(a) != status_name(b),
{
    reveal_strlit("new");
    reveal_strlit("confirmed");
    reveal_strlit("redundant");
    reveal_strlit("ignored");
    assert("new"@.len() == 3);
    assert("ignored"@.len() == 7);
    assert("confirmed"@[0] != "redundant"@[0]);
}

/// Reading back the stored name of a status gives that status.
pub proof fn lemma_status_round_trip(s: PairStatus, r: Option<PairStatus>)
    requires
        r matches Some(st) ==> status_name(st) == status_name(s),
        r is None ==> forall|st: PairStatus| status_name(st) != status_name(s),
    ensures
        r == Some(s),
{
    match r {
        Some(st) => {
            if st != s {
                lemma_status_names_distinct(st, s);
            }
        },
        None => {
            assert(status_name(s) == status_name(s));
        },
    }
}

/// A project row.
#[derive(Debug, Clone)]
pub struct ProjectRecord {
    pub id: i64,
    pub name: String,
    pub root_path: String,
    pub language: String,
    pub last_indexed_at: Option<String>,
}

/// A code-unit row.
#[derive(Debug, Clone)]
pub struct CodeUnitRecord {
    pub qualified_name: String,
    pub project_id: i64,
    pub file_path: String,
    pub kind: String,
    pub range_start: u32,
    pub range_end: u32,
    pub content_hash: String,
    pub structure_hash: String,
    /// Little-endian `f32` words, if the unit has been embedded.
    pub embedding: Option<Vec<u8>>,
    pub group_id: Option<i64>,
}

/// A similarity-group row.
#[derive(Debug, Clone)]
pub struct SimilarityGroupRecord {
    pub id: i64,
    pub project_id: i64,
    pub name: String,
    pub reason: Option<String>,
    pub pattern: Option<String>,
}

/// Counts for one project.
#[derive(Debug)]
pub struct ProjectStats {
    pub total_units: i64,
    pub pairs_by_status: HashMap<String, i64>,
    pub total_groups: i64,
}

/// The first of two options that holds a value.
pub open spec fn first_some(a: Option<i64>, b: Option<i64>) -> Option<i64> {
    if a is Some {
        a
    } else {
        b
    }
}

/// The group a unit is written with: the group already stored for it, else
/// the group it arrives with, else the group of another unit of the same
/// structure hash.
pub open spec fn merged_group(
    stored: Option<Option<i64>>,
    inherited: Option<i64>,
    incoming: Option<i64>,
) -> Option<i64> {
    let candidate = first_some(incoming, inherited);
    match stored {
        None => candidate,
        Some(g) => first_some(g, candidate),
    }
}

/// The row written when `incoming` is upserted over `stored` (the row under
/// the same qualified name, if any), `inherited` being the group of another
/// unit with the same structure hash.
pub open spec fn merged_row(
    stored: Option<CodeUnitRecord>,
    inherited: Option<i64>,
    incoming: CodeUnitRecord,
    r: CodeUnitRecord,
) -> bool {
    &&& r.qualified_name@ == incoming.qualified_name@
    &&& r.file_path@ == incoming.file_path@
    &&& r.kind@ == incoming.kind@
    &&& r.range_start == incoming.range_start
    &&& r.range_end == incoming.range_end
    &&& r.content_hash@ == incoming.content_hash@
    &&& r.structure_hash@ == incoming.structure_hash@
    &&& r.group_id == merged_group(
        match stored {
            None => None,
            Some(s) => Some(s.group_id),
        },
        inherited,
        incoming.group_id,
    )
    &&& match stored {
        None => {
            &&& r.project_id == incoming.project_id
            &&& r.embedding == incoming.embedding
        },
        Some(s) => {
            &&& r.project_id == s.project_id
            &&& r.embedding == (if incoming.embedding is Some {
                incoming.embedding
            } else {
                s.embedding
            })
        },
    }
}

fn first_some_exec(a: Option<i64>, b: Option<i64>) -> (r: Option<i64>)
    ensures
        r == first_some(a, b),
{
    if a.is_some() {
        a
    } else {
        b
    }
}

/// The row to write when `incoming` is upserted: a new unit takes its own
/// fields; an existing one keeps its project and, when `incoming` carries no
/// embedding, its stored embedding. The group is the stored one if set, else
/// the incoming one, else `inherited` (the group of another unit with the
/// same structure hash).
pub fn merge_code_unit(
    stored: Option<CodeUnitRecord>,
    inherited: Option<i64>,
    incoming: CodeUnitRecord,
) -> (r: CodeUnitRecord)
    ensures
        merged_row(stored, inherited, incoming, r),
{
    let candidate = first_some_exec(incoming.group_id, inherited);
    match stored {
        None => {
            let mut r = incoming;
            r.group_id = candidate;
            r
        },
        Some(s) => {
            let group_id = first_some_exec(s.group_id, candidate);
            let embedding = if incoming.embedding.is_some() {
                incoming.embedding
            } else {
                s.embedding
            };
            CodeUnitRecord {
                qualified_name: incoming.qualified_name,
                project_id: s.project_id,
                file_path: incoming.file_path,
                kind: incoming.kind,
                range_start: incoming.range_start,
                range_end: incoming.range_end,
                content_hash: incoming.content_hash,
                structure_hash: incoming.structure_hash,
                embedding,
                group_id,
            }
        },
    }
}

/// Group inheritance: a unit upserted without a group, under a name that
/// holds no group yet, acquires the group `g` of another unit with the same
/// structure hash.
pub proof fn lemma_group_inherited(
    stored: Option<CodeUnitRecord>,
    g: i64,
    incoming: CodeUnitRecord,
    r: CodeUnitRecord,
)
    requires
        incoming.group_id is None,
        stored matches Some(s) ==> s.group_id is None,
        merged_row(stored, Some(g), incoming, r),
    ensures
        r.group_id == Some(g),
{
}

/// A unit that arrives with its own group keeps it (when its name holds no
/// group yet), whatever group other units of its structure hash have.
pub proof fn lemma_own_group_kept(
    stored: Option<CodeUnitRecord>,
    inherited: Option<i64>,
    incoming: CodeUnitRecord,
    r: CodeUnitRecord,
)
    requires
        incoming.group_id is Some,
        stored matches Some(s) ==> s.group_id is None,
        merged_row(stored, inherited, incoming, r),
    ensures
        r.group_id == incoming.group_id,
{
}

/// A stored group is never replaced by an upsert.
pub proof fn lemma_group_kept(
    s: CodeUnitRecord,
    inherited: Option<i64>,
    incoming: CodeUnitRecord,
    r: CodeUnitRecord,
)
    requires
        s.group_id is Some,
        merged_row(Some(s), inherited, incoming, r),
    ensures
        r.group_id == s.group_id,
{
}

/// The canonical key of the pair `{a, b}`: the lexicographically smaller
/// name first.
pub open spec fn pair_key(a: Seq<char>, b: Seq<char>) -> (Seq<char>, Seq<char>) {
    if lex_lt(a, b) {
        (a, b)
    } else {
        (b, a)
    }
}

/// The names `a` and `b` in canonical order, smaller first.
pub fn canonical_pair(a: &str, b: &str) -> (r: (String, String))
    ensures
        (r.0@, r.1@) == pair_key(a@, b@),
{
    if lex_less(a, b) {
        (a.to_owned(), b.to_owned())
    } else {
        (b.to_owned(), a.to_owned())
    }
}

/// Pair canonicalization: for two different names, both orders give the
/// same key, and its first name comes before the second.
pub proof fn lemma_pair_key_symmetric(a: Seq<char>, b: Seq<char>)
    requires
        a != b,
    ensures
        pair_key(a, b) == pair_key(b, a),
        lex_lt(pair_key(a, b).0, pair_key(a, b).1),
        (pair_key(a, b).0 == a && pair_key(a, b).1 == b) || (pair_key(a, b).0 == b
            && pair_key(a, b).1 == a),
{
    lemma_lex_total(a, b);
}

/// A name paired with itself keeps its order.
pub proof fn lemma_pair_key_same(a: Seq<char>)
    ensures
        pair_key(a, a) == (a, a),
{
    lemma_lex_irreflexive(a);
}

/// Where the embedding of a unit comes from.
#[derive(Debug, Clone)]
pub enum EmbeddingPlan {
    /// The blob already stored for a unit with the same content hash.
    Reuse(Vec<u8>),
    /// A request to the embedding service.
    Request,
}

/// A unit must be sent to the embedding service: nothing well-formed (a
/// blob whose length is a multiple of four) is cached for its content.
pub open spec fn requests_embedding(cached: Option<Vec<u8>>) -> bool {
    !(cached matches Some(b) && b@.len() % 4 == 0)
}

/// The plan for a unit whose content hash has `cached` stored: reuse a
/// well-formed cached blob, else request one.
pub fn embedding_plan(cached: Option<Vec<u8>>) -> (r: EmbeddingPlan)
    ensures
        requests_embedding(cached) ==> r == EmbeddingPlan::Request,
        !requests_embedding(cached) ==> r == EmbeddingPlan::Reuse(cached->0),
{
    match cached {
        Some(b) => {
            if b.len() % 4 == 0 {
                EmbeddingPlan::Reuse(b)
            } else {
                EmbeddingPlan::Request
            }
        },
        None => EmbeddingPlan::Request,
    }
}

/// Content-hash cache reuse: once the blob of an embedding is stored for a
/// content hash, a later unit with the same content is not sent to the
/// embedding service.
pub proof fn lemma_cached_not_requested(words: Seq<u32>, stored: Vec<u8>)
    requires
        stored@ == crate::blob::encode_words(words),
    ensures
        !requests_embedding(Some(stored)),
{
    assert(stored@.len() % 4 == 0) by (nonlinear_arith)
        requires
            stored@.len() == 4 * words.len(),
    ;
}

/// Within one indexing run, unit `i` is sent to the embedding service when
/// nothing is cached for its content hash at the start of the run and no
/// earlier unit of the run has the same hash.
pub open spec fn needs_request(hashes: Seq<String>, cached: Seq<bool>, i: int) -> bool {
    !cached[i] && forall|j: int| 0 <= j < i ==> hashes[j]@ != hashes[i]@
}

/// Which units of a run are sent to the embedding service (see
/// `needs_request`); `cached[i]` tells whether an embedding was stored for
/// the content hash of unit `i` before the run.
pub fn plan_requests(hashes: &Vec<String>, cached: &Vec<bool>) -> (r: Vec<bool>)
    requires
        hashes.len() == cached.len(),
    ensures
        r@.len() == hashes.len(),
        forall|i: int| 0 <= i < r@.len() ==> #[trigger] r@[i] == needs_request(hashes@, cached@, i),
{
    let mut r: Vec<bool> = Vec::new();
    let mut i: usize = 0;
    while i < hashes.len()
        invariant
            i <= hashes.len() == cached.len(),
            r@.len() == i,
            forall|k: int| 0 <= k < i ==> #[trigger] r@[k] == needs_request(hashes@, cached@, k),
        decreases hashes.len() - i,
    {
        let mut fresh = !cached[i];
        let mut j: usize = 0;
        while fresh && j < i
            invariant
                j <= i < hashes.len() == cached.len(),
                fresh ==> !cached@[i as int],
                fresh ==> forall|q: int| 0 <= q < j ==> hashes@[q]@ != hashes@[i as int]@,
                !fresh ==> !needs_request(hashes@, cached@, i as int),
            decreases i - j,
        {
            if crate::text::str_eq(hashes[j].as_str(), hashes[i].as_str()) {
                fresh = false;
            }
            j = j + 1;
        }
        r.push(fresh);
        i = i + 1;
    }
    r
}

/// One request per distinct content: two units of a run that are both sent
/// to the service have different content hashes.
pub proof fn lemma_requests_distinct(hashes: Seq<String>, cached: Seq<bool>, i: int, j: int)
    requires
        0 <= i < j < hashes.len(),
        needs_request(hashes, cached, i),
        needs_request(hashes, cached, j),
    ensures
        hashes[i]@ != hashes[j]@,
{
}

/// Every content that has nothing cached is sent once: for an uncached unit
/// some unit at or before it with the same content hash is sent, provided
/// the cache answer depends on the hash alone.
pub proof fn lemma_uncached_requested(hashes: Seq<String>, cached: Seq<bool>, i: int)
    requires
        hashes.len() == cached.len(),
        0 <= i < hashes.len(),
        !cached[i],
        forall|a: int, b: int|
            0 <= a < hashes.len() && 0 <= b < hashes.len() && hashes[a]@ == hashes[b]@ ==> cached[a]
                == cached[b],
    ensures
        exists|k: int| 0 <= k <= i && hashes[k]@ == hashes[i]@ && needs_request(hashes, cached, k),
    decreases i,
{
    if !needs_request(hashes, cached, i) {
        let j = choose|j: int| 0 <= j < i && hashes[j]@ == hashes[i]@;
        lemma_uncached_requested(hashes, cached, j);
        let k = choose|k: int| 0 <= k <= j && hashes[k]@ == hashes[j]@ && needs_request(hashes, cached, k);
        assert(0 <= k <= i && hashes[k]@ == hashes[i]@ && needs_request(hashes, cached, k));
    } else {
        assert(hashes[i]@ == hashes[i]@ && needs_request(hashes, cached, i));
    }
}

/// A content whose embedding is cached (as after a previous run stored it)
/// is never sent to the service.
pub proof fn lemma_cached_never_requested(hashes: Seq<String>, cached: Seq<bool>, i: int)
    requires
        0 <= i < hashes.len(),
        cached[i],
    ensures
        !needs_request(hashes, cached, i),
{
}

} // verus!
