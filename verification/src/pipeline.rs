//! The ingestion orchestrator.
//!
//! One ingestion runs detect, then the original upload, then record
//! creation; the caller-visible response exists at that point. Only then
//! does the derivative stage run: one resize-encode-put task per
//! configured size, no task's failure suppressing another, and one merge
//! of all successes into the record at the end. Every interaction with
//! the stores is appended to an event trace, over which the ordering
//! guarantees are stated and proved.

use vstd::prelude::*;
use vstd::string::*;
use crate::detect::{ContentKind, detect, extension, spec_detect, spec_extension};
use crate::keys::{
    Dim, derivative_key, original_key, spec_derivative_key, spec_object_url, spec_original_key,
};
use crate::record::{DerivativeEntry, ImageRecord};
use crate::store::{MemoryMetadataStore, MemoryObjectStore};
use crate::imaging::{
    fresh_id, load_image, now_timestamp_millis, resize_and_encode, spec_decodes, spec_encodable,
};
use crate::MAX_PAYLOAD_BYTES;

verus! {

/// One observable interaction of an ingestion with its collaborators,
/// in the order it was issued.
#[derive(Clone, Debug)]
pub enum Event {
    /// The original bytes were handed to the object store.
    PutOriginal { key: String },
    /// A record was handed to the metadata store.
    CreateRecord { id: String },
    /// The caller-visible response was issued.
    Respond { id: String },
    /// One derivative was handed to the object store.
    PutDerivative { key: String },
    /// The aggregated successes were handed to the metadata store.
    UpdateDerivatives { id: String, count: usize },
}

pub open spec fn ev_put_original(e: Event, key: Seq<char>) -> bool {
    e matches Event::PutOriginal { key: k } && k@ == key
}

pub open spec fn ev_create_record(e: Event, id: Seq<char>) -> bool {
    e matches Event::CreateRecord { id: i } && i@ == id
}

pub open spec fn ev_respond(e: Event, id: Seq<char>) -> bool {
    e matches Event::Respond { id: i } && i@ == id
}

/// Work of the derivative stage: a derivative put or the final merge.
pub open spec fn ev_derivative_work(e: Event) -> bool {
    e is PutDerivative || e is UpdateDerivatives
}

/// `post` extends `pre`, and everything appended is derivative-stage work.
pub open spec fn derivative_suffix(pre: Seq<Event>, post: Seq<Event>) -> bool {
    &&& post.len() >= pre.len()
    &&& post.subrange(0, pre.len() as int) == pre
    &&& forall|i: int| pre.len() <= i < post.len() ==> ev_derivative_work(#[trigger] post[i])
}

/// Why the ingestion returned no reference.
#[derive(Clone, Copy, PartialEq, Eq, Structural, Debug)]
pub enum IngestError {
    /// The bytes match no known signature; nothing was attempted.
    InvalidInput,
    /// The object store or the metadata store failed during the
    /// synchronous prefix.
    StorageUnavailable,
}

/// The caller-visible response of a successful ingestion.
#[derive(Debug)]
pub struct IngestResponse {
    pub id: String,
    pub original_url: String,
}

/// Why one derivative task produced no stored variant.
#[derive(Clone, Copy, PartialEq, Eq, Structural, Debug)]
pub enum DerivativeFailure {
    /// The encoder declined the resized image.
    EncodeFailed,
    /// The object store failed the put.
    StoreFailed,
}

/// The outcome of one derivative task: the target size, and the stored
/// variant's URL or the reason there is none.
#[derive(Debug)]
pub struct DerivativeResult {
    pub dim: Dim,
    pub outcome: Result<String, DerivativeFailure>,
}

/// The fixed set of sizes every ingested image must attempt to produce.
pub fn default_derivative_spec() -> (v: Vec<Dim>)
    ensures
        v@.len() == 4,
        v@[0] == (Dim { width: 800, height: 600 }),
        v@[1] == (Dim { width: 1024, height: 768 }),
        v@[2] == (Dim { width: 1280, height: 720 }),
        v@[3] == (Dim { width: 1920, height: 1080 }),
        forall|i: int, j: int| 0 <= i < j < v@.len() ==> v@[i] != v@[j],
{
    let mut v: Vec<Dim> = Vec::new();
    v.push(Dim { width: 800, height: 600 });
    v.push(Dim { width: 1024, height: 768 });
    v.push(Dim { width: 1280, height: 720 });
    v.push(Dim { width: 1920, height: 1080 });
    v
}

/// The object-store keys the fan-out puts, in order: one per encodable
/// configured size, none for a size the encoder refuses.
pub open spec fn spec_put_keys(id: Seq<char>, sizes: Seq<Dim>) -> Seq<Seq<char>>
    decreases sizes.len(),
{
    if sizes.len() == 0 {
        Seq::empty()
    } else {
        spec_put_keys(id, sizes.drop_last()) + (if spec_encodable(sizes.last()) {
            seq![spec_derivative_key(id, sizes.last())]
        } else {
            Seq::<Seq<char>>::empty()
        })
    }
}

pub open spec fn ev_put_derivative(e: Event, key: Seq<char>) -> bool {
    e matches Event::PutDerivative { key: k } && k@ == key
}

/// The derivative stage's fan-out: for each configured size, resize the
/// decoded image, re-encode it, and store it under the size's key.
///
/// Every size yields exactly one result -- one task's failure never
/// suppresses another -- except that when the bytes do not decode the
/// stage yields no results and touches nothing. Each outcome is
/// determined: the encoder refuses exactly the out-of-range sizes, the
/// store fails exactly the keys forced to fail, and every other size
/// yields the stored variant's URL. The trace gains exactly one
/// derivative put per encodable size, in configuration order: no size is
/// put twice, none is retried, and a refused size is never put at all.
pub fn generate_derivatives(
    obj: &mut MemoryObjectStore,
    log: &mut Vec<Event>,
    bytes: &Vec<u8>,
    id: &String,
    sizes: &Vec<Dim>,
) -> (results: Vec<DerivativeResult>)
    ensures
        final(obj).base_url == old(obj).base_url,
        final(obj).failing == old(obj).failing,
        derivative_suffix(old(log)@, final(log)@),
        results@.len() == 0 <==> (!spec_decodes(bytes@) || sizes@.len() == 0),
        results@.len() == 0 || results@.len() == sizes@.len(),
        results@.len() == 0 ==> final(obj).objects == old(obj).objects && final(log)@ == old(
            log,
        )@,
        forall|i: int|
            0 <= i < results@.len() ==> (#[trigger] results@[i]).dim == sizes@[i],
        forall|i: int|
            0 <= i < results@.len() ==> (!spec_encodable(sizes@[i]) ==> (
            #[trigger] results@[i]).outcome == Result::<String, DerivativeFailure>::Err(
                DerivativeFailure::EncodeFailed,
            )),
        forall|i: int|
            0 <= i < results@.len() ==> (spec_encodable(sizes@[i]) && old(obj).spec_fails(
                spec_derivative_key(id@, sizes@[i]),
            ) ==> (#[trigger] results@[i]).outcome == Result::<String, DerivativeFailure>::Err(
                DerivativeFailure::StoreFailed,
            )),
        forall|i: int|
            0 <= i < results@.len() ==> (spec_encodable(sizes@[i]) && !old(obj).spec_fails(
                spec_derivative_key(id@, sizes@[i]),
            ) ==> ((#[trigger] results@[i]).outcome matches Ok(u) && u@ == spec_object_url(
                old(obj).base_url@,
                spec_derivative_key(id@, sizes@[i]),
            ) && final(obj).contents().contains_key(spec_derivative_key(id@, sizes@[i])))),
        forall|k: Seq<char>|
            old(obj).contents().contains_key(k) ==> final(obj).contents().contains_key(k),
        forall|k: Seq<char>|
            old(obj).contents().contains_key(k) && !(exists|i: int|
                0 <= i < sizes@.len() && k == spec_derivative_key(id@, #[trigger] sizes@[i]))
                ==> final(obj).contents()[k] == old(obj).contents()[k],
        results@.len() > 0 ==> final(log)@.len() == old(log)@.len() + spec_put_keys(
            id@,
            sizes@,
        ).len(),
        results@.len() > 0 ==> forall|j: int|
            0 <= j < spec_put_keys(id@, sizes@).len() ==> ev_put_derivative(
                #[trigger] final(log)@[old(log)@.len() as int + j],
                spec_put_keys(id@, sizes@)[j],
            ),
{
    proof {
        assert(log@.subrange(0, log@.len() as int) =~= log@);
    }
    let mut results: Vec<DerivativeResult> = Vec::new();
    let img = match load_image(bytes) {
        Some(img) => img,
        None => {
            return results;
        },
    };
    let n = sizes.len();
    let mut i: usize = 0;
    while i < n
        invariant
            n == sizes@.len(),
            i <= n,
            obj.base_url == old(obj).base_url,
            obj.failing == old(obj).failing,
            derivative_suffix(old(log)@, log@),
            i == 0 ==> obj.objects == old(obj).objects,
            results@.len() == i,
            forall|j: int|
                0 <= j < i ==> (#[trigger] results@[j]).dim == sizes@[j],
            forall|j: int|
                0 <= j < i ==> (!spec_encodable(sizes@[j]) ==> (#[trigger] results@[j]).outcome
                    == Result::<String, DerivativeFailure>::Err(DerivativeFailure::EncodeFailed)),
            forall|j: int|
                0 <= j < i ==> (spec_encodable(sizes@[j]) && old(obj).spec_fails(
                    spec_derivative_key(id@, sizes@[j]),
                ) ==> (#[trigger] results@[j]).outcome == Result::<String,
                DerivativeFailure>::Err(DerivativeFailure::StoreFailed)),
            forall|j: int|
                0 <= j < i ==> (spec_encodable(sizes@[j]) && !old(obj).spec_fails(
                    spec_derivative_key(id@, sizes@[j]),
                ) ==> ((#[trigger] results@[j]).outcome matches Ok(u) && u@ == spec_object_url(
                    old(obj).base_url@,
                    spec_derivative_key(id@, sizes@[j]),
                ) && obj.contents().contains_key(spec_derivative_key(id@, sizes@[j])))),
            forall|k: Seq<char>|
                old(obj).contents().contains_key(k) ==> obj.contents().contains_key(k),
            forall|k: Seq<char>|
                old(obj).contents().contains_key(k) && !(exists|j: int|
                    0 <= j < i && k == spec_derivative_key(id@, #[trigger] sizes@[j]))
                    ==> obj.contents()[k] == old(obj).contents()[k],
            forall|k: Seq<char>| old(obj).spec_fails(k) == obj.spec_fails(k),
            log@.len() == old(log)@.len() + spec_put_keys(id@, sizes@.subrange(0, i as int)).len(),
            forall|j: int|
                0 <= j < spec_put_keys(id@, sizes@.subrange(0, i as int)).len()
                    ==> ev_put_derivative(
                    #[trigger] log@[old(log)@.len() as int + j],
                    spec_put_keys(id@, sizes@.subrange(0, i as int))[j],
                ),
        decreases n - i,
    {
        let d = sizes[i];
        let ghost pre = sizes@.subrange(0, i as int);
        let ghost post = sizes@.subrange(0, i + 1);
        proof {
            assert(post.drop_last() =~= pre);
            assert(post.last() == sizes@[i as int]);
        }
        match resize_and_encode(&img, d) {
            None => {
                results.push(DerivativeResult {
                    dim: d,
                    outcome: Err(DerivativeFailure::EncodeFailed),
                });
                proof {
                    assert(spec_put_keys(id@, post) =~= spec_put_keys(id@, pre));
                }
            },
            Some(buffer) => {
                let key = derivative_key(id, d);
                log.push(Event::PutDerivative { key: key.clone() });
                proof {
                    assert(log@.subrange(0, old(log)@.len() as int) =~= old(log)@);
                    assert(spec_put_keys(id@, post) =~= spec_put_keys(id@, pre).push(
                        spec_derivative_key(id@, sizes@[i as int]),
                    ));
                    assert(ev_put_derivative(log@.last(), spec_derivative_key(id@, sizes@[
                        i as int
                    ])));
                }
                match obj.put(&key, &buffer) {
                    Ok(url) => {
                        results.push(DerivativeResult { dim: d, outcome: Ok(url) });
                    },
                    Err(_) => {
                        results.push(DerivativeResult {
                            dim: d,
                            outcome: Err(DerivativeFailure::StoreFailed),
                        });
                    },
                }
            },
        }
        i += 1;
    }
    proof {
        assert(sizes@.subrange(0, n as int) =~= sizes@);
        if results@.len() == 0 {
            assert(log@ =~= old(log)@);
        }
    }
    results
}

/// The (size, URL) pairs of the successful results, in order; failed
/// tasks contribute nothing.
pub open spec fn spec_successes(rs: Seq<DerivativeResult>) -> Seq<(Dim, Seq<char>)>
    decreases rs.len(),
{
    if rs.len() == 0 {
        Seq::empty()
    } else {
        spec_successes(rs.drop_last()) + (if rs.last().outcome is Ok {
            seq![(rs.last().dim, rs.last().outcome->Ok_0@)]
        } else {
            Seq::<(Dim, Seq<char>)>::empty()
        })
    }
}

/// The map view of a pair list; a later pair with the same size
/// overwrites an earlier one.
pub open spec fn pairs_map(s: Seq<(Dim, Seq<char>)>) -> Map<Dim, Seq<char>>
    decreases s.len(),
{
    if s.len() == 0 {
        Map::empty()
    } else {
        pairs_map(s.drop_last()).insert(s.last().0, s.last().1)
    }
}

/// The pair view of a list of derivative entries.
pub open spec fn entries_view(s: Seq<DerivativeEntry>) -> Seq<(Dim, Seq<char>)> {
    Seq::new(s.len(), |i: int| (s[i].dim, s[i].url@))
}

/// A list of entries and its pair view have the same map view.
pub proof fn lemma_entries_map_is_pairs_map(s: Seq<DerivativeEntry>)
    ensures
        crate::record::entries_map(s) == pairs_map(entries_view(s)),
    decreases s.len(),
{
    if s.len() > 0 {
        lemma_entries_map_is_pairs_map(s.drop_last());
        assert(entries_view(s.drop_last()) =~= entries_view(s).drop_last());
        assert(entries_view(s).last() == (s.last().dim, s.last().url@));
    }
}

/// A size is a key of the map view exactly when some pair holds it.
pub proof fn lemma_pairs_map_contains(s: Seq<(Dim, Seq<char>)>, d: Dim)
    ensures
        pairs_map(s).contains_key(d) <==> exists|i: int| 0 <= i < s.len() && (#[trigger] s[i]).0
            == d,
    decreases s.len(),
{
    if s.len() > 0 {
        lemma_pairs_map_contains(s.drop_last(), d);
        if pairs_map(s).contains_key(d) {
            if s.last().0 == d {
                assert(s[s.len() - 1].0 == d);
            } else {
                let i = choose|i: int|
                    0 <= i < s.drop_last().len() && (#[trigger] s.drop_last()[i]).0 == d;
                assert(s[i].0 == d);
            }
        }
        if exists|i: int| 0 <= i < s.len() && (#[trigger] s[i]).0 == d {
            let i = choose|i: int| 0 <= i < s.len() && (#[trigger] s[i]).0 == d;
            if i < s.len() - 1 {
                assert(s.drop_last()[i].0 == d);
            }
        }
    }
}

/// With pairwise distinct sizes, the map view sends each pair's size to
/// that pair's URL.
pub proof fn lemma_pairs_map_value(s: Seq<(Dim, Seq<char>)>, i: int)
    requires
        0 <= i < s.len(),
        forall|j: int, k: int| 0 <= j < k < s.len() ==> s[j].0 != s[k].0,
    ensures
        pairs_map(s).contains_key(s[i].0),
        pairs_map(s)[s[i].0] == s[i].1,
    decreases s.len(),
{
    if i == s.len() - 1 {
    } else {
        assert(forall|j: int, k: int|
            0 <= j < k < s.drop_last().len() ==> s.drop_last()[j].0 != s.drop_last()[k].0);
        lemma_pairs_map_value(s.drop_last(), i);
        assert(s[i].0 != s.last().0);
    }
}

/// With pairwise distinct sizes, the map view has exactly one key per
/// pair.
pub proof fn lemma_pairs_map_len(s: Seq<(Dim, Seq<char>)>)
    requires
        forall|j: int, k: int| 0 <= j < k < s.len() ==> s[j].0 != s[k].0,
    ensures
        pairs_map(s).dom().finite(),
        pairs_map(s).dom().len() == s.len(),
    decreases s.len(),
{
    if s.len() > 0 {
        assert(forall|j: int, k: int|
            0 <= j < k < s.drop_last().len() ==> s.drop_last()[j].0 != s.drop_last()[k].0);
        lemma_pairs_map_len(s.drop_last());
        lemma_pairs_map_contains(s.drop_last(), s.last().0);
        assert(forall|i: int| 0 <= i < s.drop_last().len() ==> s.drop_last()[i] == s[i]);
        assert(!pairs_map(s.drop_last()).contains_key(s.last().0));
    }
}

/// When every task succeeded, the successes keep every result in order.
pub proof fn lemma_successes_all_ok(rs: Seq<DerivativeResult>)
    requires
        forall|i: int| 0 <= i < rs.len() ==> (#[trigger] rs[i]).outcome is Ok,
    ensures
        spec_successes(rs).len() == rs.len(),
        forall|i: int|
            0 <= i < rs.len() ==> spec_successes(rs)[i] == ((#[trigger] rs[i]).dim,
            rs[i].outcome->Ok_0@),
    decreases rs.len(),
{
    if rs.len() > 0 {
        assert(forall|i: int|
            0 <= i < rs.drop_last().len() ==> #[trigger] rs.drop_last()[i] == rs[i]);
        lemma_successes_all_ok(rs.drop_last());
        assert(rs[rs.len() - 1].outcome is Ok);
        let pre = spec_successes(rs.drop_last());
        let tail = seq![(rs.last().dim, rs.last().outcome->Ok_0@)];
        assert(spec_successes(rs) == pre + tail);
        assert forall|i: int|
            0 <= i < rs.len() implies spec_successes(rs)[i] == ((#[trigger] rs[i]).dim,
        rs[i].outcome->Ok_0@) by {
            if i < rs.len() - 1 {
                assert(spec_successes(rs)[i] == pre[i]);
                assert(rs.drop_last()[i] == rs[i]);
            } else {
                assert(spec_successes(rs)[i] == tail[0]);
            }
        }
    }
}

/// When exactly one task failed, the successes keep one result less.
pub proof fn lemma_successes_one_failure(rs: Seq<DerivativeResult>, f: int)
    requires
        0 <= f < rs.len(),
        rs[f].outcome is Err,
        forall|i: int| 0 <= i < rs.len() && i != f ==> (#[trigger] rs[i]).outcome is Ok,
    ensures
        spec_successes(rs).len() == rs.len() - 1,
    decreases rs.len(),
{
    assert(forall|i: int|
        0 <= i < rs.drop_last().len() ==> #[trigger] rs.drop_last()[i] == rs[i]);
    if f == rs.len() - 1 {
        lemma_successes_all_ok(rs.drop_last());
    } else {
        lemma_successes_one_failure(rs.drop_last(), f);
        assert(rs[rs.len() - 1].outcome is Ok);
    }
}

/// Aggregate the fan-out's results: keep each success as a derivative
/// entry, in order; drop the failures.
pub fn collect_successes(results: &Vec<DerivativeResult>) -> (out: Vec<DerivativeEntry>)
    ensures
        entries_view(out@) == spec_successes(results@),
        out@.len() == spec_successes(results@).len(),
        crate::record::entries_map(out@) == pairs_map(spec_successes(results@)),
{
    let mut out: Vec<DerivativeEntry> = Vec::new();
    let mut i: usize = 0;
    while i < results.len()
        invariant
            i <= results@.len(),
            entries_view(out@) == spec_successes(results@.subrange(0, i as int)),
        decreases results@.len() - i,
    {
        let r = &results[i];
        match &r.outcome {
            Ok(u) => {
                out.push(DerivativeEntry { dim: r.dim, url: u.clone() });
            },
            Err(_) => {
            },
        }
        proof {
            let pre = results@.subrange(0, i as int);
            let post = results@.subrange(0, i + 1);
            assert(post.drop_last() =~= pre);
            assert(post.last() == results@[i as int]);
            assert(entries_view(out@) =~= spec_successes(post));
        }
        i += 1;
    }
    proof {
        assert(results@.subrange(0, results@.len() as int) =~= results@);
        lemma_entries_map_is_pairs_map(out@);
    }
    out
}

/// The original's object-store key for a given input: derived from the
/// identifier and the detected kind's extension.
pub open spec fn spec_original_key_of(id: Seq<char>, input: Seq<u8>) -> Seq<char> {
    spec_original_key(id, spec_extension(spec_detect(input)))
}

/// The synchronous prefix of one ingestion: detect, store the original,
/// create the record. Returns the caller-visible response; derivative
/// work has not started when it returns.
///
/// Rejected input has no effect at all; a failed original upload is
/// terminal and creates no record; only when the original is stored and
/// the record created does the caller get the reference.
pub fn ingest(
    obj: &mut MemoryObjectStore,
    meta: &mut MemoryMetadataStore,
    log: &mut Vec<Event>,
    bytes: &Vec<u8>,
    id: &String,
    created_at: i64,
) -> (r: Result<IngestResponse, IngestError>)
    requires
        old(meta).wf(),
        old(meta).create_calls < u64::MAX,
        bytes@.len() <= MAX_PAYLOAD_BYTES,
    ensures
        final(meta).wf(),
        final(meta).fail_create == old(meta).fail_create,
        final(meta).fail_update == old(meta).fail_update,
        final(meta).update_calls == old(meta).update_calls,
        final(obj).base_url == old(obj).base_url,
        final(obj).failing == old(obj).failing,
        r is Ok <==> (spec_detect(bytes@) != ContentKind::Unsupported
            && !old(obj).spec_fails(spec_original_key_of(id@, bytes@))
            && !old(meta).fail_create && !old(meta).spec_has(id@)),
        spec_detect(bytes@) == ContentKind::Unsupported ==> ({
            &&& r == Result::<IngestResponse, IngestError>::Err(IngestError::InvalidInput)
            &&& *final(obj) == *old(obj)
            &&& *final(meta) == *old(meta)
            &&& final(log)@ == old(log)@
        }),
        spec_detect(bytes@) != ContentKind::Unsupported
            && old(obj).spec_fails(spec_original_key_of(id@, bytes@)) ==> ({
            &&& r == Result::<IngestResponse, IngestError>::Err(IngestError::StorageUnavailable)
            &&& *final(meta) == *old(meta)
            &&& final(obj).objects == old(obj).objects
            &&& final(log)@.len() == old(log)@.len() + 1
            &&& final(log)@.subrange(0, old(log)@.len() as int) == old(log)@
            &&& ev_put_original(final(log)@.last(), spec_original_key_of(id@, bytes@))
        }),
        spec_detect(bytes@) != ContentKind::Unsupported
            && !old(obj).spec_fails(spec_original_key_of(id@, bytes@)) ==> ({
            &&& final(obj).contents() == old(obj).contents().insert(
                spec_original_key_of(id@, bytes@),
                bytes@,
            )
            &&& final(meta).create_calls == old(meta).create_calls + 1
        }),
        spec_detect(bytes@) != ContentKind::Unsupported
            && !old(obj).spec_fails(spec_original_key_of(id@, bytes@))
            && (old(meta).fail_create || old(meta).spec_has(id@)) ==> ({
            &&& r == Result::<IngestResponse, IngestError>::Err(IngestError::StorageUnavailable)
            &&& final(meta).records == old(meta).records
            &&& final(log)@.len() == old(log)@.len() + 2
            &&& final(log)@.subrange(0, old(log)@.len() as int) == old(log)@
            &&& ev_put_original(
                final(log)@[old(log)@.len() as int],
                spec_original_key_of(id@, bytes@),
            )
            &&& ev_create_record(final(log)@[old(log)@.len() as int + 1], id@)
        }),
        r matches Ok(resp) ==> ({
            &&& resp.id@ == id@
            &&& resp.original_url@ == spec_object_url(
                old(obj).base_url@,
                spec_original_key_of(id@, bytes@),
            )
            &&& final(meta).records@.len() == old(meta).records@.len() + 1
            &&& final(meta).records@.subrange(0, old(meta).records@.len() as int) == old(
                meta,
            ).records@
            &&& final(meta).records@.last().id@ == id@
            &&& final(meta).records@.last().original_url@ == spec_object_url(
                old(obj).base_url@,
                spec_original_key_of(id@, bytes@),
            )
            &&& final(meta).records@.last().created_at == created_at
            &&& final(meta).records@.last().derivatives@.len() == 0
            &&& final(log)@.len() == old(log)@.len() + 3
            &&& final(log)@.subrange(0, old(log)@.len() as int) == old(log)@
            &&& ev_put_original(
                final(log)@[old(log)@.len() as int],
                spec_original_key_of(id@, bytes@),
            )
            &&& ev_create_record(final(log)@[old(log)@.len() as int + 1], id@)
            &&& ev_respond(final(log)@[old(log)@.len() as int + 2], id@)
        }),
{
    let kind = detect(bytes.as_slice());
    if kind == ContentKind::Unsupported {
        return Err(IngestError::InvalidInput);
    }
    let ext = extension(kind);
    let key = original_key(id, &ext);
    log.push(Event::PutOriginal { key: key.clone() });
    proof {
        assert(log@.subrange(0, old(log)@.len() as int) =~= old(log)@);
    }
    let url = match obj.put(&key, bytes) {
        Ok(u) => u,
        Err(_) => {
            return Err(IngestError::StorageUnavailable);
        },
    };
    log.push(Event::CreateRecord { id: id.clone() });
    proof {
        assert(log@.subrange(0, old(log)@.len() as int) =~= old(log)@);
    }
    let rec = ImageRecord::new(id.clone(), url.clone(), created_at);
    match meta.create(rec) {
        Ok(_) => {},
        Err(_) => {
            return Err(IngestError::StorageUnavailable);
        },
    }
    log.push(Event::Respond { id: id.clone() });
    proof {
        assert(log@.subrange(0, old(log)@.len() as int) =~= old(log)@);
    }
    Ok(IngestResponse { id: id.clone(), original_url: url })
}

/// One full ingestion: the synchronous prefix — detect, store the
/// original, create the record, issue the response — and then, strictly
/// after the response exists, the derivative fan-out and one merge of all
/// successes into the record.
///
/// Failures after the response is issued are terminal only for the
/// affected derivative, or for the merge; they are visible in the
/// returned results and the trace but never in the response. When no
/// derivative succeeded the merge is skipped and the record keeps its
/// empty mapping, a normal terminal state.
#[verifier::rlimit(50)]
pub fn ingest_and_generate(
    obj: &mut MemoryObjectStore,
    meta: &mut MemoryMetadataStore,
    log: &mut Vec<Event>,
    bytes: &Vec<u8>,
    id: &String,
    created_at: i64,
    sizes: &Vec<Dim>,
) -> (out: (Result<IngestResponse, IngestError>, Vec<DerivativeResult>))
    requires
        old(meta).wf(),
        old(meta).create_calls < u64::MAX,
        old(meta).update_calls < u64::MAX,
        bytes@.len() <= MAX_PAYLOAD_BYTES,
    ensures
        final(meta).wf(),
        final(meta).fail_create == old(meta).fail_create,
        final(meta).fail_update == old(meta).fail_update,
        final(obj).base_url == old(obj).base_url,
        final(obj).failing == old(obj).failing,
        out.0 is Ok <==> (spec_detect(bytes@) != ContentKind::Unsupported
            && !old(obj).spec_fails(spec_original_key_of(id@, bytes@))
            && !old(meta).fail_create && !old(meta).spec_has(id@)),
        out.0 is Err ==> out.1@.len() == 0,
        spec_detect(bytes@) == ContentKind::Unsupported ==> ({
            &&& out.0 == Result::<IngestResponse, IngestError>::Err(IngestError::InvalidInput)
            &&& *final(obj) == *old(obj)
            &&& *final(meta) == *old(meta)
            &&& final(log)@ == old(log)@
        }),
        spec_detect(bytes@) != ContentKind::Unsupported
            && old(obj).spec_fails(spec_original_key_of(id@, bytes@)) ==> ({
            &&& out.0 == Result::<IngestResponse, IngestError>::Err(
                IngestError::StorageUnavailable,
            )
            &&& *final(meta) == *old(meta)
            &&& final(obj).objects == old(obj).objects
            &&& final(log)@.len() == old(log)@.len() + 1
            &&& final(log)@.subrange(0, old(log)@.len() as int) == old(log)@
            &&& ev_put_original(final(log)@.last(), spec_original_key_of(id@, bytes@))
        }),
        spec_detect(bytes@) != ContentKind::Unsupported
            && !old(obj).spec_fails(spec_original_key_of(id@, bytes@))
            && (old(meta).fail_create || old(meta).spec_has(id@)) ==> ({
            &&& out.0 == Result::<IngestResponse, IngestError>::Err(
                IngestError::StorageUnavailable,
            )
            &&& final(meta).records == old(meta).records
            &&& final(meta).create_calls == old(meta).create_calls + 1
            &&& final(meta).update_calls == old(meta).update_calls
        }),
        out.0 matches Ok(resp) ==> ({
            &&& resp.id@ == id@
            &&& resp.original_url@ == spec_object_url(
                old(obj).base_url@,
                spec_original_key_of(id@, bytes@),
            )
            &&& final(obj).contents().contains_key(spec_original_key_of(id@, bytes@))
            &&& final(obj).contents()[spec_original_key_of(id@, bytes@)] == bytes@
            &&& (out.1@.len() == 0 <==> (!spec_decodes(bytes@) || sizes@.len() == 0))
            &&& out.1@.len() == 0 || out.1@.len() == sizes@.len()
            &&& forall|i: int| 0 <= i < out.1@.len() ==> (#[trigger] out.1@[i]).dim == sizes@[i]
            &&& forall|i: int|
                0 <= i < out.1@.len() ==> (!spec_encodable(sizes@[i]) ==> (
                #[trigger] out.1@[i]).outcome == Result::<String, DerivativeFailure>::Err(
                    DerivativeFailure::EncodeFailed,
                ))
            &&& forall|i: int|
                0 <= i < out.1@.len() ==> (spec_encodable(sizes@[i]) && old(obj).spec_fails(
                    spec_derivative_key(id@, sizes@[i]),
                ) ==> (#[trigger] out.1@[i]).outcome == Result::<String,
                DerivativeFailure>::Err(DerivativeFailure::StoreFailed))
            &&& forall|i: int|
                0 <= i < out.1@.len() ==> (spec_encodable(sizes@[i]) && !old(obj).spec_fails(
                    spec_derivative_key(id@, sizes@[i]),
                ) ==> ((#[trigger] out.1@[i]).outcome matches Ok(u) && u@ == spec_object_url(
                    old(obj).base_url@,
                    spec_derivative_key(id@, sizes@[i]),
                ) && final(obj).contents().contains_key(spec_derivative_key(id@, sizes@[i]))))
            &&& final(meta).create_calls == old(meta).create_calls + 1
            &&& (spec_successes(out.1@).len() == 0 ==> final(meta).update_calls == old(meta).update_calls)
            &&& (spec_successes(out.1@).len() > 0 ==> final(meta).update_calls == old(meta).update_calls + 1)
            &&& final(meta).records@.len() == old(meta).records@.len() + 1
            &&& final(meta).records@.subrange(0, old(meta).records@.len() as int) == old(
                meta,
            ).records@
            &&& final(meta).records@.last().id@ == id@
            &&& final(meta).records@.last().original_url@ == spec_object_url(
                old(obj).base_url@,
                spec_original_key_of(id@, bytes@),
            )
            &&& final(meta).records@.last().created_at == created_at
            &&& ((old(meta).fail_update || spec_successes(out.1@).len() == 0)
                ==> final(meta).records@.last().derivatives@.len() == 0)
            &&& ((!old(meta).fail_update && spec_successes(out.1@).len() > 0)
                ==> final(meta).records@.last().derivatives_map() == pairs_map(spec_successes(out.1@)))
            &&& final(log)@.len() >= old(log)@.len() + 3
            &&& (out.1@.len() == 0 ==> final(log)@.len() == old(log)@.len() + 3)
            &&& (out.1@.len() > 0 ==> final(log)@.len() == old(log)@.len() + 3 + spec_put_keys(
                id@,
                sizes@,
            ).len() + (if spec_successes(out.1@).len() > 0 {
                1int
            } else {
                0int
            }))
            &&& (out.1@.len() > 0 ==> forall|j: int|
                0 <= j < spec_put_keys(id@, sizes@).len() ==> ev_put_derivative(
                    #[trigger] final(log)@[old(log)@.len() as int + 3 + j],
                    spec_put_keys(id@, sizes@)[j],
                ))
            &&& final(log)@.subrange(0, old(log)@.len() as int) == old(log)@
            &&& ev_put_original(
                final(log)@[old(log)@.len() as int],
                spec_original_key_of(id@, bytes@),
            )
            &&& ev_create_record(final(log)@[old(log)@.len() as int + 1], id@)
            &&& ev_respond(final(log)@[old(log)@.len() as int + 2], id@)
            &&& forall|j: int|
                old(log)@.len() + 3 <= j < final(log)@.len() ==> ev_derivative_work(
                    #[trigger] final(log)@[j],
                )
            &&& (spec_successes(out.1@).len() > 0 ==> (final(log)@.last() matches
                Event::UpdateDerivatives { id: i, count: c } && i@ == id@ && c
                == spec_successes(out.1@).len()))
        }),
{
    let r = ingest(obj, meta, log, bytes, id, created_at);
    let resp = match r {
        Err(e) => {
            return (Err(e), Vec::new());
        },
        Ok(resp) => resp,
    };
    let ghost n = old(log)@.len() as int;
    let ghost m = old(meta).records@.len() as int;
    let ghost log1 = log@;
    let ghost meta1 = *meta;
    let ghost obj1 = *obj;
    let results = generate_derivatives(obj, log, bytes, id, sizes);
    let ghost log2 = log@;
    proof {
        assert forall|j: int| 0 <= j < n implies log2[j] == old(log)@[j] by {
            assert(log2.subrange(0, log1.len() as int)[j] == log2[j]);
            assert(log1.subrange(0, n)[j] == log1[j]);
        }
        assert forall|j: int| n <= j < n + 3 implies log2[j] == log1[j] by {
            assert(log2.subrange(0, log1.len() as int)[j] == log2[j]);
        }
        // the original's key is no derivative key, so its bytes survive
        // the derivative stage untouched
        assert forall|i: int|
            0 <= i < sizes@.len() implies spec_original_key_of(id@, bytes@)
            != spec_derivative_key(id@, #[trigger] sizes@[i]) by {
            crate::keys::lemma_original_key_ne_derivative_key(
                id@,
                spec_extension(spec_detect(bytes@)),
                sizes@[i],
            );
        }
        assert(obj1.contents().contains_key(spec_original_key_of(id@, bytes@)));
        assert(obj.contents()[spec_original_key_of(id@, bytes@)] == bytes@);
    }
    let successes = collect_successes(&results);
    if successes.len() > 0 {
        log.push(Event::UpdateDerivatives { id: id.clone(), count: successes.len() });
        proof {
            assert forall|j: int| 0 <= j < log2.len() implies log@[j] == log2[j] by {}
            assert(meta.spec_has(id@)) by {
                assert(meta.records@[m].id@ == id@);
            }
        }
        // a failed merge is observed in the trace and the counters but
        // never surfaced: the response already stands
        let _ = meta.update_derivatives(id, &successes);
        proof {
            assert forall|i: int|
                0 <= i < m implies meta1.records@[i].id@ != id@ by {
                assert(meta1.records@.subrange(0, m)[i] == meta1.records@[i]);
                assert(old(meta).records@[i] == meta1.records@[i]);
                if old(meta).records@[i].id@ == id@ {
                    assert(old(meta).spec_has(id@));
                }
            }
            if !old(meta).fail_update {
                assert(meta.records@.last().derivatives_map() == meta1.records@[
                    m
                ].derivatives_map().union_prefer_right(
                    crate::record::entries_map(successes@),
                ));
                assert(meta1.records@[m].derivatives_map() =~= Map::<Dim, Seq<char>>::empty());
                assert(Map::<Dim, Seq<char>>::empty().union_prefer_right(
                    crate::record::entries_map(successes@),
                ) =~= crate::record::entries_map(successes@));
            }
            assert(meta.records@.subrange(0, m) =~= old(meta).records@);
        }
    }
    proof {
        assert(log@.subrange(0, n) =~= old(log)@);
        assert(final(meta).records@.subrange(0, m) =~= old(meta).records@);
    }
    (Ok(resp), results)
}

/// Ingest with a freshly drawn identifier and the current clock reading.
///
/// The identifier is random and the clock is the machine's: nothing can
/// be assumed of either value, so this states only what holds of every
/// outcome.
pub fn ingest_new(
    obj: &mut MemoryObjectStore,
    meta: &mut MemoryMetadataStore,
    log: &mut Vec<Event>,
    bytes: &Vec<u8>,
    sizes: &Vec<Dim>,
) -> (out: (Result<IngestResponse, IngestError>, Vec<DerivativeResult>))
    requires
        old(meta).wf(),
        old(meta).create_calls < u64::MAX,
        old(meta).update_calls < u64::MAX,
        bytes@.len() <= MAX_PAYLOAD_BYTES,
    ensures
        final(meta).wf(),
        spec_detect(bytes@) == ContentKind::Unsupported ==> ({
            &&& out.0 == Result::<IngestResponse, IngestError>::Err(IngestError::InvalidInput)
            &&& *final(obj) == *old(obj)
            &&& *final(meta) == *old(meta)
            &&& final(log)@ == old(log)@
        }),
        out.0 == Result::<IngestResponse, IngestError>::Err(IngestError::InvalidInput)
            <==> spec_detect(bytes@) == ContentKind::Unsupported,
        out.0 is Ok ==> spec_detect(bytes@) != ContentKind::Unsupported,
        out.0 matches Ok(resp) ==> ({
            &&& resp.id@.len() == 36
            &&& final(meta).spec_has(resp.id@)
            &&& resp.original_url@ == spec_object_url(
                old(obj).base_url@,
                spec_original_key_of(resp.id@, bytes@),
            )
        }),
{
    let id = fresh_id();
    let created_at = now_timestamp_millis();
    let out = ingest_and_generate(obj, meta, log, bytes, &id, created_at, sizes);
    proof {
        if out.0 is Ok {
            let m = old(meta).records@.len() as int;
            assert(meta.records@[m].id@ == id@);
        }
    }
    out
}

/// In the trace of one ingestion, the caller-visible response strictly
/// precedes every piece of derivative work: no derivative is stored, and
/// no merge issued, before the response exists.
pub proof fn lemma_response_precedes_derivative_work(tr: Seq<Event>, n: int, id: Seq<char>)
    requires
        0 <= n,
        n + 3 <= tr.len(),
        tr[n] is PutOriginal,
        tr[n + 1] is CreateRecord,
        ev_respond(tr[n + 2], id),
        forall|j: int| n + 3 <= j < tr.len() ==> ev_derivative_work(#[trigger] tr[j]),
    ensures
        forall|j: int| n <= j < tr.len() && ev_derivative_work(#[trigger] tr[j]) ==> j > n + 2,
        ev_respond(tr[n + 2], id),
{
}

/// With no derivative failures, a successful ingestion yields exactly one
/// derivative per configured size: the merged mapping holds one key per
/// size, each bound to the URL of that size's stored variant, all URLs
/// pairwise distinct and distinct from the original's.
pub proof fn lemma_full_success_coverage(
    results: Seq<DerivativeResult>,
    sizes: Seq<Dim>,
    id: Seq<char>,
    ext: Seq<char>,
    base: Seq<char>,
)
    requires
        results.len() == sizes.len(),
        forall|i: int, j: int| 0 <= i < j < sizes.len() ==> sizes[i] != sizes[j],
        forall|i: int| 0 <= i < results.len() ==> (#[trigger] results[i]).dim == sizes[i],
        forall|i: int| 0 <= i < results.len() ==> (#[trigger] results[i]).outcome is Ok,
        forall|i: int|
            0 <= i < results.len() ==> ((#[trigger] results[i]).outcome)->Ok_0@ == spec_object_url(
                base,
                spec_derivative_key(id, sizes[i]),
            ),
    ensures
        spec_successes(results).len() == sizes.len(),
        pairs_map(spec_successes(results)).dom().finite(),
        pairs_map(spec_successes(results)).dom().len() == sizes.len(),
        forall|i: int|
            0 <= i < sizes.len() ==> pairs_map(spec_successes(results)).contains_key(
                #[trigger] sizes[i],
            ) && pairs_map(spec_successes(results))[sizes[i]] == spec_object_url(
                base,
                spec_derivative_key(id, sizes[i]),
            ),
        forall|i: int, j: int|
            0 <= i < j < sizes.len() ==> pairs_map(spec_successes(results))[sizes[i]] != pairs_map(
                spec_successes(results),
            )[sizes[j]],
        forall|i: int|
            0 <= i < sizes.len() ==> pairs_map(spec_successes(results))[#[trigger] sizes[i]]
                != spec_object_url(base, spec_original_key(id, ext)),
{
    lemma_successes_all_ok(results);
    let s = spec_successes(results);
    assert forall|j: int, k: int| 0 <= j < k < s.len() implies s[j].0 != s[k].0 by {
        assert(s[j] == ((results[j]).dim, results[j].outcome->Ok_0@));
        assert(s[k] == ((results[k]).dim, results[k].outcome->Ok_0@));
    }
    lemma_pairs_map_len(s);
    assert forall|i: int|
        0 <= i < sizes.len() implies pairs_map(s).contains_key(#[trigger] sizes[i]) && pairs_map(
        s,
    )[sizes[i]] == spec_object_url(base, spec_derivative_key(id, sizes[i])) by {
        assert(s[i] == ((results[i]).dim, results[i].outcome->Ok_0@));
        lemma_pairs_map_value(s, i);
    }
    assert forall|i: int, j: int|
        0 <= i < j < sizes.len() implies pairs_map(s)[sizes[i]] != pairs_map(s)[sizes[j]] by {
        lemma_pairs_map_value(s, i);
        lemma_pairs_map_value(s, j);
        if pairs_map(s)[sizes[i]] == pairs_map(s)[sizes[j]] {
            crate::keys::lemma_object_url_injective(
                base,
                spec_derivative_key(id, sizes[i]),
                spec_derivative_key(id, sizes[j]),
            );
            crate::keys::lemma_derivative_keys_injective(id, sizes[i], sizes[j]);
        }
    }
    assert forall|i: int|
        0 <= i < sizes.len() implies pairs_map(s)[#[trigger] sizes[i]] != spec_object_url(
        base,
        spec_original_key(id, ext),
    ) by {
        lemma_pairs_map_value(s, i);
        if pairs_map(s)[sizes[i]] == spec_object_url(base, spec_original_key(id, ext)) {
            crate::keys::lemma_object_url_injective(
                base,
                spec_derivative_key(id, sizes[i]),
                spec_original_key(id, ext),
            );
            crate::keys::lemma_original_key_ne_derivative_key(id, ext, sizes[i]);
        }
    }
}

/// Every success comes from some result: a pair of the successes carries
/// the size and URL of one `Ok` result.
proof fn lemma_successes_from_results(rs: Seq<DerivativeResult>, j: int)
    requires
        0 <= j < spec_successes(rs).len(),
    ensures
        exists|i: int|
            0 <= i < rs.len() && (#[trigger] rs[i]).outcome is Ok && spec_successes(rs)[j] == (
            rs[i].dim,
            rs[i].outcome->Ok_0@,
        ),
    decreases rs.len(),
{
    if rs.len() > 0 {
        let pre = spec_successes(rs.drop_last());
        if j < pre.len() {
            lemma_successes_from_results(rs.drop_last(), j);
            let i = choose|i: int|
                0 <= i < rs.drop_last().len() && (#[trigger] rs.drop_last()[i]).outcome is Ok
                    && pre[j] == (rs.drop_last()[i].dim, rs.drop_last()[i].outcome->Ok_0@);
            assert(rs[i] == rs.drop_last()[i]);
            assert(spec_successes(rs)[j] == pre[j]);
        } else {
            assert(rs.last().outcome is Ok);
            assert(rs[rs.len() - 1].outcome is Ok);
            assert(spec_successes(rs)[j] == (rs[rs.len() - 1].dim, rs[rs.len()
                - 1].outcome->Ok_0@));
        }
    }
}

/// The merged mapping's keys are always a subset of the configured
/// sizes: whatever subset of tasks succeeds, no derivative appears under
/// a size that was never configured.
pub proof fn lemma_derivative_keys_subset(results: Seq<DerivativeResult>, sizes: Seq<Dim>)
    requires
        forall|i: int| 0 <= i < results.len() ==> (#[trigger] results[i]).dim == sizes[i],
        results.len() <= sizes.len(),
    ensures
        forall|d: Dim|
            pairs_map(spec_successes(results)).contains_key(d) ==> exists|i: int|
                0 <= i < sizes.len() && sizes[i] == d,
{
    let s = spec_successes(results);
    assert forall|d: Dim|
        pairs_map(s).contains_key(d) implies exists|i: int|
        0 <= i < sizes.len() && sizes[i] == d by {
        lemma_pairs_map_contains(s, d);
        let j = choose|j: int| 0 <= j < s.len() && (#[trigger] s[j]).0 == d;
        lemma_successes_from_results(results, j);
        let i = choose|i: int|
            0 <= i < results.len() && (#[trigger] results[i]).outcome is Ok && s[j] == (
            results[i].dim,
            results[i].outcome->Ok_0@,
        );
        assert(sizes[i] == d);
    }
}

/// When the object store fails exactly one size's key, and the encoder
/// declined nothing, the fan-out reports exactly one failure and the
/// merge receives exactly one entry less than the configured sizes.
pub proof fn lemma_single_store_failure(
    results: Seq<DerivativeResult>,
    sizes: Seq<Dim>,
    id: Seq<char>,
    obj: MemoryObjectStore,
    f: int,
)
    requires
        results.len() == sizes.len(),
        0 <= f < sizes.len(),
        forall|i: int| 0 <= i < results.len() ==> (#[trigger] results[i]).dim == sizes[i],
        forall|i: int|
            0 <= i < sizes.len() ==> (obj.spec_fails(spec_derivative_key(id, #[trigger] sizes[i]))
                <==> i == f),
        forall|i: int|
            0 <= i < results.len() ==> ((#[trigger] results[i]).outcome is Ok ==> !obj.spec_fails(
                spec_derivative_key(id, sizes[i]),
            )),
        forall|i: int|
            0 <= i < results.len() ==> (!obj.spec_fails(spec_derivative_key(id, sizes[i])) && (
            #[trigger] results[i]).outcome is Err ==> results[i].outcome == Result::<
                String,
                DerivativeFailure,
            >::Err(DerivativeFailure::EncodeFailed)),
        forall|i: int|
            0 <= i < results.len() ==> (#[trigger] results[i]).outcome != Result::<
                String,
                DerivativeFailure,
            >::Err(DerivativeFailure::EncodeFailed),
    ensures
        results[f].outcome is Err,
        spec_successes(results).len() == sizes.len() - 1,
{
    assert(results[f].outcome is Err);
    assert forall|i: int|
        0 <= i < results.len() && i != f implies (#[trigger] results[i]).outcome is Ok by {
        assert(!obj.spec_fails(spec_derivative_key(id, sizes[i])));
    }
    lemma_successes_one_failure(results, f);
}

} // verus!
