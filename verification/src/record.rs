//! The metadata record of one ingested image.
//!
//! A record is created with an empty derivatives mapping right after the
//! original upload; the mapping grows monotonically as derivative results
//! are merged in. The mapping is held as a list of entries with pairwise
//! distinct sizes and is specified through its map view: size to URL,
//! where a merge adds or overwrites exactly the supplied sizes.

use vstd::prelude::*;
use crate::keys::Dim;

verus! {

/// One derivative known to a record: the target size and the URL of the
/// stored variant.
#[derive(Clone, Debug)]
pub struct DerivativeEntry {
    pub dim: Dim,
    pub url: String,
}

/// The map view of a list of derivative entries; a later entry for the
/// same size overwrites an earlier one.
pub open spec fn entries_map(s: Seq<DerivativeEntry>) -> Map<Dim, Seq<char>>
    decreases s.len(),
{
    if s.len() == 0 {
        Map::empty()
    } else {
        entries_map(s.drop_last()).insert(s.last().dim, s.last().url@)
    }
}

/// The durable description of one ingested image: identifier, URL of the
/// stored original, creation time, and the derivatives produced so far.
#[derive(Debug)]
pub struct ImageRecord {
    pub id: String,
    pub original_url: String,
    pub created_at: i64,
    pub derivatives: Vec<DerivativeEntry>,
}

impl ImageRecord {
    /// Well-formed: no two derivative entries share a size.
    pub open spec fn wf(self) -> bool {
        forall|j: int, k: int|
            0 <= j < k < self.derivatives@.len() ==> self.derivatives@[j].dim
                != self.derivatives@[k].dim
    }

    /// The record's derivatives as a map from size to URL.
    pub open spec fn derivatives_map(self) -> Map<Dim, Seq<char>> {
        entries_map(self.derivatives@)
    }

    /// A fresh record: no derivatives yet.
    pub fn new(id: String, original_url: String, created_at: i64) -> (r: ImageRecord)
        ensures
            r.id == id,
            r.original_url == original_url,
            r.created_at == created_at,
            r.derivatives@.len() == 0,
            r.derivatives_map() =~= Map::<Dim, Seq<char>>::empty(),
            r.wf(),
    {
        ImageRecord { id, original_url, created_at, derivatives: Vec::new() }
    }

    /// Clone the record, field for field.
    pub fn duplicate(&self) -> (r: ImageRecord)
        ensures
            r.id == self.id,
            r.original_url == self.original_url,
            r.created_at == self.created_at,
            r.derivatives@ == self.derivatives@,
    {
        let mut entries: Vec<DerivativeEntry> = Vec::new();
        let mut i: usize = 0;
        while i < self.derivatives.len()
            invariant
                i <= self.derivatives@.len(),
                entries@ =~= self.derivatives@.subrange(0, i as int),
            decreases self.derivatives@.len() - i,
        {
            let e = &self.derivatives[i];
            entries.push(DerivativeEntry { dim: e.dim, url: e.url.clone() });
            proof {
                assert(entries@ =~= self.derivatives@.subrange(0, i + 1));
            }
            i += 1;
        }
        proof {
            assert(entries@ =~= self.derivatives@);
        }
        let r = ImageRecord {
            id: self.id.clone(),
            original_url: self.original_url.clone(),
            created_at: self.created_at,
            derivatives: entries,
        };
        r
    }

    /// Add one derivative, overwriting an earlier entry of the same size.
    pub fn upsert_derivative(&mut self, d: Dim, url: String)
        requires
            old(self).wf(),
        ensures
            final(self).wf(),
            final(self).id == old(self).id,
            final(self).original_url == old(self).original_url,
            final(self).created_at == old(self).created_at,
            final(self).derivatives_map() == old(self).derivatives_map().insert(d, url@),
    {
        let n = self.derivatives.len();
        let mut i: usize = 0;
        while i < n
            invariant
                i <= n,
                n == self.derivatives@.len(),
                *self == *old(self),
                old(self).wf(),
                forall|j: int| 0 <= j < i ==> self.derivatives@[j].dim != d,
            decreases n - i,
        {
            if self.derivatives[i].dim == d {
                let ghost ge = (DerivativeEntry { dim: d, url });
                self.derivatives[i] = DerivativeEntry { dim: d, url };
                proof {
                    let s = old(self).derivatives@;
                    assert forall|j: int| 0 <= j < s.len() && j != i as int implies s[j].dim
                        != d by {
                        if j > i as int {
                            assert(s[i as int].dim != s[j].dim);
                        }
                    }
                    lemma_entries_map_update(s, i as int, ge);
                    assert forall|j: int, k: int|
                        0 <= j < k < self.derivatives@.len() implies self.derivatives@[j].dim
                        != self.derivatives@[k].dim by {
                        assert(s[j].dim != s[k].dim);
                    }
                }
                return ;
            }
            i += 1;
        }
        self.derivatives.push(DerivativeEntry { dim: d, url });
        proof {
            assert(self.derivatives@.drop_last() =~= old(self).derivatives@);
            assert(self.derivatives_map() == old(self).derivatives_map().insert(d, url@));
        }
    }

    /// Merge a batch of derivative results into the record: every supplied
    /// size is added or overwritten; no other entry changes.
    pub fn merge_derivatives(&mut self, updates: &Vec<DerivativeEntry>)
        requires
            old(self).wf(),
        ensures
            final(self).wf(),
            final(self).id == old(self).id,
            final(self).original_url == old(self).original_url,
            final(self).created_at == old(self).created_at,
            final(self).derivatives_map() == old(self).derivatives_map().union_prefer_right(
                entries_map(updates@),
            ),
    {
        let mut i: usize = 0;
        while i < updates.len()
            invariant
                i <= updates@.len(),
                self.wf(),
                self.id == old(self).id,
                self.original_url == old(self).original_url,
                self.created_at == old(self).created_at,
                self.derivatives_map() == old(self).derivatives_map().union_prefer_right(
                    entries_map(updates@.subrange(0, i as int)),
                ),
            decreases updates@.len() - i,
        {
            let e = &updates[i];
            self.upsert_derivative(e.dim, e.url.clone());
            proof {
                let pre = updates@.subrange(0, i as int);
                let post = updates@.subrange(0, i + 1);
                assert(post.drop_last() =~= pre);
                assert(post.last() == updates@[i as int]);
                assert(entries_map(post) == entries_map(pre).insert(e.dim, e.url@));
                assert(old(self).derivatives_map().union_prefer_right(entries_map(pre)).insert(
                    e.dim,
                    e.url@,
                ) =~= old(self).derivatives_map().union_prefer_right(entries_map(post)));
            }
            i += 1;
        }
        proof {
            assert(updates@.subrange(0, updates@.len() as int) =~= updates@);
        }
    }
}

/// Updating the entry that holds a size, with no other entry holding it,
/// is an overwrite in the map view.
proof fn lemma_entries_map_update(s: Seq<DerivativeEntry>, i: int, e: DerivativeEntry)
    requires
        0 <= i < s.len(),
        s[i].dim == e.dim,
        forall|j: int| 0 <= j < s.len() && j != i ==> s[j].dim != e.dim,
    ensures
        entries_map(s.update(i, e)) == entries_map(s).insert(e.dim, e.url@),
    decreases s.len(),
{
    let t = s.update(i, e);
    if i == s.len() - 1 {
        assert(t.drop_last() =~= s.drop_last());
        assert(t.last() == e);
        assert(entries_map(s.drop_last()).insert(e.dim, e.url@) =~= entries_map(
            s.drop_last(),
        ).insert(s.last().dim, s.last().url@).insert(e.dim, e.url@));
    } else {
        assert(forall|j: int|
            0 <= j < s.drop_last().len() && j != i ==> s.drop_last()[j].dim != e.dim);
        lemma_entries_map_update(s.drop_last(), i, e);
        assert(t.drop_last() =~= s.drop_last().update(i, e));
        assert(t.last() == s.last());
        assert(s.last().dim != e.dim);
        assert(entries_map(s.drop_last()).insert(e.dim, e.url@).insert(
            s.last().dim,
            s.last().url@,
        ) =~= entries_map(s.drop_last()).insert(s.last().dim, s.last().url@).insert(
            e.dim,
            e.url@,
        ));
    }
}

} // verus!
