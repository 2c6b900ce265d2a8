//! The destination index: a mapping from filename stem to media file path,
//! built once from the destination directory and consumed as pairings
//! succeed.  What remains at the end is the unmatched report.

use vstd::prelude::*;

use crate::text::{is_srt_name, stem_of, stem_of_name};
use crate::{FsEntry, SyncError};

verus! {

/// One destination entry: the stem a subtitle directory must match, and the
/// path of the media file it stands for.
pub struct DestEntry {
    pub stem: String,
    pub path: String,
}

/// The path that an association list maps a stem to, later entries winning.
pub open spec fn assoc_lookup(s: Seq<DestEntry>, key: Seq<char>) -> Option<Seq<char>>
    decreases s.len(),
{
    if s.len() == 0 {
        None
    } else if s.last().stem@ == key {
        Some(s.last().path@)
    } else {
        assoc_lookup(s.drop_last(), key)
    }
}

/// A lookup succeeds exactly when some entry carries the key.
pub proof fn lemma_lookup_some(s: Seq<DestEntry>, key: Seq<char>)
    ensures
        (assoc_lookup(s, key) is Some) <==> exists|i: int|
            0 <= i < s.len() && (#[trigger] s[i]).stem@ == key,
    decreases s.len(),
{
    if s.len() > 0 {
        lemma_lookup_some(s.drop_last(), key);
        assert(forall|j: int| 0 <= j < s.len() - 1 ==> s.drop_last()[j] == s[j]);
        if assoc_lookup(s, key) is Some {
            if s.last().stem@ == key {
                assert(s[s.len() - 1].stem@ == key);
            }
        }
    }
}

/// Removing an entry that carries another key leaves a lookup unchanged.
pub proof fn lemma_lookup_remove(s: Seq<DestEntry>, i: int, key: Seq<char>)
    requires
        0 <= i < s.len(),
        s[i].stem@ != key,
    ensures
        assoc_lookup(s.remove(i), key) == assoc_lookup(s, key),
    decreases s.len(),
{
    if i == s.len() - 1 {
        assert(s.remove(i) =~= s.drop_last());
    } else {
        assert(s.remove(i).last() == s.last());
        assert(s.remove(i).len() > 0);
        if s.last().stem@ == key {
        } else {
            assert(s.remove(i).drop_last() =~= s.drop_last().remove(i));
            lemma_lookup_remove(s.drop_last(), i, key);
        }
    }
}

/// When keys are unique, a lookup returns the path stored beside the key.
pub proof fn lemma_lookup_at(s: Seq<DestEntry>, i: int, key: Seq<char>)
    requires
        0 <= i < s.len(),
        s[i].stem@ == key,
        forall|p: int, q: int| 0 <= p < q < s.len() ==> (#[trigger] s[p]).stem@ != (
        #[trigger] s[q]).stem@,
    ensures
        assoc_lookup(s, key) == Some(s[i].path@),
    decreases s.len(),
{
    if i == s.len() - 1 {
    } else {
        assert(s.last().stem@ != key);
        assert(forall|j: int| 0 <= j < s.len() - 1 ==> s.drop_last()[j] == s[j]);
        lemma_lookup_at(s.drop_last(), i, key);
    }
}

/// The destination index.  Entries carry pairwise distinct stems.
pub struct DestinationIndex {
    pub entries: Vec<DestEntry>,
}

impl DestinationIndex {
    /// Stems are pairwise distinct.
    pub open spec fn wf(self) -> bool {
        forall|p: int, q: int| 0 <= p < q < self.entries@.len() ==> (
        #[trigger] self.entries@[p]).stem@ != (#[trigger] self.entries@[q]).stem@
    }

    /// The index has an entry for this stem.
    pub open spec fn contains_stem(self, key: Seq<char>) -> bool {
        exists|i: int| 0 <= i < self.entries@.len() && (#[trigger] self.entries@[i]).stem@ == key
    }

    /// The path the index maps a stem to, when it has the stem.
    pub open spec fn spec_lookup(self, key: Seq<char>) -> Option<Seq<char>> {
        assoc_lookup(self.entries@, key)
    }

    /// How many entries remain.
    pub open spec fn spec_len(self) -> nat {
        self.entries@.len()
    }

    /// The stems that remain, in entry order.
    pub open spec fn spec_stems(self) -> Seq<Seq<char>> {
        self.entries@.map_values(|e: DestEntry| e.stem@)
    }

    /// An empty index.
    pub fn new() -> (r: DestinationIndex)
        ensures
            r.wf(),
            r.spec_len() == 0,
            forall|s: Seq<char>| !r.contains_stem(s),
    {
        DestinationIndex { entries: Vec::new() }
    }

    /// How many entries remain.
    pub fn len(&self) -> (r: usize)
        ensures
            r == self.spec_len(),
    {
        self.entries.len()
    }

    /// Whether any entry remains.
    pub fn is_empty(&self) -> (r: bool)
        ensures
            r == (self.spec_len() == 0),
    {
        self.entries.len() == 0
    }

    /// Whether the index has an entry for this stem.
    pub fn contains_key(&self, key: &String) -> (r: bool)
        ensures
            r == self.contains_stem(key@),
    {
        let mut i: usize = 0;
        while i < self.entries.len()
            invariant
                i <= self.entries@.len(),
                forall|k: int| 0 <= k < i ==> (#[trigger] self.entries@[k]).stem@ != key@,
            decreases self.entries@.len() - i,
        {
            if self.entries[i].stem == *key {
                return true;
            }
            i = i + 1;
        }
        false
    }

    /// Adds an entry for a stem the index does not hold yet.
    fn push_entry(&mut self, stem: String, path: String)
        requires
            old(self).wf(),
            !old(self).contains_stem(stem@),
        ensures
            final(self).wf(),
            final(self).spec_len() == old(self).spec_len() + 1,
            final(self).spec_lookup(stem@) == Some(path@),
            final(self).contains_stem(stem@),
            forall|s: Seq<char>| s != stem@ ==> final(self).spec_lookup(s) == old(
                self,
            ).spec_lookup(s),
            forall|s: Seq<char>| s != stem@ ==> (final(self).contains_stem(s) <==> old(
                self,
            ).contains_stem(s)),
    {
        let ghost pre = self.entries@;
        self.entries.push(DestEntry { stem, path });
        proof {
            assert(self.entries@.drop_last() =~= pre);
            assert(forall|j: int| 0 <= j < pre.len() ==> self.entries@[j] == pre[j]);
        }
    }

    /// Removes the entry for a stem and hands back its path.
    #[verifier::loop_isolation(false)]
    pub fn remove(&mut self, key: &String) -> (r: Option<String>)
        requires
            old(self).wf(),
        ensures
            final(self).wf(),
            (r is Some) <==> old(self).contains_stem(key@),
            r matches Some(p) ==> old(self).spec_lookup(key@) == Some(p@),
            !final(self).contains_stem(key@),
            forall|s: Seq<char>| s != key@ ==> final(self).spec_lookup(s) == old(
                self,
            ).spec_lookup(s),
            forall|s: Seq<char>| s != key@ ==> (final(self).contains_stem(s) <==> old(
                self,
            ).contains_stem(s)),
            final(self).spec_len() == if old(self).contains_stem(key@) {
                old(self).spec_len() - 1
            } else {
                old(self).spec_len() as int
            },
    {
        let ghost pre = self.entries@;
        proof {
            assert forall|p: int, q: int| 0 <= p < q < pre.len() implies (
            #[trigger] pre[p]).stem@ != (#[trigger] pre[q]).stem@ by {
                assert(old(self).entries@[p].stem@ != old(self).entries@[q].stem@);
            }
        }
        let mut i: usize = 0;
        while i < self.entries.len()
            invariant
                self.entries@ == pre,
                forall|p: int, q: int| 0 <= p < q < pre.len() ==> (#[trigger] pre[p]).stem@ != (
                #[trigger] pre[q]).stem@,
                i <= pre.len(),
                forall|k: int| 0 <= k < i ==> (#[trigger] pre[k]).stem@ != key@,
            decreases pre.len() - i,
        {
            if self.entries[i].stem == *key {
                let e = self.entries.remove(i);
                proof {
                    lemma_lookup_at(pre, i as int, key@);
                    assert(forall|j: int| 0 <= j < i ==> self.entries@[j] == pre[j]);
                    assert(forall|j: int|
                        i <= j < self.entries@.len() ==> self.entries@[j] == pre[j + 1]);
                    assert forall|s: Seq<char>| s != key@ implies self.spec_lookup(s)
                        == assoc_lookup(pre, s) by {
                        lemma_lookup_remove(pre, i as int, s);
                    }
                    assert forall|s: Seq<char>| s != key@ implies (self.contains_stem(s)
                        <==> exists|k: int|
                            0 <= k < pre.len() && (#[trigger] pre[k]).stem@ == s) by {
                        lemma_lookup_remove(pre, i as int, s);
                        lemma_lookup_some(pre, s);
                        lemma_lookup_some(self.entries@, s);
                    }
                    assert forall|j: int| 0 <= j < self.entries@.len() implies (
                    #[trigger] self.entries@[j]).stem@ != key@ by {
                        if j < i {
                            assert(self.entries@[j] == pre[j]);
                        } else {
                            assert(self.entries@[j] == pre[j + 1]);
                            assert(pre[i as int].stem@ == key@);
                        }
                    }
                    assert(!self.contains_stem(key@));
                    assert(old(self).entries@ == pre);
                    assert(old(self).entries@[i as int].stem@ == key@);
                    assert(old(self).contains_stem(key@));
                    assert(old(self).spec_lookup(key@) == Some(pre[i as int].path@));
                }
                return Some(e.path);
            }
            i = i + 1;
        }
        proof {
            assert(!old(self).contains_stem(key@));
        }
        None
    }

    /// The stems that remain, for the final report.
    pub fn remaining_stems(&self) -> (r: Vec<String>)
        ensures
            r@.len() == self.spec_len(),
            forall|i: int| 0 <= i < r@.len() ==> (#[trigger] r@[i])@ == self.spec_stems()[i],
    {
        let mut r: Vec<String> = Vec::new();
        let mut i: usize = 0;
        while i < self.entries.len()
            invariant
                i <= self.entries@.len(),
                r@.len() == i,
                forall|k: int| 0 <= k < i ==> (#[trigger] r@[k])@ == self.entries@[k].stem@,
            decreases self.entries@.len() - i,
        {
            r.push(self.entries[i].stem.clone());
            i = i + 1;
        }
        r
    }

    /// Removes and hands back the first entry, stem and path.
    pub fn take_first(&mut self) -> (r: Option<(String, String)>)
        requires
            old(self).wf(),
        ensures
            final(self).wf(),
            (r is Some) <==> old(self).spec_len() > 0,
            r matches Some(sp) ==> old(self).contains_stem(sp.0@) && old(self).spec_lookup(sp.0@)
                == Some(sp.1@),
            final(self).spec_len() == if old(self).spec_len() > 0 {
                old(self).spec_len() - 1
            } else {
                0int
            },
    {
        if self.entries.len() == 0 {
            return None;
        }
        let ghost pre = self.entries@;
        let e = self.entries.remove(0);
        proof {
            lemma_lookup_at(pre, 0, e.stem@);
            assert(forall|j: int| 0 <= j < self.entries@.len() ==> self.entries@[j] == pre[j + 1]);
        }
        Some((e.stem, e.path))
    }

    /// Forgets every remaining entry.
    pub fn clear(&mut self)
        ensures
            final(self).wf(),
            final(self).spec_len() == 0,
            forall|s: Seq<char>| !final(self).contains_stem(s),
    {
        self.entries = Vec::new();
    }
}

/// A destination child becomes an index entry: it is not a directory and does
/// not itself carry the subtitle extension.
pub open spec fn dest_eligible(e: FsEntry) -> bool {
    !e.is_dir && !is_srt_name(e.name@)
}

/// No later eligible child shares this child's stem, so this child's path is
/// the one the index keeps for that stem.
pub open spec fn latest_eligible(children: Seq<FsEntry>, j: int) -> bool {
    &&& 0 <= j < children.len()
    &&& dest_eligible(children[j])
    &&& forall|k: int|
        j < k < children.len() && dest_eligible(#[trigger] children[k]) ==> stem_of(
            children[k].name@,
        ) != stem_of(children[j].name@)
}

/// Builds the destination index from the children of the destination
/// directory: every child that is neither a directory nor a subtitle file
/// contributes its stem, later children winning a stem over earlier ones.
/// Fails with `EmptyDestination`, fatal to the run, when nothing
/// contributes.
pub fn build_index(children: &Vec<FsEntry>) -> (r: Result<DestinationIndex, SyncError>)
    ensures
        r matches Ok(idx) ==> {
            &&& idx.wf()
            &&& idx.spec_len() > 0
            &&& forall|s: Seq<char>|
                idx.contains_stem(s) <==> exists|j: int|
                    0 <= j < children@.len() && dest_eligible(#[trigger] children@[j]) && stem_of(
                        children@[j].name@,
                    ) == s
            &&& forall|j: int|
                latest_eligible(children@, j) ==> idx.spec_lookup(
                    stem_of(#[trigger] children@[j].name@),
                ) == Some(children@[j].path@)
        },
        (r is Err) <==> (forall|j: int|
            0 <= j < children@.len() ==> !dest_eligible(#[trigger] children@[j])),
        r matches Err(e) ==> e == SyncError::EmptyDestination,
{
    let mut idx = DestinationIndex::new();
    let mut i: usize = children.len();
    while i > 0
        invariant
            i <= children@.len(),
            idx.wf(),
            forall|s: Seq<char>|
                idx.contains_stem(s) <==> exists|j: int|
                    i <= j < children@.len() && dest_eligible(#[trigger] children@[j]) && stem_of(
                        children@[j].name@,
                    ) == s,
            forall|j: int|
                i <= j < children@.len() && latest_eligible(children@, j) ==> idx.spec_lookup(
                    stem_of(#[trigger] children@[j].name@),
                ) == Some(children@[j].path@),
        decreases i,
    {
        i = i - 1;
        let c = &children[i];
        let is_dir = c.is_dir;
        let name_is_srt = crate::text::is_srt_file_name(c.name.as_str());
        if !is_dir && !name_is_srt {
            let stem = stem_of_name(c.name.as_str());
            if !idx.contains_key(&stem) {
                idx.push_entry(stem, c.path.clone());
                proof {
                    assert forall|j: int|
                        i <= j < children@.len() && latest_eligible(children@, j) implies
                        idx.spec_lookup(stem_of(#[trigger] children@[j].name@)) == Some(
                        children@[j].path@,
                    ) by {
                        if j != i {
                            assert(stem_of(children@[j].name@) != stem_of(children@[i as int].name@));
                        }
                    }
                }
            } else {
                proof {
                    let s = stem_of(children@[i as int].name@);
                    assert(exists|j: int|
                        i < j < children@.len() && dest_eligible(#[trigger] children@[j])
                            && stem_of(children@[j].name@) == s);
                }
            }
        }
    }
    if idx.is_empty() {
        proof {
            assert forall|j: int| 0 <= j < children@.len() implies !dest_eligible(
                #[trigger] children@[j],
            ) by {
                if dest_eligible(children@[j]) {
                    assert(idx.contains_stem(stem_of(children@[j].name@)));
                }
            }
        }
        Err(SyncError::EmptyDestination)
    } else {
        proof {
            let s = choose|s: Seq<char>| idx.contains_stem(s);
            assert(idx.entries@.len() > 0);
            assert(idx.contains_stem(idx.entries@[0].stem@));
        }
        Ok(idx)
    }
}

/// Builds the index for a destination that is a single file: one entry,
/// keyed by that file's stem.
pub fn build_single_index(name: &String, path: &String) -> (r: DestinationIndex)
    ensures
        r.wf(),
        r.spec_len() == 1,
        r.contains_stem(stem_of(name@)),
        r.spec_lookup(stem_of(name@)) == Some(path@),
        forall|s: Seq<char>| s != stem_of(name@) ==> !r.contains_stem(s),
{
    let mut idx = DestinationIndex::new();
    let stem = stem_of_name(name.as_str());
    idx.push_entry(stem, path.clone());
    idx
}

} // verus!
