//! Candidate selection: filtering the subtitle files of one directory by
//! keyword, ordering them, and picking one according to the strategy chosen
//! for the run.

use vstd::multiset::Multiset;
use vstd::prelude::*;

use crate::text::{
    has_substring, is_srt_file_name, is_srt_name, lex_le, lemma_lex_le_refl, lemma_lex_le_total,
    lemma_lex_le_trans, lower_of, lowercase, str_has_substring, str_lex_le,
};
use crate::{FsEntry, SyncError};

verus! {

/// How the one subtitle of a pairing is chosen.
#[derive(Clone, Copy, Debug, PartialEq, Eq, Structural)]
pub enum SelectionStrategy {
    Alphabetical,
    Size,
    Manual,
}

/// The order in which candidates are held and shown.
#[derive(Clone, Copy, Debug, PartialEq, Eq, Structural)]
pub enum SortStrategy {
    Alphabetical,
    Size,
}

impl SelectionStrategy {
    /// The label under which the strategy is offered to the user.
    pub fn label(&self) -> (r: &'static str)
        ensures
            *self == SelectionStrategy::Alphabetical ==> r@ == "First alphabetical"@,
            *self == SelectionStrategy::Size ==> r@ == "Largest"@,
            *self == SelectionStrategy::Manual ==> r@ == "Manually select"@,
    {
        match self {
            SelectionStrategy::Alphabetical => "First alphabetical",
            SelectionStrategy::Size => "Largest",
            SelectionStrategy::Manual => "Manually select",
        }
    }
}

/// The display order of a run: chosen by the user under the manual strategy,
/// implied by the strategy otherwise.
pub fn sort_for(strategy: SelectionStrategy, manual_sort: SortStrategy) -> (r: SortStrategy)
    ensures
        strategy == SelectionStrategy::Alphabetical ==> r == SortStrategy::Alphabetical,
        strategy == SelectionStrategy::Size ==> r == SortStrategy::Size,
        strategy == SelectionStrategy::Manual ==> r == manual_sort,
{
    match strategy {
        SelectionStrategy::Alphabetical => SortStrategy::Alphabetical,
        SelectionStrategy::Size => SortStrategy::Size,
        SelectionStrategy::Manual => manual_sort,
    }
}

/// The keyword as a sequence of characters, when one is set.
pub open spec fn kw_view(kw: Option<String>) -> Option<Seq<char>> {
    match kw {
        Some(s) => Some(s@),
        None => None,
    }
}

/// A directory child is retained as a subtitle candidate: it is a regular
/// file, carries the subtitle extension, and — when a keyword is set — its
/// lowercased name contains the keyword.
pub open spec fn retained(e: FsEntry, kw: Option<Seq<char>>) -> bool {
    &&& e.is_file
    &&& is_srt_name(e.name@)
    &&& (kw matches Some(k) ==> has_substring(lower_of(e.name@), k))
}

/// Keeps exactly the retained candidates, in their original order.
pub fn filter_entries(entries: &Vec<FsEntry>, kw: &Option<String>) -> (r: Vec<FsEntry>)
    ensures
        r@ == entries@.filter(|e: FsEntry| retained(e, kw_view(*kw))),
{
    let ghost pred = |e: FsEntry| retained(e, kw_view(*kw));
    let mut r: Vec<FsEntry> = Vec::new();
    let mut i: usize = 0;
    proof {
        reveal(Seq::filter);
        assert(entries@.subrange(0, 0) =~= Seq::<FsEntry>::empty());
    }
    while i < entries.len()
        invariant
            i <= entries@.len(),
            r@ == entries@.subrange(0, i as int).filter(pred),
            pred == (|e: FsEntry| retained(e, kw_view(*kw))),
        decreases entries@.len() - i,
    {
        let e = &entries[i];
        let mut keep = e.is_file && is_srt_file_name(e.name.as_str());
        if keep {
            match kw {
                Some(k) => {
                    let low = lowercase(e.name.as_str());
                    keep = str_has_substring(low.as_str(), k.as_str());
                },
                None => {},
            }
        }
        assert(keep == pred(entries@[i as int]));
        if keep {
            r.push(e.duplicate());
        }
        proof {
            reveal(Seq::filter);
            let pre = entries@.subrange(0, i as int);
            let ext = entries@.subrange(0, i + 1 as int);
            assert(ext =~= pre.push(entries@[i as int]));
            assert(ext.drop_last() =~= pre);
            assert(ext.filter(pred) == if pred(entries@[i as int]) {
                pre.filter(pred).push(entries@[i as int])
            } else {
                pre.filter(pred)
            });
        }
        i = i + 1;
    }
    proof {
        assert(entries@.subrange(0, entries@.len() as int) =~= entries@);
    }
    r
}

/// The order of two entries under a sort strategy: by name, or by size.
pub open spec fn entry_le(s: SortStrategy, a: FsEntry, b: FsEntry) -> bool {
    match s {
        SortStrategy::Alphabetical => lex_le(a.name@, b.name@),
        SortStrategy::Size => a.size <= b.size,
    }
}

/// A sequence is ordered under a sort strategy.
pub open spec fn sorted_under(s: SortStrategy, v: Seq<FsEntry>) -> bool {
    forall|i: int, j: int| 0 <= i < j < v.len() ==> entry_le(s, v[i], v[j])
}

/// `entry_le` is total.
pub proof fn lemma_entry_le_total(s: SortStrategy, a: FsEntry, b: FsEntry)
    ensures
        entry_le(s, a, b) || entry_le(s, b, a),
{
    if s == SortStrategy::Alphabetical {
        lemma_lex_le_total(a.name@, b.name@);
    }
}

/// `entry_le` is transitive.
pub proof fn lemma_entry_le_trans(s: SortStrategy, a: FsEntry, b: FsEntry, c: FsEntry)
    requires
        entry_le(s, a, b),
        entry_le(s, b, c),
    ensures
        entry_le(s, a, c),
{
    if s == SortStrategy::Alphabetical {
        lemma_lex_le_trans(a.name@, b.name@, c.name@);
    }
}

/// Decides `entry_le` on two entries.
fn entry_le_exec(s: SortStrategy, a: &FsEntry, b: &FsEntry) -> (r: bool)
    ensures
        r == entry_le(s, *a, *b),
{
    match s {
        SortStrategy::Alphabetical => str_lex_le(a.name.as_str(), b.name.as_str()),
        SortStrategy::Size => a.size <= b.size,
    }
}

/// The position before the first element greater than `e` in an ordered
/// vector: everything before it is `<= e`, everything from it on is not.
fn lower_pos(out: &Vec<FsEntry>, e: &FsEntry, s: SortStrategy) -> (i: usize)
    requires
        sorted_under(s, out@),
    ensures
        i <= out@.len(),
        forall|k: int| 0 <= k < i ==> entry_le(s, out@[k], *e),
        i < out@.len() ==> !entry_le(s, out@[i as int], *e),
{
    let mut i: usize = 0;
    while i < out.len()
        invariant
            i <= out@.len(),
            forall|k: int| 0 <= k < i ==> entry_le(s, out@[k], *e),
        decreases out@.len() - i,
    {
        if !entry_le_exec(s, &out[i], e) {
            return i;
        }
        i = i + 1;
    }
    i
}

/// Inserts an entry into an ordered vector, keeping it ordered.
fn insert_sorted(out: &mut Vec<FsEntry>, e: FsEntry, s: SortStrategy)
    requires
        sorted_under(s, old(out)@),
    ensures
        final(out)@.to_multiset() == old(out)@.to_multiset().insert(e),
        sorted_under(s, final(out)@),
{
    broadcast use vstd::seq_lib::group_to_multiset_ensures;

    let i = lower_pos(out, &e, s);
    let ghost pre = out@;
    proof {
        let t = pre.insert(i as int, e);
        assert(forall|k: int| 0 <= k < i ==> t[k] == pre[k]);
        assert(t[i as int] == e);
        assert(forall|k: int| i < k < t.len() ==> t[k] == pre[k - 1]);
        assert forall|p: int, q: int| 0 <= p < q < t.len() implies entry_le(s, t[p], t[q]) by {
            if q < i {
            } else if q == i {
                assert(entry_le(s, pre[p], e));
            } else if p == i {
                // e against a later old element: e <= pre[i] <= pre[q-1]
                lemma_entry_le_total(s, pre[i as int], e);
                if i < q - 1 {
                    lemma_entry_le_trans(s, e, pre[i as int], pre[q - 1]);
                }
            } else if p < i {
                if p < q - 1 {
                } else {
                    assert(p == q - 1 && p < i && q > i);  // impossible
                }
            } else {
            }
        }
    }
    out.insert(i, e);
}

/// Orders the entries under the given sort strategy.  The result holds the
/// same entries, as a multiset, as the input.
pub fn sort_entries(entries: Vec<FsEntry>, s: SortStrategy) -> (r: Vec<FsEntry>)
    ensures
        r@.to_multiset() == entries@.to_multiset(),
        sorted_under(s, r@),
        r@.len() == entries@.len(),
{
    broadcast use vstd::seq_lib::group_to_multiset_ensures;
    broadcast use vstd::multiset::group_multiset_axioms;

    let ghost orig = entries@;
    let mut rest = entries;
    let mut out: Vec<FsEntry> = Vec::new();
    proof {
        assert(out@.to_multiset().add(rest@.to_multiset()) =~= orig.to_multiset());
    }
    while rest.len() > 0
        invariant
            out@.to_multiset().add(rest@.to_multiset()) == orig.to_multiset(),
            sorted_under(s, out@),
        decreases rest@.len(),
    {
        let ghost rest_pre = rest@;
        let ghost out_pre = out@;
        let e = rest.remove(0);
        proof {
            assert(rest_pre[0] == e);
            assert(rest_pre.contains(e));
            assert(rest@ == rest_pre.remove(0));
            vstd::seq_lib::to_multiset_remove::<FsEntry>(rest_pre, 0);
            vstd::seq_lib::to_multiset_contains::<FsEntry>(rest_pre, e);
            assert(rest_pre.to_multiset().count(e) > 0);
        }
        insert_sorted(&mut out, e, s);
        proof {
            assert(out@.to_multiset() == out_pre.to_multiset().insert(e));
            assert(rest@.to_multiset() == rest_pre.to_multiset().remove(e));
            assert(out@.to_multiset().add(rest@.to_multiset()) =~= orig.to_multiset());
        }
    }
    proof {
        assert(rest@.to_multiset() =~= Multiset::<FsEntry>::empty());
        assert(out@.to_multiset() =~= orig.to_multiset());
        assert(out@.len() == out@.to_multiset().len());
        assert(orig.len() == orig.to_multiset().len());
    }
    out
}

/// Filters the children of one subtitle directory by the keyword and orders
/// what remains under the sort strategy.  Fails with `NoCandidates` when
/// nothing is retained; that failure concerns this pairing alone.
pub fn prepare_candidates(entries: &Vec<FsEntry>, kw: &Option<String>, s: SortStrategy) -> (r:
    Result<Vec<FsEntry>, SyncError>)
    ensures
        (r is Err) <==> entries@.filter(|e: FsEntry| retained(e, kw_view(*kw))).len() == 0,
        r matches Err(err) ==> err == SyncError::NoCandidates,
        r matches Ok(v) ==> {
            &&& v@.to_multiset() == entries@.filter(
                |e: FsEntry| retained(e, kw_view(*kw)),
            ).to_multiset()
            &&& v@.len() == entries@.filter(|e: FsEntry| retained(e, kw_view(*kw))).len()
            &&& v@.len() > 0
            &&& sorted_under(s, v@)
            &&& forall|i: int| 0 <= i < v@.len() ==> retained(#[trigger] v@[i], kw_view(*kw))
        },
{
    broadcast use vstd::seq_lib::group_to_multiset_ensures;
    broadcast use vstd::seq_lib::group_filter_ensures;

    let kept = filter_entries(entries, kw);
    if kept.len() == 0 {
        return Err(SyncError::NoCandidates);
    }
    let ghost kept_seq = kept@;
    let v = sort_entries(kept, s);
    proof {
        let pred = |e: FsEntry| retained(e, kw_view(*kw));
        assert forall|i: int| 0 <= i < v@.len() implies retained(#[trigger] v@[i], kw_view(*kw)) by {
            assert(v@.contains(v@[i]));
            assert(v@.to_multiset().count(v@[i]) > 0);
            assert(kept_seq.to_multiset().count(v@[i]) > 0);
            assert(kept_seq.contains(v@[i]));
            let j = choose|j: int| 0 <= j < kept_seq.len() && kept_seq[j] == v@[i];
            assert(pred(kept_seq[j]));
        }
    }
    Ok(v)
}

/// Picks the index of the chosen candidate from an ordered, non-empty
/// candidate list: the first under the alphabetical strategy, the last (the
/// largest) under the size strategy, and the user's own choice under the
/// manual strategy.
pub fn pick_index(v: &Vec<FsEntry>, strategy: SelectionStrategy, s: SortStrategy,
    manual_choice: usize) -> (i: usize)
    requires
        v@.len() > 0,
        sorted_under(s, v@),
        strategy == SelectionStrategy::Alphabetical ==> s == SortStrategy::Alphabetical,
        strategy == SelectionStrategy::Size ==> s == SortStrategy::Size,
        strategy == SelectionStrategy::Manual ==> manual_choice < v@.len(),
    ensures
        i < v@.len(),
        strategy == SelectionStrategy::Alphabetical ==> i == 0 && forall|j: int|
            0 <= j < v@.len() ==> lex_le(v@[i as int].name@, #[trigger] v@[j].name@),
        strategy == SelectionStrategy::Size ==> i == v@.len() - 1 && forall|j: int|
            0 <= j < v@.len() ==> #[trigger] v@[j].size <= v@[i as int].size,
        strategy == SelectionStrategy::Manual ==> i == manual_choice,
{
    match strategy {
        SelectionStrategy::Alphabetical => {
            proof {
                lemma_lex_le_refl(v@[0].name@);
                assert forall|j: int| 0 <= j < v@.len() implies lex_le(
                    v@[0].name@,
                    #[trigger] v@[j].name@,
                ) by {
                    if j > 0 {
                        assert(entry_le(s, v@[0], v@[j]));
                    }
                }
            }
            0
        },
        SelectionStrategy::Size => {
            proof {
                let last = v@.len() - 1;
                assert forall|j: int| 0 <= j < v@.len() implies #[trigger] v@[j].size
                    <= v@[last].size by {
                    if j < last {
                        assert(entry_le(s, v@[j], v@[last]));
                    }
                }
            }
            v.len() - 1
        },
        SelectionStrategy::Manual => manual_choice,
    }
}

/// Two sequences that hold the same entries as a multiset have the same
/// members.  What `prepare_candidates` hands back therefore accounts for
/// every retained candidate, and the bounds `pick_index` gives for the
/// alphabetical and size strategies hold against every retained candidate.
pub proof fn lemma_same_multiset_members(a: Seq<FsEntry>, b: Seq<FsEntry>)
    requires
        a.to_multiset() == b.to_multiset(),
    ensures
        forall|i: int| 0 <= i < a.len() ==> #[trigger] b.contains(a[i]),
{
    broadcast use vstd::seq_lib::group_to_multiset_ensures;

    assert forall|i: int| 0 <= i < a.len() implies #[trigger] b.contains(a[i]) by {
        assert(a.contains(a[i]));
        assert(a.to_multiset().count(a[i]) > 0);
    }
}

/// Under the alphabetical strategy the pick is the head of the prepared
/// list, and its name is lexicographically least among every candidate
/// retained from the directory's children.
pub proof fn lemma_alphabetical_pick_least(
    entries: Seq<FsEntry>,
    kw: Option<Seq<char>>,
    f: Seq<FsEntry>,
    v: Seq<FsEntry>,
)
    requires
        f == entries.filter(|e: FsEntry| retained(e, kw)),
        v.to_multiset() == f.to_multiset(),
        sorted_under(SortStrategy::Alphabetical, v),
        v.len() > 0,
    ensures
        forall|i: int| 0 <= i < f.len() ==> lex_le(v[0].name@, (#[trigger] f[i]).name@),
{
    lemma_same_multiset_members(f, v);
    assert forall|i: int| 0 <= i < f.len() implies lex_le(v[0].name@, (#[trigger] f[i]).name@) by {
        assert(v.contains(f[i]));
        let j = choose|j: int| 0 <= j < v.len() && v[j] == f[i];
        if j == 0 {
            lemma_lex_le_refl(v[0].name@);
        } else {
            assert(entry_le(SortStrategy::Alphabetical, v[0], v[j]));
        }
    }
}

/// Under the size strategy the pick is the tail of the prepared list, and
/// its size is at least the size of every candidate retained from the
/// directory's children; among candidates of equal greatest size it is the
/// last in the prepared order.
pub proof fn lemma_size_pick_greatest(
    entries: Seq<FsEntry>,
    kw: Option<Seq<char>>,
    f: Seq<FsEntry>,
    v: Seq<FsEntry>,
)
    requires
        f == entries.filter(|e: FsEntry| retained(e, kw)),
        v.to_multiset() == f.to_multiset(),
        sorted_under(SortStrategy::Size, v),
        v.len() > 0,
    ensures
        forall|i: int| 0 <= i < f.len() ==> (#[trigger] f[i]).size <= v[v.len() - 1].size,
{
    lemma_same_multiset_members(f, v);
    assert forall|i: int| 0 <= i < f.len() implies (#[trigger] f[i]).size <= v[v.len() - 1].size by {
        assert(v.contains(f[i]));
        let j = choose|j: int| 0 <= j < v.len() && v[j] == f[i];
        if j < v.len() - 1 {
            assert(entry_le(SortStrategy::Size, v[j], v[v.len() - 1]));
        }
    }
}

/// What `humansize::format_size` returns, under its decimal options, for a
/// given size in bytes.
pub uninterp spec fn human_size_of(size: u64) -> Seq<char>;

/// Relies on `humansize::format_size` with the `DECIMAL` options: the result
/// depends on the size alone.
#[verifier::external_body]
fn human_size(size: u64) -> (r: String)
    ensures
        r@ == human_size_of(size),
{
    humansize::format_size(size, humansize::DECIMAL)
}

/// The label under which a candidate is offered for manual selection: its
/// name followed by its human-readable size in parentheses.
pub open spec fn label_of(name: Seq<char>, size: u64) -> Seq<char> {
    name + " ("@ + human_size_of(size) + ")"@
}

/// Builds the label of one candidate.
fn entry_label(name: &String, size: u64) -> (r: String)
    ensures
        r@ == label_of(name@, size),
{
    let mut r = name.clone();
    r.append(" (");
    let h = human_size(size);
    r.append(h.as_str());
    r.append(")");
    r
}

/// The labels under which an ordered candidate list is shown for manual
/// selection, in the same order as the list itself.
pub fn manual_labels(v: &Vec<FsEntry>) -> (r: Vec<String>)
    ensures
        r@.len() == v@.len(),
        forall|i: int| 0 <= i < v@.len() ==> (#[trigger] r@[i])@ == label_of(
            v@[i].name@,
            v@[i].size,
        ),
{
    let mut r: Vec<String> = Vec::new();
    let mut i: usize = 0;
    while i < v.len()
        invariant
            i <= v@.len(),
            r@.len() == i,
            forall|k: int| 0 <= k < i ==> (#[trigger] r@[k])@ == label_of(v@[k].name@, v@[k].size),
        decreases v@.len() - i,
    {
        let lab = entry_label(&v[i].name, v[i].size);
        r.push(lab);
        i = i + 1;
    }
    r
}

} // verus!
