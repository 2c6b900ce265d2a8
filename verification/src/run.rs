//! The state of one run: the destination index still to be matched and the
//! count of pairings made, from which the final report is drawn.

use vstd::prelude::*;

use crate::index::DestinationIndex;

verus! {

/// One run over a destination index.  Entries leave the index as they are
/// matched; what remains at the end is the unmatched report.
pub struct Session {
    pub index: DestinationIndex,
    pub total: usize,
    pub matched: usize,
}

impl Session {
    /// Matched pairings and remaining entries always add up to the size the
    /// index had at the start.
    pub open spec fn wf(self) -> bool {
        &&& self.index.wf()
        &&& self.matched + self.index.spec_len() == self.total
    }

    /// Starts a run over a freshly built index.
    pub fn begin(index: DestinationIndex) -> (r: Session)
        requires
            index.wf(),
        ensures
            r.wf(),
            r.index == index,
            r.total == index.spec_len(),
            r.matched == 0,
    {
        let total = index.len();
        Session { index, total, matched: 0 }
    }

    /// Pairs one input subdirectory, by name, with the destination entry of
    /// the same stem.  A hit consumes the entry and hands back the media
    /// path; a miss leaves the run unchanged, and is not an error.
    pub fn match_subdir(&mut self, dir_name: &String) -> (r: Option<String>)
        requires
            old(self).wf(),
        ensures
            final(self).wf(),
            (r is Some) <==> old(self).index.contains_stem(dir_name@),
            r matches Some(p) ==> old(self).index.spec_lookup(dir_name@) == Some(p@),
            !final(self).index.contains_stem(dir_name@),
            forall|s: Seq<char>|
                s != dir_name@ ==> (final(self).index.contains_stem(s) <==> old(
                    self,
                ).index.contains_stem(s)),
            forall|s: Seq<char>|
                s != dir_name@ ==> final(self).index.spec_lookup(s) == old(
                    self,
                ).index.spec_lookup(s),
            final(self).total == old(self).total,
            final(self).matched == old(self).matched + (if r is Some {
                1int
            } else {
                0int
            }),
    {
        let r = self.index.remove(dir_name);
        if r.is_some() {
            self.matched = self.matched + 1;
        }
        r
    }

    /// Single mode: consumes the whole index, handing back its first entry
    /// as the one destination of the run.
    pub fn take_single(&mut self) -> (r: Option<(String, String)>)
        requires
            old(self).wf(),
        ensures
            final(self).wf(),
            (r is Some) <==> old(self).index.spec_len() > 0,
            r matches Some(sp) ==> old(self).index.contains_stem(sp.0@) && old(
                self,
            ).index.spec_lookup(sp.0@) == Some(sp.1@),
            final(self).index.spec_len() == 0,
            final(self).total == old(self).total,
            final(self).matched == old(self).total,
    {
        let n = self.index.len();
        let r = self.index.take_first();
        self.index.clear();
        self.matched = self.matched + n;
        r
    }
}

} // verus!
