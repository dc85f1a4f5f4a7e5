//! Which roots still need a complete pass.
use crate::pnpm::{has_text, texts};
use crate::store::Journal;
use crate::tables::{filter_map, filter_unique, push_unique, retain};
use crate::text::same_text;
use vstd::prelude::*;

verus! {

/// A list of ids with one more, unless it is there already.
pub open spec fn marked(list: Seq<Seq<char>>, id: Seq<char>) -> Seq<Seq<char>> {
    if list.contains(id) {
        list
    } else {
        list.push(id)
    }
}

/// The ids other than this one.
pub open spec fn other_id(id: Seq<char>) -> spec_fn(Seq<char>) -> bool {
    |t: Seq<char>| t != id
}

impl Journal {
    /// Whether a root still needs a complete pass.
    pub open spec fn needs_pass(self, root: Seq<char>) -> bool {
        texts(self.incomplete@).contains(root)
    }

    pub(crate) fn lacks_coverage(&self, root: &str) -> (r: bool)
        ensures
            r == self.needs_pass(root@),
    {
        has_text(&self.incomplete, root)
    }

    /// Notes that a root needs a complete pass.
    pub(crate) fn mark_incomplete(&mut self, root: &str)
        requires
            old(self).wf(),
        ensures
            final(self).wf(),
            texts(final(self).incomplete@) == marked(texts(old(self).incomplete@), root@),
            *final(self) == (Journal { incomplete: final(self).incomplete, ..*old(self) }),
    {
        let ghost before = self.incomplete@;
        if !has_text(&self.incomplete, root) {
            let id: String = root.to_owned();
            let ghost added = id;
            self.incomplete.push(id);
            proof {
                assert forall|i: int| 0 <= i < before.len() implies (#[trigger] before[i])@
                    != added@ by {
                    assert(texts(before)[i] == before[i]@);
                    assert(texts(before).contains(before[i]@));
                }
                push_unique(before, added, |id: String| id@);
                assert(texts(self.incomplete@) =~= texts(before).push(root@));
            }
        }
    }

    /// Notes that a root is complete.
    pub(crate) fn mark_complete(&mut self, root: &str)
        requires
            old(self).wf(),
        ensures
            final(self).wf(),
            texts(final(self).incomplete@) == texts(old(self).incomplete@).filter(other_id(root@)),
            *final(self) == (Journal { incomplete: final(self).incomplete, ..*old(self) }),
    {
        let ghost before = self.incomplete@;
        let ghost keep = |id: String| id@ != root@;
        let stays = |id: &String| -> (b: bool)
            ensures
                b == (id@ != root@),
        {
            !same_text(id.as_str(), root)
        };
        retain(&mut self.incomplete, stays, Ghost(keep));
        proof {
            filter_unique(before, keep, |id: String| id@);
            filter_map(before, |s: String| s@, keep, other_id(root@));
        }
    }
}

} // verus!
