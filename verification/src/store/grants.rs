//! Authorized locations, and what granting and revoking them changes.
use crate::model::Root;
use crate::order::{
    arranges, arranges_all, compare_bytes, orders, precedes, precedes_irreflexive, precedes_total,
    precedes_transitive, sorted_range, Order,
};
use crate::paths::{is_same_place, is_under, same_place, scopes_are_plain, path_bytes, scope_outcome, scope_path, under, FsPath};
use crate::pnpm::{has_text, texts};
use crate::store::coverage::marked;
use crate::store::queue::enqueued;
use crate::store::tidy::{
    enqueue_keeps_tidy, forgetting_keeps_tidy, new_location_keeps_tidy, same_roots_authorize,
};
use crate::store::{
    keys, no_row, Admission, Foreground, Index, IndexRow, Journal, Limited, Refresh, SavedScan,
    Scope, ScopeKey, Seen, Store, Tombstone,
};
use crate::tables::{
    filter_holds, filter_push, filter_rows, filter_unique, push_unique, retain, unique,
};
use crate::text::{fail, failed, same_text};
use vstd::prelude::*;

verus! {

/// Whether a list holds the same roots, by path.
pub open spec fn by_path(roots: Seq<Root>, out: Seq<Root>) -> bool {
    &&& out.len() == roots.len()
    &&& forall|i: int, j: int|
        0 <= i < j < out.len() ==> precedes((#[trigger] out[i]).path@, (#[trigger] out[j]).path@)
    &&& forall|i: int| 0 <= i < out.len() ==> roots.contains(#[trigger] out[i])
    &&& forall|i: int| 0 <= i < roots.len() ==> out.contains(#[trigger] roots[i])
}

/// The order of roots by their paths.
pub open spec fn path_before(roots: Seq<Root>) -> spec_fn(int, int) -> bool {
    |a: int, b: int| precedes(roots[a].path@, roots[b].path@)
}

proof fn path_order(roots: Seq<Root>)
    ensures
        orders(path_before(roots), roots.len() as int),
{
    let before = path_before(roots);
    let n = roots.len() as int;
    assert forall|a: int, b: int| 0 <= a < n && 0 <= b < n && #[trigger] before(a, b) implies !before(
        b,
        a,
    ) by {
        if before(b, a) {
            precedes_transitive(roots[a].path@, roots[b].path@, roots[a].path@);
            precedes_irreflexive(roots[a].path@);
        }
    }
    assert forall|a: int, b: int, c: int|
        0 <= a < n && 0 <= b < n && 0 <= c < n && !#[trigger] before(b, a) && !#[trigger] before(
            c,
            b,
        ) implies !before(c, a) by {
        if before(c, a) {
            precedes_total(roots[a].path@, roots[b].path@);
            precedes_total(roots[b].path@, roots[c].path@);
            if roots[a].path@ == roots[b].path@ {
            } else if roots[b].path@ == roots[c].path@ {
            } else {
                precedes_transitive(roots[a].path@, roots[b].path@, roots[c].path@);
                precedes_transitive(roots[a].path@, roots[c].path@, roots[a].path@);
            }
            precedes_irreflexive(roots[a].path@);
        }
    }
}

impl Store {
    /// The authorized locations, by path.
    pub fn roots(&self) -> (r: Vec<Root>)
        requires
            self.wf(),
        ensures
            by_path(self.roots@, r@),
    {
        let all: &Vec<Root> = &self.roots;
        let n: usize = all.len();
        let ghost before = path_before(all@);
        proof {
            path_order(all@);
        }
        let less = |a: usize, b: usize| -> (x: bool)
            requires
                a < all@.len(),
                b < all@.len(),
            ensures
                x == precedes(all@[a as int].path@, all@[b as int].path@),
        {
            match compare_bytes(path_bytes(&all[a].path), path_bytes(&all[b].path)) {
                Order::Less => true,
                _ => false,
            }
        };
        let order: Vec<usize> = sorted_range(0, n, n, &less, Ghost(before));
        let mut out: Vec<Root> = Vec::new();
        let mut i: usize = 0;
        while i < order.len()
            invariant
                i <= order.len(),
                all@ == self.roots@,
                arranges(order@, 0, all@.len() as int),
                out@.len() == i,
                forall|k: int| 0 <= k < i ==> out@[k] == all@[#[trigger] order@[k] as int],
            decreases order.len() - i,
        {
            assert(order@[i as int] < all@.len());
            out.push(all[order[i]].copy());
            i = i + 1;
        }
        proof {
            assert forall|x: int, y: int| 0 <= x < y < out@.len() implies precedes(
                (#[trigger] out@[x]).path@,
                (#[trigger] out@[y]).path@,
            ) by {
                let a = order@[x] as int;
                let b = order@[y] as int;
                assert(order@[x] != order@[y]);
                assert(!before(b, a));
                precedes_total(all@[a].path@, all@[b].path@);
                if a < b {
                    assert(all@[a].path@ != all@[b].path@);
                } else {
                    assert(all@[b].path@ != all@[a].path@);
                }
            }
            assert forall|x: int| 0 <= x < out@.len() implies self.roots@.contains(
                #[trigger] out@[x],
            ) by {
                assert(out@[x] == all@[order@[x] as int]);
            }
            assert forall|x: int| 0 <= x < all@.len() implies out@.contains(
                #[trigger] all@[x],
            ) by {
                arranges_all(order@, 0, all@.len() as int, x as usize);
                let k = choose|k: int| 0 <= k < order@.len() && order@[k] == x as usize;
                assert(out@[k] == all@[order@[k] as int]);
            }
        }
        out
    }

    /// The root with an id.
    pub fn root(&self, id: &str) -> (r: Result<Root, String>)
        requires
            self.wf(),
        ensures
            if self.has_root(id@) {
                r matches Ok(root) && root == self.root_of(id@)
            } else {
                failed(r, no_row())
            },
    {
        match self.find_root(id) {
            Some(at) => {
                proof {
                    self.root_unique(id@, at as int);
                }
                Ok(self.roots[at].copy())
            },
            None => fail("Query returned no rows"),
        }
    }
}

/// What belongs to none of the roots in a list.
pub open spec fn scope_apart(ids: Seq<Seq<char>>) -> spec_fn(Scope) -> bool {
    |s: Scope| !ids.contains(s.root_id@)
}

pub open spec fn refresh_apart(ids: Seq<Seq<char>>) -> spec_fn(Refresh) -> bool {
    |s: Refresh| !ids.contains(s.root_id@)
}

pub open spec fn seen_apart(ids: Seq<Seq<char>>) -> spec_fn(Seen) -> bool {
    |s: Seen| !ids.contains(s.root_id@)
}

pub open spec fn tombstone_apart(ids: Seq<Seq<char>>) -> spec_fn(Tombstone) -> bool {
    |t: Tombstone| !(t.location matches Some(at) && ids.contains(at.root_id@))
}

pub open spec fn row_apart(ids: Seq<Seq<char>>) -> spec_fn(IndexRow) -> bool {
    |s: IndexRow| !ids.contains(s.root_id@)
}

pub open spec fn scan_apart(ids: Seq<Seq<char>>) -> spec_fn(SavedScan) -> bool {
    |s: SavedScan| !ids.contains(s.root_id@)
}

pub open spec fn limited_apart(ids: Seq<Seq<char>>) -> spec_fn(Limited) -> bool {
    |s: Limited| !ids.contains(s.root_id@)
}

pub open spec fn admission_apart(ids: Seq<Seq<char>>) -> spec_fn(Admission) -> bool {
    |s: Admission| !ids.contains(s.root_id@)
}

pub open spec fn root_apart(ids: Seq<Seq<char>>) -> spec_fn(Root) -> bool {
    |s: Root| !ids.contains(s.id@)
}

pub open spec fn id_apart(ids: Seq<Seq<char>>) -> spec_fn(String) -> bool {
    |s: String| !ids.contains(s@)
}

/// The store without the roots in a list and without all that was derived from
/// them. Kept paths, cleanups and rewards are not theirs.
pub open spec fn forgotten(before: Store, after: Store, ids: Seq<Seq<char>>) -> bool {
    &&& after.roots@ == before.roots@.filter(root_apart(ids))
    &&& after.journal.pending@ == before.journal.pending@.filter(scope_apart(ids))
    &&& after.journal.active@ == before.journal.active@.filter(scope_apart(ids))
    &&& after.journal.refreshes@ == before.journal.refreshes@.filter(refresh_apart(ids))
    &&& after.journal.seen@ == before.journal.seen@.filter(seen_apart(ids))
    &&& after.journal.admissions@ == before.journal.admissions@.filter(admission_apart(ids))
    &&& after.journal.incomplete@ == before.journal.incomplete@.filter(id_apart(ids))
    &&& after.index.rows@ == before.index.rows@.filter(row_apart(ids))
    &&& after.index.tombstones@ == before.index.tombstones@.filter(tombstone_apart(ids))
    &&& after.index.limited@ == before.index.limited@.filter(limited_apart(ids))
    &&& after.scans@ == before.scans@.filter(scan_apart(ids))
    &&& after == (Store {
        roots: after.roots,
        journal: Journal { cursor: before.journal.cursor, ..after.journal },
        index: Index {
            row_headroom: before.index.row_headroom,
            byte_headroom: before.index.byte_headroom,
            ..after.index
        },
        scans: after.scans,
        ..before
    })
}

proof fn scopes_stay_unique(scopes: Seq<Scope>, keep: spec_fn(Scope) -> bool)
    requires
        unique(keys(scopes), |k: ScopeKey| k),
    ensures
        unique(keys(scopes.filter(keep)), |k: ScopeKey| k),
{
    assert(unique(scopes, |s: Scope| s.key())) by {
        assert forall|i: int, j: int| 0 <= i < j < scopes.len() implies (
        #[trigger] scopes[i]).key() != (#[trigger] scopes[j]).key() by {
            assert(keys(scopes)[i] != keys(scopes)[j]);
        }
    }
    filter_unique(scopes, keep, |s: Scope| s.key());
    let left = scopes.filter(keep);
    assert forall|i: int, j: int| 0 <= i < j < keys(left).len() implies #[trigger] keys(left)[i]
        != #[trigger] keys(left)[j] by {
        assert(left[i].key() != left[j].key());
    }
}

impl Store {
    /// Forgets roots together with all that was derived from them.
    pub(crate) fn forget(&mut self, ids: &Vec<String>)
        requires
            old(self).wf(),
        ensures
            final(self).wf(),
            forgotten(*old(self), *final(self), texts(ids@)),
    {
        let ghost start = *self;
        let ghost gone = texts(ids@);
        let scope_stays = |s: &Scope| -> (b: bool)
            ensures
                b == !texts(ids@).contains(s.root_id@),
        {
            !has_text(ids, s.root_id.as_str())
        };
        let active_stays = |s: &Scope| -> (b: bool)
            ensures
                b == !texts(ids@).contains(s.root_id@),
        {
            !has_text(ids, s.root_id.as_str())
        };
        let refresh_stays = |s: &Refresh| -> (b: bool)
            ensures
                b == !texts(ids@).contains(s.root_id@),
        {
            !has_text(ids, s.root_id.as_str())
        };
        let seen_stays = |s: &Seen| -> (b: bool)
            ensures
                b == !texts(ids@).contains(s.root_id@),
        {
            !has_text(ids, s.root_id.as_str())
        };
        let admission_stays = |s: &Admission| -> (b: bool)
            ensures
                b == !texts(ids@).contains(s.root_id@),
        {
            !has_text(ids, s.root_id.as_str())
        };
        let id_stays = |s: &String| -> (b: bool)
            ensures
                b == !texts(ids@).contains(s@),
        {
            !has_text(ids, s.as_str())
        };
        let row_stays = |s: &IndexRow| -> (b: bool)
            ensures
                b == !texts(ids@).contains(s.root_id@),
        {
            !has_text(ids, s.root_id.as_str())
        };
        let tombstone_stays = |t: &Tombstone| -> (b: bool)
            ensures
                b == !(t.location matches Some(at) && texts(ids@).contains(at.root_id@)),
        {
            match &t.location {
                Some(at) => !has_text(ids, at.root_id.as_str()),
                None => true,
            }
        };
        let limited_stays = |s: &Limited| -> (b: bool)
            ensures
                b == !texts(ids@).contains(s.root_id@),
        {
            !has_text(ids, s.root_id.as_str())
        };
        let scan_stays = |s: &SavedScan| -> (b: bool)
            ensures
                b == !texts(ids@).contains(s.root_id@),
        {
            !has_text(ids, s.root_id.as_str())
        };
        let root_stays = |s: &Root| -> (b: bool)
            ensures
                b == !texts(ids@).contains(s.id@),
        {
            !has_text(ids, s.id.as_str())
        };
        retain(&mut self.journal.pending, scope_stays, Ghost(scope_apart(gone)));
        retain(&mut self.journal.active, active_stays, Ghost(scope_apart(gone)));
        retain(&mut self.journal.refreshes, refresh_stays, Ghost(refresh_apart(gone)));
        retain(&mut self.journal.seen, seen_stays, Ghost(seen_apart(gone)));
        retain(&mut self.journal.admissions, admission_stays, Ghost(admission_apart(gone)));
        retain(&mut self.journal.incomplete, id_stays, Ghost(id_apart(gone)));
        self.index.keep_rows(row_stays, Ghost(row_apart(gone)));
        retain(&mut self.index.tombstones, tombstone_stays, Ghost(tombstone_apart(gone)));
        retain(&mut self.index.limited, limited_stays, Ghost(limited_apart(gone)));
        retain(&mut self.scans, scan_stays, Ghost(scan_apart(gone)));
        retain(&mut self.roots, root_stays, Ghost(root_apart(gone)));
        proof {
            scopes_stay_unique(start.journal.pending@, scope_apart(gone));
            scopes_stay_unique(start.journal.active@, scope_apart(gone));
            filter_unique(
                start.journal.refreshes@,
                refresh_apart(gone),
                |r: Refresh| r.root_id@,
            );
            filter_unique(
                start.journal.seen@,
                seen_apart(gone),
                |s: Seen| (s.root_id@, s.generation@, s.candidate_id@),
            );
            filter_unique(
                start.journal.admissions@,
                admission_apart(gone),
                |a: Admission| (a.root_id@, a.generation@),
            );
            filter_unique(start.journal.incomplete@, id_apart(gone), |id: String| id@);
            filter_unique(
                start.index.tombstones@,
                tombstone_apart(gone),
                |t: Tombstone| t.id@,
            );
            filter_unique(start.index.limited@, limited_apart(gone), |l: Limited| l.root_id@);
            filter_unique(start.scans@, scan_apart(gone), |s: SavedScan| s.root_id@);
            filter_unique(start.roots@, root_apart(gone), |r: Root| r.id@);
            filter_unique(start.roots@, root_apart(gone), |r: Root| r.path@);
        }
    }

    /// Revoke a location. History, kept paths and rewards stay.
    pub fn remove_root(&mut self, id: &str) -> (r: Result<bool, String>)
        requires
            old(self).wf(),
        ensures
            final(self).wf(),
            old(self).tidy() ==> final(self).tidy(),
            if old(self).has_root(id@) && old(self).foreground.revision == i64::MAX {
                failed(r, "The foreground summary context is missing or exhausted"@)
                    && *final(self) == *old(self)
            } else {
                &&& r == Ok::<bool, String>(old(self).has_root(id@))
                &&& forgotten(
                    *old(self),
                    (Store { foreground: old(self).foreground, ..*final(self) }),
                    seq![id@],
                )
                &&& final(self).foreground == if old(self).has_root(id@) {
                    (Foreground {
                        revision: (old(self).foreground.revision + 1) as i64,
                        summary: None,
                        completed_at: None,
                    })
                } else {
                    old(self).foreground
                }
            },
    {
        let ghost start = *self;
        let known: bool = self.knows_root(id);
        if known && self.foreground.revision >= i64::MAX {
            return fail("The foreground summary context is missing or exhausted");
        }
        let mut ids: Vec<String> = Vec::new();
        ids.push(id.to_owned());
        assert(texts(ids@) =~= seq![id@]);
        self.forget(&ids);
        let ghost mid = *self;
        if known {
            let _ = self.foreground.invalidate();
        }
        assert((Store { foreground: start.foreground, ..*self }) == mid);
        proof {
            if start.tidy() {
                forgetting_keeps_tidy(start, mid, seq![id@]);
                same_roots_authorize(mid, *self);
            }
        }
        Ok(known)
    }
}


/// Whether an authorization narrows the media policy of the same physical
/// grant: a folder becomes the home location.
pub open spec fn narrows(root: Root, existing: Root, replace: bool) -> bool {
    &&& replace
    &&& same_place(root.path@, existing.path@)
    &&& root.id@ == existing.id@
    &&& root.identity.device == existing.identity.device
    &&& root.identity.inode == existing.identity.inode
    &&& existing.kind@ == "folder"@
    &&& root.kind@ == "home"@
}

/// Whether an existing location forbids a new one.
pub open spec fn overlaps(root: Root, existing: Root, replace: bool) -> bool {
    !narrows(root, existing, replace) && (under(root.path@, existing.path@) || (under(
        existing.path@,
        root.path@,
    ) && existing.identity.device == root.identity.device && !replace))
}

/// Whether a new location takes the place of an existing one. Traversal stays
/// on one file system, so a separately authorized mount beneath the new root
/// remains a location of its own.
pub open spec fn replaces(root: Root, replace: bool) -> spec_fn(Root) -> bool {
    |existing: Root|
        narrows(root, existing, replace) || (!under(root.path@, existing.path@) && under(
            existing.path@,
            root.path@,
        ) && existing.identity.device == root.identity.device && replace)
}

/// The ids of roots.
pub open spec fn root_ids(roots: Seq<Root>) -> Seq<Seq<char>> {
    roots.map_values(|r: Root| r.id@)
}

/// Why a location cannot be authorized, if it cannot.
pub open spec fn grant_failure(store: Store, root: Root, replace: bool) -> Option<Seq<char>> {
    if exists|i: int|
        0 <= i < store.roots@.len() && overlaps(root, #[trigger] store.roots@[i], replace) {
        Some("This folder overlaps an already authorized location."@)
    } else if exists|i: int|
        0 <= i < store.roots@.len() && (#[trigger] store.roots@[i]).id@ == root.id@ && !replaces(
            root,
            replace,
        )(store.roots@[i]) {
        Some("UNIQUE constraint failed: roots.id"@)
    } else {
        match scope_outcome(root.path@) {
            Err(reason) if narrowing(store, root, replace) => Some(reason),
            Ok(scope) if narrowing(store, root, replace) && !under(scope, root.path@) => Some(
                "The discovery scope is outside its authorized location"@,
            ),
            _ => if store.foreground.revision == i64::MAX {
                Some("The foreground summary context is missing or exhausted"@)
            } else {
                None
            },
        }
    }
}

/// Whether the authorization narrows one of the existing grants.
pub open spec fn narrowing(store: Store, root: Root, replace: bool) -> bool {
    exists|i: int|
        0 <= i < store.roots@.len() && narrows(root, #[trigger] store.roots@[i], replace)
}

/// What an authorization does: the contained locations go with all that was
/// derived from them, the new one needs a complete pass, and later scans get a
/// new context. A narrowed grant is queued at once.
pub open spec fn granted(
    before: Store,
    after: Store,
    root: Root,
    replace: bool,
    contained: Seq<Seq<char>>,
) -> bool {
    &&& exists|sorted: Seq<Root>| #[trigger]
        by_path(before.roots@, sorted) && contained == root_ids(
            sorted.filter(replaces(root, replace)),
        )
    &&& exists|mid: Store| #[trigger]
        forgotten(before, mid, contained) && {
            &&& after.roots@ == mid.roots@.push(root)
            &&& texts(after.journal.incomplete@) == marked(texts(mid.journal.incomplete@), root.id@)
            &&& keys(after.journal.pending@) == if narrowing(before, root, replace) {
                enqueued(
                    keys(mid.journal.pending@),
                    root.id@,
                    root.path@,
                    scope_outcome(root.path@)->Ok_0,
                )
            } else {
                keys(mid.journal.pending@)
            }
            &&& after.foreground == (Foreground {
                revision: (before.foreground.revision + 1) as i64,
                summary: None,
                completed_at: None,
            })
            &&& after == (Store {
                roots: after.roots,
                journal: Journal {
                    incomplete: after.journal.incomplete,
                    pending: after.journal.pending,
                    ..mid.journal
                },
                foreground: after.foreground,
                ..mid
            })
        }
}

fn is_narrowing(root: &Root, existing: &Root, replace: bool) -> (r: bool)
    ensures
        r == narrows(*root, *existing, replace),
{
    replace && is_same_place(path_bytes(&root.path), path_bytes(&existing.path)) && same_text(
        root.id.as_str(),
        existing.id.as_str(),
    ) && root.identity.device == existing.identity.device && root.identity.inode
        == existing.identity.inode && same_text(existing.kind.as_str(), "folder") && same_text(
        root.kind.as_str(),
        "home",
    )
}

proof fn sorted_member(roots: Seq<Root>, sorted: Seq<Root>, i: int)
    requires
        by_path(roots, sorted),
        0 <= i < roots.len(),
    ensures
        exists|j: int| 0 <= j < sorted.len() && #[trigger] sorted[j] == roots[i],
{
    assert(sorted.contains(roots[i]));
}

impl Store {
    /// Authorize a location that overlaps no other.
    pub fn add_root(&mut self, root: &Root) -> (r: Result<(), String>)
        requires
            old(self).wf(),
        ensures
            final(self).wf(),
            old(self).tidy() ==> final(self).tidy(),
            match grant_failure(*old(self), *root, false) {
                Some(reason) => failed(r, reason) && *final(self) == *old(self),
                None => r is Ok && granted(*old(self), *final(self), *root, false, seq![]),
            },
    {
        let ghost start = *self;
        match self.authorize_root(root, false) {
            Ok(contained) => {
                proof {
                    let sorted = choose|sorted: Seq<Root>| #[trigger]
                        by_path(start.roots@, sorted) && texts(contained@) == root_ids(
                            sorted.filter(replaces(*root, false)),
                        );
                    filter_rows(sorted, replaces(*root, false));
                    let left = sorted.filter(replaces(*root, false));
                    if left.len() > 0 {
                        assert(replaces(*root, false)(left[0]));
                        assert(false);
                    }
                    assert(texts(contained@) =~= seq![]);
                }
                Ok(())
            },
            Err(reason) => Err(reason),
        }
    }

    /// An explicit broader authorization replaces its contained scan roots
    /// atomically. History, kept paths and the reward ledger retain their
    /// original identities.
    pub fn authorize_root(&mut self, root: &Root, replace_contained: bool) -> (r: Result<
        Vec<String>,
        String,
    >)
        requires
            old(self).wf(),
        ensures
            final(self).wf(),
            old(self).tidy() ==> final(self).tidy(),
            match grant_failure(*old(self), *root, replace_contained) {
                Some(reason) => failed(r, reason) && *final(self) == *old(self),
                None => r matches Ok(contained) && granted(
                    *old(self),
                    *final(self),
                    *root,
                    replace_contained,
                    texts(contained@),
                ),
            },
    {
        let ghost start = *self;
        let existing: Vec<Root> = self.roots();
        let ghost sorted = existing@;
        let ghost test = replaces(*root, replace_contained);
        let mut contained: Vec<String> = Vec::new();
        let mut narrowing_home: bool = false;
        let mut i: usize = 0;
        proof {
            assert(sorted.take(0).filter(test) =~= seq![]) by {
                reveal(Seq::filter);
            }
            assert(texts(contained@) =~= root_ids(sorted.take(0).filter(test)));
        }
        while i < existing.len()
            invariant
                i <= existing.len(),
                sorted == existing@,
                by_path(start.roots@, sorted),
                start == *self,
                *self == *old(self),
                self.wf(),
                test == replaces(*root, replace_contained),
                texts(contained@) == root_ids(sorted.take(i as int).filter(test)),
                forall|j: int|
                    0 <= j < i ==> !overlaps(*root, #[trigger] sorted[j], replace_contained),
                narrowing_home == exists|j: int|
                    0 <= j < i && narrows(*root, #[trigger] sorted[j], replace_contained),
            decreases existing.len() - i,
        {
            let e: &Root = &existing[i];
            let ghost now = sorted.take(i as int);
            proof {
                assert(sorted.take(i + 1) =~= now.push(sorted[i as int]));
                filter_push(now, sorted[i as int], test);
            }
            let ghost ids = contained@;
            // Reconfirming a folder grant as home narrows its media policy.
            // Only the same physical grant is replaced; old findings must not
            // remain actionable during the refresh.
            if is_narrowing(root, e, replace_contained) {
                contained.push(e.id.clone());
                narrowing_home = true;
                proof {
                    assert(texts(contained@) =~= texts(ids).push(e.id@));
                    assert(root_ids(now.filter(test).push(sorted[i as int])) =~= root_ids(
                        now.filter(test),
                    ).push(e.id@));
                    assert(narrows(*root, sorted[i as int], replace_contained));
                }
            } else {
                if is_under(path_bytes(&root.path), path_bytes(&e.path)) {
                    proof {
                        let w = choose|w: int|
                            0 <= w < start.roots@.len() && start.roots@[w] == sorted[i as int];
                        assert(start.roots@.contains(sorted[i as int]));
                        assert(overlaps(*root, start.roots@[w], replace_contained));
                    }
                    return fail("This folder overlaps an already authorized location.");
                }
                if is_under(path_bytes(&e.path), path_bytes(&root.path)) {
                    if e.identity.device == root.identity.device {
                        if !replace_contained {
                            proof {
                                assert(start.roots@.contains(sorted[i as int]));
                                let w = choose|w: int|
                                    0 <= w < start.roots@.len() && start.roots@[w]
                                        == sorted[i as int];
                                assert(overlaps(*root, start.roots@[w], replace_contained));
                            }
                            return fail("This folder overlaps an already authorized location.");
                        }
                        contained.push(e.id.clone());
                        proof {
                            assert(texts(contained@) =~= texts(ids).push(e.id@));
                            assert(root_ids(now.filter(test).push(sorted[i as int])) =~= root_ids(
                                now.filter(test),
                            ).push(e.id@));
                        }
                    }
                }
            }
            i = i + 1;
        }
        assert(sorted.take(i as int) =~= sorted);
        let ghost gone = texts(contained@);
        proof {
            assert forall|k: int| 0 <= k < start.roots@.len() implies !overlaps(
                *root,
                #[trigger] start.roots@[k],
                replace_contained,
            ) by {
                sorted_member(start.roots@, sorted, k);
            }
            if narrowing_home {
                let j = choose|j: int|
                    0 <= j < sorted.len() && narrows(*root, #[trigger] sorted[j], replace_contained);
                assert(start.roots@.contains(sorted[j]));
                let w = choose|w: int| 0 <= w < start.roots@.len() && start.roots@[w] == sorted[j];
                assert(narrows(*root, start.roots@[w], replace_contained));
            }
            if narrowing(start, *root, replace_contained) {
                let k = choose|k: int|
                    0 <= k < start.roots@.len() && narrows(
                        *root,
                        #[trigger] start.roots@[k],
                        replace_contained,
                    );
                sorted_member(start.roots@, sorted, k);
            }
            assert(narrowing_home == narrowing(start, *root, replace_contained));
            // Whether a root goes is whether its id is in the list.
            assert forall|k: int| 0 <= k < start.roots@.len() implies gone.contains(
                (#[trigger] start.roots@[k]).id@,
            ) == test(start.roots@[k]) by {
                gone_by_id(start, sorted, test, k);
            }
        }
        match self.find_root(root.id.as_str()) {
            Some(at) => {
                if !has_text(&contained, root.id.as_str()) {
                    assert(self.root_at(root.id@, at as int));
                    assert(start.roots@[at as int].id@ == root.id@);
                    return fail("UNIQUE constraint failed: roots.id");
                }
                proof {
                    assert forall|k: int|
                        0 <= k < start.roots@.len() && (#[trigger] start.roots@[k]).id@
                            == root.id@ implies test(start.roots@[k]) by {
                        assert(gone.contains(start.roots@[k].id@));
                    }
                }
            },
            None => {
                proof {
                    assert forall|k: int| 0 <= k < start.roots@.len() implies (
                    #[trigger] start.roots@[k]).id@ != root.id@ by {
                        if start.roots@[k].id@ == root.id@ {
                            assert(start.root_at(root.id@, k));
                        }
                    }
                }
            },
        }
        let mut again: Option<FsPath> = None;
        if narrowing_home {
            match scope_path(path_bytes(&root.path)) {
                Ok(scope) => {
                    if !is_under(path_bytes(&scope), path_bytes(&root.path)) {
                        return fail("The discovery scope is outside its authorized location");
                    }
                    again = Some(scope);
                },
                Err(reason) => {
                    return Err(reason);
                },
            }
        }
        if self.foreground.revision >= i64::MAX {
            return fail("The foreground summary context is missing or exhausted");
        }
        self.forget(&contained);
        let ghost mid = *self;
        self.roots.push(root.copy());
        proof {
            let left = mid.roots@;
            filter_rows(start.roots@, root_apart(gone));
            assert forall|k: int| 0 <= k < left.len() implies (#[trigger] left[k]).id@ != root.id@
                && left[k].path@ != root.path@ by {
                let w = choose|w: int| 0 <= w < start.roots@.len() && start.roots@[w] == left[k];
                assert(!gone.contains(start.roots@[w].id@));
                assert(!test(start.roots@[w]));
                assert(!overlaps(*root, start.roots@[w], replace_contained));
                crate::paths::under_itself(root.path@, root.path@);
            }
            push_unique(left, *root, |r: Root| r.id@);
            push_unique(left, *root, |r: Root| r.path@);
        }
        self.journal.mark_incomplete(root.id.as_str());
        match &again {
            Some(scope) => {
                // The replacement scan belongs to the same commit as the
                // invalidation. A restart in between must not leave the
                // narrowed grant empty with no durable work to finish.
                self.journal.enqueue_validated(root.id.as_str(), path_bytes(&root.path), scope);
            },
            None => {},
        }
        let _ = self.foreground.invalidate();
        proof {
            assert(forgotten(start, mid, gone));
            assert(by_path(start.roots@, sorted));
            if start.tidy() {
                let queue = keys(mid.journal.pending@);
                forgetting_keeps_tidy(start, mid, gone);
                new_location_keeps_tidy(mid, *self, *root, queue);
                if let Some(scope) = again {
                    scopes_are_plain(root.path@);
                    enqueue_keeps_tidy(*self, queue, root.id@, scope@);
                }
            }
        }
        Ok(contained)
    }
}

proof fn gone_by_id(store: Store, sorted: Seq<Root>, test: spec_fn(Root) -> bool, k: int)
    requires
        store.wf(),
        by_path(store.roots@, sorted),
        0 <= k < store.roots@.len(),
    ensures
        root_ids(sorted.filter(test)).contains(store.roots@[k].id@) == test(store.roots@[k]),
{
    let left = sorted.filter(test);
    let ids = root_ids(left);
    let root = store.roots@[k];
    filter_holds(sorted, test);
    filter_rows(sorted, test);
    if ids.contains(root.id@) {
        let j = choose|j: int| 0 <= j < ids.len() && ids[j] == root.id@;
        assert(test(left[j]));
        let m = choose|m: int| 0 <= m < sorted.len() && sorted[m] == left[j];
        assert(store.roots@.contains(sorted[m]));
        let w = choose|w: int| 0 <= w < store.roots@.len() && store.roots@[w] == sorted[m];
        if w < k {
            assert(store.roots@[w].id@ != store.roots@[k].id@);
        } else if k < w {
            assert(store.roots@[k].id@ != store.roots@[w].id@);
        }
    }
    if test(root) {
        assert(sorted.contains(root));
        assert(left.contains(root));
        let j = choose|j: int| 0 <= j < left.len() && left[j] == root;
        assert(ids[j] == root.id@);
    }
}

/// Whether locations on one device never nest.
pub open spec fn grants_apart(roots: Seq<Root>) -> bool {
    forall|i: int, j: int|
        0 <= i < roots.len() && 0 <= j < roots.len() && i != j && under(
            (#[trigger] roots[i]).path@,
            (#[trigger] roots[j]).path@,
        ) ==> roots[i].identity.device != roots[j].identity.device
}

/// Authorizing a location never makes two locations of one device nest.
pub proof fn granting_keeps_grants_apart(
    before: Store,
    after: Store,
    root: Root,
    replace: bool,
    contained: Seq<Seq<char>>,
)
    requires
        before.wf(),
        grants_apart(before.roots@),
        grant_failure(before, root, replace) is None,
        granted(before, after, root, replace, contained),
    ensures
        grants_apart(after.roots@),
{
    let mid = choose|mid: Store| #[trigger]
        forgotten(before, mid, contained) && after.roots@ == mid.roots@.push(root);
    let sorted = choose|sorted: Seq<Root>| #[trigger]
        by_path(before.roots@, sorted) && contained == root_ids(
            sorted.filter(replaces(root, replace)),
        );
    let left = mid.roots@;
    let out = after.roots@;
    filter_unique(before.roots@, root_apart(contained), |r: Root| r.id@);
    filter_rows(before.roots@, root_apart(contained));
    assert forall|i: int, j: int|
        0 <= i < out.len() && 0 <= j < out.len() && i != j && under(
            (#[trigger] out[i]).path@,
            (#[trigger] out[j]).path@,
        ) implies out[i].identity.device != out[j].identity.device by {
        if i < left.len() && j < left.len() {
            assert(out[i] == left[i] && out[j] == left[j]);
            let a = choose|a: int| 0 <= a < before.roots@.len() && before.roots@[a] == left[i];
            let b = choose|b: int| 0 <= b < before.roots@.len() && before.roots@[b] == left[j];
            if i < j {
                assert(left[i].id@ != left[j].id@);
            } else {
                assert(left[j].id@ != left[i].id@);
            }
            assert(a != b);
            assert(under(before.roots@[a].path@, before.roots@[b].path@));
        } else if i < left.len() {
            assert(out[i] == left[i]);
            let a = choose|a: int| 0 <= a < before.roots@.len() && before.roots@[a] == left[i];
            gone_by_id(before, sorted, replaces(root, replace), a);
            assert(!overlaps(root, before.roots@[a], replace));
        } else {
            assert(out[j] == left[j]);
            let b = choose|b: int| 0 <= b < before.roots@.len() && before.roots@[b] == left[j];
            gone_by_id(before, sorted, replaces(root, replace), b);
            assert(!overlaps(root, before.roots@[b], replace));
        }
    }
}

/// Granting a location leaves kept paths, cleanups and rewards as
/// they were.
pub proof fn grants_leave_the_ledger(
    before: Store,
    after: Store,
    root: Root,
    replace: bool,
    contained: Seq<Seq<char>>,
)
    requires
        granted(before, after, root, replace, contained),
    ensures
        after.kept == before.kept,
        after.ledger == before.ledger,
{
    let mid = choose|mid: Store| #[trigger]
        forgotten(before, mid, contained) && after == (Store {
            roots: after.roots,
            journal: Journal {
                incomplete: after.journal.incomplete,
                pending: after.journal.pending,
                ..mid.journal
            },
            foreground: after.foreground,
            ..mid
        });
}


/// A grant makes every earlier foreground context stale.
pub proof fn granting_renews_the_context(
    before: Store,
    after: Store,
    root: Root,
    replace: bool,
    contained: Seq<Seq<char>>,
)
    requires
        before.wf(),
        grant_failure(before, root, replace) is None,
        granted(before, after, root, replace, contained),
    ensures
        after.foreground.revision > before.foreground.revision,
        after.foreground.summary is None,
{
}

} // verus!
