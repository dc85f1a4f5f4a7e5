//! Which folders are granted, and what is discovered in them.
use crate::model::Root;
use crate::paths::{components, scope_outcome, under};
use crate::pnpm::texts;
use crate::store::claims::{
    begin_failure, finish_failure, finish_result, is_claimed, is_current, resolved, was_limited,
    ScopeRefresh,
};
use crate::store::coverage::marked;
use crate::store::grants::{
    forgotten, grant_failure, granted, limited_apart, narrows, overlaps, replaces, root_apart,
    row_apart, scan_apart, scope_apart, tombstone_apart,
};
use crate::store::queue::{
    claim_outcome, claimable, claimed_at, covered, enqueue_outcome, next_claim, other_than,
};
use crate::store::{keys, IndexRow, Limited, SavedScan, Scope, Store, Tombstone};
use crate::tables::filter_holds;
use vstd::prelude::*;

verus! {

/// Neither folder holds the other.
pub open spec fn separate(a: Root, b: Root) -> bool {
    !under(a.path@, b.path@) && !under(b.path@, a.path@)
}

/// A folder that is separate from every granted one, and has an id of its own, can be
/// granted, with or without leave to replace others.
pub proof fn separate_folders_are_granted(store: Store, root: Root, replace: bool)
    requires
        store.foreground.revision < i64::MAX,
        forall|i: int|
            0 <= i < store.roots@.len() ==> separate(root, #[trigger] store.roots@[i])
                && store.roots@[i].id@ != root.id@,
    ensures
        grant_failure(store, root, replace) is None,
{
    alone_narrows_nothing(store, root, replace);
}

proof fn alone_narrows_nothing(store: Store, root: Root, replace: bool)
    requires
        forall|i: int|
            0 <= i < store.roots@.len() ==> separate(root, #[trigger] store.roots@[i])
                && store.roots@[i].id@ != root.id@,
    ensures
        forall|i: int|
            0 <= i < store.roots@.len() ==> !overlaps(root, #[trigger] store.roots@[i], replace)
                && !narrows(root, store.roots@[i], replace),
{
    assert forall|i: int| 0 <= i < store.roots@.len() implies !overlaps(
        root,
        #[trigger] store.roots@[i],
        replace,
    ) && !narrows(root, store.roots@[i], replace) by {
        assert(separate(root, store.roots@[i]));
    }
}

/// A folder inside a granted one, or the same one again, is refused, unless it makes a
/// home folder of the very folder that was granted.
pub proof fn folders_inside_a_grant_are_refused(store: Store, root: Root, replace: bool, i: int)
    requires
        0 <= i < store.roots@.len(),
        under(root.path@, store.roots@[i].path@),
        !replace || root.id@ != store.roots@[i].id@ || root.kind@ != "home"@
            || store.roots@[i].kind@ != "folder"@ || root.identity.inode
            != store.roots@[i].identity.inode || root.identity.device
            != store.roots@[i].identity.device || components(root.path@) != components(
            store.roots@[i].path@,
        ),
    ensures
        grant_failure(store, root, replace) == Some(
            "This folder overlaps an already authorized location."@,
        ),
{
    assert(overlaps(root, store.roots@[i], replace));
}

/// A folder that holds a granted one on the same volume is refused without leave to
/// replace it, and granted with it.
pub proof fn folders_around_a_grant_need_leave(store: Store, root: Root, i: int)
    requires
        0 <= i < store.roots@.len(),
        store.foreground.revision < i64::MAX,
        under(store.roots@[i].path@, root.path@),
        !under(root.path@, store.roots@[i].path@),
        store.roots@[i].identity.device == root.identity.device,
        store.roots@[i].id@ != root.id@,
        forall|j: int|
            0 <= j < store.roots@.len() && j != i ==> separate(root, #[trigger] store.roots@[j])
                && store.roots@[j].id@ != root.id@,
    ensures
        grant_failure(store, root, false) == Some(
            "This folder overlaps an already authorized location."@,
        ),
        grant_failure(store, root, true) is None,
        replaces(root, true)(store.roots@[i]),
{
    assert(overlaps(root, store.roots@[i], false));
    assert forall|j: int| 0 <= j < store.roots@.len() implies !overlaps(
        root,
        #[trigger] store.roots@[j],
        true,
    ) && !narrows(root, store.roots@[j], true) by {
        if j != i {
            assert(separate(root, store.roots@[j]));
        }
    }
}

/// A folder that holds a granted one of another volume is granted beside it.
pub proof fn other_volumes_stay_beside(store: Store, root: Root, replace: bool, i: int)
    requires
        0 <= i < store.roots@.len(),
        store.foreground.revision < i64::MAX,
        under(store.roots@[i].path@, root.path@),
        !under(root.path@, store.roots@[i].path@),
        store.roots@[i].identity.device != root.identity.device,
        store.roots@[i].id@ != root.id@,
        forall|j: int|
            0 <= j < store.roots@.len() && j != i ==> separate(root, #[trigger] store.roots@[j])
                && store.roots@[j].id@ != root.id@,
    ensures
        grant_failure(store, root, replace) is None,
        !replaces(root, replace)(store.roots@[i]),
{
    assert forall|j: int| 0 <= j < store.roots@.len() implies !overlaps(
        root,
        #[trigger] store.roots@[j],
        replace,
    ) && !narrows(root, store.roots@[j], replace) by {
        if j != i {
            assert(separate(root, store.roots@[j]));
        }
    }
}

/// A new grant is there afterwards, still needs a complete pass, and every earlier one
/// that it did not replace is still there.
pub proof fn a_grant_is_kept(
    before: Store,
    after: Store,
    root: Root,
    replace: bool,
    contained: Seq<Seq<char>>,
    other: Root,
)
    requires
        granted(before, after, root, replace, contained),
    ensures
        after.roots@.contains(root),
        after.journal.needs_pass(root.id@),
        before.roots@.contains(other) && !contained.contains(other.id@) ==> after.roots@.contains(
            other,
        ),
        contained.contains(other.id@) && other != root ==> !after.roots@.contains(other),
{
    let mid = choose|mid: Store| #[trigger]
        forgotten(before, mid, contained) && after.roots@ == mid.roots@.push(root) && texts(
            after.journal.incomplete@,
        ) == marked(texts(mid.journal.incomplete@), root.id@);
    filter_holds(before.roots@, root_apart(contained));
    assert(after.roots@[mid.roots@.len() as int] == root);
    let list = texts(mid.journal.incomplete@);
    if !list.contains(root.id@) {
        assert(list.push(root.id@)[list.len() as int] == root.id@);
    }
    if mid.roots@.contains(other) {
        let k = choose|k: int| 0 <= k < mid.roots@.len() && mid.roots@[k] == other;
        assert(after.roots@[k] == other);
    }
    if after.roots@.contains(other) && other != root {
        let k = choose|k: int| 0 <= k < after.roots@.len() && after.roots@[k] == other;
        assert(mid.roots@[k] == other);
        assert(mid.roots@.contains(other));
    }
}

/// Without leave to replace, a grant takes no other away: nothing is left out of what
/// was known before.
pub proof fn a_plain_grant_replaces_nothing(
    before: Store,
    after: Store,
    root: Root,
    other: Root,
    row: IndexRow,
)
    requires
        granted(before, after, root, false, seq![]),
    ensures
        before.roots@.contains(other) ==> after.roots@.contains(other),
        before.index.rows@.contains(row) ==> after.index.rows@.contains(row),
        after.index.rows@.contains(row) ==> before.index.rows@.contains(row),
{
    let none = Seq::<Seq<char>>::empty();
    let mid = choose|mid: Store| #[trigger]
        forgotten(before, mid, none) && after.roots@ == mid.roots@.push(root) && after.index.rows@
            == mid.index.rows@;
    filter_holds(before.roots@, root_apart(none));
    filter_holds(before.index.rows@, row_apart(none));
    if before.roots@.contains(other) {
        assert(mid.roots@.contains(other));
        let k = choose|k: int| 0 <= k < mid.roots@.len() && mid.roots@[k] == other;
        assert(after.roots@[k] == other);
    }
}

/// Forgetting locations takes away everything that belongs to them, and nothing that
/// belongs to others.
pub proof fn forgetting_takes_what_belongs(
    before: Store,
    after: Store,
    ids: Seq<Seq<char>>,
    row: IndexRow,
    scope: Scope,
    scan: SavedScan,
    limited: Limited,
    tombstone: Tombstone,
    root: Root,
)
    requires
        forgotten(before, after, ids),
    ensures
        after.index.rows@.contains(row) <==> before.index.rows@.contains(row) && !ids.contains(
            row.root_id@,
        ),
        after.journal.pending@.contains(scope) <==> before.journal.pending@.contains(scope)
            && !ids.contains(scope.root_id@),
        after.journal.active@.contains(scope) <==> before.journal.active@.contains(scope)
            && !ids.contains(scope.root_id@),
        after.scans@.contains(scan) <==> before.scans@.contains(scan) && !ids.contains(
            scan.root_id@,
        ),
        after.index.limited@.contains(limited) <==> before.index.limited@.contains(limited)
            && !ids.contains(limited.root_id@),
        after.index.tombstones@.contains(tombstone) <==> before.index.tombstones@.contains(
            tombstone,
        ) && !(tombstone.location is Some && ids.contains(
            tombstone.location->Some_0.root_id@,
        )),
        after.roots@.contains(root) <==> before.roots@.contains(root) && !ids.contains(root.id@),
        after.ledger == before.ledger,
        after.kept == before.kept,
        after.limits == before.limits,
{
    filter_holds(before.index.rows@, row_apart(ids));
    filter_holds(before.journal.pending@, scope_apart(ids));
    filter_holds(before.journal.active@, scope_apart(ids));
    filter_holds(before.scans@, scan_apart(ids));
    filter_holds(before.index.limited@, limited_apart(ids));
    filter_holds(before.index.tombstones@, tombstone_apart(ids));
    filter_holds(before.roots@, root_apart(ids));
}

/// A scope within its location is queued: it is there itself, or something that holds
/// it is; what lay below it is not asked for again, and all else stays.
pub proof fn scopes_are_queued(
    before: Store,
    after: Store,
    root: Seq<char>,
    path: Seq<u8>,
    scope: Seq<u8>,
    r: Result<(), String>,
)
    requires
        enqueue_outcome(before, after, root, path, r),
        scope_outcome(path) == Ok::<Seq<u8>, Seq<char>>(scope),
        before.has_root(root),
        under(scope, before.root_of(root).path@),
    ensures
        r is Ok,
        !covered(keys(before.journal.pending@), root, before.root_of(root).path@, scope)
            ==> keys(after.journal.pending@).last() == (root, scope),
        covered(keys(before.journal.pending@), root, before.root_of(root).path@, scope) ==> keys(
            after.journal.pending@,
        ) == keys(before.journal.pending@),
        forall|k: (Seq<char>, Seq<u8>)| #[trigger]
            keys(before.journal.pending@).contains(k) && k.0 != root ==> keys(
                after.journal.pending@,
            ).contains(k),
        after.index == before.index,
        after.ledger == before.ledger,
        after.journal.active == before.journal.active,
{
    let queue = keys(before.journal.pending@);
    let base = before.root_of(root).path@;
    if !covered(queue, root, base, scope) {
        let left = crate::store::queue::without_below(queue, root, scope);
        filter_holds(queue, crate::store::queue::apart(root, scope));
        assert forall|k: (Seq<char>, Seq<u8>)| #[trigger]
            queue.contains(k) && k.0 != root implies keys(after.journal.pending@).contains(k) by {
            assert(left.contains(k));
            let i = choose|i: int| 0 <= i < left.len() && left[i] == k;
            assert(left.push((root, scope))[i] == k);
        }
    }
}

/// A scope outside its location, or of a location that is not granted, is refused and
/// nothing changes.
pub proof fn foreign_scopes_are_refused(
    before: Store,
    after: Store,
    root: Seq<char>,
    path: Seq<u8>,
    scope: Seq<u8>,
    r: Result<(), String>,
)
    requires
        enqueue_outcome(before, after, root, path, r),
        scope_outcome(path) == Ok::<Seq<u8>, Seq<char>>(scope),
        !before.has_root(root) || !under(scope, before.root_of(root).path@),
    ensures
        r is Err,
        after == before,
{
}

/// The first waiting scope is handed out whose location is not being read, as long as
/// fewer are being read than allowed; it then counts as being read. Otherwise nothing
/// is handed out and nothing changes.
pub proof fn waiting_scopes_are_handed_out(
    before: Store,
    after: Store,
    limit: int,
    r: Option<Scope>,
    i: int,
)
    requires
        claim_outcome(before, after, limit, r),
    ensures
        before.journal.active@.len() < limit && 0 <= i < before.journal.pending@.len() && (forall|
            j: int,
        |
            0 <= j < before.journal.active@.len() ==> (#[trigger] before.journal.active@[j]).root_id@
                != before.journal.pending@[i].root_id@) ==> r is Some,
        before.journal.active@.len() >= limit ==> r is None && after == before,
        before.journal.pending@.len() == 0 ==> r is None && after == before,
        r matches Some(scope) ==> {
            &&& before.journal.pending@.contains(scope)
            &&& after.journal.active@ == before.journal.active@.push(scope)
            &&& after.journal.pending@.len() == before.journal.pending@.len() - 1
            &&& forall|j: int|
                0 <= j < before.journal.active@.len() ==> (#[trigger] before.journal.active@[j]).root_id@
                    != scope.root_id@
            &&& after.index == before.index && after.ledger == before.ledger
        },
{
    let pending = before.journal.pending@;
    let active = before.journal.active@;
    if active.len() < limit && 0 <= i < pending.len() && (forall|j: int|
        0 <= j < active.len() ==> (#[trigger] active[j]).root_id@ != pending[i].root_id@) {
        assert(claimable(pending, active, limit, i));
    }
    if let Some(scope) = r {
        let k = choose|k: int|
            #[trigger] next_claim(pending, active, limit, k) && scope == pending[k]
                && after.journal.pending@ == pending.remove(k) && after.journal.active@
                == active.push(scope);
        assert(claimable(pending, active, limit, k));
        assert(pending[k] == scope);
    }
}

/// Scopes that waited longer are handed out first, among those that can be.
pub proof fn the_longest_waiting_comes_first(
    before: Store,
    after: Store,
    limit: int,
    scope: Scope,
    i: int,
)
    requires
        claim_outcome(before, after, limit, Some(scope)),
        0 <= i < before.journal.pending@.len(),
        forall|j: int|
            0 <= j < before.journal.active@.len() ==> (#[trigger] before.journal.active@[j]).root_id@
                != before.journal.pending@[i].root_id@,
        forall|j: int| 0 <= j < i ==> exists|k: int|
            0 <= k < before.journal.active@.len() && (#[trigger] before.journal.active@[k]).root_id@
                == (#[trigger] before.journal.pending@[j]).root_id@,
    ensures
        scope == before.journal.pending@[i],
        after.journal.pending@ == before.journal.pending@.remove(i),
{
    let pending = before.journal.pending@;
    let active = before.journal.active@;
    let k = choose|k: int|
        #[trigger] next_claim(pending, active, limit, k) && scope == pending[k]
            && after.journal.pending@ == pending.remove(k);
    assert(claimable(pending, active, limit, k));
    if k < i {
        let a = choose|a: int|
            0 <= a < active.len() && (#[trigger] active[a]).root_id@ == pending[k].root_id@;
        assert(active[a].root_id@ != pending[k].root_id@);
    }
    if i < k {
        assert(claimable(pending, active, limit, i));
    }
    assert(k == i);
}

/// A refresh begins where its scope lies in the location, covers what was claimed, and
/// the claim is there; otherwise it does not.
pub proof fn claimed_refreshes_begin(
    store: Store,
    root: Root,
    claimed: Seq<u8>,
    claim: Seq<u8>,
    scope: Option<crate::paths::FsPath>,
    at: Seq<u8>,
    i: int,
)
    requires
        scope_outcome(claimed) == Ok::<Seq<u8>, Seq<char>>(claim),
        scope_outcome(
            match scope {
                Some(path) => path@,
                None => root.path@,
            },
        ) == Ok::<Seq<u8>, Seq<char>>(at),
    ensures
        under(resolved(root, scope), root.path@) && under(claimed, resolved(root, scope)) && 0 <= i
            < store.journal.active@.len() && store.journal.active@[i].root_id@ == root.id@
            && store.journal.active@[i].path@ == claim ==> begin_failure(
            store,
            root,
            claimed,
            scope,
            None,
        ) is None,
        (forall|k: int|
            0 <= k < store.journal.active@.len() ==> (#[trigger] store.journal.active@[k]).root_id@
                != root.id@ || store.journal.active@[k].path@ != claim) ==> begin_failure(
            store,
            root,
            claimed,
            scope,
            None,
        ) is Some,
        !under(claimed, resolved(root, scope)) ==> begin_failure(
            store,
            root,
            claimed,
            scope,
            None,
        ) is Some,
{
    if 0 <= i < store.journal.active@.len() && store.journal.active@[i].root_id@ == root.id@
        && store.journal.active@[i].path@ == claim {
        assert(claimed_at(store.journal.active@, root.id@, claim, i));
    }
    if forall|k: int|
        0 <= k < store.journal.active@.len() ==> (#[trigger] store.journal.active@[k]).root_id@
            != root.id@ || store.journal.active@[k].path@ != claim {
        assert(!is_claimed(store.journal, root.id@, claim)) by {
            if is_claimed(store.journal, root.id@, claim) {
                let k = choose|k: int| #[trigger]
                    claimed_at(store.journal.active@, root.id@, claim, k);
                assert(store.journal.active@[k].root_id@ == root.id@);
            }
        }
    }
}

/// A refresh of the current generation with its claim ends; only one that calls itself
/// complete after a cancellation or an error does not.
pub proof fn current_refreshes_end(store: Store, refresh: ScopeRefresh, stats: crate::model::ScanStats)
    requires
        is_current(store.journal, refresh),
        is_claimed(store.journal, refresh.root@, refresh.claimed@),
    ensures
        finish_failure(store, refresh, stats, false) is None <==> !stats.complete || (
        !stats.cancelled && stats.errors == 0),
{
}

/// A complete refresh of the whole location ends the need for a pass, unless
/// something was left out for want of room; an incomplete one leaves the need and every
/// row. Either way the claim is given back and the counts are kept.
pub proof fn complete_refreshes_close_the_location(
    before: Store,
    after: Store,
    refresh: ScopeRefresh,
    stats: crate::model::ScanStats,
    requeue: bool,
    other: Seq<char>,
)
    requires
        finish_result(before, after, refresh, stats, requeue),
    ensures
        stats.complete && refresh.scope is None && !was_limited(
            before.journal,
            refresh.root@,
            refresh.generation@,
        ) ==> !after.journal.needs_pass(refresh.root@),
        !stats.complete ==> after.index.rows@ == before.index.rows@ && after.journal.needs_pass(
            refresh.root@,
        ) == before.journal.needs_pass(refresh.root@),
        refresh.scope is Some && refresh.was_incomplete ==> after.journal.needs_pass(refresh.root@)
            == before.journal.needs_pass(refresh.root@),
        other != refresh.root@ ==> after.journal.needs_pass(other) == before.journal.needs_pass(
            other,
        ),
        !is_claimed(after.journal, refresh.root@, refresh.claimed@),
        after.scans@.last().stats == stats,
        after.scans@.last().root_id@ == refresh.root@,
        !requeue ==> keys(after.journal.pending@) == keys(before.journal.pending@),
        after.ledger == before.ledger,
        after.kept == before.kept,
{
    filter_holds(
        texts(before.journal.incomplete@),
        crate::store::coverage::other_id(refresh.root@),
    );
    filter_holds(before.journal.active@, other_than(refresh.root@, refresh.claimed@));
    if is_claimed(after.journal, refresh.root@, refresh.claimed@) {
        let k = choose|k: int| #[trigger]
            claimed_at(after.journal.active@, refresh.root@, refresh.claimed@, k);
        assert(after.journal.active@.contains(after.journal.active@[k]));
    }
}

/// Every granted location is listed, nothing else is, and the list is in the order of
/// the paths.
pub proof fn locations_are_listed_by_path(roots: Seq<Root>, out: Seq<Root>, root: Root, i: int)
    requires
        crate::store::grants::by_path(roots, out),
    ensures
        out.len() == roots.len(),
        roots.contains(root) <==> out.contains(root),
        0 <= i < out.len() - 1 ==> crate::order::precedes(out[i].path@, out[i + 1].path@),
{
    if roots.contains(root) {
        let k = choose|k: int| 0 <= k < roots.len() && roots[k] == root;
        assert(out.contains(roots[k]));
    }
    if out.contains(root) {
        let k = choose|k: int| 0 <= k < out.len() && out[k] == root;
        assert(roots.contains(out[k]));
    }
}

} // verus!
