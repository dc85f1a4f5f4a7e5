//! Finding a fixed location without following a link.
use super::report::{boundary, boundary_failure, Failure, FailureView, IssueKind, MAX_PATH_BYTES};
use crate::model::EntryMeta;
use crate::paths::{parent_part, SLASH};
use crate::text::{covers, has_byte, pieces, same_bytes, split_bytes, Span};
use vstd::prelude::*;
use vstd::slice::{slice_subrange, slice_to_vec};

verus! {

/// What was observed of one component of a route, as far as it was asked for.
pub struct ComponentFact {
    /// Its metadata; nothing, where it is missing.
    pub meta: Option<Result<Option<EntryMeta>, Failure>>,
    /// Whether the folder was opened and is what its metadata said.
    pub opened: Option<Result<(), Failure>>,
}

/// What is asked of a component.
#[derive(Debug, Clone, Copy, PartialEq, Eq, Structural)]
pub enum ComponentAsk {
    Meta,
    Open,
}

/// How far a location is found.
pub enum Located {
    Need(usize, ComponentAsk),
    Fail(Failure),
    Absent,
    At(EntryMeta),
}

/// The same, as a value to reason about.
pub enum Finding {
    Need(int, ComponentAsk),
    Fail(FailureView),
    Absent,
    At(EntryMeta),
}

pub open spec fn located_is(r: Located, expected: Finding) -> bool {
    match expected {
        Finding::Need(i, ask) => r matches Located::Need(at, what) && at == i && what == ask,
        Finding::Fail(failure) => r matches Located::Fail(got) && got@ == failure,
        Finding::Absent => r is Absent,
        Finding::At(meta) => r == Located::At(meta),
    }
}

pub open spec fn exact_path_failure() -> FailureView {
    FailureView {
        kind: IssueKind::Unavailable,
        detail: "The overview requires an exact local path."@,
    }
}

/// The part that names the folder itself.
pub open spec fn same_part() -> Seq<u8> {
    seq![46u8]
}

/// The first `n` parts of a route as plain names. Empty parts, and after the
/// first one those that name the folder itself, do not count.
pub open spec fn plain_parts(parts: Seq<Seq<u8>>, n: int) -> Result<Seq<Seq<u8>>, FailureView>
    decreases n,
{
    if n <= 0 {
        Ok(seq![])
    } else {
        match plain_parts(parts, n - 1) {
            Err(failure) => Err(failure),
            Ok(names) => {
                let part = parts[n - 1];
                if part.len() == 0 || (part == same_part() && n > 1) {
                    Ok(names)
                } else if part == parent_part() || part == same_part() {
                    Err(exact_path_failure())
                } else if part.contains(0u8) {
                    Err(
                        FailureView {
                            kind: IssueKind::Unavailable,
                            detail: "The path contains an invalid name."@,
                        },
                    )
                } else {
                    Ok(names.push(part))
                }
            },
        }
    }
}

/// The names of a route, each to be found in the folder before it.
pub open spec fn route_names(relative: Seq<u8>) -> Result<Seq<Seq<u8>>, FailureView> {
    if relative.len() > MAX_PATH_BYTES {
        Err(
            FailureView {
                kind: IssueKind::DepthLimit,
                detail: "This path exceeds the overview's path limit."@,
            },
        )
    } else if relative.len() > 0 && relative[0] == SLASH {
        Err(exact_path_failure())
    } else {
        let parts = pieces(relative, SLASH);
        match plain_parts(parts, parts.len() as int) {
            Err(failure) => Err(failure),
            Ok(names) => if names.len() == 0 {
                Err(
                    FailureView {
                        kind: IssueKind::Unavailable,
                        detail: "An empty storage route is not allowed."@,
                    },
                )
            } else {
                Ok(names)
            },
        }
    }
}

/// Names, as values to reason about.
pub open spec fn name_views(names: Seq<Vec<u8>>) -> Seq<Seq<u8>> {
    names.map_values(|n: Vec<u8>| n@)
}

fn collect_names(relative: &[u8], parts: &Vec<Span>) -> (r: Result<Vec<Vec<u8>>, Failure>)
    requires
        covers(parts@, relative@, pieces(relative@, SLASH)),
    ensures
        match plain_parts(pieces(relative@, SLASH), pieces(relative@, SLASH).len() as int) {
            Ok(names) => r matches Ok(got) && name_views(got@) == names,
            Err(failure) => r matches Err(got) && got@ == failure,
        },
{
    let ghost all = pieces(relative@, SLASH);
    let mut out: Vec<Vec<u8>> = Vec::new();
    let dot: [u8; 1] = [46u8];
    let dots: [u8; 2] = [46u8, 46u8];
    assert(dot@ =~= same_part());
    assert(dots@ =~= parent_part());
    let mut i: usize = 0;
    assert(name_views(out@) =~= seq![]);
    while i < parts.len()
        invariant
            i <= parts.len(),
            all == pieces(relative@, SLASH),
            covers(parts@, relative@, all),
            dot@ == same_part(),
            dots@ == parent_part(),
            plain_parts(all, i as int) == Ok::<Seq<Seq<u8>>, FailureView>(name_views(out@)),
        decreases parts.len() - i,
    {
        let ghost here = i as int;
        let part: &[u8] = slice_subrange(relative, parts[i].start, parts[i].end);
        assert(part@ == all[here]);
        let own: bool = same_bytes(part, vstd::array::array_as_slice(&dot));
        let up: bool = same_bytes(part, vstd::array::array_as_slice(&dots));
        if part.len() == 0 || (own && i > 0) {
        } else if up || own {
            proof {
                parts_stop(all, here + 1, all.len() as int);
            }
            return Err(
                Failure::new(
                    IssueKind::Unavailable,
                    "The overview requires an exact local path.",
                ),
            );
        } else if has_byte(part, 0) {
            proof {
                parts_stop(all, here + 1, all.len() as int);
            }
            return Err(
                Failure::new(IssueKind::Unavailable, "The path contains an invalid name."),
            );
        } else {
            let ghost before = out@;
            out.push(slice_to_vec(part));
            assert(name_views(out@) =~= name_views(before).push(part@));
        }
        i = i + 1;
    }
    Ok(out)
}

proof fn parts_stop(parts: Seq<Seq<u8>>, i: int, n: int)
    requires
        0 <= i <= n,
        plain_parts(parts, i) is Err,
    ensures
        plain_parts(parts, n) == plain_parts(parts, i),
    decreases n - i,
{
    if i < n {
        parts_stop(parts, i + 1, n);
    }
}

/// The names of a route.
pub fn split_route(relative: &[u8]) -> (r: Result<Vec<Vec<u8>>, Failure>)
    ensures
        match route_names(relative@) {
            Ok(names) => r matches Ok(got) && name_views(got@) == names,
            Err(failure) => r matches Err(got) && got@ == failure,
        },
{
    if relative.len() > MAX_PATH_BYTES {
        return Err(
            Failure::new(
                IssueKind::DepthLimit,
                "This path exceeds the overview's path limit.",
            ),
        );
    }
    if relative.len() > 0 && relative[0] == SLASH {
        return Err(
            Failure::new(
                IssueKind::Unavailable,
                "The overview requires an exact local path.",
            ),
        );
    }
    let parts: Vec<Span> = split_bytes(relative, SLASH);
    let names: Vec<Vec<u8>> = match collect_names(relative, &parts) {
        Err(failure) => {
            return Err(failure);
        },
        Ok(names) => names,
    };
    assert(name_views(names@).len() == names@.len());
    if names.len() == 0 {
        return Err(
            Failure::new(IssueKind::Unavailable, "An empty storage route is not allowed."),
        );
    }
    Ok(names)
}

/// The way from a component on. A missing component is absence only at this
/// first look; any failure after it was seen is a change.
pub open spec fn follow(
    facts: Seq<ComponentFact>,
    total: int,
    i: int,
    device: Option<u64>,
) -> Finding
    decreases total - i,
{
    if i >= total || i >= facts.len() {
        Finding::Need(i, ComponentAsk::Meta)
    } else {
        match facts[i].meta {
            None => Finding::Need(i, ComponentAsk::Meta),
            Some(Err(failure)) => Finding::Fail(failure@),
            Some(Ok(None)) => Finding::Absent,
            Some(Ok(Some(meta))) => match boundary_failure(meta, device) {
                Some(failure) => Finding::Fail(failure),
                None => if i + 1 == total {
                    Finding::At(meta)
                } else if !meta.dir() {
                    Finding::Fail(
                        FailureView {
                            kind: IssueKind::Changed,
                            detail: "A storage path component is no longer a folder."@,
                        },
                    )
                } else {
                    match facts[i].opened {
                        None => Finding::Need(i, ComponentAsk::Open),
                        Some(Err(failure)) => Finding::Fail(failure@),
                        Some(Ok(_)) => follow(facts, total, i + 1, device),
                    }
                },
            },
        }
    }
}

/// Where a route leads.
pub open spec fn location(relative: Seq<u8>, facts: Seq<ComponentFact>, device: Option<u64>) -> Finding {
    match route_names(relative) {
        Err(failure) => Finding::Fail(failure),
        Ok(names) => follow(facts, names.len() as int, 0, device),
    }
}

/// Where a route leads: every folder on the way is looked at before it is
/// opened, without following a link, and only on its own device.
pub fn locate(relative: &[u8], facts: &Vec<ComponentFact>, device: Option<u64>) -> (r: Located)
    ensures
        located_is(r, location(relative@, facts@, device)),
{
    let names: Vec<Vec<u8>> = match split_route(relative) {
        Err(failure) => {
            return Located::Fail(failure);
        },
        Ok(names) => names,
    };
    assert(name_views(names@).len() == names@.len());
    let total: usize = names.len();
    let ghost whole = follow(facts@, total as int, 0, device);
    let mut i: usize = 0;
    while i < total && i < facts.len()
        invariant
            i <= total,
            total == names.len(),
            whole == location(relative@, facts@, device),
            whole == follow(facts@, total as int, i as int, device),
        decreases total - i,
    {
        match &facts[i].meta {
            None => {
                return Located::Need(i, ComponentAsk::Meta);
            },
            Some(Err(failure)) => {
                return Located::Fail(failure.copy());
            },
            Some(Ok(None)) => {
                return Located::Absent;
            },
            Some(Ok(Some(found))) => {
                let meta: EntryMeta = match boundary(*found, device) {
                    Err(failure) => {
                        return Located::Fail(failure);
                    },
                    Ok(meta) => meta,
                };
                if i + 1 == total {
                    return Located::At(meta);
                }
                if !meta.is_dir() {
                    return Located::Fail(
                        Failure::new(
                            IssueKind::Changed,
                            "A storage path component is no longer a folder.",
                        ),
                    );
                }
                match &facts[i].opened {
                    None => {
                        return Located::Need(i, ComponentAsk::Open);
                    },
                    Some(Err(failure)) => {
                        return Located::Fail(failure.copy());
                    },
                    Some(Ok(_)) => {},
                }
            },
        }
        i = i + 1;
    }
    Located::Need(i, ComponentAsk::Meta)
}

/// Why an opened folder cannot be measured, if it cannot. `cloud` is what the
/// cloud check objects, and `local` whether the volume is a local one, where
/// that could be told.
pub open spec fn folder_failure(
    actual: EntryMeta,
    expected: EntryMeta,
    cloud: Option<Seq<char>>,
    local: Result<bool, FailureView>,
) -> Option<FailureView> {
    match boundary_failure(actual, Some(expected.identity.device)) {
        Some(failure) => Some(failure),
        None => if !actual.dir() || actual != expected {
            Some(
                FailureView {
                    kind: IssueKind::Changed,
                    detail: "A folder changed before it could be measured."@,
                },
            )
        } else {
            match cloud {
                Some(detail) => Some(FailureView { kind: IssueKind::CloudPlaceholder, detail }),
                None => match local {
                    Err(failure) => Some(failure),
                    Ok(true) => None,
                    Ok(false) => Some(
                        FailureView {
                            kind: IssueKind::MountBoundary,
                            detail: "Network and remote storage are excluded."@,
                        },
                    ),
                },
            }
        },
    }
}

pub open spec fn local_view(local: Result<bool, Failure>) -> Result<bool, FailureView> {
    match local {
        Ok(local) => Ok(local),
        Err(failure) => Err(failure@),
    }
}

/// Whether an opened folder is the one that was looked at, and may be measured.
pub fn validate_directory(
    actual: EntryMeta,
    expected: &EntryMeta,
    cloud: &Option<String>,
    local: &Result<bool, Failure>,
) -> (r: Result<(), Failure>)
    ensures
        match folder_failure(
            actual,
            *expected,
            crate::evidence::text_view(*cloud),
            local_view(*local),
        ) {
            Some(failure) => r matches Err(got) && got@ == failure,
            None => r is Ok,
        },
{
    match boundary(actual, Some(expected.identity.device)) {
        Err(failure) => {
            return Err(failure);
        },
        Ok(_) => {},
    }
    if !actual.is_dir() || actual != *expected {
        return Err(
            Failure::new(IssueKind::Changed, "A folder changed before it could be measured."),
        );
    }
    match cloud {
        Some(detail) => {
            return Err(Failure::new(IssueKind::CloudPlaceholder, detail.as_str()));
        },
        None => {},
    }
    match local {
        Err(failure) => Err(failure.copy()),
        Ok(local) => {
            if *local {
                Ok(())
            } else {
                Err(
                    Failure::new(
                        IssueKind::MountBoundary,
                        "Network and remote storage are excluded.",
                    ),
                )
            }
        },
    }
}

/// What is said where a location is no longer what was measured.
pub open spec fn moved_failure() -> FailureView {
    FailureView {
        kind: IssueKind::Changed,
        detail:
            "This storage location moved or changed. Its previous measurement is no longer associated with this path."@,
    }
}

/// A route that leads somewhere leads to an entry that is no link, is stored
/// locally, and lies on the device that was asked for.
pub proof fn locations_are_plain(
    facts: Seq<ComponentFact>,
    total: int,
    i: int,
    device: Option<u64>,
)
    ensures
        follow(facts, total, i, device) matches Finding::At(meta) ==> {
            &&& !meta.symlink()
            &&& !meta.dataless()
            &&& device matches Some(d) ==> meta.identity.device == d
        },
    decreases total - i,
{
    if i < total && i < facts.len() {
        match facts[i].meta {
            Some(Ok(Some(meta))) => {
                if facts[i].opened matches Some(Ok(_)) {
                    locations_are_plain(facts, total, i + 1, device);
                }
            },
            _ => {},
        }
    }
}

} // verus!
