//! What was seen of a file, and what a document holds.
use crate::document::{entry_of, Doc};
use crate::model::EntryMeta;
use crate::paths::named;
use crate::probe::{Ask, Got};
use crate::sources::{added, later, Account, EvidenceSource, Sources};
use vstd::prelude::*;

verus! {

/// A folder holds a file of this name: it was seen there and this was read from it.
pub open spec fn holds(
    seen: Sources,
    folder: Seq<u8>,
    name: Seq<char>,
    source: EvidenceSource,
) -> bool {
    seen.presence(named(folder, name)) == Got::<bool>::Have(true) && seen.capture(
        named(folder, name),
    ) == Got::<EvidenceSource>::Have(source)
}

/// A folder was seen to have no file of this name.
pub open spec fn lacks(seen: Sources, folder: Seq<u8>, name: Seq<char>) -> bool {
    seen.presence(named(folder, name)) == Got::<bool>::Have(false)
}

/// The one observation of a path is what every question about the path is answered
/// with; what it leaves open has to be asked.
pub proof fn an_observation_answers_for_its_path(seen: Sources, i: int)
    requires
        0 <= i < seen.facts@.len(),
        forall|j: int|
            0 <= j < seen.facts@.len() && j != i ==> (#[trigger] seen.facts@[j]).path@
                != seen.facts@[i].path@,
    ensures
        ({
            let fact = seen.facts@[i];
            let path = fact.path@;
            &&& fact.present is None ==> seen.presence(path) == Got::<bool>::Need(
                path,
                Ask::Presence,
            )
            &&& fact.regular is None ==> seen.regularity(path) == Got::<bool>::Need(path, Ask::Kind)
            &&& fact.content is None ==> seen.capture(path) == Got::<EvidenceSource>::Need(
                path,
                Ask::Content,
            )
            &&& fact.owns is None ==> seen.ownership(path) == Got::<bool>::Need(
                path,
                Ask::Ownership,
            )
            &&& (fact.present matches Some(Ok(there)) ==> seen.presence(path) == Got::<bool>::Have(
                there,
            ))
            &&& (fact.regular matches Some(Ok(is)) ==> seen.regularity(path) == Got::<bool>::Have(
                is,
            ))
            &&& (fact.content matches Some(Ok(source)) ==> seen.capture(path) == Got::<
                EvidenceSource,
            >::Have(source))
            &&& (fact.owns matches Some(Ok(owns)) ==> seen.ownership(path) == Got::<bool>::Have(
                owns,
            ))
            &&& (fact.present matches Some(Err(reason)) ==> seen.presence(path) == Got::<
                bool,
            >::Fail(reason@))
            &&& (fact.content matches Some(Err(reason)) ==> seen.capture(path) == Got::<
                EvidenceSource,
            >::Fail(reason@))
        }),
{
    let path = seen.facts@[i].path@;
    assert(seen.fact_at(path, i));
    let k = choose|k: int| #[trigger] seen.fact_at(path, k);
    assert(seen.fact_at(path, k));
    assert(k == i);
}

/// Of a path that nothing was observed of, everything has to be asked.
pub proof fn the_unobserved_is_asked_for(seen: Sources, path: Seq<u8>)
    requires
        forall|j: int| 0 <= j < seen.facts@.len() ==> (#[trigger] seen.facts@[j]).path@ != path,
    ensures
        seen.presence(path) == Got::<bool>::Need(path, Ask::Presence),
        seen.regularity(path) == Got::<bool>::Need(path, Ask::Kind),
        seen.capture(path) == Got::<EvidenceSource>::Need(path, Ask::Content),
        seen.ownership(path) == Got::<bool>::Need(path, Ask::Ownership),
{
    assert(!seen.knows(path)) by {
        if seen.knows(path) {
            let k = choose|k: int| #[trigger] seen.fact_at(path, k);
            assert(seen.facts@[k].path@ == path);
        }
    }
}

/// A table gives for a key the first entry under it, and nothing where it has none.
pub proof fn a_table_gives_its_entry(entries: Seq<(Seq<char>, Doc)>, key: Seq<char>, i: int)
    requires
        0 <= i <= entries.len(),
        forall|j: int| 0 <= j < i ==> (#[trigger] entries[j]).0 != key,
        i < entries.len() ==> entries[i].0 == key,
    ensures
        Doc::Table(entries).field(key) == (if i < entries.len() {
            Some(entries[i].1)
        } else {
            None
        }),
        Doc::Table(entries).has_table(key) == (i < entries.len() && entries[i].1 is Table),
    decreases entries.len(),
{
    if entries.len() > 0 && i > 0 {
        let rest = entries.skip(1);
        assert(entries[0].0 != key);
        assert forall|j: int| 0 <= j < i - 1 implies (#[trigger] rest[j]).0 != key by {
            assert(rest[j] == entries[j + 1]);
        }
        a_table_gives_its_entry(rest, key, i - 1);
        assert(entry_of(entries, key) == entry_of(rest, key));
    }
}

/// What is no table has no fields.
pub proof fn only_tables_have_fields(document: Doc, key: Seq<char>)
    requires
        !(document is Table),
    ensures
        document.field(key) is None,
        !document.has_table(key),
{
}

/// The evidence of a file is as late as the latest of the files read for it, and its
/// transcript tells any two files apart by their place in it.
pub proof fn the_latest_change_counts(account: Account, path: Seq<u8>, source: EvidenceSource)
    ensures
        added(account, path, source).latest >= account.latest,
        added(account, path, source).latest >= source.identity.modified_ns,
        added(account, path, source).latest == account.latest || added(
            account,
            path,
            source,
        ).latest == source.identity.modified_ns,
        added(account, path, source).transcript.take(account.transcript.len() as int)
            == account.transcript,
        added(account, path, source).transcript.subrange(
            account.transcript.len() as int,
            (account.transcript.len() + path.len()) as int,
        ) == path,
        later(account.latest, account.latest) == account.latest,
{
    let t = account.transcript;
    let whole = added(account, path, source).transcript;
    assert(whole.take(t.len() as int) =~= t);
    assert(whole.subrange(t.len() as int, (t.len() + path.len()) as int) =~= path);
}

/// An entry is a folder, a file or a link by its type bits, and never two of these;
/// it is a placeholder exactly when its dataless flag is set.
pub proof fn an_entry_is_one_thing(meta: EntryMeta)
    ensures
        meta.dir() == (meta.identity.mode & 0o170000 == 0o040000),
        meta.file() == (meta.identity.mode & 0o170000 == 0o100000),
        meta.symlink() == (meta.identity.mode & 0o170000 == 0o120000),
        meta.dataless() == (meta.flags & 0x4000_0000 != 0),
        !(meta.dir() && meta.file()),
        !(meta.dir() && meta.symlink()),
        !(meta.file() && meta.symlink()),
{
}

} // verus!
