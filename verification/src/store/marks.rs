//! Paths that the user keeps, and what coverage says in the counters.
use crate::model::{capped, ScanStats};
use crate::order::{
    byte_rows, compare_bytes, precedes, precedes_irreflexive, precedes_transitive, strictly_sorted,
    Order,
};
use crate::store::{Limited, Store};
use crate::text::{decimal, digits, joined, joined3, same_text};
use vstd::prelude::*;
use vstd::slice::slice_to_vec;
use vstd::utf8::encode_utf8;

verus! {

impl Store {
    /// The kept paths, in order.
    pub fn kept(&self) -> (r: Vec<Vec<u8>>)
        ensures
            byte_rows(r@) == byte_rows(self.kept@),
    {
        let mut out: Vec<Vec<u8>> = Vec::new();
        let mut i: usize = 0;
        while i < self.kept.len()
            invariant
                i <= self.kept.len(),
                out@.len() == i,
                forall|k: int| 0 <= k < i ==> (#[trigger] out@[k])@ == self.kept@[k]@,
            decreases self.kept.len() - i,
        {
            out.push(slice_to_vec(self.kept[i].as_slice()));
            i = i + 1;
        }
        assert(byte_rows(out@) =~= byte_rows(self.kept@));
        out
    }

    /// Keep a path, or keep it no more.
    pub fn keep(&mut self, path: &str, value: bool)
        requires
            old(self).wf(),
        ensures
            final(self).wf(),
            forall|k: Seq<u8>| #[trigger]
                byte_rows(final(self).kept@).contains(k) <==> if k == encode_utf8(path@) {
                    value
                } else {
                    byte_rows(old(self).kept@).contains(k)
                },
            *final(self) == (Store { kept: final(self).kept, ..*old(self) }),
    {
        let bytes: &[u8] = path.as_bytes();
        let ghost before = byte_rows(self.kept@);
        let ghost start = self.kept@;
        let mut i: usize = 0;
        while i < self.kept.len()
            invariant
                i <= self.kept.len(),
                old(self).wf(),
                *self == *old(self),
                bytes@ == encode_utf8(path@),
                before == byte_rows(self.kept@),
                start == self.kept@,
                forall|k: int| 0 <= k < i ==> precedes(#[trigger] before[k], bytes@),
            decreases self.kept.len() - i,
        {
            assert(before[i as int] == self.kept@[i as int]@);
            match compare_bytes(self.kept[i].as_slice(), bytes) {
                Order::Less => {},
                Order::Equal => {
                    if !value {
                        self.kept.remove(i);
                        proof {
                            let after = byte_rows(self.kept@);
                            assert(after =~= before.remove(i as int));
                            sorted_without(before, i as int);
                        }
                    } else {
                        proof {
                            assert(before.contains(bytes@));
                        }
                    }
                    return ;
                },
                Order::Greater => {
                    proof {
                        assert(!before.contains(bytes@)) by {
                            absent_between(before, bytes@, i as int);
                        }
                    }
                    if value {
                        let row: Vec<u8> = slice_to_vec(bytes);
                        self.kept.insert(i, row);
                        proof {
                            let after = byte_rows(self.kept@);
                            assert(after =~= before.insert(i as int, bytes@));
                            sorted_with(before, bytes@, i as int);
                        }
                    }
                    return ;
                },
            }
            i = i + 1;
        }
        proof {
            assert(!before.contains(bytes@)) by {
                absent_between(before, bytes@, before.len() as int);
            }
        }
        if value {
            let row: Vec<u8> = slice_to_vec(bytes);
            self.kept.push(row);
            proof {
                let after = byte_rows(self.kept@);
                assert(after =~= before.insert(before.len() as int, bytes@));
                sorted_with(before, bytes@, before.len() as int);
            }
        }
    }
}

proof fn absent_between(rows: Seq<Seq<u8>>, key: Seq<u8>, i: int)
    requires
        strictly_sorted(rows),
        0 <= i <= rows.len(),
        forall|k: int| 0 <= k < i ==> precedes(#[trigger] rows[k], key),
        i < rows.len() ==> precedes(key, rows[i]),
    ensures
        !rows.contains(key),
        forall|k: int| i <= k < rows.len() ==> precedes(key, #[trigger] rows[k]),
{
    precedes_irreflexive(key);
    assert forall|k: int| i <= k < rows.len() implies precedes(key, #[trigger] rows[k]) by {
        if k > i {
            precedes_transitive(key, rows[i], rows[k]);
        }
    }
    if rows.contains(key) {
        let k = choose|k: int| 0 <= k < rows.len() && rows[k] == key;
        if k < i {
            assert(precedes(rows[k], key));
        } else {
            assert(precedes(key, rows[k]));
        }
    }
}

proof fn sorted_with(rows: Seq<Seq<u8>>, key: Seq<u8>, i: int)
    requires
        strictly_sorted(rows),
        0 <= i <= rows.len(),
        forall|k: int| 0 <= k < i ==> precedes(#[trigger] rows[k], key),
        i < rows.len() ==> precedes(key, rows[i]),
    ensures
        strictly_sorted(rows.insert(i, key)),
        forall|k: Seq<u8>| #[trigger]
            rows.insert(i, key).contains(k) <==> k == key || rows.contains(k),
{
    absent_between(rows, key, i);
    let out = rows.insert(i, key);
    assert forall|a: int, b: int| 0 <= a < b < out.len() implies precedes(
        #[trigger] out[a],
        #[trigger] out[b],
    ) by {
        let x = if a < i { a } else { a - 1 };
        let y = if b < i { b } else { b - 1 };
        if a != i {
            assert(out[a] == rows[x]);
        }
        if b != i {
            assert(out[b] == rows[y]);
        }
    }
    assert forall|k: Seq<u8>| #[trigger] out.contains(k) <==> k == key || rows.contains(k) by {
        if out.contains(k) {
            let a = choose|a: int| 0 <= a < out.len() && out[a] == k;
            if a < i {
                assert(rows[a] == k);
            } else if a > i {
                assert(rows[a - 1] == k);
            }
        }
        if k == key {
            assert(out[i] == k);
        } else if rows.contains(k) {
            let a = choose|a: int| 0 <= a < rows.len() && rows[a] == k;
            if a < i {
                assert(out[a] == k);
            } else {
                assert(out[a + 1] == k);
            }
        }
    }
}

proof fn sorted_without(rows: Seq<Seq<u8>>, i: int)
    requires
        strictly_sorted(rows),
        0 <= i < rows.len(),
    ensures
        strictly_sorted(rows.remove(i)),
        forall|k: Seq<u8>| #[trigger]
            rows.remove(i).contains(k) <==> k != rows[i] && rows.contains(k),
{
    let out = rows.remove(i);
    assert forall|a: int, b: int| 0 <= a < b < out.len() implies precedes(
        #[trigger] out[a],
        #[trigger] out[b],
    ) by {
        let x = if a < i { a } else { a + 1 };
        let y = if b < i { b } else { b + 1 };
        assert(out[a] == rows[x]);
        assert(out[b] == rows[y]);
    }
    assert forall|k: Seq<u8>| #[trigger] out.contains(k) <==> k != rows[i] && rows.contains(k) by {
        if out.contains(k) {
            let a = choose|a: int| 0 <= a < out.len() && out[a] == k;
            let x = if a < i { a } else { a + 1 };
            assert(rows[x] == k);
            precedes_irreflexive(k);
            if x < i {
                assert(precedes(rows[x], rows[i]));
            } else {
                assert(precedes(rows[i], rows[x]));
            }
        }
        if k != rows[i] && rows.contains(k) {
            let a = choose|a: int| 0 <= a < rows.len() && rows[a] == k;
            if a < i {
                assert(out[a] == k);
            } else {
                assert(out[a - 1] == k);
            }
        }
    }
}

/// How many findings the budget kept out, over all roots.
pub open spec fn omitted_rows(limited: Seq<Limited>) -> int
    decreases limited.len(),
{
    if limited.len() == 0 {
        0
    } else {
        omitted_rows(limited.drop_last()) + limited.last().rows
    }
}

/// How many bytes the budget kept out, over all roots.
pub open spec fn omitted_bytes(limited: Seq<Limited>) -> int
    decreases limited.len(),
{
    if limited.len() == 0 {
        0
    } else {
        omitted_bytes(limited.drop_last()) + limited.last().bytes
    }
}

/// What is said while locations lack a complete pass.
pub open spec fn open_message(count: nat, entries: u64) -> Seq<char> {
    digits(count) + " authorized location(s) still need complete reconciliation. "@ + digits(
        entries as nat,
    ) + " entries checked in the latest pass."@
}

/// What is said while the budget keeps findings out.
pub open spec fn limit_message(subject: Seq<char>, rows: int, bytes: int) -> Seq<char> {
    subject + digits(capped(rows) as nat) + " observations / "@ + digits(capped(bytes) as nat)
        + " payload bytes omitted); complete reconciliation is required."@
}

/// Whether counters are the same but for the completeness and the message.
pub open spec fn recounted(before: ScanStats, after: ScanStats) -> bool {
    after == (ScanStats { complete: after.complete, message: after.message, ..before })
}

fn limit_text(subject: &str, rows: u64, bytes: u64) -> (r: String)
    ensures
        r@ == subject@ + digits(rows as nat) + " observations / "@ + digits(bytes as nat)
            + " payload bytes omitted); complete reconciliation is required."@,
{
    let mut out: String = joined3(subject, decimal(rows).as_str(), " observations / ");
    out.append(decimal(bytes).as_str());
    out.append(" payload bytes omitted); complete reconciliation is required.");
    out
}

impl Store {
    /// Open coverage and omitted findings take completeness away, and say so
    /// unless the scan was cancelled.
    pub fn apply_coverage(&self, stats: &mut ScanStats)
        ensures
            recounted(*old(stats), *final(stats)),
            ({
                let open = self.journal.incomplete@.len();
                let limited = self.index.limited@;
                &&& final(stats).complete == (old(stats).complete && open == 0 && limited.len() == 0)
                &&& final(stats).message@ == if old(stats).cancelled || (open == 0 && limited.len()
                    == 0) {
                    old(stats).message@
                } else if limited.len() > 0 {
                    limit_message(
                        "Derived findings are storage-limited ("@,
                        omitted_rows(limited),
                        omitted_bytes(limited),
                    )
                } else {
                    open_message(open, old(stats).entries)
                }
            }),
    {
        let count: usize = self.journal.incomplete.len();
        if count > 0 {
            stats.complete = false;
            if !stats.cancelled {
                let mut text: String = joined(
                    decimal(count as u64).as_str(),
                    " authorized location(s) still need complete reconciliation. ",
                );
                text.append(decimal(stats.entries).as_str());
                text.append(" entries checked in the latest pass.");
                stats.message = text;
            }
        }
        if self.index.limited.len() > 0 {
            let mut rows: u64 = 0;
            let mut bytes: u64 = 0;
            let mut i: usize = 0;
            let ghost all = self.index.limited@;
            while i < self.index.limited.len()
                invariant
                    i <= self.index.limited.len(),
                    all == self.index.limited@,
                    rows == capped(omitted_rows(all.take(i as int))),
                    bytes == capped(omitted_bytes(all.take(i as int))),
                    0 <= omitted_rows(all.take(i as int)),
                    0 <= omitted_bytes(all.take(i as int)),
                decreases self.index.limited.len() - i,
            {
                proof {
                    assert(all.take(i + 1).drop_last() =~= all.take(i as int));
                    assert(all.take(i + 1).last() == all[i as int]);
                }
                rows = rows.saturating_add(self.index.limited[i].rows);
                bytes = bytes.saturating_add(self.index.limited[i].bytes);
                i = i + 1;
            }
            assert(all.take(i as int) =~= all);
            stats.complete = false;
            if !stats.cancelled {
                stats.message = limit_text("Derived findings are storage-limited (", rows, bytes);
            }
        }
    }

    /// A storage-limited result cannot report complete findings. Ordinary
    /// root-wide incompleteness is overlaid only on the aggregate snapshot: an
    /// incremental scope can finish correctly while the rest of its root is
    /// still awaiting reconciliation.
    pub fn apply_root_coverage(&self, root: &str, stats: &mut ScanStats)
        requires
            self.wf(),
        ensures
            recounted(*old(stats), *final(stats)),
            if exists|i: int|
                0 <= i < self.index.limited@.len() && (#[trigger] self.index.limited@[i]).root_id@
                    == root@ {
                let i = choose|i: int|
                    0 <= i < self.index.limited@.len() && (
                    #[trigger] self.index.limited@[i]).root_id@ == root@;
                &&& !final(stats).complete
                &&& final(stats).message@ == if old(stats).cancelled {
                    old(stats).message@
                } else {
                    limit_message(
                        "Derived findings are storage-limited for "@ + root@ + " ("@,
                        self.index.limited@[i].rows as int,
                        self.index.limited@[i].bytes as int,
                    )
                }
            } else {
                *final(stats) == *old(stats)
            },
    {
        let mut i: usize = 0;
        while i < self.index.limited.len()
            invariant
                i <= self.index.limited.len(),
                self.wf(),
                *stats == *old(stats),
                forall|j: int|
                    0 <= j < i ==> (#[trigger] self.index.limited@[j]).root_id@ != root@,
            decreases self.index.limited.len() - i,
        {
            if same_text(self.index.limited[i].root_id.as_str(), root) {
                proof {
                    let list = self.index.limited@;
                    let c = choose|c: int|
                        0 <= c < list.len() && (#[trigger] list[c]).root_id@ == root@;
                    assert(list[i as int].root_id@ == root@);
                    if c < i {
                        assert(list[c].root_id@ != root@);
                    } else if i < c {
                        assert(list[i as int].root_id@ != list[c].root_id@);
                    }
                }
                stats.complete = false;
                if !stats.cancelled {
                    let subject: String = joined3(
                        "Derived findings are storage-limited for ",
                        root,
                        " (",
                    );
                    stats.message = limit_text(
                        subject.as_str(),
                        self.index.limited[i].rows,
                        self.index.limited[i].bytes,
                    );
                }
                return ;
            }
            i = i + 1;
        }
    }

    /// Whether a root still needs a complete pass.
    pub fn incomplete(&self, root: &str) -> (r: bool)
        ensures
            r == self.journal.needs_pass(root@),
    {
        self.journal.lacks_coverage(root)
    }

    /// The counters of the last scan, with what coverage says of them.
    pub fn latest_stats(&self) -> (r: ScanStats)
        ensures
            ({
                let open = self.journal.incomplete@.len();
                let limited = self.index.limited@;
                &&& if self.scans@.len() == 0 {
                    r.blank()
                } else {
                    recounted(self.scans@.last().stats, r) && r.complete == (
                    self.scans@.last().stats.complete && open == 0 && limited.len() == 0)
                }
                &&& r.message@ == if r.cancelled || (open == 0 && limited.len() == 0) {
                    if self.scans@.len() == 0 {
                        seq![]
                    } else {
                        self.scans@.last().stats.message@
                    }
                } else if limited.len() > 0 {
                    limit_message(
                        "Derived findings are storage-limited ("@,
                        omitted_rows(limited),
                        omitted_bytes(limited),
                    )
                } else {
                    open_message(open, r.entries)
                }
            }),
    {
        let n: usize = self.scans.len();
        let mut stats: ScanStats = if n == 0 {
            ScanStats::new()
        } else {
            self.scans[n - 1].stats.copy()
        };
        self.apply_coverage(&mut stats);
        stats
    }
}

} // verus!
