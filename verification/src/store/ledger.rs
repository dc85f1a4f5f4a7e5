//! Cleanups and their rewards.
use crate::model::{copy_text, Candidate, Identity, Receipt, Root, Wallet};
use crate::store::{
    no_row, pending_coins, Earning, Ledger, Operation, Store, Totals, Window,
};
use crate::tables::{filter_push, filter_rows, push_unique, unique};
use crate::text::{fail, failed, joined3, same_text};
use vstd::prelude::*;

verus! {

/// How many receipts the short history holds.
pub const HISTORY_ROWS: usize = 100;

proof fn pending_bounds(earnings: Seq<Earning>, n: int)
    requires
        0 <= n <= earnings.len(),
    ensures
        0 <= pending_coins(earnings.take(n)) <= pending_coins(earnings),
    decreases earnings.len(),
{
    if n == earnings.len() {
        assert(earnings.take(n) =~= earnings);
        if n > 0 {
            pending_bounds(earnings.drop_last(), n - 1);
        }
    } else {
        pending_bounds(earnings.drop_last(), n);
        assert(earnings.drop_last().take(n) =~= earnings.take(n));
    }
}

/// The earnings with every coin collected.
pub open spec fn all_collected(before: Seq<Earning>, after: Seq<Earning>) -> bool {
    &&& after.len() == before.len()
    &&& forall|i: int|
        0 <= i < before.len() ==> #[trigger] after[i] == (Earning { collected: true, ..before[i] })
}

/// Nothing waits once everything is collected.
pub proof fn collected_leaves_nothing(before: Seq<Earning>, after: Seq<Earning>)
    requires
        all_collected(before, after),
    ensures
        pending_coins(after) == 0,
    decreases after.len(),
{
    if after.len() > 0 {
        let last = after[after.len() - 1];
        assert(last.collected);
        assert forall|i: int| 0 <= i < before.len() - 1 implies #[trigger] after.drop_last()[i] == (
        Earning { collected: true, ..before.drop_last()[i] }) by {
            assert(after[i] == (Earning { collected: true, ..before[i] }));
        }
        collected_leaves_nothing(before.drop_last(), after.drop_last());
    }
}

impl Ledger {
    fn pending(&self) -> (r: u64)
        requires
            self.wf(),
        ensures
            r == pending_coins(self.earnings@),
    {
        let ghost all = self.earnings@;
        let mut total: u64 = 0;
        let mut i: usize = 0;
        while i < self.earnings.len()
            invariant
                i <= self.earnings.len(),
                self.wf(),
                all == self.earnings@,
                total == pending_coins(all.take(i as int)),
            decreases self.earnings.len() - i,
        {
            proof {
                assert(all.take(i + 1).drop_last() =~= all.take(i as int));
                assert(all.take(i + 1).last() == all[i as int]);
                pending_bounds(all, i + 1);
            }
            if !self.earnings[i].collected {
                total = total + self.earnings[i].coins;
            }
            i = i + 1;
        }
        assert(all.take(i as int) =~= all);
        total
    }
}

impl Store {
    /// The wallet: what was collected and credited, and what waits.
    pub fn wallet(&self) -> (r: Wallet)
        requires
            self.wf(),
        ensures
            r.collected_coins == self.ledger.totals.collected,
            r.fractional_bytes == self.ledger.totals.remainder,
            r.credited_bytes == self.ledger.totals.credited,
            r.pending_coins == pending_coins(self.ledger.earnings@),
    {
        Wallet {
            collected_coins: self.ledger.totals.collected,
            fractional_bytes: self.ledger.totals.remainder,
            credited_bytes: self.ledger.totals.credited,
            pending_coins: self.ledger.pending(),
        }
    }

    /// Collect every coin that waits: the collected coins before and after, and
    /// how many came.
    pub fn collect(&mut self) -> (r: (u64, u64, u64))
        requires
            old(self).wf(),
        ensures
            final(self).wf(),
            r.0 == old(self).ledger.totals.collected,
            r.2 == pending_coins(old(self).ledger.earnings@),
            r.1 == r.0 + r.2,
            if r.2 == 0 {
                *final(self) == *old(self)
            } else {
                &&& all_collected(old(self).ledger.earnings@, final(self).ledger.earnings@)
                &&& *final(self) == (Store {
                    ledger: Ledger {
                        earnings: final(self).ledger.earnings,
                        totals: Totals { collected: r.1, ..old(self).ledger.totals },
                        ..old(self).ledger
                    },
                    ..*old(self)
                })
            },
    {
        let before: u64 = self.ledger.totals.collected;
        let pending: u64 = self.ledger.pending();
        if pending == 0 {
            return (before, before, 0);
        }
        let ghost start = self.ledger.earnings@;
        let mut i: usize = 0;
        while i < self.ledger.earnings.len()
            invariant
                i <= self.ledger.earnings.len(),
                start == old(self).ledger.earnings@,
                self.ledger.earnings@.len() == start.len(),
                forall|j: int|
                    0 <= j < i ==> #[trigger] self.ledger.earnings@[j] == (Earning {
                        collected: true,
                        ..start[j]
                    }),
                forall|j: int| i <= j < start.len() ==> self.ledger.earnings@[j] == start[j],
                *self == (Store {
                    ledger: Ledger { earnings: self.ledger.earnings, ..old(self).ledger },
                    ..*old(self)
                }),
            decreases self.ledger.earnings.len() - i,
        {
            let row: Earning = Earning {
                operation_id: self.ledger.earnings[i].operation_id.clone(),
                coins: self.ledger.earnings[i].coins,
                collected: true,
            };
            self.ledger.earnings.set(i, row);
            i = i + 1;
        }
        self.ledger.totals = Totals {
            collected: before + pending,
            remainder: self.ledger.totals.remainder,
            credited: self.ledger.totals.credited,
        };
        proof {
            collected_leaves_nothing(start, self.ledger.earnings@);
        }
        (before, before + pending, pending)
    }
}

/// Whether an operation is older than a cursor.
pub open spec fn older(before: Option<i64>) -> spec_fn(Operation) -> bool {
    |o: Operation| before matches Some(cursor) ==> o.seq < cursor
}

/// The last rows of a list, the newest first.
pub open spec fn newest(rows: Seq<Operation>, limit: int) -> Seq<Operation> {
    let all = rows.reverse();
    if all.len() > limit {
        all.take(limit)
    } else {
        all
    }
}

impl Store {
    /// The latest receipts, newest first.
    pub fn history(&self) -> (r: Vec<Receipt>)
        ensures
            r@ == newest(self.ledger.operations@, HISTORY_ROWS as int).map_values(
                |o: Operation| o.receipt,
            ),
    {
        let ghost all = self.ledger.operations@;
        let mut out: Vec<Receipt> = Vec::new();
        let mut i: usize = self.ledger.operations.len();
        while i > 0 && out.len() < HISTORY_ROWS
            invariant
                i <= self.ledger.operations.len(),
                all == self.ledger.operations@,
                out@.len() == all.len() - i,
                out@.len() <= HISTORY_ROWS,
                forall|k: int|
                    0 <= k < out@.len() ==> #[trigger] out@[k] == all[all.len() - 1 - k].receipt,
            decreases i,
        {
            i = i - 1;
            out.push(self.ledger.operations[i].receipt.copy());
        }
        assert(out@ =~= newest(all, HISTORY_ROWS as int).map_values(|o: Operation| o.receipt));
        out
    }

    /// One page of receipts, newest first, each carrying its ledger sequence,
    /// plus the cursor for the next-older page and the ledger's total count.
    #[verifier::rlimit(60)]
    pub fn history_page(&self, before: Option<i64>, limit: u32) -> (r: (
        Vec<Receipt>,
        Option<i64>,
        u64,
    ))
        requires
            self.wf(),
        ensures
            ({
                let page = newest(self.ledger.operations@.filter(older(before)), limit as int);
                &&& r.0@.len() == page.len()
                &&& forall|i: int|
                    0 <= i < page.len() ==> #[trigger] r.0@[i] == (Receipt {
                        seq: Some(page[i].seq),
                        ..page[i].receipt
                    })
                // A short page proves the ledger's oldest receipt was reached.
                &&& r.1 == if page.len() == limit && limit > 0 {
                    Some(page.last().seq)
                } else {
                    None
                }
            }),
            r.2 == self.ledger.operations@.len(),
    {
        let ghost all = self.ledger.operations@;
        let ghost test = older(before);
        let mut end: usize = self.ledger.operations.len();
        // Sequence numbers grow, so the rows that are too new stand at the end.
        let cursor: i128 = match before {
            Some(cursor) => cursor as i128,
            None => i64::MAX as i128 + 1,
        };
        while end > 0 && self.ledger.operations[end - 1].seq as i128 >= cursor
            invariant
                cursor == match before {
                    Some(cursor) => cursor as int,
                    None => i64::MAX + 1,
                },
                end <= self.ledger.operations.len(),
                all == self.ledger.operations@,
                forall|k: int|
                    end <= k < all.len() ==> !older(before)(#[trigger] all[k]),
            decreases end,
        {
            end = end - 1;
        }
        proof {
            let kept = all.take(end as int);
            assert forall|k: int| 0 <= k < kept.len() implies test(#[trigger] kept[k]) by {
                assert(kept[k] == all[k]);
                if k < end - 1 {
                    assert(all[k].seq < all[end - 1].seq);
                }
            }
            crate::tables::filter_all(kept, test);
            let gone = all.skip(end as int);
            assert forall|k: int| 0 <= k < gone.len() implies !test(#[trigger] gone[k]) by {
                assert(gone[k] == all[end + k]);
            }
            crate::tables::filter_none(gone, test);
            crate::tables::filter_add(kept, gone, test);
            assert(all =~= kept + gone);
            assert(all.filter(test) =~= kept);
        }
        let ghost page = newest(all.filter(test), limit as int);
        let mut out: Vec<Receipt> = Vec::new();
        let mut oldest: Option<i64> = None;
        let mut i: usize = end;
        let most: usize = limit as usize;
        while i > 0 && out.len() < most
            invariant
                i <= end <= self.ledger.operations.len(),
                all == self.ledger.operations@,
                out@.len() == end - i,
                out@.len() <= most,
                forall|k: int|
                    0 <= k < out@.len() ==> #[trigger] out@[k] == (Receipt {
                        seq: Some(all[end - 1 - k].seq),
                        ..all[end - 1 - k].receipt
                    }),
                oldest == if out@.len() == 0 {
                    None
                } else {
                    Some(all[i as int].seq)
                },
            decreases i,
        {
            i = i - 1;
            let mut receipt: Receipt = self.ledger.operations[i].receipt.copy();
            receipt.seq = Some(self.ledger.operations[i].seq);
            oldest = Some(self.ledger.operations[i].seq);
            out.push(receipt);
        }
        let next: Option<i64> = if out.len() == most {
            oldest
        } else {
            None
        };
        proof {
            let kept = all.take(end as int);
            assert(kept.reverse().len() == end);
            assert forall|k: int| 0 <= k < page.len() implies page[k] == all[end - 1 - k] by {
                assert(kept.reverse()[k] == kept[end - 1 - k]);
            }
        }
        (out, next, self.ledger.operations.len() as u64)
    }
}


/// Following the cursor misses no receipt and repeats none: what a full page
/// does not show is exactly what the next cursor admits.
pub proof fn pages_meet(ledger: Ledger, before: Option<i64>, limit: int, o: Operation)
    requires
        ledger.wf(),
        limit > 0,
        newest(ledger.operations@.filter(older(before)), limit).len() == limit,
        ledger.operations@.filter(older(before)).contains(o),
    ensures
        newest(ledger.operations@.filter(older(before)), limit).contains(o)
            != ledger.operations@.filter(
            older(Some(newest(ledger.operations@.filter(older(before)), limit).last().seq)),
        ).contains(o),
{
    let all = ledger.operations@;
    let rows = all.filter(older(before));
    let page = newest(rows, limit);
    let cursor = page.last().seq;
    crate::tables::filter_holds(all, older(before));
    crate::tables::filter_holds(all, older(Some(cursor)));
    grows_filtered(all, older(before));
    let n = rows.len() as int;
    let k = choose|k: int| 0 <= k < rows.len() && rows[k] == o;
    assert(page[limit - 1] == rows.reverse()[limit - 1]);
    assert(page.last() == rows[n - limit]);
    if k >= n - limit {
        assert(rows.reverse()[n - 1 - k] == o);
        assert(page[n - 1 - k] == o);
        assert(page.contains(o));
        if k > n - limit {
            assert(rows[n - limit].seq < rows[k].seq);
        }
        assert(!older(Some(cursor))(o));
    } else {
        assert(rows[k].seq < rows[n - limit].seq);
        assert(older(Some(cursor))(o));
        if page.contains(o) {
            let m = choose|m: int| 0 <= m < page.len() && page[m] == o;
            assert(page[m] == rows.reverse()[m]);
            assert(rows[n - 1 - m] == o);
            assert(rows[k].seq < rows[n - 1 - m].seq);
        }
    }
}

/// What holds of a list exactly up to a place keeps the list up to there.
proof fn filter_is_a_prefix(rows: Seq<Operation>, test: spec_fn(Operation) -> bool, m: int)
    requires
        0 <= m <= rows.len(),
        forall|i: int| 0 <= i < m ==> test(#[trigger] rows[i]),
        forall|i: int| m <= i < rows.len() ==> !test(#[trigger] rows[i]),
    ensures
        rows.filter(test) == rows.take(m),
{
    let kept = rows.take(m);
    let gone = rows.skip(m);
    assert forall|k: int| 0 <= k < kept.len() implies test(#[trigger] kept[k]) by {
        assert(kept[k] == rows[k]);
    }
    assert forall|k: int| 0 <= k < gone.len() implies !test(#[trigger] gone[k]) by {
        assert(gone[k] == rows[m + k]);
    }
    crate::tables::filter_all(kept, test);
    crate::tables::filter_none(gone, test);
    crate::tables::filter_add(kept, gone, test);
    assert(rows =~= kept + gone);
    assert(kept + Seq::<Operation>::empty() =~= kept);
}

/// Whether pages were asked for one after the other, from the newest on, each
/// with the cursor of the one before, until a page was not full.
pub open spec fn paged(
    ledger: Ledger,
    limit: int,
    pages: Seq<Seq<Operation>>,
    cursors: Seq<Option<i64>>,
) -> bool {
    &&& pages.len() > 0
    &&& cursors.len() == pages.len()
    &&& cursors[0] is None
    &&& forall|i: int|
        0 <= i < pages.len() ==> #[trigger] pages[i] == newest(
            ledger.operations@.filter(older(cursors[i])),
            limit,
        )
    &&& forall|i: int|
        0 <= i < pages.len() - 1 ==> (#[trigger] pages[i]).len() == limit && cursors[i + 1] == Some(
            pages[i].last().seq,
        )
    &&& pages.last().len() < limit
}

proof fn pages_from(
    ledger: Ledger,
    limit: int,
    pages: Seq<Seq<Operation>>,
    cursors: Seq<Option<i64>>,
    i: int,
    m: int,
)
    requires
        ledger.wf(),
        limit > 0,
        paged(ledger, limit, pages, cursors),
        0 <= i < pages.len(),
        0 <= m <= ledger.operations@.len(),
        ledger.operations@.filter(older(cursors[i])) == ledger.operations@.take(m),
    ensures
        pages.skip(i).flatten() == ledger.operations@.take(m).reverse(),
    decreases pages.len() - i,
{
    let all = ledger.operations@;
    let rows = all.take(m);
    let page = newest(rows, limit);
    let rest = pages.skip(i);
    assert(pages[i] == page);
    assert(rest.first() == page);
    assert(rest.drop_first() =~= pages.skip(i + 1));
    reveal_with_fuel(Seq::flatten, 2);
    if i == pages.len() - 1 {
        assert(page.len() < limit);
        assert(page =~= rows.reverse());
        assert(pages.skip(i + 1) =~= Seq::<Seq<Operation>>::empty());
        assert(rest.flatten() =~= page);
    } else {
        assert(page.len() == limit);
        let next = m - limit;
        assert(page.last() == rows.reverse()[limit - 1]);
        assert(page.last() == all[next]);
        let cursor = all[next].seq;
        assert(cursors[i + 1] == Some(cursor));
        let test = older(Some(cursor));
        assert forall|k: int| 0 <= k < next implies test(#[trigger] all[k]) by {
            assert(all[k].seq < all[next].seq);
        }
        assert forall|k: int| next <= k < all.len() implies !test(#[trigger] all[k]) by {
            if next < k {
                assert(all[next].seq < all[k].seq);
            }
        }
        filter_is_a_prefix(all, test, next);
        pages_from(ledger, limit, pages, cursors, i + 1, next);
        assert(rest.flatten() == page + pages.skip(i + 1).flatten());
        assert(page + all.take(next).reverse() =~= rows.reverse());
    }
}

/// All pages together are the whole history: every receipt once, the newest
/// first, with falling sequence numbers, and as many as there are in all.
pub proof fn the_pages_are_the_history(
    ledger: Ledger,
    limit: int,
    pages: Seq<Seq<Operation>>,
    cursors: Seq<Option<i64>>,
)
    requires
        ledger.wf(),
        limit > 0,
        paged(ledger, limit, pages, cursors),
    ensures
        pages.flatten() == ledger.operations@.reverse(),
        pages.flatten().len() == ledger.operations@.len(),
        forall|i: int, j: int|
            0 <= i < j < pages.flatten().len() ==> (#[trigger] pages.flatten()[i]).seq > (
            #[trigger] pages.flatten()[j]).seq,
{
    let all = ledger.operations@;
    filter_is_a_prefix(all, older(None), all.len() as int);
    assert(all.take(all.len() as int) =~= all);
    pages_from(ledger, limit, pages, cursors, 0, all.len() as int);
    assert(pages.skip(0) =~= pages);
    let out = all.reverse();
    assert forall|i: int, j: int| 0 <= i < j < out.len() implies (#[trigger] out[i]).seq > (
    #[trigger] out[j]).seq by {
        assert(all[all.len() - 1 - j].seq < all[all.len() - 1 - i].seq);
    }
}

proof fn grows_filtered(rows: Seq<Operation>, test: spec_fn(Operation) -> bool)
    requires
        forall|i: int, j: int|
            0 <= i < j < rows.len() ==> (#[trigger] rows[i]).seq < (#[trigger] rows[j]).seq,
    ensures
        forall|i: int, j: int|
            0 <= i < j < rows.filter(test).len() ==> (#[trigger] rows.filter(test)[i]).seq < (
            #[trigger] rows.filter(test)[j]).seq,
    decreases rows.len(),
{
    reveal(Seq::filter);
    if rows.len() > 0 {
        let front = rows.drop_last();
        let last = rows.last();
        assert forall|i: int, j: int| 0 <= i < j < front.len() implies (#[trigger] front[i]).seq < (
        #[trigger] front[j]).seq by {
            assert(rows[i].seq < rows[j].seq);
        }
        grows_filtered(front, test);
        filter_rows(front, test);
        assert(rows =~= front.push(last));
        filter_push(front, last, test);
        let out = rows.filter(test);
        let kept = front.filter(test);
        assert forall|i: int, j: int| 0 <= i < j < out.len() implies (#[trigger] out[i]).seq < (
        #[trigger] out[j]).seq by {
            assert(out[i] == kept[i]);
            if j < kept.len() {
                assert(out[j] == kept[j]);
            } else {
                let w = choose|w: int| 0 <= w < front.len() && front[w] == kept[i];
                assert(rows[w].seq < rows[rows.len() - 1].seq);
            }
        }
    }
}

/// Whether the operation at `i` has an id.
pub open spec fn operation_at(rows: Seq<Operation>, id: Seq<char>, i: int) -> bool {
    0 <= i < rows.len() && rows[i].id@ == id
}

/// What is known of a cleanup.
pub type StoredOperation = (Root, Candidate, Receipt, Option<Identity>, Option<String>);

impl Store {
    /// Where the operation with an id stands.
    fn find_operation(&self, id: &str) -> (r: Option<usize>)
        ensures
            match r {
                Some(i) => operation_at(self.ledger.operations@, id@, i as int),
                None => forall|i: int|
                    !#[trigger] operation_at(self.ledger.operations@, id@, i),
            },
    {
        let mut i: usize = 0;
        while i < self.ledger.operations.len()
            invariant
                i <= self.ledger.operations.len(),
                forall|j: int|
                    0 <= j < i ==> !#[trigger] operation_at(self.ledger.operations@, id@, j),
            decreases self.ledger.operations.len() - i,
        {
            if same_text(self.ledger.operations[i].id.as_str(), id) {
                return Some(i);
            }
            i = i + 1;
        }
        None
    }

    /// Record a cleanup before it changes anything. The path of the staged item
    /// is recorded as text.
    pub fn prepare_operation(
        &mut self,
        root: &Root,
        c: &Candidate,
        receipt: &Receipt,
        stage: &str,
    ) -> (r: Result<(), String>)
        requires
            old(self).wf(),
        ensures
            final(self).wf(),
            if exists|i: int| #[trigger]
                operation_at(old(self).ledger.operations@, receipt.id@, i) {
                failed(r, "UNIQUE constraint failed: operations.id"@) && *final(self) == *old(self)
            } else if old(self).ledger.operations@.len() > 0
                && old(self).ledger.operations@.last().seq == i64::MAX {
                failed(r, "database or disk is full"@) && *final(self) == *old(self)
            } else {
                let rows = final(self).ledger.operations@;
                &&& r is Ok
                &&& rows.len() == old(self).ledger.operations@.len() + 1
                &&& rows.drop_last() == old(self).ledger.operations@
                &&& rows.last().seq == if rows.len() == 1 {
                    1
                } else {
                    old(self).ledger.operations@.last().seq + 1
                }
                &&& rows.last().id@ == receipt.id@
                &&& rows.last().root == *root
                &&& rows.last().candidate == *c
                &&& rows.last().receipt == *receipt
                &&& rows.last().stage_path matches Some(text) && text@ == stage@
                &&& rows.last().trash_identity is None
                &&& rows.last().state@ == "prepared"@
                &&& *final(self) == (Store {
                    ledger: Ledger {
                        operations: final(self).ledger.operations,
                        ..old(self).ledger
                    },
                    ..*old(self)
                })
            },
    {
        if self.find_operation(receipt.id.as_str()).is_some() {
            return fail("UNIQUE constraint failed: operations.id");
        }
        let ghost start = self.ledger.operations@;
        let n: usize = self.ledger.operations.len();
        let mut seq: i64 = 1;
        if n > 0 {
            let last: i64 = self.ledger.operations[n - 1].seq;
            if last == i64::MAX {
                return fail("database or disk is full");
            }
            seq = last + 1;
        }
        let row: Operation = Operation {
            seq,
            id: receipt.id.clone(),
            root: root.copy(),
            candidate: c.copy(),
            receipt: receipt.copy(),
            stage_path: Some(stage.to_owned()),
            trash_identity: None,
            state: "prepared".to_owned(),
        };
        let ghost added = row;
        self.ledger.operations.push(row);
        proof {
            assert forall|i: int| 0 <= i < start.len() implies (#[trigger] start[i]).id@
                != added.id@ by {
                assert(!operation_at(start, receipt.id@, i));
            }
            push_unique(start, added, |o: Operation| o.id@);
            let rows = self.ledger.operations@;
            assert forall|i: int, j: int| 0 <= i < j < rows.len() implies (#[trigger] rows[i]).seq
                < (#[trigger] rows[j]).seq by {
                if j == start.len() {
                    if i < start.len() - 1 {
                        assert(start[i].seq < start[start.len() - 1].seq);
                    }
                } else {
                    assert(start[i].seq < start[j].seq);
                }
            }
            assert(rows.drop_last() =~= start);
        }
        Ok(())
    }

    /// Record the durable result of a cleanup.
    pub fn finish_operation(&mut self, receipt: &Receipt, trash_identity: Option<Identity>)
        requires
            old(self).wf(),
        ensures
            final(self).wf(),
            final(self).ledger.operations@.len() == old(self).ledger.operations@.len(),
            forall|i: int|
                0 <= i < old(self).ledger.operations@.len() ==> if operation_at(
                    old(self).ledger.operations@,
                    receipt.id@,
                    i,
                ) {
                    #[trigger] final(self).ledger.operations@[i] == (Operation {
                        receipt: *receipt,
                        state: receipt.outcome,
                        trash_identity,
                        ..old(self).ledger.operations@[i]
                    })
                } else {
                    final(self).ledger.operations@[i] == old(self).ledger.operations@[i]
                },
            *final(self) == (Store {
                ledger: Ledger { operations: final(self).ledger.operations, ..old(self).ledger },
                ..*old(self)
            }),
    {
        let ghost start = self.ledger.operations@;
        match self.find_operation(receipt.id.as_str()) {
            None => {},
            Some(at) => {
                let was: &Operation = &self.ledger.operations[at];
                let row: Operation = Operation {
                    seq: was.seq,
                    id: was.id.clone(),
                    root: was.root.copy(),
                    candidate: was.candidate.copy(),
                    receipt: receipt.copy(),
                    stage_path: copy_text(&was.stage_path),
                    trash_identity,
                    state: receipt.outcome.clone(),
                };
                self.ledger.operations.set(at, row);
                proof {
                    same_rows(start, self.ledger.operations@);
                    assert forall|i: int|
                        0 <= i < start.len() && i != at implies !#[trigger] operation_at(
                        start,
                        receipt.id@,
                        i,
                    ) by {
                        if i < at {
                            assert(start[i].id@ != start[at as int].id@);
                        } else {
                            assert(start[at as int].id@ != start[i].id@);
                        }
                    }
                }
            },
        }
    }

    /// What is known of the cleanup with an id.
    pub fn operation(&self, id: &str) -> (r: Result<StoredOperation, String>)
        ensures
            match r {
                Ok(found) => exists|i: int| #[trigger]
                    operation_at(self.ledger.operations@, id@, i) && found == (
                        self.ledger.operations@[i].root,
                        self.ledger.operations@[i].candidate,
                        self.ledger.operations@[i].receipt,
                        self.ledger.operations@[i].trash_identity,
                        self.ledger.operations@[i].stage_path,
                    ),
                Err(_) => failed(r, no_row()) && forall|i: int|
                    !#[trigger] operation_at(self.ledger.operations@, id@, i),
            },
    {
        match self.find_operation(id) {
            Some(at) => {
                let row: &Operation = &self.ledger.operations[at];
                Ok(
                    (
                        row.root.copy(),
                        row.candidate.copy(),
                        row.receipt.copy(),
                        row.trash_identity,
                        copy_text(&row.stage_path),
                    ),
                )
            },
            None => fail("Query returned no rows"),
        }
    }
}

/// Rows that keep their ids and sequence numbers keep the ledger in order.
proof fn same_rows(before: Seq<Operation>, after: Seq<Operation>)
    requires
        before.len() == after.len(),
        forall|i: int, j: int|
            0 <= i < j < before.len() ==> (#[trigger] before[i]).seq < (#[trigger] before[j]).seq,
        unique(before, |o: Operation| o.id@),
        forall|i: int|
            0 <= i < before.len() ==> (#[trigger] after[i]).seq == before[i].seq && after[i].id
                == before[i].id,
    ensures
        forall|i: int, j: int|
            0 <= i < j < after.len() ==> (#[trigger] after[i]).seq < (#[trigger] after[j]).seq,
        unique(after, |o: Operation| o.id@),
{
    assert forall|i: int, j: int| 0 <= i < j < after.len() implies (#[trigger] after[i]).seq < (
    #[trigger] after[j]).seq && after[i].id@ != after[j].id@ by {
        assert(before[i].seq < before[j].seq);
        assert(before[i].id@ != before[j].id@);
    }
}

/// Whether a cleanup stopped before its result was durable.
pub open spec fn unfinished(state: Seq<char>) -> bool {
    state == "prepared"@ || state == "mutating"@ || state == "restoring"@
}

/// What an interrupted cleanup says.
pub open spec fn interruption(detail: Seq<char>, stage: Option<String>) -> Seq<char> {
    let base =
        "Interrupted before a durable result. No deletion was replayed and no space was credited. Inspect the original location before trying again."@;
    let told = if detail.len() == 0 {
        base
    } else {
        base + " "@ + detail
    };
    match stage {
        Some(path) => told + (" A staged item may remain at "@ + path@ + "."@),
        None => told,
    }
}

fn interruption_text(detail: &str, stage: &Option<String>) -> (r: String)
    ensures
        r@ == interruption(detail@, *stage),
{
    let base: &str =
        "Interrupted before a durable result. No deletion was replayed and no space was credited. Inspect the original location before trying again.";
    let mut out: String = if detail.is_empty() {
        base.to_owned()
    } else {
        joined3(base, " ", detail)
    };
    match stage {
        Some(path) => {
            out.append(joined3(" A staged item may remain at ", path.as_str(), ".").as_str());
        },
        None => {},
    }
    out
}

/// Whether an operation is what reconciliation makes of it: an unfinished one is
/// interrupted and cannot be restored, any other one stays.
pub open spec fn reconciled(before: Operation, after: Operation) -> bool {
    if unfinished(before.state@) {
        &&& after.receipt.outcome@ == "interrupted"@
        &&& after.receipt.detail@ == interruption(before.receipt.detail@, before.stage_path)
        &&& after.state@ == "interrupted"@
        &&& after == (Operation {
            receipt: Receipt {
                outcome: after.receipt.outcome,
                detail: after.receipt.detail,
                can_restore: false,
                ..before.receipt
            },
            state: after.state,
            ..before
        })
    } else {
        after == before
    }
}

/// Whether a window is what reconciliation makes of it: an open one is
/// interrupted.
pub open spec fn window_reconciled(before: Window, after: Window) -> bool {
    if before.state@ == "open"@ {
        after.state@ == "interrupted"@ && after == (Window { state: after.state, ..before })
    } else {
        after == before
    }
}

fn is_unfinished(state: &str) -> (r: bool)
    ensures
        r == unfinished(state@),
{
    same_text(state, "prepared") || same_text(state, "mutating") || same_text(state, "restoring")
}

impl Store {
    /// Settle what a crash left open. Never replay a filesystem mutation or
    /// invent a missing observation after a crash.
    pub fn reconcile(&mut self)
        requires
            old(self).wf(),
        ensures
            final(self).wf(),
            final(self).ledger.operations@.len() == old(self).ledger.operations@.len(),
            forall|i: int|
                0 <= i < old(self).ledger.operations@.len() ==> reconciled(
                    old(self).ledger.operations@[i],
                    #[trigger] final(self).ledger.operations@[i],
                ),
            final(self).ledger.windows@.len() == old(self).ledger.windows@.len(),
            forall|i: int|
                0 <= i < old(self).ledger.windows@.len() ==> window_reconciled(
                    old(self).ledger.windows@[i],
                    #[trigger] final(self).ledger.windows@[i],
                ),
            *final(self) == (Store {
                ledger: Ledger {
                    operations: final(self).ledger.operations,
                    windows: final(self).ledger.windows,
                    ..old(self).ledger
                },
                ..*old(self)
            }),
    {
        let ghost start = self.ledger;
        let mut i: usize = 0;
        while i < self.ledger.operations.len()
            invariant
                i <= self.ledger.operations.len(),
                start == old(self).ledger,
                self.ledger.operations@.len() == start.operations@.len(),
                forall|j: int|
                    0 <= j < i ==> reconciled(
                        start.operations@[j],
                        #[trigger] self.ledger.operations@[j],
                    ),
                forall|j: int|
                    i <= j < start.operations@.len() ==> self.ledger.operations@[j]
                        == start.operations@[j],
                *self == (Store {
                    ledger: Ledger { operations: self.ledger.operations, ..start },
                    ..*old(self)
                }),
            decreases self.ledger.operations.len() - i,
        {
            let was: &Operation = &self.ledger.operations[i];
            if is_unfinished(was.state.as_str()) {
                let mut receipt: Receipt = was.receipt.copy();
                receipt.outcome = "interrupted".to_owned();
                receipt.detail = interruption_text(was.receipt.detail.as_str(), &was.stage_path);
                receipt.can_restore = false;
                let row: Operation = Operation {
                    seq: was.seq,
                    id: was.id.clone(),
                    root: was.root.copy(),
                    candidate: was.candidate.copy(),
                    receipt,
                    stage_path: copy_text(&was.stage_path),
                    trash_identity: was.trash_identity,
                    state: "interrupted".to_owned(),
                };
                self.ledger.operations.set(i, row);
            }
            i = i + 1;
        }
        let mut k: usize = 0;
        while k < self.ledger.windows.len()
            invariant
                k <= self.ledger.windows.len(),
                start == old(self).ledger,
                self.ledger.operations@.len() == start.operations@.len(),
                forall|j: int|
                    0 <= j < start.operations@.len() ==> reconciled(
                        start.operations@[j],
                        #[trigger] self.ledger.operations@[j],
                    ),
                self.ledger.windows@.len() == start.windows@.len(),
                forall|j: int|
                    0 <= j < k ==> window_reconciled(
                        start.windows@[j],
                        #[trigger] self.ledger.windows@[j],
                    ),
                forall|j: int|
                    k <= j < start.windows@.len() ==> self.ledger.windows@[j] == start.windows@[j],
                *self == (Store {
                    ledger: Ledger {
                        operations: self.ledger.operations,
                        windows: self.ledger.windows,
                        ..start
                    },
                    ..*old(self)
                }),
            decreases self.ledger.windows.len() - k,
        {
            let was: &Window = &self.ledger.windows[k];
            if same_text(was.state.as_str(), "open") {
                let row: Window = Window {
                    id: was.id.clone(),
                    domain: was.domain.clone(),
                    state: "interrupted".to_owned(),
                };
                self.ledger.windows.set(k, row);
            }
            k = k + 1;
        }
        proof {
            same_rows(start.operations@, self.ledger.operations@);
        }
    }
}

/// Reconciling twice is reconciling once.
pub proof fn reconciling_settles(before: Operation, after: Operation, again: Operation)
    requires
        reconciled(before, after),
        reconciled(after, again),
    ensures
        again == after,
{
    reveal_strlit("interrupted");
    reveal_strlit("prepared");
    reveal_strlit("mutating");
    reveal_strlit("restoring");
    if unfinished(after.state@) {
        assert("interrupted"@.len() == 11);
        assert("restoring"@.len() == 9);
    }
}

/// Collecting moves coins and makes none: what was collected and what waits are
/// together as many as before, and a second collection finds nothing.
pub proof fn collecting_conserves(before: Ledger, after: Ledger, pending: int)
    requires
        pending == pending_coins(before.earnings@),
        all_collected(before.earnings@, after.earnings@),
        after.totals.collected == before.totals.collected + pending,
    ensures
        after.totals.collected + pending_coins(after.earnings@) == before.totals.collected
            + pending_coins(before.earnings@),
        pending_coins(after.earnings@) == 0,
{
    collected_leaves_nothing(before.earnings@, after.earnings@);
}

} // verus!
