//! What a session hands out, and when.
use crate::model::{Candidate, ScanBatch, ScanStats};
use crate::paths::FsPath;
use crate::sightings::{sightings, Bulletin, Counters, Sighting};
use vstd::prelude::*;

verus! {

/// How many findings a batch holds at most.
pub const MAX_BATCH: usize = 64;

/// What a session tells its owner.
pub enum Notice {
    Batch(ScanBatch),
    /// A recently changed file was found in an artifact; look there first next
    /// time.
    Remember(FsPath, FsPath),
    /// What was remembered of an artifact no longer holds.
    Forget(FsPath),
}

/// The same, as a value to reason about.
#[verifier::ext_equal]
pub enum News {
    Batch(Bulletin),
    Remember(Seq<u8>, Seq<u8>),
    Forget(Seq<u8>),
}

impl View for Notice {
    type V = News;

    open spec fn view(&self) -> News {
        match self {
            Notice::Batch(batch) => News::Batch(batch@),
            Notice::Remember(artifact, leaf) => News::Remember(artifact@, leaf@),
            Notice::Forget(artifact) => News::Forget(artifact@),
        }
    }
}

/// Findings that wait for their batch, whether the time for one has come, and
/// what was handed out and not yet taken.
pub struct Publisher {
    pub queued: Vec<Candidate>,
    pub due: bool,
    pub outbox: Vec<Notice>,
}

/// The same, as a value to reason about.
#[verifier::ext_equal]
pub struct Press {
    pub queued: Seq<Sighting>,
    pub due: bool,
    pub outbox: Seq<News>,
}

impl View for Publisher {
    type V = Press;

    open spec fn view(&self) -> Press {
        Press {
            queued: sightings(self.queued@),
            due: self.due,
            outbox: self.outbox@.map_values(|n: Notice| n@),
        }
    }
}

impl Press {
    /// Everything that waits goes out now.
    pub open spec fn flush(self, stats: Counters) -> Press {
        Press {
            queued: seq![],
            due: false,
            outbox: self.outbox.push(
                News::Batch(Bulletin { candidates: self.queued, stats }),
            ),
        }
    }

    /// One more finding waits; it goes out at once where it must, where the batch
    /// is full, or where the time has come.
    pub open spec fn queue(self, candidate: Sighting, stats: Counters, force: bool) -> Press {
        let more = Press { queued: self.queued.push(candidate), ..self };
        if force || more.queued.len() >= MAX_BATCH || self.due {
            more.flush(stats)
        } else {
            more
        }
    }

    pub open spec fn tell(self, news: News) -> Press {
        Press { outbox: self.outbox.push(news), ..self }
    }
}

impl Publisher {
    pub fn new() -> (r: Publisher)
        ensures
            r@ == (Press { queued: seq![], due: false, outbox: seq![] }),
    {
        let r: Publisher = Publisher { queued: Vec::new(), due: false, outbox: Vec::new() };
        assert(r@ =~= (Press { queued: seq![], due: false, outbox: seq![] }));
        r
    }

    pub fn tell(&mut self, notice: Notice)
        ensures
            final(self)@ == old(self)@.tell(notice@),
    {
        let ghost before = self@;
        self.outbox.push(notice);
        assert(self@.outbox =~= before.outbox.push(notice@));
    }

    /// Hands out everything that waits, with the counters of this moment.
    pub fn flush(&mut self, stats: &ScanStats)
        ensures
            final(self)@ == old(self)@.flush(stats@),
    {
        let ghost before = self@;
        let mut candidates: Vec<Candidate> = Vec::new();
        std::mem::swap(&mut candidates, &mut self.queued);
        self.due = false;
        let batch: ScanBatch = ScanBatch { candidates, stats: stats.copy() };
        let ghost sent = batch@;
        self.tell(Notice::Batch(batch));
        assert(sent =~= (Bulletin { candidates: before.queued, stats: stats@ }));
        assert(self@.queued =~= seq![]);
        assert(self@ =~= before.flush(stats@));
    }

    /// Queues a finding.
    pub fn queue(&mut self, candidate: Candidate, stats: &ScanStats, force: bool)
        ensures
            final(self)@ == old(self)@.queue(candidate@, stats@, force),
    {
        let ghost before = self@;
        self.queued.push(candidate);
        assert(self@.queued =~= before.queued.push(candidate@));
        if force || self.queued.len() >= MAX_BATCH || self.due {
            self.flush(stats);
        }
    }

    /// Takes what was handed out.
    pub fn take(&mut self) -> (r: Vec<Notice>)
        ensures
            r@.map_values(|n: Notice| n@) == old(self)@.outbox,
            final(self)@ == (Press { outbox: seq![], ..old(self)@ }),
    {
        let mut out: Vec<Notice> = Vec::new();
        std::mem::swap(&mut out, &mut self.outbox);
        assert(self@.outbox =~= seq![]);
        out
    }
}

/// No more than one batch of findings ever waits.
pub proof fn batches_stay_small(press: Press, candidate: Sighting, stats: Counters, force: bool)
    requires
        press.queued.len() < MAX_BATCH,
    ensures
        press.queue(candidate, stats, force).queued.len() < MAX_BATCH,
        press.queue(candidate, stats, force).outbox.len() <= press.outbox.len() + 1,
        forall|i: int|
            press.outbox.len() <= i < press.queue(candidate, stats, force).outbox.len() ==> (
            #[trigger] press.queue(candidate, stats, force).outbox[i] matches News::Batch(batch)
                && batch.candidates == press.queued.push(candidate)),
{
}

} // verus!
