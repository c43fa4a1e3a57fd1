//! Admission of entry walks under a concurrency cap.
//!
//! Entries are numbered `0 .. entries` and admitted in that order, at most
//! `cap` at a time; each completion frees one place.

use vstd::prelude::*;

verus! {

/// The counters of a schedule.
pub struct ScheduleState {
    pub entries: nat,
    pub cap: nat,
    /// The number of entries admitted so far; the next one has this index.
    pub next: nat,
    /// Admitted entries whose walk has not completed.
    pub in_flight: nat,
}

/// The counters are consistent and the cap is kept.
pub open spec fn consistent(s: ScheduleState) -> bool {
    &&& s.cap >= 1
    &&& s.next <= s.entries
    &&& s.in_flight <= s.next
    &&& s.in_flight <= s.cap
}

/// Whether a free place and a waiting entry both exist.
pub open spec fn can_admit(s: ScheduleState) -> bool {
    s.in_flight < s.cap && s.next < s.entries
}

pub open spec fn admit_step(s: ScheduleState) -> ScheduleState {
    if can_admit(s) {
        ScheduleState { next: s.next + 1, in_flight: s.in_flight + 1, ..s }
    } else {
        s
    }
}

pub open spec fn complete_step(s: ScheduleState) -> ScheduleState {
    if s.in_flight > 0 {
        ScheduleState { in_flight: (s.in_flight - 1) as nat, ..s }
    } else {
        s
    }
}

/// The counters after a run of events: `true` asks for an admission,
/// `false` reports a completed walk.
pub open spec fn run_events(s: ScheduleState, events: Seq<bool>) -> ScheduleState
    decreases events.len(),
{
    if events.len() == 0 {
        s
    } else {
        let s1 = if events[0] {
            admit_step(s)
        } else {
            complete_step(s)
        };
        run_events(s1, events.drop_first())
    }
}

/// Whatever admissions and completions follow one another, from a fresh or
/// any consistent schedule, no more than `cap` walks are ever in flight.
pub proof fn lemma_cap_never_exceeded(s: ScheduleState, events: Seq<bool>)
    requires
        consistent(s),
    ensures
        consistent(run_events(s, events)),
        run_events(s, events).in_flight <= s.cap,
        run_events(s, events).cap == s.cap,
    decreases events.len(),
{
    if events.len() > 0 {
        let s1 = if events[0] {
            admit_step(s)
        } else {
            complete_step(s)
        };
        lemma_cap_never_exceeded(s1, events.drop_first());
    }
}

/// Relies on num_cpus::get: the number of logical processors available to
/// this process, which its documentation says is always at least 1.
#[verifier::external_body]
fn available_cpus() -> (r: usize)
    ensures
        r >= 1,
{
    num_cpus::get()
}

/// The admission state of a scan.
pub struct Scheduler {
    entries: usize,
    cap: usize,
    next: usize,
    in_flight: usize,
}

impl View for Scheduler {
    type V = ScheduleState;

    closed spec fn view(&self) -> ScheduleState {
        ScheduleState {
            entries: self.entries as nat,
            cap: self.cap as nat,
            next: self.next as nat,
            in_flight: self.in_flight as nat,
        }
    }
}

impl Scheduler {
    pub open spec fn wf(&self) -> bool {
        consistent(self@)
    }

    /// A schedule of `entries` walks, at most `cap` of them at a time.
    pub fn new(entries: usize, cap: usize) -> (s: Scheduler)
        requires
            cap >= 1,
        ensures
            s.wf(),
            s@ == (ScheduleState { entries: entries as nat, cap: cap as nat, next: 0, in_flight: 0 }),
    {
        Scheduler { entries, cap, next: 0, in_flight: 0 }
    }

    /// A schedule of `entries` walks, capped at the host's logical processor count.
    pub fn for_host(entries: usize) -> (s: Scheduler)
        ensures
            s.wf(),
            s@.entries == entries as nat,
            s@.next == 0,
            s@.in_flight == 0,
    {
        let cap = available_cpus();
        Scheduler::new(entries, cap)
    }

    /// The index of the entry to walk now, if a place is free and an entry waits.
    pub fn start_next(&mut self) -> (r: Option<usize>)
        requires
            old(self).wf(),
        ensures
            final(self).wf(),
            final(self)@ == admit_step(old(self)@),
            r == (if can_admit(old(self)@) {
                Some(old(self)@.next as usize)
            } else {
                None::<usize>
            }),
    {
        if self.in_flight < self.cap && self.next < self.entries {
            let i = self.next;
            self.next = self.next + 1;
            self.in_flight = self.in_flight + 1;
            Some(i)
        } else {
            None
        }
    }

    /// Reports that one admitted walk has completed.
    pub fn complete(&mut self)
        requires
            old(self).wf(),
        ensures
            final(self).wf(),
            final(self)@ == complete_step(old(self)@),
    {
        if self.in_flight > 0 {
            self.in_flight = self.in_flight - 1;
        }
    }

    /// Whether every entry has been admitted and has completed.
    pub fn is_finished(&self) -> (r: bool)
        ensures
            r == (self@.next == self@.entries && self@.in_flight == 0),
    {
        self.next == self.entries && self.in_flight == 0
    }

    /// The number of walks in flight.
    pub fn in_flight(&self) -> (r: usize)
        ensures
            r as nat == self@.in_flight,
    {
        self.in_flight
    }

    /// The most walks that may be in flight at once.
    pub fn cap(&self) -> (r: usize)
        ensures
            r as nat == self@.cap,
    {
        self.cap
    }
}

} // verus!
