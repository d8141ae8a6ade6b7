//! The search driver: feeds candidates to an external oracle, classifies
//! each outcome, tracks progress, and decides termination.
//!
//! The oracle itself cannot be called from here: the caller runs the loop,
//! asking the driver for the current candidate, querying the oracle, and
//! handing the outcome back through [`SearchDriver::record`].  The driver
//! owns every decision: it stops on the first `Valid` outcome, keeps the
//! exact candidate that succeeded, and declares exhaustion after the last
//! combination has been rejected.

use vstd::prelude::*;

use crate::generator::distinct_seq;
use crate::generator::mask_positions;
use crate::generator::pow_n;
use crate::generator::CandidateGenerator;
use crate::generator::SetupError;
use crate::key_checker::PidGenResult;

verus! {

/// How many attempts may accumulate before `progress_due` reports them.
/// Batching amortizes the display overhead over the hot loop.
pub const PROGRESS_BLOCK: u64 = 1024;

/// Where a search stands: still running, stopped on a valid key, or past
/// the last candidate without one.
#[derive(Debug, Clone, Copy, PartialEq, Eq, Structural)]
pub enum SearchStatus {
    Running,
    Succeeded,
    Exhausted,
}

/// Drives one search over the candidate space of a template.
pub struct SearchDriver {
    generator: CandidateGenerator,
    attempts: u64,
    reported: u64,
    status: SearchStatus,
    found: Option<Vec<u8>>,
}

impl SearchDriver {
    /// The generator state the driver carries.
    pub closed spec fn generator_view(self) -> CandidateGenerator {
        self.generator
    }

    /// How many candidates have been handed to the oracle so far.
    pub closed spec fn attempts_spec(self) -> nat {
        self.attempts as nat
    }

    /// How many attempts have been passed on to the progress display.
    pub closed spec fn reported_spec(self) -> nat {
        self.reported as nat
    }

    /// The total candidate count, `N^k`.
    pub open spec fn total_spec(self) -> nat {
        self.generator_view().space_size()
    }

    /// Where the search stands.
    pub closed spec fn status_spec(self) -> SearchStatus {
        self.status
    }

    /// The key that succeeded, if any.
    pub closed spec fn found_view(self) -> Option<Seq<u8>> {
        match self.found {
            Some(v) => Some(v@),
            None => None,
        }
    }

    /// Whether the search may still call the oracle.
    pub open spec fn is_running(self) -> bool {
        self.status_spec() is Running
    }

    /// The candidate the next oracle call will test.
    pub open spec fn candidate(self) -> Seq<u8> {
        self.generator_view().candidate()
    }

    /// Structural invariant, established by `new` and kept by every method.
    pub closed spec fn wf(self) -> bool {
        &&& self.generator.wf()
        &&& self.reported <= self.attempts
        &&& self.attempts as nat <= self.generator.space_size()
        &&& match self.status {
            SearchStatus::Running => self.attempts as nat == self.generator.counter_value()
                && (self.attempts as nat) < self.generator.space_size() && self.found is None,
            SearchStatus::Succeeded => self.found is Some && self.attempts >= 1,
            SearchStatus::Exhausted => self.attempts as nat == self.generator.space_size()
                && self.found is None,
        }
    }

    /// Builds a driver over `template`, masked by `mask`, with symbols from
    /// `alphabet`.  Every setup fault surfaces here, before any oracle call.
    pub fn new(template: Vec<u8>, mask: u8, alphabet: Vec<u8>) -> (r: Result<
        SearchDriver,
        SetupError,
    >)
        ensures
            match r {
                Ok(d) => {
                    &&& d.wf()
                    &&& d.is_running()
                    &&& d.attempts_spec() == 0
                    &&& d.reported_spec() == 0
                    &&& d.found_view() is None
                    &&& d.generator_view().template_view() == template@
                    &&& d.generator_view().alphabet_view() == alphabet@
                    &&& d.generator_view().positions_view() == mask_positions(template@, mask)
                    &&& d.generator_view().counter_value() == 0
                },
                Err(e) => match e {
                    SetupError::EmptyAlphabet => alphabet@.len() == 0,
                    SetupError::DuplicateSymbol => alphabet@.len() >= 1 && !distinct_seq(
                        alphabet@,
                    ),
                    SetupError::SpaceTooLarge => alphabet@.len() >= 1 && distinct_seq(alphabet@)
                        && pow_n(alphabet@.len(), mask_positions(template@, mask).len())
                        > u64::MAX,
                },
            },
    {
        match CandidateGenerator::new(template, mask, alphabet) {
            Ok(g) => {
                proof {
                    g.lemma_wf_facts();
                }
                Ok(
                    SearchDriver {
                        generator: g,
                        attempts: 0,
                        reported: 0,
                        status: SearchStatus::Running,
                        found: None,
                    },
                )
            },
            Err(e) => Err(e),
        }
    }

    /// The candidate the oracle should be asked about next.
    pub fn current_candidate(&self) -> (r: Vec<u8>)
        requires
            self.wf(),
            self.is_running(),
        ensures
            r@ == self.candidate(),
    {
        self.generator.current()
    }

    /// How many candidates have been handed to the oracle so far.
    pub fn attempts(&self) -> (r: u64)
        ensures
            r as nat == self.attempts_spec(),
    {
        self.attempts
    }

    /// The total candidate count, `N^k`.
    pub fn total(&self) -> (r: u64)
        requires
            self.wf(),
        ensures
            r as nat == self.total_spec(),
    {
        self.generator.total()
    }

    /// Where the search stands.
    pub fn status(&self) -> (r: SearchStatus)
        ensures
            r == self.status_spec(),
    {
        self.status
    }

    /// The key that succeeded, if the search has succeeded.
    pub fn found_key(&self) -> (r: Option<&Vec<u8>>)
        requires
            self.wf(),
        ensures
            match r {
                Some(v) => self.status_spec() is Succeeded && self.found_view() == Some(v@),
                None => !(self.status_spec() is Succeeded) && self.found_view() is None,
            },
    {
        match &self.found {
            Some(v) => Some(v),
            None => None,
        }
    }

    /// Accounts one oracle outcome for the current candidate.
    ///
    /// `Valid` stops the search at once and keeps the exact candidate that
    /// succeeded, with the attempt count standing at its candidate index
    /// plus one; any other outcome advances the generator, and the search
    /// is exhausted exactly when all `N^k` candidates have been rejected.
    pub fn record(&mut self, outcome: PidGenResult)
        requires
            old(self).wf(),
            old(self).is_running(),
        ensures
            final(self).wf(),
            final(self).generator_view().same_space(old(self).generator_view()),
            final(self).total_spec() == old(self).total_spec(),
            final(self).attempts_spec() == old(self).attempts_spec() + 1,
            final(self).reported_spec() == old(self).reported_spec(),
            outcome is Valid ==> final(self).status_spec() is Succeeded
                && final(self).found_view() == Some(old(self).candidate()),
            !(outcome is Valid) ==> final(self).found_view() is None,
            !(outcome is Valid) && old(self).attempts_spec() + 1 == old(self).total_spec()
                ==> final(self).status_spec() is Exhausted,
            !(outcome is Valid) && old(self).attempts_spec() + 1 < old(self).total_spec()
                ==> final(self).status_spec() is Running
                && final(self).generator_view().counter_value() == old(self).attempts_spec() + 1,
    {
        proof {
            self.generator.lemma_wf_facts();
        }
        self.attempts = self.attempts + 1;
        if outcome.is_valid() {
            let key = self.generator.current();
            self.found = Some(key);
            self.status = SearchStatus::Succeeded;
        } else {
            let overflow = self.generator.advance();
            if overflow {
                self.status = SearchStatus::Exhausted;
            }
            proof {
                self.generator.lemma_wf_facts();
            }
        }
    }

    /// Hands out the progress not yet reported, batched: zero until a full
    /// block of attempts has accumulated, unless the search has ended, in
    /// which case the remainder is flushed so the final reported value
    /// equals the true attempt count.  The reported value never runs ahead
    /// of the work actually done.
    pub fn progress_due(&mut self) -> (d: u64)
        requires
            old(self).wf(),
        ensures
            final(self).wf(),
            final(self).generator_view() == old(self).generator_view(),
            final(self).attempts_spec() == old(self).attempts_spec(),
            final(self).status_spec() == old(self).status_spec(),
            final(self).found_view() == old(self).found_view(),
            old(self).reported_spec() + d == final(self).reported_spec(),
            final(self).reported_spec() <= final(self).attempts_spec(),
            if !(old(self).status_spec() is Running) || old(self).attempts_spec() - old(
                self,
            ).reported_spec() >= PROGRESS_BLOCK {
                final(self).reported_spec() == old(self).attempts_spec()
            } else {
                final(self).reported_spec() == old(self).reported_spec()
            },
    {
        let gap = self.attempts - self.reported;
        let running = match self.status {
            SearchStatus::Running => true,
            _ => false,
        };
        if !running || gap >= PROGRESS_BLOCK {
            self.reported = self.attempts;
            gap
        } else {
            0
        }
    }
}

} // verus!
