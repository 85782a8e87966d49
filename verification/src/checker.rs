//! The process-credential checking state machine.
//!
//! The machine walks the process table in order and, for each loaded
//! process, walks the TLV footers that follow its code-integrity region.
//! Each credentials footer is handed to a pluggable checking policy, which
//! answers synchronously (skip, reject kinds) or starts an asynchronous
//! check; the machine then parks until `check_done` reports the outcome.
//! Every process whose footers are well-formed ends marked: approved
//! (runnable once its identity proves unique) or failed (never scheduled).
//! A process whose footer region is malformed is abandoned unmarked and
//! therefore never scheduled either.
//!
//! The walk over the footer bytes is specified by [`spec_find_footer`], a
//! mathematical rerun of the TLV scan: the contracts of [`check_footer`]
//! and [`find_nth_footer`] classify their results exactly by what that
//! walk says of the bytes, and pin the credential handed to the policy to
//! the record the walk found.

use vstd::prelude::*;

use crate::errorcode::ErrorCode;
use crate::kernel::Kernel;
use crate::platform::ProcessApprovalCapability;
use crate::process::Process;
use crate::process::ShortID;
use crate::process::State;
use crate::tbf::FOOTER_TLV_CREDENTIALS;
use crate::tbf::TbfFooterV2Credentials;
use crate::tbf::TbfParseError;
use crate::tbf::parse_tbf_footer;
use crate::tbf::u16_le;
use crate::tbf::u32_le;
use vstd::pervasive::unreached;
use vstd::slice::slice_subrange;

verus! {

/// Errors surfaced to the caller driving process checking.
#[derive(Clone, Copy, Debug, PartialEq, Eq, Structural)]
pub enum ProcessLoadError {
    /// The kernel or the checking machinery is in an inconsistent state.
    InternalError,
}

/// A policy's verdict on one asynchronously checked credential.
#[derive(Clone, Copy, Debug, PartialEq, Eq, Structural)]
pub enum CheckResult {
    /// The credential proves the process; mark it approved.
    Accept,
    /// The credential neither proves nor refutes; try the next footer.
    Pass,
    /// The credential refutes the process; mark it failed.
    Reject,
}

/// A board's credential-checking policy. `check_credentials` returning
/// `Ok` means an asynchronous check has started and `check_done` will be
/// called with its outcome; `NOSUPPORT` and `ALREADY` mean the footer is
/// not checkable by this policy and the next one should be tried.
pub trait CredentialsCheckingPolicy {
    /// Whether a process with no checkable credentials must be refused.
    fn require_credentials(&mut self) -> bool;

    /// Begin checking one credential against the process's code-integrity
    /// bytes.
    fn check_credentials(
        &mut self,
        credentials: &TbfFooterV2Credentials,
        binary: &Vec<u8>,
    ) -> Result<(), ErrorCode>;

    /// Derive the process's compact identity from an accepted credential.
    fn to_short_id(&mut self, credentials: &TbfFooterV2Credentials) -> ShortID;
}

/// Why a footer is or is not being checked.
#[derive(Clone, Copy, Debug, PartialEq, Eq, Structural)]
pub enum FooterCheckResult {
    /// An asynchronous check has started.
    Checking,
    /// There are no more footers, no check started.
    PastLastFooter,
    /// The footer is not a checkable credential, no check started.
    FooterNotCheckable,
    /// The footer region is malformed; abandon this process.
    BadFooter,
    /// No process was provided, no check started.
    NoProcess,
    /// An internal error occurred, no check started.
    Error,
}

/// What a search of the footer region for one record concludes.
#[derive(Clone, Copy, Debug, PartialEq, Eq, Structural)]
pub enum FooterSearch {
    /// The record exists and parses as a credential.
    Found,
    /// The region ends, benignly, before the record.
    PastEnd,
    /// A malformed or region-overrunning record stands at or before the
    /// index.
    Bad,
}

/// The footer walk, mathematically: scan the region bytes `s` from offset
/// `pos`, skipping records until `remaining` counts down to the record
/// sought. Too few bytes for a record header or its format word is the
/// benign end of the walk; a record of the wrong TLV type, one whose
/// length cannot hold the format word, or one whose announced length
/// overruns the region is malformed and abandons the walk.
pub open spec fn spec_find_footer(s: Seq<u8>, pos: int, remaining: int) -> FooterSearch
    decreases remaining,
{
    if remaining <= 0 {
        FooterSearch::PastEnd
    } else if pos >= s.len() {
        FooterSearch::PastEnd
    } else if s.len() - pos < 4 {
        FooterSearch::PastEnd
    } else if u16_le(s, pos) != FOOTER_TLV_CREDENTIALS || u16_le(s, pos + 2) < 4 {
        FooterSearch::Bad
    } else if s.len() - pos < 8 {
        FooterSearch::PastEnd
    } else if pos + 4 + u16_le(s, pos + 2) > s.len() {
        FooterSearch::Bad
    } else if remaining == 1 {
        FooterSearch::Found
    } else {
        spec_find_footer(s, pos + 4 + u16_le(s, pos + 2), remaining - 1)
    }
}

/// Offset of the record `spec_find_footer` finds, under the same walk.
pub open spec fn spec_footer_pos(s: Seq<u8>, pos: int, remaining: int) -> int
    decreases remaining,
{
    if remaining <= 0 {
        0
    } else if pos >= s.len() {
        0
    } else if s.len() - pos < 4 {
        0
    } else if u16_le(s, pos) != FOOTER_TLV_CREDENTIALS || u16_le(s, pos + 2) < 4 {
        0
    } else if s.len() - pos < 8 {
        0
    } else if pos + 4 + u16_le(s, pos + 2) > s.len() {
        0
    } else if remaining == 1 {
        pos
    } else {
        spec_footer_pos(s, pos + 4 + u16_le(s, pos + 2), remaining - 1)
    }
}

/// Whether the footer region holds a malformed record reachable from its
/// start: the walk abandons such a region at some index.
pub open spec fn footers_malformed(s: Seq<u8>) -> bool {
    exists|n: int| 0 <= n && #[trigger] spec_find_footer(s, 0, n + 1) is Bad
}

/// Outcome of locating one footer record in the region.
pub enum NthFooter {
    /// The record exists; carries the parsed credential.
    Credential(TbfFooterV2Credentials),
    /// The region ends, benignly, before the record.
    PastEnd,
    /// A malformed or overrunning record stands at or before the index.
    Malformed,
}

/// Locate footer record `next_footer` of the region and parse it as a
/// credential. The result classifies the bytes exactly as the
/// mathematical walk does, and a found credential carries exactly the
/// record's format word and payload.
pub fn find_nth_footer(footers: &Vec<u8>, next_footer: usize) -> (r: NthFooter)
    ensures
        ({
            let s = footers@;
            let w = spec_find_footer(s, 0, next_footer + 1);
            match r {
                NthFooter::Credential(c) => {
                    let p = spec_footer_pos(s, 0, next_footer + 1);
                    &&& w is Found
                    &&& c.format == u32_le(s, p + 4)
                    &&& c.data@ == s.subrange(p + 8, p + 4 + u16_le(s, p + 2))
                    &&& 4 * (next_footer + 1) <= s.len()
                },
                NthFooter::PastEnd => w is PastEnd,
                NthFooter::Malformed => w is Bad,
            }
        }),
{
    let footers_len: usize = footers.len();
    let mut pos: usize = 0;
    let mut current: usize = 0;
    while current <= next_footer && pos < footers_len
        invariant
            footers_len == footers@.len(),
            current <= next_footer,
            4 * current <= pos,
            pos <= footers_len,
            spec_find_footer(footers@, 0, next_footer + 1) == spec_find_footer(
                footers@,
                pos as int,
                next_footer + 1 - current,
            ),
            spec_footer_pos(footers@, 0, next_footer + 1) == spec_footer_pos(
                footers@,
                pos as int,
                next_footer + 1 - current,
            ),
        decreases next_footer + 1 - current,
    {
        let ghost s = footers@;
        let ghost rem = next_footer + 1 - current;
        let sub = slice_subrange(footers.as_slice(), pos, footers_len);
        proof {
            // The record's header and format word read the same through
            // the subrange as at the offset.
            assert(sub@ == s.subrange(pos as int, s.len() as int));
            assert(sub@.len() == s.len() - pos);
            if sub@.len() >= 4 {
                assert(u16_le(sub@, 0) == u16_le(s, pos as int));
                assert(u16_le(sub@, 2) == u16_le(s, pos as int + 2));
            }
            if sub@.len() >= 8 {
                assert(u32_le(sub@, 4) == u32_le(s, pos as int + 4));
            }
        }
        let parse_result = parse_tbf_footer(sub);
        match parse_result {
            Err(TbfParseError::NotEnoughFlash) => {
                // Too few bytes for another record: the benign end of the
                // footer list.
                proof {
                    assert(spec_find_footer(s, pos as int, rem) is PastEnd);
                }
                return NthFooter::PastEnd;
            },
            Err(TbfParseError::BadTlvEntry(_)) => {
                proof {
                    assert(spec_find_footer(s, pos as int, rem) is Bad);
                }
                return NthFooter::Malformed;
            },
            Ok((footer, len)) => {
                // Advance past the record; a record whose announced length
                // overruns the footer region abandons the process.
                let step: usize = len as usize + 4;
                match pos.checked_add(step) {
                    None => {
                        proof {
                            assert(spec_find_footer(s, pos as int, rem) is Bad);
                        }
                        return NthFooter::Malformed;
                    },
                    Some(new_pos) => {
                        if new_pos > footers_len {
                            proof {
                                assert(spec_find_footer(s, pos as int, rem) is Bad);
                            }
                            return NthFooter::Malformed;
                        }
                        if current == next_footer {
                            proof {
                                assert(spec_find_footer(s, pos as int, rem) is Found);
                                assert(spec_footer_pos(s, pos as int, rem) == pos as int);
                                assert(footer.data@ == sub@.subrange(8, 4 + len as int));
                                assert(footer.data@ =~= s.subrange(
                                    pos + 8,
                                    pos + 4 + len as int,
                                ));
                            }
                            return NthFooter::Credential(footer);
                        }
                        pos = new_pos;
                        current = current + 1;
                    },
                }
            },
        }
    }
    proof {
        assert(spec_find_footer(footers@, pos as int, next_footer + 1 - current) is PastEnd);
    }
    NthFooter::PastEnd
}

/// How one slot of the process table may change while the checker runs:
/// not at all, or marked exactly once from unchecked to approved (with its
/// identity and credentials recorded) or to failed.
pub open spec fn checked_slot_evolution(a: Option<Process>, b: Option<Process>) -> bool {
    ||| b == a
    ||| (a is Some && (a->0).state is CredentialsUnchecked && b is Some && ((b->0) == (Process {
        state: State::CredentialsApproved,
        short_id: (b->0).short_id,
        credentials: (b->0).credentials,
        ..a->0
    }) || (b->0) == (Process { state: State::CredentialsFailed, ..a->0 })))
}

/// A credential verdict is final: once the checker has marked a process,
/// no later step of the walk changes it again. Two checker steps in
/// sequence can only leave a marked slot as the first step left it.
pub proof fn lemma_checker_marks_at_most_once(
    a: Option<Process>,
    b: Option<Process>,
    c: Option<Process>,
)
    requires
        checked_slot_evolution(a, b),
        checked_slot_evolution(b, c),
        b is Some,
        !((b->0).state is CredentialsUnchecked),
    ensures
        c == b,
{
}

/// The capability under which the checker records credential outcomes.
struct CheckerApprovalCapability {}

impl ProcessApprovalCapability for CheckerApprovalCapability {

}

/// Walk the footers of `process` up to footer number `next_footer` and,
/// if the record exists, hand it with the integrity-region bytes to the
/// policy. The result is classified exactly by the mathematical walk of
/// the footer bytes: a region that ends before the record is the benign
/// `PastLastFooter`, a malformed or overrunning record is `BadFooter`, and
/// a found credential yields `Checking`, `FooterNotCheckable`
/// (`NOSUPPORT`/`ALREADY`), or `Error` as the policy answers.
pub fn check_footer<P: CredentialsCheckingPolicy>(
    process: &Process,
    policy: &mut P,
    next_footer: usize,
) -> (r: FooterCheckResult)
    requires
        process.wf(),
    ensures
        ({
            let w = spec_find_footer(process.footers@, 0, next_footer + 1);
            match r {
                FooterCheckResult::PastLastFooter => w is PastEnd,
                FooterCheckResult::BadFooter => w is Bad,
                FooterCheckResult::Checking => w is Found,
                FooterCheckResult::FooterNotCheckable => w is Found,
                FooterCheckResult::Error => w is Found,
                FooterCheckResult::NoProcess => false,
            }
        }),
        r == FooterCheckResult::Checking || r == FooterCheckResult::FooterNotCheckable || r
            == FooterCheckResult::Error ==> 4 * (next_footer + 1) <= process.footers@.len(),
{
    match find_nth_footer(&process.footers, next_footer) {
        NthFooter::PastEnd => FooterCheckResult::PastLastFooter,
        NthFooter::Malformed => FooterCheckResult::BadFooter,
        NthFooter::Credential(credential) => {
            match policy.check_credentials(&credential, &process.integrity) {
                Ok(()) => FooterCheckResult::Checking,
                Err(ErrorCode::NOSUPPORT) => FooterCheckResult::FooterNotCheckable,
                Err(ErrorCode::ALREADY) => FooterCheckResult::FooterNotCheckable,
                Err(_) => FooterCheckResult::Error,
            }
        },
    }
}

/// Iterates across the process table, checking footers and deciding
/// whether each process may run: processes that satisfy the checking
/// policy are approved, the rest are marked failed.
pub struct ProcessCheckerMachine<P> {
    /// Index of the process currently being checked.
    process: usize,
    /// Index of the footer currently being checked within that process.
    footer: usize,
    /// The board's checking policy, once installed.
    policy: Option<P>,
    /// The capability under which outcomes are recorded.
    approve_cap: CheckerApprovalCapability,
}

impl<P: CredentialsCheckingPolicy> ProcessCheckerMachine<P> {
    /// Index of the process currently being checked.
    pub closed spec fn spec_process_index(self) -> nat {
        self.process as nat
    }

    /// Index of the footer currently being checked.
    pub closed spec fn spec_footer_index(self) -> nat {
        self.footer as nat
    }

    /// Whether a policy has been installed.
    pub closed spec fn spec_has_policy(self) -> bool {
        self.policy is Some
    }

    /// A fresh machine, parked at the first footer of the first process,
    /// with no policy installed.
    pub fn new() -> (m: ProcessCheckerMachine<P>)
        ensures
            m.spec_process_index() == 0,
            m.spec_footer_index() == 0,
            !m.spec_has_policy(),
    {
        ProcessCheckerMachine {
            process: 0,
            footer: 0,
            policy: None,
            approve_cap: CheckerApprovalCapability {  },
        }
    }

    /// Install (or replace) the checking policy.
    pub fn set_policy(&mut self, policy: P)
        ensures
            final(self).spec_has_policy(),
            final(self).spec_process_index() == old(self).spec_process_index(),
            final(self).spec_footer_index() == old(self).spec_footer_index(),
    {
        self.policy = Some(policy);
    }

    /// Check the next footer of the next process. Returns `Ok(true)` when
    /// a credential was found and an asynchronous check has started (the
    /// machine parks, inside the table, until `check_done`); `Ok(false)`
    /// when every process has been walked — and then every process that
    /// was still unchecked when this call began has been marked approved
    /// or failed, unless its footer region is malformed; and
    /// `Err(InternalError)` when no policy is installed (with a loaded
    /// process still to check) or the policy reports an internal error.
    pub fn next(&mut self, kernel: &mut Kernel) -> (r: Result<bool, ProcessLoadError>)
        requires
            old(kernel).wf(),
            old(kernel).spec_work() + old(kernel).spec_process_count() <= usize::MAX,
        ensures
            final(kernel).wf(),
            final(kernel).spec_process_count() == old(kernel).spec_process_count(),
            final(kernel).spec_grants_finalized() == old(kernel).spec_grants_finalized(),
            final(kernel).spec_grant_count() == old(kernel).spec_grant_count(),
            final(kernel).spec_grant_layouts() == old(kernel).spec_grant_layouts(),
            final(kernel).spec_external_work() == old(kernel).spec_external_work(),
            final(kernel).spec_identifier_max() == old(kernel).spec_identifier_max(),
            forall|j: int|
                0 <= j < old(kernel).spec_process_count() ==> checked_slot_evolution(
                    old(kernel).spec_processes()[j],
                    #[trigger] final(kernel).spec_processes()[j],
                ),
            final(self).spec_process_index() >= old(self).spec_process_index(),
            final(self).spec_has_policy() == old(self).spec_has_policy(),
            r == Ok::<bool, ProcessLoadError>(false) ==> final(self).spec_process_index() >= final(kernel).spec_process_count(),
            // A walk already past the table finds nothing left to do.
            old(self).spec_process_index() >= old(kernel).spec_process_count() ==> r == Ok::<
                bool,
                ProcessLoadError,
            >(false) && *final(kernel) == *old(kernel),
            // Every process the walk passed over that was still unchecked
            // has been marked, unless its footers are malformed.
            forall|j: int|
                old(self).spec_process_index() <= j < final(self).spec_process_index() && 0 <= j
                    < old(kernel).spec_process_count() && (#[trigger] old(kernel).spec_processes()[j]) is Some && (old(kernel).spec_processes()[j]->0).state
                    is CredentialsUnchecked ==> ((final(kernel).spec_processes()[j]->0).state
                    is CredentialsApproved || (final(kernel).spec_processes()[j]->0).state
                    is CredentialsFailed || footers_malformed(
                    (old(kernel).spec_processes()[j]->0).footers@,
                )),
            // Without a policy, nothing can be checked: the kernel is
            // untouched, and a loaded process still to check is an error.
            !old(self).spec_has_policy() ==> *final(kernel) == *old(kernel) && !(r == Ok::<
                bool,
                ProcessLoadError,
            >(true)),
            !old(self).spec_has_policy() && (exists|j: int|
                old(self).spec_process_index() <= j < old(kernel).spec_process_count() && (
                #[trigger] old(kernel).spec_processes()[j]) is Some) ==> r == Err::<bool, ProcessLoadError>(
                ProcessLoadError::InternalError,
            ),
            // Slots the walk has not reached are untouched.
            forall|j: int|
                final(self).spec_process_index() <= j < old(kernel).spec_process_count()
                    ==> #[trigger] final(kernel).spec_processes()[j] == old(kernel).spec_processes()[j],
            // Parking happens only on a loaded process inside the table,
            // at a footer the walk actually found.
            r == Ok::<bool, ProcessLoadError>(true) ==> final(self).spec_process_index() < final(kernel).spec_process_count() && final(kernel).spec_processes()[final(self).spec_process_index() as int] is Some && spec_find_footer(
                (final(kernel).spec_processes()[final(self).spec_process_index() as int]
                    ->0).footers@,
                0,
                final(self).spec_footer_index() as int + 1,
            ) is Found,
    {
        if self.process >= kernel.process_count() {
            // No more processes to check.
            return Ok(false);
        }
        loop
            invariant
                kernel.wf(),
                kernel.spec_process_count() == old(kernel).spec_process_count(),
                kernel.spec_grants_finalized() == old(kernel).spec_grants_finalized(),
                kernel.spec_grant_count() == old(kernel).spec_grant_count(),
                kernel.spec_grant_layouts() == old(kernel).spec_grant_layouts(),
                kernel.spec_external_work() == old(kernel).spec_external_work(),
                kernel.spec_identifier_max() == old(kernel).spec_identifier_max(),
                self.process >= old(self).spec_process_index(),
                old(self).spec_process_index() < old(kernel).spec_process_count(),
                self.spec_has_policy() == old(self).spec_has_policy(),
                kernel.spec_work() as int + (kernel.spec_process_count() as int
                    - self.process as int) <= usize::MAX as int,
                forall|j: int|
                    0 <= j < old(kernel).spec_process_count() ==> checked_slot_evolution(
                        old(kernel).spec_processes()[j],
                        #[trigger] kernel.spec_processes()[j],
                    ),
                // The walk has not touched the slots ahead of it.
                forall|j: int|
                    self.process <= j < kernel.spec_process_count()
                        ==> #[trigger] kernel.spec_processes()[j] == old(kernel).spec_processes()[j],
                // The slots passed over are marked or malformed.
                forall|j: int|
                    old(self).spec_process_index() <= j < self.process && 0 <= j < old(kernel).spec_process_count() && (#[trigger] old(kernel).spec_processes()[j]) is Some
                        && (old(kernel).spec_processes()[j]->0).state is CredentialsUnchecked ==> ((
                    kernel.spec_processes()[j]->0).state is CredentialsApproved || (
                    kernel.spec_processes()[j]->0).state is CredentialsFailed
                        || footers_malformed((old(kernel).spec_processes()[j]->0).footers@)),
                // Without a policy, the walk only skips empty slots.
                !old(self).spec_has_policy() ==> *kernel == *old(kernel) && (forall|j: int|
                    old(self).spec_process_index() <= j < self.process
                        ==> (#[trigger] old(kernel).spec_processes()[j]) is None),
            ensures
                kernel.wf(),
                kernel.spec_process_count() == old(kernel).spec_process_count(),
                kernel.spec_grants_finalized() == old(kernel).spec_grants_finalized(),
                kernel.spec_grant_count() == old(kernel).spec_grant_count(),
                kernel.spec_grant_layouts() == old(kernel).spec_grant_layouts(),
                kernel.spec_external_work() == old(kernel).spec_external_work(),
                kernel.spec_identifier_max() == old(kernel).spec_identifier_max(),
                self.process >= old(self).spec_process_index(),
                self.spec_has_policy() == old(self).spec_has_policy(),
                forall|j: int|
                    0 <= j < old(kernel).spec_process_count() ==> checked_slot_evolution(
                        old(kernel).spec_processes()[j],
                        #[trigger] kernel.spec_processes()[j],
                    ),
                forall|j: int|
                    old(self).spec_process_index() <= j < self.process && 0 <= j < old(kernel).spec_process_count() && (#[trigger] old(kernel).spec_processes()[j]) is Some
                        && (old(kernel).spec_processes()[j]->0).state is CredentialsUnchecked ==> ((
                    kernel.spec_processes()[j]->0).state is CredentialsApproved || (
                    kernel.spec_processes()[j]->0).state is CredentialsFailed
                        || footers_malformed((old(kernel).spec_processes()[j]->0).footers@)),
                !old(self).spec_has_policy() ==> *kernel == *old(kernel) && (forall|j: int|
                    old(self).spec_process_index() <= j < self.process
                        ==> (#[trigger] old(kernel).spec_processes()[j]) is None),
            decreases kernel.spec_process_count() - self.process, footer_budget(
                *kernel,
                self.process as int,
                self.footer as int,
            ),
        {
            let count = kernel.process_count();
            if self.process >= count {
                // No more processes to check.
                return Ok(false);
            }
            // Do not trust a stale index: skip empty slots one at a time.
            let filled: bool = kernel.process_ref(self.process).is_some();
            if !filled {
                self.process = self.process + 1;
                self.footer = 0;
                continue ;
            }
            let footer_index = self.footer;
            let proc_index = self.process;
            let check_result: FooterCheckResult = match &mut self.policy {
                None => FooterCheckResult::Error,
                Some(pol) => match kernel.process_ref(proc_index) {
                    Some(p) => check_footer(p, pol, footer_index),
                    None => unreached(),
                },
            };
            match check_result {
                FooterCheckResult::Checking => {
                    return Ok(true);
                },
                FooterCheckResult::PastLastFooter => {
                    // End of the footers without a decisive credential:
                    // the policy decides whether such a process may run.
                    let requires_credentials: bool = match &mut self.policy {
                        Some(pol) => pol.require_credentials(),
                        None => true,
                    };
                    if requires_credentials {
                        let _res = kernel.mark_credentials_fail(proc_index, &self.approve_cap);
                    } else {
                        let _res = kernel.mark_credentials_pass(
                            proc_index,
                            None,
                            ShortID::LocallyUnique,
                            &self.approve_cap,
                        );
                    }
                    self.process = self.process + 1;
                    self.footer = 0;
                },
                FooterCheckResult::NoProcess => {
                    // Unreachable: the slot was seen loaded just above.
                    proof {
                        assert(false);
                    }
                },
                FooterCheckResult::BadFooter => {
                    // Malformed footers: abandon this process unmarked; it
                    // stays unchecked and is never scheduled.
                    proof {
                        assert(footers_malformed(
                            (kernel.spec_processes()[proc_index as int]->0).footers@,
                        ));
                    }
                    self.process = self.process + 1;
                    self.footer = 0;
                },
                FooterCheckResult::FooterNotCheckable => {
                    // Not a credential this policy can judge: try the next
                    // footer.
                    self.footer = self.footer + 1;
                },
                FooterCheckResult::Error => {
                    return Err(ProcessLoadError::InternalError);
                },
            }
        }
    }

    /// Apply one asynchronous check verdict, without resuming the walk.
    /// `Accept` marks the parked process approved with the credential
    /// recorded under the policy-derived identity and moves to the next
    /// process; `Reject` marks it failed and moves on; `Pass` or a policy
    /// error moves to the next footer of the same process. Whenever the
    /// walk moves to a new process its footer walk restarts at the first
    /// footer.
    pub fn apply_check_result(
        &mut self,
        kernel: &mut Kernel,
        result: Result<CheckResult, ErrorCode>,
        credentials: TbfFooterV2Credentials,
    )
        requires
            old(kernel).wf(),
            old(kernel).spec_work() < usize::MAX,
            old(self).spec_process_index() < old(kernel).spec_process_count(),
            old(self).spec_footer_index() < usize::MAX,
        ensures
            final(kernel).wf(),
            final(kernel).spec_process_count() == old(kernel).spec_process_count(),
            final(kernel).spec_grants_finalized() == old(kernel).spec_grants_finalized(),
            final(kernel).spec_grant_count() == old(kernel).spec_grant_count(),
            final(kernel).spec_grant_layouts() == old(kernel).spec_grant_layouts(),
            final(kernel).spec_external_work() == old(kernel).spec_external_work(),
            final(kernel).spec_identifier_max() == old(kernel).spec_identifier_max(),
            final(self).spec_has_policy() == old(self).spec_has_policy(),
            final(kernel).spec_work() <= old(kernel).spec_work() + 1,
            forall|j: int|
                0 <= j < old(kernel).spec_process_count() ==> checked_slot_evolution(
                    old(kernel).spec_processes()[j],
                    #[trigger] final(kernel).spec_processes()[j],
                ),
            ({
                let i = old(self).spec_process_index() as int;
                let slot = old(kernel).spec_processes()[i];
                match result {
                    Ok(CheckResult::Accept) => {
                        &&& final(self).spec_process_index() == old(self).spec_process_index() + 1
                        &&& final(self).spec_footer_index() == 0
                        &&& (slot is Some && (slot->0).state is CredentialsUnchecked ==> final(kernel).spec_processes()[i] == Some(
                            Process {
                                state: State::CredentialsApproved,
                                short_id: (final(kernel).spec_processes()[i]->0).short_id,
                                credentials: Some(credentials),
                                ..slot->0
                            },
                        ))
                        &&& (!(slot is Some && (slot->0).state is CredentialsUnchecked) ==> *final(kernel) == *old(kernel))
                        &&& (forall|j: int|
                            0 <= j < old(kernel).spec_process_count() && j != i
                                ==> #[trigger] final(kernel).spec_processes()[j] == old(kernel).spec_processes()[j])
                    },
                    Ok(CheckResult::Reject) => {
                        &&& final(self).spec_process_index() == old(self).spec_process_index() + 1
                        &&& final(self).spec_footer_index() == 0
                        &&& (slot is Some && (slot->0).state is CredentialsUnchecked ==> final(kernel).spec_processes()[i] == Some(
                            Process { state: State::CredentialsFailed, ..slot->0 },
                        ))
                        &&& (!(slot is Some && (slot->0).state is CredentialsUnchecked) ==> *final(kernel) == *old(kernel))
                        &&& (forall|j: int|
                            0 <= j < old(kernel).spec_process_count() && j != i
                                ==> #[trigger] final(kernel).spec_processes()[j] == old(kernel).spec_processes()[j])
                    },
                    Ok(CheckResult::Pass) => {
                        &&& *final(kernel) == *old(kernel)
                        &&& final(self).spec_process_index() == old(self).spec_process_index()
                        &&& final(self).spec_footer_index() == old(self).spec_footer_index() + 1
                    },
                    Err(_) => {
                        &&& *final(kernel) == *old(kernel)
                        &&& final(self).spec_process_index() == old(self).spec_process_index()
                        &&& final(self).spec_footer_index() == old(self).spec_footer_index() + 1
                    },
                }
            }),
    {
        let count = kernel.process_count();
        assert(self.process < count);
        let proc_index = self.process;
        match result {
            Ok(CheckResult::Accept) => {
                let short_id: ShortID = match &mut self.policy {
                    Some(pol) => pol.to_short_id(&credentials),
                    None => ShortID::LocallyUnique,
                };
                let filled: bool = kernel.process_ref(proc_index).is_some();
                if filled {
                    let _res = kernel.mark_credentials_pass(
                        proc_index,
                        Some(credentials),
                        short_id,
                        &self.approve_cap,
                    );
                }
                self.process = self.process + 1;
                self.footer = 0;
            },
            Ok(CheckResult::Pass) => {
                self.footer = self.footer + 1;
            },
            Ok(CheckResult::Reject) => {
                let filled: bool = kernel.process_ref(proc_index).is_some();
                if filled {
                    let _res = kernel.mark_credentials_fail(proc_index, &self.approve_cap);
                }
                self.process = self.process + 1;
                self.footer = 0;
            },
            Err(_) => {
                // An error from the policy is treated as a pass for this
                // footer: try the next one.
                self.footer = self.footer + 1;
            },
        }
    }

    /// Report the outcome of the asynchronous credential check the machine
    /// parked on, then continue walking (`next`). The verdict's own effect
    /// is `apply_check_result`'s; what survives the continued walk is
    /// stated here: an accepted process stays approved with exactly the
    /// given credential recorded, a rejected one stays failed, and in both
    /// cases the walk has moved past it.
    pub fn check_done(
        &mut self,
        kernel: &mut Kernel,
        result: Result<CheckResult, ErrorCode>,
        credentials: TbfFooterV2Credentials,
        _binary: &Vec<u8>,
    ) -> (r: Result<bool, ProcessLoadError>)
        requires
            old(kernel).wf(),
            old(kernel).spec_work() + old(kernel).spec_process_count() + 1 <= usize::MAX,
            old(self).spec_process_index() < old(kernel).spec_process_count(),
            old(self).spec_footer_index() < usize::MAX,
        ensures
            final(kernel).wf(),
            final(kernel).spec_process_count() == old(kernel).spec_process_count(),
            final(kernel).spec_grants_finalized() == old(kernel).spec_grants_finalized(),
            final(kernel).spec_grant_count() == old(kernel).spec_grant_count(),
            final(kernel).spec_grant_layouts() == old(kernel).spec_grant_layouts(),
            final(kernel).spec_external_work() == old(kernel).spec_external_work(),
            final(kernel).spec_identifier_max() == old(kernel).spec_identifier_max(),
            forall|j: int|
                0 <= j < old(kernel).spec_process_count() ==> checked_slot_evolution(
                    old(kernel).spec_processes()[j],
                    #[trigger] final(kernel).spec_processes()[j],
                ),
            r == Ok::<bool, ProcessLoadError>(false) ==> final(self).spec_process_index() >= final(kernel).spec_process_count(),
            ({
                let i = old(self).spec_process_index() as int;
                let slot = old(kernel).spec_processes()[i];
                match result {
                    Ok(CheckResult::Accept) => {
                        &&& final(self).spec_process_index() > old(self).spec_process_index()
                        &&& (slot is Some && (slot->0).state is CredentialsUnchecked ==> final(kernel).spec_processes()[i] == Some(
                            Process {
                                state: State::CredentialsApproved,
                                short_id: (final(kernel).spec_processes()[i]->0).short_id,
                                credentials: Some(credentials),
                                ..slot->0
                            },
                        ))
                    },
                    Ok(CheckResult::Reject) => {
                        &&& final(self).spec_process_index() > old(self).spec_process_index()
                        &&& (slot is Some && (slot->0).state is CredentialsUnchecked ==> final(kernel).spec_processes()[i] == Some(
                            Process { state: State::CredentialsFailed, ..slot->0 },
                        ))
                    },
                    Ok(CheckResult::Pass) => final(self).spec_process_index() >= old(self).spec_process_index(),
                    Err(_) => final(self).spec_process_index() >= old(self).spec_process_index(),
                }
            }),
    {
        let ghost entry_kernel = *kernel;
        let ghost entry_idx = self.spec_process_index() as int;
        self.apply_check_result(kernel, result, credentials);
        let ghost mid_kernel = *kernel;
        let r = self.next(kernel);
        proof {
            // A slot the verdict marked can only stay as marked: the
            // continued walk never re-marks it.
            assert forall|j: int|
                0 <= j < entry_kernel.spec_process_count() implies checked_slot_evolution(
                entry_kernel.spec_processes()[j],
                #[trigger] kernel.spec_processes()[j],
            ) by {
                if mid_kernel.spec_processes()[j] == entry_kernel.spec_processes()[j] {
                } else {
                    assert(mid_kernel.spec_processes()[j] is Some && !((mid_kernel.spec_processes()[j]->0).state is CredentialsUnchecked));
                    lemma_checker_marks_at_most_once(
                        entry_kernel.spec_processes()[j],
                        mid_kernel.spec_processes()[j],
                        kernel.spec_processes()[j],
                    );
                }
            }
            match result {
                Ok(CheckResult::Accept) => {
                    if entry_kernel.spec_processes()[entry_idx] is Some && (
                    entry_kernel.spec_processes()[entry_idx]->0).state is CredentialsUnchecked {
                        lemma_checker_marks_at_most_once(
                            entry_kernel.spec_processes()[entry_idx],
                            mid_kernel.spec_processes()[entry_idx],
                            kernel.spec_processes()[entry_idx],
                        );
                    }
                },
                Ok(CheckResult::Reject) => {
                    if entry_kernel.spec_processes()[entry_idx] is Some && (
                    entry_kernel.spec_processes()[entry_idx]->0).state is CredentialsUnchecked {
                        lemma_checker_marks_at_most_once(
                            entry_kernel.spec_processes()[entry_idx],
                            mid_kernel.spec_processes()[entry_idx],
                            kernel.spec_processes()[entry_idx],
                        );
                    }
                },
                _ => {},
            }
        }
        r
    }
}

/// How many more footers the machine may still step through within the
/// current process; drives the termination measure of the walk.
pub open spec fn footer_budget(k: Kernel, proc_idx: int, footer: int) -> int {
    if 0 <= proc_idx < k.spec_process_count() && k.spec_processes()[proc_idx] is Some {
        let flen = (k.spec_processes()[proc_idx]->0).footers@.len() as int;
        if 4 * footer <= flen {
            flen / 4 + 1 - footer
        } else {
            0
        }
    } else {
        0
    }
}

} // verus!
