//! The credential-checking state machine.

use std::cell::RefCell;
use std::rc::Rc;

use tock_core::checker::CheckResult;
use tock_core::checker::NthFooter;
use tock_core::checker::find_nth_footer;
use tock_core::checker::CredentialsCheckingPolicy;
use tock_core::checker::ProcessCheckerMachine;
use tock_core::errorcode::ErrorCode;
use tock_core::kernel::Kernel;
use tock_core::process::Process;
use tock_core::process::ShortID;
use tock_core::process::State;
use tock_core::tbf::FOOTER_TLV_CREDENTIALS;
use tock_core::tbf::TbfFooterV2Credentials;

/// Policy that answers synchronously: every credential of the chosen
/// format starts a check; others are unsupported.
struct TestPolicy {
    require: bool,
    checkable_format: u32,
    started: Rc<RefCell<Vec<TbfFooterV2Credentials>>>,
}

impl CredentialsCheckingPolicy for TestPolicy {
    fn require_credentials(&mut self) -> bool {
        self.require
    }

    fn check_credentials(
        &mut self,
        credentials: &TbfFooterV2Credentials,
        _binary: &Vec<u8>,
    ) -> Result<(), ErrorCode> {
        if credentials.format == self.checkable_format {
            self.started.borrow_mut().push(credentials.clone());
            Ok(())
        } else {
            Err(ErrorCode::NOSUPPORT)
        }
    }

    fn to_short_id(&mut self, credentials: &TbfFooterV2Credentials) -> ShortID {
        ShortID::Fixed(credentials.format)
    }
}

fn policy(require: bool, format: u32) -> (TestPolicy, Rc<RefCell<Vec<TbfFooterV2Credentials>>>) {
    let started = Rc::new(RefCell::new(Vec::new()));
    (TestPolicy { require, checkable_format: format, started: started.clone() }, started)
}

fn credentials_record(format: u32, data: &[u8]) -> Vec<u8> {
    let len: u16 = 4 + data.len() as u16;
    let mut v = Vec::new();
    v.push((FOOTER_TLV_CREDENTIALS & 0xFF) as u8);
    v.push((FOOTER_TLV_CREDENTIALS >> 8) as u8);
    v.push((len & 0xFF) as u8);
    v.push((len >> 8) as u8);
    v.extend_from_slice(&format.to_le_bytes());
    v.extend_from_slice(data);
    v
}

fn process_with_footers(index: usize, id: usize, footers: Vec<u8>) -> Process {
    Process::new(
        index,
        id,
        State::CredentialsUnchecked,
        0x8000_0000,
        vec![0xAA; 32],
        footers,
        0x2000_0000,
        64,
    )
}

#[test]
fn processes_without_credentials_pass_a_lenient_policy() {
    // Two processes with no footers, a policy that does not require
    // credentials: both end approved.
    let kernel_processes = vec![
        Some(process_with_footers(0, 1, vec![])),
        Some(process_with_footers(1, 2, vec![])),
    ];
    let mut kernel = Kernel::new(kernel_processes);
    let mut machine: ProcessCheckerMachine<TestPolicy> = ProcessCheckerMachine::new();
    let (pol, _) = policy(false, 0x99);
    machine.set_policy(pol);
    let done = machine.next(&mut kernel).unwrap();
    assert!(!done);
    for i in 0..2 {
        assert_eq!(
            kernel.process_ref(i).unwrap().get_state(),
            State::CredentialsApproved
        );
    }
    // Admissions are pending work.
    assert_eq!(kernel.work_count(), 2);
}

#[test]
fn processes_without_credentials_fail_a_strict_policy() {
    let mut kernel = Kernel::new(vec![Some(process_with_footers(0, 1, vec![]))]);
    let mut machine: ProcessCheckerMachine<TestPolicy> = ProcessCheckerMachine::new();
    let (pol, _) = policy(true, 0x99);
    machine.set_policy(pol);
    let done = machine.next(&mut kernel).unwrap();
    assert!(!done);
    assert_eq!(
        kernel.process_ref(0).unwrap().get_state(),
        State::CredentialsFailed
    );
    assert_eq!(kernel.work_count(), 0);
}

#[test]
fn checkable_credential_parks_until_check_done() {
    let footers = credentials_record(0x99, &[1, 2, 3]);
    let mut kernel = Kernel::new(vec![Some(process_with_footers(0, 1, footers))]);
    let mut machine: ProcessCheckerMachine<TestPolicy> = ProcessCheckerMachine::new();
    let (pol, started) = policy(true, 0x99);
    machine.set_policy(pol);
    // The credential starts an asynchronous check.
    let parked = machine.next(&mut kernel).unwrap();
    assert!(parked);
    assert_eq!(started.borrow().len(), 1);
    assert_eq!(
        kernel.process_ref(0).unwrap().get_state(),
        State::CredentialsUnchecked
    );
    // Accepting the credential approves the process under the derived
    // identity and finishes the walk.
    let creds = started.borrow()[0].clone();
    let binary = vec![0xAA; 32];
    let done = machine.check_done(&mut kernel, Ok(CheckResult::Accept), creds, &binary).unwrap();
    assert!(!done);
    let p = kernel.process_ref(0).unwrap();
    assert_eq!(p.get_state(), State::CredentialsApproved);
    assert_eq!(p.get_short_id(), ShortID::Fixed(0x99));
}

#[test]
fn rejected_credential_fails_the_process() {
    let footers = credentials_record(0x99, &[]);
    let mut kernel = Kernel::new(vec![Some(process_with_footers(0, 1, footers))]);
    let mut machine: ProcessCheckerMachine<TestPolicy> = ProcessCheckerMachine::new();
    let (pol, started) = policy(true, 0x99);
    machine.set_policy(pol);
    assert!(machine.next(&mut kernel).unwrap());
    let creds = started.borrow()[0].clone();
    let binary = vec![0xAA; 32];
    let done = machine.check_done(&mut kernel, Ok(CheckResult::Reject), creds, &binary).unwrap();
    assert!(!done);
    assert_eq!(
        kernel.process_ref(0).unwrap().get_state(),
        State::CredentialsFailed
    );
}

#[test]
fn pass_moves_to_the_next_footer() {
    // Two credentials records: the first check passes inconclusively, the
    // second is accepted.
    let mut footers = credentials_record(0x99, &[1]);
    footers.extend_from_slice(&credentials_record(0x99, &[2]));
    let mut kernel = Kernel::new(vec![Some(process_with_footers(0, 1, footers))]);
    let mut machine: ProcessCheckerMachine<TestPolicy> = ProcessCheckerMachine::new();
    let (pol, started) = policy(true, 0x99);
    machine.set_policy(pol);
    assert!(machine.next(&mut kernel).unwrap());
    let first = started.borrow()[0].clone();
    assert_eq!(first.data, vec![1]);
    let binary = vec![0xAA; 32];
    // Pass: the machine re-enters the walk and starts checking the second
    // footer.
    let parked_again = machine
        .check_done(&mut kernel, Ok(CheckResult::Pass), first, &binary)
        .unwrap();
    assert!(parked_again);
    assert_eq!(started.borrow().len(), 2);
    assert_eq!(started.borrow()[1].data, vec![2]);
    let second = started.borrow()[1].clone();
    let done = machine
        .check_done(&mut kernel, Ok(CheckResult::Accept), second, &binary)
        .unwrap();
    assert!(!done);
    assert_eq!(
        kernel.process_ref(0).unwrap().get_state(),
        State::CredentialsApproved
    );
}

#[test]
fn unsupported_credentials_are_skipped() {
    // A credential of an unknown format is skipped; with nothing
    // checkable and a lenient policy the process still runs.
    let footers = credentials_record(0x42, &[9, 9]);
    let mut kernel = Kernel::new(vec![Some(process_with_footers(0, 1, footers))]);
    let mut machine: ProcessCheckerMachine<TestPolicy> = ProcessCheckerMachine::new();
    let (pol, started) = policy(false, 0x99);
    machine.set_policy(pol);
    let done = machine.next(&mut kernel).unwrap();
    assert!(!done);
    assert!(started.borrow().is_empty());
    assert_eq!(
        kernel.process_ref(0).unwrap().get_state(),
        State::CredentialsApproved
    );
}

#[test]
fn malformed_footer_abandons_the_process() {
    // A record with an alien TLV type abandons the process: it stays
    // unchecked and is never scheduled.
    let footers = vec![0x13, 0x00, 0x04, 0x00, 1, 2, 3, 4];
    let mut kernel = Kernel::new(vec![Some(process_with_footers(0, 1, footers))]);
    let mut machine: ProcessCheckerMachine<TestPolicy> = ProcessCheckerMachine::new();
    let (pol, _) = policy(false, 0x99);
    machine.set_policy(pol);
    let done = machine.next(&mut kernel).unwrap();
    assert!(!done);
    assert_eq!(
        kernel.process_ref(0).unwrap().get_state(),
        State::CredentialsUnchecked
    );
}

#[test]
fn missing_policy_is_an_error() {
    let mut kernel = Kernel::new(vec![Some(process_with_footers(0, 1, vec![]))]);
    let mut machine: ProcessCheckerMachine<TestPolicy> = ProcessCheckerMachine::new();
    assert!(machine.next(&mut kernel).is_err());
}

#[test]
fn empty_table_finishes_immediately() {
    let mut kernel = Kernel::new(vec![]);
    let mut machine: ProcessCheckerMachine<TestPolicy> = ProcessCheckerMachine::new();
    let (pol, _) = policy(false, 0x99);
    machine.set_policy(pol);
    assert!(!machine.next(&mut kernel).unwrap());
}

#[test]
fn footer_walk_restarts_on_each_process() {
    // Process 0 parks at its second footer (the first is unsupported);
    // accepting it must restart the walk at the first footer of process
    // 1, not at the second.
    let mut footers0 = credentials_record(0x42, &[10]);
    footers0.extend_from_slice(&credentials_record(0x99, &[11]));
    let mut footers1 = credentials_record(0x99, &[20]);
    footers1.extend_from_slice(&credentials_record(0x99, &[21]));
    let mut kernel = Kernel::new(vec![
        Some(process_with_footers(0, 1, footers0)),
        Some(process_with_footers(1, 2, footers1)),
    ]);
    let mut machine: ProcessCheckerMachine<TestPolicy> = ProcessCheckerMachine::new();
    let (pol, started) = policy(true, 0x99);
    machine.set_policy(pol);
    assert!(machine.next(&mut kernel).unwrap());
    assert_eq!(started.borrow()[0].data, vec![11]);
    let first = started.borrow()[0].clone();
    let binary = vec![0xAA; 32];
    let parked = machine
        .check_done(&mut kernel, Ok(CheckResult::Accept), first, &binary)
        .unwrap();
    assert!(parked);
    // The second process's walk starts at its first footer.
    assert_eq!(started.borrow()[1].data, vec![20]);
    assert_eq!(
        kernel.process_ref(0).unwrap().get_state(),
        State::CredentialsApproved
    );
}

#[test]
fn find_nth_footer_locates_records_exactly() {
    let mut footers = credentials_record(0x11, &[1, 2]);
    footers.extend_from_slice(&credentials_record(0x22, &[3, 4, 5]));
    match find_nth_footer(&footers, 0) {
        NthFooter::Credential(c) => {
            assert_eq!(c.format, 0x11);
            assert_eq!(c.data, vec![1, 2]);
        }
        _ => panic!("first record expected"),
    }
    match find_nth_footer(&footers, 1) {
        NthFooter::Credential(c) => {
            assert_eq!(c.format, 0x22);
            assert_eq!(c.data, vec![3, 4, 5]);
        }
        _ => panic!("second record expected"),
    }
    assert!(matches!(find_nth_footer(&footers, 2), NthFooter::PastEnd));
    // A wrong TLV type in front hides everything behind it.
    let mut bad = vec![0x13, 0x00, 0x04, 0x00, 0, 0, 0, 0];
    bad.extend_from_slice(&credentials_record(0x11, &[1]));
    assert!(matches!(find_nth_footer(&bad, 0), NthFooter::Malformed));
    assert!(matches!(find_nth_footer(&bad, 1), NthFooter::Malformed));
    // A record whose announced length overruns the region is malformed.
    let mut overrun = credentials_record(0x11, &[1]);
    overrun[2] = 0x40;
    assert!(matches!(find_nth_footer(&overrun, 0), NthFooter::Malformed));
}

#[test]
fn next_without_policy_fails_on_a_loaded_process() {
    // Without a policy a loaded process cannot be checked; an all-empty
    // walk still completes.
    let mut kernel = Kernel::new(vec![None, Some(process_with_footers(1, 2, vec![]))]);
    let mut machine: ProcessCheckerMachine<TestPolicy> = ProcessCheckerMachine::new();
    assert!(machine.next(&mut kernel).is_err());
    let mut empty_kernel = Kernel::new(vec![None, None]);
    let mut machine2: ProcessCheckerMachine<TestPolicy> = ProcessCheckerMachine::new();
    assert!(!machine2.next(&mut empty_kernel).unwrap());
}
