use interprust::assembler::assemble;
use interprust::vm::{load_and_run, Event, Fault, RunResult, Status, VirtualMachine, STACK_CAPACITY};

fn run_source(src: &str) -> RunResult {
    let bytes = assemble(src).expect("source should assemble");
    load_and_run(&bytes, 0, 10_000).expect("binary should load")
}

fn binary(words: &[u32]) -> Vec<u8> {
    words.iter().flat_map(|w| w.to_le_bytes()).collect()
}

#[test]
fn set_print_halt_prints_n() {
    for n in [0u32, 1, 42, 65535, u32::MAX] {
        let r = run_source(&format!("SET {}\nPRINT\nHALT", n));
        assert_eq!(r.output, vec![n]);
        assert_eq!(r.status, Status::Halted);
        assert_eq!(r.registers.accumulator, n);
    }
}

#[test]
fn add_then_sub_restores_zero() {
    for n in [0u32, 1, 7, 1 << 31, u32::MAX] {
        let r = run_source(&format!("SET 0\nADD {}\nSUB {}\nPRINT\nHALT", n, n));
        assert_eq!(r.output, vec![0]);
        assert_eq!(r.status, Status::Halted);
    }
}

#[test]
fn arithmetic_wraps() {
    let r = run_source("SET 4294967295\nADD 2\nPRINT\nSUB 3\nPRINT\nHALT");
    assert_eq!(r.output, vec![1, u32::MAX - 1]);
}

#[test]
fn call_and_ret_resume_after_call() {
    let r = run_source("CALL sub\nHALT\nsub: SET 5\nRET");
    assert_eq!(r.status, Status::Halted);
    assert_eq!(r.output, Vec::<u32>::new());
    assert_eq!(r.registers.accumulator, 5);
    assert_eq!(r.registers.instruction_pointer, 2);
    assert_eq!(r.registers.stack_pointer, 0);
    assert_eq!(r.registers.frame_base_pointer, 0);
}

#[test]
fn labelled_program_prints_seven() {
    let r = run_source("a: SET 3\n ADD 4\n PRINT\n HALT");
    assert_eq!(r.output, vec![7]);
    assert_eq!(r.status, Status::Halted);
    assert_eq!(r.registers.accumulator, 7);
}

#[test]
fn pop_on_empty_stack_underflows_without_changes() {
    let r = run_source("SET 9\nPOP\nHALT");
    assert_eq!(r.status, Status::Faulted(Fault::StackUnderflow));
    assert_eq!(r.registers.accumulator, 9);
    assert_eq!(r.registers.instruction_pointer, 2);
    assert_eq!(r.registers.stack_pointer, 0);
}

#[test]
fn ret_on_empty_stack_underflows_without_changes() {
    let r = run_source("SET 4\nPRINT\nRET");
    assert_eq!(r.status, Status::Faulted(Fault::StackUnderflow));
    assert_eq!(r.output, vec![4]);
    assert_eq!(r.registers.accumulator, 4);
    assert_eq!(r.registers.instruction_pointer, 3);
}

#[test]
fn push_and_pop_round_trip() {
    let r = run_source("SET 11\nPUSH\nSET 2\nPRINT\nPOP\nPRINT\nHALT");
    assert_eq!(r.output, vec![2, 11]);
    assert_eq!(r.registers.stack_pointer, 0);
}

#[test]
fn push_beyond_capacity_overflows() {
    let r = run_source("loop: PUSH\nJMP loop");
    assert_eq!(r.status, Status::Faulted(Fault::StackOverflow));
    assert_eq!(r.registers.stack_pointer, STACK_CAPACITY);
}

#[test]
fn endless_loop_runs_out_of_fuel() {
    let bytes = assemble("top: JMP top").unwrap();
    let r = load_and_run(&bytes, 0, 100).unwrap();
    assert_eq!(r.status, Status::OutOfFuel);
    assert_eq!(r.registers.instruction_pointer, 0);
}

#[test]
fn illegal_opcode_faults() {
    let r = load_and_run(&binary(&[0x07, 1, 0x0B]), 0, 10).unwrap();
    assert_eq!(r.status, Status::Faulted(Fault::IllegalOpcode));
    assert_eq!(r.registers.instruction_pointer, 2);
    assert_eq!(r.registers.accumulator, 1);
}

#[test]
fn running_off_the_end_faults() {
    let r = load_and_run(&binary(&[0x03]), 0, 10).unwrap();
    assert_eq!(r.output, vec![0]);
    assert_eq!(r.status, Status::Faulted(Fault::IpOutOfBounds));
    let r = load_and_run(&binary(&[0x07]), 0, 10).unwrap();
    assert_eq!(r.status, Status::Faulted(Fault::IpOutOfBounds));
    let r = load_and_run(&binary(&[0x04, 100]), 0, 10).unwrap();
    assert_eq!(r.status, Status::Faulted(Fault::IpOutOfBounds));
}

#[test]
fn load_faults() {
    assert_eq!(load_and_run(&[], 0, 10).unwrap_err(), Fault::EmptyBinary);
    assert_eq!(load_and_run(&[10, 0, 0], 0, 10).unwrap_err(), Fault::TruncatedWord);
    assert_eq!(load_and_run(&binary(&[0x0A]), 1, 10).unwrap_err(), Fault::EntryOutOfRange);
}

#[test]
fn entry_offset_is_respected() {
    let r = load_and_run(&binary(&[0x07, 1, 0x07, 2, 0x03, 0x0A]), 2, 10).unwrap();
    assert_eq!(r.output, vec![2]);
}

#[test]
fn stepping_reports_each_event() {
    let bytes = assemble("SET 6\nPRINT\nHALT").unwrap();
    let mut vm = VirtualMachine::new(&bytes, 0).unwrap();
    assert_eq!(vm.step(), Event::Continue);
    assert_eq!(vm.step(), Event::Print(6));
    assert_eq!(vm.step(), Event::Halt);
    assert_eq!(vm.step(), Event::Halt);
    let s = vm.snapshot();
    assert_eq!(s.accumulator, 6);
    assert_eq!(s.instruction_pointer, 3);
}

#[test]
fn call_records_frame_base() {
    let r = run_source("PUSH\nCALL f\nHALT\nf: HALT");
    assert_eq!(r.registers.frame_base_pointer, 1);
    assert_eq!(r.registers.stack_pointer, 2);
    assert_eq!(r.registers.instruction_pointer, 4);
}
