use bf_interpreter::cpu::{Fault, Status, Step, CPU, MINIMUM_MEMORY_SIZE};
use bf_interpreter::loader::parse_source_code;
use bf_interpreter::program::{find_loop_end, find_loop_start};

fn engine(source: &str) -> CPU {
    let code = parse_source_code(Vec::from(source)).unwrap();
    CPU::new(MINIMUM_MEMORY_SIZE, code)
}

/// Bracket partners by recursive descent: parses the block that starts at
/// `i`, records each pair, and returns where the block ends.
fn descend(code: &[u8], mut i: usize, partner: &mut Vec<usize>) -> usize {
    while i < code.len() {
        match code[i] {
            b']' => return i,
            b'[' => {
                let close = descend(code, i + 1, partner);
                partner[i] = close;
                partner[close] = i;
                i = close + 1;
            }
            _ => i += 1,
        }
    }
    i
}

fn partners(code: &[u8]) -> Vec<usize> {
    let mut partner = vec![usize::MAX; code.len()];
    let end = descend(code, 0, &mut partner);
    assert_eq!(end, code.len());
    partner
}

fn assert_scans_agree_with_descent(code: &Vec<u8>) {
    let partner = partners(code);
    for i in 0..code.len() {
        if code[i] == b'[' {
            assert_eq!(find_loop_end(code, i), partner[i]);
        } else if code[i] == b']' {
            assert_eq!(find_loop_start(code, i), partner[i]);
        }
    }
}

#[test]
fn new_engine_is_zeroed() {
    let cpu = engine("+");
    assert_eq!(MINIMUM_MEMORY_SIZE, 30_000);
    assert_eq!(cpu.ip(), 0);
    assert_eq!(cpu.dp(), 0);
    assert_eq!(cpu.read_data(), 0);
    assert_eq!(cpu.memory().len(), 30_000);
    assert!(cpu.memory().iter().all(|&cell| cell == 0));
    assert_eq!(cpu.code().as_slice(), b"+");
    assert_eq!(cpu.status(), Status::Running);

    let larger = CPU::new(40_000, b"+".to_vec());
    assert_eq!(larger.memory().len(), 40_000);
}

#[test]
fn three_increments_and_output() {
    let run = engine("+++.").run(1_000);
    assert_eq!(run.status, Status::Finished);
    assert_eq!(run.output, vec![3u8]);
    assert_eq!(run.cpu.ip(), 4);
    assert_eq!(run.cpu.read_data(), 3);
}

#[test]
fn clear_loop_runs_once() {
    let mut cpu = engine("+[-]");
    assert_eq!(cpu.step(), Step::Advanced);
    assert_eq!((cpu.ip(), cpu.read_data()), (1, 1));
    assert_eq!(cpu.step(), Step::Advanced);
    assert_eq!((cpu.ip(), cpu.read_data()), (2, 1));
    assert_eq!(cpu.step(), Step::Advanced);
    assert_eq!((cpu.ip(), cpu.read_data()), (3, 0));
    assert_eq!(cpu.step(), Step::Advanced);
    assert_eq!((cpu.ip(), cpu.read_data()), (4, 0));
    assert_eq!(cpu.step(), Step::Finished);
    assert_eq!(cpu.ip(), 4);

    let run = engine("+[-]").run(4);
    assert_eq!(run.status, Status::Finished);
    assert!(run.output.is_empty());
    assert_eq!(run.cpu.ip(), 4);
    assert_eq!(run.cpu.read_data(), 0);
}

#[test]
fn loop_is_skipped_on_zero_cell() {
    let mut cpu = engine("[+.]>");
    assert_eq!(cpu.step(), Step::Advanced);
    assert_eq!(cpu.ip(), 4);
    assert_eq!(cpu.read_data(), 0);
}

#[test]
fn loop_repeats_on_nonzero_cell() {
    let mut cpu = engine("++[-]");
    for _ in 0..4 {
        assert_eq!(cpu.step(), Step::Advanced);
    }
    assert_eq!((cpu.ip(), cpu.read_data()), (4, 1));
    // `]` with the cell at 1 goes back to the instruction after `[`.
    assert_eq!(cpu.step(), Step::Advanced);
    assert_eq!((cpu.ip(), cpu.read_data()), (3, 1));
    assert_eq!(cpu.step(), Step::Advanced);
    // `]` with the cell at 0 leaves the loop.
    assert_eq!(cpu.step(), Step::Advanced);
    assert_eq!((cpu.ip(), cpu.read_data()), (5, 0));
    assert_eq!(cpu.step(), Step::Finished);
}

#[test]
fn move_right_on_last_cell_overflows() {
    let mut source = vec![b'>'; MINIMUM_MEMORY_SIZE - 1];
    source.push(b'>');
    let cpu = CPU::new(MINIMUM_MEMORY_SIZE, source);
    let run = cpu.run(MINIMUM_MEMORY_SIZE - 1);
    assert_eq!(run.cpu.dp(), MINIMUM_MEMORY_SIZE - 1);
    assert_eq!(run.status, Status::Faulted(Fault::DataPointerOverflow));
    let mut cpu = run.cpu;
    assert_eq!(cpu.step(), Step::Faulted(Fault::DataPointerOverflow));
    // A faulting instruction leaves the engine as it was.
    assert_eq!(cpu.dp(), MINIMUM_MEMORY_SIZE - 1);
    assert_eq!(cpu.ip(), MINIMUM_MEMORY_SIZE - 1);
}

#[test]
fn move_left_on_first_cell_underflows() {
    let mut cpu = engine("<");
    assert_eq!(cpu.status(), Status::Faulted(Fault::DataPointerUnderflow));
    assert_eq!(cpu.step(), Step::Faulted(Fault::DataPointerUnderflow));
    assert_eq!((cpu.ip(), cpu.dp()), (0, 0));
    let run = engine("+.<.").run(100);
    assert_eq!(run.status, Status::Faulted(Fault::DataPointerUnderflow));
    assert_eq!(run.output, vec![1u8]);
    assert_eq!(run.cpu.ip(), 2);
}

#[test]
fn moves_within_the_tape() {
    let run = engine(">>+<").run(100);
    assert_eq!(run.status, Status::Finished);
    assert_eq!(run.cpu.dp(), 1);
    assert_eq!(run.cpu.memory()[2], 1);
    assert_eq!(run.cpu.memory()[1], 0);
}

#[test]
fn input_is_a_fault() {
    let mut cpu = engine("+,");
    assert_eq!(cpu.step(), Step::Advanced);
    assert_eq!(cpu.step(), Step::Faulted(Fault::InputUnsupported));
    assert_eq!(cpu.ip(), 1);
    assert_eq!(engine(",").run(10).status, Status::Faulted(Fault::InputUnsupported));
}

#[test]
fn cells_wrap_around() {
    let mut source = vec![b'+'; 256];
    source.push(b'.');
    let run = CPU::new(MINIMUM_MEMORY_SIZE, source).run(1_000);
    assert_eq!(run.status, Status::Finished);
    assert_eq!(run.output, vec![0u8]);

    let mut source = vec![b'+'; 7];
    source.push(b'.');
    source.extend(vec![b'+'; 256]);
    source.push(b'.');
    let run = CPU::new(MINIMUM_MEMORY_SIZE, source).run(1_000);
    assert_eq!(run.output, vec![7u8, 7u8]);

    let run = engine("-.").run(10);
    assert_eq!(run.output, vec![255u8]);
    let run = engine("-+.").run(10);
    assert_eq!(run.output, vec![0u8]);
}

#[test]
fn step_limit_stops_a_running_program() {
    let run = engine("+[]").run(1_000);
    assert_eq!(run.status, Status::Running);
    assert!(run.output.is_empty());
    assert_eq!(run.cpu.read_data(), 1);

    let run = engine("+++.").run(3);
    assert_eq!(run.status, Status::Running);
    assert!(run.output.is_empty());
    assert_eq!(run.cpu.ip(), 3);
    // The engine that comes back goes on where it stopped.
    let rest = run.cpu.run(1);
    assert_eq!(rest.status, Status::Finished);
    assert_eq!(rest.output, vec![3u8]);

    let run = engine("+").run(0);
    assert_eq!(run.status, Status::Running);
    assert_eq!(run.cpu.ip(), 0);
}

#[test]
fn output_comes_in_program_order() {
    let run = engine("+.+.+.[.-]").run(1_000);
    assert_eq!(run.status, Status::Finished);
    assert_eq!(run.output, vec![1u8, 2, 3, 3, 2, 1]);
}

#[test]
fn step_reports_each_output_byte() {
    let mut cpu = engine("++.");
    assert_eq!(cpu.step(), Step::Advanced);
    assert_eq!(cpu.step(), Step::Advanced);
    assert_eq!(cpu.step(), Step::Output(2));
    assert_eq!(cpu.step(), Step::Finished);
    assert_eq!(cpu.step(), Step::Finished);
    assert_eq!(cpu.status(), Status::Finished);
}

#[test]
fn nested_loops_multiply() {
    let run = engine("++[>++[>++<-]<-]").run(10_000);
    assert_eq!(run.status, Status::Finished);
    assert_eq!(run.cpu.ip(), 16);
    assert_eq!(&run.cpu.memory()[0..3], &[0u8, 0, 8]);
    assert!(run.output.is_empty());
}

#[test]
fn nested_brackets_have_their_partners() {
    let code = b"++[>++[>++<-]<-]".to_vec();
    assert_eq!(find_loop_end(&code, 2), 15);
    assert_eq!(find_loop_end(&code, 6), 12);
    assert_eq!(find_loop_start(&code, 12), 6);
    assert_eq!(find_loop_start(&code, 15), 2);
    assert_scans_agree_with_descent(&code);

    let code = b"[][[]][[[]]]".to_vec();
    assert_eq!(find_loop_end(&code, 0), 1);
    assert_eq!(find_loop_end(&code, 2), 5);
    assert_eq!(find_loop_end(&code, 6), 11);
    assert_eq!(find_loop_start(&code, 11), 6);
    assert_eq!(find_loop_start(&code, 10), 7);
    assert_scans_agree_with_descent(&code);
}

#[test]
fn scans_agree_with_descent_on_generated_programs() {
    let mut state: u64 = 0x2545_F491_4F6C_DD1D;
    for round in 0..200 {
        let mut code: Vec<u8> = Vec::new();
        let mut open = 0;
        for _ in 0..(20 + round) {
            state ^= state << 13;
            state ^= state >> 7;
            state ^= state << 17;
            match state % 4 {
                0 => {
                    code.push(b'[');
                    open += 1;
                }
                1 if open > 0 => {
                    code.push(b']');
                    open -= 1;
                }
                2 => code.push(b'+'),
                _ => code.push(b'>'),
            }
        }
        code.extend(vec![b']'; open]);
        assert_eq!(parse_source_code(code.clone()), Ok(code.clone()));
        assert_scans_agree_with_descent(&code);
    }
}

#[test]
fn deep_nesting_is_matched() {
    let depth = 10_000;
    let mut code = vec![b'['; depth];
    code.extend(vec![b']'; depth]);
    let code = parse_source_code(code).unwrap();
    for i in [0, 1, depth / 2, depth - 1] {
        assert_eq!(find_loop_end(&code, i), 2 * depth - 1 - i);
        assert_eq!(find_loop_start(&code, 2 * depth - 1 - i), i);
    }
    let mut cpu = CPU::new(MINIMUM_MEMORY_SIZE, code);
    assert_eq!(cpu.step(), Step::Advanced);
    assert_eq!(cpu.ip(), 2 * depth);
    assert_eq!(cpu.step(), Step::Finished);
}

#[test]
fn fault_messages() {
    assert_eq!(Fault::DataPointerOverflow.message(), "Data pointer exceeded memory range");
    assert_eq!(Fault::DataPointerUnderflow.message(), "Tried to access memory at DP < 0");
    assert_eq!(Fault::InputUnsupported.message(), "input not implemented");
}
