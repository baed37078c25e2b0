use aoc2024::computer::{Computer, Halt};

fn computer(a: i64, b: i64, c: i64, program: Vec<i64>) -> Computer {
    Computer { a, b, c, output: vec![], instructions: program, pointer: 0 }
}

#[test]
fn verify_states() {
    let mut cp = computer(10, 0, 0, vec![5, 0, 5, 1, 5, 4]);
    assert_eq!(cp.run_to_end(1000), Halt::Finished);
    assert_eq!(cp.output, vec![0, 1, 2]);
}

#[test]
fn year_example() {
    let mut cp = computer(2024, 0, 0, vec![0, 1, 5, 4, 3, 0]);
    assert_eq!(cp.run_to_end(1000), Halt::Finished);
    assert_eq!(cp.a, 0);
    assert_eq!(cp.output, vec![4, 2, 5, 6, 7, 7, 7, 7, 3, 1, 0]);
}

#[test]
fn math_works() {
    let mut cp = computer(0, 29, 0, vec![1, 7]);
    cp.run_to_end(1000);
    assert_eq!(cp.b, 26);
}

#[test]
fn years_are_magic() {
    let mut cp = computer(0, 2024, 43690, vec![4, 0]);
    cp.run_to_end(1000);
    assert_eq!(cp.b, 44354);
}

#[test]
fn day17_part1_example() {
    let mut cp = computer(729, 0, 0, vec![0, 1, 5, 4, 3, 0]);
    assert_eq!(cp.run_to_end(1000), Halt::Finished);
    let text: Vec<String> = cp.output.iter().map(|v| v.to_string()).collect();
    assert_eq!(text.join(","), "4,6,3,5,6,3,5,2,1,0");
}

#[test]
fn check_behaviour() {
    let mut cp = computer(0, 0, 9, vec![2, 6]);
    cp.run_to_end(1000);
    assert_eq!(cp.b, 1);
}

#[test]
fn runs_stop_on_faults_and_budgets() {
    let mut looping = computer(1, 0, 0, vec![3, 0]);
    assert_eq!(looping.run_to_end(5), Halt::StepLimit);
    assert_eq!(looping.pointer, 0);
    let mut bad_combo = computer(1, 0, 0, vec![5, 7]);
    assert_eq!(bad_combo.run_to_end(5), Halt::Fault);
    let mut bad_opcode = computer(1, 0, 0, vec![8, 0]);
    assert_eq!(bad_opcode.run_to_end(5), Halt::Fault);
    let mut wide_shift = computer(1, 0, 64, vec![0, 6]);
    assert_eq!(wide_shift.run_to_end(5), Halt::Fault);
    let mut odd_length = computer(1, 0, 0, vec![1, 3, 5]);
    assert_eq!(odd_length.run_to_end(5), Halt::Finished);
    assert_eq!(odd_length.b, 3);
}

#[test]
fn single_steps() {
    let mut cp = computer(16, 0, 0, vec![0, 2]);
    assert_eq!(cp.get_next(), Some((0, 2)));
    assert!(cp.can_run(0, 2));
    assert_eq!(cp.get_combo(4), 16);
    cp.instruction(0, 2);
    assert_eq!(cp.a, 4);
    assert_eq!(cp.pointer, 2);
    assert_eq!(cp.get_next(), None);
}
