use advent::noun_verb::solve_inputs;

#[test]
fn solve_inputs_finds_first_pair() {
    // word 0 = word 1 + word 2
    let program = vec![1101, 0, 0, 0, 99];
    assert_eq!(solve_inputs(program.clone(), 5), Some((0, 5)));
    assert_eq!(solve_inputs(program.clone(), 0), Some((0, 0)));
    assert_eq!(solve_inputs(program, 198), Some((99, 99)));
}

#[test]
fn solve_inputs_multiplication() {
    // word 0 = word 1 * word 2
    let program = vec![1102, 0, 0, 0, 99];
    assert_eq!(solve_inputs(program, 12), Some((1, 12)));
}

#[test]
fn solve_inputs_without_answer() {
    let program = vec![1101, 0, 0, 0, 99];
    assert_eq!(solve_inputs(program.clone(), 199), None);
    assert_eq!(solve_inputs(program, -1), None);
}
