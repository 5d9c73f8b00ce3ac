use rpack_opt::pipeline::{parse_answer, validate, Action, Pipeline, Step, ValidationError};

fn run(p: &mut Pipeline, answers: &mut Vec<bool>) -> Vec<Action> {
    let mut seen = Vec::new();
    loop {
        let a = p.next_action();
        seen.push(a);
        match a {
            Action::Confirm(_) => {
                let yes = answers.remove(0);
                p.answer(yes);
            }
            Action::Run(_) => p.completed(),
            Action::Finish | Action::Abort => return seen,
        }
    }
}

#[test]
fn output_inside_input_is_rejected_before_anything_runs() {
    assert_eq!(validate(true, true, "/in", "/in/out"), Err(ValidationError::OutputInsideInput));
}

#[test]
fn validation_rules_come_in_order() {
    assert_eq!(validate(false, false, "/in", "/in"), Err(ValidationError::InputMissing));
    assert_eq!(validate(true, false, "/in", "/in"), Err(ValidationError::OutputMissing));
    assert_eq!(validate(true, true, "/in", "/in"), Err(ValidationError::SameDirectory));
    assert_eq!(validate(true, true, "/in", "/input"), Ok(()));
    assert_eq!(validate(true, true, "/in/x", "/in"), Ok(()));
}

#[test]
fn unattended_run_empties_the_output_first_without_asking() {
    let mut p = Pipeline::new(false, false, true);
    let seen = run(&mut p, &mut Vec::new());
    assert_eq!(
        seen,
        vec![
            Action::Run(Step::EmptyOutput),
            Action::Run(Step::Clone),
            Action::Run(Step::MinifyJson),
            Action::Run(Step::MinifyYaml),
            Action::Run(Step::StripShaders),
            Action::Run(Step::RecompressPng),
            Action::Run(Step::CopyToOutput),
            Action::Run(Step::DeleteWorkingTree),
            Action::Finish,
        ]
    );
}

#[test]
fn confirmed_run_asks_before_each_gated_step() {
    let mut p = Pipeline::new(true, true, false);
    let seen = run(&mut p, &mut vec![true; 7]);
    assert_eq!(seen.len(), 15);
    assert_eq!(seen[0], Action::Confirm(Step::Clone));
    assert_eq!(seen[1], Action::Run(Step::Clone));
    assert_eq!(seen[10], Action::Confirm(Step::Archive));
    assert_eq!(seen[13], Action::Run(Step::DeleteWorkingTree));
    assert_eq!(seen[14], Action::Finish);
}

#[test]
fn copy_out_is_not_asked_for() {
    let mut p = Pipeline::new(true, false, false);
    let seen = run(&mut p, &mut vec![true; 6]);
    assert!(seen.contains(&Action::Run(Step::CopyToOutput)));
    assert!(!seen.contains(&Action::Confirm(Step::CopyToOutput)));
}

#[test]
fn declining_aborts_with_nothing_more_run() {
    let mut p = Pipeline::new(false, false, false);
    let seen = run(&mut p, &mut vec![true, false]);
    assert_eq!(
        seen,
        vec![
            Action::Confirm(Step::EmptyOutput),
            Action::Run(Step::EmptyOutput),
            Action::Confirm(Step::Clone),
            Action::Abort,
        ]
    );
    assert_eq!(p.next_action(), Action::Abort);
}

#[test]
fn validation_compares_paths_by_components() {
    assert_eq!(validate(true, true, "in/", "in/sub"), Err(ValidationError::OutputInsideInput));
    assert_eq!(validate(true, true, "in", "in/"), Err(ValidationError::SameDirectory));
    assert_eq!(validate(true, true, "/in//", "/in"), Err(ValidationError::SameDirectory));
    assert_eq!(validate(true, true, "/in", "in"), Ok(()));
}

#[test]
fn dot_components_name_the_directory_itself() {
    assert_eq!(validate(true, true, "/in/.", "/in"), Err(ValidationError::SameDirectory));
    assert_eq!(validate(true, true, "/a/./b", "/a/b/."), Err(ValidationError::SameDirectory));
    assert_eq!(validate(true, true, "/in", "/in/./out"), Err(ValidationError::OutputInsideInput));
    assert_eq!(validate(true, true, "/in", "/in/.x"), Err(ValidationError::OutputInsideInput));
}

#[test]
fn replies_are_read_trimmed_and_in_either_case() {
    assert_eq!(parse_answer("y\n"), Some(true));
    assert_eq!(parse_answer("  YeS \r\n"), Some(true));
    assert_eq!(parse_answer("N\n"), Some(false));
    assert_eq!(parse_answer("no"), Some(false));
    assert_eq!(parse_answer("yess\n"), None);
    assert_eq!(parse_answer("\n"), None);
    assert_eq!(parse_answer("n o"), None);
}
