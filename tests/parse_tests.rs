use stitch::parse::{parse_spec, validate_plans, ParseError, ValidationError};
use stitch::plan::{Plan, PlanPath};

fn all_exist(_p: &String) -> Result<(), String> {
    Ok(())
}

fn leaves(plan: &Plan) -> Vec<String> {
    plan.sources.iter().map(|s| s.leaf.clone()).collect()
}

#[test]
fn compiles_targets_in_file_order() {
    let spec = "out1.mp4:\n\ta.mp4\n\tb.mp4\n\nout2.mp4:\n\tc.mp4\n";
    let plans = parse_spec(spec, "/t", "/s", all_exist).unwrap();
    assert_eq!(plans.len(), 2);
    assert_eq!(plans[0].target_path.leaf, "out1.mp4");
    assert_eq!(plans[0].target_path.path, "/t/out1.mp4");
    assert_eq!(leaves(&plans[0]), vec!["a.mp4", "b.mp4"]);
    assert_eq!(plans[0].sources[1].path, "/s/b.mp4");
    assert_eq!(plans[1].target_path.leaf, "out2.mp4");
    assert_eq!(leaves(&plans[1]), vec!["c.mp4"]);
    assert!(plans[0].flags.is_empty());
}

#[test]
fn names_are_trimmed_and_crlf_is_dropped() {
    let spec = "out.mp4 :\r\n\t a.mp4 \r\n";
    let plans = parse_spec(spec, "/t", "/s", all_exist).unwrap();
    assert_eq!(plans.len(), 1);
    assert_eq!(plans[0].target_path.leaf, "out.mp4");
    assert_eq!(leaves(&plans[0]), vec!["a.mp4"]);
}

#[test]
fn a_new_target_closes_the_open_block() {
    let spec = "x:\n\ta\ny:\n\tb";
    let plans = parse_spec(spec, "/t", "/s", all_exist).unwrap();
    assert_eq!(plans.len(), 2);
    assert_eq!(leaves(&plans[1]), vec!["b"]);
}

#[test]
fn empty_spec_gives_no_plans() {
    let plans = parse_spec("", "/t", "/s", all_exist).unwrap();
    assert!(plans.is_empty());
    let plans = parse_spec("\n\n   \n", "/t", "/s", all_exist).unwrap();
    assert!(plans.is_empty());
}

#[test]
fn blank_line_and_end_of_file_push_a_plan_without_sources() {
    let plans = parse_spec("x:\n\ny:", "/t", "/s", all_exist).unwrap();
    assert_eq!(plans.len(), 2);
    assert!(plans[0].sources.is_empty());
    assert!(plans[1].sources.is_empty());
}

#[test]
fn target_without_sources_before_next_target_is_refused() {
    match parse_spec("x:\ny:\n\ta\n", "/t", "/s", all_exist) {
        Err(ParseError::MissingSources { target_name }) => assert_eq!(target_name, "x"),
        other => panic!("unexpected {:?}", other),
    }
}

#[test]
fn source_before_any_target_aborts_at_once() {
    // the duplicate targets that follow are never looked at
    match parse_spec("\n\ta.mp4\nx:\n\ta\nx:\n\tb\n", "/t", "/s", all_exist) {
        Err(ParseError::MissingTarget { source_name }) => assert_eq!(source_name, "a.mp4"),
        other => panic!("unexpected {:?}", other),
    }
}

#[test]
fn unrecognised_line_is_refused() {
    match parse_spec("x:\n\ta\nnot a line\n", "/t", "/s", all_exist) {
        Err(ParseError::InvalidLine { line }) => assert_eq!(line, "not a line"),
        other => panic!("unexpected {:?}", other),
    }
    match parse_spec(" x:\n", "/t", "/s", all_exist) {
        Err(ParseError::InvalidLine { line }) => assert_eq!(line, " x:"),
        other => panic!("unexpected {:?}", other),
    }
}

#[test]
fn tab_line_ending_in_colon_is_a_source() {
    let plans = parse_spec("x:\n\tclip:\n", "/t", "/s", all_exist).unwrap();
    assert_eq!(leaves(&plans[0]), vec!["clip:"]);
}

#[test]
fn duplicate_target_is_reported() {
    match parse_spec("x:\n\ta\n\nx:\n\tb\n", "/t", "/s", all_exist) {
        Err(ParseError::Validation { errors }) => {
            assert_eq!(errors.len(), 1);
            match &errors[0] {
                ValidationError::DuplicateTarget { target_name } => assert_eq!(target_name, "x"),
                other => panic!("unexpected {:?}", other),
            }
        }
        other => panic!("unexpected {:?}", other),
    }
}

#[test]
fn duplicate_source_is_reported() {
    match parse_spec("x:\n\ta\n\ta\n", "/t", "/s", all_exist) {
        Err(ParseError::Validation { errors }) => {
            assert_eq!(errors.len(), 1);
            match &errors[0] {
                ValidationError::DuplicateSource { source_name, target_name } => {
                    assert_eq!(source_name, "a");
                    assert_eq!(target_name, "x");
                }
                other => panic!("unexpected {:?}", other),
            }
        }
        other => panic!("unexpected {:?}", other),
    }
}

#[test]
fn missing_source_is_reported_with_every_other_error() {
    let spec = "x:\n\tgone.mp4\n\ta\n\ta\n\nx:\n\tb\n";
    let resolve = |p: &String| {
        if p.ends_with("gone.mp4") {
            Err("No such file or directory".to_string())
        } else {
            Ok(())
        }
    };
    match parse_spec(spec, "/t", "/s", resolve) {
        Err(ParseError::Validation { errors }) => {
            assert_eq!(errors.len(), 3);
            match &errors[0] {
                ValidationError::MissingSource { source_name, source_path, target_name, inner_error } => {
                    assert_eq!(source_name, "gone.mp4");
                    assert_eq!(source_path, "/s/gone.mp4");
                    assert_eq!(target_name, "x");
                    assert_eq!(inner_error, "No such file or directory");
                }
                other => panic!("unexpected {:?}", other),
            }
            assert!(matches!(&errors[1], ValidationError::DuplicateSource { source_name, .. } if source_name == "a"));
            assert!(matches!(&errors[2], ValidationError::DuplicateTarget { target_name } if target_name == "x"));
        }
        other => panic!("unexpected {:?}", other),
    }
}

#[test]
fn validate_plans_follows_the_checks_given() {
    let plan = Plan {
        target_path: PlanPath::new_relative_to("x", "/t"),
        sources: vec![PlanPath::new_relative_to("a", "/s"), PlanPath::new_relative_to("b", "/s")],
        flags: vec![],
    };
    let plans = vec![plan];
    let ok = vec![vec![Ok(()), Ok(())]];
    assert!(validate_plans(&plans, &ok).is_empty());
    let one_missing = vec![vec![Ok(()), Err("gone".to_string())]];
    let errors = validate_plans(&plans, &one_missing);
    assert_eq!(errors.len(), 1);
    assert!(matches!(&errors[0], ValidationError::MissingSource { source_name, .. } if source_name == "b"));
}

#[test]
fn resolving_joins_directory_and_name() {
    let p = PlanPath::new_relative_to("clip.mp4", "/media/in");
    assert_eq!(p.leaf, "clip.mp4");
    assert_eq!(p.path, format!("/media/in{}clip.mp4", std::path::MAIN_SEPARATOR));
}

#[test]
fn duplicate_targets_far_apart_are_reported() {
    match parse_spec("x:\n\ta\n\ny:\n\tb\n\nx:\n\tc\n", "/t", "/s", all_exist) {
        Err(ParseError::Validation { errors }) => {
            assert_eq!(errors.len(), 1);
            assert!(matches!(&errors[0], ValidationError::DuplicateTarget { target_name } if target_name == "x"));
        }
        other => panic!("unexpected {:?}", other),
    }
}
