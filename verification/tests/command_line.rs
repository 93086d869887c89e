use may_rust::cli::{strip_prefix, CliError, CliOptions};

fn args(items: &[&str]) -> Vec<String> {
    items.iter().map(|x| String::from(*x)).collect()
}

#[test]
fn reads_every_kind_of_option() {
    let options = CliOptions::parse(&args(&[
        "--keep-intermediate",
        "-i",
        "a.speadl",
        "--output=out",
        "--input=b",
        "--input",
        "c",
        "-o",
        "-i",
    ]))
    .unwrap();
    assert!(options.keep_intermediate);
    assert_eq!(options.inputs, args(&["a.speadl", "b", "c"]));
    assert_eq!(options.outputs, args(&["out", "-i"]));
}

#[test]
fn refuses_a_flag_without_its_path_and_unknown_arguments() {
    assert_eq!(
        CliOptions::parse(&args(&["-i", "x", "--output"])).err(),
        Some(CliError::MissingPath(String::from("--output")))
    );
    assert_eq!(
        CliOptions::parse(&args(&["--inputs"])).err(),
        Some(CliError::UnknownArgument(String::from("--inputs")))
    );
    let none = CliOptions::parse(&args(&[])).unwrap();
    assert!(!none.keep_intermediate && none.inputs.is_empty() && none.outputs.is_empty());
}

#[test]
fn assigns_output_paths_to_inputs() {
    let none = CliOptions::parse(&args(&[])).unwrap();
    assert_eq!(none.output_paths(3, false), Ok(vec![None, None, None]));

    let one = CliOptions::parse(&args(&["-o", "out.py"])).unwrap();
    assert_eq!(one.output_paths(1, true), Ok(vec![Some(String::from("out.py"))]));
    assert_eq!(
        one.output_paths(2, true),
        Err(CliError::SingleOutputFileForManyInputs)
    );
    assert_eq!(
        one.output_paths(2, false),
        Ok(vec![Some(String::from("out.py")), Some(String::from("out.py"))])
    );

    let two = CliOptions::parse(&args(&["-o", "a", "-o", "b"])).unwrap();
    assert_eq!(
        two.output_paths(2, true),
        Ok(vec![Some(String::from("a")), Some(String::from("b"))])
    );
    assert_eq!(
        two.output_paths(3, false),
        Err(CliError::OutputCount { outputs: 2, inputs: 3 })
    );
}

#[test]
fn strips_a_prefix_only_where_it_stands() {
    assert_eq!(strip_prefix("--input=x", "--input="), Some(String::from("x")));
    assert_eq!(strip_prefix("--input=", "--input="), Some(String::new()));
    assert_eq!(strip_prefix("--inpu", "--input="), None);
    assert_eq!(strip_prefix("-input=x", "--input="), None);
}
