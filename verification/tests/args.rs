use uniqr::ArgError;
use uniqr::get_args;

fn strings(strs: &[&str]) -> Vec<String> {
    strs.iter().map(|s| s.to_string()).collect()
}

#[test]
fn no_arguments_defaults_to_standard_input() {
    let config = get_args(&strings(&[])).unwrap();
    assert_eq!(config.in_file, "-");
    assert_eq!(config.out_file, None);
    assert!(!config.count);
}

#[test]
fn one_positional_names_the_input() {
    let config = get_args(&strings(&["input.txt"])).unwrap();
    assert_eq!(config.in_file, "input.txt");
    assert_eq!(config.out_file, None);
    assert!(!config.count);
}

#[test]
fn two_positionals_name_input_and_output() {
    let config = get_args(&strings(&["input.txt", "output.txt"])).unwrap();
    assert_eq!(config.in_file, "input.txt");
    assert_eq!(config.out_file, Some("output.txt".to_string()));
}

#[test]
fn dash_names_standard_input() {
    let config = get_args(&strings(&["-"])).unwrap();
    assert_eq!(config.in_file, "-");
}

#[test]
fn short_flag_enables_counting() {
    let config = get_args(&strings(&["-c", "input.txt"])).unwrap();
    assert!(config.count);
    assert_eq!(config.in_file, "input.txt");
}

#[test]
fn long_flag_enables_counting_anywhere() {
    let config = get_args(&strings(&["input.txt", "--count", "output.txt"])).unwrap();
    assert!(config.count);
    assert_eq!(config.in_file, "input.txt");
    assert_eq!(config.out_file, Some("output.txt".to_string()));
}

#[test]
fn unknown_option_is_refused() {
    let err = get_args(&strings(&["-x", "input.txt"])).unwrap_err();
    assert_eq!(err.argument(), "-x");
    match err {
        ArgError::UnknownOption(arg) => assert_eq!(arg, "-x"),
        other => panic!("unexpected error: {:?}", other),
    }
}

#[test]
fn third_positional_is_refused() {
    let err = get_args(&strings(&["a", "b", "c"])).unwrap_err();
    match err {
        ArgError::ExtraOperand(arg) => assert_eq!(arg, "c"),
        other => panic!("unexpected error: {:?}", other),
    }
}

#[test]
fn repeated_flag_stays_on() {
    let config = get_args(&strings(&["-c", "--count"])).unwrap();
    assert!(config.count);
    assert_eq!(config.in_file, "-");
}
