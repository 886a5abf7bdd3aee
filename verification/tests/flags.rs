use hoplite::flags::{file_descriptor, number_flag, optional_number, parse_arguments, required, Arguments};

const SUPERVISOR: [&str; 4] = ["--socket", "--bundle", "--namespace", "--source-bytes"];

fn args(items: &[&str]) -> Vec<String> {
    items.iter().map(|item| item.to_string()).collect()
}

fn flags(items: &[&str]) -> Vec<(String, String)> {
    match parse_arguments(&args(items), &SUPERVISOR).unwrap() {
        Arguments::Flags(values) => values,
        Arguments::Help => panic!("unexpected help"),
    }
}

#[test]
fn reads_flag_value_pairs() {
    let values = flags(&["--socket", "/run/console.sock", "--namespace", "sample.console"]);
    assert_eq!(values.len(), 2);
    assert_eq!(required(&values, "--socket").unwrap(), "/run/console.sock");
    assert_eq!(required(&values, "--namespace").unwrap(), "sample.console");
    assert_eq!(required(&values, "--bundle").unwrap_err(), "missing required argument --bundle");
}

#[test]
fn help_wins_wherever_it_is_reached_first() {
    assert!(matches!(parse_arguments(&args(&["--help"]), &SUPERVISOR).unwrap(), Arguments::Help));
    assert!(matches!(
        parse_arguments(&args(&["--socket", "x", "-h", "--unknown"]), &SUPERVISOR).unwrap(),
        Arguments::Help
    ));
}

#[test]
fn refuses_unknown_incomplete_and_repeated_flags() {
    assert_eq!(
        parse_arguments(&args(&["--verbose"]), &SUPERVISOR).unwrap_err(),
        "unknown argument \"--verbose\""
    );
    assert_eq!(
        parse_arguments(&args(&["--socket"]), &SUPERVISOR).unwrap_err(),
        "--socket requires a value"
    );
    assert_eq!(
        parse_arguments(&args(&["--socket", "a", "--socket", "b"]), &SUPERVISOR).unwrap_err(),
        "duplicate argument --socket"
    );
}

#[test]
fn numbers_are_unsigned_and_bounded() {
    let values = flags(&["--source-bytes", "+4096", "--namespace", "12x"]);
    assert_eq!(number_flag(&values, "--source-bytes", u64::MAX).unwrap(), 4096);
    assert_eq!(optional_number(&values, "--source-bytes", 4095).unwrap_err(), "--source-bytes must be an unsigned integer");
    assert_eq!(optional_number(&values, "--bundle", 10).unwrap(), None);
    assert_eq!(number_flag(&values, "--namespace", 100).unwrap_err(), "--namespace must be an unsigned integer");
    assert_eq!(number_flag(&values, "--bundle", 100).unwrap_err(), "missing required argument --bundle");
}

#[test]
fn file_descriptors_are_non_negative_i32() {
    let values = flags(&["--socket", "3", "--bundle", "-1", "--namespace", "-+1", "--source-bytes", "2147483648"]);
    assert_eq!(file_descriptor(&values, "--socket").unwrap(), 3);
    assert_eq!(file_descriptor(&values, "--bundle").unwrap_err(), "--bundle must be non-negative");
    assert_eq!(file_descriptor(&values, "--namespace").unwrap_err(), "--namespace must be a file descriptor");
    assert_eq!(file_descriptor(&values, "--source-bytes").unwrap_err(), "--source-bytes must be a file descriptor");
}
