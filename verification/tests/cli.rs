use hoplite::cli::{command, verify_arguments, Command, VerifyRequest};

fn args(items: &[&str]) -> Vec<String> {
    items.iter().map(|item| item.to_string()).collect()
}

#[test]
fn names_each_command() {
    assert_eq!(command(&args(&[])).unwrap(), Command::Repl);
    assert_eq!(command(&args(&["repl"])).unwrap(), Command::Repl);
    assert_eq!(command(&args(&["-V"])).unwrap(), Command::Version);
    assert_eq!(command(&args(&["--version"])).unwrap(), Command::Version);
    assert_eq!(command(&args(&["serve", "start", "."])).unwrap(), Command::Serve);
    assert_eq!(command(&args(&["doctor", "--json"])).unwrap(), Command::Doctor);
    assert_eq!(command(&args(&["inspect"])).unwrap(), Command::Inspect);
    assert_eq!(command(&args(&["verify"])).unwrap(), Command::Verify);
    assert_eq!(command(&args(&["package", "build"])).unwrap(), Command::Package);
    assert_eq!(command(&args(&["-h"])).unwrap(), Command::Help);
    assert_eq!(command(&args(&["run", "app.hal", "extra"])).unwrap(), Command::Run("app.hal".into()));
}

#[test]
fn eval_joins_its_arguments() {
    assert_eq!(command(&args(&["eval", "(+", "1", "2)"])).unwrap(), Command::Eval("(+ 1 2)".into()));
    assert_eq!(command(&args(&["eval", "", ""])).unwrap(), Command::Eval(" ".into()));
    assert_eq!(command(&args(&["eval"])).unwrap_err(), "eval requires a Hara expression");
    assert_eq!(command(&args(&["eval", ""])).unwrap_err(), "eval requires a Hara expression");
}

#[test]
fn refuses_unknown_and_incomplete_commands() {
    assert_eq!(command(&args(&["run"])).unwrap_err(), "run requires a .hal file");
    assert_eq!(command(&args(&["deploy"])).unwrap_err(), "unknown command: deploy");
}

#[test]
fn verify_reads_a_target_and_a_manifest() {
    assert_eq!(verify_arguments(&args(&["help"])).unwrap(), VerifyRequest::Help);
    assert_eq!(
        verify_arguments(&args(&[])).unwrap(),
        VerifyRequest::Verify { target: None, manifest: None }
    );
    assert_eq!(
        verify_arguments(&args(&["out", "--manifest", "a.hta", "--manifest", "b.hta"])).unwrap(),
        VerifyRequest::Verify { target: Some("out".into()), manifest: Some("b.hta".into()) }
    );
    assert_eq!(
        verify_arguments(&args(&["--manifest"])).unwrap_err(),
        "verify --manifest requires a file"
    );
    assert_eq!(
        verify_arguments(&args(&["one", "two"])).unwrap_err(),
        "unexpected verify argument: two"
    );
}
