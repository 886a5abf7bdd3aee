use hoplite::server::{
    nginx_global_directives, nginx_global_directives_for, parse_server_arguments,
    render_worker_configuration, ServerCommand,
    validate_worker_environment_name, validate_workers, MAX_DISTRIBUTION_WORKER_ENVIRONMENT_NAMES,
    MAX_DISTRIBUTION_WORKER_ENVIRONMENT_NAME_BYTES,
};

#[test]
fn validates_worker_overrides() {
    assert!(validate_workers("auto").is_ok());
    assert!(validate_workers("1").is_ok());
    assert!(validate_workers("64").is_ok());
    assert!(validate_workers("0").is_err());
    assert!(validate_workers("many").is_err());
}

#[test]
fn generic_server_preserves_no_provider_environment() {
    assert_eq!(nginx_global_directives_for(None).unwrap(), "daemon off;");
    assert_eq!(nginx_global_directives().unwrap(), "daemon off;");
}

#[test]
fn distribution_server_preserves_only_named_environment() {
    let directives =
        nginx_global_directives_for(Some("HOPLITE_BLOB_ROOT,HOPLITE_BLOB_MAX_OBJECT_BYTES"))
            .unwrap();
    assert_eq!(
        directives,
        "daemon off; env HOPLITE_BLOB_ROOT; env HOPLITE_BLOB_MAX_OBJECT_BYTES;"
    );
    assert!(!directives.contains('='));
}

#[test]
fn rejects_invalid_distribution_worker_environment() {
    for environment in [
        "",
        "1HOPLITE_ROOT",
        "HOPLITE-ROOT",
        "HOPLITE ROOT",
        "HOPLITE_ROOT=secret",
        "HOPLITE_ROOT,,HOPLITE_LIMIT",
        "HOPLITE_ROOT,HOPLITE_ROOT",
    ] {
        assert!(nginx_global_directives_for(Some(environment)).is_err());
    }

    let too_many = (0..=MAX_DISTRIBUTION_WORKER_ENVIRONMENT_NAMES)
        .map(|index| format!("HOPLITE_{index}"))
        .collect::<Vec<_>>()
        .join(",");
    assert!(nginx_global_directives_for(Some(&too_many)).is_err());

    let too_long = format!(
        "H{}",
        "A".repeat(MAX_DISTRIBUTION_WORKER_ENVIRONMENT_NAME_BYTES)
    );
    assert!(nginx_global_directives_for(Some(&too_long)).is_err());
}

#[test]
fn rewrites_generated_worker_directive() {
    let source = "worker_processes 4;\npid .hoplite/nginx.pid;\n";
    assert_eq!(
        render_worker_configuration(source, "auto").unwrap(),
        "worker_processes auto;\npid .hoplite/nginx.pid;\n"
    );
}

#[test]
fn rejects_missing_worker_directive() {
    assert!(render_worker_configuration("events {}\n", "auto").is_err());
}

#[test]
fn worker_override_errors_quote_the_value() {
    assert_eq!(
        validate_workers("many").unwrap_err(),
        "worker override must be auto or a positive integer; got \"many\""
    );
    assert!(validate_workers("+3").is_ok());
    assert!(validate_workers("").is_err());
    assert!(validate_workers("-1").is_err());
    assert!(validate_workers("99999999999999999999999").is_err());
}

#[test]
fn environment_name_errors_name_each_refusal() {
    assert_eq!(
        nginx_global_directives_for(Some("HOPLITE-ROOT")).unwrap_err(),
        "invalid distribution worker environment name \"HOPLITE-ROOT\""
    );
    assert_eq!(
        nginx_global_directives_for(Some("A,A")).unwrap_err(),
        "distribution worker environment contains duplicate name \"A\""
    );
    let exactly_max = (0..MAX_DISTRIBUTION_WORKER_ENVIRONMENT_NAMES)
        .map(|index| format!("N{index}"))
        .collect::<Vec<_>>()
        .join(",");
    assert!(nginx_global_directives_for(Some(&exactly_max)).is_ok());
    let one_more = format!("{exactly_max},EXTRA");
    assert_eq!(
        nginx_global_directives_for(Some(&one_more)).unwrap_err(),
        "distribution worker environment exceeds 32 names"
    );
    let longest = "A".repeat(MAX_DISTRIBUTION_WORKER_ENVIRONMENT_NAME_BYTES);
    assert!(validate_worker_environment_name(&longest).is_ok());
    assert!(validate_worker_environment_name("_x9").is_ok());
}

#[test]
fn worker_rendering_keeps_the_rest_of_the_configuration() {
    let source = "pid a;\nworker_processes  2 ;\nevents {}\nworker_processes 9;\n";
    assert_eq!(
        render_worker_configuration(source, "8").unwrap(),
        "pid a;\nworker_processes 8;\nevents {}\nworker_processes 9;\n"
    );
    assert_eq!(
        render_worker_configuration("worker_processes 4", "auto").unwrap_err(),
        "generated Nginx worker_processes directive is incomplete"
    );
    assert_eq!(
        render_worker_configuration("events {}\n", "auto").unwrap_err(),
        "generated Nginx configuration has no worker_processes directive"
    );
    assert!(render_worker_configuration("worker_processes 4;", "0").is_err());
}

#[test]
fn server_arguments_select_project_and_workers() {
    let args = |values: &[&str]| values.iter().map(|v| v.to_string()).collect::<Vec<_>>();
    assert_eq!(parse_server_arguments(&args(&["-V"]), None), Ok(ServerCommand::Version));
    assert_eq!(parse_server_arguments(&args(&["help"]), None), Ok(ServerCommand::Help));
    assert_eq!(
        parse_server_arguments(&args(&["--workers", "4", "proj"]), Some("auto".into())),
        Ok(ServerCommand::Serve { project: Some("proj".into()), workers: Some("4".into()) })
    );
    assert_eq!(
        parse_server_arguments(&args(&["--workers=auto"]), None),
        Ok(ServerCommand::Serve { project: None, workers: Some("auto".into()) })
    );
    assert_eq!(
        parse_server_arguments(&args(&[]), Some("2".into())),
        Ok(ServerCommand::Serve { project: None, workers: Some("2".into()) })
    );
    assert_eq!(
        parse_server_arguments(&args(&["--workers"]), None).unwrap_err(),
        "--workers requires auto or a positive integer"
    );
    assert_eq!(
        parse_server_arguments(&args(&["-x"]), None).unwrap_err(),
        "unknown option: -x"
    );
    assert_eq!(
        parse_server_arguments(&args(&["a", "b"]), None).unwrap_err(),
        "unexpected argument: b"
    );
}
