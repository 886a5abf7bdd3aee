use hoplite::doctor::{
    classify_project_error, collect_deep_preflight, collect_generated_application_checks,
    collect_platform_checks, collect_project_checks, parse_doctor_arguments, render_human,
    stream_has_line, stream_has_line_prefix, verdict, ApplicationHealth, Check, CheckStatus,
    DoctorCommand, ExecutableProbe, NginxProbe, PlatformProbes, ProcessOutput, ProfileProbe,
    ProjectProbe, Report, ServerProbe,
};

#[test]
fn version_probes_require_exact_reported_identities() {
    assert!(stream_has_line(
        b"nginx version: nginx/1.30.4\n",
        b"nginx version: nginx/1.30.4"
    ));
    assert!(!stream_has_line(
        b"nginx version: nginx/1.30.40\n",
        b"nginx version: nginx/1.30.4"
    ));
    assert!(!stream_has_line(
        b"nginx version: nginx/1.28.0\n",
        b"nginx version: nginx/1.30.4"
    ));
    assert!(stream_has_line(
        b"Hoplite server 0.2.0\nNginx 1.30.4 (embedded)\n",
        b"Hoplite server 0.2.0"
    ));
    assert!(stream_has_line_prefix(
        b"Hoplite server 0.2.0\nNginx 1.30.4 (embedded)\n",
        b"Nginx 1.30.4 ("
    ));
}

#[test]
fn line_probes_strip_one_carriage_return() {
    assert!(stream_has_line(b"a\r\nb", b"a"));
    assert!(stream_has_line(b"a\r\nb", b"b"));
    assert!(!stream_has_line(b"a\r\r\n", b"a"));
    assert!(stream_has_line(b"", b""));
    assert!(!stream_has_line_prefix(b"xNginx 1.30.4 (", b"Nginx 1.30.4 ("));
}

fn output(stdout: &[u8]) -> ProcessOutput {
    ProcessOutput {
        success: true,
        stdout: stdout.to_vec(),
        stderr: Vec::new(),
    }
}

#[test]
fn platform_checks_follow_each_probe() {
    let probes = PlatformProbes {
        operating_system: "linux".into(),
        executable: ExecutableProbe::Regular("/usr/bin/hoplite".into()),
        nginx: NginxProbe::Ran("/usr/bin/nginx".into(), output(b"nginx version: nginx/1.30.4\n")),
        server: ServerProbe::Ran(
            "/usr/bin/hoplite-server".into(),
            output(b"Hoplite server 0.2.0\nNginx 1.30.4 (external)\n"),
        ),
        trusted_ca: None,
    };
    let mut checks = Vec::new();
    collect_platform_checks(&probes, false, "0.2.0", "external", &mut checks);
    assert_eq!(checks.len(), 5);
    assert_eq!(checks[0].summary, "linux is a supported Hoplite host");
    assert_eq!(checks[2].status, CheckStatus::Pass);
    assert_eq!(checks[2].summary, "Nginx 1.30.4 (external) is executable");
    assert_eq!(checks[3].status, CheckStatus::Pass);
    assert_eq!(checks[4].status, CheckStatus::Warn);
    assert_eq!(
        checks[4].detail.as_deref(),
        Some("hoplite/doctor-ca-bundle-unavailable")
    );
    assert!(checks.iter().all(|check| check.path.is_none()));

    let probes = PlatformProbes {
        operating_system: "windows".into(),
        executable: ExecutableProbe::Unresolved,
        nginx: NginxProbe::Ran("/n".into(), output(b"nginx version: nginx/1.30.40\n")),
        server: ServerProbe::Ran("/s".into(), output(b"Hoplite server 0.1.0\n")),
        trusted_ca: Some("/etc/ssl/cert.pem".into()),
    };
    let mut checks = Vec::new();
    collect_platform_checks(&probes, true, "0.2.0", "embedded", &mut checks);
    assert_eq!(checks[0].status, CheckStatus::Fail);
    assert_eq!(checks[1].detail.as_deref(), Some("hoplite/doctor-executable-unavailable"));
    assert_eq!(
        checks[2].detail.as_deref(),
        Some("hoplite/doctor-nginx-version-incompatible")
    );
    assert_eq!(checks[2].path.as_deref(), Some("/n"));
    assert_eq!(
        checks[3].detail.as_deref(),
        Some("hoplite/doctor-server-cli-incompatible")
    );
    assert_eq!(checks[4].path.as_deref(), Some("/etc/ssl/cert.pem"));
}

#[test]
fn project_checks_report_classes_not_errors() {
    let mut checks = Vec::new();
    let found = collect_project_checks(
        &Err("no project.edn above /home/alice/secret".into()),
        "/home/alice/secret",
        false,
        &mut checks,
    );
    assert!(!found);
    assert_eq!(checks.len(), 1);
    assert_eq!(checks[0].detail.as_deref(), Some("hoplite/doctor-project-not-found"));
    assert!(checks[0].path.is_none());
    assert_eq!(classify_project_error("cannot read project.edn"), "hoplite/doctor-project-unreadable");
    assert_eq!(classify_project_error("bad map"), "hoplite/doctor-project-invalid");

    let project = ProjectProbe {
        id: "doctor/example".into(),
        version: "0.1.0".into(),
        manifest_path: "/p/project.edn".into(),
        profile: ProfileProbe::Found {
            name: "server".into(),
            language: "hoplite".into(),
            main: "doctor.app/app".into(),
        },
        source_files: Some(1),
        capabilities: vec!["host/nginx".into()],
        platform_modules: Some(2),
    };
    let mut checks = Vec::new();
    assert!(collect_project_checks(&Ok(project), "/p", false, &mut checks));
    assert_eq!(checks.len(), 5);
    assert!(checks.iter().all(|check| check.status == CheckStatus::Pass));
    assert_eq!(checks[0].summary, "project doctor/example 0.1.0 is readable");
    assert_eq!(checks[2].summary, "1 HAL source file are discoverable");
    assert_eq!(checks[4].summary, "2 platform module activations validated");
    assert!(checks.iter().all(|check| check.path.is_none()));
}

#[test]
fn generated_and_deep_checks() {
    let mut checks = Vec::new();
    collect_generated_application_checks(
        "/p/.hoplite",
        true,
        true,
        Some(ApplicationHealth { applications: 1, routes: 3, source_inputs: 0 }),
        true,
        &mut checks,
    );
    assert_eq!(
        checks[0].summary,
        "validated 1 application, 3 routes, and source-free output"
    );
    assert_eq!(checks[0].path.as_deref(), Some("/p/.hoplite"));
    collect_generated_application_checks("/p/.hoplite", true, false, None, false, &mut checks);
    assert_eq!(checks[1].detail.as_deref(), Some("hoplite/doctor-application-incomplete"));
    collect_deep_preflight(None, &mut checks);
    assert_eq!(
        checks[2].detail.as_deref(),
        Some("hoplite/doctor-deep-preflight-unavailable")
    );
}

#[test]
fn human_report_is_exact_and_counts_outcomes() {
    let report = Report {
        deep: false,
        strict: true,
        operating_system: "test-os".into(),
        architecture: "test-arch".into(),
        nginx_distribution: "test".into(),
        checks: vec![
            Check::pass("a", "fine".into()),
            Check::warn("b", "meh".into()).detail("class/b"),
        ],
    };
    assert_eq!(
        render_human(&report, "0.2.0"),
        "Hoplite doctor\nreport format: hoplite.doctor/0-alpha\nsystem: test-os/test-arch; Hoplite 0.2.0; Nginx 1.30.4 (test)\nmode: read-only, strict\n\n[pass] a: fine\n[warn] b: meh\n    class: class/b\n\nresult: healthy (1 warning, 0 failures)\n"
    );
    assert!(report.healthy());
    assert!(!report.complete());
    assert_eq!(
        verdict(&report, true).unwrap_err(),
        "hoplite/doctor-incomplete: 1 warning under --strict"
    );
    assert!(verdict(&report, false).is_ok());
    let failing = Report {
        checks: vec![Check::fail("x", "bad".into()), Check::fail("y", "bad".into())],
        ..report
    };
    assert_eq!(
        verdict(&failing, false).unwrap_err(),
        "hoplite/doctor-unhealthy: 2 required checks failed"
    );
}

#[test]
fn doctor_arguments_are_closed() {
    assert_eq!(parse_doctor_arguments(&vec!["help".into()]), Ok(DoctorCommand::Help));
    assert_eq!(
        parse_doctor_arguments(&vec!["--json".into(), "proj".into(), "--strict".into()]),
        Ok(DoctorCommand::Diagnose {
            target: Some("proj".into()),
            json: true,
            show_paths: false,
            deep: false,
            strict: true,
        })
    );
    assert_eq!(
        parse_doctor_arguments(&vec!["--fast".into()]).unwrap_err(),
        "hoplite/doctor-argument-invalid: unknown option \"--fast\""
    );
    assert_eq!(
        parse_doctor_arguments(&vec!["a".into(), "b".into()]).unwrap_err(),
        "hoplite/doctor-argument-invalid: unexpected target \"b\""
    );
}
