use hoplite::dev_console::{
    check_profile_main, dev_operation, list_all, log_tail_start, managed, record_value, start_check, start_options,
    DevConsole, DevOperation, ServerRecord,
};
use hoplite::hal::HalValue;

fn var(symbol: &str) -> HalValue {
    HalValue::Var(symbol.into(), Box::new(HalValue::Nil))
}

fn keyword(text: &str) -> HalValue {
    HalValue::Keyword(text.into())
}

fn record(app: &str, production: bool) -> ServerRecord {
    ServerRecord { app: app.into(), project: format!("/work/{app}"), profile: None, production }
}

#[test]
fn operations_name_an_app_var() {
    match dev_operation("restart", vec![var("sample/app")]).unwrap() {
        DevOperation::Start { app, options, restart } => {
            assert_eq!(app, "sample/app");
            assert!(restart);
            assert!(matches!(options, HalValue::Mapping(entries) if entries.is_empty()));
        }
        other => panic!("unexpected {other:?}"),
    }
    assert!(matches!(dev_operation("stop", vec![var("a/b")]).unwrap(), DevOperation::Stop { app } if app == "a/b"));
    assert!(matches!(dev_operation("list-all", vec![]).unwrap(), DevOperation::ListAll));
    assert_eq!(
        dev_operation("list-all", vec![var("a/b")]).unwrap_err(),
        "unknown hoplite.dev operation \"list-all\""
    );
    assert_eq!(dev_operation("stop", vec![]).unwrap_err(), "dev/stop requires an app Var");
    assert_eq!(dev_operation("status", vec![]).unwrap_err(), "dev/status requires an app Var");
    assert_eq!(dev_operation("logs", vec![]).unwrap_err(), "operation requires an app Var");
    assert_eq!(
        dev_operation("start", vec![keyword("app")]).unwrap_err(),
        "development servers must be identified by an app Var such as #'app/app"
    );
    assert_eq!(
        dev_operation("start", vec![var("a/b"), HalValue::Number(1)]).unwrap_err(),
        "development options must be a map"
    );
}

#[test]
fn options_choose_project_profile_and_mode() {
    let options = HalValue::Mapping(vec![
        (keyword("project"), HalValue::String("/work/site".into())),
        (keyword("profile"), keyword("staging")),
        (keyword("mode"), keyword("prod")),
        (keyword("bytes"), HalValue::Number(10)),
    ]);
    let (project, profile, production) = start_options(&options);
    assert_eq!(project.as_deref(), Some("/work/site"));
    assert_eq!(profile.as_deref(), Some("staging"));
    assert!(production);
    assert_eq!(log_tail_start(100, &options), 90);
    assert_eq!(log_tail_start(5, &options), 0);
    let defaults = HalValue::Mapping(vec![]);
    assert_eq!(log_tail_start(20_000, &defaults), 20_000 - 16_384);
    let negative = HalValue::Mapping(vec![(keyword("bytes"), HalValue::Number(-4))]);
    assert_eq!(log_tail_start(7, &negative), 7);
}

#[test]
fn the_registry_keeps_one_record_per_app_in_order() {
    let mut console = DevConsole::new();
    console.insert(record("z/app", false));
    console.insert(record("a/app", false));
    console.insert(record("z/app", true));
    let apps: Vec<_> = console.records().iter().map(|r| (r.app.clone(), r.production)).collect();
    assert_eq!(apps, vec![("a/app".to_string(), false), ("z/app".to_string(), true)]);
    assert!(managed(&console, "z/app").unwrap().production);
    console.remove("z/app");
    assert_eq!(managed(&console, "z/app").unwrap_err(), "z/app is not managed by this console");
    assert_eq!(console.records().len(), 1);
}

#[test]
fn starts_of_running_servers_need_restart() {
    let existing = record("a/app", false);
    assert_eq!(start_check(None, false, true).unwrap(), false);
    assert_eq!(
        start_check(Some(&existing), false, true).unwrap_err(),
        "a/app is already running; use hoplite.dev/restart"
    );
    assert_eq!(start_check(Some(&existing), true, true).unwrap(), true);
    assert_eq!(start_check(Some(&existing), false, false).unwrap(), false);
    assert!(check_profile_main("a/app", "a/app").is_ok());
    assert_eq!(
        check_profile_main("a/app", "b/main").unwrap_err(),
        "app Var #a/app is not the selected profile main #b/main"
    );
}

#[test]
fn record_values_carry_mode_and_status() {
    let mut with_profile = record("a/app", true);
    with_profile.profile = Some("staging".into());
    match record_value(&with_profile, false) {
        HalValue::Mapping(entries) => {
            assert_eq!(entries.len(), 5);
            assert!(matches!(&entries[0].1, HalValue::Symbol(s) if s == "a/app"));
            assert!(matches!(&entries[2].1, HalValue::Keyword(k) if k == "staging"));
            assert!(matches!(&entries[3].1, HalValue::Keyword(k) if k == "prod"));
            assert!(matches!(&entries[4].1, HalValue::Keyword(k) if k == "stopped"));
        }
        _ => panic!("record value is a map"),
    }
}

#[test]
fn list_all_reports_only_console_managed_apps() {
    let mut console = DevConsole::new();
    console.insert(ServerRecord {
        app: "sample/app".into(),
        project: "/definitely/not/running".into(),
        profile: Some("server".into()),
        production: false,
    });
    let values = list_all(&console, &vec![false]);
    assert_eq!(values.len(), 1);
    match &values[0] {
        HalValue::Mapping(entries) => {
            assert!(matches!(&entries[4].0, HalValue::Keyword(k) if k == "status"));
            assert!(matches!(&entries[4].1, HalValue::Keyword(k) if k == "stopped"));
        }
        _ => panic!("list-all entry is a map"),
    }
}
