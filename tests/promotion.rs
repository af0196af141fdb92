use reduction_react::data::VersionTag;
use reduction_react::local::{get_executable_file_name, local_build_version, scan_local_builds};
use reduction_react::promote::{plan_promotion, Promotion};
use reduction_react::{Error, Host, Reactor};

fn names(v: &[&str]) -> Vec<String> {
    v.iter().map(|s| s.to_string()).collect()
}

fn host(os: &str, exe: &str) -> Host {
    Host { os: os.to_string(), exe_file_name: exe.to_string() }
}

#[test]
fn scanner_finds_only_versioned_builds() {
    let files = names(&["app", "app-1.0.0", "app-1.2.0", "app-bogus", "other-1.0.0"]);
    let builds = scan_local_builds(&files, "app", "linux");
    let found: Vec<(VersionTag, String)> =
        builds.into_iter().map(|b| (b.version, b.file_name)).collect();
    assert_eq!(
        found,
        vec![
            (VersionTag::new(1, 0, 0), "app-1.0.0".to_string()),
            (VersionTag::new(1, 2, 0), "app-1.2.0".to_string()),
        ]
    );
}

#[test]
fn scanner_strips_windows_extension() {
    assert_eq!(local_build_version("app-1.2.0.exe", "app", "windows"), Some(VersionTag::new(1, 2, 0)));
    assert_eq!(local_build_version("app-1.2.0.exe", "app", "linux"), None);
    assert_eq!(local_build_version("my-app-3.4.5", "my-app", "linux"), Some(VersionTag::new(3, 4, 5)));
    assert_eq!(local_build_version("application-1.0.0", "app", "linux"), None);
    assert_eq!(local_build_version("app-", "app", "linux"), None);
}

#[test]
fn executable_names_per_platform() {
    assert_eq!(get_executable_file_name("app", "windows").unwrap(), "app.exe");
    assert_eq!(get_executable_file_name("app", "linux").unwrap(), "app");
    assert_eq!(get_executable_file_name("app", "unix").unwrap(), "app");
    match get_executable_file_name("app", "macos") {
        Err(Error::UnsupportedOS(os)) => assert_eq!(os, "macos"),
        _ => panic!("macos is not supported"),
    }
}

fn plan(running: VersionTag, exe: &str, files: &[&str]) -> Result<Promotion, Error> {
    let builds = scan_local_builds(&names(files), "app", "linux");
    plan_promotion(running, "app", "linux", exe, &builds)
}

#[test]
fn hands_off_to_newer_build_without_pruning() {
    match plan(VersionTag::new(1, 0, 0), "app", &["app", "app-0.9.0", "app-1.2.0"]) {
        Ok(Promotion::HandOff { file_name }) => assert_eq!(file_name, "app-1.2.0"),
        _ => panic!("expected a hand-off to app-1.2.0"),
    }
}

#[test]
fn hands_off_to_greatest_of_several_newer_builds() {
    match plan(VersionTag::new(1, 0, 0), "app", &["app-1.1.0", "app-2.0.0", "app-1.5.0"]) {
        Ok(Promotion::HandOff { file_name }) => assert_eq!(file_name, "app-2.0.0"),
        _ => panic!("expected a hand-off to app-2.0.0"),
    }
}

#[test]
fn versioned_self_becomes_canonical_without_pruning() {
    match plan(VersionTag::new(1, 2, 0), "app-1.2.0", &["app-0.9.0", "app-1.0.0", "app-1.2.0"]) {
        Ok(Promotion::CopySelfAndHandOff { from, to }) => {
            assert_eq!(from, "app-1.2.0");
            assert_eq!(to, "app");
        }
        _ => panic!("expected the running build to become canonical"),
    }
    let builds = scan_local_builds(&names(&["app-0.9.0"]), "app", "plan9");
    assert!(matches!(
        plan_promotion(VersionTag::new(1, 2, 0), "app", "plan9", "app-1.2.0", &builds),
        Err(Error::UnsupportedOS(_))
    ));
}

#[test]
fn canonical_self_prunes_stale_builds() {
    match plan(VersionTag::new(1, 0, 0), "app", &["app", "app-0.5.0"]) {
        Ok(Promotion::Prune { stale }) => assert_eq!(stale, vec!["app-0.5.0".to_string()]),
        _ => panic!("expected pruning"),
    }
    match plan(VersionTag::new(1, 0, 0), "app", &["app-1.0.0", "app", "app-0.2.1"]) {
        Ok(Promotion::Prune { stale }) => assert_eq!(stale, names(&["app-0.2.1", "app-1.0.0"])),
        _ => panic!("expected pruning"),
    }
}

#[test]
fn pruning_again_finds_nothing() {
    match plan(VersionTag::new(1, 0, 0), "app", &["app"]) {
        Ok(Promotion::Prune { stale }) => assert!(stale.is_empty()),
        _ => panic!("expected an empty prune"),
    }
}

#[test]
fn reactor_pass_uses_host_context() {
    let h = host("linux", "app");
    let reactor = Reactor::new("app", "1.0.0", "http://127.0.0.1/app.yaml", &h).unwrap();
    let found = reactor.find_other_available_versions(&h, &names(&["app-0.5.0", "app-x"]));
    assert_eq!(found.len(), 1);
    match reactor.self_update_if_available(&h, &names(&["app", "app-0.5.0"])) {
        Ok(Promotion::Prune { stale }) => assert_eq!(stale, names(&["app-0.5.0"])),
        _ => panic!("expected pruning"),
    }
}

#[test]
fn construction_checks_executable_version() {
    assert!(Reactor::new("app", "1.0.0", "u", &host("linux", "app-1.0.0")).is_ok());
    assert!(Reactor::new("app", "1.0.0", "u", &host("linux", "app-bogus")).is_ok());
    assert!(matches!(
        Reactor::new("app", "1.0.0", "u", &host("linux", "app-1.0.1")),
        Err(Error::InvalidLocalVersionError)
    ));
    assert!(matches!(
        Reactor::new("app", "1.0", "u", &host("linux", "app")),
        Err(Error::InvalidLocalVersionError)
    ));
    assert!(matches!(
        Reactor::new("app", "1.0.0", "u", &host("windows", "app-2.0.0.exe")),
        Err(Error::InvalidLocalVersionError)
    ));
    let r = Reactor::new("app", "2.0.0", "http://x/m.yaml", &host("windows", "app-2.0.0.exe")).unwrap();
    assert_eq!(r.name(), "app");
    assert_eq!(r.version(), VersionTag::new(2, 0, 0));
    assert_eq!(r.publishing_url(), "http://x/m.yaml");
}

#[test]
fn second_pass_after_pruning_has_nothing_to_do() {
    let files = names(&["app", "app-0.5.0", "notes.txt", "app-0.9.1"]);
    let running = VersionTag::new(1, 0, 0);
    let builds = scan_local_builds(&files, "app", "linux");
    let stale = match plan_promotion(running, "app", "linux", "app", &builds) {
        Ok(Promotion::Prune { stale }) => stale,
        _ => panic!("expected pruning"),
    };
    assert_eq!(stale, names(&["app-0.5.0", "app-0.9.1"]));
    let rest: Vec<String> = files.into_iter().filter(|f| !stale.contains(f)).collect();
    let builds = scan_local_builds(&rest, "app", "linux");
    assert!(builds.is_empty());
    match plan_promotion(running, "app", "linux", "app", &builds) {
        Ok(Promotion::Prune { stale }) => assert!(stale.is_empty()),
        _ => panic!("expected an empty prune"),
    }
}

#[test]
fn any_dashed_executable_name_becomes_canonical() {
    match plan(VersionTag::new(1, 0, 0), "foo-bar", &[]) {
        Ok(Promotion::CopySelfAndHandOff { from, to }) => {
            assert_eq!(from, "foo-bar");
            assert_eq!(to, "app");
        }
        _ => panic!("expected foo-bar to be copied to app"),
    }
}

#[test]
fn dashed_program_name_running_canonically_is_copied() {
    let builds = scan_local_builds(&names(&["my-app", "my-app-0.1.0"]), "my-app", "linux");
    match plan_promotion(VersionTag::new(1, 0, 0), "my-app", "linux", "my-app", &builds) {
        Ok(Promotion::CopySelfAndHandOff { from, to }) => {
            assert_eq!(from, "my-app");
            assert_eq!(to, "my-app");
        }
        _ => panic!("expected a copy to the canonical name"),
    }
    let builds = scan_local_builds(&names(&["my-app.exe"]), "my-app", "windows");
    match plan_promotion(VersionTag::new(1, 0, 0), "my-app", "windows", "my-app-1.0.0.exe", &builds) {
        Ok(Promotion::CopySelfAndHandOff { to, .. }) => assert_eq!(to, "my-app.exe"),
        _ => panic!("expected a copy to my-app.exe"),
    }
}

#[test]
fn stale_builds_are_pruned_oldest_first() {
    match plan(VersionTag::new(1, 0, 0), "app", &["app-0.9.0", "app-0.5.0"]) {
        Ok(Promotion::Prune { stale }) => assert_eq!(stale, names(&["app-0.5.0", "app-0.9.0"])),
        _ => panic!("expected pruning"),
    }
    match plan(VersionTag::new(2, 0, 0), "app", &["app-1.10.0", "app-2.0.0", "app-1.2.0", "app-0.0.1"]) {
        Ok(Promotion::Prune { stale }) => {
            assert_eq!(stale, names(&["app-0.0.1", "app-1.2.0", "app-1.10.0", "app-2.0.0"]))
        }
        _ => panic!("expected pruning"),
    }
    let builds = scan_local_builds(&names(&["app-1.0.0.exe", "app-0.5.0", "app-1.0.0"]), "app", "windows");
    match plan_promotion(VersionTag::new(1, 0, 0), "app", "windows", "app.exe", &builds) {
        Ok(Promotion::Prune { stale }) => {
            assert_eq!(stale, names(&["app-0.5.0", "app-1.0.0", "app-1.0.0.exe"]))
        }
        _ => panic!("expected pruning"),
    }
}

#[test]
fn newest_of_equal_versions_is_the_greater_name() {
    let builds = scan_local_builds(&names(&["app-2.0.0.exe", "app-2.0.0"]), "app", "windows");
    match plan_promotion(VersionTag::new(1, 0, 0), "app", "windows", "app.exe", &builds) {
        Ok(Promotion::HandOff { file_name }) => assert_eq!(file_name, "app-2.0.0.exe"),
        _ => panic!("expected a hand-off"),
    }
    let builds = scan_local_builds(&names(&["app-2.0.0", "app-2.0.0.exe"]), "app", "windows");
    match plan_promotion(VersionTag::new(1, 0, 0), "app", "windows", "app.exe", &builds) {
        Ok(Promotion::HandOff { file_name }) => assert_eq!(file_name, "app-2.0.0.exe"),
        _ => panic!("expected a hand-off"),
    }
}

#[test]
fn scanner_reads_text_after_last_dash() {
    let builds = scan_local_builds(&names(&["app-x-1.0.0"]), "app", "linux");
    assert_eq!(builds.len(), 1);
    assert_eq!(builds[0].version, VersionTag::new(1, 0, 0));
    assert_eq!(builds[0].file_name, "app-x-1.0.0");
}
