use reduction_react::archive::{check_entry, EntryAction};
use reduction_react::checker::{CheckUpdateResult, UpdateChecker};
use reduction_react::cycle::{Action, Event, Stage};
use reduction_react::data::{PackageTag, VersionTag};
use reduction_react::{Error, Host, Reactor, ReactorBuilder};

fn tag(v: (u32, u32, u32)) -> PackageTag {
    PackageTag::new(VersionTag::new(v.0, v.1, v.2), "h".to_string(), "http://x/p.zip".to_string())
}

#[test]
fn update_check_compares_strictly() {
    let checker = UpdateChecker::new(VersionTag::new(1, 2, 0), "http://x/m.yaml");
    assert_eq!(checker.publishing_url(), "http://x/m.yaml");
    assert!(matches!(checker.check_update(Ok(tag((1, 2, 0)))), Ok(CheckUpdateResult::UpToDate)));
    assert!(matches!(checker.check_update(Ok(tag((1, 1, 9)))), Ok(CheckUpdateResult::UpToDate)));
    match checker.check_update(Ok(tag((1, 2, 1)))) {
        Ok(CheckUpdateResult::UpdateAvailable(t)) => {
            assert_eq!(t.version, VersionTag::new(1, 2, 1));
            assert_eq!(t.hash, "h");
            assert_eq!(t.download_url, "http://x/p.zip");
        }
        _ => panic!("expected an update"),
    }
    assert!(matches!(
        checker.check_update(Err(Error::NetError("503".to_string()))),
        Err(Error::NetError(_))
    ));
    assert_eq!(checker.get_latest_version(Ok(tag((3, 0, 0)))).unwrap(), VersionTag::new(3, 0, 0));
}

fn reactor() -> Reactor {
    let host = Host { os: "linux".to_string(), exe_file_name: "app".to_string() };
    ReactorBuilder::new()
        .name("app")
        .version("1.0.4")
        .publishing_url("http://127.0.0.1:8080/app.yaml")
        .finish(&host)
        .unwrap()
}

#[test]
fn builder_sets_everything() {
    let r = reactor();
    assert_eq!(r.name(), "app");
    assert_eq!(r.version(), VersionTag::new(1, 0, 4));
    assert_eq!(r.publishing_url(), "http://127.0.0.1:8080/app.yaml");
}

#[test]
fn cycle_with_update() {
    let r = reactor();
    let (s, a) = r.oneclick(Stage::Start, Event::Begin);
    assert_eq!(s, Stage::FirstPromotion);
    assert!(matches!(a, Action::Promote));
    let (s, a) = r.oneclick(s, Event::Promoted(Ok(())));
    assert_eq!(s, Stage::UpdateCheck);
    assert!(matches!(a, Action::FetchManifest));
    let (s, a) = r.oneclick(s, Event::ManifestFetched(Ok(tag((1, 1, 0)))));
    assert_eq!(s, Stage::Applying);
    match a {
        Action::Apply(t) => assert_eq!(t.version, VersionTag::new(1, 1, 0)),
        _ => panic!("expected an apply"),
    }
    let (s, a) = r.oneclick(s, Event::Applied(Ok(())));
    assert_eq!(s, Stage::SecondPromotion);
    assert!(matches!(a, Action::Promote));
    let (s, a) = r.oneclick(s, Event::Promoted(Ok(())));
    assert_eq!(s, Stage::Finished);
    assert!(matches!(a, Action::Finish(Ok(()))));
}

#[test]
fn cycle_up_to_date_skips_apply() {
    let r = reactor();
    let (s, a) = r.oneclick(Stage::UpdateCheck, Event::ManifestFetched(Ok(tag((1, 0, 4)))));
    assert_eq!(s, Stage::SecondPromotion);
    assert!(matches!(a, Action::Promote));
}

#[test]
fn cycle_stops_at_first_failure() {
    let r = reactor();
    let (s, a) = r.oneclick(Stage::FirstPromotion, Event::Promoted(Err(Error::PermissionError("denied".to_string()))));
    assert_eq!(s, Stage::Finished);
    assert!(matches!(a, Action::Finish(Err(Error::PermissionError(_)))));
    let (s, a) = r.oneclick(Stage::UpdateCheck, Event::ManifestFetched(Err(Error::ParsingError { source: "bad".to_string() })));
    assert_eq!(s, Stage::Finished);
    assert!(matches!(a, Action::Finish(Err(Error::ParsingError { .. }))));
    let (s, a) = r.oneclick(Stage::Applying, Event::Applied(Err(Error::ZipError { source: "bad".to_string() })));
    assert_eq!(s, Stage::Finished);
    assert!(matches!(a, Action::Finish(Err(Error::ZipError { .. }))));
    let (s, a) = r.oneclick(Stage::SecondPromotion, Event::Promoted(Err(Error::InvalidLocalVersionError)));
    assert_eq!(s, Stage::Finished);
    assert!(matches!(a, Action::Finish(Err(Error::InvalidLocalVersionError))));
}

#[test]
fn archive_entries_outside_root_are_rejected() {
    for name in ["../evil", "a/../../b", "/etc/passwd", "\\x", "..", "a\\..\\..\\b", "C:\\x", "d:y", "a\0b", "./../x"] {
        match check_entry(name, false) {
            Err(Error::UnsafeArchiveEntry(n)) => assert_eq!(n, name),
            _ => panic!("{:?} must be rejected", name),
        }
    }
    assert!(matches!(check_entry("../up/", true), Err(Error::UnsafeArchiveEntry(_))));
}

#[test]
fn archive_entries_inside_root_are_kept() {
    for name in ["a", "a/b/c.txt", "a/../b", "./a", "a/./b/../../c", "dir/..", "..a/b", "notes:v1.txt", "a/C:x"] {
        assert!(matches!(check_entry(name, false), Ok(EntryAction::Extract)), "{:?}", name);
    }
    assert!(matches!(check_entry("lib/", true), Ok(EntryAction::Skip)));
}
