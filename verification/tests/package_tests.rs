use vert::package::{FetchEvent, Package};
use vert::site::{normalize_master_site, HostKind};
use vert::version::Version;

fn pkg(site: &str, version: &str, local: Option<&str>) -> Package {
    Package {
        id: 1,
        distname: "foo".to_string(),
        master_site: site.to_string(),
        version: version.to_string(),
        local_version: local.map(|s| s.to_string()),
        last_check: 0,
    }
}

#[test]
fn normalization_rewrites_legacy_index_url() {
    let (once, changed) = normalize_master_site("https://pypi.python.org/pypi/foo/");
    assert_eq!(once, "https://pypi.org/project/foo");
    assert!(changed);
    let (twice, changed_again) = normalize_master_site(&once);
    assert_eq!(twice, once);
    assert!(!changed_again);
}

#[test]
fn normalization_strips_trailing_slashes() {
    let (n, changed) = normalize_master_site("https://www.sudo.ws/dist/");
    assert_eq!(n, "https://www.sudo.ws/dist");
    assert!(changed);
    let (n2, changed2) = normalize_master_site("https://www.sudo.ws/dist");
    assert_eq!(n2, "https://www.sudo.ws/dist");
    assert!(!changed2);
}

#[test]
fn fix_pypi_updates_package_site() {
    let mut p = pkg("https://pypi.python.org/pypi/foo/", "1.0.0", None);
    assert!(p.fix_pypi());
    assert_eq!(p.master_site, "https://pypi.org/project/foo");
    assert!(!p.fix_pypi());
    assert_eq!(p.master_site, "https://pypi.org/project/foo");
}

#[test]
fn index_strategy_compares_exact_strings() {
    let mut p = pkg("https://pypi.org/project/foo", "1.9.0", None);
    assert!(p.apply_event(FetchEvent::IndexVersion("2.0.0".to_string())));
    assert_eq!(p.version, "2.0.0");
    assert!(!p.apply_event(FetchEvent::IndexVersion("2.0.0".to_string())));
    assert_eq!(p.version, "2.0.0");
    // any textual difference counts, even a lower number
    assert!(p.apply_event(FetchEvent::IndexVersion("1.0.0".to_string())));
    assert_eq!(p.version, "1.0.0");
}

#[test]
fn release_strategy_strips_tag_prefix() {
    let mut p = pkg("https://github.com/owner/repo", "3.0.0", None);
    assert!(p.apply_event(FetchEvent::ReleaseTag("v3.1.0".to_string())));
    assert_eq!(p.version, "3.1.0");
    assert!(!p.apply_event(FetchEvent::ReleaseTag("v3.1.0".to_string())));
    let mut q = pkg("https://github.com/owner/repo", "1.2.3", None);
    assert!(!q.apply_event(FetchEvent::ReleaseTag("release-1.2.3".to_string())));
    assert_eq!(q.version, "1.2.3");
}

#[test]
fn failures_yield_no_change() {
    let mut p = pkg("https://example.com/dist", "1.0.0", Some("0.9.0"));
    assert!(!p.apply_event(FetchEvent::Status(404)));
    assert!(!p.apply_event(FetchEvent::Status(500)));
    assert!(!p.apply_event(FetchEvent::Transport));
    assert!(!p.apply_event(FetchEvent::DecodeFailed));
    assert_eq!(p.version, "1.0.0");
    assert_eq!(p.local_version.as_deref(), Some("0.9.0"));
}

#[test]
fn generic_strategy_needs_strictly_greater() {
    let mut p = pkg("https://example.com/dist", "1.8.1", None);
    let greater = Version::from_str("sudo-1.8.10.tar.gz").unwrap();
    assert!(p.apply_event(FetchEvent::Page(Some(greater))));
    assert_eq!(p.version, "1.8.10");
    let less = Version::new(vec![1, 8, 2]);
    assert!(!p.apply_event(FetchEvent::Page(Some(less))));
    assert_eq!(p.version, "1.8.10");
    let equal = Version::new(vec![1, 8, 10]);
    assert!(!p.apply_event(FetchEvent::Page(Some(equal))));
    assert_eq!(p.version, "1.8.10");
    assert!(!p.apply_event(FetchEvent::Page(None)));
}

#[test]
fn generic_strategy_absorbs_unparseable_current_version() {
    let mut p = pkg("https://example.com/dist", "weekly", None);
    let found = Version::new(vec![9, 9]);
    assert!(!p.apply_event(FetchEvent::Page(Some(found))));
    assert_eq!(p.version, "weekly");
}

#[test]
fn plan_selects_strategy_by_host() {
    let p1 = pkg("https://pypi.org/project/foo", "1.0.0", None);
    let plan1 = p1.plan_check().unwrap();
    assert_eq!(plan1.kind, HostKind::IndexHost);
    assert_eq!(plan1.url, "https://pypi.org/pypi/foo/json");

    let p2 = pkg("https://github.com/owner/repo", "1.0.0", None);
    let plan2 = p2.plan_check().unwrap();
    assert_eq!(plan2.kind, HostKind::ReleaseHost);
    assert_eq!(plan2.url, "https://api.github.com/repos/owner/repo/releases/latest");

    let p3 = pkg("https://www.sudo.ws/dist", "1.0.0", None);
    let plan3 = p3.plan_check().unwrap();
    assert_eq!(plan3.kind, HostKind::GenericHost);
    assert_eq!(plan3.url, "https://www.sudo.ws/dist");
}

#[test]
fn plan_without_domain_fetches_nothing() {
    assert!(pkg("not a url", "1.0.0", None).plan_check().is_none());
    assert!(pkg("https://127.0.0.1/dist", "1.0.0", None).plan_check().is_none());
}

#[test]
fn is_latest_compares_numeric_prefixes() {
    assert!(pkg("s", "1.2.3", Some("1.2.3")).is_latest());
    assert!(pkg("s", "1.2.3", Some("1.2.4")).is_latest());
    assert!(!pkg("s", "1.2.3", Some("1.2")).is_latest());
    assert!(pkg("s", "1.2", Some("1.2.3")).is_latest());
    assert!(!pkg("s", "1.2.3", None).is_latest());
}

#[test]
fn mark_latest_records_installed_version() {
    let mut p = pkg("s", "2.0.0", Some("1.0.0"));
    assert!(p.mark_latest());
    assert_eq!(p.local_version.as_deref(), Some("2.0.0"));
    assert!(!p.mark_latest());
    assert_eq!(p.local_version.as_deref(), Some("2.0.0"));

    let mut q = pkg("s", "2.0.0", None);
    assert!(q.mark_latest());
    assert_eq!(q.local_version.as_deref(), Some("2.0.0"));
}

#[test]
fn apply_update_overwrites_supplied_fields() {
    let mut p = pkg("s", "1.0.0", None);
    assert!(!p.apply_update(None, None, None));
    assert!(p.apply_update(Some("bar".to_string()), None, Some("0.5".to_string())));
    assert_eq!(p.distname, "bar");
    assert_eq!(p.master_site, "s");
    assert_eq!(p.local_version.as_deref(), Some("0.5"));
    assert_eq!(p.version, "1.0.0");
}

#[test]
fn summary_shows_local_and_remote() {
    let p = pkg("s", "2.0.0", Some("1.0.0"));
    assert_eq!(p.summary(), "foo 1.0.0 -> 2.0.0");
    let q = pkg("s", "2.0.0", None);
    assert_eq!(q.summary(), "foo - -> 2.0.0");
}
