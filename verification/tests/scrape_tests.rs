use vert::scrape::{best_version, VersionSink};
use vert::version::Version;

fn hrefs(items: &[&str]) -> Vec<String> {
    items.iter().map(|s| s.to_string()).collect()
}

#[test]
fn scraper_picks_greatest_version() {
    let links = hrefs(&[
        "../",
        "README",
        "SHA256",
        "sudo-1.8.0.tar.gz",
        "sudo-1.8.10.tar.gz",
        "sudo-1.8.10p1.tar.gz",
    ]);
    let best = best_version(&links);
    assert_eq!(best, Some(Version::new(vec![1, 8, 10])));
}

#[test]
fn scraper_orders_numerically_not_textually() {
    // 1.8.10 > 1.8.1 > 1.8.0, though "1.8.10" < "1.8.1" as text
    let links = hrefs(&[
        "sudo-1.8.1.tar.gz",
        "sudo-1.8.10.tar.gz",
        "sudo-1.8.0.tar.gz",
    ]);
    assert_eq!(best_version(&links), Some(Version::new(vec![1, 8, 10])));
}

#[test]
fn scraper_with_no_version_links_finds_none() {
    let links = hrefs(&["../", "README", "style.css", "index"]);
    assert_eq!(best_version(&links), None);
    assert_eq!(best_version(&hrefs(&[])), None);
}

#[test]
fn sink_keeps_best_across_offers() {
    let mut sink = VersionSink::new();
    sink.offer("../");
    sink.offer("pkg-0.9.tar.gz");
    sink.offer("pkg-1.2.tar.gz");
    sink.offer("pkg-1.0.tar.gz");
    sink.offer("README");
    let best = sink.into_best();
    assert_eq!(best, Some(Version::new(vec![1, 2])));
}

#[test]
fn sink_starts_empty() {
    let sink = VersionSink::new();
    assert_eq!(sink.into_best(), None);
}
