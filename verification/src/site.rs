//! Master-site URL handling: normalization of quirky legacy forms, host
//! classification, and the request targets of each discovery strategy.

use vstd::prelude::*;

verus! {

/// The legacy package-index host and path prefix, `pypi.python.org/pypi/`.
pub open spec fn legacy_host_path() -> Seq<char> {
    seq![
        'p', 'y', 'p', 'i', '.', 'p', 'y', 't', 'h', 'o', 'n', '.', 'o', 'r', 'g', '/', 'p', 'y',
        'p', 'i', '/',
    ]
}

/// The modern package-index host and path prefix, `pypi.org/project/`.
pub open spec fn modern_host_path() -> Seq<char> {
    seq!['p', 'y', 'p', 'i', '.', 'o', 'r', 'g', '/', 'p', 'r', 'o', 'j', 'e', 'c', 't', '/']
}

pub open spec fn starts_with(s: Seq<char>, p: Seq<char>) -> bool {
    s.len() >= p.len() && forall|i: int| 0 <= i < p.len() ==> s[i] == p[i]
}

/// The string with every trailing `/` removed.
pub open spec fn strip_slashes(s: Seq<char>) -> Seq<char>
    decreases s.len(),
{
    if s.len() > 0 && s.last() == '/' {
        strip_slashes(s.drop_last())
    } else {
        s
    }
}

/// Every occurrence of the legacy package-index prefix replaced, left to
/// right, by the modern one.
pub open spec fn rewrite(s: Seq<char>) -> Seq<char>
    decreases s.len(),
{
    if s.len() == 0 {
        s
    } else if starts_with(s, legacy_host_path()) {
        modern_host_path() + rewrite(s.skip(legacy_host_path().len() as int))
    } else {
        s.take(1) + rewrite(s.skip(1))
    }
}

/// What normalizing a master-site string yields: trailing slashes stripped,
/// the legacy package-index form rewritten to the modern one.
pub open spec fn spec_normalize(s: Seq<char>) -> Seq<char> {
    rewrite(strip_slashes(s))
}

fn legacy_str() -> (r: &'static str)
    ensures
        r@ == legacy_host_path(),
{
    let s = "pypi.python.org/pypi/";
    proof {
        reveal_strlit("pypi.python.org/pypi/");
        assert(s@ =~= legacy_host_path());
    }
    s
}

fn modern_str() -> (r: &'static str)
    ensures
        r@ == modern_host_path(),
{
    let s = "pypi.org/project/";
    proof {
        reveal_strlit("pypi.org/project/");
        assert(s@ =~= modern_host_path());
    }
    s
}

/// Whether the legacy prefix occurs at position `i`.
fn matches_legacy_at(s: &str, i: usize) -> (r: bool)
    requires
        i <= s@.len(),
    ensures
        r == starts_with(s@.skip(i as int), legacy_host_path()),
{
    let p = legacy_str();
    let n = s.unicode_len();
    if n - i < 21 {
        return false;
    }
    let mut j: usize = 0;
    while j < 21
        invariant
            0 <= j <= 21,
            i + 21 <= n,
            n == s@.len(),
            p@ == legacy_host_path(),
            forall|t: int| 0 <= t < j ==> s@[i + t] == legacy_host_path()[t],
        decreases 21 - j,
    {
        if s.get_char(i + j) != p.get_char(j) {
            proof {
                assert(s@.skip(i as int)[j as int] == s@[i + j]);
            }
            return false;
        }
        j += 1;
    }
    proof {
        assert forall|t: int| 0 <= t < 21 implies s@.skip(i as int)[t]
            == legacy_host_path()[t] by {
            assert(s@.skip(i as int)[t] == s@[i + t]);
        }
    }
    true
}

/// Strips trailing `/` and rewrites the legacy package-index form to the
/// modern one; also reports whether anything changed.
pub fn normalize_master_site(s: &str) -> (r: (String, bool))
    ensures
        r.0@ == spec_normalize(s@),
        r.1 == (r.0@ != s@),
{
    let n = s.unicode_len();
    proof {
        assert(s@.take(n as int) =~= s@);
    }
    // find the length once trailing slashes go
    let mut m: usize = n;
    while m > 0
        invariant
            0 <= m <= n,
            n == s@.len(),
            strip_slashes(s@) == strip_slashes(s@.take(m as int)),
        ensures
            0 <= m <= n,
            strip_slashes(s@) == s@.take(m as int),
        decreases m,
    {
        let c = s.get_char(m - 1);
        if c != '/' {
            proof {
                assert(s@.take(m as int).last() == s@[m - 1]);
            }
            break ;
        }
        proof {
            assert(s@.take(m as int).last() == s@[m - 1]);
            assert(s@.take(m as int).drop_last() =~= s@.take(m - 1));
        }
        m -= 1;
    }
    let t = s.substring_char(0, m);
    proof {
        assert(t@ =~= s@.take(m as int));
    }
    // rewrite the legacy prefix wherever it occurs
    let mut out = String::new();
    let mut i: usize = 0;
    let mut replaced = false;
    proof {
        assert(t@.skip(0) =~= t@);
        assert(t@.take(0) =~= Seq::<char>::empty());
    }
    while i < m
        invariant
            0 <= i <= m,
            m == t@.len(),
            n == s@.len(),
            t@ == strip_slashes(s@),
            rewrite(t@) == out@ + rewrite(t@.skip(i as int)),
            out@.len() <= i,
            replaced == (out@.len() < i),
            !replaced ==> out@ == t@.take(i as int),
        decreases m - i,
    {
        if matches_legacy_at(t, i) {
            out.append(modern_str());
            proof {
                assert(t@.skip(i as int).skip(21) =~= t@.skip(i + 21));
                assert(rewrite(t@.skip(i as int)) == modern_host_path() + rewrite(
                    t@.skip(i + 21),
                ));
            }
            i += 21;
            replaced = true;
        } else {
            let piece = t.substring_char(i, i + 1);
            proof {
                assert(piece@ =~= t@.skip(i as int).take(1));
            }
            out.append(piece);
            proof {
                assert(t@.skip(i as int).skip(1) =~= t@.skip(i + 1));
                assert(rewrite(t@.skip(i as int)) == t@.skip(i as int).take(1) + rewrite(
                    t@.skip(i + 1),
                ));
                assert(!replaced ==> out@ =~= t@.take(i + 1));
            }
            i += 1;
        }
    }
    proof {
        assert(t@.skip(m as int) =~= Seq::<char>::empty());
        assert(rewrite(t@) =~= out@);
    }
    let changed = replaced || m != n;
    proof {
        if replaced {
            assert(out@.len() < m <= n);
            assert(out@ != s@);
        } else if m != n {
            assert(out@.len() == m < n);
            assert(out@ != s@);
        } else {
            assert(out@ =~= s@);
        }
    }
    (out, changed)
}

/// The pattern occurs in `s` at position `i`.
pub open spec fn contains_at(s: Seq<char>, p: Seq<char>, i: int) -> bool {
    0 <= i && i + p.len() <= s.len() && forall|j: int| 0 <= j < p.len() ==> s[i + j] == p[j]
}

/// The pattern occurs somewhere in `s`.
pub open spec fn contains_pat(s: Seq<char>, p: Seq<char>) -> bool {
    exists|i: int| contains_at(s, p, i)
}

proof fn lemma_strip_last(s: Seq<char>)
    ensures
        strip_slashes(s).len() <= s.len(),
        strip_slashes(s).len() > 0 ==> strip_slashes(s).last() != '/',
    decreases s.len(),
{
    if s.len() > 0 && s.last() == '/' {
        lemma_strip_last(s.drop_last());
    }
}

proof fn lemma_rewrite_no_trailing(s: Seq<char>)
    requires
        s.len() > 0,
        s.last() != '/',
    ensures
        rewrite(s).len() > 0,
        rewrite(s).last() != '/',
    decreases s.len(),
{
    let pat = legacy_host_path();
    let m = modern_host_path();
    if starts_with(s, pat) {
        let rest = s.skip(pat.len() as int);
        if rest.len() == 0 {
            assert(s.last() == pat[20]);
            assert(false);
        } else {
            assert(rest.last() == s.last());
            lemma_rewrite_no_trailing(rest);
            assert(rewrite(s) == m + rewrite(rest));
            assert(rewrite(s).last() == rewrite(rest).last());
        }
    } else if s.len() == 1 {
        assert(s.skip(1).len() == 0);
        assert(rewrite(s) == s.take(1) + rewrite(s.skip(1)));
        assert(rewrite(s).last() == s[0]);
        assert(s[0] == s.last());
    } else {
        let rest = s.skip(1);
        assert(rest.last() == s.last());
        lemma_rewrite_no_trailing(rest);
        assert(rewrite(s) == s.take(1) + rewrite(rest));
        assert(rewrite(s).last() == rewrite(rest).last());
    }
}

/// Whatever the rewrite emits that lines up with a tail of the legacy
/// pattern was already there in its input.
proof fn lemma_rewrite_prefix_pat(s: Seq<char>, k: int)
    requires
        0 <= k < legacy_host_path().len(),
        starts_with(rewrite(s), legacy_host_path().skip(k)),
    ensures
        starts_with(s, legacy_host_path().skip(k)),
    decreases s.len(),
{
    let pat = legacy_host_path();
    let m = modern_host_path();
    let tail = pat.skip(k);
    let rw = rewrite(s);
    if s.len() == 0 {
        assert(rw.len() == 0);
        assert(false);
    } else if starts_with(s, pat) {
        assert(rw == m + rewrite(s.skip(pat.len() as int)));
        assert forall|j: int| 0 <= j < 6 && j < 21 - k implies m[j] == pat[k + j] by {
            assert(rw[j] == m[j]);
            assert(rw[j] == tail[j]);
            assert(tail[j] == pat[k + j]);
        }
        assert(false);
    } else {
        assert(rw == s.take(1) + rewrite(s.skip(1)));
        assert(rw[0] == s[0]);
        assert(rw[0] == tail[0]);
        assert(tail[0] == pat[k]);
        if k == 20 {
            assert(starts_with(s, tail));
        } else {
            let rw1 = rewrite(s.skip(1));
            assert(rw1.len() >= 21 - k - 1);
            assert(starts_with(rw1, pat.skip(k + 1))) by {
                assert forall|j: int| 0 <= j < 21 - k - 1 implies rw1[j] == pat.skip(k + 1)[j] by {
                    assert(rw[j + 1] == rw1[j]);
                    assert(rw[j + 1] == tail[j + 1]);
                    assert(tail[j + 1] == pat[k + 1 + j]);
                    assert(pat.skip(k + 1)[j] == pat[k + 1 + j]);
                }
            }
            lemma_rewrite_prefix_pat(s.skip(1), k + 1);
            assert(starts_with(s, tail)) by {
                assert(s.skip(1).len() >= 21 - k - 1);
                assert forall|j: int| 0 <= j < 21 - k implies s[j] == tail[j] by {
                    if j >= 1 {
                        assert(s.skip(1)[j - 1] == pat.skip(k + 1)[j - 1]);
                        assert(pat.skip(k + 1)[j - 1] == pat[k + j]);
                        assert(tail[j] == pat[k + j]);
                    }
                }
            }
        }
    }
}

/// The rewrite's result holds no occurrence of the legacy pattern.
proof fn lemma_rewrite_no_pat(s: Seq<char>)
    ensures
        !contains_pat(rewrite(s), legacy_host_path()),
    decreases s.len(),
{
    let pat = legacy_host_path();
    let m = modern_host_path();
    let rw = rewrite(s);
    if contains_pat(rw, pat) {
        let i = choose|i: int| contains_at(rw, pat, i);
        if s.len() == 0 {
            assert(rw.len() == 0);
            assert(false);
        } else if starts_with(s, pat) {
            let rest = s.skip(pat.len() as int);
            assert(rw == m + rewrite(rest));
            if i >= 17 {
                lemma_rewrite_no_pat(rest);
                assert(contains_at(rewrite(rest), pat, i - 17)) by {
                    assert forall|j: int| 0 <= j < 21 implies rewrite(rest)[i - 17 + j]
                        == pat[j] by {
                        assert(rw[i + j] == rewrite(rest)[i - 17 + j]);
                        assert(rw[i + j] == pat[j]);
                    }
                }
                assert(false);
            } else {
                assert forall|j: int| 0 <= j < 6 && i + j < 17 implies m[i + j] == pat[j] by {
                    assert(rw[i + j] == m[i + j]);
                    assert(rw[i + j] == pat[j]);
                }
                assert(false);
            }
        } else {
            assert(rw == s.take(1) + rewrite(s.skip(1)));
            let rw1 = rewrite(s.skip(1));
            if i >= 1 {
                lemma_rewrite_no_pat(s.skip(1));
                assert(contains_at(rw1, pat, i - 1)) by {
                    assert forall|j: int| 0 <= j < 21 implies rw1[i - 1 + j] == pat[j] by {
                        assert(rw[i + j] == rw1[i - 1 + j]);
                        assert(rw[i + j] == pat[j]);
                    }
                }
                assert(false);
            } else {
                assert(s[0] == pat[0]) by {
                    assert(rw[0] == s[0]);
                    assert(rw[0] == pat[0]);
                }
                assert(starts_with(rw1, pat.skip(1))) by {
                    assert forall|j: int| 0 <= j < 20 implies rw1[j] == pat.skip(1)[j] by {
                        assert(rw[j + 1] == rw1[j]);
                        assert(rw[j + 1] == pat[j + 1]);
                        assert(pat.skip(1)[j] == pat[j + 1]);
                    }
                }
                lemma_rewrite_prefix_pat(s.skip(1), 1);
                assert(starts_with(s, pat)) by {
                    assert(s.skip(1).len() >= 20);
                    assert forall|j: int| 0 <= j < 21 implies s[j] == pat[j] by {
                        if j >= 1 {
                            assert(s.skip(1)[j - 1] == pat.skip(1)[j - 1]);
                            assert(pat.skip(1)[j - 1] == pat[j]);
                        }
                    }
                }
                assert(false);
            }
        }
    }
}

/// On a string without the legacy pattern the rewrite changes nothing.
proof fn lemma_rewrite_id(s: Seq<char>)
    requires
        !contains_pat(s, legacy_host_path()),
    ensures
        rewrite(s) == s,
    decreases s.len(),
{
    let pat = legacy_host_path();
    if s.len() > 0 {
        if starts_with(s, pat) {
            assert(contains_at(s, pat, 0));
            assert(false);
        }
        assert(!contains_pat(s.skip(1), pat)) by {
            if contains_pat(s.skip(1), pat) {
                let i = choose|i: int| contains_at(s.skip(1), pat, i);
                assert(contains_at(s, pat, i + 1)) by {
                    assert forall|j: int| 0 <= j < 21 implies s[i + 1 + j] == pat[j] by {
                        assert(s.skip(1)[i + j] == pat[j]);
                    }
                }
            }
        }
        lemma_rewrite_id(s.skip(1));
        assert(rewrite(s) =~= s);
    }
}

/// Normalization is idempotent: applying it twice yields what one
/// application yields.
pub proof fn lemma_normalize_idempotent(s: Seq<char>)
    ensures
        spec_normalize(spec_normalize(s)) == spec_normalize(s),
{
    let u = strip_slashes(s);
    let t = rewrite(u);
    lemma_strip_last(s);
    if u.len() == 0 {
        assert(t == u);
        assert(strip_slashes(t) == t);
    } else {
        lemma_rewrite_no_trailing(u);
        assert(strip_slashes(t) == t);
    }
    lemma_rewrite_no_pat(u);
    lemma_rewrite_id(t);
}

/// The three discovery strategies, keyed by the site's domain.
#[derive(Clone, Copy, Debug, PartialEq, Eq, Structural)]
pub enum HostKind {
    /// A structured package-index host: a JSON metadata endpoint.
    IndexHost,
    /// A structured release-hosting host: a latest-release endpoint.
    ReleaseHost,
    /// Anything else: scrape the page body for versions.
    GenericHost,
}

/// How a domain is classified.
pub open spec fn classify_spec(domain: Seq<char>) -> HostKind {
    if domain == "pypi.org"@ {
        HostKind::IndexHost
    } else if domain == "github.com"@ {
        HostKind::ReleaseHost
    } else {
        HostKind::GenericHost
    }
}

/// Whether two strings hold the same characters.
pub fn str_eq(a: &str, b: &str) -> (r: bool)
    ensures
        r == (a@ == b@),
{
    let n = a.unicode_len();
    if n != b.unicode_len() {
        return false;
    }
    let mut i: usize = 0;
    while i < n
        invariant
            0 <= i <= n,
            n == a@.len(),
            n == b@.len(),
            forall|j: int| 0 <= j < i ==> a@[j] == b@[j],
        decreases n - i,
    {
        if a.get_char(i) != b.get_char(i) {
            return false;
        }
        i += 1;
    }
    proof {
        assert(a@ =~= b@);
    }
    true
}

/// Classifies a site by its domain.
pub fn classify_host(domain: &str) -> (r: HostKind)
    ensures
        r == classify_spec(domain@),
{
    if str_eq(domain, "pypi.org") {
        HostKind::IndexHost
    } else if str_eq(domain, "github.com") {
        HostKind::ReleaseHost
    } else {
        HostKind::GenericHost
    }
}

/// Where the last path segment starts: just after the last `/`.
pub open spec fn seg_start(s: Seq<char>) -> int
    decreases s.len(),
{
    if s.len() == 0 {
        0
    } else if s.last() == '/' {
        s.len() as int
    } else {
        seg_start(s.drop_last())
    }
}

pub proof fn lemma_seg_start_at(s: Seq<char>, k: int)
    requires
        0 <= k <= s.len(),
        k > 0 ==> s[k - 1] == '/',
        forall|t: int| k <= t < s.len() ==> s[t] != '/',
    ensures
        seg_start(s) == k,
    decreases s.len(),
{
    if s.len() > 0 && k < s.len() {
        assert(s.last() != '/');
        assert(forall|t: int| k <= t < s.len() - 1 ==> s.drop_last()[t] == s[t]);
        lemma_seg_start_at(s.drop_last(), k);
    }
}

/// The last path segment: everything after the last `/`.
pub fn last_segment(s: &str) -> (r: String)
    ensures
        r@ == s@.skip(seg_start(s@)),
{
    let n = s.unicode_len();
    let mut m: usize = n;
    while m > 0
        invariant
            0 <= m <= n,
            n == s@.len(),
            forall|t: int| m <= t < n ==> s@[t] != '/',
        ensures
            0 <= m <= n,
            forall|t: int| m <= t < n ==> s@[t] != '/',
            m > 0 ==> s@[m - 1] == '/',
        decreases m,
    {
        let c = s.get_char(m - 1);
        if c == '/' {
            break ;
        }
        m -= 1;
    }
    proof {
        lemma_seg_start_at(s@, m as int);
    }
    let seg = s.substring_char(m, n);
    proof {
        assert(seg@ =~= s@.skip(m as int));
    }
    seg.to_owned()
}

/// The metadata endpoint of the package-index strategy for a project name.
pub open spec fn index_request_url(project: Seq<char>) -> Seq<char> {
    "https://pypi.org/pypi/"@ + project + "/json"@
}

/// Builds the package-index request target.
pub fn build_index_url(project: &str) -> (r: String)
    ensures
        r@ == index_request_url(project@),
{
    let mut out = String::new();
    out.append("https://pypi.org/pypi/");
    out.append(project);
    out.append("/json");
    proof {
        assert(out@ =~= index_request_url(project@));
    }
    out
}

/// The latest-release endpoint of the release-hosting strategy for a path.
pub open spec fn release_request_url(path: Seq<char>) -> Seq<char> {
    "https://api.github.com/repos"@ + path + "/releases/latest"@
}

/// Builds the release-hosting request target.
pub fn build_release_url(path: &str) -> (r: String)
    ensures
        r@ == release_request_url(path@),
{
    let mut out = String::new();
    out.append("https://api.github.com/repos");
    out.append(path);
    out.append("/releases/latest");
    proof {
        assert(out@ =~= release_request_url(path@));
    }
    out
}

/// What the URL parser yields as the domain of a site string: the host part,
/// when the string parses as a URL whose host is a domain name.
pub uninterp spec fn url_domain_of(s: Seq<char>) -> Option<Seq<char>>;

/// What the URL parser yields as the path of a site string.
pub uninterp spec fn url_path_of(s: Seq<char>) -> Option<Seq<char>>;

/// Relies on reqwest::Url::parse and url::Url::domain: both are functions of
/// the input string alone, and domain() is the URL's host when that host is
/// a domain name, not an address.
#[verifier::external_body]
pub fn url_domain(s: &str) -> (r: Option<String>)
    ensures
        r.deep_view() == url_domain_of(s@),
{
    match reqwest::Url::parse(s) {
        Ok(u) => u.domain().map(|d| d.to_string()),
        Err(_) => None,
    }
}

/// Relies on reqwest::Url::parse and url::Url::path: both are functions of
/// the input string alone, and path() is the URL's path part, starting with
/// `/` for URLs that have a host.
#[verifier::external_body]
pub fn url_path(s: &str) -> (r: Option<String>)
    ensures
        r.deep_view() == url_path_of(s@),
{
    match reqwest::Url::parse(s) {
        Ok(u) => Some(u.path().to_string()),
        Err(_) => None,
    }
}

} // verus!
