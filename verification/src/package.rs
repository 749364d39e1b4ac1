//! A tracked package and the upstream source dispatcher's decisions: which
//! strategy applies to its master site, what to fetch, and what each
//! strategy's outcome does to the recorded version.
//!
//! The two structured strategies treat their decoded fields as authoritative
//! text and compare version strings for exact inequality; the generic
//! scraping strategy only advances on a numerically greater parsed version.
//! The asymmetry is deliberate: it reflects distinct trust assumptions.

use crate::order::{compare_components, seq_lt};
use crate::site::{
    build_index_url, build_release_url, classify_host, classify_spec, index_request_url,
    last_segment, normalize_master_site, release_request_url, seg_start, spec_normalize,
    url_domain, url_domain_of, url_path, url_path_of, HostKind,
};
use crate::version::{
    decode, decode_components, first_digit, spec_parse, spec_render, Version,
};
use vstd::prelude::*;

verus! {

/// A tracked package as the discovery logic sees it.
pub struct Package {
    pub id: i64,
    pub distname: String,
    pub master_site: String,
    pub version: String,
    pub local_version: Option<String>,
    pub last_check: i64,
}

/// Everything but the recorded version is the same.
pub open spec fn same_but_version(a: Package, b: Package) -> bool {
    &&& b.id == a.id
    &&& b.distname == a.distname
    &&& b.master_site == a.master_site
    &&& b.local_version == a.local_version
    &&& b.last_check == a.last_check
}

/// A tag name with everything before its first ASCII digit removed.
pub open spec fn strip_tag(t: Seq<char>) -> Seq<char> {
    t.skip(first_digit(t))
}

/// Strips the leading non-digit characters off a tag name, so that tags such
/// as `v1.2.3` or `release-1.2.3` become `1.2.3`.
pub fn strip_tag_prefix(t: &str) -> (r: String)
    ensures
        r@ == strip_tag(t@),
{
    let n = t.unicode_len();
    let mut i: usize = 0;
    while i < n
        invariant
            0 <= i <= n,
            n == t@.len(),
            forall|j: int| 0 <= j < i ==> !crate::version::is_digit(t@[j]),
        ensures
            0 <= i <= n,
            forall|j: int| 0 <= j < i ==> !crate::version::is_digit(t@[j]),
            i < n ==> crate::version::is_digit(t@[i as int]),
        decreases n - i,
    {
        let c = t.get_char(i);
        let cu = c as u32;
        if 48 <= cu && cu <= 57 {
            break ;
        }
        i += 1;
    }
    proof {
        crate::version::lemma_first_digit_at(t@, i as int);
    }
    let seg = t.substring_char(i, n);
    proof {
        assert(seg@ =~= t@.skip(i as int));
    }
    seg.to_owned()
}

/// What one discovery strategy asks the transport layer to fetch.
pub struct CheckPlan {
    /// Which strategy the site's domain selects.
    pub kind: HostKind,
    /// The request target; release hosts may add basic authentication.
    pub url: String,
}

/// The planned strategy and request target for a master site: nothing when
/// the site has no domain.
pub open spec fn spec_plan(ms: Seq<char>) -> Option<(HostKind, Seq<char>)> {
    match url_domain_of(ms) {
        None => None,
        Some(d) => match classify_spec(d) {
            HostKind::IndexHost => match url_path_of(ms) {
                None => None,
                Some(p) => Some((HostKind::IndexHost, index_request_url(p.skip(seg_start(p))))),
            },
            HostKind::ReleaseHost => match url_path_of(ms) {
                None => None,
                Some(p) => Some((HostKind::ReleaseHost, release_request_url(p))),
            },
            HostKind::GenericHost => Some((HostKind::GenericHost, ms)),
        },
    }
}

/// One discovery strategy's outcome, handed back by the transport layer.
pub enum FetchEvent {
    /// The request failed before any response arrived.
    Transport,
    /// A response arrived with a non-success status.
    Status(u16),
    /// A response arrived but did not decode to the expected shape.
    DecodeFailed,
    /// The package-index strategy's decoded nested version field.
    IndexVersion(String),
    /// The release-hosting strategy's decoded tag name field.
    ReleaseTag(String),
    /// The best version the generic strategy scraped from the page body.
    Page(Option<Version>),
}

impl Package {
    /// Normalizes the master site, reporting whether it changed: trailing
    /// slashes go, and the legacy package-index form becomes the modern one.
    pub fn fix_pypi(&mut self) -> (changed: bool)
        ensures
            final(self).master_site@ == spec_normalize(old(self).master_site@),
            changed == (final(self).master_site@ != old(self).master_site@),
            final(self).id == old(self).id,
            final(self).distname == old(self).distname,
            final(self).version == old(self).version,
            final(self).local_version == old(self).local_version,
            final(self).last_check == old(self).last_check,
    {
        let (site, changed) = normalize_master_site(self.master_site.as_str());
        if changed {
            self.master_site = site;
        }
        changed
    }

    /// Decides which strategy applies to this package's master site and what
    /// to fetch; nothing is fetched when the site has no domain.
    pub fn plan_check(&self) -> (r: Option<CheckPlan>)
        ensures
            match r {
                None => spec_plan(self.master_site@) is None,
                Some(plan) => spec_plan(self.master_site@) == Some((plan.kind, plan.url@)),
            },
    {
        match url_domain(self.master_site.as_str()) {
            None => None,
            Some(d) => {
                let kind = classify_host(d.as_str());
                match kind {
                    HostKind::IndexHost => match url_path(self.master_site.as_str()) {
                        None => None,
                        Some(p) => {
                            let project = last_segment(p.as_str());
                            Some(
                                CheckPlan {
                                    kind: HostKind::IndexHost,
                                    url: build_index_url(project.as_str()),
                                },
                            )
                        },
                    },
                    HostKind::ReleaseHost => match url_path(self.master_site.as_str()) {
                        None => None,
                        Some(p) => Some(
                            CheckPlan {
                                kind: HostKind::ReleaseHost,
                                url: build_release_url(p.as_str()),
                            },
                        ),
                    },
                    HostKind::GenericHost => Some(
                        CheckPlan { kind: HostKind::GenericHost, url: self.master_site.clone() },
                    ),
                }
            },
        }
    }

    /// Applies the package-index strategy's decoded version field: the field
    /// is authoritative text, so any textual difference counts as a change.
    pub fn parse_pypi(&mut self, remote: String) -> (changed: bool)
        ensures
            changed == (old(self).version@ != remote@),
            final(self).version@ == remote@,
            same_but_version(*old(self), *final(self)),
    {
        if self.version == remote {
            false
        } else {
            self.version = remote;
            true
        }
    }

    /// Applies the release-hosting strategy's decoded tag name: the leading
    /// non-digits are stripped, then any textual difference is a change.
    pub fn parse_github(&mut self, tag_name: &str) -> (changed: bool)
        ensures
            changed == (old(self).version@ != strip_tag(tag_name@)),
            final(self).version@ == strip_tag(tag_name@),
            same_but_version(*old(self), *final(self)),
    {
        let stripped = strip_tag_prefix(tag_name);
        if self.version == stripped {
            false
        } else {
            self.version = stripped;
            true
        }
    }

    /// Applies the generic strategy's scraped result: only a version strictly
    /// greater than the parsed recorded one advances it; a recorded version
    /// that does not parse absorbs the result.
    pub fn apply_page(&mut self, found: Option<Version>) -> (changed: bool)
        ensures
            match found {
                None => !changed && *final(self) == *old(self),
                Some(v) => match spec_parse(old(self).version@) {
                    Err(_) => !changed && *final(self) == *old(self),
                    Ok(cur) => if seq_lt(cur, v@) {
                        changed && final(self).version@ == spec_render(v@) && same_but_version(
                            *old(self),
                            *final(self),
                        )
                    } else {
                        !changed && *final(self) == *old(self)
                    },
                },
            },
    {
        match found {
            None => false,
            Some(v) => match Version::from_str(self.version.as_str()) {
                Err(_) => false,
                Ok(cur) => {
                    if cur.lt(&v) {
                        self.version = v.to_string();
                        true
                    } else {
                        false
                    }
                },
            },
        }
    }

    /// Applies one strategy outcome to the package. Transport failures,
    /// non-success statuses and undecodable responses are absorbed: the
    /// package is unchanged and no change is reported.
    pub fn apply_event(&mut self, ev: FetchEvent) -> (changed: bool)
        ensures
            match ev {
                FetchEvent::Transport => !changed && *final(self) == *old(self),
                FetchEvent::Status(_) => !changed && *final(self) == *old(self),
                FetchEvent::DecodeFailed => !changed && *final(self) == *old(self),
                FetchEvent::IndexVersion(rv) => {
                    &&& changed == (old(self).version@ != rv@)
                    &&& final(self).version@ == rv@
                    &&& same_but_version(*old(self), *final(self))
                },
                FetchEvent::ReleaseTag(t) => {
                    &&& changed == (old(self).version@ != strip_tag(t@))
                    &&& final(self).version@ == strip_tag(t@)
                    &&& same_but_version(*old(self), *final(self))
                },
                FetchEvent::Page(found) => match found {
                    None => !changed && *final(self) == *old(self),
                    Some(v) => match spec_parse(old(self).version@) {
                        Err(_) => !changed && *final(self) == *old(self),
                        Ok(cur) => if seq_lt(cur, v@) {
                            changed && final(self).version@ == spec_render(v@)
                                && same_but_version(*old(self), *final(self))
                        } else {
                            !changed && *final(self) == *old(self)
                        },
                    },
                },
            },
    {
        match ev {
            FetchEvent::Transport => false,
            FetchEvent::Status(_) => false,
            FetchEvent::DecodeFailed => false,
            FetchEvent::IndexVersion(rv) => self.parse_pypi(rv),
            FetchEvent::ReleaseTag(t) => self.parse_github(t.as_str()),
            FetchEvent::Page(found) => self.apply_page(found),
        }
    }

    /// Whether the locally installed version is at least the recorded remote
    /// one, comparing the dot-separated numeric prefixes of both strings.
    pub fn is_latest(&self) -> (r: bool)
        ensures
            r == match self.local_version {
                None => false,
                Some(l) => !seq_lt(decode(l@, false), decode(self.version@, false)),
            },
    {
        match &self.local_version {
            None => false,
            Some(l) => {
                let a = decode_components(l.as_str(), false);
                let b = decode_components(self.version.as_str(), false);
                let ord = compare_components(&a, &b);
                !matches!(ord, core::cmp::Ordering::Less)
            },
        }
    }

    /// Records that the recorded remote version is now installed locally; a
    /// package already at that version is left alone.
    pub fn mark_latest(&mut self) -> (updated: bool)
        ensures
            ({
                let already = match old(self).local_version {
                    Some(l) => l@ == old(self).version@,
                    None => false,
                };
                if already {
                    !updated && *final(self) == *old(self)
                } else {
                    &&& updated
                    &&& match final(self).local_version {
                        Some(l) => l@ == old(self).version@,
                        None => false,
                    }
                    &&& final(self).id == old(self).id
                    &&& final(self).distname == old(self).distname
                    &&& final(self).master_site == old(self).master_site
                    &&& final(self).version == old(self).version
                    &&& final(self).last_check == old(self).last_check
                }
            }),
    {
        let already = match &self.local_version {
            Some(l) => *l == self.version,
            None => false,
        };
        if already {
            false
        } else {
            self.local_version = Some(self.version.clone());
            true
        }
    }

    /// Overwrites the fields a caller supplies; the version supplied here is
    /// the locally installed one. Reports whether anything was supplied.
    pub fn apply_update(
        &mut self,
        distname: Option<String>,
        master_site: Option<String>,
        version: Option<String>,
    ) -> (changed: bool)
        ensures
            changed == (distname is Some || master_site is Some || version is Some),
            final(self).distname == match distname {
                Some(d) => d,
                None => old(self).distname,
            },
            final(self).master_site == match master_site {
                Some(m) => m,
                None => old(self).master_site,
            },
            final(self).local_version == match version {
                Some(v) => Some(v),
                None => old(self).local_version,
            },
            final(self).id == old(self).id,
            final(self).version == old(self).version,
            final(self).last_check == old(self).last_check,
    {
        let mut changed = false;
        match distname {
            Some(d) => {
                self.distname = d;
                changed = true;
            },
            None => {},
        }
        match master_site {
            Some(m) => {
                self.master_site = m;
                changed = true;
            },
            None => {},
        }
        match version {
            Some(v) => {
                self.local_version = Some(v);
                changed = true;
            },
            None => {},
        }
        changed
    }

    /// The one-line summary: name, local version or `-`, recorded version.
    pub fn summary(&self) -> (r: String)
        ensures
            r@ == self.distname@ + " "@ + (match self.local_version {
                Some(l) => l@,
                None => "-"@,
            }) + " -> "@ + self.version@,
    {
        let mut out = String::new();
        out.append(self.distname.as_str());
        out.append(" ");
        match &self.local_version {
            Some(l) => out.append(l.as_str()),
            None => out.append("-"),
        }
        out.append(" -> ");
        out.append(self.version.as_str());
        out
    }
}

} // verus!
