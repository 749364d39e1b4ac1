//! The directory-listing scraper's core: a fold over the link targets of a
//! page's anchor tags that keeps the greatest version seen.

use crate::order::seq_lt;
use crate::version::{spec_parse, Version};
use vstd::prelude::*;

verus! {

/// What one candidate link target does to the best version seen so far: a
/// target that does not parse leaves it; a strictly greater one replaces it;
/// ties keep the earlier value.
pub open spec fn sink_step(acc: Option<Seq<int>>, href: Seq<char>) -> Option<Seq<int>> {
    match spec_parse(href) {
        Ok(v) => match acc {
            None => Some(v),
            Some(b) => if seq_lt(b, v) {
                Some(v)
            } else {
                acc
            },
        },
        Err(_) => acc,
    }
}

/// The fold of `sink_step` over all link targets, earliest first.
pub open spec fn scan_hrefs(hrefs: Seq<Seq<char>>) -> Option<Seq<int>>
    decreases hrefs.len(),
{
    if hrefs.len() == 0 {
        None
    } else {
        sink_step(scan_hrefs(hrefs.drop_last()), hrefs.last())
    }
}

/// The components of a possibly absent version.
pub open spec fn opt_version_view(o: Option<Version>) -> Option<Seq<int>> {
    match o {
        None => None,
        Some(v) => Some(v@),
    }
}

/// A page with no parseable link target yields nothing: absence of a version
/// is not an error.
pub proof fn lemma_scan_none(hrefs: Seq<Seq<char>>)
    requires
        forall|i: int| 0 <= i < hrefs.len() ==> !(#[trigger] spec_parse(hrefs[i]) is Ok),
    ensures
        scan_hrefs(hrefs) is None,
    decreases hrefs.len(),
{
    if hrefs.len() > 0 {
        assert(forall|i: int|
            0 <= i < hrefs.len() - 1 ==> #[trigger] hrefs.drop_last()[i] == hrefs[i]);
        lemma_scan_none(hrefs.drop_last());
        assert(!(spec_parse(hrefs.last()) is Ok));
    }
}

/// Accumulates the greatest version among the link targets it is offered.
pub struct VersionSink {
    version: Option<Version>,
}

impl View for VersionSink {
    type V = Option<Seq<int>>;

    closed spec fn view(&self) -> Option<Seq<int>> {
        match self.version {
            None => None,
            Some(v) => Some(v@),
        }
    }
}

impl VersionSink {
    /// A sink that has seen nothing yet.
    pub fn new() -> (r: Self)
        ensures
            r@ is None,
    {
        Self { version: None }
    }

    /// Feeds one anchor link target to the sink.
    pub fn offer(&mut self, href: &str)
        ensures
            final(self)@ == sink_step(old(self)@, href@),
    {
        match Version::from_str(href) {
            Ok(v) => {
                let replace = match &self.version {
                    None => true,
                    Some(b) => b.lt(&v),
                };
                if replace {
                    self.version = Some(v);
                }
            },
            Err(_) => {},
        }
    }

    /// Hands out the best version seen.
    pub fn into_best(self) -> (r: Option<Version>)
        ensures
            opt_version_view(r) == self@,
    {
        self.version
    }
}

/// Scans all link targets of a page and returns the greatest version among
/// them, or nothing when no target parses as a version.
pub fn best_version(hrefs: &Vec<String>) -> (r: Option<Version>)
    ensures
        opt_version_view(r) == scan_hrefs(hrefs.deep_view()),
{
    let ghost all = hrefs.deep_view();
    let mut sink = VersionSink::new();
    let mut i: usize = 0;
    proof {
        assert(all.take(0) =~= Seq::<Seq<char>>::empty());
    }
    while i < hrefs.len()
        invariant
            0 <= i <= hrefs@.len(),
            all == hrefs.deep_view(),
            sink@ == scan_hrefs(all.take(i as int)),
        decreases hrefs@.len() - i,
    {
        sink.offer(hrefs[i].as_str());
        proof {
            assert(all.take(i as int + 1).drop_last() =~= all.take(i as int));
            assert(all.take(i as int + 1).last() == hrefs@[i as int]@);
        }
        i += 1;
    }
    proof {
        assert(all.take(hrefs@.len() as int) =~= all);
    }
    sink.into_best()
}

} // verus!
