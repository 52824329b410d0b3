//! The resolver capability: identity metadata for a locator, staleness
//! decisions against the ledger, and cache-refresh plans. The registry picks
//! the first resolver whose scheme matches and fails closed otherwise.

use vstd::prelude::*;

use crate::locator::Locator;
use crate::station::KmfResolver;
use crate::timestamp::Timestamp;
use crate::web::WebResolver;

verus! {

/// The engine's failure taxonomy.
#[derive(Debug)]
pub enum Error {
    /// The locator's scheme does not belong to this resolver.
    CannotResolve,
    /// No registered resolver accepts the locator.
    ModNotFound,
    /// Transport or HTTP failure.
    NetworkError,
    /// Filesystem failure.
    IoError,
    /// Corrupt or unsupported archive.
    MalformedArchive,
    /// The persisted ledger did not parse; surfaced, never reset silently.
    LedgerCorrupt,
    /// The requested version is absent from the resolved set.
    VersionNotFound { version: String },
    /// No game locator was given and none is configured.
    GameNotSpecified,
}

/// Identity snapshot of a resolved locator.
pub struct ResolveInfo {
    /// Primary key into the ledger and the cache directory tree.
    pub id: String,
    /// The locator this snapshot answers for.
    pub url: Locator,
    /// The locator actually fetched: the final one after any redirects,
    /// which may differ from `url`. The body fetch and the ledger record's
    /// source use this one.
    pub source: Locator,
    /// The origin's last-modified time; the epoch when it reported none.
    pub last_updated: Timestamp,
    /// The origin's content length; zero when it reported none.
    pub size: u64,
}

/// What an origin's metadata-only query (HTTP HEAD) yielded.
pub struct HeadSnapshot {
    pub last_modified: Option<Timestamp>,
    pub content_length: Option<u64>,
    /// Where the query ended after redirects, when that is known and usable.
    pub final_url: Option<Locator>,
}

pub open spec fn is_web_scheme(s: Seq<char>) -> bool {
    s == "http"@ || s == "https"@
}

pub open spec fn is_kmf_scheme(s: Seq<char>) -> bool {
    s == "kmf"@
}

/// The resolver variants the registry can hold, in dispatch form.
pub enum AnyResolver {
    Kmf(KmfResolver),
    Web(WebResolver),
}

/// Which locators a resolver variant accepts: a pure scheme check.
pub open spec fn any_can_resolve(r: AnyResolver, scheme: Seq<char>) -> bool {
    match r {
        AnyResolver::Kmf(_) => is_kmf_scheme(scheme),
        AnyResolver::Web(_) => is_web_scheme(scheme),
    }
}

impl AnyResolver {
    pub fn can_resolve(&self, url: &Locator) -> (r: bool)
        ensures
            r == any_can_resolve(*self, url.scheme@),
    {
        match self {
            AnyResolver::Kmf(k) => k.can_resolve(url),
            AnyResolver::Web(w) => w.can_resolve(url),
        }
    }
}

/// The first resolver in order that accepts the scheme, if any.
pub open spec fn spec_select(v: Seq<AnyResolver>, scheme: Seq<char>) -> Option<int>
    decreases v.len(),
{
    if v.len() == 0 {
        None
    } else if any_can_resolve(v[0], scheme) {
        Some(0int)
    } else {
        match spec_select(v.drop_first(), scheme) {
            Some(i) => Some(i + 1),
            None => None,
        }
    }
}

proof fn lemma_spec_select_at(v: Seq<AnyResolver>, scheme: Seq<char>, i: int)
    requires
        0 <= i < v.len(),
        any_can_resolve(v[i], scheme),
        forall|j: int| 0 <= j < i ==> !any_can_resolve(#[trigger] v[j], scheme),
    ensures
        spec_select(v, scheme) == Some(i),
    decreases i,
{
    if i > 0 {
        lemma_spec_select_at(v.drop_first(), scheme, i - 1);
    }
}

proof fn lemma_spec_select_none(v: Seq<AnyResolver>, scheme: Seq<char>)
    requires
        forall|j: int| 0 <= j < v.len() ==> !any_can_resolve(#[trigger] v[j], scheme),
    ensures
        spec_select(v, scheme) is None,
    decreases v.len(),
{
    if v.len() > 0 {
        lemma_spec_select_none(v.drop_first(), scheme);
    }
}

/// Registry dispatch: the first resolver whose `can_resolve` accepts the
/// locator handles it; no fallback chaining.
pub fn select_resolver(resolvers: &Vec<AnyResolver>, url: &Locator) -> (r: Option<usize>)
    ensures
        r is Some ==> 0 <= r->0 < resolvers@.len() && Some(r->0 as int) == spec_select(
            resolvers@,
            url.scheme@,
        ),
        r is None ==> spec_select(resolvers@, url.scheme@) is None,
{
    let n = resolvers.len();
    let mut i: usize = 0;
    while i < n
        invariant
            n == resolvers@.len(),
            0 <= i <= n,
            forall|j: int| 0 <= j < i ==> !any_can_resolve(#[trigger] resolvers@[j], url.scheme@),
        decreases n - i,
    {
        if resolvers[i].can_resolve(url) {
            proof {
                lemma_spec_select_at(resolvers@, url.scheme@, i as int);
            }
            return Some(i);
        }
        i += 1;
    }
    proof {
        lemma_spec_select_none(resolvers@, url.scheme@);
    }
    None
}

/// A locator of a scheme no resolver owns — neither the web schemes nor
/// the delegating scheme — is selected by no registry, whatever resolvers
/// it holds: the orchestrator then fails with `ModNotFound` before any
/// resolver's `cache` runs.
pub proof fn lemma_unknown_scheme_selects_none(v: Seq<AnyResolver>, scheme: Seq<char>)
    requires
        !is_web_scheme(scheme),
        !is_kmf_scheme(scheme),
    ensures
        spec_select(v, scheme) is None,
{
    assert forall|j: int| 0 <= j < v.len() implies !any_can_resolve(#[trigger] v[j], scheme) by {
        match v[j] {
            AnyResolver::Kmf(_) => {},
            AnyResolver::Web(_) => {},
        }
    }
    lemma_spec_select_none(v, scheme);
}

} // verus!
