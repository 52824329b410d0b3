//! The web resolver: the base case. A locator's identity is a hex-rendered
//! digest of its text; staleness is exact equality between the ledger's
//! recorded time and a fresh origin query; a refresh plan names the cache
//! directory to replace and the ledger to persist after extraction.

use vstd::prelude::*;

use sha2::Digest;

use crate::chars::{quotable, str_eq};
use crate::ledger::{
    find_by_spec, find_entry, key_wf, spec_insert, unique_keys, Ledger,
    lemma_find_by_spec_after_insert, lemma_find_entry_after_insert,
};
use crate::locator::Locator;
use crate::record::{CacheDownloadRecord, RecordView};
use crate::resolver::{is_web_scheme, Error, HeadSnapshot, ResolveInfo};
use crate::timestamp::{or_epoch, Timestamp};

verus! {

/// What sha2's SHA-256 returns for a locator text: a function of the text
/// alone.
pub uninterp spec fn sha256_of(s: Seq<char>) -> Seq<u8>;

/// Relies on sha2's `Sha256::digest`: a 256-bit (32-byte) digest of the
/// input bytes, depending on the input alone.
#[verifier::external_body]
fn sha256_digest(s: &str) -> (r: Vec<u8>)
    ensures
        r@ == sha256_of(s@),
        r@.len() == 32,
{
    sha2::Sha256::digest(s.as_bytes()).to_vec()
}

/// The lowercase hex digit for a value below sixteen.
pub open spec fn hex_digit(n: int) -> char {
    if n == 0 {
        '0'
    } else if n == 1 {
        '1'
    } else if n == 2 {
        '2'
    } else if n == 3 {
        '3'
    } else if n == 4 {
        '4'
    } else if n == 5 {
        '5'
    } else if n == 6 {
        '6'
    } else if n == 7 {
        '7'
    } else if n == 8 {
        '8'
    } else if n == 9 {
        '9'
    } else if n == 10 {
        'a'
    } else if n == 11 {
        'b'
    } else if n == 12 {
        'c'
    } else if n == 13 {
        'd'
    } else if n == 14 {
        'e'
    } else {
        'f'
    }
}

/// Lowercase hex rendering: two digits per byte, in order.
pub open spec fn hex_of(bytes: Seq<u8>) -> Seq<char>
    decreases bytes.len(),
{
    if bytes.len() == 0 {
        Seq::<char>::empty()
    } else {
        seq![hex_digit(bytes[0] as int / 16), hex_digit(bytes[0] as int % 16)] + hex_of(
            bytes.drop_first(),
        )
    }
}

/// Relies on hex::encode: each byte becomes two lowercase hex digits, in
/// input order.
#[verifier::external_body]
fn hex_encode(b: &Vec<u8>) -> (r: String)
    ensures
        r@ == hex_of(b@),
{
    hex::encode(b.as_slice())
}

pub proof fn lemma_hex_shape(bytes: Seq<u8>)
    ensures
        hex_of(bytes).len() == 2 * bytes.len(),
        forall|i: int|
            0 <= i < hex_of(bytes).len() ==> crate::ledger::is_bare_char(
                #[trigger] hex_of(bytes)[i],
            ),
    decreases bytes.len(),
{
    if bytes.len() > 0 {
        lemma_hex_shape(bytes.drop_first());
        let whole = hex_of(bytes);
        let rest = hex_of(bytes.drop_first());
        assert(0 <= bytes[0] as int / 16 < 16) by {
            assert(bytes[0] < 256);
        }
        assert(0 <= bytes[0] as int % 16 < 16);
        assert(crate::ledger::is_bare_char(hex_digit(bytes[0] as int / 16)));
        assert(crate::ledger::is_bare_char(hex_digit(bytes[0] as int % 16)));
        assert forall|i: int|
            0 <= i < whole.len() implies crate::ledger::is_bare_char(#[trigger] whole[i]) by {
            if i >= 2 {
                assert(whole[i] == rest[i - 2]);
            }
        }
    }
}

/// Bare-key characters never need quoting or escaping.
pub proof fn lemma_bare_quotable(s: Seq<char>)
    requires
        forall|i: int| 0 <= i < s.len() ==> crate::ledger::is_bare_char(#[trigger] s[i]),
    ensures
        quotable(s),
{
    assert forall|i: int|
        0 <= i < s.len() implies s[i] != '"' && s[i] != '\\' && s[i] != '\n' && s[i] != '\r' by {
        assert(crate::ledger::is_bare_char(s[i]));
    }
}

/// The content id of a locator text: its digest, hex-rendered. 64 bare
/// characters, so it serves as a ledger key and a directory name.
pub fn url_id(url_text: &str) -> (r: String)
    ensures
        r@ == hex_of(sha256_of(url_text@)),
        r@.len() == 64,
        key_wf(r@),
        quotable(r@),
{
    let d = sha256_digest(url_text);
    let r = hex_encode(&d);
    proof {
        lemma_hex_shape(d@);
        lemma_bare_quotable(r@);
    }
    r
}

/// The cache directory for a content id under a cache root.
pub open spec fn cache_path(root: Seq<char>, id: Seq<char>) -> Seq<char> {
    root + seq!['/'] + id
}

/// Joins a cache root and an id with `/`.
pub fn join_path(root: &str, id: &str) -> (r: String)
    ensures
        r@ == cache_path(root@, id@),
{
    let mut s = String::from_str(root);
    s.append("/");
    s.append(id);
    proof {
        reveal_strlit("/");
        assert(s@ =~= cache_path(root@, id@));
    }
    s
}

/// The freshness test: a ledger record for this specifier exists and its
/// recorded time equals the fresh resolution's time exactly.
pub open spec fn up_to_date(
    v: Seq<(Seq<char>, RecordView)>,
    specifier: Seq<char>,
    ts: Timestamp,
) -> bool {
    match find_by_spec(v, specifier) {
        Some(rec) => rec.last_update == ts.render_spec(),
        None => false,
    }
}

/// The ledger record written after a successful refresh.
pub open spec fn record_of(specifier: Seq<char>, source: Seq<char>, ts: Timestamp) -> RecordView {
    RecordView { specifier, source, last_update: ts.render_spec() }
}

/// The ledger after a refresh records `id` anew.
pub open spec fn refreshed(
    v: Seq<(Seq<char>, RecordView)>,
    id: Seq<char>,
    specifier: Seq<char>,
    source: Seq<char>,
    ts: Timestamp,
) -> Seq<(Seq<char>, RecordView)> {
    spec_insert(v, id, record_of(specifier, source, ts))
}

/// What `cache` decides: reuse the current directory untouched, or empty
/// and repopulate it and then persist the updated ledger.
pub enum CachePlan {
    UseCurrent { dir: String },
    Refresh { dir: String, updated: Ledger },
}

pub struct WebResolver {
    pub cache_record_file: String,
    pub cache_dir: String,
}

impl WebResolver {
    pub fn new(cache_record_file: String, cache_dir: String) -> (r: WebResolver)
        ensures
            r.cache_record_file@ == cache_record_file@,
            r.cache_dir@ == cache_dir@,
    {
        WebResolver { cache_record_file, cache_dir }
    }

    /// Pure scheme check, no I/O.
    pub fn can_resolve(&self, url: &Locator) -> (r: bool)
        ensures
            r == is_web_scheme(url.scheme@),
    {
        url.scheme_is("http") || url.scheme_is("https")
    }

    /// Identity from a metadata-only origin query: the id is the digest of
    /// the requested locator's text; the source is where the query ended
    /// after redirects, the requested locator when no redirect is reported;
    /// a missing last-modified time becomes the epoch and a missing length
    /// becomes zero.
    pub fn resolve(&self, url: &Locator, head: &HeadSnapshot) -> (r: Result<ResolveInfo, Error>)
        requires
            url.wf(),
            quotable(url.text_spec()),
            head.last_modified is Some ==> head.last_modified->0.wf(),
            head.final_url is Some ==> head.final_url->0.wf() && quotable(
                head.final_url->0.text_spec(),
            ),
        ensures
            r is Ok <==> is_web_scheme(url.scheme@),
            r is Err ==> r->Err_0 is CannotResolve,
            r is Ok ==> r->Ok_0.id@ == hex_of(sha256_of(url.text_spec())) && r->Ok_0.url.scheme@
                == url.scheme@ && r->Ok_0.url.rest@ == url.rest@ && r->Ok_0.last_updated
                == or_epoch(head.last_modified) && r->Ok_0.size == (match head.content_length {
                Some(n) => n,
                None => 0u64,
            }) && r->Ok_0.last_updated.wf() && key_wf(r->Ok_0.id@) && quotable(r->Ok_0.id@),
            r is Ok && head.final_url is Some ==> r->Ok_0.source.scheme@
                == head.final_url->0.scheme@ && r->Ok_0.source.rest@ == head.final_url->0.rest@,
            r is Ok && head.final_url is None ==> r->Ok_0.source.scheme@ == url.scheme@
                && r->Ok_0.source.rest@ == url.rest@,
            r is Ok ==> r->Ok_0.source.wf() && quotable(r->Ok_0.source.text_spec()),
    {
        if !self.can_resolve(url) {
            return Err(Error::CannotResolve);
        }
        let text = url.text();
        let id = url_id(text.as_str());
        let source = match &head.final_url {
            Some(f) => f.clone_loc(),
            None => url.clone_loc(),
        };
        let last_updated = match head.last_modified {
            Some(t) => t,
            None => Timestamp::epoch(),
        };
        let size = match head.content_length {
            Some(n) => n,
            None => 0u64,
        };
        Ok(ResolveInfo { id, url: url.clone_loc(), source, last_updated, size })
    }

    /// Staleness decision: false when no record exists for the specifier;
    /// otherwise true iff the recorded time equals the fresh one exactly.
    pub fn is_up_to_date(&self, url: &Locator, ledger: &Ledger, fresh: &ResolveInfo) -> (r: bool)
        requires
            fresh.last_updated.wf(),
        ensures
            r == up_to_date(ledger@, url.text_spec(), fresh.last_updated),
    {
        let text = url.text();
        match ledger.find_by_specifier(text.as_str()) {
            None => false,
            Some(rec) => {
                let rendered = fresh.last_updated.render();
                str_eq(rec.last_update.as_str(), rendered.as_str())
            },
        }
    }

    /// The refresh decision. On a fresh cache hit the plan reuses the
    /// directory and no body fetch happens; otherwise the plan names the
    /// directory to replace and carries the ledger to persist only after
    /// extraction succeeds.
    pub fn cache_step(&self, specifier: &Locator, ledger: &Ledger, info: &ResolveInfo) -> (r:
        CachePlan)
        requires
            ledger.wf(),
            specifier.wf(),
            quotable(specifier.text_spec()),
            info.source.wf(),
            quotable(info.source.text_spec()),
            info.last_updated.wf(),
            key_wf(info.id@),
        ensures
            (r is UseCurrent) == up_to_date(ledger@, specifier.text_spec(), info.last_updated),
            r is UseCurrent ==> r->UseCurrent_dir@ == cache_path(self.cache_dir@, info.id@),
            r is Refresh ==> r->Refresh_dir@ == cache_path(self.cache_dir@, info.id@)
                && r->Refresh_updated@ == refreshed(
                ledger@,
                info.id@,
                specifier.text_spec(),
                info.source.text_spec(),
                info.last_updated,
            ) && r->Refresh_updated.wf(),
    {
        let dir = join_path(self.cache_dir.as_str(), info.id.as_str());
        if self.is_up_to_date(specifier, ledger, info) {
            CachePlan::UseCurrent { dir }
        } else {
            let rec = CacheDownloadRecord::new(specifier, &info.source, &info.last_updated);
            let mut updated = ledger.clone_led();
            updated.insert(info.id.clone(), rec);
            CachePlan::Refresh { dir, updated }
        }
    }
}

/// Ids are derived from the specifier alone, so every ledger entry whose
/// specifier is `t` carries the id derived from `t`.
pub open spec fn ids_follow_specifier(
    v: Seq<(Seq<char>, RecordView)>,
    specifier: Seq<char>,
    id: Seq<char>,
) -> bool {
    forall|i: int|
        0 <= i < v.len() ==> ((#[trigger] v[i]).1.specifier == specifier ==> v[i].0 == id)
}

/// Idempotent cache hit: once a refresh has recorded the origin's time for
/// a specifier, a second resolution reporting the unchanged time is up to
/// date, so the next `cache_step` reuses the directory and fetches no body.
pub proof fn lemma_cache_hit_idempotent(
    v: Seq<(Seq<char>, RecordView)>,
    id: Seq<char>,
    specifier: Seq<char>,
    source: Seq<char>,
    ts: Timestamp,
)
    requires
        unique_keys(v),
        ids_follow_specifier(v, specifier, id),
    ensures
        up_to_date(refreshed(v, id, specifier, source, ts), specifier, ts),
{
    lemma_find_by_spec_after_insert(v, id, record_of(specifier, source, ts));
}

/// Staleness triggers refresh: when the ledger is current at `ts1` and the
/// origin now reports `ts2 != ts1`, the specifier is no longer up to date —
/// so `cache_step` plans a refresh — and the refreshed ledger records `ts2`
/// under the id, current again.
pub proof fn lemma_staleness_triggers_refresh(
    v: Seq<(Seq<char>, RecordView)>,
    id: Seq<char>,
    specifier: Seq<char>,
    source: Seq<char>,
    ts1: Timestamp,
    ts2: Timestamp,
)
    requires
        unique_keys(v),
        ids_follow_specifier(v, specifier, id),
        ts1.wf(),
        ts2.wf(),
        ts1 != ts2,
        up_to_date(v, specifier, ts1),
    ensures
        !up_to_date(v, specifier, ts2),
        up_to_date(refreshed(v, id, specifier, source, ts2), specifier, ts2),
        find_entry(refreshed(v, id, specifier, source, ts2), id) == Some(
            record_of(specifier, source, ts2),
        ),
{
    assert(!up_to_date(v, specifier, ts2)) by {
        let rec = find_by_spec(v, specifier)->0;
        assert(rec.last_update == ts1.render_spec());
        if rec.last_update == ts2.render_spec() {
            crate::timestamp::lemma_render_injective(ts1, ts2);
        }
    }
    lemma_find_by_spec_after_insert(v, id, record_of(specifier, source, ts2));
    lemma_find_entry_after_insert(v, id, record_of(specifier, source, ts2));
}

/// Empty-cache bootstrap: on the empty ledger no specifier is up to date,
/// so the first `cache_step` against a fresh cache root always plans a
/// refresh, never a reuse.
pub proof fn lemma_empty_ledger_never_fresh(specifier: Seq<char>, ts: Timestamp)
    ensures
        !up_to_date(Seq::<(Seq<char>, RecordView)>::empty(), specifier, ts),
{
    assert(find_by_spec(Seq::<(Seq<char>, RecordView)>::empty(), specifier) is None);
}

} // verus!
