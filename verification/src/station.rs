//! The delegating resolver: translates the custom `kmf` scheme into a web
//! locator against a fixed station base — path segments `mod/<id>/<version>`,
//! a missing version defaulting to `latest` — and delegates to an inner web
//! resolver, overriding the returned id with the mod identifier. Ledger
//! records keep the originally requested specifier, so lookups by specifier
//! find the entry; cache directories stay keyed by the delegate's digest id.

use vstd::prelude::*;

use crate::chars::{find_char, lemma_quotable_concat, lemma_quotable_subrange, quotable};
use crate::ledger::{first_at, key_wf, Ledger};
use crate::locator::Locator;
use crate::resolver::{is_kmf_scheme, is_web_scheme, Error, HeadSnapshot, ResolveInfo};
use crate::timestamp::or_epoch;
use crate::web::{cache_path, up_to_date, refreshed, CachePlan, WebResolver};

verus! {

/// The mod id and version named by a `kmf` locator's path: the part before
/// the first `@`, and the part after it, `latest` when there is none.
pub open spec fn spec_mod_parts(rest: Seq<char>) -> (Seq<char>, Seq<char>) {
    match first_at(rest, 0, '@') {
        Some(i) => (rest.subrange(0, i), rest.subrange(i + 1, rest.len() as int)),
        None => (rest, "latest"@),
    }
}

/// The translated web path remainder: base, then `mod/<id>/<version>`.
pub open spec fn translated_rest(base_rest: Seq<char>, rest: Seq<char>) -> Seq<char> {
    base_rest + seq!['m', 'o', 'd', '/'] + spec_mod_parts(rest).0 + seq!['/'] + spec_mod_parts(
        rest,
    ).1
}

pub struct KmfResolver {
    pub station_url_base: Locator,
    pub inner: WebResolver,
}

impl KmfResolver {
    /// The station base and the delegate are fixed at construction.
    pub open spec fn wf(&self) -> bool {
        self.station_url_base.wf() && is_web_scheme(self.station_url_base.scheme@) && quotable(
            self.station_url_base.text_spec(),
        )
    }

    pub fn new(cache_record_file: String, cache_dir: String) -> (r: KmfResolver)
        ensures
            r.wf(),
            r.station_url_base.scheme@ == "https"@,
            r.station_url_base.rest@ == "//kmf-station.zice.top/"@,
            r.inner.cache_record_file@ == cache_record_file@,
            r.inner.cache_dir@ == cache_dir@,
    {
        let base = Locator::new("https", "//kmf-station.zice.top/");
        proof {
            reveal_strlit("https");
            reveal_strlit("//kmf-station.zice.top/");
            assert(base.wf());
            lemma_quotable_concat(base.scheme@ + seq![':'], base.rest@);
            lemma_quotable_concat(base.scheme@, seq![':']);
            assert(base.text_spec() =~= (base.scheme@ + seq![':']) + base.rest@);
        }
        KmfResolver { station_url_base: base, inner: WebResolver::new(cache_record_file, cache_dir) }
    }

    /// Pure scheme check, no I/O.
    pub fn can_resolve(&self, url: &Locator) -> (r: bool)
        ensures
            r == is_kmf_scheme(url.scheme@),
    {
        url.scheme_is("kmf")
    }

    /// Splits a `kmf` locator's path into mod id and version.
    pub fn extract_url(url: &Locator) -> (r: Option<(String, String)>)
        ensures
            r is Some <==> is_kmf_scheme(url.scheme@),
            r is Some ==> (r->0).0@ == spec_mod_parts(url.rest@).0 && (r->0).1@ == spec_mod_parts(
                url.rest@,
            ).1,
    {
        if !url.scheme_is("kmf") {
            return None;
        }
        let rest = url.rest.as_str();
        let len = rest.unicode_len();
        match find_char(rest, 0, '@') {
            Some(i) => {
                proof {
                    crate::ledger::lemma_first_at_found(url.rest@, 0, i as int, '@');
                }
                let modid = String::from_str(rest.substring_char(0, i));
                let version = String::from_str(rest.substring_char(i + 1, len));
                Some((modid, version))
            },
            None => {
                proof {
                    crate::ledger::lemma_first_at_none(url.rest@, 0, '@');
                }
                Some((String::from_str(rest), String::from_str("latest")))
            },
        }
    }

    /// Joins the station base with `mod/<id>/<version>`.
    pub fn translate_url_to_web(&self, url: &Locator) -> (r: Result<Locator, Error>)
        requires
            self.wf(),
            quotable(url.rest@),
        ensures
            r is Ok <==> is_kmf_scheme(url.scheme@),
            r is Err ==> r->Err_0 is CannotResolve,
            r is Ok ==> r->Ok_0.scheme@ == self.station_url_base.scheme@ && r->Ok_0.rest@
                == translated_rest(self.station_url_base.rest@, url.rest@) && r->Ok_0.wf()
                && is_web_scheme(r->Ok_0.scheme@) && quotable(r->Ok_0.text_spec()),
    {
        if !self.can_resolve(url) {
            return Err(Error::CannotResolve);
        }
        let parts = match Self::extract_url(url) {
            Some(p) => p,
            None => vstd::pervasive::unreached(),
        };
        let mut rest = self.station_url_base.rest.clone();
        rest.append("mod/");
        rest.append(parts.0.as_str());
        rest.append("/");
        rest.append(parts.1.as_str());
        let out = Locator { scheme: self.station_url_base.scheme.clone(), rest };
        proof {
            reveal_strlit("mod/");
            reveal_strlit("/");
            assert("mod/"@ =~= seq!['m', 'o', 'd', '/']);
            assert("/"@ =~= seq!['/']);
            assert(out.rest@ =~= translated_rest(self.station_url_base.rest@, url.rest@));
            let base_text = self.station_url_base.text_spec();
            lemma_quotable_subrange(base_text, 0, self.station_url_base.scheme@.len() as int);
            assert(self.station_url_base.scheme@ =~= base_text.subrange(
                0,
                self.station_url_base.scheme@.len() as int,
            ));
            lemma_quotable_subrange(
                base_text,
                (self.station_url_base.scheme@.len() + 1) as int,
                base_text.len() as int,
            );
            assert(self.station_url_base.rest@ =~= base_text.subrange(
                (self.station_url_base.scheme@.len() + 1) as int,
                base_text.len() as int,
            ));
            let p0 = spec_mod_parts(url.rest@).0;
            let p1 = spec_mod_parts(url.rest@).1;
            assert(quotable(p0) && quotable(p1)) by {
                crate::ledger::lemma_first_at_props(url.rest@, 0, '@');
                match first_at(url.rest@, 0, '@') {
                    Some(i) => {
                        lemma_quotable_subrange(url.rest@, 0, i);
                        lemma_quotable_subrange(url.rest@, i + 1, url.rest@.len() as int);
                    },
                    None => {
                        reveal_strlit("latest");
                        assert(quotable("latest"@));
                    },
                }
            }
            assert(quotable(seq!['m', 'o', 'd', '/']));
            assert(quotable(seq!['/']));
            assert(quotable(seq![':']));
            lemma_quotable_concat(self.station_url_base.rest@, seq!['m', 'o', 'd', '/']);
            lemma_quotable_concat(self.station_url_base.rest@ + seq!['m', 'o', 'd', '/'], p0);
            lemma_quotable_concat(
                self.station_url_base.rest@ + seq!['m', 'o', 'd', '/'] + p0,
                seq!['/'],
            );
            lemma_quotable_concat(
                self.station_url_base.rest@ + seq!['m', 'o', 'd', '/'] + p0 + seq!['/'],
                p1,
            );
            lemma_quotable_concat(out.scheme@, seq![':']);
            lemma_quotable_concat(out.scheme@ + seq![':'], out.rest@);
            assert(out.text_spec() =~= (out.scheme@ + seq![':']) + out.rest@);
        }
        Ok(out)
    }

    /// Identity for a `kmf` locator: translate, delegate, then override the
    /// id with the mod identifier; the locator in the snapshot stays the
    /// requested one, and the source is where the delegated query ended —
    /// the translated locator when no redirect is reported.
    pub fn resolve(&self, url: &Locator, head: &HeadSnapshot) -> (r: Result<ResolveInfo, Error>)
        requires
            self.wf(),
            quotable(url.rest@),
            head.last_modified is Some ==> head.last_modified->0.wf(),
            head.final_url is Some ==> head.final_url->0.wf() && quotable(
                head.final_url->0.text_spec(),
            ),
        ensures
            r is Ok <==> is_kmf_scheme(url.scheme@),
            r is Err ==> r->Err_0 is CannotResolve,
            r is Ok ==> r->Ok_0.id@ == spec_mod_parts(url.rest@).0 && r->Ok_0.url.scheme@
                == url.scheme@ && r->Ok_0.url.rest@ == url.rest@ && r->Ok_0.last_updated
                == or_epoch(head.last_modified) && r->Ok_0.last_updated.wf() && r->Ok_0.size == (
            match head.content_length {
                Some(n) => n,
                None => 0u64,
            }),
            r is Ok && head.final_url is Some ==> r->Ok_0.source.scheme@
                == head.final_url->0.scheme@ && r->Ok_0.source.rest@ == head.final_url->0.rest@,
            r is Ok && head.final_url is None ==> r->Ok_0.source.scheme@
                == self.station_url_base.scheme@ && r->Ok_0.source.rest@ == translated_rest(
                self.station_url_base.rest@,
                url.rest@,
            ),
            r is Ok ==> r->Ok_0.source.wf() && quotable(r->Ok_0.source.text_spec()),
    {
        if !self.can_resolve(url) {
            return Err(Error::CannotResolve);
        }
        let parts = match Self::extract_url(url) {
            Some(p) => p,
            None => vstd::pervasive::unreached(),
        };
        let web_url = match self.translate_url_to_web(url) {
            Ok(u) => u,
            Err(_) => vstd::pervasive::unreached(),
        };
        let web_info = match self.inner.resolve(&web_url, head) {
            Ok(i) => i,
            Err(_) => vstd::pervasive::unreached(),
        };
        Ok(
            ResolveInfo {
                id: parts.0,
                url: url.clone_loc(),
                source: web_info.source,
                last_updated: web_info.last_updated,
                size: web_info.size,
            },
        )
    }

    /// Staleness decision for a `kmf` locator: the lookup is keyed by the
    /// originally requested specifier, not the translated web locator.
    pub fn is_up_to_date(&self, url: &Locator, ledger: &Ledger, fresh: &ResolveInfo) -> (r: Result<
        bool,
        Error,
    >)
        requires
            fresh.last_updated.wf(),
        ensures
            r is Ok <==> is_kmf_scheme(url.scheme@),
            r is Err ==> r->Err_0 is CannotResolve,
            r is Ok ==> r->Ok_0 == up_to_date(ledger@, url.text_spec(), fresh.last_updated),
    {
        if !self.can_resolve(url) {
            return Err(Error::CannotResolve);
        }
        Ok(self.inner.is_up_to_date(url, ledger, fresh))
    }

    /// The refresh decision for a `kmf` locator, delegated: the record keeps
    /// the requested specifier, the fetched web locator as source, and the
    /// delegate's digest id as key.
    pub fn cache_step(&self, url: &Locator, ledger: &Ledger, info: &ResolveInfo) -> (r: Result<
        CachePlan,
        Error,
    >)
        requires
            ledger.wf(),
            url.wf(),
            quotable(url.text_spec()),
            info.source.wf(),
            quotable(info.source.text_spec()),
            info.last_updated.wf(),
            key_wf(info.id@),
        ensures
            r is Ok <==> is_kmf_scheme(url.scheme@),
            r is Err ==> r->Err_0 is CannotResolve,
            r is Ok ==> ((r->Ok_0 is UseCurrent) == up_to_date(
                ledger@,
                url.text_spec(),
                info.last_updated,
            )),
            r is Ok && r->Ok_0 is UseCurrent ==> r->Ok_0->UseCurrent_dir@ == cache_path(
                self.inner.cache_dir@,
                info.id@,
            ),
            r is Ok && r->Ok_0 is Refresh ==> r->Ok_0->Refresh_dir@ == cache_path(
                self.inner.cache_dir@,
                info.id@,
            ) && r->Ok_0->Refresh_updated@ == refreshed(
                ledger@,
                info.id@,
                url.text_spec(),
                info.source.text_spec(),
                info.last_updated,
            ) && r->Ok_0->Refresh_updated.wf(),
    {
        if !self.can_resolve(url) {
            return Err(Error::CannotResolve);
        }
        Ok(self.inner.cache_step(url, ledger, info))
    }
}

} // verus!
