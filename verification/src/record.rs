//! Ledger entries: what was cached for a content id — the locator as
//! requested, the source actually fetched, and the origin's last-modified
//! time at that moment, kept in its rendered form.

use vstd::prelude::*;

use crate::chars::quotable;
use crate::locator::{spec_parse, Locator};
use crate::timestamp::{spec_parse_ts, Timestamp};

verus! {

/// Spec-level image of a record: the three field texts.
pub struct RecordView {
    pub specifier: Seq<char>,
    pub source: Seq<char>,
    pub last_update: Seq<char>,
}

pub struct CacheDownloadRecord {
    pub specifier: String,
    pub source: String,
    pub last_update: String,
}

impl View for CacheDownloadRecord {
    type V = RecordView;

    open spec fn view(&self) -> RecordView {
        RecordView {
            specifier: self.specifier@,
            source: self.source@,
            last_update: self.last_update@,
        }
    }
}

/// Well-formed record text: each field fits between quotes on one ledger
/// line, the locators re-parse, and the timestamp re-parses.
pub open spec fn record_view_wf(r: RecordView) -> bool {
    quotable(r.specifier) && quotable(r.source) && quotable(r.last_update) && spec_parse(
        r.specifier,
    ) is Some && spec_parse(r.source) is Some && spec_parse_ts(r.last_update) is Some
}

impl CacheDownloadRecord {
    pub open spec fn wf(&self) -> bool {
        record_view_wf(self@)
    }

    /// Builds the entry recorded after a successful refresh: the requested
    /// specifier, the fetched source, and the origin's last-modified time,
    /// rendered once here.
    pub fn new(specifier: &Locator, source: &Locator, last_update: &Timestamp) -> (r:
        CacheDownloadRecord)
        requires
            specifier.wf(),
            source.wf(),
            last_update.wf(),
            quotable(specifier.text_spec()),
            quotable(source.text_spec()),
        ensures
            r@.specifier == specifier.text_spec(),
            r@.source == source.text_spec(),
            r@.last_update == last_update.render_spec(),
            r.wf(),
    {
        let r = CacheDownloadRecord {
            specifier: specifier.text(),
            source: source.text(),
            last_update: last_update.render(),
        };
        proof {
            crate::locator::lemma_locator_roundtrip(*specifier);
            crate::locator::lemma_locator_roundtrip(*source);
            crate::timestamp::lemma_ts_roundtrip(*last_update);
            lemma_render_quotable(*last_update);
        }
        r
    }

    pub fn clone_rec(&self) -> (r: CacheDownloadRecord)
        ensures
            r@ == self@,
            r.wf() == self.wf(),
    {
        CacheDownloadRecord {
            specifier: self.specifier.clone(),
            source: self.source.clone(),
            last_update: self.last_update.clone(),
        }
    }

    /// The originally requested locator.
    pub fn specifier(&self) -> (r: Locator)
        requires
            self.wf(),
        ensures
            r.wf(),
            r.text_spec() == self@.specifier,
    {
        match Locator::parse(self.specifier.as_str()) {
            Some(l) => l,
            None => vstd::pervasive::unreached(),
        }
    }

    /// The locator the content was actually fetched from.
    pub fn source(&self) -> (r: Locator)
        requires
            self.wf(),
        ensures
            r.wf(),
            r.text_spec() == self@.source,
    {
        match Locator::parse(self.source.as_str()) {
            Some(l) => l,
            None => vstd::pervasive::unreached(),
        }
    }

    /// The recorded last-modified time.
    pub fn last_updated(&self) -> (r: Timestamp)
        requires
            self.wf(),
        ensures
            r.wf(),
            Some(r) == spec_parse_ts(self@.last_update),
    {
        match crate::timestamp::parse_ts(self.last_update.as_str()) {
            Some(ts) => ts,
            None => vstd::pervasive::unreached(),
        }
    }
}

/// A rendered timestamp holds only digits and `-T:.`, so it is quotable.
pub proof fn lemma_render_quotable(ts: Timestamp)
    ensures
        quotable(ts.render_spec()),
{
    let s = ts.render_spec();
    crate::timestamp::lemma_render_plain(ts);
    assert forall|i: int| 0 <= i < s.len() implies s[i] != '"' && s[i] != '\\' && s[i] != '\n'
        && s[i] != '\r' by {
        assert(crate::timestamp::plain_char(s[i]));
    }
}

} // verus!
