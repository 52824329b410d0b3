//! The cache record ledger: the persisted mapping from content id to the
//! record of what was last cached and when. The file format is a TOML
//! subset — one table per id, three quoted string fields — and the codec
//! here round-trips it: parsing what was serialized yields the same ledger.
//!
//! Policy on unparsable persisted state: `from_text` reports it as `None`
//! and callers surface a hard error; no layer silently substitutes an
//! empty ledger.

use vstd::prelude::*;

use crate::chars::{find_char, is_digit, is_quotable, quotable, str_eq};
use crate::record::{record_view_wf, CacheDownloadRecord, RecordView};

verus! {

/// A character allowed in a ledger table key (a TOML bare key).
pub open spec fn is_bare_char(c: char) -> bool {
    is_digit(c) || (97 <= c as u32 && c as u32 <= 122) || (65 <= c as u32 && c as u32 <= 90) || c
        == '-' || c == '_'
}

/// A valid ledger key: non-empty, bare characters only.
pub open spec fn key_wf(k: Seq<char>) -> bool {
    k.len() > 0 && forall|i: int| 0 <= i < k.len() ==> is_bare_char(#[trigger] k[i])
}

pub fn is_key_wf(s: &str) -> (r: bool)
    ensures
        r == key_wf(s@),
{
    let len = s.unicode_len();
    if len == 0 {
        return false;
    }
    let mut i: usize = 0;
    while i < len
        invariant
            len == s@.len(),
            0 <= i <= len,
            forall|j: int| 0 <= j < i ==> is_bare_char(#[trigger] s@[j]),
        decreases len - i,
    {
        let c = s.get_char(i);
        let u = c as u32;
        if !(c == '-' || c == '_' || (48 <= u && u <= 57) || (97 <= u && u <= 122) || (65 <= u && u
            <= 90)) {
            assert(!is_bare_char(s@[i as int]));
            return false;
        }
        assert(is_bare_char(s@[i as int]));
        i += 1;
    }
    true
}

pub struct Ledger {
    pub entries: Vec<(String, CacheDownloadRecord)>,
}

impl View for Ledger {
    type V = Seq<(Seq<char>, RecordView)>;

    open spec fn view(&self) -> Seq<(Seq<char>, RecordView)> {
        self.entries@.map_values(|e: (String, CacheDownloadRecord)| (e.0@, e.1@))
    }
}

pub open spec fn entries_wf(v: Seq<(Seq<char>, RecordView)>) -> bool {
    forall|i: int| #![trigger v[i]]
        0 <= i < v.len() ==> key_wf(v[i].0) && record_view_wf(v[i].1)
}

pub open spec fn unique_keys(v: Seq<(Seq<char>, RecordView)>) -> bool {
    forall|i: int, j: int| 0 <= i < j < v.len() ==> v[i].0 != v[j].0
}

pub open spec fn ledger_view_wf(v: Seq<(Seq<char>, RecordView)>) -> bool {
    entries_wf(v) && unique_keys(v)
}

proof fn lemma_not_entries_wf(v: Seq<(Seq<char>, RecordView)>, i: int)
    requires
        0 <= i < v.len(),
        !key_wf(v[i].0) || !record_view_wf(v[i].1),
    ensures
        !entries_wf(v),
{
    let e = v[i];
    assert(entries_wf(v) ==> key_wf(v[i].0) && record_view_wf(v[i].1));
}

/// First record stored under `k`.
pub open spec fn find_entry(v: Seq<(Seq<char>, RecordView)>, k: Seq<char>) -> Option<RecordView>
    decreases v.len(),
{
    if v.len() == 0 {
        None
    } else if v[0].0 == k {
        Some(v[0].1)
    } else {
        find_entry(v.drop_first(), k)
    }
}

/// First record whose specifier field is `t`.
pub open spec fn find_by_spec(v: Seq<(Seq<char>, RecordView)>, t: Seq<char>) -> Option<RecordView>
    decreases v.len(),
{
    if v.len() == 0 {
        None
    } else if v[0].1.specifier == t {
        Some(v[0].1)
    } else {
        find_by_spec(v.drop_first(), t)
    }
}

/// Upsert: replace the record under `k` if present, else append.
pub open spec fn spec_insert(
    v: Seq<(Seq<char>, RecordView)>,
    k: Seq<char>,
    r: RecordView,
) -> Seq<(Seq<char>, RecordView)> {
    if exists|i: int| 0 <= i < v.len() && v[i].0 == k {
        let i = choose|i: int| 0 <= i < v.len() && v[i].0 == k;
        v.update(i, (k, r))
    } else {
        v.push((k, r))
    }
}

proof fn lemma_find_entry_skip(v: Seq<(Seq<char>, RecordView)>, k: Seq<char>, i: int)
    requires
        0 <= i < v.len(),
        forall|j: int| 0 <= j < i ==> v[j].0 != k,
    ensures
        find_entry(v, k) == if v[i].0 == k {
            Some(v[i].1)
        } else {
            find_entry(v.skip(i + 1), k)
        },
    decreases i,
{
    if i == 0 {
        assert(v.drop_first() =~= v.skip(1));
    } else {
        lemma_find_entry_skip(v.drop_first(), k, i - 1);
        assert(v.drop_first().skip(i) =~= v.skip(i + 1));
    }
}

proof fn lemma_find_entry_none(v: Seq<(Seq<char>, RecordView)>, k: Seq<char>)
    requires
        forall|j: int| 0 <= j < v.len() ==> v[j].0 != k,
    ensures
        find_entry(v, k) is None,
    decreases v.len(),
{
    if v.len() > 0 {
        lemma_find_entry_none(v.drop_first(), k);
    }
}

proof fn lemma_find_by_spec_skip(v: Seq<(Seq<char>, RecordView)>, t: Seq<char>, i: int)
    requires
        0 <= i < v.len(),
        forall|j: int| 0 <= j < i ==> v[j].1.specifier != t,
    ensures
        find_by_spec(v, t) == if v[i].1.specifier == t {
            Some(v[i].1)
        } else {
            find_by_spec(v.skip(i + 1), t)
        },
    decreases i,
{
    if i == 0 {
        assert(v.drop_first() =~= v.skip(1));
    } else {
        lemma_find_by_spec_skip(v.drop_first(), t, i - 1);
        assert(v.drop_first().skip(i) =~= v.skip(i + 1));
    }
}

proof fn lemma_find_by_spec_none(v: Seq<(Seq<char>, RecordView)>, t: Seq<char>)
    requires
        forall|j: int| 0 <= j < v.len() ==> v[j].1.specifier != t,
    ensures
        find_by_spec(v, t) is None,
    decreases v.len(),
{
    if v.len() > 0 {
        lemma_find_by_spec_none(v.drop_first(), t);
    }
}

impl Ledger {
    pub open spec fn wf(&self) -> bool {
        ledger_view_wf(self@)
    }

    /// The empty ledger: what a fresh cache root starts from.
    pub fn new() -> (r: Ledger)
        ensures
            r@ == Seq::<(Seq<char>, RecordView)>::empty(),
            r.wf(),
    {
        let r = Ledger { entries: Vec::new() };
        proof {
            assert(r@ =~= Seq::<(Seq<char>, RecordView)>::empty());
        }
        r
    }

    pub fn len(&self) -> (r: usize)
        ensures
            r == self@.len(),
    {
        self.entries.len()
    }

    /// The record stored under `id`, if any.
    pub fn get(&self, id: &str) -> (r: Option<&CacheDownloadRecord>)
        ensures
            r is Some <==> find_entry(self@, id@) is Some,
            r is Some ==> Some(r->0@) == find_entry(self@, id@),
    {
        let n = self.entries.len();
        let mut i: usize = 0;
        while i < n
            invariant
                n == self.entries.len(),
                0 <= i <= n,
                forall|j: int| 0 <= j < i ==> self@[j].0 != id@,
            decreases n - i,
        {
            if str_eq(self.entries[i].0.as_str(), id) {
                proof {
                    lemma_find_entry_skip(self@, id@, i as int);
                }
                return Some(&self.entries[i].1);
            }
            i += 1;
        }
        proof {
            lemma_find_entry_none(self@, id@);
        }
        None
    }

    /// The record whose originally requested specifier is `t`, if any.
    pub fn find_by_specifier(&self, t: &str) -> (r: Option<&CacheDownloadRecord>)
        ensures
            r is Some <==> find_by_spec(self@, t@) is Some,
            r is Some ==> Some(r->0@) == find_by_spec(self@, t@),
    {
        let n = self.entries.len();
        let mut i: usize = 0;
        while i < n
            invariant
                n == self.entries.len(),
                0 <= i <= n,
                forall|j: int| 0 <= j < i ==> self@[j].1.specifier != t@,
            decreases n - i,
        {
            if str_eq(self.entries[i].1.specifier.as_str(), t) {
                proof {
                    lemma_find_by_spec_skip(self@, t@, i as int);
                }
                return Some(&self.entries[i].1);
            }
            i += 1;
        }
        proof {
            lemma_find_by_spec_none(self@, t@);
        }
        None
    }

    /// Replaces the record under `id`, or appends one.
    pub fn insert(&mut self, id: String, rec: CacheDownloadRecord)
        requires
            old(self).wf(),
            key_wf(id@),
            rec.wf(),
        ensures
            final(self).wf(),
            final(self)@ == spec_insert(old(self)@, id@, rec@),
            find_entry(final(self)@, id@) == Some(rec@),
    {
        let ghost v0 = self@;
        let n = self.entries.len();
        let mut i: usize = 0;
        while i < n
            invariant
                self@ == v0,
                v0 == old(self)@,
                ledger_view_wf(v0),
                key_wf(id@),
                rec.wf(),
                n == self.entries.len(),
                0 <= i <= n,
                forall|j: int| 0 <= j < i ==> self@[j].0 != id@,
            decreases n - i,
        {
            if str_eq(self.entries[i].0.as_str(), id.as_str()) {
                proof {
                    assert(v0[i as int].0 == id@);
                }
                self.entries.remove(i);
                self.entries.insert(i, (id, rec));
                proof {
                    assert(exists|w: int| 0 <= w < v0.len() && v0[w].0 == id@);
                    let w = choose|w: int| 0 <= w < v0.len() && v0[w].0 == id@;
                    assert(w == i as int) by {
                        if w < i as int {
                            assert(v0[w].0 != v0[i as int].0);
                        } else if w > i as int {
                            assert(v0[i as int].0 != v0[w].0);
                        }
                    }
                    assert(self@ =~= v0.update(i as int, (id@, rec@)));
                    assert(self@ == spec_insert(v0, id@, rec@));
                    lemma_find_entry_skip(self@, id@, i as int);
                }
                return ;
            }
            i += 1;
        }
        self.entries.push((id, rec));
        proof {
            assert(self@ =~= v0.push((id@, rec@)));
            assert(forall|w: int| 0 <= w < v0.len() ==> v0[w].0 != id@);
            assert(self@ == spec_insert(v0, id@, rec@));
            lemma_find_entry_skip(self@, id@, v0.len() as int);
        }
    }
}

// ------------------------------------------------------------------
// The ledger file codec.
// ------------------------------------------------------------------
/// `specifier = "` — the text that opens the specifier field.
pub open spec fn key_specifier() -> Seq<char> {
    seq!['s', 'p', 'e', 'c', 'i', 'f', 'i', 'e', 'r', ' ', '=', ' ', '"']
}

/// `source = "` — the text that opens the source field.
pub open spec fn key_source() -> Seq<char> {
    seq!['s', 'o', 'u', 'r', 'c', 'e', ' ', '=', ' ', '"']
}

/// `last_update = "` — the text that opens the last-update field.
pub open spec fn key_last_update() -> Seq<char> {
    seq!['l', 'a', 's', 't', '_', 'u', 'p', 'd', 'a', 't', 'e', ' ', '=', ' ', '"']
}

/// `"` and a line break: what closes every field line.
pub open spec fn close_quote() -> Seq<char> {
    seq!['"', '\n']
}

/// One serialized ledger table.
#[verifier::opaque]
pub open spec fn ser_record(k: Seq<char>, r: RecordView) -> Seq<char> {
    seq!['['] + k + seq![']', '\n'] + key_specifier() + r.specifier + close_quote() + key_source()
        + r.source + close_quote() + key_last_update() + r.last_update + close_quote()
}

/// The serialized ledger: its tables in order.
pub open spec fn ser_entries(v: Seq<(Seq<char>, RecordView)>) -> Seq<char>
    decreases v.len(),
{
    if v.len() == 0 {
        Seq::<char>::empty()
    } else {
        ser_record(v[0].0, v[0].1) + ser_entries(v.drop_first())
    }
}

/// First index at or after `from` holding `c`.
pub open spec fn first_at(s: Seq<char>, from: int, c: char) -> Option<int>
    decreases s.len() - from,
    when 0 <= from <= s.len()
{
    if from >= s.len() {
        None
    } else if s[from] == c {
        Some(from)
    } else {
        first_at(s, from + 1, c)
    }
}

/// Bounds of a successful scan.
pub(crate) proof fn lemma_first_at_props(s: Seq<char>, from: int, c: char)
    requires
        0 <= from <= s.len(),
    ensures
        match first_at(s, from, c) {
            Some(i) => from <= i < s.len() && s[i] == c,
            None => true,
        },
    decreases s.len() - from,
{
    if from < s.len() && s[from] != c {
        lemma_first_at_props(s, from + 1, c);
    }
}

pub(crate) proof fn lemma_first_at_found(s: Seq<char>, from: int, i: int, c: char)
    requires
        0 <= from <= i < s.len(),
        s[i] == c,
        forall|j: int| from <= j < i ==> s[j] != c,
    ensures
        first_at(s, from, c) == Some(i),
    decreases i - from,
{
    if from < i {
        lemma_first_at_found(s, from + 1, i, c);
    }
}

pub(crate) proof fn lemma_first_at_none(s: Seq<char>, from: int, c: char)
    requires
        0 <= from <= s.len(),
        forall|j: int| from <= j < s.len() ==> s[j] != c,
    ensures
        first_at(s, from, c) is None,
    decreases s.len() - from,
{
    if from < s.len() {
        lemma_first_at_none(s, from + 1, c);
    }
}

/// A field line read at `p`: its text between the quotes, and the position
/// after the closing quote and line break.
pub open spec fn spec_parse_field(s: Seq<char>, p: int, key: Seq<char>) -> Option<(Seq<char>, int)> {
    if 0 <= p && p + key.len() <= s.len() && s.subrange(p, p + key.len() as int) == key {
        match first_at(s, p + key.len() as int, '"') {
            Some(q) => if q + 1 < s.len() && s[q + 1] == '\n' {
                Some((s.subrange(p + key.len() as int, q), q + 2))
            } else {
                None
            },
            None => None,
        }
    } else {
        None
    }
}

/// A table read at `p`: its key, its record, and the position after it.
pub open spec fn spec_parse_record(s: Seq<char>, p: int) -> Option<(Seq<char>, RecordView, int)> {
    if 0 <= p && p < s.len() && s[p] == '[' {
        match first_at(s, p + 1, ']') {
            Some(i) => if p + 1 < i && i + 1 < s.len() && s[i + 1] == '\n' {
                match spec_parse_field(s, i + 2, key_specifier()) {
                    Some((v1, p1)) => match spec_parse_field(s, p1, key_source()) {
                        Some((v2, p2)) => match spec_parse_field(s, p2, key_last_update()) {
                            Some((v3, p3)) => Some(
                                (
                                    s.subrange(p + 1, i),
                                    RecordView { specifier: v1, source: v2, last_update: v3 },
                                    p3,
                                ),
                            ),
                            None => None,
                        },
                        None => None,
                    },
                    None => None,
                }
            } else {
                None
            },
            None => None,
        }
    } else {
        None
    }
}

/// The tables read from `p` to the end of the text.
pub open spec fn spec_parse_entries(s: Seq<char>, p: int) -> Option<Seq<(Seq<char>, RecordView)>>
    decreases s.len() - p,
    when 0 <= p <= s.len()
{
    if p == s.len() {
        Some(Seq::<(Seq<char>, RecordView)>::empty())
    } else {
        match spec_parse_record(s, p) {
            Some((k, r, n)) => if p < n <= s.len() {
                match spec_parse_entries(s, n) {
                    Some(rest) => Some(seq![(k, r)] + rest),
                    None => None,
                }
            } else {
                None
            },
            None => None,
        }
    }
}

/// What a ledger file text denotes: its tables, provided they are
/// well-formed and their keys unique.
pub open spec fn spec_parse_ledger(s: Seq<char>) -> Option<Seq<(Seq<char>, RecordView)>> {
    match spec_parse_entries(s, 0) {
        Some(v) => if ledger_view_wf(v) {
            Some(v)
        } else {
            None
        },
        None => None,
    }
}

proof fn lemma_lit_keys()
    ensures
        "specifier = \""@ == key_specifier(),
        "source = \""@ == key_source(),
        "last_update = \""@ == key_last_update(),
        "\"\n"@ == close_quote(),
        "["@ == seq!['['],
        "]\n"@ == seq![']', '\n'],
{
    reveal_strlit("specifier = \"");
    reveal_strlit("source = \"");
    reveal_strlit("last_update = \"");
    reveal_strlit("\"\n");
    reveal_strlit("[");
    reveal_strlit("]\n");
    assert("specifier = \""@ =~= key_specifier());
    assert("source = \""@ =~= key_source());
    assert("last_update = \""@ =~= key_last_update());
    assert("\"\n"@ =~= close_quote());
    assert("["@ =~= seq!['[']);
    assert("]\n"@ =~= seq![']', '\n']);
}

impl Ledger {
    fn ser_from(&self, i: usize) -> (r: String)
        requires
            i <= self.entries.len(),
        ensures
            r@ == ser_entries(self@.subrange(i as int, self@.len() as int)),
        decreases self.entries.len() - i,
    {
        if i == self.entries.len() {
            proof {
                assert(self@.subrange(i as int, self@.len() as int) =~= Seq::<
                    (Seq<char>, RecordView),
                >::empty());
            }
            String::new()
        } else {
            let e = &self.entries[i];
            let mut out = String::from_str("[");
            out.append(e.0.as_str());
            out.append("]\n");
            out.append("specifier = \"");
            out.append(e.1.specifier.as_str());
            out.append("\"\n");
            out.append("source = \"");
            out.append(e.1.source.as_str());
            out.append("\"\n");
            out.append("last_update = \"");
            out.append(e.1.last_update.as_str());
            out.append("\"\n");
            let rest = self.ser_from(i + 1);
            out.append(rest.as_str());
            proof {
                lemma_lit_keys();
                reveal(ser_record);
                let v = self@.subrange(i as int, self@.len() as int);
                assert(v.drop_first() =~= self@.subrange(i + 1, self@.len() as int));
                assert(v[0] == self@[i as int]);
                assert(out@ =~= ser_record(self@[i as int].0, self@[i as int].1) + ser_entries(
                    v.drop_first(),
                ));
            }
            out
        }
    }

    /// Serializes the ledger in full: the whole file contents, one table
    /// per entry, in order.
    pub fn to_text(&self) -> (r: String)
        ensures
            r@ == ser_entries(self@),
    {
        let r = self.ser_from(0);
        proof {
            assert(self@.subrange(0, self@.len() as int) =~= self@);
        }
        r
    }
}

fn parse_field_exec(s: &str, p: usize, key: &str) -> (r: Option<(String, usize)>)
    requires
        p <= s@.len(),
    ensures
        r is Some ==> p < (r->0).1 <= s@.len() && spec_parse_field(s@, p as int, key@) == Some(
            (((r->0).0@, (r->0).1 as int)),
        ),
        r is None ==> spec_parse_field(s@, p as int, key@) is None,
{
    let len = s.unicode_len();
    let klen = key.unicode_len();
    if klen > len - p {
        return None;
    }
    let pk = p + klen;
    if !str_eq(s.substring_char(p, pk), key) {
        return None;
    }
    match find_char(s, pk, '"') {
        None => {
            proof {
                lemma_first_at_none(s@, pk as int, '"');
            }
            None
        },
        Some(q) => {
            proof {
                lemma_first_at_found(s@, pk as int, q as int, '"');
            }
            if q + 1 >= len {
                None
            } else if s.get_char(q + 1) != '\n' {
                None
            } else {
                let v = String::from_str(s.substring_char(pk, q));
                Some((v, q + 2))
            }
        },
    }
}

fn parse_record_exec(s: &str, p: usize) -> (r: Option<(String, CacheDownloadRecord, usize)>)
    requires
        p <= s@.len(),
    ensures
        r is Some ==> p < (r->0).2 <= s@.len() && spec_parse_record(s@, p as int) == Some(
            (((r->0).0@, (r->0).1@, (r->0).2 as int)),
        ),
        r is None ==> spec_parse_record(s@, p as int) is None,
{
    proof {
        lemma_lit_keys();
    }
    let len = s.unicode_len();
    if p >= len {
        return None;
    }
    if s.get_char(p) != '[' {
        return None;
    }
    match find_char(s, p + 1, ']') {
        None => {
            proof {
                lemma_first_at_none(s@, (p + 1) as int, ']');
            }
            None
        },
        Some(i) => {
            proof {
                lemma_first_at_found(s@, (p + 1) as int, i as int, ']');
            }
            if i == p + 1 {
                return None;
            }
            if i + 1 >= len {
                return None;
            }
            if s.get_char(i + 1) != '\n' {
                return None;
            }
            let k = String::from_str(s.substring_char(p + 1, i));
            match parse_field_exec(s, i + 2, "specifier = \"") {
                None => None,
                Some((v1, p1)) => match parse_field_exec(s, p1, "source = \"") {
                    None => None,
                    Some((v2, p2)) => match parse_field_exec(s, p2, "last_update = \"") {
                        None => None,
                        Some((v3, p3)) => {
                            let rec = CacheDownloadRecord {
                                specifier: v1,
                                source: v2,
                                last_update: v3,
                            };
                            Some((k, rec, p3))
                        },
                    },
                },
            }
        },
    }
}

/// The view of parsed entry pairs.
pub open spec fn entries_view(es: Seq<(String, CacheDownloadRecord)>) -> Seq<
    (Seq<char>, RecordView),
> {
    es.map_values(|e: (String, CacheDownloadRecord)| (e.0@, e.1@))
}

fn parse_entries_exec(s: &str, p: usize) -> (r: Option<Vec<(String, CacheDownloadRecord)>>)
    requires
        p <= s@.len(),
    ensures
        r is Some ==> spec_parse_entries(s@, p as int) == Some(entries_view(r->0@)),
        r is None ==> spec_parse_entries(s@, p as int) is None,
    decreases s@.len() - p,
{
    let len = s.unicode_len();
    if p == len {
        let out: Vec<(String, CacheDownloadRecord)> = Vec::new();
        proof {
            assert(entries_view(out@) =~= Seq::<(Seq<char>, RecordView)>::empty());
        }
        Some(out)
    } else {
        match parse_record_exec(s, p) {
            None => None,
            Some((k, rec, n)) => {
                match parse_entries_exec(s, n) {
                    None => None,
                    Some(mut rest) => {
                        rest.insert(0, (k, rec));
                        proof {
                            assert(entries_view(rest@) =~= seq![(rest@[0].0@, rest@[0].1@)]
                                + entries_view(rest@.drop_first()));
                        }
                        Some(rest)
                    },
                }
            },
        }
    }
}

impl Ledger {
    /// Reads a ledger back from its file text. `None` means the text is
    /// not a well-formed ledger; callers treat that as corruption, never
    /// as an empty ledger.
    pub fn from_text(s: &str) -> (r: Option<Ledger>)
        ensures
            r is Some ==> r->0.wf() && spec_parse_ledger(s@) == Some(r->0@),
            r is None ==> spec_parse_ledger(s@) is None,
    {
        match parse_entries_exec(s, 0) {
            None => None,
            Some(entries) => {
                let n = entries.len();
                let ghost v = entries_view(entries@);
                proof {
                    assert(forall|j: int|
                        0 <= j < n ==> v[j] == (entries@[j].0@, entries@[j].1@));
                }
                let mut i: usize = 0;
                while i < n
                    invariant
                        n == entries.len(),
                        v == entries_view(entries@),
                        v.len() == n,
                        spec_parse_entries(s@, 0) == Some(v),
                        forall|j: int| 0 <= j < n ==> v[j] == (entries@[j].0@, entries@[j].1@),
                        0 <= i <= n,
                        forall|j: int|
                            0 <= j < i ==> key_wf(#[trigger] v[j].0) && record_view_wf(v[j].1),
                        forall|a: int, b: int| 0 <= a < b < i ==> v[a].0 != v[b].0,
                    decreases n - i,
                {
                    let e = &entries[i];
                    proof {
                        assert(v[i as int] == (entries@[i as int].0@, entries@[i as int].1@));
                    }
                    if !is_key_wf(e.0.as_str()) {
                        proof {
                            assert(!key_wf(v[i as int].0));
                            lemma_not_entries_wf(v, i as int);
                        }
                        return None;
                    }
                    if !is_quotable(e.1.specifier.as_str()) || !is_quotable(e.1.source.as_str())
                        || !is_quotable(e.1.last_update.as_str()) {
                        proof {
                            assert(!record_view_wf(v[i as int].1));
                            lemma_not_entries_wf(v, i as int);
                        }
                        return None;
                    }
                    if crate::locator::Locator::parse(e.1.specifier.as_str()).is_none() {
                        proof {
                            assert(!record_view_wf(v[i as int].1));
                            lemma_not_entries_wf(v, i as int);
                        }
                        return None;
                    }
                    if crate::locator::Locator::parse(e.1.source.as_str()).is_none() {
                        proof {
                            assert(!record_view_wf(v[i as int].1));
                            lemma_not_entries_wf(v, i as int);
                        }
                        return None;
                    }
                    if crate::timestamp::parse_ts(e.1.last_update.as_str()).is_none() {
                        proof {
                            assert(!record_view_wf(v[i as int].1));
                            lemma_not_entries_wf(v, i as int);
                        }
                        return None;
                    }
                    let mut j: usize = 0;
                    while j < i
                        invariant
                            n == entries.len(),
                            v == entries_view(entries@),
                            v.len() == n,
                            spec_parse_entries(s@, 0) == Some(v),
                            forall|b: int| 0 <= b < n ==> v[b] == (entries@[b].0@, entries@[b].1@),
                            0 <= j <= i < n,
                            forall|b: int| 0 <= b < j ==> v[b].0 != v[i as int].0,
                        decreases i - j,
                    {
                        if str_eq(entries[j].0.as_str(), entries[i].0.as_str()) {
                            proof {
                                assert(v[j as int].0 == v[i as int].0);
                                assert(!unique_keys(v));
                            }
                            return None;
                        }
                        j += 1;
                    }
                    i += 1;
                }
                let led = Ledger { entries };
                proof {
                    assert(led@ == v);
                    assert(entries_wf(v));
                    assert(unique_keys(v));
                }
                Some(led)
            },
        }
    }
}

proof fn lemma_seq_at(s: Seq<char>, p: int, rec: Seq<char>)
    requires
        0 <= p,
        p + rec.len() <= s.len(),
        s.subrange(p, p + rec.len() as int) == rec,
    ensures
        forall|idx: int| 0 <= idx < rec.len() ==> s[p + idx] == #[trigger] rec[idx],
{
    assert forall|idx: int| 0 <= idx < rec.len() implies s[p + idx] == #[trigger] rec[idx] by {
        assert(rec[idx] == s.subrange(p, p + rec.len() as int)[idx]);
    }
}

proof fn lemma_parse_ser_field(s: Seq<char>, p: int, key: Seq<char>, v: Seq<char>)
    requires
        quotable(v),
        0 <= p,
        p + key.len() + v.len() + 2 <= s.len(),
        s.subrange(p, p + key.len() as int) == key,
        s.subrange(p + key.len() as int, p + key.len() + v.len()) == v,
        s[p + key.len() + v.len()] == '"',
        s[p + key.len() + v.len() + 1] == '\n',
    ensures
        spec_parse_field(s, p, key) == Some((v, p + key.len() + v.len() + 2)),
{
    let a = p + key.len() as int;
    let b = a + v.len() as int;
    lemma_seq_at(s, a, v);
    assert forall|j: int| a <= j < b implies s[j] != '"' by {
        assert(s[j] == v[j - a]);
    }
    lemma_first_at_found(s, a, b, '"');
}

proof fn lemma_rec_slice(s: Seq<char>, p: int, rec: Seq<char>, off: int, piece: Seq<char>)
    requires
        0 <= p,
        p + rec.len() <= s.len(),
        forall|idx: int| 0 <= idx < rec.len() ==> s[p + idx] == #[trigger] rec[idx],
        0 <= off,
        off + piece.len() <= rec.len(),
        forall|j: int| 0 <= j < piece.len() ==> rec[off + j] == #[trigger] piece[j],
    ensures
        s.subrange(p + off, p + off + piece.len() as int) == piece,
{
    assert forall|j: int|
        0 <= j < piece.len() implies s.subrange(p + off, p + off + piece.len() as int)[j]
        == piece[j] by {
        assert(rec[off + j] == piece[j]);
        assert(s[p + (off + j)] == rec[off + j]);
    }
    assert(s.subrange(p + off, p + off + piece.len() as int) =~= piece);
}

#[verifier::rlimit(60)]
proof fn lemma_ser_record_shape(k: Seq<char>, r: RecordView)
    ensures
        ser_record(k, r).len() == 47 + k.len() + r.specifier.len() + r.source.len()
            + r.last_update.len(),
        ser_record(k, r)[0] == '[',
        forall|j: int| 0 <= j < k.len() ==> #[trigger] ser_record(k, r)[1 + j] == k[j],
        ser_record(k, r)[(1 + k.len()) as int] == ']',
        ser_record(k, r)[(2 + k.len()) as int] == '\n',
        forall|j: int|
            0 <= j < 13 ==> #[trigger] ser_record(k, r)[3 + k.len() + j] == key_specifier()[j],
        forall|j: int|
            0 <= j < r.specifier.len() ==> #[trigger] ser_record(k, r)[16 + k.len() + j]
                == r.specifier[j],
        ser_record(k, r)[(16 + k.len() + r.specifier.len()) as int] == '"',
        ser_record(k, r)[(17 + k.len() + r.specifier.len()) as int] == '\n',
        forall|j: int|
            0 <= j < 10 ==> #[trigger] ser_record(k, r)[18 + k.len() + r.specifier.len() + j]
                == key_source()[j],
        forall|j: int|
            0 <= j < r.source.len() ==> #[trigger] ser_record(k, r)[28 + k.len()
                + r.specifier.len() + j] == r.source[j],
        ser_record(k, r)[(28 + k.len() + r.specifier.len() + r.source.len()) as int] == '"',
        ser_record(k, r)[(29 + k.len() + r.specifier.len() + r.source.len()) as int] == '\n',
        forall|j: int|
            0 <= j < 15 ==> #[trigger] ser_record(k, r)[30 + k.len() + r.specifier.len()
                + r.source.len() + j] == key_last_update()[j],
        forall|j: int|
            0 <= j < r.last_update.len() ==> #[trigger] ser_record(k, r)[45 + k.len()
                + r.specifier.len() + r.source.len() + j] == r.last_update[j],
        ser_record(k, r)[(45 + k.len() + r.specifier.len() + r.source.len()
            + r.last_update.len()) as int] == '"',
        ser_record(k, r)[(46 + k.len() + r.specifier.len() + r.source.len()
            + r.last_update.len()) as int] == '\n',
{
    reveal(ser_record);
}

#[verifier::rlimit(60)]
proof fn lemma_parse_ser_record(s: Seq<char>, p: int, k: Seq<char>, r: RecordView)
    requires
        key_wf(k),
        record_view_wf(r),
        0 <= p,
        p + ser_record(k, r).len() <= s.len(),
        s.subrange(p, p + ser_record(k, r).len() as int) == ser_record(k, r),
    ensures
        spec_parse_record(s, p) == Some((k, r, p + ser_record(k, r).len() as int)),
{
    let rec = ser_record(k, r);
    let kl = k.len() as int;
    let sl = r.specifier.len() as int;
    let rl = r.source.len() as int;
    let ll = r.last_update.len() as int;
    lemma_ser_record_shape(k, r);
    assert(rec.len() == 47 + kl + sl + rl + ll);
    lemma_seq_at(s, p, rec);
    assert(s[p + 0] == rec[0]);
    assert(s[p] == '[');
    let ib = p + 1 + kl;
    lemma_rec_slice(s, p, rec, 1, k);
    assert(s.subrange(p + 1, ib) == k);
    assert(s[p + (1 + kl)] == rec[1 + kl]);
    assert(s[ib] == ']');
    assert(s[p + (2 + kl)] == rec[2 + kl]);
    assert(s[ib + 1] == '\n');
    assert forall|j: int| p + 1 <= j < ib implies s[j] != ']' by {
        assert(rec[1 + (j - p - 1)] == k[j - p - 1]);
        assert(s[p + (j - p)] == rec[j - p]);
        assert(is_bare_char(k[j - p - 1]));
    }
    lemma_first_at_found(s, p + 1, ib, ']');
    let f1 = ib + 2;
    let a1 = f1 + 13;
    let b1 = a1 + sl;
    assert forall|j: int| 0 <= j < 13 implies rec[3 + kl + j] == #[trigger] key_specifier()[j] by {
        assert(ser_record(k, r)[3 + k.len() + j] == key_specifier()[j]);
    }
    lemma_rec_slice(s, p, rec, 3 + kl, key_specifier());
    assert(s.subrange(f1, a1) == key_specifier());
    lemma_rec_slice(s, p, rec, 16 + kl, r.specifier);
    assert(s.subrange(a1, b1) == r.specifier);
    assert(s[p + (16 + kl + sl)] == rec[16 + kl + sl]);
    assert(s[b1] == '"');
    assert(s[p + (17 + kl + sl)] == rec[17 + kl + sl]);
    assert(s[b1 + 1] == '\n');
    lemma_parse_ser_field(s, f1, key_specifier(), r.specifier);
    let f2 = b1 + 2;
    let a2 = f2 + 10;
    let b2 = a2 + rl;
    assert forall|j: int| 0 <= j < 10 implies rec[18 + kl + sl + j] == #[trigger] key_source()[j] by {
        assert(ser_record(k, r)[18 + k.len() + r.specifier.len() + j] == key_source()[j]);
    }
    lemma_rec_slice(s, p, rec, 18 + kl + sl, key_source());
    assert(s.subrange(f2, a2) == key_source());
    lemma_rec_slice(s, p, rec, 28 + kl + sl, r.source);
    assert(s.subrange(a2, b2) == r.source);
    assert(s[p + (28 + kl + sl + rl)] == rec[28 + kl + sl + rl]);
    assert(s[b2] == '"');
    assert(s[p + (29 + kl + sl + rl)] == rec[29 + kl + sl + rl]);
    assert(s[b2 + 1] == '\n');
    lemma_parse_ser_field(s, f2, key_source(), r.source);
    let f3 = b2 + 2;
    let a3 = f3 + 15;
    let b3 = a3 + ll;
    assert forall|j: int| 0 <= j < 15 implies rec[30 + kl + sl + rl + j]
        == #[trigger] key_last_update()[j] by {
        assert(ser_record(k, r)[30 + k.len() + r.specifier.len() + r.source.len() + j]
            == key_last_update()[j]);
    }
    lemma_rec_slice(s, p, rec, 30 + kl + sl + rl, key_last_update());
    assert(s.subrange(f3, a3) == key_last_update());
    lemma_rec_slice(s, p, rec, 45 + kl + sl + rl, r.last_update);
    assert(s.subrange(a3, b3) == r.last_update);
    assert(s[p + (45 + kl + sl + rl + ll)] == rec[45 + kl + sl + rl + ll]);
    assert(s[b3] == '"');
    assert(s[p + (46 + kl + sl + rl + ll)] == rec[46 + kl + sl + rl + ll]);
    assert(s[b3 + 1] == '\n');
    lemma_parse_ser_field(s, f3, key_last_update(), r.last_update);
    assert(b3 + 2 == p + rec.len() as int);
    assert(RecordView { specifier: r.specifier, source: r.source, last_update: r.last_update }
        == r);
}

proof fn lemma_parse_ser_entries(s: Seq<char>, p: int, v: Seq<(Seq<char>, RecordView)>)
    requires
        entries_wf(v),
        0 <= p <= s.len(),
        p + ser_entries(v).len() == s.len(),
        s.subrange(p, s.len() as int) == ser_entries(v),
    ensures
        spec_parse_entries(s, p) == Some(v),
    decreases v.len(),
{
    let whole = ser_entries(v);
    if v.len() == 0 {
        assert(p == s.len());
        assert(spec_parse_entries(s, p) == Some(Seq::<(Seq<char>, RecordView)>::empty()));
        assert(v =~= Seq::<(Seq<char>, RecordView)>::empty());
    } else {
        let k = v[0].0;
        assert(v[0] == (k, v[0].1));
        let r = v[0].1;
        assert(key_wf(k) && record_view_wf(r));
        let rec = ser_record(k, r);
        let rest = ser_entries(v.drop_first());
        assert(whole == rec + rest);
        lemma_seq_at(s, p, whole);
        assert forall|idx: int|
            0 <= idx < rec.len() implies s.subrange(p, p + rec.len() as int)[idx] == rec[idx] by {
            assert(s[p + idx] == whole[idx]);
        }
        assert(s.subrange(p, p + rec.len() as int) =~= rec);
        lemma_parse_ser_record(s, p, k, r);
        let n = p + rec.len() as int;
        assert forall|j: int|
            0 <= j < rest.len() implies s.subrange(n, s.len() as int)[j] == rest[j] by {
            assert(s[n + j] == whole[rec.len() + j]);
        }
        assert(s.subrange(n, s.len() as int) =~= rest);
        assert(entries_wf(v.drop_first())) by {
            assert forall|i: int| #![trigger v.drop_first()[i]]
                0 <= i < v.drop_first().len() implies key_wf(v.drop_first()[i].0)
                && record_view_wf(v.drop_first()[i].1) by {
                assert(v.drop_first()[i] == v[i + 1]);
            }
        }
        lemma_parse_ser_entries(s, n, v.drop_first());
        assert((v[0].0, v[0].1) == v[0]);
        assert(seq![(k, r)] + v.drop_first() =~= v);
    }
}

/// Round trip of the ledger file: serializing a well-formed ledger and
/// parsing the text back yields the same entries — ids, locators and
/// timestamps preserved exactly, sub-second precision included.
pub proof fn lemma_ledger_roundtrip(v: Seq<(Seq<char>, RecordView)>)
    requires
        ledger_view_wf(v),
    ensures
        spec_parse_ledger(ser_entries(v)) == Some(v),
{
    let s = ser_entries(v);
    assert(s.subrange(0, s.len() as int) =~= s);
    lemma_parse_ser_entries(s, 0, v);
}

/// After an upsert, a lookup by the record's specifier finds exactly the
/// new record — provided ids are a function of the specifier, as the
/// resolvers derive them.
pub proof fn lemma_find_by_spec_after_insert(
    v: Seq<(Seq<char>, RecordView)>,
    id: Seq<char>,
    rec: RecordView,
)
    requires
        unique_keys(v),
        forall|i: int|
            0 <= i < v.len() ==> ((#[trigger] v[i]).1.specifier == rec.specifier ==> v[i].0 == id),
    ensures
        find_by_spec(spec_insert(v, id, rec), rec.specifier) == Some(rec),
{
    if exists|i: int| 0 <= i < v.len() && v[i].0 == id {
        let w = choose|i: int| 0 <= i < v.len() && v[i].0 == id;
        let u = v.update(w, (id, rec));
        assert forall|j: int| 0 <= j < w implies u[j].1.specifier != rec.specifier by {
            assert(u[j] == v[j]);
            if v[j].1.specifier == rec.specifier {
                assert(v[j].0 == id);
                assert(v[j].0 != v[w].0);
            }
        }
        assert(u[w].1.specifier == rec.specifier);
        lemma_find_by_spec_skip(u, rec.specifier, w);
    } else {
        let u = v.push((id, rec));
        assert forall|j: int| 0 <= j < v.len() implies u[j].1.specifier != rec.specifier by {
            assert(u[j] == v[j]);
            if v[j].1.specifier == rec.specifier {
                assert(v[j].0 == id);
            }
        }
        assert(u[v.len() as int].1.specifier == rec.specifier);
        lemma_find_by_spec_skip(u, rec.specifier, v.len() as int);
    }
}

/// After an upsert, the lookup by id yields the new record.
pub proof fn lemma_find_entry_after_insert(
    v: Seq<(Seq<char>, RecordView)>,
    id: Seq<char>,
    rec: RecordView,
)
    requires
        unique_keys(v),
    ensures
        find_entry(spec_insert(v, id, rec), id) == Some(rec),
{
    if exists|i: int| 0 <= i < v.len() && v[i].0 == id {
        let w = choose|i: int| 0 <= i < v.len() && v[i].0 == id;
        let u = v.update(w, (id, rec));
        assert forall|j: int| 0 <= j < w implies u[j].0 != id by {
            assert(u[j] == v[j]);
            if v[j].0 == id {
                assert(v[j].0 != v[w].0);
            }
        }
        lemma_find_entry_skip(u, id, w);
    } else {
        let u = v.push((id, rec));
        assert forall|j: int| 0 <= j < v.len() implies u[j].0 != id by {
            assert(u[j] == v[j]);
        }
        lemma_find_entry_skip(u, id, v.len() as int);
    }
}

impl Ledger {
    /// A deep copy: the cache-refresh planner derives the updated ledger
    /// from the current one without consuming it.
    pub fn clone_led(&self) -> (r: Ledger)
        ensures
            r@ == self@,
    {
        let n = self.entries.len();
        let mut out: Vec<(String, CacheDownloadRecord)> = Vec::new();
        let mut i: usize = 0;
        while i < n
            invariant
                n == self.entries.len(),
                0 <= i <= n,
                out@.len() == i,
                forall|j: int|
                    0 <= j < i ==> (#[trigger] out@[j]).0@ == self.entries@[j].0@ && out@[j].1@
                        == self.entries@[j].1@,
            decreases n - i,
        {
            let e = &self.entries[i];
            out.push((e.0.clone(), e.1.clone_rec()));
            i += 1;
        }
        let r = Ledger { entries: out };
        proof {
            assert forall|j: int| 0 <= j < r@.len() implies r@[j] == self@[j] by {
                assert(r@[j] == (out@[j].0@, out@[j].1@));
                assert(self@[j] == (self.entries@[j].0@, self.entries@[j].1@));
            }
            assert(r@ =~= self@);
        }
        r
    }
}

} // verus!
