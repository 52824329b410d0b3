//! Locators: absolute URIs identifying a content source. The scheme picks the
//! resolver; the remainder is kept verbatim. A locator renders as
//! `scheme ":" rest` and parses back unambiguously.

use vstd::prelude::*;

use crate::chars::{contains_char, find_char, str_eq};

verus! {

pub struct Locator {
    pub scheme: String,
    pub rest: String,
}

impl Locator {
    /// Well-formed: non-empty scheme without `:`, so rendering is injective.
    pub open spec fn wf(&self) -> bool {
        self.scheme@.len() > 0 && !contains_char(self.scheme@, ':')
    }

    /// The full locator text.
    pub open spec fn text_spec(&self) -> Seq<char> {
        self.scheme@ + seq![':'] + self.rest@
    }

    pub fn new(scheme: &str, rest: &str) -> (r: Locator)
        ensures
            r.scheme@ == scheme@,
            r.rest@ == rest@,
    {
        Locator { scheme: String::from_str(scheme), rest: String::from_str(rest) }
    }

    pub fn clone_loc(&self) -> (r: Locator)
        ensures
            r.scheme@ == self.scheme@,
            r.rest@ == self.rest@,
    {
        Locator { scheme: self.scheme.clone(), rest: self.rest.clone() }
    }

    /// Renders the locator as `scheme ":" rest`.
    pub fn text(&self) -> (r: String)
        ensures
            r@ == self.text_spec(),
    {
        let mut s = self.scheme.clone();
        s.append(":");
        s.append(self.rest.as_str());
        proof {
            reveal_strlit(":");
            assert(s@ =~= self.text_spec());
        }
        s
    }

    pub fn scheme_is(&self, scheme: &str) -> (r: bool)
        ensures
            r == (self.scheme@ == scheme@),
    {
        str_eq(self.scheme.as_str(), scheme)
    }

    /// Splits a locator text at the first `:`. Fails when the text has no
    /// `:` or starts with one.
    pub fn parse(s: &str) -> (r: Option<Locator>)
        ensures
            r is Some ==> r->0.wf() && r->0.text_spec() == s@,
            r is None ==> spec_parse(s@) is None,
            r is Some ==> spec_parse(s@) == Some(((r->0.scheme@, r->0.rest@))),
    {
        let len = s.unicode_len();
        match find_char(s, 0, ':') {
            None => {
                None
            },
            Some(i) => {
                if i == 0 {
                    None
                } else {
                    let scheme = s.substring_char(0, i);
                    let rest = s.substring_char(i + 1, len);
                    let r = Locator {
                        scheme: String::from_str(scheme),
                        rest: String::from_str(rest),
                    };
                    proof {
                        assert(r.text_spec() =~= s@);
                        lemma_first_colon(s@, i as int);
                    }
                    Some(r)
                }
            },
        }
    }
}

/// The scheme/rest split of a locator text: the part before the first `:`
/// (which must exist and be non-empty) and the part after it.
pub open spec fn spec_parse(s: Seq<char>) -> Option<(Seq<char>, Seq<char>)> {
    if exists|i: int| 0 < i < s.len() && s[i] == ':' && (forall|j: int| 0 <= j < i ==> s[j] != ':') {
        let i = choose|i: int|
            0 < i < s.len() && s[i] == ':' && (forall|j: int| 0 <= j < i ==> s[j] != ':');
        Some((s.subrange(0, i), s.subrange(i + 1, s.len() as int)))
    } else {
        None
    }
}

proof fn lemma_first_colon(s: Seq<char>, i: int)
    requires
        0 < i < s.len(),
        s[i] == ':',
        forall|j: int| 0 <= j < i ==> s[j] != ':',
    ensures
        spec_parse(s) == Some((s.subrange(0, i), s.subrange(i + 1, s.len() as int))),
{
    let w = choose|w: int|
        0 < w < s.len() && s[w] == ':' && (forall|j: int| 0 <= j < w ==> s[j] != ':');
    assert(w == i);
}

/// Rendering a well-formed locator and parsing the text back yields the
/// same scheme and rest.
pub proof fn lemma_locator_roundtrip(l: Locator)
    requires
        l.wf(),
    ensures
        spec_parse(l.text_spec()) == Some((l.scheme@, l.rest@)),
{
    let s = l.text_spec();
    let i = l.scheme@.len() as int;
    assert(s[i] == ':');
    assert(forall|j: int| 0 <= j < i ==> s[j] == l.scheme@[j] && s[j] != ':');
    lemma_first_colon(s, i);
    assert(s.subrange(0, i) =~= l.scheme@);
    assert(s.subrange(i + 1, s.len() as int) =~= l.rest@);
}

} // verus!
