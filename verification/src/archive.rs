//! Archive extraction planning: entry paths are sanitized segment by
//! segment, so a malicious entry can never name a path outside the target
//! directory, and file entries direct their parent directories to be
//! created first, so archives whose entries come out of order still
//! extract correctly.

use vstd::prelude::*;

use crate::chars::contains_char;

verus! {

/// What sanitize_filename yields for one path segment: a function of the
/// segment alone.
pub uninterp spec fn sanitized_of(s: Seq<char>) -> Seq<char>;

/// Relies on sanitize_filename's `sanitize_with_options` with fixed options
/// (windows rules on, truncation on, empty replacement): path separators
/// and reserved characters are removed everywhere, and what remains is at
/// most truncated to a prefix — so no separator can appear in the result.
/// Nothing is assumed about the result's last character: truncation runs
/// after the sanitizer's trailing-dot stripping, so a long enough input can
/// still come back ending in a dot; the caller screens for that.
#[verifier::external_body]
fn sanitize_component(s: &str) -> (r: String)
    ensures
        r@ == sanitized_of(s@),
        !contains_char(r@, '/'),
        !contains_char(r@, '\\'),
{
    sanitize_filename::sanitize_with_options(
        s,
        sanitize_filename::Options { windows: true, truncate: true, replacement: "" },
    )
}

/// A path segment safe to join under a target directory: non-empty, holds
/// no separator, and is no parent or self reference (it cannot end in a
/// dot, so it is neither `.` nor `..`).
pub open spec fn segment_ok(s: Seq<char>) -> bool {
    s.len() > 0 && !contains_char(s, '/') && !contains_char(s, '\\') && s[s.len() - 1] != '.'
}

pub open spec fn is_sep(c: char) -> bool {
    c == '/' || c == '\\'
}

/// The sanitized segment, kept only when something of it remains and it
/// does not end in a dot (so it can be neither `.` nor `..`).
pub open spec fn keep_clean(seg: Seq<char>) -> Seq<Seq<char>> {
    if sanitized_of(seg).len() > 0 && sanitized_of(seg)[sanitized_of(seg).len() - 1] != '.' {
        seq![sanitized_of(seg)]
    } else {
        Seq::<Seq<char>>::empty()
    }
}

/// The sanitized segments of `s` from position `i` on, with the current
/// segment starting at `start`: split at separators, sanitize, drop what
/// sanitizes away.
pub open spec fn spec_segments_at(s: Seq<char>, start: int, i: int) -> Seq<Seq<char>>
    decreases s.len() - i,
    when 0 <= start <= i <= s.len()
{
    if i == s.len() {
        if start < i {
            keep_clean(s.subrange(start, i))
        } else {
            Seq::<Seq<char>>::empty()
        }
    } else if is_sep(s[i]) {
        (if start < i {
            keep_clean(s.subrange(start, i))
        } else {
            Seq::<Seq<char>>::empty()
        }) + spec_segments_at(s, i + 1, i + 1)
    } else {
        spec_segments_at(s, start, i + 1)
    }
}

/// The sanitized segments of an entry path.
pub open spec fn spec_segments(s: Seq<char>) -> Seq<Seq<char>> {
    spec_segments_at(s, 0, 0)
}

pub open spec fn segs_view(v: Seq<String>) -> Seq<Seq<char>> {
    v.map_values(|x: String| x@)
}

/// Splits an entry path on `/` and `\`, sanitizes each segment, and drops
/// the segments that sanitize away. Every returned segment is a plain file
/// name: the joined path `target/seg_0/.../seg_n` cannot escape `target`,
/// whatever the entry path held.
pub fn sanitize_file_path(path: &str) -> (r: Vec<String>)
    ensures
        segs_view(r@) == spec_segments(path@),
        forall|i: int| 0 <= i < r@.len() ==> segment_ok((#[trigger] r@[i])@),
{
    let len = path.unicode_len();
    let mut out: Vec<String> = Vec::new();
    let mut start: usize = 0;
    let mut i: usize = 0;
    proof {
        assert(segs_view(out@) =~= Seq::<Seq<char>>::empty());
    }
    while i < len
        invariant
            len == path@.len(),
            0 <= start <= i <= len,
            segs_view(out@) + spec_segments_at(path@, start as int, i as int) == spec_segments(
                path@,
            ),
            forall|k: int| 0 <= k < out@.len() ==> segment_ok((#[trigger] out@[k])@),
        decreases len - i,
    {
        let ghost pre = segs_view(out@);
        let c = path.get_char(i);
        if c == '/' || c == '\\' {
            if start < i {
                let seg = path.substring_char(start, i);
                let clean = sanitize_component(seg);
                let n = clean.unicode_len();
                if n > 0 && clean.as_str().get_char(n - 1) != '.' {
                    out.push(clean);
                    proof {
                        assert(segs_view(out@) =~= pre + seq![clean@]);
                        assert(keep_clean(path@.subrange(start as int, i as int)) == seq![clean@]);
                        assert(segs_view(out@) + spec_segments_at(path@, i + 1, i + 1)
                            =~= spec_segments(path@));
                    }
                } else {
                    proof {
                        assert(keep_clean(path@.subrange(start as int, i as int))
                            =~= Seq::<Seq<char>>::empty());
                        assert(segs_view(out@) + spec_segments_at(path@, i + 1, i + 1)
                            =~= spec_segments(path@));
                    }
                }
            }
            start = i + 1;
        }
        i += 1;
    }
    if start < len {
        let ghost pre = segs_view(out@);
        let seg = path.substring_char(start, len);
        let clean = sanitize_component(seg);
        let n = clean.unicode_len();
        if n > 0 && clean.as_str().get_char(n - 1) != '.' {
            out.push(clean);
            proof {
                assert(segs_view(out@) =~= pre + seq![clean@]);
                assert(keep_clean(path@.subrange(start as int, len as int)) == seq![clean@]);
            }
        } else {
            proof {
                assert(keep_clean(path@.subrange(start as int, len as int))
                    =~= Seq::<Seq<char>>::empty());
            }
        }
    }
    proof {
        assert(segs_view(out@) =~= spec_segments(path@));
    }
    out
}

/// One text is the start of another.
pub open spec fn is_prefix(a: Seq<char>, b: Seq<char>) -> bool {
    a.len() <= b.len() && b.subrange(0, a.len() as int) == a
}

/// The path a list of segments names under a target directory.
pub open spec fn joined(target: Seq<char>, segs: Seq<Seq<char>>) -> Seq<char>
    decreases segs.len(),
{
    if segs.len() == 0 {
        target
    } else {
        joined(target + seq!['/'] + segs[0], segs.drop_first())
    }
}

/// Path-traversal safety: a path built from sanitized segments always
/// starts with the target directory, and none of its segments names a
/// parent — the sanitized form of any archive entry stays confined.
pub proof fn lemma_join_confined(target: Seq<char>, segs: Seq<Seq<char>>)
    requires
        forall|i: int| 0 <= i < segs.len() ==> segment_ok(#[trigger] segs[i]),
    ensures
        is_prefix(target, joined(target, segs)),
    decreases segs.len(),
{
    if segs.len() == 0 {
        assert(target.subrange(0, target.len() as int) =~= target);
    } else {
        let t2 = target + seq!['/'] + segs[0];
        assert(segment_ok(segs[0]));
        assert forall|i: int|
            0 <= i < segs.drop_first().len() implies segment_ok(#[trigger] segs.drop_first()[i]) by {
            assert(segs.drop_first()[i] == segs[i + 1]);
        }
        lemma_join_confined(t2, segs.drop_first());
        let j = joined(t2, segs.drop_first());
        assert(j.subrange(0, t2.len() as int) == t2);
        assert forall|i: int|
            0 <= i < j.subrange(0, target.len() as int).len() implies j.subrange(
            0,
            target.len() as int,
        )[i] == target[i] by {
            assert(j[i] == j.subrange(0, t2.len() as int)[i]);
            assert(t2[i] == target[i]);
        }
        assert(j.subrange(0, target.len() as int) =~= target);
    }
}

/// What extraction does to a directory tree, modelled abstractly: the sets
/// of directories and files that exist, each named by its path segments
/// relative to the target.
pub struct ExtractState {
    pub dirs: Set<Seq<Seq<char>>>,
    pub files: Set<Seq<Seq<char>>>,
}

/// The non-empty prefixes of `p` up to length `k`.
pub open spec fn prefixes_upto(p: Seq<Seq<char>>, k: int) -> Set<Seq<Seq<char>>> {
    Set::new(|q: Seq<Seq<char>>| exists|j: int| 1 <= j <= k && q == p.subrange(0, j))
}

/// A directory entry creates the directory and any missing parents.
pub open spec fn apply_dir_entry(st: ExtractState, p: Seq<Seq<char>>) -> ExtractState {
    ExtractState { dirs: st.dirs.union(prefixes_upto(p, p.len() as int)), files: st.files }
}

/// A file entry creates any missing parent directories, then the file.
pub open spec fn apply_file_entry(st: ExtractState, p: Seq<Seq<char>>) -> ExtractState {
    ExtractState {
        dirs: st.dirs.union(prefixes_upto(p, p.len() - 1)),
        files: st.files.insert(p),
    }
}

/// After a file entry is applied, the file exists and so does every parent
/// directory on its path — whether or not the archive listed those
/// directories first.
pub proof fn lemma_file_entry_creates_parents(st: ExtractState, p: Seq<Seq<char>>)
    requires
        p.len() > 0,
    ensures
        apply_file_entry(st, p).files.contains(p),
        forall|j: int| 1 <= j < p.len() ==> apply_file_entry(st, p).dirs.contains(p.subrange(0, j)),
{
    assert forall|j: int|
        1 <= j < p.len() implies apply_file_entry(st, p).dirs.contains(p.subrange(0, j)) by {
        assert(prefixes_upto(p, p.len() - 1).contains(p.subrange(0, j)));
    }
}

/// Out-of-order tolerance: a file listed before its parent directory entry
/// leaves the tree exactly as if the directory entry had come first.
pub proof fn lemma_out_of_order_entries(st: ExtractState, p: Seq<Seq<char>>)
    requires
        p.len() > 0,
    ensures
        apply_dir_entry(apply_file_entry(st, p), p.drop_last()) == apply_file_entry(
            apply_dir_entry(st, p.drop_last()),
            p,
        ),
{
    let parent = p.drop_last();
    assert(prefixes_upto(parent, parent.len() as int) =~= prefixes_upto(p, p.len() - 1)) by {
        assert forall|q: Seq<Seq<char>>|
            prefixes_upto(parent, parent.len() as int).contains(q) implies prefixes_upto(
            p,
            p.len() - 1,
        ).contains(q) by {
            let j = choose|j: int| 1 <= j <= parent.len() && q == parent.subrange(0, j);
            assert(parent.subrange(0, j) =~= p.subrange(0, j));
        }
        assert forall|q: Seq<Seq<char>>|
            prefixes_upto(p, p.len() - 1).contains(q) implies prefixes_upto(
            parent,
            parent.len() as int,
        ).contains(q) by {
            let j = choose|j: int| 1 <= j <= p.len() - 1 && q == p.subrange(0, j);
            assert(p.subrange(0, j) =~= parent.subrange(0, j));
        }
    }
    let lhs = apply_dir_entry(apply_file_entry(st, p), parent);
    let rhs = apply_file_entry(apply_dir_entry(st, parent), p);
    assert(lhs.dirs =~= rhs.dirs);
    assert(lhs.files =~= rhs.files);
}

proof fn lemma_paths_set_push(v: Seq<Vec<String>>, x: Vec<String>)
    ensures
        paths_set(v.push(x)) == paths_set(v).insert(segs_view(x@)),
{
    let lhs = paths_set(v.push(x));
    let rhs = paths_set(v).insert(segs_view(x@));
    assert forall|q: Seq<Seq<char>>| lhs.contains(q) implies rhs.contains(q) by {
        let i = choose|i: int| 0 <= i < v.push(x).len() && q == segs_view((#[trigger] v.push(x)[i])@);
        if i < v.len() {
            assert(v.push(x)[i] == v[i]);
            assert(paths_set(v).contains(q));
        } else {
            assert(v.push(x)[i] == x);
        }
    }
    assert forall|q: Seq<Seq<char>>| rhs.contains(q) implies lhs.contains(q) by {
        if paths_set(v).contains(q) {
            let i = choose|i: int| 0 <= i < v.len() && q == segs_view((#[trigger] v[i])@);
            assert(v.push(x)[i] == v[i]);
            assert(q == segs_view(v.push(x)[i]@));
        } else {
            assert(q == segs_view(x@));
            assert(v.push(x)[v.len() as int] == x);
            assert(q == segs_view(v.push(x)[v.len() as int]@));
        }
    }
    assert(lhs =~= rhs);
}

proof fn lemma_prefixes_step(pv: Seq<Seq<char>>, k: int)
    requires
        0 <= k < pv.len(),
    ensures
        prefixes_upto(pv, k + 1) == prefixes_upto(pv, k).insert(pv.subrange(0, k + 1)),
{
    let lhs = prefixes_upto(pv, k + 1);
    let rhs = prefixes_upto(pv, k).insert(pv.subrange(0, k + 1));
    assert forall|q: Seq<Seq<char>>| lhs.contains(q) implies rhs.contains(q) by {
        let j = choose|j: int| 1 <= j <= k + 1 && q == pv.subrange(0, j);
        if j <= k {
            assert(prefixes_upto(pv, k).contains(q));
        }
    }
    assert forall|q: Seq<Seq<char>>| rhs.contains(q) implies lhs.contains(q) by {
        if q == pv.subrange(0, k + 1) {
            assert(1 <= k + 1 <= k + 1 && q == pv.subrange(0, k + 1));
        }
    }
    assert(lhs =~= rhs);
}

proof fn lemma_prefixes_zero(pv: Seq<Seq<char>>)
    ensures
        prefixes_upto(pv, 0) == Set::<Seq<Seq<char>>>::empty(),
{
    assert(prefixes_upto(pv, 0) =~= Set::<Seq<Seq<char>>>::empty());
}

/// Copies the first `upto` segments of `p`.
fn prefix_of(p: &Vec<String>, upto: usize) -> (r: Vec<String>)
    requires
        upto <= p@.len(),
    ensures
        segs_view(r@) == segs_view(p@).subrange(0, upto as int),
{
    let mut pref: Vec<String> = Vec::new();
    let mut j: usize = 0;
    while j < upto
        invariant
            upto <= p@.len(),
            0 <= j <= upto,
            pref@.len() == j,
            forall|m: int| 0 <= m < j ==> (#[trigger] pref@[m])@ == p@[m]@,
        decreases upto - j,
    {
        pref.push(p[j].clone());
        j += 1;
    }
    proof {
        assert(segs_view(pref@) =~= segs_view(p@).subrange(0, upto as int));
    }
    pref
}

/// The extraction target, executable form: the directories and files
/// created so far, viewed as the abstract `ExtractState`.
pub struct ExtractTree {
    pub dirs: Vec<Vec<String>>,
    pub files: Vec<Vec<String>>,
}

/// The distinct paths a list names.
pub open spec fn paths_set(v: Seq<Vec<String>>) -> Set<Seq<Seq<char>>> {
    Set::new(
        |q: Seq<Seq<char>>| exists|i: int| 0 <= i < v.len() && q == segs_view((#[trigger] v[i])@),
    )
}

impl View for ExtractTree {
    type V = ExtractState;

    open spec fn view(&self) -> ExtractState {
        ExtractState { dirs: paths_set(self.dirs@), files: paths_set(self.files@) }
    }
}

impl ExtractTree {
    /// The empty target directory.
    pub fn new() -> (r: ExtractTree)
        ensures
            r@.dirs == Set::<Seq<Seq<char>>>::empty(),
            r@.files == Set::<Seq<Seq<char>>>::empty(),
    {
        let r = ExtractTree { dirs: Vec::new(), files: Vec::new() };
        proof {
            assert(r@.dirs =~= Set::<Seq<Seq<char>>>::empty());
            assert(r@.files =~= Set::<Seq<Seq<char>>>::empty());
        }
        r
    }

    fn create_dirs_upto(&mut self, p: &Vec<String>, upto: usize)
        requires
            upto <= p@.len(),
        ensures
            final(self)@.dirs == old(self)@.dirs.union(prefixes_upto(segs_view(p@), upto as int)),
            final(self)@.files == old(self)@.files,
            final(self).files@ == old(self).files@,
    {
        let ghost d0 = self@.dirs;
        let ghost pv = segs_view(p@);
        proof {
            lemma_prefixes_zero(pv);
            assert(d0 =~= d0.union(prefixes_upto(pv, 0)));
        }
        let mut k: usize = 0;
        while k < upto
            invariant
                upto <= p@.len(),
                pv == segs_view(p@),
                d0 == paths_set(old(self).dirs@),
                self.files@ == old(self).files@,
                0 <= k <= upto,
                paths_set(self.dirs@) == d0.union(prefixes_upto(pv, k as int)),
            decreases upto - k,
        {
            let pref = prefix_of(p, k + 1);
            let ghost before = self.dirs@;
            self.dirs.push(pref);
            proof {
                lemma_paths_set_push(before, self.dirs@.last());
                lemma_prefixes_step(pv, k as int);
                assert(paths_set(self.dirs@) =~= d0.union(prefixes_upto(pv, k + 1)));
            }
            k += 1;
        }
    }

    /// A directory entry: creates the directory and any missing parents.
    pub fn apply_dir(&mut self, p: &Vec<String>)
        ensures
            final(self)@ == apply_dir_entry(old(self)@, segs_view(p@)),
    {
        let n = p.len();
        self.create_dirs_upto(p, n);
        proof {
            assert(segs_view(p@).len() == p@.len());
        }
    }

    /// A file entry: creates any missing parent directories, then the file.
    pub fn apply_file(&mut self, p: &Vec<String>)
        requires
            p@.len() > 0,
        ensures
            final(self)@ == apply_file_entry(old(self)@, segs_view(p@)),
    {
        let n = p.len();
        self.create_dirs_upto(p, n - 1);
        let ghost before = self.files@;
        self.files.push(prefix_of(p, n));
        proof {
            lemma_paths_set_push(before, self.files@.last());
            assert(segs_view(self.files@.last()@) =~= segs_view(p@));
            assert(segs_view(p@).subrange(0, p@.len() as int) =~= segs_view(p@));
        }
    }

    pub fn dir_count(&self) -> (r: usize)
        ensures
            r == self.dirs@.len(),
    {
        self.dirs.len()
    }

    pub fn file_count(&self) -> (r: usize)
        ensures
            r == self.files@.len(),
    {
        self.files.len()
    }

    /// Whether a path was created as a directory.
    pub fn has_dir(&self, p: &Vec<String>) -> (r: bool)
        ensures
            r == self@.dirs.contains(segs_view(p@)),
    {
        let n = self.dirs.len();
        let mut i: usize = 0;
        while i < n
            invariant
                n == self.dirs@.len(),
                0 <= i <= n,
                forall|j: int| 0 <= j < i ==> segs_view((#[trigger] self.dirs@[j])@) != segs_view(p@),
            decreases n - i,
        {
            if segs_eq(&self.dirs[i], p) {
                proof {
                    assert(self@.dirs.contains(segs_view(p@)));
                }
                return true;
            }
            i += 1;
        }
        proof {
            if self@.dirs.contains(segs_view(p@)) {
                let w = choose|w: int|
                    0 <= w < self.dirs@.len() && segs_view(p@) == segs_view(
                        (#[trigger] self.dirs@[w])@,
                    );
            }
        }
        false
    }

    /// Whether a path was created as a file.
    pub fn has_file(&self, p: &Vec<String>) -> (r: bool)
        ensures
            r == self@.files.contains(segs_view(p@)),
    {
        let n = self.files.len();
        let mut i: usize = 0;
        while i < n
            invariant
                n == self.files@.len(),
                0 <= i <= n,
                forall|j: int|
                    0 <= j < i ==> segs_view((#[trigger] self.files@[j])@) != segs_view(p@),
            decreases n - i,
        {
            if segs_eq(&self.files[i], p) {
                proof {
                    assert(self@.files.contains(segs_view(p@)));
                }
                return true;
            }
            i += 1;
        }
        proof {
            if self@.files.contains(segs_view(p@)) {
                let w = choose|w: int|
                    0 <= w < self.files@.len() && segs_view(p@) == segs_view(
                        (#[trigger] self.files@[w])@,
                    );
            }
        }
        false
    }
}

/// Segment-list equality by content.
fn segs_eq(a: &Vec<String>, b: &Vec<String>) -> (r: bool)
    ensures
        r == (segs_view(a@) == segs_view(b@)),
{
    let alen = a.len();
    let blen = b.len();
    if alen != blen {
        proof {
            assert(segs_view(a@).len() != segs_view(b@).len());
        }
        return false;
    }
    let mut i: usize = 0;
    while i < alen
        invariant
            alen == a@.len(),
            alen == b@.len(),
            0 <= i <= alen,
            forall|j: int| 0 <= j < i ==> segs_view(a@)[j] == segs_view(b@)[j],
        decreases alen - i,
    {
        if !crate::chars::str_eq(a[i].as_str(), b[i].as_str()) {
            proof {
                assert(segs_view(a@)[i as int] != segs_view(b@)[i as int]);
            }
            return false;
        }
        i += 1;
    }
    proof {
        assert(segs_view(a@) =~= segs_view(b@));
    }
    true
}

} // verus!
