//! Installation records: merging probed binaries into per-version
//! records, deduplicating by canonical path, and ordering newest first.

use vstd::prelude::*;

use crate::version::{spec_lt, ParseError, PhpVersion};

verus! {

/// One distinct PHP version together with every binary path sharing it.
#[derive(Debug, Clone, PartialEq)]
pub struct PhpInstallation {
    pub version: PhpVersion,
    pub paths: Vec<String>,
}

/// The file name of a path: the suffix after the last `'/'`, or the
/// whole path when it has none.
pub open spec fn file_name_of(p: Seq<char>) -> Seq<char>
    decreases p.len(),
{
    if p.len() == 0 {
        p
    } else if p.last() == '/' {
        Seq::<char>::empty()
    } else {
        file_name_of(p.drop_last()) + seq![p.last()]
    }
}

/// The canonical name of the primary interpreter binary.
pub open spec fn php_name() -> Seq<char> {
    seq!['p', 'h', 'p']
}

/// The index of the primary path: the first whose file name is exactly
/// `php`, or zero when no path is so named.
pub open spec fn primary_index_from(paths: Seq<String>, i: int) -> int
    decreases paths.len() - i,
{
    if i < 0 || i >= paths.len() {
        0
    } else if file_name_of(paths[i]@) == php_name() {
        i
    } else {
        primary_index_from(paths, i + 1)
    }
}

pub open spec fn primary_index(paths: Seq<String>) -> int {
    primary_index_from(paths, 0)
}

proof fn lemma_primary_index_bounds(paths: Seq<String>, i: int)
    requires
        0 <= i,
        paths.len() > 0,
    ensures
        0 <= primary_index_from(paths, i) < paths.len(),
    decreases paths.len() - i,
{
    if i < paths.len() && file_name_of(paths[i]@) != php_name() {
        lemma_primary_index_bounds(paths, i + 1);
    }
}

/// If a path has no `'/'`, its file name is the path itself.
proof fn lemma_file_name_no_slash(p: Seq<char>)
    requires
        forall|k: int| 0 <= k < p.len() ==> #[trigger] p[k] != '/',
    ensures
        file_name_of(p) == p,
    decreases p.len(),
{
    if p.len() > 0 {
        lemma_file_name_no_slash(p.drop_last());
        assert(file_name_of(p.drop_last()) + seq![p.last()] =~= p);
    }
}

/// The file name is the suffix after the last `'/'`.
proof fn lemma_file_name_last_slash(p: Seq<char>, k: int)
    requires
        0 <= k < p.len(),
        p[k] == '/',
        forall|j: int| k < j < p.len() ==> #[trigger] p[j] != '/',
    ensures
        file_name_of(p) == p.skip(k + 1),
    decreases p.len(),
{
    if k == p.len() - 1 {
        assert(p.skip(k + 1) =~= Seq::<char>::empty());
    } else {
        lemma_file_name_last_slash(p.drop_last(), k);
        assert(p.drop_last().skip(k + 1) + seq![p.last()] =~= p.skip(k + 1));
    }
}

/// The index at which a path's file name begins: one past the last
/// `'/'`, or zero when the path has none.
pub fn file_name_start(p: &str) -> (start: usize)
    ensures
        start <= p@.len(),
        file_name_of(p@) == p@.skip(start as int),
{
    let cs = crate::version::str_chars(p);
    let n = cs.len();
    let mut slash: Option<usize> = None;
    let mut i: usize = 0;
    while i < n
        invariant
            i <= n,
            n == cs@.len(),
            cs@ == p@,
            match slash {
                Some(k) => k < i && cs@[k as int] == '/' && forall|j: int|
                    k < j < i ==> #[trigger] cs@[j] != '/',
                None => forall|j: int| 0 <= j < i ==> #[trigger] cs@[j] != '/',
            },
        decreases n - i,
    {
        if cs[i] == '/' {
            slash = Some(i);
        }
        i = i + 1;
    }
    match slash {
        Some(k) => {
            proof {
                lemma_file_name_last_slash(p@, k as int);
            }
            k + 1
        },
        None => {
            proof {
                lemma_file_name_no_slash(p@);
                assert(p@.skip(0) =~= p@);
            }
            0
        },
    }
}

/// The file name of a path, as a character vector.
pub fn file_name_chars(p: &str) -> (r: Vec<char>)
    ensures
        r@ == file_name_of(p@),
{
    let cs = crate::version::str_chars(p);
    let n = cs.len();
    let start = file_name_start(p);
    let mut r: Vec<char> = Vec::new();
    let mut j = start;
    while j < n
        invariant
            start <= j <= n,
            n == cs@.len(),
            cs@ == p@,
            r@ == cs@.subrange(start as int, j as int),
        decreases n - j,
    {
        r.push(cs[j]);
        j = j + 1;
        proof {
            assert(r@ =~= cs@.subrange(start as int, j as int));
        }
    }
    proof {
        assert(cs@.subrange(start as int, n as int) =~= p@.skip(start as int));
        if start == 0 {
            assert(p@.skip(0) =~= p@);
        }
    }
    r
}

/// Whether a file name is exactly `php`.
pub fn is_php_name_chars(name: &Vec<char>) -> (r: bool)
    ensures
        r == (name@ == php_name()),
{
    let r = name.len() == 3 && name[0] == 'p' && name[1] == 'h' && name[2] == 'p';
    proof {
        if r {
            assert(name@ =~= php_name());
        }
    }
    r
}

/// Whether a file name marks a candidate for probing: directory
/// scanning considers exactly the files whose name begins with `php`.
pub fn is_php_candidate_name(name: &str) -> (r: bool)
    ensures
        r == (name@.len() >= 3 && name@.subrange(0, 3) == php_name()),
{
    let n = name.unicode_len();
    if n < 3 {
        return false;
    }
    let r = name.get_char(0) == 'p' && name.get_char(1) == 'h' && name.get_char(2) == 'p';
    proof {
        if r {
            assert(name@.subrange(0, 3) =~= php_name());
        } else {
            if name@.subrange(0, 3) == php_name() {
                assert(name@[0] == 'p' && name@[1] == 'h' && name@[2] == 'p') by {
                    assert(name@.subrange(0, 3)[0] == name@[0]);
                    assert(name@.subrange(0, 3)[1] == name@[1]);
                    assert(name@.subrange(0, 3)[2] == name@[2]);
                }
            }
        }
    }
    r
}

/// Whether some path of `paths` has the view `p`.
pub open spec fn has_path(paths: Seq<String>, p: Seq<char>) -> bool {
    exists|i: int| 0 <= i < paths.len() && #[trigger] paths[i]@ == p
}

/// Whether `v` holds a string whose view equals `x`'s.
fn contains_string(v: &Vec<String>, x: &String) -> (r: bool)
    ensures
        r == has_path(v@, x@),
{
    let n = v.len();
    let mut i: usize = 0;
    while i < n
        invariant
            i <= n,
            n == v@.len(),
            forall|j: int| 0 <= j < i ==> #[trigger] v@[j]@ != x@,
        decreases n - i,
    {
        if v[i].eq(x) {
            return true;
        }
        i = i + 1;
    }
    false
}

impl PhpInstallation {
    pub fn new(version: PhpVersion, path: String) -> (r: Self)
        ensures
            r.version == version,
            r.paths@.len() == 1,
            r.paths@[0] == path,
    {
        Self { version, paths: vec![path] }
    }

    pub fn with_paths(version: PhpVersion, paths: Vec<String>) -> (r: Self)
        ensures
            r.version == version,
            r.paths == paths,
    {
        Self { version, paths }
    }

    /// The primary binary path: the first named exactly `php`, else the
    /// first discovered path; `None` only when there are no paths.
    pub fn primary_path(&self) -> (r: Option<String>)
        ensures
            match r {
                Some(p) => self.paths@.len() > 0 && p == self.paths@[primary_index(
                    self.paths@,
                )],
                None => self.paths@.len() == 0,
            },
    {
        primary_of_paths(&self.paths)
    }

    /// Appends `path` unless an equal path is already present.
    pub fn add_path(&mut self, path: String)
        ensures
            final(self).version == old(self).version,
            final(self).paths@ == if has_path(old(self).paths@, path@) {
                old(self).paths@
            } else {
                old(self).paths@.push(path)
            },
    {
        if !contains_string(&self.paths, &path) {
            self.paths.push(path);
        }
    }
}

/// The primary path of a path set: the first named exactly `php`, else
/// the first of the set.
pub fn primary_of_paths(paths: &Vec<String>) -> (r: Option<String>)
    ensures
        match r {
            Some(p) => paths@.len() > 0 && p == paths@[primary_index(paths@)],
            None => paths@.len() == 0,
        },
{
    let n = paths.len();
    if n == 0 {
        return None;
    }
    proof {
        lemma_primary_index_bounds(paths@, 0);
    }
    let mut i: usize = 0;
    while i < n
        invariant
            i <= n,
            n == paths@.len(),
            n > 0,
            primary_index(paths@) == primary_index_from(paths@, i as int),
        decreases n - i,
    {
        let name = file_name_chars(paths[i].as_str());
        if is_php_name_chars(&name) {
            return Some(paths[i].clone());
        }
        i = i + 1;
    }
    Some(paths[0].clone())
}

/// One successfully probed binary: the version its banner reported, the
/// path it was found under, and that path's canonical (symlink-resolved)
/// form.
pub struct ProbeRecord {
    pub version: PhpVersion,
    pub path: String,
    pub canonical: String,
}

/// Whether some record of `rs` has canonical path `c`.
pub open spec fn canon_in(rs: Seq<ProbeRecord>, c: Seq<char>) -> bool {
    exists|i: int| 0 <= i < rs.len() && #[trigger] rs[i].canonical@ == c
}

/// The records of `rs` whose canonical path did not occur earlier:
/// a symlink and its target, or one file reached through two scan
/// roots, is kept only the first time.
pub open spec fn dedup_by_canonical(rs: Seq<ProbeRecord>) -> Seq<ProbeRecord>
    decreases rs.len(),
{
    if rs.len() == 0 {
        Seq::<ProbeRecord>::empty()
    } else {
        let d = dedup_by_canonical(rs.drop_last());
        if canon_in(rs.drop_last(), rs.last().canonical@) {
            d
        } else {
            d.push(rs.last())
        }
    }
}

/// The distinct versions of `rs`, in order of first appearance.
pub open spec fn versions_of(rs: Seq<ProbeRecord>) -> Seq<PhpVersion>
    decreases rs.len(),
{
    if rs.len() == 0 {
        Seq::<PhpVersion>::empty()
    } else {
        let vs = versions_of(rs.drop_last());
        if vs.contains(rs.last().version) {
            vs
        } else {
            vs.push(rs.last().version)
        }
    }
}

/// The paths of the records of `rs` carrying version `v`, in record
/// order, without repetitions.
pub open spec fn paths_for(rs: Seq<ProbeRecord>, v: PhpVersion) -> Seq<Seq<char>>
    decreases rs.len(),
{
    if rs.len() == 0 {
        Seq::<Seq<char>>::empty()
    } else {
        let ps = paths_for(rs.drop_last(), v);
        if rs.last().version == v && !ps.contains(rs.last().path@) {
            ps.push(rs.last().path@)
        } else {
            ps
        }
    }
}

/// The views of a vector of path strings.
pub open spec fn paths_view(ps: Seq<String>) -> Seq<Seq<char>> {
    ps.map_values(|p: String| p@)
}

proof fn lemma_paths_view_contains(ps: Seq<String>, p: Seq<char>)
    ensures
        has_path(ps, p) == paths_view(ps).contains(p),
{
    if has_path(ps, p) {
        let i = choose|i: int| 0 <= i < ps.len() && #[trigger] ps[i]@ == p;
        assert(paths_view(ps)[i] == p);
    }
    if paths_view(ps).contains(p) {
        let i = choose|i: int| 0 <= i < paths_view(ps).len() && paths_view(ps)[i] == p;
        assert(ps[i]@ == p);
    }
}

/// Deduplication keeps exactly the canonical paths that occur in `rs`.
proof fn lemma_dedup_canon(rs: Seq<ProbeRecord>, c: Seq<char>)
    ensures
        canon_in(dedup_by_canonical(rs), c) == canon_in(rs, c),
    decreases rs.len(),
{
    if rs.len() > 0 {
        let prefix = rs.drop_last();
        lemma_dedup_canon(prefix, c);
        assert(canon_in(prefix, c) ==> canon_in(rs, c)) by {
            if canon_in(prefix, c) {
                let i = choose|i: int| 0 <= i < prefix.len() && #[trigger] prefix[i].canonical@
                    == c;
                assert(rs[i].canonical@ == c);
            }
        }
        if canon_in(rs, c) {
            let i = choose|i: int| 0 <= i < rs.len() && #[trigger] rs[i].canonical@ == c;
            if i < rs.len() - 1 {
                assert(prefix[i].canonical@ == c);
            }
        }
        let d = dedup_by_canonical(prefix);
        if !canon_in(prefix, rs.last().canonical@) {
            let d2 = d.push(rs.last());
            assert(canon_in(d, c) ==> canon_in(d2, c)) by {
                if canon_in(d, c) {
                    let i = choose|i: int| 0 <= i < d.len() && #[trigger] d[i].canonical@ == c;
                    assert(d2[i].canonical@ == c);
                }
            }
            assert(d2[d.len() as int].canonical@ == rs.last().canonical@);
            if canon_in(d2, c) {
                let i = choose|i: int| 0 <= i < d2.len() && #[trigger] d2[i].canonical@ == c;
                if i < d.len() {
                    assert(d[i].canonical@ == c);
                }
            }
        }
    }
}

/// After deduplication no canonical path occurs twice: each file is
/// recorded at most once however many scan roots lead to it.
pub proof fn lemma_dedup_canonical_distinct(rs: Seq<ProbeRecord>)
    ensures
        forall|i: int, j: int|
            0 <= i < j < dedup_by_canonical(rs).len()
                ==> #[trigger] dedup_by_canonical(rs)[i].canonical@
                != #[trigger] dedup_by_canonical(rs)[j].canonical@,
    decreases rs.len(),
{
    if rs.len() > 0 {
        let prefix = rs.drop_last();
        lemma_dedup_canonical_distinct(prefix);
        let d = dedup_by_canonical(prefix);
        if !canon_in(prefix, rs.last().canonical@) {
            lemma_dedup_canon(prefix, rs.last().canonical@);
            let d2 = dedup_by_canonical(rs);
            assert(d2 == d.push(rs.last()));
            assert forall|i: int, j: int| 0 <= i < j < d2.len() implies #[trigger] d2[i].canonical@
                != #[trigger] d2[j].canonical@ by {
                if j < d.len() {
                    assert(d[i].canonical@ != d[j].canonical@);
                } else {
                    assert(d2[j] == rs.last());
                    assert(!canon_in(d, rs.last().canonical@));
                    assert(d[i].canonical@ != rs.last().canonical@);
                }
            }
        }
    }
}

/// A version absent from `rs` has no paths in it.
proof fn lemma_paths_for_absent(rs: Seq<ProbeRecord>, v: PhpVersion)
    requires
        !versions_of(rs).contains(v),
    ensures
        paths_for(rs, v) == Seq::<Seq<char>>::empty(),
    decreases rs.len(),
{
    if rs.len() > 0 {
        let prefix = rs.drop_last();
        assert(versions_of(prefix).contains(v) ==> versions_of(rs).contains(v)) by {
            if versions_of(prefix).contains(v) {
                let vs = versions_of(prefix);
                let i = choose|i: int| 0 <= i < vs.len() && vs[i] == v;
                if vs.contains(rs.last().version) {
                    assert(versions_of(rs) == vs);
                } else {
                    assert(versions_of(rs)[i] == v);
                }
            }
        }
        lemma_paths_for_absent(prefix, v);
        if rs.last().version == v {
            let vs = versions_of(prefix);
            if vs.contains(v) {
            } else {
                assert(versions_of(rs)[vs.len() as int] == v);
            }
            assert(false);
        }
    }
}

fn version_eq_exec(a: &PhpVersion, b: &PhpVersion) -> (r: bool)
    ensures
        r == (*a == *b),
{
    a.major == b.major && a.minor == b.minor && a.patch == b.patch
}

fn version_lt_exec(a: &PhpVersion, b: &PhpVersion) -> (r: bool)
    ensures
        r == spec_lt(*a, *b),
{
    if a.major != b.major {
        a.major < b.major
    } else if a.minor != b.minor {
        a.minor < b.minor
    } else {
        a.patch < b.patch
    }
}

fn find_version_index(acc: &Vec<PhpInstallation>, v: &PhpVersion) -> (r: Option<usize>)
    ensures
        match r {
            Some(k) => k < acc@.len() && acc@[k as int].version == *v,
            None => forall|k: int| 0 <= k < acc@.len() ==> #[trigger] acc@[k].version != *v,
        },
{
    let n = acc.len();
    let mut j: usize = 0;
    while j < n
        invariant
            j <= n,
            n == acc@.len(),
            forall|k: int| 0 <= k < j ==> #[trigger] acc@[k].version != *v,
        decreases n - j,
    {
        if version_eq_exec(&acc[j].version, v) {
            return Some(j);
        }
        j = j + 1;
    }
    None
}

/// Entries are strictly ordered newest version first.
pub open spec fn sorted_newest_first(s: Seq<PhpInstallation>) -> bool {
    forall|k1: int, k2: int|
        0 <= k1 < k2 < s.len() ==> spec_lt(#[trigger] s[k2].version, #[trigger] s[k1].version)
}

/// No two entries share a version.
pub open spec fn versions_distinct(s: Seq<PhpInstallation>) -> bool {
    forall|k1: int, k2: int|
        0 <= k1 < k2 < s.len() ==> #[trigger] s[k1].version != #[trigger] s[k2].version
}

/// Some entry of `s` carries version `v`.
pub open spec fn has_version(s: Seq<PhpInstallation>, v: PhpVersion) -> bool {
    exists|k: int| 0 <= k < s.len() && #[trigger] s[k].version == v
}

/// Every entry's version stems from `rs` and its paths are exactly the
/// deduplicated paths `rs` holds for that version.
pub open spec fn entries_model(s: Seq<PhpInstallation>, rs: Seq<ProbeRecord>) -> bool {
    forall|k: int|
        0 <= k < s.len() ==> versions_of(rs).contains(#[trigger] s[k].version) && paths_view(
            s[k].paths@,
        ) == paths_for(rs, s[k].version)
}

/// Merges probe records into one installation per distinct version.
///
/// A record whose canonical path occurred earlier in `records` is
/// discarded; the rest are grouped by version, each group keeping its
/// paths in discovery order, and the result is sorted newest first.
pub fn merge_probed(records: Vec<ProbeRecord>) -> (out: Vec<PhpInstallation>)
    ensures
        sorted_newest_first(out@),
        versions_distinct(out@),
        entries_model(out@, dedup_by_canonical(records@)),
        forall|v: PhpVersion|
            versions_of(dedup_by_canonical(records@)).contains(v) ==> has_version(out@, v),
{
    let ghost orig = records@;
    let mut records = records;
    let mut seen: Vec<String> = Vec::new();
    let mut acc: Vec<PhpInstallation> = Vec::new();
    while records.len() > 0
        invariant
            records@.len() <= orig.len(),
            records@ == orig.skip(orig.len() - records@.len()),
            forall|c: Seq<char>|
                has_path(seen@, c) == canon_in(
                    orig.take(orig.len() - records@.len()),
                    c,
                ),
            versions_distinct(acc@),
            entries_model(
                acc@,
                dedup_by_canonical(orig.take(orig.len() - records@.len())),
            ),
            forall|v: PhpVersion|
                versions_of(
                    dedup_by_canonical(orig.take(orig.len() - records@.len())),
                ).contains(v) ==> has_version(acc@, v),
        decreases records@.len(),
    {
        let ghost processed = orig.take(orig.len() - records@.len());
        let ghost d = dedup_by_canonical(processed);
        let ghost old_seen = seen@;
        let ghost entry_acc = acc@;
        proof {
            assert(forall|c: Seq<char>| has_path(old_seen, c) == canon_in(processed, c));
            assert(versions_distinct(entry_acc));
            assert(entries_model(entry_acc, d));
            assert(forall|v: PhpVersion|
                versions_of(d).contains(v) ==> has_version(entry_acc, v));
        }
        let r = records.remove(0);
        let ghost gr = r;
        let ghost processed2 = orig.take(orig.len() - records@.len());
        let ghost d2 = dedup_by_canonical(processed2);
        proof {
            assert(records@ =~= orig.skip(orig.len() - records@.len()));
            assert(processed2.drop_last() =~= processed);
            assert(processed2.last() == gr);
        }
        if contains_string(&seen, &r.canonical) {
            proof {
                assert(canon_in(processed, gr.canonical@));
                assert(d2 == d);
                assert forall|c: Seq<char>| has_path(seen@, c) == canon_in(processed2, c) by {
                    if canon_in(processed2, c) {
                        let i = choose|i: int|
                            0 <= i < processed2.len() && #[trigger] processed2[i].canonical@
                                == c;
                        if i < processed.len() {
                            assert(processed[i].canonical@ == c);
                        } else {
                            assert(c == gr.canonical@);
                        }
                    } else {
                        assert(!canon_in(processed, c)) by {
                            if canon_in(processed, c) {
                                let i = choose|i: int|
                                    0 <= i < processed.len()
                                        && #[trigger] processed[i].canonical@ == c;
                                assert(processed2[i].canonical@ == c);
                            }
                        }
                    }
                }
                assert(entries_model(acc@, d2));
                assert(forall|v: PhpVersion|
                    versions_of(d2).contains(v) ==> has_version(acc@, v));
            }
        } else {
            proof {
                assert(!canon_in(processed, gr.canonical@)) by {
                    if canon_in(processed, gr.canonical@) {
                        let i = choose|i: int|
                            0 <= i < processed.len() && #[trigger] processed[i].canonical@
                                == gr.canonical@;
                        assert(has_path(seen@, gr.canonical@));
                    }
                }
                assert(d2 == d.push(gr));
                assert(d2.drop_last() =~= d);
            }
            let ProbeRecord { version, path, canonical } = r;
            seen.push(canonical);
            proof {
                assert(seen@ == old_seen.push(gr.canonical));
                assert forall|c: Seq<char>| has_path(seen@, c) == canon_in(processed2, c) by {
                    if has_path(seen@, c) {
                        let i = choose|i: int|
                            0 <= i < seen@.len() && #[trigger] seen@[i]@ == c;
                        if i < old_seen.len() {
                            assert(old_seen[i]@ == c);
                            assert(has_path(old_seen, c));
                            let j = choose|j: int|
                                0 <= j < processed.len() && #[trigger] processed[j].canonical@
                                    == c;
                            assert(processed2[j].canonical@ == c);
                        } else {
                            assert(c == gr.canonical@);
                            assert(processed2[processed2.len() - 1].canonical@ == c);
                        }
                    } else {
                        if canon_in(processed2, c) {
                            let i = choose|i: int|
                                0 <= i < processed2.len() && #[trigger] processed2[i].canonical@
                                    == c;
                            if i < processed.len() {
                                assert(canon_in(processed, c));
                                let j = choose|j: int|
                                    0 <= j < old_seen.len() && #[trigger] old_seen[j]@ == c;
                                assert(seen@[j]@ == c);
                            } else {
                                assert(c == gr.canonical@);
                                assert(seen@[seen@.len() - 1]@ == c);
                            }
                            assert(false);
                        }
                    }
                }
            }
            match find_version_index(&acc, &version) {
                Some(k) => {
                    proof {
                        assert(versions_of(d).contains(gr.version));
                        assert(versions_of(d2) == versions_of(d));
                    }
                    let ghost old_acc = acc@;
                    let mut inst = acc.remove(k);
                    proof {
                        lemma_paths_view_contains(inst.paths@, gr.path@);
                    }
                    inst.add_path(path);
                    acc.push(inst);
                    proof {
                        let new_acc = acc@;
                        assert(new_acc.len() == old_acc.len());
                        assert(forall|j: int|
                            0 <= j < k ==> #[trigger] new_acc[j] == old_acc[j]);
                        assert(forall|j: int|
                            k <= j < old_acc.len() - 1 ==> #[trigger] new_acc[j] == old_acc[j
                                + 1]);
                        assert(new_acc[new_acc.len() - 1].version == gr.version);
                        assert(paths_view(new_acc[new_acc.len() - 1].paths@) =~= paths_for(
                            d2,
                            gr.version,
                        ));
                        assert forall|j: int|
                            0 <= j < new_acc.len() - 1 implies versions_of(d2).contains(
                            #[trigger] new_acc[j].version,
                        ) && paths_view(new_acc[j].paths@) == paths_for(
                            d2,
                            new_acc[j].version,
                        ) by {
                            assert(new_acc[j].version != gr.version);
                            assert(paths_for(d2, new_acc[j].version) == paths_for(
                                d,
                                new_acc[j].version,
                            ));
                        }
                        assert(versions_distinct(new_acc));
                        assert forall|v: PhpVersion|
                            versions_of(d2).contains(v) implies has_version(new_acc, v) by {
                            assert(has_version(old_acc, v));
                            let j = choose|j: int|
                                0 <= j < old_acc.len() && #[trigger] old_acc[j].version == v;
                            if j == k {
                                assert(new_acc[new_acc.len() - 1].version == v);
                            } else if j < k {
                                assert(new_acc[j].version == v);
                            } else {
                                assert(new_acc[j - 1].version == v);
                            }
                        }
                        assert(entries_model(new_acc, d2));
                    }
                },
                None => {
                    proof {
                        assert(!versions_of(d).contains(gr.version)) by {
                            if versions_of(d).contains(gr.version) {
                                assert(has_version(acc@, gr.version));
                                let j = choose|j: int|
                                    0 <= j < acc@.len() && #[trigger] acc@[j].version
                                        == gr.version;
                            }
                        }
                        lemma_paths_for_absent(d, gr.version);
                        assert(versions_of(d2) == versions_of(d).push(gr.version));
                    }
                    let ghost old_acc = acc@;
                    acc.push(PhpInstallation::new(version, path));
                    proof {
                        let new_acc = acc@;
                        assert(paths_view(new_acc[new_acc.len() - 1].paths@) =~= paths_for(
                            d2,
                            gr.version,
                        ));
                        assert forall|j: int|
                            0 <= j < new_acc.len() - 1 implies versions_of(d2).contains(
                            #[trigger] new_acc[j].version,
                        ) && paths_view(new_acc[j].paths@) == paths_for(
                            d2,
                            new_acc[j].version,
                        ) by {
                            assert(new_acc[j] == old_acc[j]);
                            assert(versions_of(d).contains(new_acc[j].version));
                            assert(versions_of(d2).contains(new_acc[j].version)) by {
                                let vs = versions_of(d);
                                let i = choose|i: int|
                                    0 <= i < vs.len() && vs[i] == new_acc[j].version;
                                assert(versions_of(d2)[i] == new_acc[j].version);
                            }
                            assert(new_acc[j].version != gr.version);
                            assert(paths_for(d2, new_acc[j].version) == paths_for(
                                d,
                                new_acc[j].version,
                            ));
                        }
                        assert(versions_distinct(new_acc));
                        assert forall|v: PhpVersion|
                            versions_of(d2).contains(v) implies has_version(new_acc, v) by {
                            let vs2 = versions_of(d2);
                            assert(vs2 == versions_of(d).push(gr.version));
                            let i = choose|i: int|
                                0 <= i < vs2.len() && #[trigger] vs2[i] == v;
                            if i < versions_of(d).len() {
                                assert(vs2[i] == versions_of(d)[i]);
                                assert(versions_of(d).contains(v));
                                assert(has_version(old_acc, v));
                                let j = choose|j: int|
                                    0 <= j < old_acc.len() && #[trigger] old_acc[j].version
                                        == v;
                                assert(new_acc[j] == old_acc[j]);
                                assert(new_acc[j].version == v);
                            } else {
                                assert(v == gr.version);
                                assert(new_acc[new_acc.len() - 1].version == v);
                            }
                        }
                        assert(versions_of(d2)[versions_of(d).len() as int] == gr.version);
                        assert(versions_of(d2).contains(gr.version));
                        assert(new_acc[new_acc.len() - 1].version == gr.version);
                        assert(entries_model(new_acc, d2));
                    }
                },
            }
        }
    }
    proof {
        assert(orig.take(orig.len() as int) =~= orig);
    }
    let ghost d = dedup_by_canonical(orig);
    let mut out: Vec<PhpInstallation> = Vec::new();
    while acc.len() > 0
        invariant
            sorted_newest_first(out@),
            versions_distinct(out@),
            versions_distinct(acc@),
            entries_model(out@, d),
            entries_model(acc@, d),
            forall|k: int, l: int|
                0 <= k < out@.len() && 0 <= l < acc@.len() ==> spec_lt(
                    #[trigger] acc@[l].version,
                    #[trigger] out@[k].version,
                ),
            forall|v: PhpVersion|
                versions_of(d).contains(v) ==> has_version(out@, v) || has_version(acc@, v),
        decreases acc@.len(),
    {
        let n = acc.len();
        let mut best: usize = 0;
        let mut j: usize = 1;
        while j < n
            invariant
                1 <= j <= n,
                best < j,
                n == acc@.len(),
                forall|k: int|
                    0 <= k < j && k != best ==> !spec_lt(
                        acc@[best as int].version,
                        #[trigger] acc@[k].version,
                    ),
            decreases n - j,
        {
            if version_lt_exec(&acc[best].version, &acc[j].version) {
                best = j;
            }
            j = j + 1;
        }
        proof {
            assert forall|k: int| 0 <= k < acc@.len() && k != best implies spec_lt(
                #[trigger] acc@[k].version,
                acc@[best as int].version,
            ) by {
                crate::version::lemma_version_order_trichotomy(
                    acc@[k].version,
                    acc@[best as int].version,
                );
            }
        }
        let ghost old_acc = acc@;
        let ghost old_out = out@;
        let inst = acc.remove(best);
        out.push(inst);
        proof {
            let new_acc = acc@;
            let new_out = out@;
            assert(forall|i: int| 0 <= i < best ==> #[trigger] new_acc[i] == old_acc[i]);
            assert(forall|i: int|
                best <= i < new_acc.len() ==> #[trigger] new_acc[i] == old_acc[i + 1]);
            assert(new_out[new_out.len() - 1] == old_acc[best as int]);
            assert(sorted_newest_first(new_out));
            assert(versions_distinct(new_out)) by {
                crate::version::lemma_version_order_trichotomy(
                    old_acc[best as int].version,
                    old_acc[best as int].version,
                );
            }
            assert forall|v: PhpVersion| versions_of(d).contains(v) implies has_version(
                new_out,
                v,
            ) || has_version(new_acc, v) by {
                if has_version(old_out, v) {
                    let k = choose|k: int|
                        0 <= k < old_out.len() && #[trigger] old_out[k].version == v;
                    assert(new_out[k].version == v);
                } else {
                    assert(has_version(old_acc, v));
                    let k = choose|k: int|
                        0 <= k < old_acc.len() && #[trigger] old_acc[k].version == v;
                    if k == best {
                        assert(new_out[new_out.len() - 1].version == v);
                    } else if k < best {
                        assert(new_acc[k].version == v);
                    } else {
                        assert(new_acc[k - 1].version == v);
                    }
                }
            }
        }
    }
    out
}

/// Parses the output of `php -v` to extract the version.
pub fn parse_php_v_output(output: &str) -> (r: Result<PhpVersion, ParseError>)
    ensures
        r == crate::version::spec_parse_result(output@),
{
    PhpVersion::from_php_output(output)
}

} // verus!
