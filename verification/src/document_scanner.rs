use vstd::prelude::*;

verus! {

use vstd::string::StrSliceExecFns;
use vstd::string::StringExecFns;

use crate::category::Category;
use crate::db_manager::Catalog;
use crate::document::{doc_by_category, get_documents_from_category, Document, DocumentV};
use crate::errors::CatalogError;
use crate::table::Row;

/// One node of a directory tree, as handed in by the surrounding
/// application after reading the filesystem: a regular file, or a directory
/// with its entries.
#[derive(Debug, PartialEq)]
pub enum FsNode {
    File { name: String },
    Dir { name: String, entries: Vec<FsNode> },
}

/// The path separator.
pub open spec fn slash() -> Seq<char> {
    seq!['/']
}

/// The relative paths of every file below one entry of a directory: a file
/// contributes its name; a directory contributes its files' paths, each
/// prefixed with the directory's name and a separator.
pub open spec fn entry_files(n: FsNode) -> Seq<Seq<char>>
    decreases n,
{
    match n {
        FsNode::File { name } => seq![name@],
        FsNode::Dir { name, entries } => prefix_all(name@, entries_files(entries@)),
    }
}

/// The relative paths of every file below a sequence of directory entries,
/// in depth-first order.
pub open spec fn entries_files(s: Seq<FsNode>) -> Seq<Seq<char>>
    decreases s,
{
    if s.len() == 0 {
        Seq::empty()
    } else {
        entry_files(s[0]) + entries_files(s.drop_first())
    }
}

/// Each path prefixed with a directory name and a separator.
pub open spec fn prefix_all(dir: Seq<char>, files: Seq<Seq<char>>) -> Seq<Seq<char>> {
    files.map_values(|p: Seq<char>| dir + slash() + p)
}

/// The relative paths of every file under a directory node (the node's own
/// name is not part of them); nothing for a plain file.
pub open spec fn node_files(n: FsNode) -> Seq<Seq<char>> {
    match n {
        FsNode::File { name } => Seq::empty(),
        FsNode::Dir { name, entries } => entries_files(entries@),
    }
}

/// What follows the last occurrence of `c`; all of `s` when `c` does not
/// occur.
pub open spec fn suffix_after_last(s: Seq<char>, c: char) -> Seq<char>
    decreases s.len(),
{
    if s.len() == 0 {
        s
    } else if s.last() == c {
        Seq::empty()
    } else {
        suffix_after_last(s.drop_last(), c).push(s.last())
    }
}

/// The file name of a relative path: what follows the last separator.
pub open spec fn file_name_of(p: Seq<char>) -> Seq<char> {
    suffix_after_last(p, '/')
}

/// Whether the file name holds a dot after its first character, so that an
/// extension can be split off (a leading dot alone hides a file rather than
/// marking an extension).
pub open spec fn has_dot_after_start(name: Seq<char>) -> bool {
    exists|i: int| 1 <= i < name.len() && name[i] == '.'
}

/// The extension of a path: what follows the last dot of its file name,
/// provided that dot is not the name's first character.
pub open spec fn extension_of(p: Seq<char>) -> Option<Seq<char>> {
    let name = file_name_of(p);
    if has_dot_after_start(name) {
        Some(suffix_after_last(name, '.'))
    } else {
        None
    }
}

/// The ASCII lower-casing of one character; any other character is
/// unchanged.
pub open spec fn lower_char(c: char) -> char {
    if 'A' <= c && c <= 'Z' {
        ((c as u32) + 32) as char
    } else {
        c
    }
}

/// The ASCII lower-casing of a string of characters.
pub open spec fn lower_ascii(s: Seq<char>) -> Seq<char> {
    s.map_values(|c: char| lower_char(c))
}

/// Whether a path's extension is allowed: the suffix is lower-cased, then
/// matched exactly (case-sensitively) against the allow-list; a path without
/// an extension never matches.
pub open spec fn ext_match(p: Seq<char>, exts: Seq<Seq<char>>) -> bool {
    match extension_of(p) {
        Some(e) => exts.contains(lower_ascii(e)),
        None => false,
    }
}

/// The predicate "has one of the allowed extensions".
pub open spec fn ext_allowed(exts: Seq<Seq<char>>) -> spec_fn(Seq<char>) -> bool {
    |p: Seq<char>| ext_match(p, exts)
}

/// The predicate "no document of the given rows is cataloged under this
/// path".
pub open spec fn path_uncataloged(docs: Seq<DocumentV>) -> spec_fn(Seq<char>) -> bool {
    |p: Seq<char>| !(exists|i: int| 0 <= i < docs.len() && (#[trigger] docs[i]).path == p)
}

/// The predicate "the document's path is not among the files on disk".
pub open spec fn path_missing(files: Seq<Seq<char>>) -> spec_fn(DocumentV) -> bool {
    |d: DocumentV| !files.contains(d.path)
}

/// The name of one directory entry.
pub open spec fn fs_name(n: FsNode) -> Seq<char> {
    match n {
        FsNode::File { name } => name@,
        FsNode::Dir { name, entries } => name@,
    }
}

/// Well-formedness of a directory tree, as any tree read from a real
/// directory satisfies: no entry name holds a separator, and the entries of
/// each directory carry pairwise distinct names.
pub open spec fn fs_wf(n: FsNode) -> bool
    decreases n,
{
    match n {
        FsNode::File { name } => !name@.contains('/'),
        FsNode::Dir { name, entries } => !name@.contains('/') && fs_entries_wf(entries@),
    }
}

/// Well-formedness of one directory's entries.
pub open spec fn fs_entries_wf(s: Seq<FsNode>) -> bool
    decreases s,
{
    &&& forall|i: int| 0 <= i < s.len() ==> fs_wf(#[trigger] s[i])
    &&& forall|i: int, j: int|
        0 <= i < j < s.len() ==> fs_name(#[trigger] s[i]) != fs_name(#[trigger] s[j])
}

/// No path appears twice.
pub open spec fn paths_distinct(ps: Seq<Seq<char>>) -> bool {
    forall|i: int, j: int| 0 <= i < j < ps.len() ==> #[trigger] ps[i] != #[trigger] ps[j]
}

/// What precedes the first occurrence of `c`; all of `s` when `c` does not
/// occur.
pub open spec fn prefix_before_first(s: Seq<char>, c: char) -> Seq<char>
    decreases s.len(),
{
    if s.len() == 0 {
        s
    } else if s[0] == c {
        Seq::empty()
    } else {
        seq![s[0]] + prefix_before_first(s.drop_first(), c)
    }
}

/// What a scan reports, without mutating the store: the on-disk files not
/// yet cataloged, and the cataloged documents whose file is gone. Ingestion
/// of the former is a separate step that the surrounding application
/// performs.
#[derive(Debug, Clone, PartialEq)]
pub struct ScanReport {
    pub uncataloged: Vec<String>,
    pub missing: Vec<Document>,
}

/// If `s[k]` is the last occurrence of `c`, the suffix after the last
/// occurrence is everything past position `k`.
proof fn lemma_suffix_after_last_at(s: Seq<char>, c: char, k: int)
    requires
        0 <= k < s.len(),
        s[k] == c,
        forall|j: int| k < j < s.len() ==> s[j] != c,
    ensures
        suffix_after_last(s, c) == s.subrange(k + 1, s.len() as int),
    decreases s.len(),
{
    if k == s.len() - 1 {
        assert(s.subrange(k + 1, s.len() as int) =~= Seq::empty());
    } else {
        lemma_suffix_after_last_at(s.drop_last(), c, k);
        assert(suffix_after_last(s, c) =~= s.subrange(k + 1, s.len() as int));
    }
}

/// When `c` does not occur, the suffix after its last occurrence is the
/// whole sequence.
proof fn lemma_suffix_after_last_none(s: Seq<char>, c: char)
    requires
        forall|j: int| 0 <= j < s.len() ==> s[j] != c,
    ensures
        suffix_after_last(s, c) == s,
    decreases s.len(),
{
    if s.len() > 0 {
        lemma_suffix_after_last_none(s.drop_last(), c);
        assert(suffix_after_last(s, c) =~= s);
    }
}

/// Splitting a list of entries splits their files.
proof fn lemma_entries_files_concat(a: Seq<FsNode>, b: Seq<FsNode>)
    ensures
        entries_files(a + b) == entries_files(a) + entries_files(b),
    decreases a.len(),
{
    if a.len() == 0 {
        assert(a + b =~= b);
        assert(entries_files(a) + entries_files(b) =~= entries_files(b));
    } else {
        assert((a + b).drop_first() =~= a.drop_first() + b);
        assert((a + b)[0] == a[0]);
        lemma_entries_files_concat(a.drop_first(), b);
        assert(entry_files(a[0]) + (entries_files(a.drop_first()) + entries_files(b)) =~= (
        entry_files(a[0]) + entries_files(a.drop_first())) + entries_files(b));
    }
}

/// The files below the first `i + 1` entries are the files below the first
/// `i` entries followed by the files below entry `i`.
proof fn lemma_entries_files_snoc(s: Seq<FsNode>, i: int)
    requires
        0 <= i < s.len(),
    ensures
        entries_files(s.subrange(0, i + 1)) == entries_files(s.subrange(0, i)) + entry_files(
            s[i],
        ),
{
    assert(s.subrange(0, i + 1) =~= s.subrange(0, i) + seq![s[i]]);
    lemma_entries_files_concat(s.subrange(0, i), seq![s[i]]);
    assert(seq![s[i]].drop_first() =~= Seq::<FsNode>::empty());
    assert(seq![s[i]][0] == s[i]);
    assert(entries_files(Seq::<FsNode>::empty()) =~= Seq::<Seq<char>>::empty());
    assert(entries_files(seq![s[i]]) =~= entry_files(s[i]) + entries_files(
        seq![s[i]].drop_first(),
    ));
    assert(entry_files(s[i]) + Seq::<Seq<char>>::empty() =~= entry_files(s[i]));
}

/// When `c` does not occur, the prefix before its first occurrence is the
/// whole sequence.
proof fn lemma_prefix_before_first_none(s: Seq<char>, c: char)
    requires
        forall|j: int| 0 <= j < s.len() ==> s[j] != c,
    ensures
        prefix_before_first(s, c) == s,
    decreases s.len(),
{
    if s.len() > 0 {
        lemma_prefix_before_first_none(s.drop_first(), c);
        assert(seq![s[0]] + s.drop_first() =~= s);
    }
}

/// The prefix before the first `c` of `a + [c] + b` is `a`, when `a` itself
/// holds no `c`.
proof fn lemma_prefix_before_first_concat(a: Seq<char>, b: Seq<char>, c: char)
    requires
        forall|j: int| 0 <= j < a.len() ==> a[j] != c,
    ensures
        prefix_before_first(a + seq![c] + b, c) == a,
    decreases a.len(),
{
    let s = a + seq![c] + b;
    if a.len() == 0 {
        assert(s[0] == c);
        assert(prefix_before_first(s, c) =~= a);
    } else {
        assert(s[0] == a[0]);
        assert(s.drop_first() =~= a.drop_first() + seq![c] + b);
        lemma_prefix_before_first_concat(a.drop_first(), b, c);
        assert(seq![s[0]] + prefix_before_first(s.drop_first(), c) =~= a);
    }
}

/// Every path below a well-formed entry leads with the entry's name: the
/// prefix before its first separator is exactly that name.
proof fn lemma_entry_files_component(n: FsNode)
    requires
        fs_wf(n),
    ensures
        forall|k: int|
            0 <= k < entry_files(n).len() ==> prefix_before_first(
                #[trigger] entry_files(n)[k],
                '/',
            ) == fs_name(n),
{
    match n {
        FsNode::File { name } => {
            assert forall|j: int| 0 <= j < name@.len() implies name@[j] != '/' by {
                if name@[j] == '/' {
                    assert(name@.contains('/'));
                }
            }
            lemma_prefix_before_first_none(name@, '/');
            assert(entry_files(n)[0] == name@);
        },
        FsNode::Dir { name, entries } => {
            assert forall|j: int| 0 <= j < name@.len() implies name@[j] != '/' by {
                if name@[j] == '/' {
                    assert(name@.contains('/'));
                }
            }
            let fs = entries_files(entries@);
            assert forall|k: int| 0 <= k < entry_files(n).len() implies prefix_before_first(
                #[trigger] entry_files(n)[k],
                '/',
            ) == fs_name(n) by {
                assert(entry_files(n)[k] == name@ + slash() + fs[k]);
                assert(name@ + slash() + fs[k] =~= a_sep_b(name@, fs[k]));
                lemma_prefix_before_first_concat(name@, fs[k], '/');
            }
        },
    }
}

/// A name, a separator and a rest, joined; spelled out so proofs can speak
/// of the three parts.
spec fn a_sep_b(a: Seq<char>, b: Seq<char>) -> Seq<char> {
    a + seq!['/'] + b
}

/// Below a well-formed entry no two files share a relative path.
proof fn lemma_entry_files_distinct(n: FsNode)
    requires
        fs_wf(n),
    ensures
        paths_distinct(entry_files(n)),
    decreases n,
{
    match n {
        FsNode::File { name } => {},
        FsNode::Dir { name, entries } => {
            lemma_entries_files_distinct(entries@);
            let fs = entries_files(entries@);
            let ps = entry_files(n);
            assert forall|i: int, j: int| 0 <= i < j < ps.len() implies #[trigger] ps[i]
                != #[trigger] ps[j] by {
                assert(ps[i] == name@ + slash() + fs[i]);
                assert(ps[j] == name@ + slash() + fs[j]);
                if ps[i] == ps[j] {
                    assert(fs[i].len() == fs[j].len());
                    assert forall|k: int| 0 <= k < fs[i].len() implies fs[i][k] == fs[j][k] by {
                        assert(ps[i][name@.len() + 1 + k] == fs[i][k]);
                        assert(ps[j][name@.len() + 1 + k] == fs[j][k]);
                    }
                    assert(fs[i] =~= fs[j]);
                }
            }
        },
    }
}

/// Below one directory's well-formed entries no two files share a relative
/// path, and every path leads with the name of one of the entries.
proof fn lemma_entries_files_distinct(s: Seq<FsNode>)
    requires
        fs_entries_wf(s),
    ensures
        paths_distinct(entries_files(s)),
        forall|k: int|
            0 <= k < entries_files(s).len() ==> exists|e: int|
                0 <= e < s.len() && prefix_before_first(#[trigger] entries_files(s)[k], '/')
                    == fs_name(#[trigger] s[e]),
    decreases s,
{
    if s.len() > 0 {
        let sd = s.drop_first();
        let head = entry_files(s[0]);
        let rest = entries_files(sd);
        let all = entries_files(s);
        assert(all == head + rest);
        lemma_entry_files_distinct(s[0]);
        lemma_entry_files_component(s[0]);
        assert(fs_entries_wf(sd)) by {
            assert forall|i: int| 0 <= i < sd.len() implies fs_wf(#[trigger] sd[i]) by {
                assert(sd[i] == s[i + 1]);
            }
            assert forall|i: int, j: int| 0 <= i < j < sd.len() implies fs_name(#[trigger] sd[i])
                != fs_name(#[trigger] sd[j]) by {
                assert(sd[i] == s[i + 1] && sd[j] == s[j + 1]);
            }
        }
        lemma_entries_files_distinct(sd);
        assert forall|k: int| 0 <= k < all.len() implies exists|e: int|
            0 <= e < s.len() && prefix_before_first(#[trigger] all[k], '/') == fs_name(
                #[trigger] s[e],
            ) by {
            if k < head.len() {
                assert(all[k] == head[k]);
                assert(prefix_before_first(all[k], '/') == fs_name(s[0]));
            } else {
                assert(all[k] == rest[k - head.len()]);
                let e0 = choose|e: int|
                    0 <= e < sd.len() && prefix_before_first(rest[k - head.len()], '/') == fs_name(
                        #[trigger] sd[e],
                    );
                assert(sd[e0] == s[e0 + 1]);
            }
        }
        assert forall|i: int, j: int| 0 <= i < j < all.len() implies #[trigger] all[i]
            != #[trigger] all[j] by {
            if j < head.len() {
                assert(all[i] == head[i] && all[j] == head[j]);
            } else if i >= head.len() {
                assert(all[i] == rest[i - head.len()] && all[j] == rest[j - head.len()]);
            } else {
                assert(all[i] == head[i] && all[j] == rest[j - head.len()]);
                assert(prefix_before_first(all[i], '/') == fs_name(s[0]));
                let e0 = choose|e: int|
                    0 <= e < sd.len() && prefix_before_first(rest[j - head.len()], '/') == fs_name(
                        #[trigger] sd[e],
                    );
                assert(sd[e0] == s[e0 + 1]);
                assert(fs_name(s[0]) != fs_name(s[e0 + 1]));
            }
        }
    }
}

/// In a well-formed directory tree no two files share a relative path.
pub proof fn lemma_node_files_distinct(n: FsNode)
    requires
        fs_wf(n),
    ensures
        paths_distinct(node_files(n)),
{
    match n {
        FsNode::File { name } => {},
        FsNode::Dir { name, entries } => {
            lemma_entries_files_distinct(entries@);
        },
    }
}

/// A directory name, a separator and a file path, joined into one relative
/// path.
fn join_path(dir: &String, rest: &String) -> (r: String)
    ensures
        r@ == dir@ + slash() + rest@,
{
    proof {
        reveal_strlit("/");
        assert("/"@ =~= slash());
    }
    let mut joined = dir.clone();
    joined.append("/");
    joined.append(rest.as_str());
    proof {
        assert(joined@ =~= dir@ + slash() + rest@);
    }
    joined
}

/// The relative paths of every file below one directory entry, in
/// depth-first order.
#[verifier::loop_isolation(false)]
fn collect_entry_files(node: &FsNode) -> (r: Vec<String>)
    ensures
        r.deep_view() == entry_files(*node),
    decreases *node,
{
    match node {
        FsNode::File { name } => {
            let mut out: Vec<String> = Vec::new();
            out.push(name.clone());
            proof {
                assert(out.deep_view() =~= entry_files(*node));
            }
            out
        },
        FsNode::Dir { name, entries } => {
            let ghost sub = entries@;
            let mut out: Vec<String> = Vec::new();
            let mut i: usize = 0;
            proof {
                assert(out.deep_view() =~= prefix_all(name@, entries_files(sub.subrange(0, 0))));
            }
            while i < entries.len()
                invariant
                    0 <= i <= sub.len(),
                    out.deep_view() == prefix_all(name@, entries_files(sub.subrange(0, i as int))),
                decreases sub.len() - i,
            {
                let files = collect_entry_files(&entries[i]);
                let mut j: usize = 0;
                let ghost before = out.deep_view();
                while j < files.len()
                    invariant
                        0 <= j <= files.deep_view().len(),
                        out.deep_view() == before + prefix_all(
                            name@,
                            files.deep_view().subrange(0, j as int),
                        ),
                    decreases files.deep_view().len() - j,
                {
                    let joined = join_path(name, &files[j]);
                    let ghost jv = joined@;
                    let ghost old_dv = out.deep_view();
                    out.push(joined);
                    j += 1;
                    proof {
                        let fdv = files.deep_view();
                        assert(out.deep_view() =~= old_dv.push(jv));
                        assert(fdv[j - 1] == files@[j - 1]@);
                        assert(prefix_all(name@, fdv.subrange(0, j as int)) =~= prefix_all(
                            name@,
                            fdv.subrange(0, j as int - 1),
                        ).push(jv));
                        assert(before + prefix_all(name@, fdv.subrange(0, j as int)) =~= (before
                            + prefix_all(name@, fdv.subrange(0, j as int - 1))).push(jv));
                    }
                }
                i += 1;
                proof {
                    assert(files.deep_view().subrange(0, files.deep_view().len() as int)
                        =~= entry_files(sub[i - 1]));
                    lemma_entries_files_snoc(sub, i - 1);
                    assert(out.deep_view() =~= prefix_all(
                        name@,
                        entries_files(sub.subrange(0, i as int)),
                    ));
                }
            }
            proof {
                assert(sub.subrange(0, sub.len() as int) =~= sub);
            }
            out
        },
    }
}

/// Every file below the given root, as a path relative to the root, in
/// depth-first order. A root that is a plain file is a caller error.
#[verifier::loop_isolation(false)]
pub fn get_all_files(root: &FsNode) -> (r: Result<Vec<String>, CatalogError>)
    ensures
        root is File ==> r == Err::<Vec<String>, CatalogError>(CatalogError::NotADirectory),
        root is Dir ==> (r matches Ok(v) && v.deep_view() == node_files(*root)),
        root is Dir && fs_wf(*root) ==> (r matches Ok(v) && paths_distinct(v.deep_view())),
{
    match root {
        FsNode::File { name } => Err(CatalogError::NotADirectory),
        FsNode::Dir { name, entries } => {
            let ghost sub = entries@;
            let mut out: Vec<String> = Vec::new();
            let mut i: usize = 0;
            proof {
                assert(out.deep_view() =~= entries_files(sub.subrange(0, 0)));
            }
            while i < entries.len()
                invariant
                    0 <= i <= sub.len(),
                    out.deep_view() == entries_files(sub.subrange(0, i as int)),
                decreases sub.len() - i,
            {
                let mut files = collect_entry_files(&entries[i]);
                let ghost before = out.deep_view();
                let ghost added = files.deep_view();
                out.append(&mut files);
                i += 1;
                proof {
                    assert(out.deep_view() =~= before + added);
                    lemma_entries_files_snoc(sub, i - 1);
                    assert(out.deep_view() =~= entries_files(sub.subrange(0, i as int)));
                }
            }
            proof {
                assert(sub.subrange(0, sub.len() as int) =~= sub);
                if fs_wf(*root) {
                    lemma_node_files_distinct(*root);
                }
            }
            Ok(out)
        },
    }
}

/// The extension of a path: what follows the last dot of its file name,
/// provided that dot is not the name's first character.
#[verifier::loop_isolation(false)]
fn extension_of_path(path: &str) -> (r: Option<String>)
    ensures
        r.deep_view() == extension_of(path@),
{
    let n = path.unicode_len();
    let mut last_slash: Option<usize> = None;
    let mut last_dot: Option<usize> = None;
    let mut i: usize = 0;
    while i < n
        invariant
            0 <= i <= n,
            n == path@.len(),
            match last_slash {
                Some(k) => k < i && path@[k as int] == '/' && (forall|j: int|
                    k < j < i ==> path@[j] != '/'),
                None => forall|j: int| 0 <= j < i ==> path@[j] != '/',
            },
            match last_dot {
                Some(k) => k < i && path@[k as int] == '.' && (forall|j: int|
                    k < j < i ==> path@[j] != '.'),
                None => forall|j: int| 0 <= j < i ==> path@[j] != '.',
            },
        decreases n - i,
    {
        let c = path.get_char(i);
        if c == '/' {
            last_slash = Some(i);
        }
        if c == '.' {
            last_dot = Some(i);
        }
        i += 1;
    }
    let start: usize = match last_slash {
        Some(k) => k + 1,
        None => 0,
    };
    proof {
        match last_slash {
            Some(k) => lemma_suffix_after_last_at(path@, '/', k as int),
            None => lemma_suffix_after_last_none(path@, '/'),
        }
        assert(file_name_of(path@) =~= path@.subrange(start as int, n as int));
    }
    let ext_start: Option<usize> = match last_dot {
        Some(d) => if d > start {
            Some(d)
        } else {
            None
        },
        None => None,
    };
    match ext_start {
        Some(d) => {
            proof {
                let name = path@.subrange(start as int, n as int);
                assert(name[d - start] == '.');
                assert forall|j: int| d - start < j < name.len() implies name[j] != '.' by {
                    assert(name[j] == path@[start + j]);
                }
                lemma_suffix_after_last_at(name, '.', d as int - start as int);
                assert(1 <= d - start < name.len() && name[d - start] == '.');
                assert(has_dot_after_start(name));
                assert(suffix_after_last(name, '.') =~= path@.subrange(d as int + 1, n as int));
            }
            let ext = path.substring_char(d + 1, n);
            Some(ext.to_owned())
        },
        None => {
            proof {
                let name = path@.subrange(start as int, n as int);
                if has_dot_after_start(name) {
                    let j0 = choose|j: int| 1 <= j < name.len() && name[j] == '.';
                    assert(path@[start + j0] == '.');
                }
            }
            None
        },
    }
}

/// The ASCII lower-casing of one character.
fn lower_char_exec(c: char) -> (r: char)
    ensures
        r == lower_char(c),
{
    if 'A' <= c && c <= 'Z' {
        ((c as u8) + 32) as char
    } else {
        c
    }
}

/// Whether the lower-cased characters of `e` are exactly `allowed`.
#[verifier::loop_isolation(false)]
fn lowered_matches(e: &str, allowed: &str) -> (r: bool)
    ensures
        r == (lower_ascii(e@) == allowed@),
{
    let n = e.unicode_len();
    let m = allowed.unicode_len();
    if n != m {
        proof {
            assert(lower_ascii(e@).len() == e@.len());
        }
        return false;
    }
    let mut i: usize = 0;
    while i < n
        invariant
            0 <= i <= n,
            n == e@.len(),
            n == allowed@.len(),
            forall|j: int| 0 <= j < i ==> lower_char(#[trigger] e@[j]) == allowed@[j],
        decreases n - i,
    {
        let c = lower_char_exec(e.get_char(i));
        if c != allowed.get_char(i) {
            proof {
                if lower_ascii(e@) == allowed@ {
                    assert(lower_ascii(e@)[i as int] == lower_char(e@[i as int]));
                }
            }
            return false;
        }
        i += 1;
    }
    proof {
        assert(lower_ascii(e@) =~= allowed@);
    }
    true
}

/// Whether a path's extension, lower-cased, is one of the allowed ones.
#[verifier::loop_isolation(false)]
fn has_allowed_extension(path: &str, extensions: &Vec<String>) -> (r: bool)
    ensures
        r == ext_match(path@, extensions.deep_view()),
{
    let ext = extension_of_path(path);
    match ext {
        None => false,
        Some(e) => {
            let ghost exts = extensions.deep_view();
            let ghost lowered = lower_ascii(e@);
            let mut i: usize = 0;
            while i < extensions.len()
                invariant
                    0 <= i <= exts.len(),
                    forall|j: int| 0 <= j < i ==> #[trigger] exts[j] != lowered,
                decreases exts.len() - i,
            {
                if lowered_matches(e.as_str(), extensions[i].as_str()) {
                    proof {
                        assert(exts[i as int] == lowered);
                    }
                    return true;
                }
                i += 1;
            }
            false
        },
    }
}

/// Every file below the given root whose extension is in the allow-list, as
/// a path relative to the root, in depth-first order. A root that is a plain
/// file is a caller error.
#[verifier::loop_isolation(false)]
pub fn get_files_with_extensions(root: &FsNode, extensions: Vec<String>) -> (r: Result<
    Vec<String>,
    CatalogError,
>)
    ensures
        root is File ==> r == Err::<Vec<String>, CatalogError>(CatalogError::NotADirectory),
        root is Dir ==> (r matches Ok(v) && v.deep_view() == node_files(*root).filter(
            ext_allowed(extensions.deep_view()),
        )),
        root is Dir && fs_wf(*root) ==> (r matches Ok(v) && paths_distinct(v.deep_view())),
{
    let all = match get_all_files(root) {
        Ok(v) => v,
        Err(e) => {
            return Err(e);
        },
    };
    let ghost files = all.deep_view();
    let ghost p = ext_allowed(extensions.deep_view());
    let mut out: Vec<String> = Vec::new();
    let mut i: usize = 0;
    proof {
        reveal(Seq::filter);
        assert(out.deep_view() =~= files.subrange(0, 0).filter(p));
    }
    while i < all.len()
        invariant
            0 <= i <= files.len(),
            files.len() == all@.len(),
            out.deep_view() == files.subrange(0, i as int).filter(p),
        decreases files.len() - i,
    {
        let ghost prefix = files.subrange(0, i as int);
        if has_allowed_extension(all[i].as_str(), &extensions) {
            out.push(all[i].clone());
        }
        i += 1;
        proof {
            assert(files.subrange(0, i as int) =~= prefix.push(files[i - 1]));
            crate::table::lemma_filter_push(prefix, files[i - 1], p);
            assert(out.deep_view() =~= files.subrange(0, i as int).filter(p));
        }
    }
    proof {
        assert(files.subrange(0, files.len() as int) =~= files);
        if fs_wf(*root) {
            crate::table::lemma_filter_keeps_distinct(files, p);
        }
    }
    Ok(out)
}

/// Whether some document of the given rows is cataloged under the given
/// path.
#[verifier::loop_isolation(false)]
fn docs_have_path(docs: &Vec<Document>, path: &String) -> (r: bool)
    ensures
        r == (exists|i: int|
            0 <= i < docs.deep_view().len() && (#[trigger] docs.deep_view()[i]).path == path@),
{
    let ghost dv = docs.deep_view();
    let mut i: usize = 0;
    while i < docs.len()
        invariant
            0 <= i <= dv.len(),
            dv.len() == docs@.len(),
            forall|j: int| 0 <= j < i ==> (#[trigger] dv[j]).path != path@,
        decreases dv.len() - i,
    {
        if docs[i].path_ == *path {
            proof {
                assert((dv[i as int]).path == path@);
            }
            return true;
        }
        i += 1;
    }
    false
}

/// Whether the given path is among the files on disk.
#[verifier::loop_isolation(false)]
fn files_have(files: &Vec<String>, path: &String) -> (r: bool)
    ensures
        r == files.deep_view().contains(path@),
{
    let ghost fv = files.deep_view();
    let mut i: usize = 0;
    while i < files.len()
        invariant
            0 <= i <= fv.len(),
            fv.len() == files@.len(),
            forall|j: int| 0 <= j < i ==> #[trigger] fv[j] != path@,
        decreases fv.len() - i,
    {
        if files[i] == *path {
            proof {
                assert(fv[i as int] == path@);
            }
            return true;
        }
        i += 1;
    }
    false
}

/// Scan one category: diff the files on disk under its root (restricted to
/// the allowed extensions) against the documents cataloged for it. The store
/// is not mutated; the report's two lists are disjoint by construction. A
/// root that is a plain file is a caller error.
#[verifier::loop_isolation(false)]
pub fn scan_for_new_files(
    store: &Catalog,
    category: &Category,
    root: &FsNode,
    extensions: Vec<String>,
) -> (r: Result<ScanReport, CatalogError>)
    ensures
        root is File ==> r == Err::<ScanReport, CatalogError>(CatalogError::NotADirectory),
        root is Dir ==> (r matches Ok(rep) && {
            let files = node_files(*root).filter(ext_allowed(extensions.deep_view()));
            let cat_docs = store@.documents.rows.filter(doc_by_category(category@.id));
            &&& rep.uncataloged.deep_view() == files.filter(path_uncataloged(cat_docs))
            &&& rep.missing.deep_view() == cat_docs.filter(path_missing(files))
        }),
        root is Dir && fs_wf(*root) ==> (r matches Ok(rep) && paths_distinct(
            rep.uncataloged.deep_view(),
        )),
{
    let files = match get_files_with_extensions(root, extensions) {
        Ok(v) => v,
        Err(e) => {
            return Err(e);
        },
    };
    let docs = match get_documents_from_category(store, &category.id_) {
        Ok(v) => v,
        Err(e) => {
            return Err(e);
        },
    };
    let ghost fv = files.deep_view();
    let ghost dv = docs.deep_view();
    let ghost punc = path_uncataloged(dv);
    let mut uncataloged: Vec<String> = Vec::new();
    let mut i: usize = 0;
    proof {
        reveal(Seq::filter);
        assert(uncataloged.deep_view() =~= fv.subrange(0, 0).filter(punc));
    }
    while i < files.len()
        invariant
            0 <= i <= fv.len(),
            fv.len() == files@.len(),
            uncataloged.deep_view() == fv.subrange(0, i as int).filter(punc),
        decreases fv.len() - i,
    {
        let ghost prefix = fv.subrange(0, i as int);
        if !docs_have_path(&docs, &files[i]) {
            uncataloged.push(files[i].clone());
        }
        i += 1;
        proof {
            assert(fv.subrange(0, i as int) =~= prefix.push(fv[i - 1]));
            crate::table::lemma_filter_push(prefix, fv[i - 1], punc);
            assert(uncataloged.deep_view() =~= fv.subrange(0, i as int).filter(punc));
        }
    }
    proof {
        assert(fv.subrange(0, fv.len() as int) =~= fv);
        if fs_wf(*root) {
            crate::table::lemma_filter_keeps_distinct(fv, punc);
        }
    }
    let ghost pmis = path_missing(fv);
    let mut missing: Vec<Document> = Vec::new();
    let mut k: usize = 0;
    proof {
        assert(missing.deep_view() =~= dv.subrange(0, 0).filter(pmis));
    }
    while k < docs.len()
        invariant
            0 <= k <= dv.len(),
            dv.len() == docs@.len(),
            missing.deep_view() == dv.subrange(0, k as int).filter(pmis),
        decreases dv.len() - k,
    {
        let ghost prefix = dv.subrange(0, k as int);
        if !files_have(&files, &docs[k].path_) {
            missing.push(docs[k].dup());
        }
        k += 1;
        proof {
            assert(dv.subrange(0, k as int) =~= prefix.push(dv[k - 1]));
            crate::table::lemma_filter_push(prefix, dv[k - 1], pmis);
            assert(missing.deep_view() =~= dv.subrange(0, k as int).filter(pmis));
        }
    }
    proof {
        assert(dv.subrange(0, dv.len() as int) =~= dv);
    }
    Ok(ScanReport { uncataloged, missing })
}


/// The two lists of a scan report are disjoint: a path reported as
/// uncataloged is never the path of a document reported as missing.
pub proof fn lemma_scan_report_disjoint(
    files: Seq<Seq<char>>,
    cat_docs: Seq<DocumentV>,
    p: Seq<char>,
)
    requires
        files.filter(path_uncataloged(cat_docs)).contains(p),
    ensures
        forall|i: int|
            0 <= i < cat_docs.filter(path_missing(files)).len() ==> (#[trigger] cat_docs.filter(
                path_missing(files),
            )[i]).path != p,
{
    broadcast use vstd::seq_lib::group_filter_ensures;

    crate::table::lemma_filter_membership(files, path_uncataloged(cat_docs), p);
    crate::table::lemma_filter_subset(cat_docs, path_missing(files));
    let missing = cat_docs.filter(path_missing(files));
    assert forall|i: int| 0 <= i < missing.len() implies (#[trigger] missing[i]).path != p by {
        let j0 = choose|j: int| 0 <= j < cat_docs.len() && missing[i] == #[trigger] cat_docs[j];
        if missing[i].path == p {
            assert((cat_docs[j0]).path == p);
        }
    }
}

} // verus!
