//! Installing grammars: what the commands mean, and what is there already.
use vstd::prelude::*;
use crate::finder::listing::{sort_strings, sorted_like};
use crate::path::{extension, extension_in, file_stem, join, joined, stem_in};
use crate::text::{chars_of, copy_str, opt_str, push_str, same_str, text_of};

pub mod cli;
pub mod laws;

verus! {

/// The suffix of a library on a system.
pub open spec fn library_suffix(os: Seq<char>) -> Seq<char> {
    if os == "macos"@ {
        "dylib"@
    } else if os == "windows"@ {
        "dll"@
    } else {
        "so"@
    }
}

/// The suffix of a library on a system, by the system's name.
pub fn dylib_ext(os: &str) -> (r: &'static str)
    ensures
        r@ == library_suffix(os@),
{
    if same_str(os, "macos") {
        "dylib"
    } else if same_str(os, "windows") {
        "dll"
    } else {
        "so"
    }
}

pub open spec fn library_in(dir: Seq<char>, name: Seq<char>, ext: Seq<char>) -> Seq<char> {
    joined(dir, name + "."@ + ext)
}

/// Where the library of a grammar is put.
pub fn library_file(dir: &str, name: &str, ext: &str) -> (r: String)
    ensures
        r@ == library_in(dir@, name@, ext@),
{
    let mut f = copy_str(name);
    push_str(&mut f, ".");
    push_str(&mut f, ext);
    join(dir, f.as_str())
}

/// Where the library of a grammar may be, whatever the system: the suffixes
/// in the order in which they are tried.
pub fn library_files(dir: &str, name: &str) -> (r: Vec<String>)
    ensures
        text_of(r@) == seq![
            library_in(dir@, name@, "so"@),
            library_in(dir@, name@, "dylib"@),
            library_in(dir@, name@, "dll"@),
        ],
{
    let mut v: Vec<String> = Vec::new();
    v.push(library_file(dir, name, "so"));
    v.push(library_file(dir, name, "dylib"));
    v.push(library_file(dir, name, "dll"));
    assert(text_of(v@) =~= seq![
        library_in(dir@, name@, "so"@),
        library_in(dir@, name@, "dylib"@),
        library_in(dir@, name@, "dll"@),
    ]);
    v
}

/// The name of the query that a file holds; none where it holds no query.
pub open spec fn query_in(path: Seq<char>) -> Option<Seq<char>> {
    if extension_in(path) == Some("scm"@) {
        stem_in(path)
    } else {
        None
    }
}

/// The names of the queries in the first `k` files.
pub open spec fn queries_in(paths: Seq<Seq<char>>, k: int) -> Seq<Seq<char>>
    decreases k,
{
    if k <= 0 {
        Seq::empty()
    } else {
        match query_in(paths[k - 1]) {
            Some(n) => queries_in(paths, k - 1).push(n),
            None => queries_in(paths, k - 1),
        }
    }
}

/// The name of the query that a file holds.
pub fn query_name(path: &str) -> (r: Option<String>)
    ensures
        match (r, query_in(path@)) {
            (Some(a), Some(b)) => a@ == b,
            (None, None) => true,
            _ => false,
        },
{
    match extension(path) {
        Some(e) => {
            if same_str(e.as_str(), "scm") {
                file_stem(path)
            } else {
                None
            }
        },
        None => None,
    }
}

/// Whether a path names a query file that lies in a directory.
pub open spec fn query_of(path: Seq<char>, dir: Seq<char>) -> bool {
    let n = dir.len() as int;
    &&& dir.is_prefix_of(path)
    &&& n + 1 < path.len()
    &&& path[n] == '/'
    &&& forall|i: int| n < i < path.len() ==> path[i] != '/'
    &&& query_in(path) is Some
}

/// The query files of a language among the first `k` files.
pub open spec fn queries_of(lang: Seq<char>, paths: Seq<Seq<char>>, k: int) -> Seq<Seq<char>>
    decreases k,
{
    if k <= 0 {
        Seq::empty()
    } else if query_of(paths[k - 1], lang) {
        queries_of(lang, paths, k - 1).push(paths[k - 1])
    } else {
        queries_of(lang, paths, k - 1)
    }
}

fn is_query_of(path: &str, dir: &str) -> (r: bool)
    ensures
        r == query_of(path@, dir@),
{
    let p = chars_of(path);
    let d = chars_of(dir);
    let n = d.len();
    if p.len() <= n || p.len() - n < 2 || p[n] != '/' {
        return false;
    }
    let mut i: usize = 0;
    while i < n
        invariant
            i <= n == d.len(),
            n < p.len(),
            p@ == path@,
            d@ == dir@,
            forall|k: int| 0 <= k < i ==> p@[k] == d@[k],
        decreases n - i,
    {
        if p[i] != d[i] {
            assert(path@[i as int] != dir@[i as int]);
            return false;
        }
        i = i + 1;
    }
    assert(dir@.is_prefix_of(path@)) by {
        assert(path@.subrange(0, n as int) =~= dir@);
    }
    let mut j: usize = n + 1;
    while j < p.len()
        invariant
            n < j <= p.len(),
            n == d.len(),
            p@ == path@,
            d@ == dir@,
            forall|k: int| n < k < j ==> p@[k] != '/',
        decreases p.len() - j,
    {
        if p[j] == '/' {
            assert(path@[j as int] == '/');
            return false;
        }
        j = j + 1;
    }
    query_name(path).is_some()
}

/// The query files that the editor brings along for a language. `bundle`
/// lists all that it brings along, by language and file.
pub fn files_for(lang: &str, bundle: &Vec<String>) -> (r: Vec<String>)
    ensures
        text_of(r@) == queries_of(lang@, text_of(bundle@), bundle@.len() as int),
{
    let ghost all = text_of(bundle@);
    let mut out: Vec<String> = Vec::new();
    let mut i: usize = 0;
    assert(text_of(out@) =~= queries_of(lang@, all, 0));
    while i < bundle.len()
        invariant
            i <= bundle.len(),
            all == text_of(bundle@),
            text_of(out@) == queries_of(lang@, all, i as int),
        decreases bundle.len() - i,
    {
        assert(all[i as int] == bundle@[i as int]@);
        if is_query_of(bundle[i].as_str(), lang) {
            let ghost before = out@;
            let f = copy_str(bundle[i].as_str());
            out.push(f);
            proof {
                assert(text_of(out@) =~= text_of(before).push(f@));
            }
        }
        i = i + 1;
    }
    out
}

/// The names of the queries that the editor brings along for a language,
/// sorted.
pub fn bundled_query_names(lang: &str, bundle: &Vec<String>) -> (r: Vec<String>)
    ensures
        ({
            let files = queries_of(lang@, text_of(bundle@), bundle@.len() as int);
            sorted_like(text_of(r@), queries_in(files, files.len() as int))
        }),
{
    let files = files_for(lang, bundle);
    assert(text_of(files@).len() == files@.len());
    installed_queries(&files)
}

/// The names of the queries in a list of files, sorted.
pub fn installed_queries(paths: &Vec<String>) -> (r: Vec<String>)
    ensures
        sorted_like(text_of(r@), queries_in(text_of(paths@), paths@.len() as int)),
{
    let ghost all = text_of(paths@);
    let mut out: Vec<String> = Vec::new();
    let mut i: usize = 0;
    assert(text_of(out@) =~= queries_in(all, 0));
    while i < paths.len()
        invariant
            i <= paths.len(),
            all == text_of(paths@),
            text_of(out@) == queries_in(all, i as int),
        decreases paths.len() - i,
    {
        assert(all[i as int] == paths@[i as int]@);
        if let Some(n) = query_name(paths[i].as_str()) {
            let ghost before = out@;
            out.push(n);
            proof {
                assert(text_of(out@) =~= text_of(before).push(n@));
            }
        }
        i = i + 1;
    }
    sort_strings(out)
}

fn holds(v: &Vec<String>, s: &str) -> (r: bool)
    ensures
        r == text_of(v@).contains(s@),
{
    let ghost t = text_of(v@);
    let mut i: usize = 0;
    while i < v.len()
        invariant
            i <= v.len(),
            t == text_of(v@),
            forall|k: int| 0 <= k < i ==> t[k] != s@,
        decreases v.len() - i,
    {
        assert(t[i as int] == v@[i as int]@);
        if same_str(v[i].as_str(), s) {
            return true;
        }
        i = i + 1;
    }
    false
}

/// The library of a grammar in a directory, by the suffixes in their order.
/// `files` are the names of the files there.
pub open spec fn library_found(name: Seq<char>, dir: Seq<char>, files: Seq<Seq<char>>) -> Option<Seq<char>> {
    if files.contains(name + "."@ + "so"@) {
        Some(library_in(dir, name, "so"@))
    } else if files.contains(name + "."@ + "dylib"@) {
        Some(library_in(dir, name, "dylib"@))
    } else if files.contains(name + "."@ + "dll"@) {
        Some(library_in(dir, name, "dll"@))
    } else {
        None
    }
}

fn has_file(files: &Vec<String>, name: &str, ext: &str) -> (r: bool)
    ensures
        r == text_of(files@).contains(name@ + "."@ + ext@),
{
    let mut f = copy_str(name);
    push_str(&mut f, ".");
    push_str(&mut f, ext);
    holds(files, f.as_str())
}

/// Where the library of a grammar is, if it is installed.
pub fn installed_path(name: &str, dir: &str, files: &Vec<String>) -> (r: Option<String>)
    ensures
        opt_str(r) == library_found(name@, dir@, text_of(files@)),
{
    if has_file(files, name, "so") {
        Some(library_file(dir, name, "so"))
    } else if has_file(files, name, "dylib") {
        Some(library_file(dir, name, "dylib"))
    } else if has_file(files, name, "dll") {
        Some(library_file(dir, name, "dll"))
    } else {
        None
    }
}

/// Whether nothing of a grammar is missing: the library is there, and every
/// query that the editor brings along.
pub fn is_fully_installed(has_library: bool, bundled: &Vec<String>, installed: &Vec<String>) -> (r: bool)
    ensures
        r == (has_library && forall|i: int|
            0 <= i < bundled@.len() ==> text_of(installed@).contains(#[trigger] text_of(bundled@)[i])),
{
    if !has_library {
        return false;
    }
    let ghost b = text_of(bundled@);
    let mut i: usize = 0;
    while i < bundled.len()
        invariant
            i <= bundled.len(),
            b == text_of(bundled@),
            forall|k: int| 0 <= k < i ==> text_of(installed@).contains(#[trigger] b[k]),
        decreases bundled.len() - i,
    {
        assert(b[i as int] == bundled@[i as int]@);
        if !holds(installed, bundled[i].as_str()) {
            return false;
        }
        i = i + 1;
    }
    true
}

/// How the sources of a grammar are fetched. A pinned revision needs the
/// whole history.
pub open spec fn fetch_args(repo: Seq<char>, dest: Seq<char>, pinned: bool) -> Seq<Seq<char>> {
    if pinned {
        seq!["clone"@, repo, dest]
    } else {
        seq!["clone"@, "--depth"@, "1"@, repo, dest]
    }
}

/// How the sources of a grammar are fetched.
pub fn clone_args(repo: &str, dest: &str, pinned: bool) -> (r: Vec<String>)
    ensures
        text_of(r@) == fetch_args(repo@, dest@, pinned),
{
    let mut v: Vec<String> = Vec::new();
    v.push(copy_str("clone"));
    if !pinned {
        v.push(copy_str("--depth"));
        v.push(copy_str("1"));
    }
    v.push(copy_str(repo));
    v.push(copy_str(dest));
    assert(text_of(v@) =~= fetch_args(repo@, dest@, pinned));
    v
}

} // verus!
