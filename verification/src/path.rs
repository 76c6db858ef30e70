//! Slash-separated paths as text.
use vstd::prelude::*;
use crate::text::{
    char_rows, chars_of, copy_str, pieces, push_str, same_chars, slice_chars, spells, split_chars, string_of, string_slice,
};

verus! {

/// The last of the first `k` pieces that names something: neither empty nor a
/// dot.
pub open spec fn last_named(parts: Seq<Seq<char>>, k: int) -> Option<Seq<char>>
    decreases k,
{
    if k <= 0 {
        None
    } else if parts[k - 1] == ""@ || parts[k - 1] == "."@ {
        last_named(parts, k - 1)
    } else {
        Some(parts[k - 1])
    }
}

/// The name of the file or directory that a path leads to. A path that ends
/// in two dots has none.
pub open spec fn name_in(path: Seq<char>) -> Option<Seq<char>> {
    let parts = pieces(path, '/');
    match last_named(parts, parts.len() as int) {
        Some(n) => if n == ".."@ {
            None
        } else {
            Some(n)
        },
        None => None,
    }
}

/// The place of the last dot among the first `k` characters.
pub open spec fn last_dot(name: Seq<char>, k: int) -> Option<int>
    decreases k,
{
    if k <= 0 {
        None
    } else if name[k - 1] == '.' {
        Some(k - 1)
    } else {
        last_dot(name, k - 1)
    }
}

/// What follows the last dot of the name. A dot at the very start does not
/// count.
pub open spec fn extension_in(path: Seq<char>) -> Option<Seq<char>> {
    match name_in(path) {
        Some(n) => match last_dot(n, n.len() as int) {
            Some(i) => if i == 0 {
                None
            } else {
                Some(n.skip(i + 1))
            },
            None => None,
        },
        None => None,
    }
}

pub open spec fn absolute(path: Seq<char>) -> bool {
    path.len() > 0 && path[0] == '/'
}

/// A path taken relative to a directory. An absolute path stays as it is.
pub open spec fn joined(dir: Seq<char>, path: Seq<char>) -> Seq<char> {
    if absolute(path) || dir.len() == 0 {
        path
    } else if dir.last() == '/' {
        dir + path
    } else {
        dir + seq!['/'] + path
    }
}

fn name_chars(path: &str) -> (r: Option<Vec<char>>)
    ensures
        match (r, name_in(path@)) {
            (Some(v), Some(n)) => v@ == n,
            (None, None) => true,
            _ => false,
        },
{
    let cs = chars_of(path);
    let parts = split_chars(&cs, '/');
    let ghost rows = pieces(path@, '/');
    let mut k: usize = parts.len();
    while k > 0
        invariant
            k <= parts.len(),
            char_rows(parts@) == rows,
            rows == pieces(path@, '/'),
            rows.len() == parts.len(),
            last_named(rows, rows.len() as int) == last_named(rows, k as int),
        decreases k,
    {
        let p = &parts[k - 1];
        assert(p@ == rows[k - 1]);
        if !spells(p, "") && !spells(p, ".") {
            if spells(p, "..") {
                return None;
            }
            return Some(slice_all(p));
        }
        k = k - 1;
    }
    None
}

fn slice_all(v: &Vec<char>) -> (r: Vec<char>)
    ensures
        r@ == v@,
{
    let r = slice_chars(v, 0, v.len());
    proof {
        assert(r@ =~= v@);
    }
    r
}

/// The name of the file or directory that a path leads to.
pub fn file_name(path: &str) -> (r: Option<String>)
    ensures
        match (r, name_in(path@)) {
            (Some(v), Some(n)) => v@ == n,
            (None, None) => true,
            _ => false,
        },
{
    match name_chars(path) {
        Some(n) => Some(string_of(&n)),
        None => None,
    }
}

/// The extension of the file that a path leads to.
pub fn extension(path: &str) -> (r: Option<String>)
    ensures
        match (r, extension_in(path@)) {
            (Some(v), Some(n)) => v@ == n,
            (None, None) => true,
            _ => false,
        },
{
    let n = match name_chars(path) {
        Some(n) => n,
        None => return None,
    };
    let mut k: usize = n.len();
    while k > 0
        invariant
            k <= n.len(),
            name_in(path@) == Some(n@),
            last_dot(n@, n@.len() as int) == last_dot(n@, k as int),
        decreases k,
    {
        if n[k - 1] == '.' {
            if k == 1 {
                return None;
            }
            let r = string_slice(&n, k, n.len());
            proof {
                assert(r@ =~= n@.skip(k as int));
            }
            return Some(r);
        }
        k = k - 1;
    }
    None
}

/// Whether a path starts at the root.
pub fn is_absolute(path: &str) -> (r: bool)
    ensures
        r == absolute(path@),
{
    let cs = chars_of(path);
    cs.len() > 0 && cs[0] == '/'
}

/// A path taken relative to a directory.
pub fn join(dir: &str, path: &str) -> (r: String)
    ensures
        r@ == joined(dir@, path@),
{
    let d = chars_of(dir);
    if d.len() == 0 || is_absolute(path) {
        return crate::text::copy_str(path);
    }
    let mut out = crate::text::copy_str(dir);
    if d[d.len() - 1] != '/' {
        out.push('/');
        proof {
            assert(out@ =~= dir@ + seq!['/']);
        }
    }
    crate::text::push_str(&mut out, path);
    out
}

/// The URI of a path.
pub open spec fn uri_of(path: Seq<char>) -> Seq<char> {
    "file://"@ + path
}

/// The path of a URI; none where it is no file.
pub open spec fn path_of(uri: Seq<char>) -> Option<Seq<char>> {
    if "file://"@.is_prefix_of(uri) {
        Some(uri.skip("file://"@.len() as int))
    } else {
        None
    }
}

/// The URI of a path.
pub fn path_to_uri(path: &str) -> (r: String)
    ensures
        r@ == uri_of(path@),
{
    let mut s = copy_str("file://");
    push_str(&mut s, path);
    s
}

/// The path of a URI.
pub fn uri_to_path(uri: &str) -> (r: Option<String>)
    ensures
        match (r, path_of(uri@)) {
            (Some(a), Some(b)) => a@ == b,
            (None, None) => true,
            _ => false,
        },
{
    let head = chars_of("file://");
    let cs = chars_of(uri);
    let n = head.len();
    if cs.len() < n {
        return None;
    }
    let start = slice_chars(&cs, 0, n);
    proof {
        assert((start@ == head@) == head@.is_prefix_of(cs@));
    }
    if !same_chars(&start, &head) {
        return None;
    }
    let r = string_slice(&cs, n, cs.len());
    proof {
        assert(r@ =~= uri@.skip(n as int));
    }
    Some(r)
}

/// A path comes back from its URI.
pub proof fn law_uri_round_trip(path: Seq<char>)
    ensures
        path_of(uri_of(path)) == Some(path),
{
    assert("file://"@.is_prefix_of(uri_of(path)));
    assert(uri_of(path).skip("file://"@.len() as int) =~= path);
}

/// The name of a file without its extension.
pub open spec fn stem_in(path: Seq<char>) -> Option<Seq<char>> {
    match name_in(path) {
        Some(n) => match last_dot(n, n.len() as int) {
            Some(i) => if i == 0 {
                Some(n)
            } else {
                Some(n.take(i))
            },
            None => Some(n),
        },
        None => None,
    }
}

/// The name of a file without its extension.
pub fn file_stem(path: &str) -> (r: Option<String>)
    ensures
        match (r, stem_in(path@)) {
            (Some(a), Some(b)) => a@ == b,
            (None, None) => true,
            _ => false,
        },
{
    match file_name(path) {
        None => None,
        Some(name) => {
            let cs = chars_of(name.as_str());
            let mut k: usize = cs.len();
            while k > 0 && cs[k - 1] != '.'
                invariant
                    k <= cs.len(),
                    last_dot(cs@, cs@.len() as int) == last_dot(cs@, k as int),
                decreases k,
            {
                k = k - 1;
            }
            if k <= 1 {
                return Some(name);
            }
            let r = string_slice(&cs, 0, k - 1);
            proof {
                assert(r@ =~= name@.take(k - 1));
            }
            Some(r)
        },
    }
}

} // verus!
