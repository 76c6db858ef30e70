//! What the handling of grammars promises: which ones a command is for, and
//! which files belong to one.
use vstd::prelude::*;
use crate::grammar::cli::{choice, command_named, place_of, places_of, planned, ChoiceError, GrammarPlan};
use crate::grammar::{fetch_args, library_found, library_suffix, queries_of, query_in, query_of};
use crate::path::joined;

verus! {

/// A name is found at its first place in the list.
pub proof fn law_place_of_a_name(names: Seq<Seq<char>>, name: Seq<char>, from: int)
    requires
        0 <= from,
    ensures
        match place_of(names, name, from) {
            Some(p) => from <= p < names.len() && names[p] == name && forall|i: int|
                from <= i < p ==> #[trigger] names[i] != name,
            None => forall|i: int| from <= i < names.len() ==> #[trigger] names[i] != name,
        },
    decreases names.len() - from,
{
    if from < names.len() && names[from] != name {
        law_place_of_a_name(names, name, from + 1);
    }
}

/// The grammars that a command is for are those that are named, in the order in
/// which they are named, or all of them. A name that is not known is an error,
/// and so is none at all.
pub proof fn law_chosen_grammars(names: Seq<Seq<char>>, args: Seq<Seq<char>>, cmd: Seq<char>)
    ensures
        args.len() == 0 ==> (choice(names, args, cmd) matches Err(e) && e is NoName),
        args.len() > 0 && args[0] == "--all"@ ==> (choice(names, args, cmd) matches Ok(s) && s.len() == names.len()
            && forall|i: int| 0 <= i < s.len() ==> #[trigger] s[i] == i),
        args.len() > 0 && args[0] != "--all"@ ==> match choice(names, args, cmd) {
            Ok(s) => s.len() == args.len() && forall|i: int|
                0 <= i < s.len() ==> 0 <= #[trigger] s[i] < names.len() && names[s[i]] == args[i],
            Err(e) => e matches ChoiceError::Unknown(name) && args.contains(name) && !names.contains(name),
        },
{
    if args.len() > 0 && args[0] != "--all"@ {
        lemma_places(names, args, args.len() as int);
    }
}

proof fn lemma_places(names: Seq<Seq<char>>, args: Seq<Seq<char>>, k: int)
    requires
        0 <= k <= args.len(),
    ensures
        match places_of(names, args, k) {
            Ok(s) => s.len() == k && forall|i: int|
                0 <= i < k ==> 0 <= #[trigger] s[i] < names.len() && names[s[i]] == args[i],
            Err(name) => args.contains(name) && !names.contains(name),
        },
    decreases k,
{
    if k > 0 {
        lemma_places(names, args, k - 1);
        law_place_of_a_name(names, args[k - 1], 0);
        if places_of(names, args, k - 1) is Ok && place_of(names, args[k - 1], 0) is None {
            assert(args[k - 1] == args[k - 1]);
            assert(!names.contains(args[k - 1]));
        }
    }
}

/// What a command line comes to: without a command, help; a list; what is to be
/// installed, by the names that follow; and what is to be removed, which has to
/// be named.
pub proof fn law_command_lines(names: Seq<Seq<char>>, word: Seq<char>, rest: Seq<Seq<char>>)
    ensures
        ({
            let p = planned(names, seq![word] + rest);
            &&& planned(names, Seq::empty()) matches Ok(h) && h is Help
            &&& word == "list"@ || word == "ls"@ ==> (p matches Ok(x) && x is List)
            &&& word == "install"@ || word == "add"@ ==> match choice(names, rest, "install"@) {
                Ok(s) => p == Ok::<GrammarPlan<Seq<int>, Seq<Seq<char>>>, ChoiceError<Seq<char>>>(
                    GrammarPlan::Install(s),
                ),
                Err(e) => p is Err,
            }
            &&& (word == "remove"@ || word == "rm"@ || word == "uninstall"@) && rest.len() == 0 ==> p is Err
            &&& (word == "remove"@ || word == "rm"@ || word == "uninstall"@) && rest.len() > 0 ==> p == Ok::<
                GrammarPlan<Seq<int>, Seq<Seq<char>>>,
                ChoiceError<Seq<char>>,
            >(GrammarPlan::Remove(rest))
        }),
{
    let args = seq![word] + rest;
    assert(args.drop_first() =~= rest);
    assert(args[0] == word);
    reveal_strlit("list");
    reveal_strlit("ls");
    reveal_strlit("install");
    reveal_strlit("add");
    reveal_strlit("install-queries");
    reveal_strlit("refresh-queries");
    reveal_strlit("remove");
    reveal_strlit("rm");
    reveal_strlit("uninstall");
    if word == "remove"@ || word == "rm"@ || word == "uninstall"@ {
        assert(word[0] == 'r' || word[0] == 'u');
        assert("list"@[0] == 'l' && "ls"@[0] == 'l');
        assert("install"@[0] == 'i' && "add"@[0] == 'a' && "install-queries"@[0] == 'i');
        assert("refresh-queries"@.len() == 15 && "remove"@.len() == 6 && "rm"@.len() == 2 && "uninstall"@.len() == 9);
    }
    if word == "install"@ || word == "add"@ {
        assert("list"@[0] == 'l' && "ls"@[0] == 'l');
        assert(word[0] == 'i' || word[0] == 'a');
    }
    assert(command_named(Some(word)) is Remove <== word == "remove"@ || word == "rm"@ || word == "uninstall"@);
    assert(command_named(Some(word)) is Install <== word == "install"@ || word == "add"@);
}

/// The queries of a language are the query files that lie in its directory and
/// not further down.
pub proof fn law_queries_of_a_language(lang: Seq<char>, paths: Seq<Seq<char>>, k: int, path: Seq<char>)
    requires
        0 <= k <= paths.len(),
    ensures
        queries_of(lang, paths, k).contains(path) <==> query_of(path, lang) && exists|i: int|
            0 <= i < k && #[trigger] paths[i] == path,
        query_of(path, lang) ==> path.len() > lang.len() && path.take(lang.len() as int) == lang
            && path[lang.len() as int] == '/' && query_in(path) is Some && forall|i: int|
            lang.len() < i < path.len() ==> path[i] != '/',
    decreases k,
{
    if query_of(path, lang) {
        assert(path.take(lang.len() as int) =~= lang);
    }
    if k > 0 {
        law_queries_of_a_language(lang, paths, k - 1, path);
        let t = queries_of(lang, paths, k - 1);
        let w = queries_of(lang, paths, k);
        if w.contains(path) {
            let j = choose|j: int| 0 <= j < w.len() && w[j] == path;
            if j < t.len() {
                assert(t[j] == path);
                assert(t.contains(path));
                let i = choose|i: int| 0 <= i < k - 1 && #[trigger] paths[i] == path;
                assert(paths[i] == path);
            } else {
                assert(paths[k - 1] == path);
            }
        }
        if query_of(path, lang) && exists|i: int| 0 <= i < k && #[trigger] paths[i] == path {
            let i = choose|i: int| 0 <= i < k && #[trigger] paths[i] == path;
            if i < k - 1 {
                assert(paths[i] == path);
                assert(t.contains(path));
                let j = choose|j: int| 0 <= j < t.len() && t[j] == path;
                assert(w[j] == path);
            } else {
                assert(w[w.len() - 1] == path);
            }
        }
    } else {
        assert(queries_of(lang, paths, k) =~= Seq::empty());
    }
}

/// The library of a grammar is the first of its file names that there is, in
/// the directory that was looked in.
pub proof fn law_library(name: Seq<char>, dir: Seq<char>, files: Seq<Seq<char>>)
    ensures
        files.contains(name + "."@ + "so"@) ==> library_found(name, dir, files) == Some(joined(dir, name + "."@ + "so"@)),
        !files.contains(name + "."@ + "so"@) && files.contains(name + "."@ + "dylib"@) ==> library_found(name, dir, files)
            == Some(joined(dir, name + "."@ + "dylib"@)),
        !files.contains(name + "."@ + "so"@) && !files.contains(name + "."@ + "dylib"@) && !files.contains(
            name + "."@ + "dll"@,
        ) ==> library_found(name, dir, files) is None,
        library_suffix("macos"@) == "dylib"@,
{
}

/// A grammar that is pinned to a revision is fetched with its history, another
/// one without.
pub proof fn law_fetching(repo: Seq<char>, dest: Seq<char>)
    ensures
        fetch_args(repo, dest, true) == seq!["clone"@, repo, dest],
        fetch_args(repo, dest, false) == seq!["clone"@, "--depth"@, "1"@, repo, dest],
{
}

} // verus!
