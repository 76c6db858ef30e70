//! The commands that install grammars.
use vstd::prelude::*;
use crate::text::{copy_str, push_str, same_str, text_of};

verus! {

/// A command.
#[derive(Debug)]
pub enum GrammarCommand<S = String> {
    Help,
    List,
    Install,
    InstallQueries,
    Remove,
    Unknown(S),
}

impl View for GrammarCommand {
    type V = GrammarCommand<Seq<char>>;

    open spec fn view(&self) -> GrammarCommand<Seq<char>> {
        match self {
            GrammarCommand::Help => GrammarCommand::Help,
            GrammarCommand::List => GrammarCommand::List,
            GrammarCommand::Install => GrammarCommand::Install,
            GrammarCommand::InstallQueries => GrammarCommand::InstallQueries,
            GrammarCommand::Remove => GrammarCommand::Remove,
            GrammarCommand::Unknown(s) => GrammarCommand::Unknown(s@),
        }
    }
}

/// The command that a word names. None asks for help.
pub open spec fn command_named(word: Option<Seq<char>>) -> GrammarCommand<Seq<char>> {
    match word {
        None => GrammarCommand::Help,
        Some(w) => if w == "list"@ || w == "ls"@ {
            GrammarCommand::List
        } else if w == "install"@ || w == "add"@ {
            GrammarCommand::Install
        } else if w == "install-queries"@ || w == "refresh-queries"@ {
            GrammarCommand::InstallQueries
        } else if w == "remove"@ || w == "rm"@ || w == "uninstall"@ {
            GrammarCommand::Remove
        } else if w == "help"@ || w == "-h"@ || w == "--help"@ {
            GrammarCommand::Help
        } else {
            GrammarCommand::Unknown(w)
        },
    }
}

/// The command that the arguments start with.
pub fn parse_command(args: &Vec<String>) -> (r: GrammarCommand)
    ensures
        r@ == command_named(
            if args@.len() == 0 {
                None
            } else {
                Some(args@[0]@)
            },
        ),
{
    if args.len() == 0 {
        return GrammarCommand::Help;
    }
    let w = args[0].as_str();
    if same_str(w, "list") || same_str(w, "ls") {
        GrammarCommand::List
    } else if same_str(w, "install") || same_str(w, "add") {
        GrammarCommand::Install
    } else if same_str(w, "install-queries") || same_str(w, "refresh-queries") {
        GrammarCommand::InstallQueries
    } else if same_str(w, "remove") || same_str(w, "rm") || same_str(w, "uninstall") {
        GrammarCommand::Remove
    } else if same_str(w, "help") || same_str(w, "-h") || same_str(w, "--help") {
        GrammarCommand::Help
    } else {
        GrammarCommand::Unknown(copy_str(w))
    }
}

/// Why a command is not carried out.
#[derive(Debug)]
pub enum ChoiceError<S = String> {
    /// No grammar was named, to a command.
    NoName(S),
    /// There is no grammar by a name.
    Unknown(S),
    /// No grammar was named that is to be removed.
    NothingToRemove,
    /// There is no such command.
    UnknownCommand(S),
}

impl ChoiceError<Seq<char>> {
    pub open spec fn words(self) -> Seq<char> {
        match self {
            ChoiceError::NoName(cmd) => cmd + ": need at least one grammar name (or `--all`)"@,
            ChoiceError::Unknown(name) => "unknown grammar `"@ + name
                + "`. Try `vorto grammar list` to see built-ins."@,
            ChoiceError::NothingToRemove => "remove: need at least one grammar name"@,
            ChoiceError::UnknownCommand(cmd) => "unknown grammar subcommand: `"@ + cmd + "`"@,
        }
    }
}

impl View for ChoiceError {
    type V = ChoiceError<Seq<char>>;

    open spec fn view(&self) -> ChoiceError<Seq<char>> {
        match self {
            ChoiceError::NoName(s) => ChoiceError::NoName(s@),
            ChoiceError::Unknown(s) => ChoiceError::Unknown(s@),
            ChoiceError::NothingToRemove => ChoiceError::NothingToRemove,
            ChoiceError::UnknownCommand(s) => ChoiceError::UnknownCommand(s@),
        }
    }
}

impl ChoiceError {
    pub fn message(&self) -> (r: String)
        ensures
            r@ == self@.words(),
    {
        match self {
            ChoiceError::NoName(cmd) => {
                let mut s = cmd.clone();
                push_str(&mut s, ": need at least one grammar name (or `--all`)");
                s
            },
            ChoiceError::Unknown(name) => {
                let mut s = copy_str("unknown grammar `");
                push_str(&mut s, name.as_str());
                push_str(&mut s, "`. Try `vorto grammar list` to see built-ins.");
                s
            },
            ChoiceError::NothingToRemove => copy_str("remove: need at least one grammar name"),
            ChoiceError::UnknownCommand(cmd) => {
                let mut s = copy_str("unknown grammar subcommand: `");
                push_str(&mut s, cmd.as_str());
                push_str(&mut s, "`");
                s
            },
        }
    }
}

/// The first place of a name.
pub open spec fn place_of(names: Seq<Seq<char>>, name: Seq<char>, from: int) -> Option<int>
    decreases names.len() - from,
{
    if from < 0 || from >= names.len() {
        None
    } else if names[from] == name {
        Some(from)
    } else {
        place_of(names, name, from + 1)
    }
}

/// The places of the first `k` names, or the first name that has none.
pub open spec fn places_of(names: Seq<Seq<char>>, args: Seq<Seq<char>>, k: int) -> Result<Seq<int>, Seq<char>>
    decreases k,
{
    if k <= 0 {
        Ok(Seq::empty())
    } else {
        match places_of(names, args, k - 1) {
            Err(e) => Err(e),
            Ok(s) => match place_of(names, args[k - 1], 0) {
                Some(p) => Ok(s.push(p)),
                None => Err(args[k - 1]),
            },
        }
    }
}

/// The grammars that a command is for, by their places: all of them, or those
/// that are named.
pub open spec fn choice(names: Seq<Seq<char>>, args: Seq<Seq<char>>, cmd: Seq<char>) -> Result<
    Seq<int>,
    ChoiceError<Seq<char>>,
> {
    if args.len() == 0 {
        Err(ChoiceError::NoName(cmd))
    } else if args[0] == "--all"@ {
        Ok(Seq::new(names.len(), |i: int| i))
    } else {
        match places_of(names, args, args.len() as int) {
            Ok(s) => Ok(s),
            Err(name) => Err(ChoiceError::Unknown(name)),
        }
    }
}

pub open spec fn ints(v: Seq<usize>) -> Seq<int> {
    Seq::new(v.len(), |i: int| v[i] as int)
}

fn find_recipe(names: &Vec<String>, name: &str) -> (r: Option<usize>)
    ensures
        match (r, place_of(text_of(names@), name@, 0)) {
            (Some(a), Some(b)) => a == b,
            (None, None) => true,
            _ => false,
        },
{
    let ghost t = text_of(names@);
    let mut i: usize = 0;
    while i < names.len()
        invariant
            i <= names.len(),
            t == text_of(names@),
            place_of(t, name@, 0) == place_of(t, name@, i as int),
        decreases names.len() - i,
    {
        assert(t[i as int] == names@[i as int]@);
        if same_str(names[i].as_str(), name) {
            return Some(i);
        }
        i = i + 1;
    }
    None
}

proof fn lemma_error_stays(names: Seq<Seq<char>>, args: Seq<Seq<char>>, k: int, n: int)
    requires
        0 <= k <= n,
        places_of(names, args, k) is Err,
    ensures
        places_of(names, args, n) == places_of(names, args, k),
    decreases n - k,
{
    if k < n {
        lemma_error_stays(names, args, k, n - 1);
    }
}

/// The grammars that a command is for, by their places among the names.
pub fn choose_recipes(names: &Vec<String>, args: &Vec<String>, cmd: &str) -> (r: Result<Vec<usize>, ChoiceError>)
    ensures
        match (r, choice(text_of(names@), text_of(args@), cmd@)) {
            (Ok(a), Ok(b)) => ints(a@) == b,
            (Err(a), Err(b)) => a@ == b,
            _ => false,
        },
{
    let ghost n = text_of(names@);
    let ghost a = text_of(args@);
    assert(a.len() == args@.len());
    assert(n.len() == names@.len());
    if args.len() == 0 {
        return Err(ChoiceError::NoName(copy_str(cmd)));
    }
    let mut out: Vec<usize> = Vec::new();
    let mut i: usize = 0;
    assert(a[0] == args@[0]@);
    if same_str(args[0].as_str(), "--all") {
        while i < names.len()
            invariant
                i <= names.len(),
                out@.len() == i,
                forall|k: int| 0 <= k < i ==> out@[k] == k,
            decreases names.len() - i,
        {
            out.push(i);
            i = i + 1;
        }
        assert(ints(out@) =~= Seq::new(n.len(), |i: int| i));
        return Ok(out);
    }
    assert(ints(out@) =~= Seq::empty());
    while i < args.len()
        invariant
            i <= args.len(),
            n == text_of(names@),
            a == text_of(args@),
            a.len() == args@.len(),
            a.len() > 0,
            a[0] != "--all"@,
            places_of(n, a, i as int) == Ok::<Seq<int>, Seq<char>>(ints(out@)),
        decreases args.len() - i,
    {
        assert(a[i as int] == args@[i as int]@);
        match find_recipe(names, args[i].as_str()) {
            Some(p) => {
                let ghost before = out@;
                out.push(p);
                assert(ints(out@) =~= ints(before).push(p as int));
            },
            None => {
                proof {
                    lemma_error_stays(n, a, i + 1, a.len() as int);
                }
                return Err(ChoiceError::Unknown(args[i].clone()));
            },
        }
        i = i + 1;
    }
    Ok(out)
}

/// What a command line comes to. Grammars to install are given by their places
/// among the recipes.
#[derive(Debug)]
pub enum GrammarPlan<P = Vec<usize>, N = Vec<String>> {
    Help,
    List,
    Install(P),
    InstallQueries(P),
    Remove(N),
}

impl View for GrammarPlan {
    type V = GrammarPlan<Seq<int>, Seq<Seq<char>>>;

    open spec fn view(&self) -> GrammarPlan<Seq<int>, Seq<Seq<char>>> {
        match self {
            GrammarPlan::Help => GrammarPlan::Help,
            GrammarPlan::List => GrammarPlan::List,
            GrammarPlan::Install(p) => GrammarPlan::Install(ints(p@)),
            GrammarPlan::InstallQueries(p) => GrammarPlan::InstallQueries(ints(p@)),
            GrammarPlan::Remove(n) => GrammarPlan::Remove(text_of(n@)),
        }
    }
}

/// What a command line comes to, or why it comes to nothing.
pub open spec fn planned(names: Seq<Seq<char>>, args: Seq<Seq<char>>) -> Result<
    GrammarPlan<Seq<int>, Seq<Seq<char>>>,
    ChoiceError<Seq<char>>,
> {
    if args.len() == 0 {
        Ok(GrammarPlan::Help)
    } else {
        let rest = args.drop_first();
        match command_named(Some(args[0])) {
            GrammarCommand::Help => Ok(GrammarPlan::Help),
            GrammarCommand::List => Ok(GrammarPlan::List),
            GrammarCommand::Install => match choice(names, rest, "install"@) {
                Ok(p) => Ok(GrammarPlan::Install(p)),
                Err(e) => Err(e),
            },
            GrammarCommand::InstallQueries => match choice(names, rest, "install-queries"@) {
                Ok(p) => Ok(GrammarPlan::InstallQueries(p)),
                Err(e) => Err(e),
            },
            GrammarCommand::Remove => if rest.len() == 0 {
                Err(ChoiceError::NothingToRemove)
            } else {
                Ok(GrammarPlan::Remove(rest))
            },
            GrammarCommand::Unknown(w) => Err(ChoiceError::UnknownCommand(w)),
        }
    }
}

fn behind_first(args: &Vec<String>) -> (r: Vec<String>)
    requires
        args.len() > 0,
    ensures
        text_of(r@) == text_of(args@).drop_first(),
{
    let ghost t = text_of(args@).drop_first();
    let mut out: Vec<String> = Vec::new();
    let mut i: usize = 1;
    proof {
        assert(text_of(out@) =~= t.take(0));
    }
    while i < args.len()
        invariant
            1 <= i <= args.len(),
            t == text_of(args@).drop_first(),
            text_of(out@) == t.take(i - 1),
        decreases args.len() - i,
    {
        let ghost before = text_of(out@);
        out.push(args[i].clone());
        proof {
            assert(text_of(out@) =~= before.push(args@[i as int]@));
            assert(t.take(i as int) =~= t.take(i - 1).push(t[i - 1]));
        }
        i = i + 1;
    }
    proof {
        assert(t.take(i - 1) =~= t);
    }
    out
}

/// Reads a command line, everything behind the word that asks for grammars.
/// Nothing is to be done for one with an error: an unknown command, a command
/// without the names it needs, or a name that no recipe has.
pub fn plan_run(names: &Vec<String>, args: &Vec<String>) -> (r: Result<GrammarPlan, ChoiceError>)
    ensures
        match (r, planned(text_of(names@), text_of(args@))) {
            (Ok(a), Ok(b)) => a@ == b,
            (Err(a), Err(b)) => a@ == b,
            _ => false,
        },
{
    proof {
        assert(text_of(args@).len() == args@.len());
    }
    if args.len() == 0 {
        return Ok(GrammarPlan::Help);
    }
    assert(text_of(args@)[0] == args@[0]@);
    let rest = behind_first(args);
    match parse_command(args) {
        GrammarCommand::Help => Ok(GrammarPlan::Help),
        GrammarCommand::List => Ok(GrammarPlan::List),
        GrammarCommand::Install => match choose_recipes(names, &rest, "install") {
            Ok(p) => Ok(GrammarPlan::Install(p)),
            Err(e) => Err(e),
        },
        GrammarCommand::InstallQueries => match choose_recipes(names, &rest, "install-queries") {
            Ok(p) => Ok(GrammarPlan::InstallQueries(p)),
            Err(e) => Err(e),
        },
        GrammarCommand::Remove => {
            assert(text_of(rest@).len() == rest@.len());
            if rest.len() == 0 {
                Err(ChoiceError::NothingToRemove)
            } else {
                Ok(GrammarPlan::Remove(rest))
            }
        },
        GrammarCommand::Unknown(w) => Err(ChoiceError::UnknownCommand(w)),
    }
}

/// The first `k` texts with a text between them.
pub open spec fn listed(v: Seq<Seq<char>>, between: Seq<char>, k: int) -> Seq<char>
    decreases k,
{
    if k <= 0 {
        Seq::empty()
    } else if k == 1 {
        v[0]
    } else {
        listed(v, between, k - 1) + between + v[k - 1]
    }
}

/// Texts with a text between them.
pub fn list_names(v: &Vec<String>, between: &str) -> (r: String)
    ensures
        r@ == listed(text_of(v@), between@, v@.len() as int),
{
    let ghost t = text_of(v@);
    let mut s = String::new();
    proof {
        reveal_strlit("");
        assert(s@ =~= listed(t, between@, 0));
    }
    let mut i: usize = 0;
    while i < v.len()
        invariant
            i <= v.len(),
            t == text_of(v@),
            s@ == listed(t, between@, i as int),
        decreases v.len() - i,
    {
        assert(t[i as int] == v@[i as int]@);
        if i > 0 {
            push_str(&mut s, between);
        }
        push_str(&mut s, v[i].as_str());
        proof {
            if i == 0 {
                assert(s@ =~= t[0]);
            }
        }
        i = i + 1;
    }
    s
}

/// What a list says of the queries of a grammar.
pub open spec fn query_words(installed: Seq<Seq<char>>, bundled: Seq<Seq<char>>) -> Seq<char> {
    if installed.len() > 0 {
        "queries: "@ + listed(installed, ","@, installed.len() as int) + " (installed)"@
    } else if bundled.len() > 0 {
        "queries: "@ + listed(bundled, ","@, bundled.len() as int) + " (bundled, not installed)"@
    } else {
        "queries: none bundled"@
    }
}

/// What a list says of the queries of a grammar.
pub fn query_status(installed: &Vec<String>, bundled: &Vec<String>) -> (r: String)
    ensures
        r@ == query_words(text_of(installed@), text_of(bundled@)),
{
    assert(text_of(installed@).len() == installed@.len());
    assert(text_of(bundled@).len() == bundled@.len());
    if installed.len() > 0 {
        let mut s = copy_str("queries: ");
        push_str(&mut s, list_names(installed, ",").as_str());
        push_str(&mut s, " (installed)");
        s
    } else if bundled.len() > 0 {
        let mut s = copy_str("queries: ");
        push_str(&mut s, list_names(bundled, ",").as_str());
        push_str(&mut s, " (bundled, not installed)");
        s
    } else {
        copy_str("queries: none bundled")
    }
}

/// How a command ends: with an error where some grammars failed.
pub fn finish(done: &str, failures: &Vec<String>) -> (r: Result<(), String>)
    ensures
        match r {
            Ok(_) => failures@.len() == 0,
            Err(m) => failures@.len() > 0 && m@ == "failed to "@ + done@ + ": "@ + listed(
                text_of(failures@),
                ", "@,
                failures@.len() as int,
            ),
        },
{
    if failures.len() == 0 {
        return Ok(());
    }
    let mut s = copy_str("failed to ");
    push_str(&mut s, done);
    push_str(&mut s, ": ");
    push_str(&mut s, list_names(failures, ", ").as_str());
    Err(s)
}

} // verus!
