//! Configuration.
use vstd::prelude::*;
use crate::keys::{KeyCode, KeyModifiers};
use crate::text::{copy_str, opt_str, push_str};

pub mod command;
pub mod cursor;
pub mod editor;
pub mod keymap;
pub mod keys;
pub mod languages;
pub mod laws;
pub mod table_laws;

use crate::action::Token;
use cursor::CursorShapes;
use editor::EditorConfig;
use keymap::{KeySig, Keymap, LEADER};
use languages::LanguageRegistry;
use keys::{action_to_token, action_token, key_sequence, parse_sequence, BindError};

verus! {

/// A binding as the user wrote it: the notation of its keys and the name of
/// an action.
#[derive(Debug)]
pub struct Binding {
    pub keys: String,
    pub action: String,
}

/// The settings that the editor runs with.
#[derive(Debug)]
pub struct Config {
    pub keymap: Keymap,
    pub cursor: CursorShapes,
    pub editor: EditorConfig,
    pub languages: LanguageRegistry,
    pub grammar_dir: String,
    pub query_dir: String,
}

impl Config {
    pub open spec fn wf(self) -> bool {
        self.keymap.wf() && self.languages.wf()
    }
}

/// The first binding that cannot be used, and why.
#[derive(Debug)]
pub struct ApplyError {
    pub index: usize,
    pub keys: String,
    pub action: String,
    pub cause: BindError,
}

/// What a binding does: whether it goes behind the leader, its key and its
/// token.
pub open spec fn bind_effect(keys: Seq<char>, action: Seq<char>) -> Result<(bool, KeySig, Token), BindError<Seq<char>>> {
    match key_sequence(keys) {
        Err(e) => Err(e),
        Ok(s) => match action_token(action) {
            None => Err(BindError::UnknownAction(action)),
            Some(t) => if s.len() == 1 {
                Ok((false, s[0], t))
            } else if s.len() == 2 {
                if s[0].code == KeyCode::Char(LEADER) && s[0].modifiers == KeyModifiers::spec_none() {
                    Ok((true, s[1], t))
                } else {
                    Err(BindError::OnlyLeaderPairs(keys))
                }
            } else {
                Err(BindError::TooLong(keys))
            },
        },
    }
}

/// What a key is bound to after the first `k` bindings: the last of them that
/// binds it counts.
pub open spec fn bound_after(binds: Seq<Binding>, k: int, leader: bool, sig: KeySig, before: Option<Token>) -> Option<
    Token,
>
    decreases k,
{
    if k <= 0 {
        before
    } else {
        match bind_effect(binds[k - 1].keys@, binds[k - 1].action@) {
            Ok((l, s, t)) => if l == leader && s == sig {
                Some(t)
            } else {
                bound_after(binds, k - 1, leader, sig, before)
            },
            Err(_) => bound_after(binds, k - 1, leader, sig, before),
        }
    }
}

/// Installs one binding.
pub fn install_binding(keymap: &mut Keymap, keys: &str, action: &str) -> (r: Result<(), BindError>)
    requires
        old(keymap).wf(),
    ensures
        final(keymap).wf(),
        match (r, bind_effect(keys@, action@)) {
            (Ok(_), Ok((leader, sig, token))) => {
                &&& forall|s: KeySig|
                    #[trigger] final(keymap).initial.at(s) == if !leader && s == sig {
                        Some(token)
                    } else {
                        old(keymap).initial.at(s)
                    }
                &&& forall|s: KeySig|
                    #[trigger] final(keymap).leader.at(s) == if leader && s == sig {
                        Some(token)
                    } else {
                        old(keymap).leader.at(s)
                    }
            },
            (Err(a), Err(b)) => a@ == b && *final(keymap) == *old(keymap),
            _ => false,
        },
{
    let sequence = match parse_sequence(keys) {
        Ok(s) => s,
        Err(e) => return Err(e),
    };
    let token = match action_to_token(action) {
        Some(t) => t,
        None => return Err(BindError::UnknownAction(copy_str(action))),
    };
    if sequence.len() == 1 {
        keymap.bind_initial(sequence[0], token);
        Ok(())
    } else if sequence.len() == 2 {
        let first = sequence[0];
        if first.code == KeyCode::Char(LEADER) && first.modifiers == KeyModifiers::none() {
            keymap.bind_leader(sequence[1], token);
            Ok(())
        } else {
            Err(BindError::OnlyLeaderPairs(copy_str(keys)))
        }
    } else {
        Err(BindError::TooLong(copy_str(keys)))
    }
}

/// Installs the user's bindings in order, up to the first that cannot be
/// used.
pub fn apply(binds: &Vec<Binding>, keymap: &mut Keymap) -> (r: Result<(), ApplyError>)
    requires
        old(keymap).wf(),
    ensures
        final(keymap).wf(),
        ({
            let n = match r {
                Ok(_) => binds.len() as int,
                Err(e) => e.index as int,
            };
            &&& 0 <= n <= binds.len()
            &&& forall|i: int| 0 <= i < n ==> bind_effect((#[trigger] binds@[i]).keys@, binds@[i].action@) is Ok
            &&& forall|s: KeySig|
                #[trigger] final(keymap).initial.at(s) == bound_after(binds@, n, false, s, old(keymap).initial.at(s))
            &&& forall|s: KeySig|
                #[trigger] final(keymap).leader.at(s) == bound_after(binds@, n, true, s, old(keymap).leader.at(s))
        }),
        r matches Err(e) ==> {
            &&& e.index < binds.len()
            &&& e.keys@ == binds@[e.index as int].keys@
            &&& e.action@ == binds@[e.index as int].action@
            &&& bind_effect(e.keys@, e.action@) == Err::<(bool, KeySig, Token), BindError<Seq<char>>>(e.cause@)
        },
{
    let mut i: usize = 0;
    while i < binds.len()
        invariant
            i <= binds.len(),
            keymap.wf(),
            forall|k: int| 0 <= k < i ==> bind_effect((#[trigger] binds@[k]).keys@, binds@[k].action@) is Ok,
            forall|s: KeySig|
                #[trigger] keymap.initial.at(s) == bound_after(
                    binds@,
                    i as int,
                    false,
                    s,
                    old(keymap).initial.at(s),
                ),
            forall|s: KeySig|
                #[trigger] keymap.leader.at(s) == bound_after(binds@, i as int, true, s, old(keymap).leader.at(s)),
        decreases binds.len() - i,
    {
        let ghost before = *keymap;
        match install_binding(keymap, binds[i].keys.as_str(), binds[i].action.as_str()) {
            Ok(_) => {
                proof {
                    assert forall|s: KeySig|
                        #[trigger] keymap.initial.at(s) == bound_after(
                            binds@,
                            i + 1,
                            false,
                            s,
                            old(keymap).initial.at(s),
                        ) by {
                        let b = before.initial.at(s);
                    }
                    assert forall|s: KeySig|
                        #[trigger] keymap.leader.at(s) == bound_after(
                            binds@,
                            i + 1,
                            true,
                            s,
                            old(keymap).leader.at(s),
                        ) by {
                        let b = before.leader.at(s);
                    }
                }
            },
            Err(cause) => {
                return Err(
                    ApplyError { index: i, keys: binds[i].keys.clone(), action: binds[i].action.clone(), cause },
                );
            },
        }
        i = i + 1;
    }
    Ok(())
}

/// The user's directories of the environment.
#[derive(Debug)]
pub struct Dirs {
    /// `$XDG_CONFIG_HOME`.
    pub xdg: Option<String>,
    /// `$HOME`.
    pub home: Option<String>,
}

/// `name` below the directory `dir`.
pub open spec fn below(dir: Seq<char>, name: Seq<char>) -> Seq<char> {
    dir + "/"@ + name
}

fn join_path(dir: &str, name: &str) -> (r: String)
    ensures
        r@ == below(dir@, name@),
{
    let mut s = copy_str(dir);
    push_str(&mut s, "/");
    push_str(&mut s, name);
    s
}

/// Where a subdirectory of the configuration lies by default.
pub open spec fn subdir(dirs: Dirs, name: Seq<char>) -> Seq<char> {
    match (dirs.xdg, dirs.home) {
        (Some(x), _) => below(below(x@, "vorto"@), name),
        (None, Some(h)) => below(below(h@, ".config/vorto"@), name),
        (None, None) => name,
    }
}

/// Where a subdirectory of the configuration lies by default.
pub fn default_subdir(dirs: &Dirs, name: &str) -> (r: String)
    ensures
        r@ == subdir(*dirs, name@),
{
    match (&dirs.xdg, &dirs.home) {
        (Some(x), _) => {
            let d = join_path(x.as_str(), "vorto");
            join_path(d.as_str(), name)
        },
        (None, Some(h)) => {
            let d = join_path(h.as_str(), ".config/vorto");
            join_path(d.as_str(), name)
        },
        (None, None) => copy_str(name),
    }
}

/// The directory of the grammar libraries: the user's, else the default one.
pub fn grammar_dir(set: &Option<String>, dirs: &Dirs) -> (r: String)
    ensures
        r@ == match *set {
            Some(d) => d@,
            None => subdir(*dirs, "grammars"@),
        },
{
    match set {
        Some(d) => d.clone(),
        None => default_subdir(dirs, "grammars"),
    }
}

/// The directory of the queries: the user's, else the default one.
pub fn query_dir(set: &Option<String>, dirs: &Dirs) -> (r: String)
    ensures
        r@ == match *set {
            Some(d) => d@,
            None => subdir(*dirs, "queries"@),
        },
{
    match set {
        Some(d) => d.clone(),
        None => default_subdir(dirs, "queries"),
    }
}

/// The path of the configuration file: below `$XDG_CONFIG_HOME` where that is
/// set, else below `$HOME`.
pub fn default_path(dirs: &Dirs) -> (r: Option<String>)
    ensures
        opt_str(r) == match (dirs.xdg, dirs.home) {
            (Some(x), _) => Some(below(x@, "vorto/config.toml"@)),
            (None, Some(h)) => Some(below(h@, ".config/vorto/config.toml"@)),
            (None, None) => None,
        },
{
    if let Some(x) = &dirs.xdg {
        return Some(join_path(x.as_str(), "vorto/config.toml"));
    }
    match &dirs.home {
        Some(h) => Some(join_path(h.as_str(), ".config/vorto/config.toml")),
        None => None,
    }
}

} // verus!
