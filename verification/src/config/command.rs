//! The commands of the `:` prompt.
use vstd::prelude::*;
use crate::action::DirectKind;
use crate::text::{same_str, shape};

verus! {

/// A command: its names, what it does and whether it takes a path.
#[derive(Debug)]
pub struct CommandBind {
    /// The name that hints show.
    pub name: &'static str,
    /// Other names of the same command.
    pub aliases: Vec<&'static str>,
    pub description: &'static str,
    pub kind: DirectKind,
    /// Whether the argument is a path, so that paths are offered for it.
    pub takes_path: bool,
}

/// The content of a command's row.
#[verifier::ext_equal]
pub struct CommandView {
    pub name: Seq<char>,
    pub aliases: Seq<Seq<char>>,
    pub description: Seq<char>,
    pub kind: DirectKind,
    pub takes_path: bool,
}

pub open spec fn names_of(v: Seq<&'static str>) -> Seq<Seq<char>> {
    Seq::new(v.len(), |i: int| v[i]@)
}

impl View for CommandBind {
    type V = CommandView;

    open spec fn view(&self) -> CommandView {
        CommandView {
            name: self.name@,
            aliases: names_of(self.aliases@),
            description: self.description@,
            kind: self.kind,
            takes_path: self.takes_path,
        }
    }
}

pub open spec fn commands_of(v: Seq<CommandBind>) -> Seq<CommandView> {
    Seq::new(v.len(), |i: int| v[i]@)
}

pub open spec fn row(
    name: Seq<char>,
    aliases: Seq<Seq<char>>,
    description: Seq<char>,
    kind: DirectKind,
    takes_path: bool,
) -> CommandView {
    CommandView { name, aliases, description, kind, takes_path }
}

/// All commands.
pub open spec fn command_table() -> Seq<CommandView> {
    seq![
        row("q"@, seq!["quit"@], "quit"@, DirectKind::Quit, false),
        row("q!"@, seq!["quit!"@], "force quit"@, DirectKind::QuitForce, false),
        row("w"@, seq!["write"@], "save (or :w <path>)"@, DirectKind::Save, true),
        row("w!"@, seq!["write!"@], "save, creating dirs"@, DirectKind::SaveForce, true),
        row("wq"@, seq!["x"@], "save & quit"@, DirectKind::SaveAndQuit, true),
        row("e"@, seq!["edit"@], "open <path>"@, DirectKind::Open, true),
        row("bn"@, seq!["bnext"@], "next buffer"@, DirectKind::BufferNext, false),
        row("bp"@, seq!["bprev"@], "previous buffer"@, DirectKind::BufferPrev, false),
        row("bd"@, seq!["bdelete"@], "delete buffer"@, DirectKind::BufferDelete, false),
        row("bd!"@, seq!["bdelete!"@, "bc"@, "bc!"@], "force delete buffer"@, DirectKind::BufferDeleteForce, false),
        row("bca"@, seq!["bca!"@], "force delete all buffers"@, DirectKind::BufferDeleteAll, false),
        row("bls"@, seq!["buffers"@], "buffer picker"@, DirectKind::BufferList, false),
        row("new"@, seq!["enew"@], "new scratch buffer"@, DirectKind::NewScratchBuffer, false),
        row("goto"@, Seq::empty(), "go to line <n>"@, DirectKind::GotoLine, false),
        row("log"@, Seq::empty(), "open debug log file"@, DirectKind::OpenLog, false),
        row("lsp"@, Seq::empty(), "show LSP for current buffer (:lsp all for every language)"@, DirectKind::LspStatus, false),
        row("reload"@, seq!["e!"@], "reload buffer from disk (undo restores)"@, DirectKind::Reload, false),
        row("reload-all"@, Seq::empty(), "reload every file-backed buffer"@, DirectKind::ReloadAll, false),
        row("noh"@, seq!["nohl"@, "nohlsearch"@], "clear search highlight"@, DirectKind::ClearSearch, false),
        row("split"@, seq!["sp"@, "nh"@], "split pane below"@, DirectKind::SplitWindowHorizontal, false),
        row("vsplit"@, seq!["vsp"@, "vs"@, "nv"@], "split pane right"@, DirectKind::SplitWindowVertical, false),
        row("close"@, seq!["clo"@], "close active pane"@, DirectKind::CloseWindow, false),
        row("only"@, seq!["on"@], "(future) close all but active pane"@, DirectKind::CloseWindow, false),
    ]
}

impl CommandView {
    pub open spec fn called(self, name: Seq<char>) -> bool {
        self.name == name || self.aliases.contains(name)
    }
}

/// The first command from row `k` on that goes by a name.
pub open spec fn command_named(t: Seq<CommandView>, name: Seq<char>, k: int) -> Option<CommandView>
    decreases t.len() - k,
{
    if k < 0 || k >= t.len() {
        None
    } else if t[k].called(name) {
        Some(t[k])
    } else {
        command_named(t, name, k + 1)
    }
}

fn add0(t: &mut Vec<CommandBind>, name: &'static str, description: &'static str, kind: DirectKind, takes_path: bool)
    ensures
        commands_of(final(t)@) == commands_of(old(t)@).push(row(name@, Seq::empty(), description@, kind, takes_path)),
{
    let mut aliases: Vec<&'static str> = Vec::new();
    proof {
        assert(names_of(aliases@) =~= Seq::<Seq<char>>::empty());
    }
    t.push(CommandBind { name, aliases, description, kind, takes_path });
    proof {
        assert(commands_of(t@) =~= commands_of(old(t)@).push(row(name@, Seq::empty(), description@, kind, takes_path)));
    }
}

fn add1(t: &mut Vec<CommandBind>, name: &'static str, a0: &'static str, description: &'static str, kind: DirectKind, takes_path: bool)
    ensures
        commands_of(final(t)@) == commands_of(old(t)@).push(row(name@, seq![a0@], description@, kind, takes_path)),
{
    let mut aliases: Vec<&'static str> = Vec::new();
    aliases.push(a0);
    proof {
        assert(names_of(aliases@) =~= seq![a0@]);
    }
    t.push(CommandBind { name, aliases, description, kind, takes_path });
    proof {
        assert(commands_of(t@) =~= commands_of(old(t)@).push(row(name@, seq![a0@], description@, kind, takes_path)));
    }
}

fn add2(t: &mut Vec<CommandBind>, name: &'static str, a0: &'static str, a1: &'static str, description: &'static str, kind: DirectKind, takes_path: bool)
    ensures
        commands_of(final(t)@) == commands_of(old(t)@).push(row(name@, seq![a0@, a1@], description@, kind, takes_path)),
{
    let mut aliases: Vec<&'static str> = Vec::new();
    aliases.push(a0);
    aliases.push(a1);
    proof {
        assert(names_of(aliases@) =~= seq![a0@, a1@]);
    }
    t.push(CommandBind { name, aliases, description, kind, takes_path });
    proof {
        assert(commands_of(t@) =~= commands_of(old(t)@).push(row(name@, seq![a0@, a1@], description@, kind, takes_path)));
    }
}

fn add3(t: &mut Vec<CommandBind>, name: &'static str, a0: &'static str, a1: &'static str, a2: &'static str, description: &'static str, kind: DirectKind, takes_path: bool)
    ensures
        commands_of(final(t)@) == commands_of(old(t)@).push(row(name@, seq![a0@, a1@, a2@], description@, kind, takes_path)),
{
    let mut aliases: Vec<&'static str> = Vec::new();
    aliases.push(a0);
    aliases.push(a1);
    aliases.push(a2);
    proof {
        assert(names_of(aliases@) =~= seq![a0@, a1@, a2@]);
    }
    t.push(CommandBind { name, aliases, description, kind, takes_path });
    proof {
        assert(commands_of(t@) =~= commands_of(old(t)@).push(row(name@, seq![a0@, a1@, a2@], description@, kind, takes_path)));
    }
}

/// All commands.
pub fn command_binds() -> (r: Vec<CommandBind>)
    ensures
        commands_of(r@) == command_table(),
{
    let mut t: Vec<CommandBind> = Vec::new();
    proof {
        assert(commands_of(t@) =~= Seq::<CommandView>::empty());
    }
    add1(&mut t, "q", "quit", "quit", DirectKind::Quit, false);
    add1(&mut t, "q!", "quit!", "force quit", DirectKind::QuitForce, false);
    add1(&mut t, "w", "write", "save (or :w <path>)", DirectKind::Save, true);
    add1(&mut t, "w!", "write!", "save, creating dirs", DirectKind::SaveForce, true);
    add1(&mut t, "wq", "x", "save & quit", DirectKind::SaveAndQuit, true);
    add1(&mut t, "e", "edit", "open <path>", DirectKind::Open, true);
    add1(&mut t, "bn", "bnext", "next buffer", DirectKind::BufferNext, false);
    add1(&mut t, "bp", "bprev", "previous buffer", DirectKind::BufferPrev, false);
    add1(&mut t, "bd", "bdelete", "delete buffer", DirectKind::BufferDelete, false);
    add3(&mut t, "bd!", "bdelete!", "bc", "bc!", "force delete buffer", DirectKind::BufferDeleteForce, false);
    add1(&mut t, "bca", "bca!", "force delete all buffers", DirectKind::BufferDeleteAll, false);
    add1(&mut t, "bls", "buffers", "buffer picker", DirectKind::BufferList, false);
    add1(&mut t, "new", "enew", "new scratch buffer", DirectKind::NewScratchBuffer, false);
    add0(&mut t, "goto", "go to line <n>", DirectKind::GotoLine, false);
    add0(&mut t, "log", "open debug log file", DirectKind::OpenLog, false);
    add0(&mut t, "lsp", "show LSP for current buffer (:lsp all for every language)", DirectKind::LspStatus, false);
    add1(&mut t, "reload", "e!", "reload buffer from disk (undo restores)", DirectKind::Reload, false);
    add0(&mut t, "reload-all", "reload every file-backed buffer", DirectKind::ReloadAll, false);
    add2(&mut t, "noh", "nohl", "nohlsearch", "clear search highlight", DirectKind::ClearSearch, false);
    add2(&mut t, "split", "sp", "nh", "split pane below", DirectKind::SplitWindowHorizontal, false);
    add3(&mut t, "vsplit", "vsp", "vs", "nv", "split pane right", DirectKind::SplitWindowVertical, false);
    add1(&mut t, "close", "clo", "close active pane", DirectKind::CloseWindow, false);
    add1(&mut t, "only", "on", "(future) close all but active pane", DirectKind::CloseWindow, false);
    t
}

impl CommandBind {
    /// The command that goes by a name.
    pub fn find(name: &str) -> (r: Option<CommandBind>)
        ensures
            match (r, command_named(command_table(), name@, 0)) {
                (Some(b), Some(v)) => b@ == v,
                (None, None) => true,
                _ => false,
            },
    {
        let mut t = command_binds();
        let mut i: usize = 0;
        while i < t.len()
            invariant
                i <= t.len(),
                commands_of(t@) == command_table(),
                command_named(command_table(), name@, 0) == command_named(command_table(), name@, i as int),
            decreases t.len() - i,
        {
            proof {
                assert(command_table()[i as int] == t@[i as int]@);
            }
            if t[i].is_called(name) {
                return Some(t.swap_remove(i));
            }
            i = i + 1;
        }
        None
    }

    /// Whether the command goes by a name.
    pub fn is_called(&self, name: &str) -> (r: bool)
        ensures
            r == self@.called(name@),
    {
        if same_str(self.name, name) {
            return true;
        }
        let mut i: usize = 0;
        while i < self.aliases.len()
            invariant
                i <= self.aliases.len(),
                self@.name != name@,
                forall|k: int| 0 <= k < i ==> #[trigger] self@.aliases[k] != name@,
            decreases self.aliases.len() - i,
        {
            if same_str(self.aliases[i], name) {
                proof {
                    assert(self@.aliases[i as int] == name@);
                }
                return true;
            }
            i = i + 1;
        }
        false
    }

    /// Every name of the command, the one that hints show first.
    pub fn all_names(&self) -> (r: Vec<&'static str>)
        ensures
            names_of(r@) == seq![self@.name] + self@.aliases,
    {
        let mut out: Vec<&'static str> = Vec::new();
        out.push(self.name);
        let mut i: usize = 0;
        while i < self.aliases.len()
            invariant
                i <= self.aliases.len(),
                out@ == seq![self.name] + self.aliases@.take(i as int),
            decreases self.aliases.len() - i,
        {
            out.push(self.aliases[i]);
            i = i + 1;
            proof {
                assert(out@ =~= seq![self.name] + self.aliases@.take(i as int));
            }
        }
        proof {
            assert(self.aliases@.take(i as int) =~= self.aliases@);
            assert(names_of(out@) =~= seq![self@.name] + self@.aliases);
        }
        out
    }
}

/// The row of the command table that has a name.
spec fn row_of(name: Seq<char>) -> int {
    if name == "q"@ || name == "quit"@ {
        0
    } else if name == "q!"@ || name == "quit!"@ {
        1
    } else if name == "w"@ || name == "write"@ {
        2
    } else if name == "w!"@ || name == "write!"@ {
        3
    } else if name == "wq"@ || name == "x"@ {
        4
    } else if name == "e"@ || name == "edit"@ {
        5
    } else if name == "bn"@ || name == "bnext"@ {
        6
    } else if name == "bp"@ || name == "bprev"@ {
        7
    } else if name == "bd"@ || name == "bdelete"@ {
        8
    } else if name == "bd!"@ || name == "bdelete!"@ || name == "bc"@ || name == "bc!"@ {
        9
    } else if name == "bca"@ || name == "bca!"@ {
        10
    } else if name == "bls"@ || name == "buffers"@ {
        11
    } else if name == "new"@ || name == "enew"@ {
        12
    } else if name == "goto"@ {
        13
    } else if name == "log"@ {
        14
    } else if name == "lsp"@ {
        15
    } else if name == "reload"@ || name == "e!"@ {
        16
    } else if name == "reload-all"@ {
        17
    } else if name == "noh"@ || name == "nohl"@ || name == "nohlsearch"@ {
        18
    } else if name == "split"@ || name == "sp"@ || name == "nh"@ {
        19
    } else if name == "vsplit"@ || name == "vsp"@ || name == "vs"@ || name == "nv"@ {
        20
    } else if name == "close"@ || name == "clo"@ {
        21
    } else if name == "only"@ || name == "on"@ {
        22
    } else {
        -1
    }
}

#[verifier::rlimit(40)]
proof fn lemma_row_of(k: int, name: Seq<char>)
    requires
        0 <= k < command_table().len(),
        command_table()[k].called(name),
    ensures
        row_of(name) == k,
{
    reveal_strlit("q");
    assert(shape("q"@) == (1nat, 'q', ' ', ' ', ' '));
    reveal_strlit("quit");
    assert(shape("quit"@) == (4nat, 'q', 'u', 'i', 't'));
    reveal_strlit("q!");
    assert(shape("q!"@) == (2nat, 'q', '!', ' ', ' '));
    reveal_strlit("quit!");
    assert(shape("quit!"@) == (5nat, 'q', 'u', 'i', 't'));
    reveal_strlit("w");
    assert(shape("w"@) == (1nat, 'w', ' ', ' ', ' '));
    reveal_strlit("write");
    assert(shape("write"@) == (5nat, 'w', 'r', 'i', 't'));
    reveal_strlit("w!");
    assert(shape("w!"@) == (2nat, 'w', '!', ' ', ' '));
    reveal_strlit("write!");
    assert(shape("write!"@) == (6nat, 'w', 'r', 'i', 't'));
    reveal_strlit("wq");
    assert(shape("wq"@) == (2nat, 'w', 'q', ' ', ' '));
    reveal_strlit("x");
    assert(shape("x"@) == (1nat, 'x', ' ', ' ', ' '));
    reveal_strlit("e");
    assert(shape("e"@) == (1nat, 'e', ' ', ' ', ' '));
    reveal_strlit("edit");
    assert(shape("edit"@) == (4nat, 'e', 'd', 'i', 't'));
    reveal_strlit("bn");
    assert(shape("bn"@) == (2nat, 'b', 'n', ' ', ' '));
    reveal_strlit("bnext");
    assert(shape("bnext"@) == (5nat, 'b', 'n', 'e', 'x'));
    reveal_strlit("bp");
    assert(shape("bp"@) == (2nat, 'b', 'p', ' ', ' '));
    reveal_strlit("bprev");
    assert(shape("bprev"@) == (5nat, 'b', 'p', 'r', 'e'));
    reveal_strlit("bd");
    assert(shape("bd"@) == (2nat, 'b', 'd', ' ', ' '));
    reveal_strlit("bdelete");
    assert(shape("bdelete"@) == (7nat, 'b', 'd', 'e', 'l'));
    reveal_strlit("bd!");
    assert(shape("bd!"@) == (3nat, 'b', 'd', '!', ' '));
    reveal_strlit("bdelete!");
    assert(shape("bdelete!"@) == (8nat, 'b', 'd', 'e', 'l'));
    reveal_strlit("bc");
    assert(shape("bc"@) == (2nat, 'b', 'c', ' ', ' '));
    reveal_strlit("bc!");
    assert(shape("bc!"@) == (3nat, 'b', 'c', '!', ' '));
    reveal_strlit("bca");
    assert(shape("bca"@) == (3nat, 'b', 'c', 'a', ' '));
    reveal_strlit("bca!");
    assert(shape("bca!"@) == (4nat, 'b', 'c', 'a', '!'));
    reveal_strlit("bls");
    assert(shape("bls"@) == (3nat, 'b', 'l', 's', ' '));
    reveal_strlit("buffers");
    assert(shape("buffers"@) == (7nat, 'b', 'u', 'f', 'f'));
    reveal_strlit("new");
    assert(shape("new"@) == (3nat, 'n', 'e', 'w', ' '));
    reveal_strlit("enew");
    assert(shape("enew"@) == (4nat, 'e', 'n', 'e', 'w'));
    reveal_strlit("goto");
    assert(shape("goto"@) == (4nat, 'g', 'o', 't', 'o'));
    reveal_strlit("log");
    assert(shape("log"@) == (3nat, 'l', 'o', 'g', ' '));
    reveal_strlit("lsp");
    assert(shape("lsp"@) == (3nat, 'l', 's', 'p', ' '));
    reveal_strlit("reload");
    assert(shape("reload"@) == (6nat, 'r', 'e', 'l', 'o'));
    reveal_strlit("e!");
    assert(shape("e!"@) == (2nat, 'e', '!', ' ', ' '));
    reveal_strlit("reload-all");
    assert(shape("reload-all"@) == (10nat, 'r', 'e', 'l', 'o'));
    reveal_strlit("noh");
    assert(shape("noh"@) == (3nat, 'n', 'o', 'h', ' '));
    reveal_strlit("nohl");
    assert(shape("nohl"@) == (4nat, 'n', 'o', 'h', 'l'));
    reveal_strlit("nohlsearch");
    assert(shape("nohlsearch"@) == (10nat, 'n', 'o', 'h', 'l'));
    reveal_strlit("split");
    assert(shape("split"@) == (5nat, 's', 'p', 'l', 'i'));
    reveal_strlit("sp");
    assert(shape("sp"@) == (2nat, 's', 'p', ' ', ' '));
    reveal_strlit("nh");
    assert(shape("nh"@) == (2nat, 'n', 'h', ' ', ' '));
    reveal_strlit("vsplit");
    assert(shape("vsplit"@) == (6nat, 'v', 's', 'p', 'l'));
    reveal_strlit("vsp");
    assert(shape("vsp"@) == (3nat, 'v', 's', 'p', ' '));
    reveal_strlit("vs");
    assert(shape("vs"@) == (2nat, 'v', 's', ' ', ' '));
    reveal_strlit("nv");
    assert(shape("nv"@) == (2nat, 'n', 'v', ' ', ' '));
    reveal_strlit("close");
    assert(shape("close"@) == (5nat, 'c', 'l', 'o', 's'));
    reveal_strlit("clo");
    assert(shape("clo"@) == (3nat, 'c', 'l', 'o', ' '));
    reveal_strlit("only");
    assert(shape("only"@) == (4nat, 'o', 'n', 'l', 'y'));
    reveal_strlit("on");
    assert(shape("on"@) == (2nat, 'o', 'n', ' ', ' '));
    let c = command_table()[k];
    if k == 0 {
        assert(c.aliases =~= seq!["quit"@]);
    } else if k == 1 {
        assert(c.aliases =~= seq!["quit!"@]);
    } else if k == 2 {
        assert(c.aliases =~= seq!["write"@]);
    } else if k == 3 {
        assert(c.aliases =~= seq!["write!"@]);
    } else if k == 4 {
        assert(c.aliases =~= seq!["x"@]);
    } else if k == 5 {
        assert(c.aliases =~= seq!["edit"@]);
    } else if k == 6 {
        assert(c.aliases =~= seq!["bnext"@]);
    } else if k == 7 {
        assert(c.aliases =~= seq!["bprev"@]);
    } else if k == 8 {
        assert(c.aliases =~= seq!["bdelete"@]);
    } else if k == 9 {
        assert(c.aliases =~= seq!["bdelete!"@, "bc"@, "bc!"@]);
    } else if k == 10 {
        assert(c.aliases =~= seq!["bca!"@]);
    } else if k == 11 {
        assert(c.aliases =~= seq!["buffers"@]);
    } else if k == 12 {
        assert(c.aliases =~= seq!["enew"@]);
    } else if k == 13 {
        assert(c.aliases =~= Seq::empty());
    } else if k == 14 {
        assert(c.aliases =~= Seq::empty());
    } else if k == 15 {
        assert(c.aliases =~= Seq::empty());
    } else if k == 16 {
        assert(c.aliases =~= seq!["e!"@]);
    } else if k == 17 {
        assert(c.aliases =~= Seq::empty());
    } else if k == 18 {
        assert(c.aliases =~= seq!["nohl"@, "nohlsearch"@]);
    } else if k == 19 {
        assert(c.aliases =~= seq!["sp"@, "nh"@]);
    } else if k == 20 {
        assert(c.aliases =~= seq!["vsp"@, "vs"@, "nv"@]);
    } else if k == 21 {
        assert(c.aliases =~= seq!["clo"@]);
    } else if k == 22 {
        assert(c.aliases =~= seq!["on"@]);
    }
}

proof fn lemma_command_named(t: Seq<CommandView>, name: Seq<char>, k: int)
    requires
        0 <= k <= t.len(),
    ensures
        match command_named(t, name, k) {
            Some(c) => exists|i: int| k <= i < t.len() && t[i] == c && #[trigger] t[i].called(name),
            None => forall|i: int| k <= i < t.len() ==> !#[trigger] t[i].called(name),
        },
    decreases t.len() - k,
{
    if k < t.len() && !t[k].called(name) {
        lemma_command_named(t, name, k + 1);
    }
}

/// No name is shared by two commands: whatever a command is called, looking
/// that name up gives that command. A name is found unless no command goes by
/// it.
pub proof fn law_names_are_distinct(k: int, name: Seq<char>)
    requires
        0 <= k < command_table().len(),
    ensures
        command_table()[k].called(name) ==> command_named(command_table(), name, 0) == Some(command_table()[k]),
        command_named(command_table(), name, 0) is None <==> forall|i: int|
            0 <= i < command_table().len() ==> !#[trigger] command_table()[i].called(name),
{
    let t = command_table();
    lemma_command_named(t, name, 0);
    if t[k].called(name) {
        lemma_row_of(k, name);
        assert forall|i: int| 0 <= i < t.len() && #[trigger] t[i].called(name) implies i == k by {
            lemma_row_of(i, name);
        }
    }
}

} // verus!
