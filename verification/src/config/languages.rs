//! Languages and language servers: the built-in ones and what the user lays
//! over them.
//!
//! A field that the user sets replaces the built-in one; a field that is left
//! out keeps it. The list of a language's servers is replaced whole.
use vstd::prelude::*;
use crate::config::editor::{set_or, EditorToml};
use crate::strmap::{lemma_entry_at, lemma_entry_index, StrMap};
use crate::text::{copy_lines, copy_str, opt_str, push_str, shape, text_of};

verus! {

/// A server entry as the user wrote it.
#[derive(Debug)]
pub struct LspToml<S = String, L = Vec<String>> {
    pub command: Option<S>,
    pub args: Option<L>,
    pub language_id: Option<S>,
    pub root_markers: Option<L>,
}

/// A language server.
#[derive(Debug)]
pub struct LspConfig<S = String, L = Vec<String>> {
    pub name: S,
    pub command: S,
    pub args: L,
    /// The language identifier that the server expects, where it is not the
    /// name of the language.
    pub language_id: Option<S>,
    /// Files that mark the root of a project.
    pub root_markers: L,
}

/// A formatter entry as the user wrote it.
#[derive(Debug)]
pub struct FormatterToml<S = String, L = Vec<String>> {
    pub command: Option<S>,
    pub args: Option<L>,
}

/// A program that formats a text from its input to its output.
#[derive(Debug)]
pub struct FormatterConfig<S = String, L = Vec<String>> {
    pub command: S,
    pub args: L,
}

/// A language entry, built in or as the user wrote it.
#[derive(Debug)]
pub struct LanguageConfig<S = String, L = Vec<String>> {
    pub extensions: Option<L>,
    pub grammar: Option<S>,
    pub grammar_dir: Option<S>,
    pub query_dir: Option<S>,
    pub comment_token: Option<S>,
    pub editor: EditorToml,
    pub lsp: Option<L>,
    pub formatter: Option<FormatterToml<S, L>>,
}

/// A language.
#[derive(Debug)]
pub struct Language<S = String, L = Vec<String>, C = Vec<LspConfig>> {
    pub name: S,
    pub extensions: L,
    pub grammar: S,
    pub grammar_dir: Option<S>,
    pub query_dir: Option<S>,
    pub comment_token: Option<S>,
    pub editor: EditorToml,
    pub lsp: C,
    pub formatter: Option<FormatterConfig<S, L>>,
}

/// The content of a server entry.
pub type LspTomlView = LspToml<Seq<char>, Seq<Seq<char>>>;

/// The content of a server.
pub type LspView = LspConfig<Seq<char>, Seq<Seq<char>>>;

/// The content of a language entry.
pub type EntryView = LanguageConfig<Seq<char>, Seq<Seq<char>>>;

/// The content of a language.
pub type LanguageView = Language<Seq<char>, Seq<Seq<char>>, Seq<LspView>>;

pub open spec fn opt_list(o: Option<Vec<String>>) -> Option<Seq<Seq<char>>> {
    match o {
        Some(v) => Some(text_of(v@)),
        None => None,
    }
}

impl View for LspToml {
    type V = LspTomlView;

    open spec fn view(&self) -> LspTomlView {
        LspToml {
            command: opt_str(self.command),
            args: opt_list(self.args),
            language_id: opt_str(self.language_id),
            root_markers: opt_list(self.root_markers),
        }
    }
}

impl View for LspConfig {
    type V = LspView;

    open spec fn view(&self) -> LspView {
        LspConfig {
            name: self.name@,
            command: self.command@,
            args: text_of(self.args@),
            language_id: opt_str(self.language_id),
            root_markers: text_of(self.root_markers@),
        }
    }
}

impl View for FormatterToml {
    type V = FormatterToml<Seq<char>, Seq<Seq<char>>>;

    open spec fn view(&self) -> FormatterToml<Seq<char>, Seq<Seq<char>>> {
        FormatterToml { command: opt_str(self.command), args: opt_list(self.args) }
    }
}

/// The content of a formatter.
pub type FormatterView = FormatterConfig<Seq<char>, Seq<Seq<char>>>;

impl FormatterConfig {
    pub fn copy(&self) -> (r: FormatterConfig)
        ensures
            r@ == self@,
    {
        FormatterConfig { command: self.command.clone(), args: crate::text::copy_lines(&self.args) }
    }
}

impl View for FormatterConfig {
    type V = FormatterConfig<Seq<char>, Seq<Seq<char>>>;

    open spec fn view(&self) -> FormatterConfig<Seq<char>, Seq<Seq<char>>> {
        FormatterConfig { command: self.command@, args: text_of(self.args@) }
    }
}

pub open spec fn opt_formatter(o: Option<FormatterToml>) -> Option<FormatterToml<Seq<char>, Seq<Seq<char>>>> {
    match o {
        Some(f) => Some(f@),
        None => None,
    }
}

impl View for LanguageConfig {
    type V = EntryView;

    open spec fn view(&self) -> EntryView {
        LanguageConfig {
            extensions: opt_list(self.extensions),
            grammar: opt_str(self.grammar),
            grammar_dir: opt_str(self.grammar_dir),
            query_dir: opt_str(self.query_dir),
            comment_token: opt_str(self.comment_token),
            editor: self.editor,
            lsp: opt_list(self.lsp),
            formatter: opt_formatter(self.formatter),
        }
    }
}

/// The contents of a list of servers.
pub open spec fn servers_of(v: Seq<LspConfig>) -> Seq<LspView> {
    Seq::new(v.len(), |i: int| v[i]@)
}

impl View for Language {
    type V = LanguageView;

    open spec fn view(&self) -> LanguageView {
        Language {
            name: self.name@,
            extensions: text_of(self.extensions@),
            grammar: self.grammar@,
            grammar_dir: opt_str(self.grammar_dir),
            query_dir: opt_str(self.query_dir),
            comment_token: opt_str(self.comment_token),
            editor: self.editor,
            lsp: servers_of(self.lsp@),
            formatter: match self.formatter {
                Some(f) => Some(f@),
                None => None,
            },
        }
    }
}

impl Default for LspToml {
    fn default() -> (r: LspToml)
        ensures
            r.command is None,
            r.args is None,
            r.language_id is None,
            r.root_markers is None,
    {
        LspToml { command: None, args: None, language_id: None, root_markers: None }
    }
}

impl Default for LanguageConfig {
    fn default() -> (r: LanguageConfig)
        ensures
            r@ == EntryView::nothing(),
    {
        LanguageConfig {
            extensions: None,
            grammar: None,
            grammar_dir: None,
            query_dir: None,
            comment_token: None,
            editor: EditorToml::default(),
            lsp: None,
            formatter: None,
        }
    }
}

/// Why the tables cannot be used.
#[derive(Debug)]
pub enum LanguageError<S = String> {
    /// A server that is not built in and has no command.
    MissingCommand { server: S },
    /// A language that names a server that does not exist.
    UnknownServer { language: S, server: S },
    /// A formatter without a command.
    FormatterWithoutCommand { language: S },
}

impl View for LanguageError {
    type V = LanguageError<Seq<char>>;

    open spec fn view(&self) -> LanguageError<Seq<char>> {
        match self {
            LanguageError::MissingCommand { server } => LanguageError::MissingCommand { server: server@ },
            LanguageError::UnknownServer { language, server } => LanguageError::UnknownServer {
                language: language@,
                server: server@,
            },
            LanguageError::FormatterWithoutCommand { language } => LanguageError::FormatterWithoutCommand {
                language: language@,
            },
        }
    }
}

impl LanguageError<Seq<char>> {
    /// The error in words.
    pub open spec fn words(self) -> Seq<char> {
        match self {
            LanguageError::MissingCommand { server } => "[lsp."@ + server
                + "] is a new server (no built-in to overlay onto) and must define `command`"@,
            LanguageError::UnknownServer { language, server } => "[languages."@ + language
                + "] references unknown server `"@ + server + "` — add a `[lsp."@ + server
                + "]` table or use one of the built-in names"@,
            LanguageError::FormatterWithoutCommand { language } => "[languages."@ + language
                + ".formatter] requires a `command` field"@,
        }
    }
}

impl LanguageError {
    /// The error in words.
    pub fn message(&self) -> (r: String)
        ensures
            r@ == self@.words(),
    {
        let mut s = String::new();
        match self {
            LanguageError::MissingCommand { server } => {
                push_str(&mut s, "[lsp.");
                push_str(&mut s, server.as_str());
                push_str(&mut s, "] is a new server (no built-in to overlay onto) and must define `command`");
            },
            LanguageError::UnknownServer { language, server } => {
                push_str(&mut s, "[languages.");
                push_str(&mut s, language.as_str());
                push_str(&mut s, "] references unknown server `");
                push_str(&mut s, server.as_str());
                push_str(&mut s, "` — add a `[lsp.");
                push_str(&mut s, server.as_str());
                push_str(&mut s, "]` table or use one of the built-in names");
            },
            LanguageError::FormatterWithoutCommand { language } => {
                push_str(&mut s, "[languages.");
                push_str(&mut s, language.as_str());
                push_str(&mut s, ".formatter] requires a `command` field");
            },
        }
        proof {
            assert(s@ =~= self@.words());
        }
        s
    }
}

/// What is set, else what was there.
pub open spec fn over<T>(before: Option<T>, set: Option<T>) -> Option<T> {
    match set {
        Some(v) => Some(v),
        None => before,
    }
}

impl<S, L> LspConfig<S, L> {
    pub open spec fn overlaid(self, user: LspToml<S, L>) -> LspConfig<S, L> {
        LspConfig {
            name: self.name,
            command: set_or(user.command, self.command),
            args: set_or(user.args, self.args),
            language_id: over(self.language_id, user.language_id),
            root_markers: set_or(user.root_markers, self.root_markers),
        }
    }
}

pub open spec fn over_editor(a: EditorToml, b: EditorToml) -> EditorToml {
    EditorToml {
        indent_width: over(a.indent_width, b.indent_width),
        tab_width: over(a.tab_width, b.tab_width),
        use_tabs: over(a.use_tabs, b.use_tabs),
        show_whitespace: over(a.show_whitespace, b.show_whitespace),
        format_on_save: over(a.format_on_save, b.format_on_save),
        indent_guides: over(a.indent_guides, b.indent_guides),
        indent_guides_skip_levels: over(a.indent_guides_skip_levels, b.indent_guides_skip_levels),
        indent_guide_style: over(a.indent_guide_style, b.indent_guide_style),
    }
}

impl<S, L> LanguageConfig<S, L> {
    pub open spec fn nothing() -> LanguageConfig<S, L> {
        LanguageConfig {
            extensions: None,
            grammar: None,
            grammar_dir: None,
            query_dir: None,
            comment_token: None,
            editor: EditorToml::nothing(),
            lsp: None,
            formatter: None,
        }
    }

    pub open spec fn overlaid(self, user: LanguageConfig<S, L>) -> LanguageConfig<S, L> {
        LanguageConfig {
            extensions: over(self.extensions, user.extensions),
            grammar: over(self.grammar, user.grammar),
            grammar_dir: over(self.grammar_dir, user.grammar_dir),
            query_dir: over(self.query_dir, user.query_dir),
            comment_token: over(self.comment_token, user.comment_token),
            editor: over_editor(self.editor, user.editor),
            lsp: over(self.lsp, user.lsp),
            formatter: over(self.formatter, user.formatter),
        }
    }
}

/// Laying nothing over an entry changes nothing; laying the same over it
/// twice is the same as once; what is set wins.
pub proof fn law_language_overlay<S, L>(base: LanguageConfig<S, L>, user: LanguageConfig<S, L>)
    ensures
        base.overlaid(LanguageConfig::nothing()) == base,
        base.overlaid(user).overlaid(user) == base.overlaid(user),
        LanguageConfig::nothing().overlaid(user) == user,
{
}

impl LspConfig {
    /// Replaces the fields that `user` sets.
    pub fn overlay(&mut self, user: LspToml)
        ensures
            final(self)@ == old(self)@.overlaid(user@),
    {
        let LspToml { command, args, language_id, root_markers } = user;
        if let Some(c) = command {
            self.command = c;
        }
        if let Some(a) = args {
            self.args = a;
        }
        if language_id.is_some() {
            self.language_id = language_id;
        }
        if let Some(r) = root_markers {
            self.root_markers = r;
        }
    }

    /// A server that is not built in. It needs a command.
    pub fn from_user(name: &str, user: LspToml) -> (r: Result<LspConfig, LanguageError>)
        ensures
            match (r, new_server(name@, user@)) {
                (Ok(a), Ok(b)) => a@ == b,
                (Err(a), Err(b)) => a@ == b,
                _ => false,
            },
    {
        let LspToml { command, args, language_id, root_markers } = user;
        match command {
            None => Err(LanguageError::MissingCommand { server: copy_str(name) }),
            Some(command) => {
                let args = match args {
                    Some(a) => a,
                    None => list0(),
                };
                let root_markers = match root_markers {
                    Some(a) => a,
                    None => list0(),
                };
                Ok(LspConfig { name: copy_str(name), command, args, language_id, root_markers })
            },
        }
    }

    /// A copy of the server.
    pub fn copy(&self) -> (r: LspConfig)
        ensures
            r@ == self@,
    {
        LspConfig {
            name: self.name.clone(),
            command: self.command.clone(),
            args: copy_lines(&self.args),
            language_id: copy_opt(&self.language_id),
            root_markers: copy_lines(&self.root_markers),
        }
    }
}

pub open spec fn new_server(name: Seq<char>, user: LspTomlView) -> Result<LspView, LanguageError<Seq<char>>> {
    match user.command {
        None => Err(LanguageError::MissingCommand { server: name }),
        Some(command) => Ok(
            LspConfig {
                name,
                command,
                args: set_or(user.args, Seq::empty()),
                language_id: user.language_id,
                root_markers: set_or(user.root_markers, Seq::empty()),
            },
        ),
    }
}

fn copy_opt(o: &Option<String>) -> (r: Option<String>)
    ensures
        opt_str(r) == opt_str(*o),
{
    match o {
        Some(s) => Some(s.clone()),
        None => None,
    }
}

impl LanguageConfig {
    /// Replaces the fields that `user` sets; the settings of the editor one
    /// by one, the servers and the formatter as a whole.
    pub fn overlay(&mut self, user: LanguageConfig)
        ensures
            final(self)@ == old(self)@.overlaid(user@),
    {
        let extensions = self.extensions.take();
        self.extensions = pick(extensions, user.extensions);
        let grammar = self.grammar.take();
        self.grammar = pick(grammar, user.grammar);
        let grammar_dir = self.grammar_dir.take();
        self.grammar_dir = pick(grammar_dir, user.grammar_dir);
        let query_dir = self.query_dir.take();
        self.query_dir = pick(query_dir, user.query_dir);
        let comment_token = self.comment_token.take();
        self.comment_token = pick(comment_token, user.comment_token);
        self.editor = pick_editor(self.editor, user.editor);
        let lsp = self.lsp.take();
        self.lsp = pick(lsp, user.lsp);
        let formatter = self.formatter.take();
        self.formatter = pick(formatter, user.formatter);
    }
}

fn pick<T>(before: Option<T>, set: Option<T>) -> (r: Option<T>)
    ensures
        r == over(before, set),
{
    match set {
        Some(v) => Some(v),
        None => before,
    }
}

fn pick_editor(a: EditorToml, b: EditorToml) -> (r: EditorToml)
    ensures
        r == over_editor(a, b),
{
    EditorToml {
        indent_width: pick(a.indent_width, b.indent_width),
        tab_width: pick(a.tab_width, b.tab_width),
        use_tabs: pick(a.use_tabs, b.use_tabs),
        show_whitespace: pick(a.show_whitespace, b.show_whitespace),
        format_on_save: pick(a.format_on_save, b.format_on_save),
        indent_guides: pick(a.indent_guides, b.indent_guides),
        indent_guides_skip_levels: pick(a.indent_guides_skip_levels, b.indent_guides_skip_levels),
        indent_guide_style: pick(a.indent_guide_style, b.indent_guide_style),
    }
}

fn list0() -> (r: Vec<String>)
    ensures
        text_of(r@) == Seq::<Seq<char>>::empty(),
{
    let mut v: Vec<String> = Vec::new();
    proof {
        assert(text_of(v@) =~= Seq::<Seq<char>>::empty());
    }
    v
}

fn list1(a0: &str) -> (r: Vec<String>)
    ensures
        text_of(r@) == seq![a0@],
{
    let mut v: Vec<String> = Vec::new();
    v.push(copy_str(a0));
    proof {
        assert(text_of(v@) =~= seq![a0@]);
    }
    v
}

fn list2(a0: &str, a1: &str) -> (r: Vec<String>)
    ensures
        text_of(r@) == seq![a0@, a1@],
{
    let mut v: Vec<String> = Vec::new();
    v.push(copy_str(a0));
    v.push(copy_str(a1));
    proof {
        assert(text_of(v@) =~= seq![a0@, a1@]);
    }
    v
}

fn list3(a0: &str, a1: &str, a2: &str) -> (r: Vec<String>)
    ensures
        text_of(r@) == seq![a0@, a1@, a2@],
{
    let mut v: Vec<String> = Vec::new();
    v.push(copy_str(a0));
    v.push(copy_str(a1));
    v.push(copy_str(a2));
    proof {
        assert(text_of(v@) =~= seq![a0@, a1@, a2@]);
    }
    v
}

fn list4(a0: &str, a1: &str, a2: &str, a3: &str) -> (r: Vec<String>)
    ensures
        text_of(r@) == seq![a0@, a1@, a2@, a3@],
{
    let mut v: Vec<String> = Vec::new();
    v.push(copy_str(a0));
    v.push(copy_str(a1));
    v.push(copy_str(a2));
    v.push(copy_str(a3));
    proof {
        assert(text_of(v@) =~= seq![a0@, a1@, a2@, a3@]);
    }
    v
}

fn list5(a0: &str, a1: &str, a2: &str, a3: &str, a4: &str) -> (r: Vec<String>)
    ensures
        text_of(r@) == seq![a0@, a1@, a2@, a3@, a4@],
{
    let mut v: Vec<String> = Vec::new();
    v.push(copy_str(a0));
    v.push(copy_str(a1));
    v.push(copy_str(a2));
    v.push(copy_str(a3));
    v.push(copy_str(a4));
    proof {
        assert(text_of(v@) =~= seq![a0@, a1@, a2@, a3@, a4@]);
    }
    v
}

fn list6(a0: &str, a1: &str, a2: &str, a3: &str, a4: &str, a5: &str) -> (r: Vec<String>)
    ensures
        text_of(r@) == seq![a0@, a1@, a2@, a3@, a4@, a5@],
{
    let mut v: Vec<String> = Vec::new();
    v.push(copy_str(a0));
    v.push(copy_str(a1));
    v.push(copy_str(a2));
    v.push(copy_str(a3));
    v.push(copy_str(a4));
    v.push(copy_str(a5));
    proof {
        assert(text_of(v@) =~= seq![a0@, a1@, a2@, a3@, a4@, a5@]);
    }
    v
}

pub open spec fn server(
    name: Seq<char>,
    command: Seq<char>,
    args: Seq<Seq<char>>,
    language_id: Option<Seq<char>>,
    root_markers: Seq<Seq<char>>,
) -> LspView {
    LspConfig { name, command, args, language_id, root_markers }
}

/// The built-in servers.
pub open spec fn builtin_servers() -> Seq<LspView> {
    seq![
        server("rust-analyzer"@, "rust-analyzer"@, Seq::empty(), None, seq!["Cargo.toml"@, "rust-project.json"@]),
        server("pyright"@, "pyright-langserver"@, seq!["--stdio"@], None, seq!["pyproject.toml"@, "setup.py"@, "setup.cfg"@, "requirements.txt"@]),
        server("taplo"@, "taplo"@, seq!["lsp"@, "stdio"@], None, Seq::empty()),
        server("vtsls"@, "vtsls"@, seq!["--stdio"@], None, seq!["package.json"@, "tsconfig.json"@]),
        server("typescript-language-server"@, "typescript-language-server"@, seq!["--stdio"@], None, seq!["package.json"@, "tsconfig.json"@, "jsconfig.json"@]),
        server("gopls"@, "gopls"@, Seq::empty(), None, seq!["go.mod"@, "go.work"@]),
        server("kotlin-language-server"@, "kotlin-language-server"@, Seq::empty(), None, seq!["settings.gradle.kts"@, "settings.gradle"@, "build.gradle.kts"@, "build.gradle"@, "pom.xml"@]),
        server("clangd"@, "clangd"@, Seq::empty(), None, seq!["compile_commands.json"@, ".clangd"@, "Makefile"@, "CMakeLists.txt"@]),
        server("jdtls"@, "jdtls"@, Seq::empty(), None, seq!["pom.xml"@, "build.gradle"@, "build.gradle.kts"@, ".project"@]),
        server("bash-language-server"@, "bash-language-server"@, seq!["start"@], Some("shellscript"@), Seq::empty()),
        server("vscode-json-language-server"@, "vscode-json-language-server"@, seq!["--stdio"@], None, Seq::empty()),
        server("yaml-language-server"@, "yaml-language-server"@, seq!["--stdio"@], None, Seq::empty()),
        server("marksman"@, "marksman"@, seq!["server"@], None, seq![".marksman.toml"@]),
        server("vscode-html-language-server"@, "vscode-html-language-server"@, seq!["--stdio"@], None, Seq::empty()),
        server("vscode-css-language-server"@, "vscode-css-language-server"@, seq!["--stdio"@], None, Seq::empty()),
        server("lua-language-server"@, "lua-language-server"@, Seq::empty(), None, seq![".luarc.json"@, ".luarc.jsonc"@, "stylua.toml"@]),
        server("ruby-lsp"@, "ruby-lsp"@, Seq::empty(), None, seq!["Gemfile"@, ".rubocop.yml"@]),
        server("zls"@, "zls"@, Seq::empty(), None, seq!["build.zig"@]),
    ]
}

/// The last of the servers with a name.
pub open spec fn server_named(t: Seq<LspView>, name: Seq<char>) -> Option<LspView>
    decreases t.len(),
{
    if t.len() == 0 {
        None
    } else if t.last().name == name {
        Some(t.last())
    } else {
        server_named(t.drop_last(), name)
    }
}

fn add_server(
    t: &mut Vec<LspConfig>,
    name: &str,
    command: &str,
    args: Vec<String>,
    language_id: Option<String>,
    root_markers: Vec<String>,
)
    ensures
        servers_of(final(t)@) == servers_of(old(t)@).push(
            server(name@, command@, text_of(args@), opt_str(language_id), text_of(root_markers@)),
        ),
{
    t.push(LspConfig { name: copy_str(name), command: copy_str(command), args, language_id, root_markers });
    proof {
        assert(servers_of(t@) =~= servers_of(old(t)@).push(
            server(name@, command@, text_of(args@), opt_str(language_id), text_of(root_markers@)),
        ));
    }
}

fn builtin_server_rows() -> (r: Vec<LspConfig>)
    ensures
        servers_of(r@) == builtin_servers(),
{
    let mut t: Vec<LspConfig> = Vec::new();
    proof {
        assert(servers_of(t@) =~= Seq::<LspView>::empty());
    }
    add_server(&mut t, "rust-analyzer", "rust-analyzer", list0(), None, list2("Cargo.toml", "rust-project.json"));
    add_server(&mut t, "pyright", "pyright-langserver", list1("--stdio"), None, list4("pyproject.toml", "setup.py", "setup.cfg", "requirements.txt"));
    add_server(&mut t, "taplo", "taplo", list2("lsp", "stdio"), None, list0());
    add_server(&mut t, "vtsls", "vtsls", list1("--stdio"), None, list2("package.json", "tsconfig.json"));
    add_server(&mut t, "typescript-language-server", "typescript-language-server", list1("--stdio"), None, list3("package.json", "tsconfig.json", "jsconfig.json"));
    add_server(&mut t, "gopls", "gopls", list0(), None, list2("go.mod", "go.work"));
    add_server(&mut t, "kotlin-language-server", "kotlin-language-server", list0(), None, list5("settings.gradle.kts", "settings.gradle", "build.gradle.kts", "build.gradle", "pom.xml"));
    add_server(&mut t, "clangd", "clangd", list0(), None, list4("compile_commands.json", ".clangd", "Makefile", "CMakeLists.txt"));
    add_server(&mut t, "jdtls", "jdtls", list0(), None, list4("pom.xml", "build.gradle", "build.gradle.kts", ".project"));
    add_server(&mut t, "bash-language-server", "bash-language-server", list1("start"), Some(copy_str("shellscript")), list0());
    add_server(&mut t, "vscode-json-language-server", "vscode-json-language-server", list1("--stdio"), None, list0());
    add_server(&mut t, "yaml-language-server", "yaml-language-server", list1("--stdio"), None, list0());
    add_server(&mut t, "marksman", "marksman", list1("server"), None, list1(".marksman.toml"));
    add_server(&mut t, "vscode-html-language-server", "vscode-html-language-server", list1("--stdio"), None, list0());
    add_server(&mut t, "vscode-css-language-server", "vscode-css-language-server", list1("--stdio"), None, list0());
    add_server(&mut t, "lua-language-server", "lua-language-server", list0(), None, list3(".luarc.json", ".luarc.jsonc", "stylua.toml"));
    add_server(&mut t, "ruby-lsp", "ruby-lsp", list0(), None, list2("Gemfile", ".rubocop.yml"));
    add_server(&mut t, "zls", "zls", list0(), None, list1("build.zig"));
    t
}

/// The content of a map of servers at a key.
pub open spec fn server_at(m: StrMap<LspConfig>, name: Seq<char>) -> Option<LspView> {
    match m.at(name) {
        Some(c) => Some(c@),
        None => None,
    }
}

/// The built-in servers, by name.
pub fn builtin_lsp() -> (r: StrMap<LspConfig>)
    ensures
        r.wf(),
        forall|name: Seq<char>| #[trigger] server_at(r, name) == server_named(builtin_servers(), name),
{
    let mut rows = builtin_server_rows();
    let ghost all = builtin_servers();
    let mut m: StrMap<LspConfig> = StrMap::new();
    let mut i: usize = 0;
    proof {
        assert(all.take(0) =~= Seq::<LspView>::empty());
    }
    while i < rows.len()
        invariant
            i <= rows.len(),
            servers_of(rows@) == all,
            m.wf(),
            forall|name: Seq<char>| #[trigger] server_at(m, name) == server_named(all.take(i as int), name),
        decreases rows.len() - i,
    {
        let ghost before = m;
        let c = rows[i].copy();
        proof {
            assert(all[i as int] == rows@[i as int]@);
            assert(all.take(i + 1).drop_last() =~= all.take(i as int));
            assert(all.take(i + 1).last() == c@);
        }
        m.insert(c.name.clone(), c);
        proof {
            assert forall|name: Seq<char>| #[trigger] server_at(m, name) == server_named(all.take(i + 1), name) by {
                let a = m.at(name);
                let b = server_at(before, name);
            }
        }
        i = i + 1;
    }
    proof {
        assert(all.take(i as int) =~= all);
    }
    m
}

pub open spec fn builtin(
    extensions: Seq<Seq<char>>,
    comment_token: Option<Seq<char>>,
    editor: EditorToml,
    lsp: Seq<Seq<char>>,
    formatter: Option<FormatterToml<Seq<char>, Seq<Seq<char>>>>,
) -> EntryView {
    LanguageConfig {
        extensions: Some(extensions),
        grammar: None,
        grammar_dir: None,
        query_dir: None,
        comment_token,
        editor,
        lsp: Some(lsp),
        formatter,
    }
}

/// The built-in languages.
pub open spec fn builtin_entries() -> Seq<(Seq<char>, EntryView)> {
    seq![
        (
            "rust"@,
            builtin(seq!["rs"@], Some("//"@), EditorToml::nothing(), seq!["rust-analyzer"@], Some(FormatterToml { command: Some("rustfmt"@), args: None })),
        ),
        (
            "python"@,
            builtin(seq!["py"@], Some("#"@), EditorToml::nothing(), seq!["pyright"@], None),
        ),
        (
            "toml"@,
            builtin(seq!["toml"@], Some("#"@), EditorToml::nothing(), seq!["taplo"@], None),
        ),
        (
            "typescript"@,
            builtin(seq!["ts"@, "tsx"@], Some("//"@), (EditorToml { indent_width: Some(2), tab_width: Some(2), ..EditorToml::nothing() }), seq!["vtsls"@, "typescript-language-server"@], None),
        ),
        (
            "javascript"@,
            builtin(seq!["js"@, "jsx"@, "mjs"@, "cjs"@], Some("//"@), EditorToml::nothing(), seq!["typescript-language-server"@], None),
        ),
        (
            "go"@,
            builtin(seq!["go"@], Some("//"@), (EditorToml { indent_width: Some(4), tab_width: Some(4), use_tabs: Some(true), ..EditorToml::nothing() }), seq!["gopls"@], Some(FormatterToml { command: Some("gofmt"@), args: None })),
        ),
        (
            "kotlin"@,
            builtin(seq!["kt"@, "kts"@], Some("//"@), EditorToml::nothing(), seq!["kotlin-language-server"@], None),
        ),
        (
            "c"@,
            builtin(seq!["c"@, "h"@], Some("//"@), EditorToml::nothing(), seq!["clangd"@], None),
        ),
        (
            "cpp"@,
            builtin(seq!["cpp"@, "cc"@, "cxx"@, "hpp"@, "hh"@, "hxx"@], Some("//"@), EditorToml::nothing(), seq!["clangd"@], None),
        ),
        (
            "java"@,
            builtin(seq!["java"@], Some("//"@), EditorToml::nothing(), seq!["jdtls"@], None),
        ),
        (
            "bash"@,
            builtin(seq!["sh"@, "bash"@], Some("#"@), EditorToml::nothing(), seq!["bash-language-server"@], None),
        ),
        (
            "json"@,
            builtin(seq!["json"@], None, EditorToml::nothing(), seq!["vscode-json-language-server"@], None),
        ),
        (
            "yaml"@,
            builtin(seq!["yaml"@, "yml"@], Some("#"@), EditorToml::nothing(), seq!["yaml-language-server"@], None),
        ),
        (
            "markdown"@,
            builtin(seq!["md"@, "markdown"@], None, EditorToml::nothing(), seq!["marksman"@], None),
        ),
        (
            "html"@,
            builtin(seq!["html"@, "htm"@], None, EditorToml::nothing(), seq!["vscode-html-language-server"@], None),
        ),
        (
            "css"@,
            builtin(seq!["css"@], None, EditorToml::nothing(), seq!["vscode-css-language-server"@], None),
        ),
        (
            "lua"@,
            builtin(seq!["lua"@], Some("--"@), EditorToml::nothing(), seq!["lua-language-server"@], None),
        ),
        (
            "ruby"@,
            builtin(seq!["rb"@], Some("#"@), EditorToml::nothing(), seq!["ruby-lsp"@], None),
        ),
        (
            "zig"@,
            builtin(seq!["zig"@, "zon"@], Some("//"@), EditorToml::nothing(), seq!["zls"@], Some(FormatterToml { command: Some("zig"@), args: Some(seq!["fmt"@, "--stdin"@]) })),
        ),
    ]
}

/// The last of the entries with a name.
pub open spec fn entry_named(t: Seq<(Seq<char>, EntryView)>, name: Seq<char>) -> Option<EntryView>
    decreases t.len(),
{
    if t.len() == 0 {
        None
    } else if t.last().0 == name {
        Some(t.last().1)
    } else {
        entry_named(t.drop_last(), name)
    }
}

/// The contents of a list of named entries.
pub open spec fn entries_of(v: Seq<(String, LanguageConfig)>) -> Seq<(Seq<char>, EntryView)> {
    Seq::new(v.len(), |i: int| (v[i].0@, v[i].1@))
}

fn add_language(
    t: &mut Vec<(String, LanguageConfig)>,
    name: &str,
    extensions: Vec<String>,
    comment_token: Option<String>,
    editor: EditorToml,
    lsp: Vec<String>,
    formatter: Option<FormatterToml>,
)
    ensures
        entries_of(final(t)@) == entries_of(old(t)@).push(
            (
                name@,
                builtin(
                    text_of(extensions@),
                    opt_str(comment_token),
                    editor,
                    text_of(lsp@),
                    opt_formatter(formatter),
                ),
            ),
        ),
{
    t.push(
        (
            copy_str(name),
            LanguageConfig {
                extensions: Some(extensions),
                grammar: None,
                grammar_dir: None,
                query_dir: None,
                comment_token,
                editor,
                lsp: Some(lsp),
                formatter,
            },
        ),
    );
    proof {
        assert(entries_of(t@) =~= entries_of(old(t)@).push(
            (
                name@,
                builtin(
                    text_of(extensions@),
                    opt_str(comment_token),
                    editor,
                    text_of(lsp@),
                    opt_formatter(formatter),
                ),
            ),
        ));
    }
}

fn builtin_language_rows() -> (r: Vec<(String, LanguageConfig)>)
    ensures
        entries_of(r@) == builtin_entries(),
{
    let mut t: Vec<(String, LanguageConfig)> = Vec::new();
    proof {
        assert(entries_of(t@) =~= Seq::<(Seq<char>, EntryView)>::empty());
    }
    add_language(
        &mut t,
        "rust",
        list1("rs"),
        Some(copy_str("//")),
        EditorToml::default(),
        list1("rust-analyzer"),
        Some(FormatterToml { command: Some(copy_str("rustfmt")), args: None }),
    );
    add_language(
        &mut t,
        "python",
        list1("py"),
        Some(copy_str("#")),
        EditorToml::default(),
        list1("pyright"),
        None,
    );
    add_language(
        &mut t,
        "toml",
        list1("toml"),
        Some(copy_str("#")),
        EditorToml::default(),
        list1("taplo"),
        None,
    );
    add_language(
        &mut t,
        "typescript",
        list2("ts", "tsx"),
        Some(copy_str("//")),
        (EditorToml { indent_width: Some(2), tab_width: Some(2), ..EditorToml::default() }),
        list2("vtsls", "typescript-language-server"),
        None,
    );
    add_language(
        &mut t,
        "javascript",
        list4("js", "jsx", "mjs", "cjs"),
        Some(copy_str("//")),
        EditorToml::default(),
        list1("typescript-language-server"),
        None,
    );
    add_language(
        &mut t,
        "go",
        list1("go"),
        Some(copy_str("//")),
        (EditorToml { indent_width: Some(4), tab_width: Some(4), use_tabs: Some(true), ..EditorToml::default() }),
        list1("gopls"),
        Some(FormatterToml { command: Some(copy_str("gofmt")), args: None }),
    );
    add_language(
        &mut t,
        "kotlin",
        list2("kt", "kts"),
        Some(copy_str("//")),
        EditorToml::default(),
        list1("kotlin-language-server"),
        None,
    );
    add_language(
        &mut t,
        "c",
        list2("c", "h"),
        Some(copy_str("//")),
        EditorToml::default(),
        list1("clangd"),
        None,
    );
    add_language(
        &mut t,
        "cpp",
        list6("cpp", "cc", "cxx", "hpp", "hh", "hxx"),
        Some(copy_str("//")),
        EditorToml::default(),
        list1("clangd"),
        None,
    );
    add_language(
        &mut t,
        "java",
        list1("java"),
        Some(copy_str("//")),
        EditorToml::default(),
        list1("jdtls"),
        None,
    );
    add_language(
        &mut t,
        "bash",
        list2("sh", "bash"),
        Some(copy_str("#")),
        EditorToml::default(),
        list1("bash-language-server"),
        None,
    );
    add_language(
        &mut t,
        "json",
        list1("json"),
        None,
        EditorToml::default(),
        list1("vscode-json-language-server"),
        None,
    );
    add_language(
        &mut t,
        "yaml",
        list2("yaml", "yml"),
        Some(copy_str("#")),
        EditorToml::default(),
        list1("yaml-language-server"),
        None,
    );
    add_language(
        &mut t,
        "markdown",
        list2("md", "markdown"),
        None,
        EditorToml::default(),
        list1("marksman"),
        None,
    );
    add_language(
        &mut t,
        "html",
        list2("html", "htm"),
        None,
        EditorToml::default(),
        list1("vscode-html-language-server"),
        None,
    );
    add_language(
        &mut t,
        "css",
        list1("css"),
        None,
        EditorToml::default(),
        list1("vscode-css-language-server"),
        None,
    );
    add_language(
        &mut t,
        "lua",
        list1("lua"),
        Some(copy_str("--")),
        EditorToml::default(),
        list1("lua-language-server"),
        None,
    );
    add_language(
        &mut t,
        "ruby",
        list1("rb"),
        Some(copy_str("#")),
        EditorToml::default(),
        list1("ruby-lsp"),
        None,
    );
    add_language(
        &mut t,
        "zig",
        list2("zig", "zon"),
        Some(copy_str("//")),
        EditorToml::default(),
        list1("zls"),
        Some(FormatterToml { command: Some(copy_str("zig")), args: Some(list2("fmt", "--stdin")) }),
    );
    t
}

/// The content of a map of language entries at a key.
pub open spec fn entry_view(m: StrMap<LanguageConfig>, name: Seq<char>) -> Option<EntryView> {
    match m.at(name) {
        Some(c) => Some(c@),
        None => None,
    }
}

/// The built-in languages, by name.
pub fn builtin_languages() -> (r: StrMap<LanguageConfig>)
    ensures
        r.wf(),
        forall|name: Seq<char>| #[trigger] entry_view(r, name) == entry_named(builtin_entries(), name),
{
    let mut rows = builtin_language_rows();
    let ghost all = builtin_entries();
    let ghost n = all.len() as int;
    let mut m: StrMap<LanguageConfig> = StrMap::new();
    let ghost mut done: int = 0;
    proof {
        assert(all.take(0) =~= Seq::<(Seq<char>, EntryView)>::empty());
        assert(entries_of(rows@) =~= all.skip(0));
    }
    while rows.len() > 0
        invariant
            0 <= done <= n,
            n == all.len(),
            rows.len() == n - done,
            entries_of(rows@) == all.skip(done),
            m.wf(),
            forall|name: Seq<char>| #[trigger] entry_view(m, name) == entry_named(all.take(done), name),
        decreases rows.len(),
    {
        let ghost before = m;
        let ghost rs = rows@;
        let (name, c) = rows.remove(0);
        proof {
            assert(entries_of(rs)[0] == all.skip(done)[0]);
            assert(all[done] == (name@, c@));
            assert(entries_of(rows@) =~= entries_of(rs).remove(0));
            assert(entries_of(rows@) =~= all.skip(done + 1));
            assert(all.take(done + 1).drop_last() =~= all.take(done));
            assert(all.take(done + 1).last() == all[done]);
        }
        m.insert(name, c);
        proof {
            assert forall|k: Seq<char>| #[trigger] entry_view(m, k) == entry_named(all.take(done + 1), k) by {
                let a = m.at(k);
                let b = entry_view(before, k);
            }
            done = done + 1;
        }
    }
    proof {
        assert(all.take(done) =~= all);
    }
    m
}

/// A server after the user's entry for it, if there is one.
pub open spec fn merged_server(name: Seq<char>, user: Option<LspTomlView>, base: Option<LspView>) -> Result<
    Option<LspView>,
    LanguageError<Seq<char>>,
> {
    match (user, base) {
        (None, b) => Ok(b),
        (Some(u), Some(b)) => Ok(Some(b.overlaid(u))),
        (Some(u), None) => match new_server(name, u) {
            Ok(s) => Ok(Some(s)),
            Err(e) => Err(e),
        },
    }
}

pub open spec fn user_server(m: StrMap<LspToml>, name: Seq<char>) -> Option<LspTomlView> {
    match m.at(name) {
        Some(u) => Some(u@),
        None => None,
    }
}

/// The servers: the user's entries laid over the built-in ones, and new ones.
pub fn resolve_lsp_table(user: StrMap<LspToml>) -> (r: Result<StrMap<LspConfig>, LanguageError>)
    requires
        user.wf(),
    ensures
        match r {
            Ok(m) => m.wf() && forall|name: Seq<char>|
                merged_server(name, user_server(user, name), server_named(builtin_servers(), name)) == Ok::<
                    Option<LspView>,
                    LanguageError<Seq<char>>,
                >(#[trigger] server_at(m, name)),
            Err(e) => exists|name: Seq<char>|
                #[trigger] merged_server(name, user_server(user, name), server_named(builtin_servers(), name))
                    == Err::<Option<LspView>, LanguageError<Seq<char>>>(e@),
        },
{
    let ghost all = user;
    let mut rest = user;
    let mut m = builtin_lsp();
    while rest.entries.len() > 0
        invariant
            rest.wf(),
            all == user,
            m.wf(),
            forall|name: Seq<char>|
                rest.at(name) is Some ==> #[trigger] rest.at(name) == all.at(name) && server_at(m, name)
                    == server_named(builtin_servers(), name),
            forall|name: Seq<char>|
                rest.at(name) is None ==> merged_server(
                    name,
                    user_server(all, name),
                    server_named(builtin_servers(), name),
                ) == Ok::<Option<LspView>, LanguageError<Seq<char>>>(#[trigger] server_at(m, name)),
        decreases rest.entries.len(),
    {
        let ghost before = rest;
        let ghost mb = m;
        proof {
            lemma_entry_index(rest.entries@, 0);
        }
        let (name, u) = rest.take_at(0);
        proof {
            assert(before.at(name@) == Some(u));
            assert(before.at(name@) == all.at(name@));
        }
        match m.position(name.as_str()) {
            Some(i) => {
                let (key, c) = m.take_at(i);
                let mut c = c;
                c.overlay(u);
                m.insert(key, c);
            },
            None => match LspConfig::from_user(name.as_str(), u) {
                Ok(c) => {
                    m.insert(name.clone(), c);
                },
                Err(e) => {
                    proof {
                        assert(server_at(mb, name@) is None);
                        assert(merged_server(
                            name@,
                            user_server(user, name@),
                            server_named(builtin_servers(), name@),
                        ) == Err::<Option<LspView>, LanguageError<Seq<char>>>(e@));
                    }
                    return Err(e);
                },
            },
        }
        proof {
            assert forall|k: Seq<char>| rest.at(k) is Some implies #[trigger] rest.at(k) == all.at(k) && server_at(m, k)
                == server_named(builtin_servers(), k) by {
                assert(before.at(k) is Some);
                assert(server_at(mb, k) == server_named(builtin_servers(), k));
                assert(m.at(k) == mb.at(k));
            }
            assert forall|k: Seq<char>| rest.at(k) is None implies merged_server(
                k,
                user_server(all, k),
                server_named(builtin_servers(), k),
            ) == Ok::<Option<LspView>, LanguageError<Seq<char>>>(#[trigger] server_at(m, k)) by {
                if k == name@ {
                    assert(server_at(mb, k) == server_named(builtin_servers(), k));
                } else {
                    assert(before.at(k) is None);
                    let x = server_at(mb, k);
                    assert(m.at(k) == mb.at(k));
                }
            }
        }
    }
    proof {
        assert forall|k: Seq<char>| rest.at(k) is None by {}
    }
    Ok(m)
}

/// The servers that a language names, among the first `k`.
pub open spec fn named_servers(
    language: Seq<char>,
    names: Seq<Seq<char>>,
    table: StrMap<LspConfig>,
    k: int,
) -> Result<Seq<LspView>, LanguageError<Seq<char>>>
    decreases k,
{
    if k <= 0 {
        Ok(Seq::empty())
    } else {
        match named_servers(language, names, table, k - 1) {
            Err(e) => Err(e),
            Ok(s) => match server_at(table, names[k - 1]) {
                Some(c) => Ok(s.push(c)),
                None => Err(LanguageError::UnknownServer { language, server: names[k - 1] }),
            },
        }
    }
}

/// The language that an entry describes. Without a grammar of its own it has
/// the one of its name.
pub open spec fn language_of(name: Seq<char>, c: EntryView, table: StrMap<LspConfig>) -> Result<
    LanguageView,
    LanguageError<Seq<char>>,
> {
    let names = set_or(c.lsp, Seq::empty());
    match named_servers(name, names, table, names.len() as int) {
        Err(e) => Err(e),
        Ok(lsp) => {
            let formatter = match c.formatter {
                None => Ok(None),
                Some(f) => match f.command {
                    Some(command) => Ok(
                        Some(FormatterConfig { command, args: set_or(f.args, Seq::empty()) }),
                    ),
                    None => Err(LanguageError::FormatterWithoutCommand { language: name }),
                },
            };
            match formatter {
                Err(e) => Err(e),
                Ok(formatter) => Ok(
                    Language {
                        name,
                        extensions: set_or(c.extensions, Seq::empty()),
                        grammar: set_or(c.grammar, name),
                        grammar_dir: c.grammar_dir,
                        query_dir: c.query_dir,
                        comment_token: c.comment_token,
                        editor: c.editor,
                        lsp,
                        formatter,
                    },
                ),
            }
        },
    }
}

/// The first unknown server is the one that is reported.
proof fn lemma_server_error(language: Seq<char>, names: Seq<Seq<char>>, table: StrMap<LspConfig>, k: int, n: int)
    requires
        0 <= k <= n,
        named_servers(language, names, table, k) is Err,
    ensures
        named_servers(language, names, table, n) == named_servers(language, names, table, k),
    decreases n - k,
{
    if k < n {
        lemma_server_error(language, names, table, k, n - 1);
    }
}

/// The language that an entry describes.
pub fn build_language(name: &str, c: LanguageConfig, lsp_table: &StrMap<LspConfig>) -> (r: Result<
    Language,
    LanguageError,
>)
    ensures
        match (r, language_of(name@, c@, *lsp_table)) {
            (Ok(a), Ok(b)) => a@ == b,
            (Err(a), Err(b)) => a@ == b,
            _ => false,
        },
{
    let ghost entry = c@;
    let refs = match c.lsp {
        Some(l) => l,
        None => list0(),
    };
    let ghost names = text_of(refs@);
    let mut lsp: Vec<LspConfig> = Vec::new();
    let mut i: usize = 0;
    proof {
        assert(servers_of(lsp@) =~= Seq::<LspView>::empty());
    }
    while i < refs.len()
        invariant
            i <= refs.len(),
            names == text_of(refs@),
            named_servers(name@, names, *lsp_table, i as int) == Ok::<Seq<LspView>, LanguageError<Seq<char>>>(
                servers_of(lsp@),
            ),
            entry == c@,
            names == set_or(entry.lsp, Seq::empty()),
        decreases refs.len() - i,
    {
        proof {
            assert(names[i as int] == refs@[i as int]@);
        }
        match lsp_table.get(refs[i].as_str()) {
            Some(s) => {
                let ghost before = servers_of(lsp@);
                let copy = s.copy();
                lsp.push(copy);
                proof {
                    assert(servers_of(lsp@) =~= before.push(copy@));
                }
            },
            None => {
                proof {
                    lemma_server_error(name@, names, *lsp_table, i + 1, names.len() as int);
                }
                return Err(
                    LanguageError::UnknownServer { language: copy_str(name), server: refs[i].clone() },
                );
            },
        }
        i = i + 1;
    }
    let formatter = match c.formatter {
        None => None,
        Some(f) => match f.command {
            Some(command) => {
                let args = match f.args {
                    Some(a) => a,
                    None => list0(),
                };
                Some(FormatterConfig { command, args })
            },
            None => {
                return Err(LanguageError::FormatterWithoutCommand { language: copy_str(name) });
            },
        },
    };
    let extensions = match c.extensions {
        Some(e) => e,
        None => list0(),
    };
    let grammar = match c.grammar {
        Some(g) => g,
        None => copy_str(name),
    };
    Ok(
        Language {
            name: copy_str(name),
            extensions,
            grammar,
            grammar_dir: c.grammar_dir,
            query_dir: c.query_dir,
            comment_token: c.comment_token,
            editor: c.editor,
            lsp,
            formatter,
        },
    )
}

/// A language's entry after the user's entry for it, if there is one.
pub open spec fn merged_entry(user: Option<EntryView>, base: Option<EntryView>) -> Option<EntryView> {
    match (user, base) {
        (None, b) => b,
        (Some(u), Some(b)) => Some(b.overlaid(u)),
        (Some(u), None) => Some(u),
    }
}

/// The language of a name, if there is one.
pub open spec fn resolved(name: Seq<char>, user: StrMap<LanguageConfig>, table: StrMap<LspConfig>) -> Option<
    Result<LanguageView, LanguageError<Seq<char>>>,
> {
    match merged_entry(entry_view(user, name), entry_named(builtin_entries(), name)) {
        Some(c) => Some(language_of(name, c, table)),
        None => None,
    }
}

pub open spec fn language_at(m: StrMap<Language>, name: Seq<char>) -> Option<LanguageView> {
    match m.at(name) {
        Some(l) => Some(l@),
        None => None,
    }
}

/// The user's entries laid over the built-in ones.
fn merge_languages(user: StrMap<LanguageConfig>) -> (r: StrMap<LanguageConfig>)
    requires
        user.wf(),
    ensures
        r.wf(),
        forall|name: Seq<char>|
            #[trigger] entry_view(r, name) == merged_entry(
                entry_view(user, name),
                entry_named(builtin_entries(), name),
            ),
{
    let ghost all = user;
    let mut rest = user;
    let mut m = builtin_languages();
    while rest.entries.len() > 0
        invariant
            rest.wf(),
            all == user,
            m.wf(),
            forall|name: Seq<char>|
                rest.at(name) is Some ==> #[trigger] rest.at(name) == all.at(name) && entry_view(m, name)
                    == entry_named(builtin_entries(), name),
            forall|name: Seq<char>|
                rest.at(name) is None ==> #[trigger] entry_view(m, name) == merged_entry(
                    entry_view(all, name),
                    entry_named(builtin_entries(), name),
                ),
        decreases rest.entries.len(),
    {
        let ghost before = rest;
        let ghost mb = m;
        proof {
            lemma_entry_index(rest.entries@, 0);
        }
        let (name, u) = rest.take_at(0);
        proof {
            assert(before.at(name@) == Some(u));
            assert(before.at(name@) == all.at(name@));
        }
        match m.position(name.as_str()) {
            Some(i) => {
                let (key, c) = m.take_at(i);
                let mut c = c;
                c.overlay(u);
                m.insert(key, c);
            },
            None => {
                m.insert(name.clone(), u);
            },
        }
        proof {
            assert forall|k: Seq<char>| rest.at(k) is Some implies #[trigger] rest.at(k) == all.at(k) && entry_view(
                m,
                k,
            ) == entry_named(builtin_entries(), k) by {
                assert(before.at(k) is Some);
                assert(entry_view(mb, k) == entry_named(builtin_entries(), k));
                assert(m.at(k) == mb.at(k));
            }
            assert forall|k: Seq<char>| rest.at(k) is None implies #[trigger] entry_view(m, k) == merged_entry(
                entry_view(all, k),
                entry_named(builtin_entries(), k),
            ) by {
                if k == name@ {
                    assert(entry_view(mb, k) == entry_named(builtin_entries(), k));
                } else {
                    assert(before.at(k) is None);
                    let x = entry_view(mb, k);
                    assert(m.at(k) == mb.at(k));
                }
            }
        }
    }
    proof {
        assert forall|k: Seq<char>| rest.at(k) is None by {}
    }
    m
}

/// The languages: the user's entries laid over the built-in ones, with their
/// servers looked up. A language that cannot be built is an error.
pub fn resolve(user_languages: StrMap<LanguageConfig>, lsp_table: &StrMap<LspConfig>) -> (r: Result<
    StrMap<Language>,
    LanguageError,
>)
    requires
        user_languages.wf(),
    ensures
        match r {
            Ok(m) => m.wf() && forall|name: Seq<char>|
                match (resolved(name, user_languages, *lsp_table), #[trigger] language_at(m, name)) {
                    (Some(Ok(a)), Some(b)) => a == b,
                    (None, None) => true,
                    _ => false,
                },
            Err(e) => exists|name: Seq<char>|
                #[trigger] resolved(name, user_languages, *lsp_table) == Some(
                    Err::<LanguageView, LanguageError<Seq<char>>>(e@),
                ),
        },
{
    let mut rest = merge_languages(user_languages);
    let ghost all = rest;
    let mut m: StrMap<Language> = StrMap::new();
    proof {
        assert forall|name: Seq<char>| rest.at(name) is None implies resolved(name, user_languages, *lsp_table) is None && #[trigger] language_at(
            m,
            name,
        ) is None by {
            assert(entry_view(all, name) is None);
            assert(m.at(name) is None);
        }
        assert forall|name: Seq<char>| rest.at(name) is Some implies #[trigger] rest.at(name) == all.at(name)
            && language_at(m, name) is None by {
            assert(m.at(name) is None);
        }
    }
    while rest.entries.len() > 0
        invariant
            rest.wf(),
            m.wf(),
            forall|name: Seq<char>|
                #[trigger] entry_view(all, name) == merged_entry(
                    entry_view(user_languages, name),
                    entry_named(builtin_entries(), name),
                ),
            forall|name: Seq<char>|
                rest.at(name) is Some ==> #[trigger] rest.at(name) == all.at(name) && language_at(m, name) is None,
            forall|name: Seq<char>|
                rest.at(name) is None ==> match (
                    resolved(name, user_languages, *lsp_table),
                    #[trigger] language_at(m, name),
                ) {
                    (Some(Ok(a)), Some(b)) => a == b,
                    (None, None) => true,
                    _ => false,
                },
        decreases rest.entries.len(),
    {
        let ghost before = rest;
        let ghost mb = m;
        proof {
            lemma_entry_index(rest.entries@, 0);
        }
        let (name, c) = rest.take_at(0);
        proof {
            assert(before.at(name@) == Some(c));
            assert(before.at(name@) == all.at(name@));
            assert(entry_view(all, name@) == Some(c@));
        }
        match build_language(name.as_str(), c, lsp_table) {
            Ok(l) => {
                m.insert(name.clone(), l);
            },
            Err(e) => {
                proof {
                    assert(resolved(name@, user_languages, *lsp_table) == Some(
                        Err::<LanguageView, LanguageError<Seq<char>>>(e@),
                    ));
                }
                return Err(e);
            },
        }
        proof {
            assert forall|k: Seq<char>| rest.at(k) is Some implies #[trigger] rest.at(k) == all.at(k) && language_at(
                m,
                k,
            ) is None by {
                assert(before.at(k) is Some);
                assert(language_at(mb, k) is None);
                assert(m.at(k) == mb.at(k));
            }
            assert forall|k: Seq<char>| rest.at(k) is None implies match (
                resolved(k, user_languages, *lsp_table),
                #[trigger] language_at(m, k),
            ) {
                (Some(Ok(a)), Some(b)) => a == b,
                (None, None) => true,
                _ => false,
            } by {
                if k == name@ {
                    assert(m.at(k) is Some);
                } else {
                    assert(before.at(k) is None);
                    let x = language_at(mb, k);
                    assert(m.at(k) == mb.at(k));
                }
            }
        }
    }
    proof {
        assert forall|k: Seq<char>| rest.at(k) is None by {}
    }
    Ok(m)
}

/// The language that an extension leads to: the last of the first `k` that
/// lists it.
pub open spec fn extension_owner(langs: Seq<(String, Language)>, ext: Seq<char>, k: int) -> Option<Seq<char>>
    decreases k,
{
    if k <= 0 {
        None
    } else if text_of(langs[k - 1].1.extensions@).contains(ext) {
        Some(langs[k - 1].0@)
    } else {
        extension_owner(langs, ext, k - 1)
    }
}

pub open spec fn owner_at(m: StrMap<String>, ext: Seq<char>) -> Option<Seq<char>> {
    match m.at(ext) {
        Some(s) => Some(s@),
        None => None,
    }
}

/// The name of the language for each extension. Where several languages list
/// one, the last of them has it.
pub fn build_extension_index(langs: &StrMap<Language>) -> (r: StrMap<String>)
    ensures
        r.wf(),
        forall|ext: Seq<char>|
            #[trigger] owner_at(r, ext) == extension_owner(langs.entries@, ext, langs.entries@.len() as int),
{
    let mut idx: StrMap<String> = StrMap::new();
    let mut i: usize = 0;
    while i < langs.entries.len()
        invariant
            i <= langs.entries.len(),
            idx.wf(),
            forall|ext: Seq<char>| #[trigger] owner_at(idx, ext) == extension_owner(langs.entries@, ext, i as int),
        decreases langs.entries.len() - i,
    {
        let ghost before = idx;
        let lang = &langs.entries[i].1;
        let ghost exts = text_of(lang.extensions@);
        let mut k: usize = 0;
        while k < lang.extensions.len()
            invariant
                k <= lang.extensions.len(),
                i < langs.entries.len(),
                exts == text_of(lang.extensions@),
                idx.wf(),
                forall|ext: Seq<char>|
                    #[trigger] owner_at(idx, ext) == if exts.take(k as int).contains(ext) {
                        Some(langs.entries@[i as int].0@)
                    } else {
                        owner_at(before, ext)
                    },
            decreases lang.extensions.len() - k,
        {
            let ghost mid = idx;
            let e = lang.extensions[k].clone();
            idx.insert(e, langs.entries[i].0.clone());
            proof {
                let s0 = exts.take(k as int);
                let s1 = exts.take(k + 1);
                assert(s1 =~= s0.push(e@));
                assert forall|ext: Seq<char>|
                    #[trigger] owner_at(idx, ext) == if s1.contains(ext) {
                        Some(langs.entries@[i as int].0@)
                    } else {
                        owner_at(before, ext)
                    } by {
                    let a = owner_at(mid, ext);
                    let b = idx.at(ext);
                    if s0.contains(ext) {
                        let q = choose|q: int| 0 <= q < s0.len() && s0[q] == ext;
                        assert(s1[q] == ext);
                    }
                    if ext == e@ {
                        assert(s1[k as int] == ext);
                    }
                    if s1.contains(ext) && ext != e@ {
                        let q = choose|q: int| 0 <= q < s1.len() && s1[q] == ext;
                        assert(s0[q] == ext);
                    }
                }
            }
            k = k + 1;
        }
        proof {
            assert(exts.take(k as int) =~= exts);
            assert forall|ext: Seq<char>|
                #[trigger] owner_at(idx, ext) == extension_owner(langs.entries@, ext, i + 1) by {
                let a = owner_at(before, ext);
            }
        }
        i = i + 1;
    }
    idx
}

/// All languages, by name and by file extension.
#[derive(Debug)]
pub struct LanguageRegistry {
    pub by_name: StrMap<Language>,
    pub extension_to_name: StrMap<String>,
}

impl LanguageRegistry {
    /// The index agrees with the languages.
    pub open spec fn wf(self) -> bool {
        &&& self.by_name.wf()
        &&& self.extension_to_name.wf()
        &&& forall|ext: Seq<char>|
            #[trigger] owner_at(self.extension_to_name, ext) == extension_owner(
                self.by_name.entries@,
                ext,
                self.by_name.entries@.len() as int,
            )
    }

    /// Builds the registry from the user's tables. A server or a language
    /// that cannot be built is an error.
    pub fn build(user_languages: StrMap<LanguageConfig>, user_lsp: StrMap<LspToml>) -> (r: Result<
        LanguageRegistry,
        LanguageError,
    >)
        requires
            user_languages.wf(),
            user_lsp.wf(),
        ensures
            match r {
                Ok(reg) => {
                    &&& reg.wf()
                    &&& exists|table: StrMap<LspConfig>|
                        {
                            &&& forall|name: Seq<char>|
                                merged_server(
                                    name,
                                    user_server(user_lsp, name),
                                    server_named(builtin_servers(), name),
                                ) == Ok::<Option<LspView>, LanguageError<Seq<char>>>(
                                    #[trigger] server_at(table, name),
                                )
                            &&& #[trigger] table.wf()
                            &&& forall|name: Seq<char>|
                                match (
                                    resolved(name, user_languages, table),
                                    #[trigger] language_at(reg.by_name, name),
                                ) {
                                    (Some(Ok(a)), Some(b)) => a == b,
                                    (None, None) => true,
                                    _ => false,
                                }
                        }
                },
                Err(e) => {
                    ||| exists|name: Seq<char>|
                        #[trigger] merged_server(
                            name,
                            user_server(user_lsp, name),
                            server_named(builtin_servers(), name),
                        ) == Err::<Option<LspView>, LanguageError<Seq<char>>>(e@)
                    ||| exists|table: StrMap<LspConfig>, name: Seq<char>|
                        {
                            &&& forall|n: Seq<char>|
                                merged_server(n, user_server(user_lsp, n), server_named(builtin_servers(), n))
                                    == Ok::<Option<LspView>, LanguageError<Seq<char>>>(
                                    #[trigger] server_at(table, n),
                                )
                            &&& #[trigger] resolved(name, user_languages, table) == Some(
                                Err::<LanguageView, LanguageError<Seq<char>>>(e@),
                            )
                        }
                },
            },
    {
        let table = match resolve_lsp_table(user_lsp) {
            Ok(t) => t,
            Err(e) => return Err(e),
        };
        let by_name = match resolve(user_languages, &table) {
            Ok(m) => m,
            Err(e) => return Err(e),
        };
        let extension_to_name = build_extension_index(&by_name);
        let reg = LanguageRegistry { by_name, extension_to_name };
        proof {
            assert(table.wf());
        }
        Ok(reg)
    }

    /// The language of a file extension, given without its dot.
    pub fn by_extension(&self, ext: &str) -> (r: Option<&Language>)
        requires
            self.wf(),
        ensures
            match extension_owner(self.by_name.entries@, ext@, self.by_name.entries@.len() as int) {
                Some(name) => r matches Some(l) && self.by_name.at(name) == Some(*l),
                None => r is None,
            },
            r matches Some(l) ==> text_of(l.extensions@).contains(ext@),
    {
        proof {
            let o = owner_at(self.extension_to_name, ext@);
            law_found_by_extension(*self, ext@);
        }
        match self.extension_to_name.get(ext) {
            None => None,
            Some(name) => {
                self.by_name.get(name.as_str())
            },
        }
    }
}

/// Which built-in language has an extension, and as which of its extensions.
spec fn extension_place(ext: Seq<char>) -> (int, int) {
    if ext == "rs"@ {
        (0, 0)
    } else if ext == "py"@ {
        (1, 0)
    } else if ext == "toml"@ {
        (2, 0)
    } else if ext == "ts"@ {
        (3, 0)
    } else if ext == "tsx"@ {
        (3, 1)
    } else if ext == "js"@ {
        (4, 0)
    } else if ext == "jsx"@ {
        (4, 1)
    } else if ext == "mjs"@ {
        (4, 2)
    } else if ext == "cjs"@ {
        (4, 3)
    } else if ext == "go"@ {
        (5, 0)
    } else if ext == "kt"@ {
        (6, 0)
    } else if ext == "kts"@ {
        (6, 1)
    } else if ext == "c"@ {
        (7, 0)
    } else if ext == "h"@ {
        (7, 1)
    } else if ext == "cpp"@ {
        (8, 0)
    } else if ext == "cc"@ {
        (8, 1)
    } else if ext == "cxx"@ {
        (8, 2)
    } else if ext == "hpp"@ {
        (8, 3)
    } else if ext == "hh"@ {
        (8, 4)
    } else if ext == "hxx"@ {
        (8, 5)
    } else if ext == "java"@ {
        (9, 0)
    } else if ext == "sh"@ {
        (10, 0)
    } else if ext == "bash"@ {
        (10, 1)
    } else if ext == "json"@ {
        (11, 0)
    } else if ext == "yaml"@ {
        (12, 0)
    } else if ext == "yml"@ {
        (12, 1)
    } else if ext == "md"@ {
        (13, 0)
    } else if ext == "markdown"@ {
        (13, 1)
    } else if ext == "html"@ {
        (14, 0)
    } else if ext == "htm"@ {
        (14, 1)
    } else if ext == "css"@ {
        (15, 0)
    } else if ext == "lua"@ {
        (16, 0)
    } else if ext == "rb"@ {
        (17, 0)
    } else if ext == "zig"@ {
        (18, 0)
    } else if ext == "zon"@ {
        (18, 1)
    } else {
        (-1, -1)
    }
}

#[verifier::rlimit(40)]
proof fn lemma_extension_place(i: int, p: int)
    requires
        0 <= i < builtin_entries().len(),
        0 <= p < builtin_entries()[i].1.extensions->0.len(),
    ensures
        extension_place(builtin_entries()[i].1.extensions->0[p]) == (i, p),
{
    reveal_strlit("rs");
    assert(shape("rs"@) == (2nat, 'r', 's', ' ', ' '));
    reveal_strlit("py");
    assert(shape("py"@) == (2nat, 'p', 'y', ' ', ' '));
    reveal_strlit("toml");
    assert(shape("toml"@) == (4nat, 't', 'o', 'm', 'l'));
    reveal_strlit("ts");
    assert(shape("ts"@) == (2nat, 't', 's', ' ', ' '));
    reveal_strlit("tsx");
    assert(shape("tsx"@) == (3nat, 't', 's', 'x', ' '));
    reveal_strlit("js");
    assert(shape("js"@) == (2nat, 'j', 's', ' ', ' '));
    reveal_strlit("jsx");
    assert(shape("jsx"@) == (3nat, 'j', 's', 'x', ' '));
    reveal_strlit("mjs");
    assert(shape("mjs"@) == (3nat, 'm', 'j', 's', ' '));
    reveal_strlit("cjs");
    assert(shape("cjs"@) == (3nat, 'c', 'j', 's', ' '));
    reveal_strlit("go");
    assert(shape("go"@) == (2nat, 'g', 'o', ' ', ' '));
    reveal_strlit("kt");
    assert(shape("kt"@) == (2nat, 'k', 't', ' ', ' '));
    reveal_strlit("kts");
    assert(shape("kts"@) == (3nat, 'k', 't', 's', ' '));
    reveal_strlit("c");
    assert(shape("c"@) == (1nat, 'c', ' ', ' ', ' '));
    reveal_strlit("h");
    assert(shape("h"@) == (1nat, 'h', ' ', ' ', ' '));
    reveal_strlit("cpp");
    assert(shape("cpp"@) == (3nat, 'c', 'p', 'p', ' '));
    reveal_strlit("cc");
    assert(shape("cc"@) == (2nat, 'c', 'c', ' ', ' '));
    reveal_strlit("cxx");
    assert(shape("cxx"@) == (3nat, 'c', 'x', 'x', ' '));
    reveal_strlit("hpp");
    assert(shape("hpp"@) == (3nat, 'h', 'p', 'p', ' '));
    reveal_strlit("hh");
    assert(shape("hh"@) == (2nat, 'h', 'h', ' ', ' '));
    reveal_strlit("hxx");
    assert(shape("hxx"@) == (3nat, 'h', 'x', 'x', ' '));
    reveal_strlit("java");
    assert(shape("java"@) == (4nat, 'j', 'a', 'v', 'a'));
    reveal_strlit("sh");
    assert(shape("sh"@) == (2nat, 's', 'h', ' ', ' '));
    reveal_strlit("bash");
    assert(shape("bash"@) == (4nat, 'b', 'a', 's', 'h'));
    reveal_strlit("json");
    assert(shape("json"@) == (4nat, 'j', 's', 'o', 'n'));
    reveal_strlit("yaml");
    assert(shape("yaml"@) == (4nat, 'y', 'a', 'm', 'l'));
    reveal_strlit("yml");
    assert(shape("yml"@) == (3nat, 'y', 'm', 'l', ' '));
    reveal_strlit("md");
    assert(shape("md"@) == (2nat, 'm', 'd', ' ', ' '));
    reveal_strlit("markdown");
    assert(shape("markdown"@) == (8nat, 'm', 'a', 'r', 'k'));
    reveal_strlit("html");
    assert(shape("html"@) == (4nat, 'h', 't', 'm', 'l'));
    reveal_strlit("htm");
    assert(shape("htm"@) == (3nat, 'h', 't', 'm', ' '));
    reveal_strlit("css");
    assert(shape("css"@) == (3nat, 'c', 's', 's', ' '));
    reveal_strlit("lua");
    assert(shape("lua"@) == (3nat, 'l', 'u', 'a', ' '));
    reveal_strlit("rb");
    assert(shape("rb"@) == (2nat, 'r', 'b', ' ', ' '));
    reveal_strlit("zig");
    assert(shape("zig"@) == (3nat, 'z', 'i', 'g', ' '));
    reveal_strlit("zon");
    assert(shape("zon"@) == (3nat, 'z', 'o', 'n', ' '));
    let e = builtin_entries()[i].1.extensions->0;
    if i == 0 {
        assert(e =~= seq!["rs"@]);
    } else if i == 1 {
        assert(e =~= seq!["py"@]);
    } else if i == 2 {
        assert(e =~= seq!["toml"@]);
    } else if i == 3 {
        assert(e =~= seq!["ts"@, "tsx"@]);
    } else if i == 4 {
        assert(e =~= seq!["js"@, "jsx"@, "mjs"@, "cjs"@]);
    } else if i == 5 {
        assert(e =~= seq!["go"@]);
    } else if i == 6 {
        assert(e =~= seq!["kt"@, "kts"@]);
    } else if i == 7 {
        assert(e =~= seq!["c"@, "h"@]);
    } else if i == 8 {
        assert(e =~= seq!["cpp"@, "cc"@, "cxx"@, "hpp"@, "hh"@, "hxx"@]);
    } else if i == 9 {
        assert(e =~= seq!["java"@]);
    } else if i == 10 {
        assert(e =~= seq!["sh"@, "bash"@]);
    } else if i == 11 {
        assert(e =~= seq!["json"@]);
    } else if i == 12 {
        assert(e =~= seq!["yaml"@, "yml"@]);
    } else if i == 13 {
        assert(e =~= seq!["md"@, "markdown"@]);
    } else if i == 14 {
        assert(e =~= seq!["html"@, "htm"@]);
    } else if i == 15 {
        assert(e =~= seq!["css"@]);
    } else if i == 16 {
        assert(e =~= seq!["lua"@]);
    } else if i == 17 {
        assert(e =~= seq!["rb"@]);
    } else if i == 18 {
        assert(e =~= seq!["zig"@, "zon"@]);
    }
}

proof fn lemma_server_named(t: Seq<LspView>, k: int)
    requires
        0 <= k < t.len(),
    ensures
        server_named(t, t[k].name) is Some,
    decreases t.len(),
{
    if t.last().name != t[k].name {
        assert(t.drop_last()[k] == t[k]);
        lemma_server_named(t.drop_last(), k);
    }
}

proof fn lemma_entry_named(t: Seq<(Seq<char>, EntryView)>, name: Seq<char>)
    ensures
        entry_named(t, name) matches Some(e) ==> exists|i: int| 0 <= i < t.len() && #[trigger] t[i] == (name, e),
    decreases t.len(),
{
    if t.len() > 0 {
        if t.last().0 == name {
            assert(t[t.len() - 1] == (name, t.last().1));
        } else {
            lemma_entry_named(t.drop_last(), name);
            if let Some(e) = entry_named(t.drop_last(), name) {
                let i = choose|i: int| 0 <= i < t.drop_last().len() && #[trigger] t.drop_last()[i] == (name, e);
                assert(t[i] == (name, e));
            }
        }
    }
}

proof fn lemma_builtin_entry(i: int)
    requires
        0 <= i < builtin_entries().len(),
    ensures
        builtin_entries()[i].1.extensions is Some,
        builtin_entries()[i].1.formatter matches Some(f) ==> f.command is Some,
        builtin_entries()[i].1.lsp matches Some(s) && forall|q: int|
            0 <= q < s.len() ==> server_named(builtin_servers(), #[trigger] s[q]) is Some,
{
    let s = builtin_entries()[i].1.lsp->0;
    let t = builtin_servers();
    if i == 0 {
        lemma_server_named(t, 0);
        assert(s =~= seq!["rust-analyzer"@]);
    } else if i == 1 {
        lemma_server_named(t, 1);
        assert(s =~= seq!["pyright"@]);
    } else if i == 2 {
        lemma_server_named(t, 2);
        assert(s =~= seq!["taplo"@]);
    } else if i == 3 {
        lemma_server_named(t, 3);
        lemma_server_named(t, 4);
        assert(s =~= seq!["vtsls"@, "typescript-language-server"@]);
    } else if i == 4 {
        lemma_server_named(t, 4);
        assert(s =~= seq!["typescript-language-server"@]);
    } else if i == 5 {
        lemma_server_named(t, 5);
        assert(s =~= seq!["gopls"@]);
    } else if i == 6 {
        lemma_server_named(t, 6);
        assert(s =~= seq!["kotlin-language-server"@]);
    } else if i == 7 {
        lemma_server_named(t, 7);
        assert(s =~= seq!["clangd"@]);
    } else if i == 8 {
        lemma_server_named(t, 7);
        assert(s =~= seq!["clangd"@]);
    } else if i == 9 {
        lemma_server_named(t, 8);
        assert(s =~= seq!["jdtls"@]);
    } else if i == 10 {
        lemma_server_named(t, 9);
        assert(s =~= seq!["bash-language-server"@]);
    } else if i == 11 {
        lemma_server_named(t, 10);
        assert(s =~= seq!["vscode-json-language-server"@]);
    } else if i == 12 {
        lemma_server_named(t, 11);
        assert(s =~= seq!["yaml-language-server"@]);
    } else if i == 13 {
        lemma_server_named(t, 12);
        assert(s =~= seq!["marksman"@]);
    } else if i == 14 {
        lemma_server_named(t, 13);
        assert(s =~= seq!["vscode-html-language-server"@]);
    } else if i == 15 {
        lemma_server_named(t, 14);
        assert(s =~= seq!["vscode-css-language-server"@]);
    } else if i == 16 {
        lemma_server_named(t, 15);
        assert(s =~= seq!["lua-language-server"@]);
    } else if i == 17 {
        lemma_server_named(t, 16);
        assert(s =~= seq!["ruby-lsp"@]);
    } else if i == 18 {
        lemma_server_named(t, 17);
        assert(s =~= seq!["zls"@]);
    }
}

/// Every server that a built-in language names is a built-in server, and a
/// formatter of one has a command.
pub proof fn law_builtin_servers(name: Seq<char>)
    ensures
        entry_named(builtin_entries(), name) matches Some(e) ==> {
            &&& e.formatter matches Some(f) ==> f.command is Some
            &&& e.lsp matches Some(s) && forall|q: int|
                0 <= q < s.len() ==> server_named(builtin_servers(), #[trigger] s[q]) is Some
        },
{
    lemma_entry_named(builtin_entries(), name);
    if let Some(e) = entry_named(builtin_entries(), name) {
        let i = choose|i: int| 0 <= i < builtin_entries().len() && #[trigger] builtin_entries()[i] == (name, e);
        lemma_builtin_entry(i);
    }
}

/// No extension occurs twice among the built-in languages, neither in one of
/// them nor in two.
pub proof fn law_builtin_extensions(a: Seq<char>, p: int, b: Seq<char>, q: int)
    ensures
        match (entry_named(builtin_entries(), a), entry_named(builtin_entries(), b)) {
            (Some(x), Some(y)) => match (x.extensions, y.extensions) {
                (Some(s), Some(t)) => 0 <= p < s.len() && 0 <= q < t.len() && s[p] == t[q] ==> a == b && p == q,
                _ => false,
            },
            _ => true,
        },
{
    let all = builtin_entries();
    lemma_entry_named(all, a);
    lemma_entry_named(all, b);
    match (entry_named(all, a), entry_named(all, b)) {
        (Some(x), Some(y)) => {
            let i = choose|i: int| 0 <= i < all.len() && #[trigger] all[i] == (a, x);
            let j = choose|j: int| 0 <= j < all.len() && #[trigger] all[j] == (b, y);
            lemma_builtin_entry(i);
            lemma_builtin_entry(j);
            let s = x.extensions->0;
            let t = y.extensions->0;
            if 0 <= p < s.len() && 0 <= q < t.len() {
                lemma_extension_place(i, p);
                lemma_extension_place(j, q);
            }
        },
        _ => {},
    }
}

proof fn lemma_owner(langs: Seq<(String, Language)>, ext: Seq<char>, k: int)
    requires
        0 <= k <= langs.len(),
    ensures
        match extension_owner(langs, ext, k) {
            Some(name) => exists|i: int|
                0 <= i < k && (#[trigger] langs[i]).0@ == name && text_of(langs[i].1.extensions@).contains(ext),
            None => forall|i: int| 0 <= i < k ==> !text_of((#[trigger] langs[i]).1.extensions@).contains(ext),
        },
    decreases k,
{
    if k > 0 {
        if text_of(langs[k - 1].1.extensions@).contains(ext) {
            assert(langs[k - 1].0@ == langs[k - 1].0@);
        } else {
            lemma_owner(langs, ext, k - 1);
        }
    }
}

/// The language that is found by an extension lists it, and none is found only
/// where no language lists it.
pub proof fn law_found_by_extension(reg: LanguageRegistry, ext: Seq<char>)
    requires
        reg.wf(),
    ensures
        match extension_owner(reg.by_name.entries@, ext, reg.by_name.entries@.len() as int) {
            Some(name) => reg.by_name.at(name) matches Some(l) && text_of(l.extensions@).contains(ext),
            None => forall|name: Seq<char>|
                (#[trigger] reg.by_name.at(name)) matches Some(l) ==> !text_of(l.extensions@).contains(ext),
        },
{
    let langs = reg.by_name.entries@;
    lemma_owner(langs, ext, langs.len() as int);
    match extension_owner(langs, ext, langs.len() as int) {
        Some(name) => {
            let i = choose|i: int|
                0 <= i < langs.len() && (#[trigger] langs[i]).0@ == name && text_of(langs[i].1.extensions@).contains(ext);
            lemma_entry_index(langs, i);
        },
        None => {
            assert forall|name: Seq<char>| (#[trigger] reg.by_name.at(name)) matches Some(l) implies !text_of(
                reg.by_name.at(name)->0.extensions@,
            ).contains(ext) by {
                lemma_entry_at(langs, name);
            }
        },
    }
}

} // verus!
