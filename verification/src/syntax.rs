//! Syntax trees: parsing the text, and asking queries of the tree.
use vstd::prelude::*;
use tree_sitter::{Language as TsLanguage, LanguageError as TsLanguageError, StreamingIterator};
use crate::highlight::{
    all_captures, bytes_before, captured, captures_in_rows, captures_of, find_text_object, matches_of, object_around,
    row_captures, rule_rows, Capture, MatchView, Predicate, PredicateArg, PredicateView, RawCapture, RawMatch,
};
use crate::path::{join, joined};
use crate::text::{chars_of, copy_str, push_str, string_of, text_of};

verus! {

/// `tree_sitter::Language`: a grammar.
#[verifier::external_type_specification]
#[verifier::external_body]
pub struct ExTsLanguage(TsLanguage);

/// `tree_sitter::Parser`.
#[verifier::external_type_specification]
#[verifier::external_body]
pub struct ExParser(tree_sitter::Parser);

/// `tree_sitter::Tree`: a text as it was parsed.
#[verifier::external_type_specification]
#[verifier::external_body]
pub struct ExTree(tree_sitter::Tree);

/// `tree_sitter::Query`: patterns, compiled for a grammar.
#[verifier::external_type_specification]
#[verifier::external_body]
pub struct ExQuery(tree_sitter::Query);

/// `tree_sitter::LanguageError`.
#[verifier::external_type_specification]
#[verifier::external_body]
pub struct ExTsLanguageError(TsLanguageError);

/// `tree_sitter::QueryError`.
#[verifier::external_type_specification]
#[verifier::external_body]
pub struct ExQueryError(tree_sitter::QueryError);

/// Whether a parser works without a limit: no timeout, no flag that stops it,
/// and all of a text to be parsed. The second argument is the grammar that it
/// has, if any.
pub uninterp spec fn unlimited(parser: tree_sitter::Parser, grammar: Option<TsLanguage>) -> bool;

/// `tree_sitter::Parser::new`: a parser without a limit and without a grammar.
pub assume_specification[ tree_sitter::Parser::new ]() -> (r: tree_sitter::Parser)
    ensures
        unlimited(r, None),
;

/// Whether a grammar is of a version that the parser takes.
pub uninterp spec fn fits(language: TsLanguage) -> bool;

/// `tree_sitter::Parser::set_language`: succeeds for a grammar of a fitting
/// version, which the parser then has. Limits are left as they are.
pub assume_specification[ tree_sitter::Parser::set_language ](
    parser: &mut tree_sitter::Parser,
    language: &TsLanguage,
) -> (r: Result<(), TsLanguageError>)
    ensures
        r is Ok <==> fits(*language),
        forall|l: Option<TsLanguage>| #[trigger]
            unlimited(*old(parser), l) ==> unlimited(
                *final(parser),
                if r is Ok {
                    Some(*language)
                } else {
                    l
                },
            ),
;

/// The query that patterns make for a grammar, where they compile.
pub uninterp spec fn compiled(language: TsLanguage, source: Seq<char>) -> Option<tree_sitter::Query>;

/// The grammar that a query is for.
pub uninterp spec fn query_grammar(query: tree_sitter::Query) -> TsLanguage;

/// `tree_sitter::Query::new`: the query, which is for that grammar, or an error
/// where the patterns do not compile for it.
pub assume_specification[ tree_sitter::Query::new ](language: &TsLanguage, source: &str) -> (r: Result<
    tree_sitter::Query,
    tree_sitter::QueryError,
>)
    ensures
        match r {
            Ok(q) => compiled(*language, source@) == Some(q) && query_grammar(q) == *language,
            Err(_) => compiled(*language, source@) is None,
        },
;

/// The text that a tree was parsed from.
pub uninterp spec fn parsed_text(tree: tree_sitter::Tree) -> Seq<char>;

/// The grammar that a tree was parsed by.
pub uninterp spec fn tree_grammar(tree: tree_sitter::Tree) -> TsLanguage;

/// `tree_sitter::Parser::parse`, from scratch: a tree of the text, by the
/// parser's grammar. A parser with a grammar and without a limit always gives
/// one, for a text whose bytes can be counted in 32 bits. Which tree it is is
/// left unsaid: that is the doing of the grammar's own code, which is loaded
/// when the editor runs.
#[verifier::external_body]
fn parse(parser: &mut tree_sitter::Parser, source: &str) -> (r: Option<tree_sitter::Tree>)
    ensures
        r matches Some(t) ==> parsed_text(t) == source@,
        forall|l: TsLanguage| #[trigger]
            unlimited(*old(parser), Some(l)) ==> {
                &&& r matches Some(t) ==> tree_grammar(t) == l
                &&& bytes_before(source@, source@.len() as int) <= u32::MAX ==> r is Some
                &&& unlimited(*final(parser), Some(l))
            },
{
    parser.parse(source, None)
}

/// The names of a query's captures, by their numbers.
pub uninterp spec fn names_in(query: tree_sitter::Query) -> Seq<Seq<char>>;

/// `tree_sitter::Query::capture_names`.
#[verifier::external_body]
fn capture_names(query: &tree_sitter::Query) -> (r: Vec<String>)
    ensures
        text_of(r@) == names_in(*query),
{
    query.capture_names().iter().map(|s| s.to_string()).collect()
}

/// The predicates of each pattern of a query that the engine does not test
/// itself.
pub uninterp spec fn predicates_in(query: tree_sitter::Query) -> Seq<Seq<PredicateView>>;

/// `tree_sitter::Query::general_predicates` for every pattern, of which
/// `tree_sitter::Query::pattern_count` gives the number.
#[verifier::external_body]
fn query_predicates(query: &tree_sitter::Query) -> (r: Vec<Vec<Predicate>>)
    ensures
        rule_rows(r@) == predicates_in(*query),
{
    let convert = |p: &tree_sitter::QueryPredicate| Predicate {
        operator: p.operator.to_string(),
        args: p.args.iter().map(|a| match a {
            tree_sitter::QueryPredicateArg::Capture(n) => PredicateArg::Capture(*n),
            tree_sitter::QueryPredicateArg::String(s) => PredicateArg::Text(s.to_string()),
        }).collect(),
    };
    (0..query.pattern_count()).map(|i| query.general_predicates(i).iter().map(convert).collect()).collect()
}

/// The matches of a query in a tree and its text, in the order in which they
/// are found.
pub uninterp spec fn found_in(query: tree_sitter::Query, tree: tree_sitter::Tree, source: Seq<char>) -> Seq<MatchView>;

/// `tree_sitter::QueryCursor::matches`: every match with the nodes that it
/// captured, in the order in which they are found. The text has to be the one
/// that the tree was parsed from, since the engine reads the text of nodes, and
/// the query has to be for the tree's grammar.
#[verifier::external_body]
fn query_matches(query: &tree_sitter::Query, tree: &tree_sitter::Tree, source: &str) -> (r: Vec<RawMatch>)
    requires
        parsed_text(*tree) == source@,
        tree_grammar(*tree) == query_grammar(*query),
    ensures
        matches_of(r@) == found_in(*query, *tree, source@),
{
    let mut cursor = tree_sitter::QueryCursor::new();
    let mut found = cursor.matches(query, tree.root_node(), source.as_bytes());
    let mut out = Vec::new();
    while let Some(m) = found.next() {
        let captures = m.captures.iter().map(|c| {
            let (lo, hi) = (c.node.start_byte(), c.node.end_byte());
            let (a, b) = (c.node.start_position(), c.node.end_position());
            RawCapture { index: c.index, lo, hi, start: (a.row, a.column), end: (b.row, b.column) }
        }).collect();
        out.push(RawMatch { pattern: m.pattern_index, captures });
    }
    out
}

/// Why there is no highlighter for a grammar.
#[derive(Debug, Clone, Copy, PartialEq, Eq, Structural)]
pub enum SyntaxError {
    /// The grammar is of another version.
    Language,
    /// The patterns for highlights do not compile.
    Highlights,
    /// The patterns for text objects do not compile.
    TextObjects,
}

impl SyntaxError {
    pub open spec fn words(self) -> Seq<char> {
        match self {
            SyntaxError::Language => "setting parser language (ABI mismatch?)"@,
            SyntaxError::Highlights => "compiling highlights query"@,
            SyntaxError::TextObjects => "compiling textobjects query"@,
        }
    }

    pub fn message(self) -> (r: String)
        ensures
            r@ == self.words(),
    {
        match self {
            SyntaxError::Language => copy_str("setting parser language (ABI mismatch?)"),
            SyntaxError::Highlights => copy_str("compiling highlights query"),
            SyntaxError::TextObjects => copy_str("compiling textobjects query"),
        }
    }
}

/// The syntax of one buffer: its tree, and the queries that are asked of it.
pub struct Highlighter {
    pub parser: tree_sitter::Parser,
    pub query: tree_sitter::Query,
    /// The patterns of text objects, where the language has some.
    pub textobjects: Option<tree_sitter::Query>,
    pub textobject_names: Vec<String>,
    /// The predicates of each pattern of text objects.
    pub textobject_rules: Vec<Vec<Predicate>>,
    pub tree: Option<tree_sitter::Tree>,
    /// What the tree was made from.
    pub source: String,
    /// The version of the buffer that the tree was made from.
    pub parsed_version: Option<u64>,
    pub names: Vec<String>,
}

impl Highlighter {
    /// The parser can parse, the tree is that of the text, and all are for one
    /// grammar.
    pub open spec fn wf(self) -> bool {
        &&& unlimited(self.parser, Some(query_grammar(self.query)))
        &&& self.textobjects matches Some(q) ==> query_grammar(q) == query_grammar(self.query)
        &&& self.tree matches Some(t) ==> parsed_text(t) == self.source@ && tree_grammar(t) == query_grammar(
            self.query,
        )
    }

    /// The matches of a query in what was parsed.
    pub open spec fn found(self, query: tree_sitter::Query) -> Seq<MatchView> {
        match self.tree {
            Some(t) => found_in(query, t, self.source@),
            None => Seq::empty(),
        }
    }

    /// What comes of another highlighter once a version of a text was parsed:
    /// the same where that version was parsed already, or else one with a tree
    /// of that text.
    pub open spec fn caught_up(self, before: Highlighter, source: Seq<char>, version: u64) -> bool {
        if before.parsed_version == Some(version) {
            self == before
        } else {
            &&& self == (Highlighter {
                parser: self.parser,
                tree: self.tree,
                source: self.source,
                parsed_version: Some(version),
                ..before
            })
            &&& self.source@ == source
            &&& bytes_before(source, source.len() as int) <= u32::MAX ==> self.tree is Some
        }
    }

    /// A highlighter for a grammar, with nothing parsed yet.
    pub fn new(
        language: &TsLanguage,
        highlights_src: &str,
        textobjects_src: Option<&str>,
    ) -> (r: Result<Highlighter, SyntaxError>)
        ensures
            r matches Err(SyntaxError::Language) <==> !fits(*language),
            r matches Err(SyntaxError::Highlights) <==> fits(*language) && compiled(*language, highlights_src@) is None,
            r matches Err(SyntaxError::TextObjects) <==> {
                &&& fits(*language)
                &&& compiled(*language, highlights_src@) is Some
                &&& textobjects_src matches Some(s) && compiled(*language, s@) is None
            },
            r matches Ok(h) ==> {
                &&& h.wf()
                &&& h.tree is None
                &&& h.source@ == ""@
                &&& h.parsed_version is None
                &&& compiled(*language, highlights_src@) == Some(h.query)
                &&& text_of(h.names@) == names_in(h.query)
                &&& match (textobjects_src, h.textobjects) {
                    (Some(s), Some(q)) => {
                        &&& compiled(*language, s@) == Some(q)
                        &&& text_of(h.textobject_names@) == names_in(q)
                        &&& rule_rows(h.textobject_rules@) == predicates_in(q)
                    },
                    (None, None) => h.textobject_names@.len() == 0 && h.textobject_rules@.len() == 0,
                    _ => false,
                }
            },
    {
        let mut parser = tree_sitter::Parser::new();
        match parser.set_language(language) {
            Ok(_) => {},
            Err(_) => {
                return Err(SyntaxError::Language);
            },
        }
        let query = match tree_sitter::Query::new(language, highlights_src) {
            Ok(q) => q,
            Err(_) => {
                return Err(SyntaxError::Highlights);
            },
        };
        let names = capture_names(&query);
        let mut textobjects: Option<tree_sitter::Query> = None;
        let mut textobject_names: Vec<String> = Vec::new();
        let mut textobject_rules: Vec<Vec<Predicate>> = Vec::new();
        if let Some(src) = textobjects_src {
            match tree_sitter::Query::new(language, src) {
                Ok(q) => {
                    textobject_names = capture_names(&q);
                    textobject_rules = query_predicates(&q);
                    textobjects = Some(q);
                },
                Err(_) => {
                    return Err(SyntaxError::TextObjects);
                },
            }
        }
        Ok(
            Highlighter {
                parser,
                query,
                textobjects,
                textobject_names,
                textobject_rules,
                tree: None,
                source: copy_str(""),
                parsed_version: None,
                names,
            },
        )
    }

    /// Parses a text, unless that version of it was parsed already. Which tree
    /// comes of a text is the grammar's doing.
    pub fn refresh(&mut self, source: &str, version: u64)
        requires
            old(self).wf(),
        ensures
            final(self).wf(),
            final(self).caught_up(*old(self), source@, version),
    {
        if let Some(v) = self.parsed_version {
            if v == version {
                return;
            }
        }
        self.tree = parse(&mut self.parser, source);
        self.source = copy_str(source);
        self.parsed_version = Some(version);
    }

    /// The captures that touch the rows `start_row..=end_row`, in document
    /// order, with character columns. None where nothing was parsed.
    pub fn captures_in_rows(&self, start_row: usize, end_row: usize) -> (r: Vec<Capture>)
        requires
            self.wf(),
        ensures
            captures_of(r@) == {
                let ms = self.found(self.query);
                let all = captured(ms, ms.len() as int);
                row_captures(
                    self.source@,
                    text_of(self.names@),
                    all,
                    start_row as int,
                    end_row as int,
                    all.len() as int,
                )
            },
    {
        match &self.tree {
            None => {
                let r: Vec<Capture> = Vec::new();
                assert(captures_of(r@) =~= Seq::empty());
                r
            },
            Some(tree) => {
                let ms = query_matches(&self.query, tree, self.source.as_str());
                let all = all_captures(&ms);
                captures_in_rows(self.source.as_str(), &self.names, &all, start_row, end_row)
            },
        }
    }

    /// The smallest text object of the given name that holds the cursor, in
    /// characters; the end is exclusive. None where nothing was parsed or the
    /// language has no text objects.
    pub fn find_text_object(&self, target: &str, cursor_row: usize, cursor_col: usize) -> (r: Option<
        (usize, usize, usize, usize),
    >)
        requires
            self.wf(),
        ensures
            self.textobjects is None ==> r is None,
            self.textobjects matches Some(q) ==> match (
                r,
                object_around(
                    self.source@,
                    text_of(self.textobject_names@),
                    rule_rows(self.textobject_rules@),
                    self.found(q),
                    target@,
                    cursor_row as int,
                    cursor_col as int,
                ),
            ) {
                (Some(a), Some(b)) => a.0 == b.0 && a.1 == b.1 && a.2 == b.2 && a.3 == b.3,
                (None, None) => true,
                _ => false,
            },
    {
        match (&self.tree, &self.textobjects) {
            (Some(tree), Some(query)) => {
                let ms = query_matches(query, tree, self.source.as_str());
                find_text_object(
                    self.source.as_str(),
                    &self.textobject_names,
                    &self.textobject_rules,
                    &ms,
                    target,
                    cursor_row,
                    cursor_col,
                )
            },
            _ => None,
        }
    }
}

/// The file names under which the library of a grammar is looked for, in
/// order.
pub open spec fn library_names(name: Seq<char>) -> Seq<Seq<char>> {
    seq![
        name + ".so"@,
        name + ".dylib"@,
        name + ".dll"@,
        "lib"@ + name + ".so"@,
        "lib"@ + name + ".dylib"@,
    ]
}

/// The file names under which the library of a grammar is looked for, in
/// order.
pub fn library_candidates(name: &str) -> (r: Vec<String>)
    ensures
        text_of(r@) == library_names(name@),
{
    let mut out: Vec<String> = Vec::new();
    out.push(glue("", name, ".so"));
    out.push(glue("", name, ".dylib"));
    out.push(glue("", name, ".dll"));
    out.push(glue("lib", name, ".so"));
    out.push(glue("lib", name, ".dylib"));
    proof {
        reveal_strlit("");
        assert(""@ + name@ =~= name@);
        assert(text_of(out@) =~= library_names(name@));
    }
    out
}

fn glue(a: &str, b: &str, c: &str) -> (r: String)
    ensures
        r@ == a@ + b@ + c@,
{
    let mut s = String::new();
    push_str(&mut s, a);
    push_str(&mut s, b);
    push_str(&mut s, c);
    proof {
        assert(s@ =~= a@ + b@ + c@);
    }
    s
}

/// Which of the candidate files serves: the first that exists. `None` means
/// that no library is installed.
pub fn library_path(exists: &Vec<bool>) -> (r: Option<usize>)
    ensures
        match r {
            Some(i) => i < exists.len() && exists@[i as int] && forall|k: int| 0 <= k < i ==> !exists@[k],
            None => forall|k: int| 0 <= k < exists.len() ==> !exists@[k],
        },
{
    let mut i: usize = 0;
    while i < exists.len()
        invariant
            i <= exists.len(),
            forall|k: int| 0 <= k < i ==> !exists@[k],
        decreases exists.len() - i,
    {
        if exists[i] {
            return Some(i);
        }
        i = i + 1;
    }
    None
}

/// A grammar's name as a symbol spells it: with underscores for hyphens.
pub open spec fn with_underscores(s: Seq<char>) -> Seq<char> {
    s.map_values(
        |c: char|
            if c == '-' {
                '_'
            } else {
                c
            },
    )
}

/// The symbol by which the library of a grammar gives the grammar.
pub fn symbol_name(grammar: &str) -> (r: String)
    ensures
        r@ == "tree_sitter_"@ + with_underscores(grammar@),
{
    let cs = chars_of(grammar);
    let mut out: Vec<char> = Vec::new();
    let mut i: usize = 0;
    while i < cs.len()
        invariant
            i <= cs.len(),
            out@ == with_underscores(cs@.take(i as int)),
        decreases cs.len() - i,
    {
        let c = if cs[i] == '-' {
            '_'
        } else {
            cs[i]
        };
        out.push(c);
        proof {
            assert(cs@.take(i + 1) =~= cs@.take(i as int).push(cs@[i as int]));
            assert(out@ =~= with_underscores(cs@.take(i + 1)));
        }
        i = i + 1;
    }
    assert(cs@.take(i as int) =~= cs@);
    let mut s = copy_str("tree_sitter_");
    let tail = string_of(&out);
    push_str(&mut s, tail.as_str());
    s
}

/// The file of a language's query: in a directory of the language's name.
pub fn query_file(base: &str, name: &str, kind: &str) -> (r: String)
    ensures
        r@ == joined(joined(base@, name@), kind@ + ".scm"@),
{
    let mut file = copy_str(kind);
    push_str(&mut file, ".scm");
    let dir = join(base, name);
    join(dir.as_str(), file.as_str())
}

} // verus!
