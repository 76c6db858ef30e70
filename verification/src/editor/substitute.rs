//! Replacing a pattern in the text.
use vstd::prelude::*;
use crate::editor::search::occurs;
use crate::editor::{in_text, Buffer, Doc};
use crate::text::{char_rows, chars_of, pieces, push_slice, same_chars, slice_chars, spells, split_chars, string_of};

verus! {

/// Which lines a substitution covers.
#[derive(Debug, Clone, Copy, PartialEq, Eq, Structural)]
pub enum SubsRange {
    CurrentLine,
    WholeBuffer,
}

/// The parts of a substitution command.
#[derive(Debug)]
pub struct SubsArgs<S = String> {
    pub range: SubsRange,
    pub pattern: S,
    pub replacement: S,
    pub global: bool,
}

impl View for SubsArgs {
    type V = SubsArgs<Seq<char>>;

    open spec fn view(&self) -> SubsArgs<Seq<char>> {
        SubsArgs {
            range: self.range,
            pattern: self.pattern@,
            replacement: self.replacement@,
            global: self.global,
        }
    }
}

/// How much a substitution changed.
#[derive(Debug, Clone, Copy, PartialEq, Eq, Structural)]
pub struct SubsOutcome {
    pub matches: usize,
    pub lines_changed: usize,
}

/// The command that a text spells: an optional `%`, then `s`, the pattern and
/// the replacement, each after a slash, and after one more slash an optional
/// `g`.
pub open spec fn substitution(raw: Seq<char>) -> Option<SubsArgs<Seq<char>>> {
    let p = pieces(raw, '/');
    let shaped = (p.len() == 3 || p.len() == 4) && (p[0] == "s"@ || p[0] == "%s"@);
    let flags = if p.len() == 4 {
        p[3]
    } else {
        Seq::empty()
    };
    if shaped && (flags.len() == 0 || flags == "g"@) {
        Some(
            SubsArgs {
                range: if p[0] == "s"@ {
                    SubsRange::CurrentLine
                } else {
                    SubsRange::WholeBuffer
                },
                pattern: p[1],
                replacement: p[2],
                global: flags == "g"@,
            },
        )
    } else {
        None
    }
}

/// Reads a substitution command.
pub fn parse_substitute(raw: &str) -> (r: Option<SubsArgs>)
    ensures
        match (r, substitution(raw@)) {
            (Some(a), Some(b)) => a@ == b,
            (None, None) => true,
            _ => false,
        },
{
    let cs = chars_of(raw);
    let p = split_chars(&cs, '/');
    let ghost rows = pieces(raw@, '/');
    proof {
        reveal_strlit("");
        reveal_strlit("g");
        reveal_strlit("s");
        reveal_strlit("%s");
        assert forall|i: int| 0 <= i < p.len() implies rows[i] == p@[i]@ by {
            assert(char_rows(p@)[i] == p@[i]@);
        }
        assert(rows.len() == p.len());
    }
    if p.len() != 3 && p.len() != 4 {
        return None;
    }
    let line = spells(&p[0], "s");
    if !line && !spells(&p[0], "%s") {
        return None;
    }
    let global = if p.len() == 4 { spells(&p[3], "g") } else { false };
    if p.len() == 4 && !global && p[3].len() > 0 {
        return None;
    }
    proof {
        assert(line == (rows[0] == "s"@));
        assert(p.len() == 4 && !global ==> rows[3] =~= ""@);
        assert(p.len() == 4 ==> global == (rows[3] == "g"@));
        assert("g"@.len() == 1);
        assert(""@.len() == 0);
        assert(Seq::<char>::empty() != "g"@);
    }
    Some(
        SubsArgs {
            range: if line { SubsRange::CurrentLine } else { SubsRange::WholeBuffer },
            pattern: string_of(&p[1]),
            replacement: string_of(&p[2]),
            global,
        },
    )
}

/// What is left of a line from `c` on once the pattern is replaced: its first
/// occurrence, or every one where `global` is set. Occurrences do not
/// overlap.
pub open spec fn replaced(line: Seq<char>, pat: Seq<char>, repl: Seq<char>, global: bool, c: int) -> Seq<char>
    decreases line.len() - c,
{
    if c >= line.len() {
        Seq::empty()
    } else if occurs(line, pat, c) {
        if global {
            repl + replaced(line, pat, repl, global, c + pat.len())
        } else {
            repl + line.skip(c + pat.len())
        }
    } else {
        seq![line[c]] + replaced(line, pat, repl, global, c + 1)
    }
}

/// How many occurrences that replaces.
pub open spec fn hits(line: Seq<char>, pat: Seq<char>, global: bool, c: int) -> int
    decreases line.len() - c,
{
    if c >= line.len() {
        0
    } else if occurs(line, pat, c) {
        if global {
            1 + hits(line, pat, global, c + pat.len())
        } else {
            1
        }
    } else {
        hits(line, pat, global, c + 1)
    }
}

/// The first line of the range and the line after its last.
pub open spec fn rows_of(d: Doc, range: SubsRange) -> (int, int) {
    match range {
        SubsRange::CurrentLine => (d.cursor.row as int, d.cursor.row + 1),
        SubsRange::WholeBuffer => (0, d.text.len() as int),
    }
}

/// The occurrences in the lines `a..b`.
pub open spec fn hits_in(text: Seq<Seq<char>>, s: SubsArgs<Seq<char>>, a: int, b: int) -> int
    decreases b - a,
{
    if b <= a {
        0
    } else {
        hits_in(text, s, a, b - 1) + hits(text[b - 1], s.pattern, s.global, 0)
    }
}

/// The lines among `a..b` with an occurrence.
pub open spec fn lines_hit(text: Seq<Seq<char>>, s: SubsArgs<Seq<char>>, a: int, b: int) -> int
    decreases b - a,
{
    if b <= a {
        0
    } else {
        lines_hit(text, s, a, b - 1) + if hits(text[b - 1], s.pattern, s.global, 0) > 0 {
            1int
        } else {
            0int
        }
    }
}

impl Doc {
    pub open spec fn substitute(self, s: SubsArgs<Seq<char>>) -> Doc {
        let (a, b) = rows_of(self, s.range);
        if hits_in(self.text, s, a, b) == 0 {
            self
        } else {
            Doc {
                text: Seq::new(
                    self.text.len(),
                    |r: int|
                        if a <= r < b {
                            replaced(self.text[r], s.pattern, s.replacement, s.global, 0)
                        } else {
                            self.text[r]
                        },
                ),
                ..self
            }.touched().clamped(false)
        }
    }
}

proof fn lemma_hits(line: Seq<char>, pat: Seq<char>, repl: Seq<char>, global: bool, c: int)
    requires
        0 <= c <= line.len(),
    ensures
        0 <= hits(line, pat, global, c) <= line.len() - c,
        hits(line, pat, global, c) == 0 ==> replaced(line, pat, repl, global, c) == line.skip(c),
    decreases line.len() - c,
{
    if c < line.len() {
        if occurs(line, pat, c) {
            if global {
                lemma_hits(line, pat, repl, global, c + pat.len());
            }
        } else {
            lemma_hits(line, pat, repl, global, c + 1);
            assert(seq![line[c]] + line.skip(c + 1) =~= line.skip(c));
        }
    } else {
        assert(line.skip(c) =~= Seq::<char>::empty());
    }
}

fn occurs_at(cs: &Vec<char>, pat: &Vec<char>, c: usize) -> (r: bool)
    requires
        c <= cs.len(),
    ensures
        r == occurs(cs@, pat@, c as int),
{
    if pat.len() == 0 || pat.len() > cs.len() - c {
        return false;
    }
    let s = slice_chars(cs, c, c + pat.len());
    same_chars(&s, pat)
}

/// A line with the pattern replaced, and the number of occurrences.
fn replace_in(cs: &Vec<char>, pat: &Vec<char>, repl: &Vec<char>, global: bool) -> (r: (Vec<char>, usize))
    ensures
        r.0@ == replaced(cs@, pat@, repl@, global, 0),
        r.1 == hits(cs@, pat@, global, 0),
{
    let mut out: Vec<char> = Vec::new();
    let mut n: usize = 0;
    let mut c: usize = 0;
    let ghost whole = replaced(cs@, pat@, repl@, global, 0);
    let ghost all = hits(cs@, pat@, global, 0);
    proof {
        assert(out@ + whole =~= whole);
        lemma_hits(cs@, pat@, repl@, global, 0);
    }
    while c < cs.len()
        invariant
            c <= cs.len(),
            whole == replaced(cs@, pat@, repl@, global, 0),
            all == hits(cs@, pat@, global, 0),
            0 <= all <= cs.len(),
            out@ + replaced(cs@, pat@, repl@, global, c as int) == whole,
            n + hits(cs@, pat@, global, c as int) == all,
        decreases cs.len() - c,
    {
        let ghost before = out@;
        proof {
            lemma_hits(cs@, pat@, repl@, global, c as int);
        }
        if occurs_at(cs, pat, c) {
            push_slice(&mut out, repl, 0, repl.len());
            proof {
                assert(repl@.subrange(0, repl@.len() as int) =~= repl@);
                assert(out@ =~= before + repl@);
                if global {
                    lemma_hits(cs@, pat@, repl@, global, c + pat@.len());
                }
            }
            n = n + 1;
            c = c + pat.len();
            if !global {
                push_slice(&mut out, cs, c, cs.len());
                proof {
                    assert(cs@.subrange(c as int, cs@.len() as int) =~= cs@.skip(c as int));
                    assert(out@ =~= before + (repl@ + cs@.skip(c as int)));
                }
                return (out, n);
            }
            proof {
                assert(out@ + replaced(cs@, pat@, repl@, global, c as int) =~= before + (repl@ + replaced(
                    cs@,
                    pat@,
                    repl@,
                    global,
                    c as int,
                )));
            }
        } else {
            let ch = cs[c];
            out.push(ch);
            proof {
                assert(out@ + replaced(cs@, pat@, repl@, global, c + 1) =~= before + (seq![ch] + replaced(
                    cs@,
                    pat@,
                    repl@,
                    global,
                    c + 1,
                )));
            }
            c = c + 1;
        }
    }
    proof {
        assert(out@ + Seq::<char>::empty() =~= out@);
    }
    (out, n)
}

proof fn lemma_no_hits(text: Seq<Seq<char>>, s: SubsArgs<Seq<char>>, a: int, b: int, r: int)
    requires
        a <= r < b,
        hits_in(text, s, a, b) == 0,
    ensures
        hits(text[r], s.pattern, s.global, 0) == 0,
    decreases b - a,
{
    lemma_hits_in(text, s, a, b - 1);
    lemma_hits(text[b - 1], s.pattern, s.replacement, s.global, 0);
    if r < b - 1 {
        lemma_no_hits(text, s, a, b - 1, r);
    }
}

pub proof fn lemma_hits_in(text: Seq<Seq<char>>, s: SubsArgs<Seq<char>>, a: int, b: int)
    ensures
        0 <= hits_in(text, s, a, b),
        0 <= lines_hit(text, s, a, b) <= if b > a {
            b - a
        } else {
            0
        },
        hits_in(text, s, a, b) == 0 <==> lines_hit(text, s, a, b) == 0,
    decreases b - a,
{
    if a < b {
        lemma_hits_in(text, s, a, b - 1);
        lemma_hits(text[b - 1], s.pattern, s.replacement, s.global, 0);
    }
}

impl Buffer {
    /// Replaces a pattern in the lines of the range. The number of matches is
    /// held within its type.
    pub fn substitute(&mut self, s: &SubsArgs) -> (r: SubsOutcome)
        requires
            old(self)@.wf(),
        ensures
            final(self)@ == old(self)@.substitute(s@),
            final(self)@.wf(),
            ({
                let (a, b) = rows_of(old(self)@, s.range);
                let n = hits_in(old(self)@.text, s@, a, b);
                &&& r.matches == if n > usize::MAX {
                    usize::MAX as int
                } else {
                    n
                }
                &&& r.lines_changed == lines_hit(old(self)@.text, s@, a, b)
            }),
    {
        let ghost d = self@;
        let ghost args = s@;
        let pat = chars_of(s.pattern.as_str());
        let repl = chars_of(s.replacement.as_str());
        let total = self.lines.len();
        let (a, b) = match s.range {
            SubsRange::CurrentLine => (self.cursor.row, self.cursor.row + 1),
            SubsRange::WholeBuffer => (0, total),
        };
        let mut matches: usize = 0;
        let mut lines_changed: usize = 0;
        let mut row: usize = a;
        while row < b
            invariant
                a <= row <= b <= self.lines.len(),
                self@.text.len() == d.text.len(),
                self@ == (Doc { text: self@.text, ..d }),
                args == s@,
                pat@ == args.pattern,
                repl@ == args.replacement,
                forall|r: int|
                    0 <= r < d.text.len() ==> self@.text[r] == if a <= r < row {
                        replaced(d.text[r], args.pattern, args.replacement, args.global, 0)
                    } else {
                        d.text[r]
                    },
                matches == (if hits_in(d.text, args, a as int, row as int) > usize::MAX {
                    usize::MAX as int
                } else {
                    hits_in(d.text, args, a as int, row as int)
                }),
                lines_changed == lines_hit(d.text, args, a as int, row as int),
                lines_changed <= row - a,
            decreases b - row,
        {
            let cs = self.line_chars(row);
            let (out, n) = replace_in(&cs, &pat, &repl, s.global);
            proof {
                lemma_hits(cs@, pat@, repl@, s.global, 0);
                assert(cs@.skip(0) =~= cs@);
                lemma_hits_in(d.text, args, a as int, row as int);
            }
            if n > 0 {
                self.set_line(row, &out);
                matches = matches.saturating_add(n);
                lines_changed = lines_changed + 1;
            }
            row = row + 1;
        }
        proof {
            lemma_hits_in(d.text, args, a as int, b as int);
        }
        if matches > 0 {
            let ghost t = self@.text;
            self.touch();
            self.clamp_col(false);
            proof {
                assert(t =~= d.substitute(args).text);
                assert(self@ =~= d.substitute(args));
                assert(in_text(self@.text, self@.cursor));
            }
        } else {
            proof {
                assert forall|r: int| 0 <= r < d.text.len() implies self@.text[r] == d.text[r] by {
                    if a <= r < b {
                        lemma_no_hits(d.text, args, a as int, b as int, r);
                        lemma_hits(d.text[r], args.pattern, args.replacement, args.global, 0);
                        assert(d.text[r].skip(0) =~= d.text[r]);
                    }
                }
                assert(self@.text =~= d.text);
            }
        }
        SubsOutcome { matches, lines_changed }
    }
}

proof fn lemma_replaced_by_itself(line: Seq<char>, pat: Seq<char>, global: bool, c: int)
    requires
        0 <= c <= line.len(),
    ensures
        replaced(line, pat, pat, global, c) == line.skip(c),
    decreases line.len() - c,
{
    if c == line.len() {
        assert(line.skip(c) =~= Seq::<char>::empty());
    } else if occurs(line, pat, c) {
        let rest = c + pat.len();
        if global {
            lemma_replaced_by_itself(line, pat, global, rest);
        }
        assert(line.subrange(c, rest) =~= pat);
        assert(pat + line.skip(rest) =~= line.skip(c)) by {
            assert forall|i: int| 0 <= i < line.len() - c implies (pat + line.skip(rest))[i] == line.skip(c)[i] by {
                if i < pat.len() {
                    assert(line.subrange(c, rest)[i] == line[c + i]);
                }
            }
        }
    } else {
        lemma_replaced_by_itself(line, pat, global, c + 1);
        assert(seq![line[c]] + line.skip(c + 1) =~= line.skip(c));
    }
}

/// To replace a pattern by itself changes no text.
pub proof fn law_replaced_by_itself(d: Doc, s: SubsArgs<Seq<char>>)
    requires
        s.replacement == s.pattern,
    ensures
        d.substitute(s).text == d.text,
{
    assert forall|r: int| 0 <= r < d.text.len() implies replaced(
        d.text[r],
        s.pattern,
        s.replacement,
        s.global,
        0,
    ) == #[trigger] d.text[r] by {
        lemma_replaced_by_itself(d.text[r], s.pattern, s.global, 0);
        assert(d.text[r].skip(0) =~= d.text[r]);
    }
    assert(d.substitute(s).text =~= d.text);
}

} // verus!
