//! Characters and strings: the few facts about `std` that the editor leans
//! on, and the conversions between `String` and character vectors.
use vstd::prelude::*;

verus! {

/// The code points that carry Unicode's `White_Space` property.
#[verifier::opaque]
pub open spec fn white_space(c: char) -> bool {
    let n = c as u32;
    ||| 0x9 <= n <= 0xd
    ||| n == 0x20
    ||| n == 0x85
    ||| n == 0xa0
    ||| n == 0x1680
    ||| 0x2000 <= n <= 0x200a
    ||| n == 0x2028
    ||| n == 0x2029
    ||| n == 0x202f
    ||| n == 0x205f
    ||| n == 0x3000
}

/// The code points that are alphabetic or numeric in Unicode's sense.
pub uninterp spec fn alphanumeric(c: char) -> bool;

/// The code points that carry Unicode's `Uppercase` property.
pub uninterp spec fn uppercase(c: char) -> bool;

/// The code points that carry Unicode's `Lowercase` property.
pub uninterp spec fn lowercase(c: char) -> bool;

/// The full lowercase mapping of a character.
pub uninterp spec fn lower_mapping(c: char) -> Seq<char>;

/// The full uppercase mapping of a character.
pub uninterp spec fn upper_mapping(c: char) -> Seq<char>;

pub open spec fn ascii_digit(c: char) -> bool {
    '0' <= c && c <= '9'
}

pub open spec fn ascii_upper(c: char) -> bool {
    'A' <= c && c <= 'Z'
}

pub open spec fn ascii_lower(c: char) -> bool {
    'a' <= c && c <= 'z'
}

/// `char::is_whitespace` decides Unicode's `White_Space`, which `white_space`
/// spells out. Within ASCII these are the space and the controls from tab to
/// carriage return.
pub assume_specification[ char::is_whitespace ](c: char) -> (b: bool)
    ensures
        b == white_space(c),
        (c as u32) < 0x80 ==> b == (c == ' ' || 9 <= c as u32 <= 13),
;

/// `char::is_alphanumeric` decides "alphabetic or numeric". Within ASCII
/// these are the letters and the digits.
pub assume_specification[ char::is_alphanumeric ](c: char) -> (b: bool)
    ensures
        b == alphanumeric(c),
        (c as u32) < 0x80 ==> b == (ascii_digit(c) || ascii_upper(c) || ascii_lower(c)),
;

/// `char::is_uppercase` decides Unicode's `Uppercase`. Within ASCII these
/// are `A` to `Z`.
pub assume_specification[ char::is_uppercase ](c: char) -> (b: bool)
    ensures
        b == uppercase(c),
        (c as u32) < 0x80 ==> b == ascii_upper(c),
;

/// `char::is_lowercase` decides Unicode's `Lowercase`. Within ASCII these
/// are `a` to `z`.
pub assume_specification[ char::is_lowercase ](c: char) -> (b: bool)
    ensures
        b == lowercase(c),
        (c as u32) < 0x80 ==> b == ascii_lower(c),
;

/// `String::push` appends one character.
pub assume_specification[ String::push ](s: &mut String, ch: char)
    ensures
        final(s)@ == old(s)@.push(ch),
;

/// `char::to_lowercase`, collected: the characters of the lowercase mapping.
/// An ASCII letter maps to the one letter 32 places up; any other ASCII
/// character maps to itself.
#[verifier::external_body]
pub(crate) fn to_lower(c: char) -> (r: Vec<char>)
    ensures
        r@ == lower_mapping(c),
        (c as u32) < 0x80 ==> r@ == seq![
            if ascii_upper(c) { ((c as u32) + 32) as char } else { c },
        ],
{
    c.to_lowercase().collect()
}

/// `char::to_uppercase`, collected: the characters of the uppercase mapping.
/// An ASCII letter maps to the one letter 32 places down; any other ASCII
/// character maps to itself.
#[verifier::external_body]
pub(crate) fn to_upper(c: char) -> (r: Vec<char>)
    ensures
        r@ == upper_mapping(c),
        (c as u32) < 0x80 ==> r@ == seq![
            if ascii_lower(c) { ((c as u32) - 32) as char } else { c },
        ],
{
    c.to_uppercase().collect()
}

/// The lowercase form of a text.
pub uninterp spec fn lower_text(s: Seq<char>) -> Seq<char>;

/// `str::to_lowercase`: the lowercase form of a text. Of a text in ASCII it
/// is the text with each letter `A` to `Z` 32 places up.
#[verifier::external_body]
pub(crate) fn to_lower_text(s: &str) -> (r: String)
    ensures
        r@ == lower_text(s@),
        (forall|i: int| 0 <= i < s@.len() ==> (#[trigger] s@[i] as u32) < 0x80) ==> r@ == s@.map_values(
            |c: char|
                if ascii_upper(c) {
                    ((c as u32) + 32) as char
                } else {
                    c
                },
        ),
{
    s.to_lowercase()
}

/// The characters of a string, in order.
pub fn chars_of(s: &str) -> (r: Vec<char>)
    ensures
        r@ == s@,
{
    let mut out: Vec<char> = Vec::new();
    for c in it: s.chars()
        invariant
            out@ == it.seq().take(it.index() as int),
            it.seq() == s@,
    {
        out.push(c);
    }
    proof {
        assert(out@ =~= s@);
    }
    out
}

/// The string made of the given characters.
pub fn string_of(cs: &Vec<char>) -> (r: String)
    ensures
        r@ == cs@,
{
    let mut out = String::new();
    let mut i: usize = 0;
    while i < cs.len()
        invariant
            i <= cs.len(),
            out@ == cs@.take(i as int),
        decreases cs.len() - i,
    {
        out.push(cs[i]);
        i = i + 1;
        proof {
            assert(cs@.take(i as int) =~= cs@.take(i - 1).push(cs@[i - 1]));
        }
    }
    proof {
        assert(cs@.take(i as int) =~= cs@);
    }
    out
}

/// The characters of an optional string.
pub open spec fn opt_str(s: Option<String>) -> Option<Seq<char>> {
    match s {
        Some(p) => Some(p@),
        None => None,
    }
}

/// The length of a text and its first four characters, with spaces for those
/// that it lacks. Texts of different shapes differ.
pub open spec fn shape(s: Seq<char>) -> (nat, char, char, char, char) {
    (s.len(), char_or_space(s, 0), char_or_space(s, 1), char_or_space(s, 2), char_or_space(s, 3))
}

pub open spec fn char_or_space(s: Seq<char>, i: int) -> char {
    if i < s.len() {
        s[i]
    } else {
        ' '
    }
}

/// The characters of each line.
pub open spec fn text_of(lines: Seq<String>) -> Seq<Seq<char>> {
    Seq::new(lines.len(), |i: int| lines[i]@)
}

/// The characters `a..b` of a vector.
pub fn slice_chars(cs: &Vec<char>, a: usize, b: usize) -> (r: Vec<char>)
    requires
        a <= b <= cs.len(),
    ensures
        r@ == cs@.subrange(a as int, b as int),
{
    let mut out: Vec<char> = Vec::new();
    push_slice(&mut out, cs, a, b);
    proof {
        assert(out@ =~= cs@.subrange(a as int, b as int));
    }
    out
}

/// Appends the characters `a..b` of `cs` to `out`.
pub fn push_slice(out: &mut Vec<char>, cs: &Vec<char>, a: usize, b: usize)
    requires
        a <= b <= cs.len(),
    ensures
        final(out)@ == old(out)@ + cs@.subrange(a as int, b as int),
{
    let mut i: usize = a;
    while i < b
        invariant
            a <= i <= b <= cs.len(),
            out@ == old(out)@ + cs@.subrange(a as int, i as int),
        decreases b - i,
    {
        out.push(cs[i]);
        i = i + 1;
        proof {
            assert(out@ =~= old(out)@ + cs@.subrange(a as int, i as int));
        }
    }
}

/// The string made of the characters `a..b`.
pub fn string_slice(cs: &Vec<char>, a: usize, b: usize) -> (r: String)
    requires
        a <= b <= cs.len(),
    ensures
        r@ == cs@.subrange(a as int, b as int),
{
    let part = slice_chars(cs, a, b);
    string_of(&part)
}

/// A copy of a string.
pub fn copy_str(s: &str) -> (r: String)
    ensures
        r@ == s@,
{
    let cs = chars_of(s);
    string_of(&cs)
}

/// Appends the characters of `s` to `out`.
pub fn push_str(out: &mut String, s: &str)
    ensures
        final(out)@ == old(out)@ + s@,
{
    let cs = chars_of(s);
    let mut i: usize = 0;
    while i < cs.len()
        invariant
            i <= cs.len(),
            cs@ == s@,
            out@ == old(out)@ + s@.take(i as int),
        decreases cs.len() - i,
    {
        out.push(cs[i]);
        i = i + 1;
        proof {
            assert(out@ =~= old(out)@ + s@.take(i as int));
        }
    }
    proof {
        assert(s@.take(i as int) =~= s@);
    }
}

/// Whether two strings hold the same characters.
pub fn same_str(a: &str, b: &str) -> (r: bool)
    ensures
        r == (a@ == b@),
{
    let x = chars_of(a);
    let y = chars_of(b);
    same_chars(&x, &y)
}

/// Whether two vectors hold the same characters.
pub fn same_chars(x: &Vec<char>, y: &Vec<char>) -> (r: bool)
    ensures
        r == (x@ == y@),
{
    if x.len() != y.len() {
        return false;
    }
    let mut i: usize = 0;
    while i < x.len()
        invariant
            i <= x.len(),
            x.len() == y.len(),
            forall|k: int| 0 <= k < i ==> x@[k] == y@[k],
        decreases x.len() - i,
    {
        if x[i] != y[i] {
            return false;
        }
        i = i + 1;
    }
    proof {
        assert(x@ =~= y@);
    }
    true
}

/// A copy of a list of lines.
pub fn copy_lines(lines: &Vec<String>) -> (r: Vec<String>)
    ensures
        r@ == lines@,
{
    let mut out: Vec<String> = Vec::new();
    let mut i: usize = 0;
    while i < lines.len()
        invariant
            i <= lines.len(),
            out@ == lines@.take(i as int),
        decreases lines.len() - i,
    {
        out.push(lines[i].clone());
        i = i + 1;
        proof {
            assert(out@ =~= lines@.take(i as int));
        }
    }
    proof {
        assert(lines@.take(i as int) =~= lines@);
    }
    out
}

/// The lines `a..b`, with a newline between neighbours.
pub open spec fn join(text: Seq<Seq<char>>, a: int, b: int) -> Seq<char>
    decreases b - a,
{
    if b <= a {
        Seq::empty()
    } else if b == a + 1 {
        text[a]
    } else {
        join(text, a, b - 1).push('\n') + text[b - 1]
    }
}

/// The pieces of `s` between newlines; one piece more than there are newlines.
pub open spec fn split(s: Seq<char>) -> Seq<Seq<char>>
    decreases s.len(),
{
    if s.len() == 0 {
        seq![Seq::empty()]
    } else {
        let front = split(s.drop_last());
        if s.last() == '\n' {
            front.push(Seq::empty())
        } else {
            front.update(front.len() - 1, front.last().push(s.last()))
        }
    }
}

pub proof fn lemma_split_nonempty(s: Seq<char>)
    ensures
        split(s).len() >= 1,
    decreases s.len(),
{
    if s.len() > 0 {
        lemma_split_nonempty(s.drop_last());
    }
}

/// Splitting a text into lines and joining the lines gives the text back.
pub proof fn law_join_split(s: Seq<char>)
    ensures
        join(split(s), 0, split(s).len() as int) == s,
    decreases s.len(),
{
    lemma_split_nonempty(s);
    if s.len() > 0 {
        let p = s.drop_last();
        law_join_split(p);
        lemma_split_nonempty(p);
        let f = split(p);
        let n = f.len() as int;
        if s.last() == '\n' {
            lemma_join_prefix(f, split(s), 0, n);
            assert(join(split(s), 0, n + 1) =~= join(f, 0, n).push('\n') + Seq::<char>::empty());
            assert(s =~= p.push('\n'));
        } else {
            let g = split(s);
            lemma_join_prefix(f, g, 0, n - 1);
            assert(s =~= p.push(s.last()));
            if n == 1 {
                assert(join(f, 0, 1) == f[0]);
                assert(join(g, 0, 1) == g[0]);
            } else {
                assert(join(g, 0, n) =~= join(f, 0, n).push(s.last()));
            }
        }
    }
}

/// `join` only reads the lines it spans.
pub proof fn lemma_join_prefix(t: Seq<Seq<char>>, u: Seq<Seq<char>>, a: int, b: int)
    requires
        0 <= a,
        b <= t.len(),
        b <= u.len(),
        forall|i: int| a <= i < b ==> t[i] == u[i],
    ensures
        join(t, a, b) == join(u, a, b),
    decreases b - a,
{
    if b > a + 1 {
        lemma_join_prefix(t, u, a, b - 1);
    }
}

/// Joining lines that hold no newline and splitting the result gives the
/// lines back.
pub proof fn law_split_join(text: Seq<Seq<char>>)
    requires
        text.len() >= 1,
        forall|i: int, k: int| #![auto] 0 <= i < text.len() && 0 <= k < text[i].len() ==> text[i][k] != '\n',
    ensures
        split(join(text, 0, text.len() as int)) == text,
    decreases text.len(),
{
    let n = text.len() as int;
    if n == 1 {
        lemma_split_extend(Seq::empty(), text[0]);
        assert(Seq::<char>::empty() + text[0] =~= text[0]);
        let base = split(Seq::<char>::empty());
        assert(base.last() + text[0] =~= text[0]);
        assert(split(text[0]) =~= text);
    } else {
        let front = text.drop_last();
        law_split_join(front);
        lemma_join_prefix(text, front, 0, n - 1);
        let head = join(text, 0, n - 1);
        assert(join(text, 0, n) == head.push('\n') + text[n - 1]);
        assert(head.push('\n').drop_last() =~= head);
        assert(split(head.push('\n')) =~= front.push(Seq::empty()));
        lemma_split_extend(head.push('\n'), text[n - 1]);
        assert(Seq::<char>::empty() + text[n - 1] =~= text[n - 1]);
        assert(split(join(text, 0, n)) =~= text);
    }
}

/// Characters other than a newline extend the last piece.
proof fn lemma_split_extend(s: Seq<char>, t: Seq<char>)
    requires
        forall|k: int| 0 <= k < t.len() ==> t[k] != '\n',
    ensures
        split(s + t) == split(s).update(split(s).len() - 1, split(s).last() + t),
    decreases t.len(),
{
    lemma_split_nonempty(s);
    if t.len() == 0 {
        assert(s + t =~= s);
        assert(split(s).last() + t =~= split(s).last());
        assert(split(s).update(split(s).len() - 1, split(s).last()) =~= split(s));
    } else {
        let t0 = t.drop_last();
        lemma_split_extend(s, t0);
        assert((s + t).drop_last() =~= s + t0);
        assert((s + t).last() == t.last());
        assert(split(s).last() + t =~= (split(s).last() + t0).push(t.last()));
        assert(split(s + t) =~= split(s).update(split(s).len() - 1, split(s).last() + t));
    }
}

/// The pieces of `s` between separators; one piece more than there are
/// separators.
pub open spec fn pieces(s: Seq<char>, sep: char) -> Seq<Seq<char>>
    decreases s.len(),
{
    if s.len() == 0 {
        seq![Seq::empty()]
    } else {
        let front = pieces(s.drop_last(), sep);
        if s.last() == sep {
            front.push(Seq::empty())
        } else {
            front.update(front.len() - 1, front.last().push(s.last()))
        }
    }
}

/// The views of a list of character vectors.
pub open spec fn char_rows(v: Seq<Vec<char>>) -> Seq<Seq<char>> {
    Seq::new(v.len(), |i: int| v[i]@)
}

/// The pieces of a text between separators.
pub fn split_chars(cs: &Vec<char>, sep: char) -> (r: Vec<Vec<char>>)
    ensures
        char_rows(r@) == pieces(cs@, sep),
        r.len() >= 1,
{
    let mut out: Vec<Vec<char>> = Vec::new();
    let mut cur: Vec<char> = Vec::new();
    let mut i: usize = 0;
    proof {
        assert(char_rows(out@).push(cur@) =~= pieces(cs@.take(0), sep));
    }
    while i < cs.len()
        invariant
            i <= cs.len(),
            char_rows(out@).push(cur@) == pieces(cs@.take(i as int), sep),
        decreases cs.len() - i,
    {
        let ghost before = pieces(cs@.take(i as int), sep);
        proof {
            assert(cs@.take(i + 1).drop_last() =~= cs@.take(i as int));
        }
        if cs[i] == sep {
            out.push(cur);
            cur = Vec::new();
            proof {
                assert(char_rows(out@) =~= before);
                assert(char_rows(out@).push(cur@) =~= pieces(cs@.take(i + 1), sep));
            }
        } else {
            cur.push(cs[i]);
            proof {
                assert(char_rows(out@).push(cur@) =~= pieces(cs@.take(i + 1), sep));
            }
        }
        i = i + 1;
    }
    out.push(cur);
    proof {
        assert(cs@.take(i as int) =~= cs@);
        assert(char_rows(out@) =~= pieces(cs@, sep));
    }
    out
}

/// Whether the characters spell a word.
pub fn spells(cs: &Vec<char>, word: &str) -> (r: bool)
    ensures
        r == (cs@ == word@),
{
    let w = chars_of(word);
    same_chars(cs, &w)
}

/// The lines `a..b` as one string, with a newline between neighbours.
pub fn join_lines(lines: &Vec<String>, a: usize, b: usize) -> (r: String)
    requires
        a <= b <= lines.len(),
    ensures
        r@ == join(text_of(lines@), a as int, b as int),
{
    let mut out = String::new();
    let mut i: usize = a;
    while i < b
        invariant
            a <= i <= b <= lines.len(),
            out@ == join(text_of(lines@), a as int, i as int),
        decreases b - i,
    {
        if i > a {
            out.push('\n');
        }
        push_str(&mut out, lines[i].as_str());
        i = i + 1;
        proof {
            assert(out@ =~= join(text_of(lines@), a as int, i as int));
        }
    }
    out
}

/// The lines of a text: its pieces between newlines.
pub fn split_lines(s: &str) -> (r: Vec<String>)
    ensures
        text_of(r@) == split(s@),
        r.len() >= 1,
{
    let cs = chars_of(s);
    let mut out: Vec<String> = Vec::new();
    let mut cur = String::new();
    let mut i: usize = 0;
    proof {
        assert(text_of(out@).push(cur@) =~= split(s@.take(0)));
    }
    while i < cs.len()
        invariant
            i <= cs.len(),
            cs@ == s@,
            text_of(out@).push(cur@) == split(s@.take(i as int)),
        decreases cs.len() - i,
    {
        let ghost before = split(s@.take(i as int));
        proof {
            assert(s@.take(i + 1).drop_last() =~= s@.take(i as int));
        }
        if cs[i] == '\n' {
            let ghost prev = out@;
            out.push(cur);
            cur = String::new();
            proof {
                assert(text_of(out@) =~= before);
                assert(text_of(out@).push(cur@) =~= split(s@.take(i + 1)));
            }
        } else {
            cur.push(cs[i]);
            proof {
                assert(text_of(out@).push(cur@) =~= split(s@.take(i + 1)));
            }
        }
        i = i + 1;
    }
    out.push(cur);
    proof {
        assert(s@.take(i as int) =~= s@);
        assert(text_of(out@) =~= split(s@));
    }
    out
}

} // verus!
