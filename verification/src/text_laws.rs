//! What texts, paths and numbers promise: how a text is taken apart and put
//! together, what a path names, and what a number looks like.
use vstd::prelude::*;
use crate::app::eval::run::trimmed;
use crate::copilot::{CopilotEvent, Heard, HeardStep};
use crate::format::FormatterRun;
use crate::number::{decimal, number_in, only_digits, value};
use crate::path::{absolute, extension_in, joined, last_dot, last_named, name_in, path_of, stem_in, uri_of};
use crate::text::{ascii_digit, join, pieces, split, white_space};

verus! {

/// Lines are put together with a line break between each two.
pub proof fn law_joining(text: Seq<Seq<char>>, a: int, b: int)
    requires
        0 <= a < b < text.len(),
    ensures
        join(text, a, b + 1) == join(text, a, b) + seq!['\n'] + text[b],
        join(text, a, a + 1) == text[a],
        join(text, a, a).len() == 0,
{
    assert(join(text, a, b).push('\n') =~= join(text, a, b) + seq!['\n']);
}

/// A text is taken apart at its line breaks and nowhere else: what is before a
/// break, and what is behind it up to the next.
pub proof fn law_splitting(s: Seq<char>, line: Seq<char>)
    requires
        forall|i: int| 0 <= i < line.len() ==> line[i] != '\n',
    ensures
        split(line) == seq![line],
        split(s + seq!['\n'] + line) == split(s).push(line),
    decreases line.len(),
{
    let all = s + seq!['\n'] + line;
    if line.len() == 0 {
        assert(line =~= Seq::empty());
        assert(all =~= s.push('\n'));
        assert(all.drop_last() =~= s);
        assert(all.last() == '\n');
    } else {
        let front = line.drop_last();
        law_splitting(s, front);
        assert(front.push(line.last()) =~= line);
        assert(split(line) =~= seq![line]);
        assert(all.drop_last() =~= s + seq!['\n'] + front);
        assert(all.last() == line.last());
        let t = split(s).push(front);
        assert(t.update(t.len() - 1, t.last().push(line.last())) =~= split(s).push(line));
    }
}

/// The pieces of a text that ends in a separator and a part without one: those
/// before, and that part.
pub proof fn law_pieces_end(s: Seq<char>, part: Seq<char>, sep: char)
    requires
        forall|i: int| 0 <= i < part.len() ==> part[i] != sep,
    ensures
        pieces(s.push(sep) + part, sep) == pieces(s, sep).push(part),
    decreases part.len(),
{
    let all = s.push(sep) + part;
    if part.len() == 0 {
        assert(all =~= s.push(sep));
        assert(all.drop_last() =~= s);
        assert(part =~= Seq::empty());
    } else {
        law_pieces_end(s, part.drop_last(), sep);
        assert(all.drop_last() =~= s.push(sep) + part.drop_last());
        assert(all.last() == part.last());
        let front = pieces(s, sep).push(part.drop_last());
        assert(part.drop_last().push(part.last()) =~= part);
        assert(front.update(front.len() - 1, front.last().push(part.last())) =~= pieces(s, sep).push(part));
    }
}

/// A text without a separator is its own and only piece.
pub proof fn law_pieces_whole(part: Seq<char>, sep: char)
    requires
        forall|i: int| 0 <= i < part.len() ==> part[i] != sep,
    ensures
        pieces(part, sep) == seq![part],
    decreases part.len(),
{
    if part.len() == 0 {
        assert(part =~= Seq::empty());
    } else {
        law_pieces_whole(part.drop_last(), sep);
        assert(part.drop_last().push(part.last()) =~= part);
        assert(pieces(part, sep) =~= seq![part]);
    }
}

/// White space is the space, the tab and the line breaks, and what Unicode has
/// besides; letters, digits and signs of ASCII are none.
pub proof fn law_white_space(c: char)
    ensures
        c == ' ' || c == '\t' || c == '\n' || c == '\r' ==> white_space(c),
        '!' <= c <= '~' ==> !white_space(c),
{
    reveal(white_space);
}

/// The name of a path is what stands behind its last slash; a slash at the end
/// does not count.
pub proof fn law_name_of_a_path(dir: Seq<char>, name: Seq<char>)
    requires
        forall|i: int| 0 <= i < name.len() ==> name[i] != '/',
        name.len() > 0,
        name != seq!['.'],
        name != seq!['.', '.'],
    ensures
        name_in(dir + seq!['/'] + name) == Some(name),
        name_in(dir + seq!['/'] + name + seq!['/']) == Some(name),
        name_in(name) == Some(name),
{
    reveal_strlit("");
    reveal_strlit(".");
    reveal_strlit("..");
    assert(""@ =~= Seq::<char>::empty());
    assert("."@ =~= seq!['.']);
    assert(".."@ =~= seq!['.', '.']);
    law_pieces_end(dir, name, '/');
    assert(dir.push('/') + name =~= dir + seq!['/'] + name);
    let p = dir + seq!['/'] + name;
    let parts = pieces(dir, '/').push(name);
    assert(parts[parts.len() - 1] == name);
    law_pieces_end(p, Seq::empty(), '/');
    assert(p.push('/') + Seq::<char>::empty() =~= p + seq!['/']);
    let more = parts.push(Seq::<char>::empty());
    reveal_with_fuel(last_named, 3);
    assert(more[more.len() - 1] =~= Seq::<char>::empty());
    assert(more[more.len() - 2] == name);
    law_pieces_whole(name, '/');
    assert(seq![name][0] == name);
}

/// What ends in two dots has no name.
pub proof fn law_path_without_a_name(dir: Seq<char>)
    ensures
        name_in(dir + seq!['/', '.', '.']) is None,
        extension_in(dir + seq!['/', '.', '.']) is None,
        stem_in(dir + seq!['/', '.', '.']) is None,
{
    reveal_strlit("");
    reveal_strlit(".");
    reveal_strlit("..");
    assert(".."@ =~= seq!['.', '.']);
    assert(""@ =~= Seq::<char>::empty());
    assert("."@ =~= seq!['.']);
    let n = seq!['.', '.'];
    law_pieces_end(dir, n, '/');
    assert(dir.push('/') + n =~= dir + seq!['/', '.', '.']);
    let parts = pieces(dir, '/').push(n);
    assert(parts[parts.len() - 1] == n);
    assert(n.len() == 2);
}

/// The extension of a file is what follows the last dot of its name, and the
/// stem what stands before it. A name without a dot, or with one only at its
/// start, has no extension and is its own stem.
pub proof fn law_extension(dir: Seq<char>, stem: Seq<char>, ext: Seq<char>)
    requires
        forall|i: int| 0 <= i < stem.len() ==> stem[i] != '/',
        forall|i: int| 0 <= i < ext.len() ==> ext[i] != '/' && ext[i] != '.',
        stem.len() > 0,
        ext.len() > 0,
    ensures
        extension_in(dir + seq!['/'] + (stem + seq!['.'] + ext)) == Some(ext),
        stem_in(dir + seq!['/'] + (stem + seq!['.'] + ext)) == Some(stem),
        extension_in(dir + seq!['/'] + ext) is None,
        stem_in(dir + seq!['/'] + ext) == Some(ext),
        extension_in(dir + seq!['/'] + (seq!['.'] + ext)) is None,
{
    let name = stem + seq!['.'] + ext;
    assert(name[stem.len() as int] == '.');
    assert(name[name.len() - 1] == ext[ext.len() - 1]);
    assert(name != seq!['.'] && name != seq!['.', '.']);
    law_name_of_a_path(dir, name);
    lemma_last_dot(name, stem.len() as int, name.len() as int);
    assert(name.skip(stem.len() as int + 1) =~= ext);
    assert(name.take(stem.len() as int) =~= stem);
    assert(ext[0] != '.');
    assert(ext != seq!['.'] && ext != seq!['.', '.']) by {
        assert(seq!['.'][0] == '.');
        assert(seq!['.', '.'][0] == '.');
    }
    law_name_of_a_path(dir, ext);
    lemma_no_dot(ext, ext.len() as int);
    let hidden = seq!['.'] + ext;
    assert(hidden[1] == ext[0]);
    assert(hidden.len() >= 2);
    assert(hidden != seq!['.'] && hidden != seq!['.', '.']);
    assert forall|i: int| 0 <= i < hidden.len() implies hidden[i] != '/' by {
        if i > 0 {
            assert(hidden[i] == ext[i - 1]);
        }
    }
    law_name_of_a_path(dir, hidden);
    lemma_last_dot(hidden, 0, hidden.len() as int);
}

proof fn lemma_last_dot(name: Seq<char>, p: int, k: int)
    requires
        0 <= p < k <= name.len(),
        name[p] == '.',
        forall|i: int| p < i < k ==> name[i] != '.',
    ensures
        last_dot(name, k) == Some(p),
    decreases k,
{
    if k - 1 > p {
        lemma_last_dot(name, p, k - 1);
    }
}

proof fn lemma_no_dot(name: Seq<char>, k: int)
    requires
        0 <= k <= name.len(),
        forall|i: int| 0 <= i < k ==> name[i] != '.',
    ensures
        last_dot(name, k) is None,
    decreases k,
{
    if k > 0 {
        lemma_no_dot(name, k - 1);
    }
}

/// A path relative to a directory lies below it, with one slash between the
/// two; an absolute path is taken as it is.
pub proof fn law_joined_paths(dir: Seq<char>, path: Seq<char>)
    requires
        dir.len() > 0,
    ensures
        absolute(path) <==> path.len() > 0 && path[0] == '/',
        path.len() > 0 && path[0] == '/' ==> joined(dir, path) == path,
        !(path.len() > 0 && path[0] == '/') && dir[dir.len() - 1] == '/' ==> joined(dir, path) == dir + path,
        !(path.len() > 0 && path[0] == '/') && dir[dir.len() - 1] != '/' ==> joined(dir, path) == dir + seq!['/']
            + path,
{
}

/// The URI of a file is its path behind a fixed start; what does not start so is
/// no file.
pub proof fn law_uris(path: Seq<char>, other: Seq<char>)
    ensures
        uri_of(path) == seq!['f', 'i', 'l', 'e', ':', '/', '/'] + path,
        path_of(uri_of(path)) == Some(path),
        other.len() < 7 ==> path_of(other) is None,
        other.len() >= 7 && other.take(7) != seq!['f', 'i', 'l', 'e', ':', '/', '/'] ==> path_of(other) is None,
{
    reveal_strlit("file://");
    let start = seq!['f', 'i', 'l', 'e', ':', '/', '/'];
    assert("file://"@ =~= start);
    crate::path::law_uri_round_trip(path);
    if other.len() >= 7 && start.is_prefix_of(other) {
        assert(other.take(7) =~= start);
    }
}

/// A number is written digit by digit, without leading zeros.
pub proof fn law_decimal_digits(n: int, d: int)
    requires
        n >= 0,
        0 <= d <= 9,
    ensures
        decimal(d) == seq![('0' as u32 + d) as char],
        n > 0 ==> decimal(10 * n + d) == decimal(n).push(('0' as u32 + d) as char),
{
    if n > 0 {
        assert((10 * n + d) / 10 == n);
        assert((10 * n + d) % 10 == d);
    }
}

/// A number is read digit by digit, with an optional plus sign before it. What
/// has any other character is none.
pub proof fn law_reading_numbers(s: Seq<char>, d: char)
    requires
        '0' <= d <= '9',
    ensures
        number_in(seq![d]) == Some(d as int - '0' as int),
        s.len() > 0 ==> (number_in(s) matches Some(n) && 10 * n + (d as int - '0' as int) <= usize::MAX ==> number_in(
            s.push(d),
        ) == Some(10 * (number_in(s)->0) + (d as int - '0' as int))),
        s.len() > 0 && s[0] != '+' && number_in(s) is Some ==> number_in(seq!['+'] + s) == number_in(s),
        number_in(Seq::empty()) is None,
        number_in(seq!['+']) is None,
        (exists|i: int| 0 < i < s.len() && !('0' <= #[trigger] s[i] <= '9')) ==> number_in(s) is None,
        s.len() > 0 && s[0] != '+' && !('0' <= s[0] <= '9') ==> number_in(s) is None,
{
    assert(seq![d].drop_last() =~= Seq::empty());
    assert(value(Seq::<char>::empty()) == 0);
    assert(value(seq![d]) == d as int - '0' as int);
    assert(only_digits(seq![d]));
    let t = if s.len() > 0 && s[0] == '+' {
        s.skip(1)
    } else {
        s
    };
    if s.len() > 0 && number_in(s) is Some {
        let u = s.push(d);
        let v = if u[0] == '+' {
            u.skip(1)
        } else {
            u
        };
        assert(v =~= t.push(d));
        assert(t.push(d).drop_last() =~= t);
        assert forall|i: int| 0 <= i < v.len() implies ascii_digit(#[trigger] v[i]) by {
            if i < t.len() {
                assert(ascii_digit(t[i]));
            }
        }
        if s[0] != '+' {
            assert((seq!['+'] + s).skip(1) =~= s);
        }
    }
    assert(seq!['+'].skip(1) =~= Seq::<char>::empty());
    if exists|i: int| 0 < i < s.len() && !('0' <= #[trigger] s[i] <= '9') {
        let i = choose|i: int| 0 < i < s.len() && !('0' <= #[trigger] s[i] <= '9');
        if s[0] == '+' {
            assert(t[i - 1] == s[i]);
            assert(!ascii_digit(t[i - 1]));
        } else {
            assert(!ascii_digit(t[i]));
        }
    }
    if s.len() > 0 && s[0] != '+' && !('0' <= s[0] <= '9') {
        assert(!ascii_digit(t[0]));
    }
}

/// A formatter's text counts only where it succeeded; where it failed, what it
/// complained of is the error.
pub proof fn law_formatter_results(r: FormatterRun)
    ensures
        r.success && r.stdout is Some ==> r.result() == Ok::<Seq<char>, Seq<char>>((r.stdout->0)@),
        r.success && r.stdout is None ==> r.result() is Err,
        !r.success ==> r.result() is Err,
        !r.success && trimmed(r.stderr@).len() > 0 ==> r.result()->Err_0 == "formatter `"@ + r.command@ + "`"@ + ": "@
            + trimmed(r.stderr@),
        !r.success && trimmed(r.stderr@).len() == 0 ==> r.result()->Err_0 == "formatter `"@ + r.command@ + "`"@
            + " exited with "@ + r.status@,
{
}

/// A request of the suggestion server is answered, a message of it is passed on
/// with its level and text, and anything else is left aside.
pub proof fn law_what_the_suggestion_server_says(h: Heard)
    ensures
        h.has_id && h.has_method ==> h.step() is Answer,
        h.has_id && !h.has_method ==> h.step() is Ignore,
        !h.has_method ==> h.step() is Ignore,
        !h.has_id && h.has_method && h.has_params && (h.method matches Some(m) && (m@ == "window/showMessage"@ || m@
            == "window/logMessage"@)) ==> ({
            &&& h.step() matches HeardStep::Emit(CopilotEvent::Message { level, text })
            &&& h.text matches Some(t) ==> text == t@
            &&& h.text is None ==> text == ""@
            &&& h.level is None ==> level == 3
            &&& h.level matches Some(n) ==> n <= 255 ==> level == n
        }),
        !h.has_id && h.has_method && !h.has_params ==> h.step() is Ignore,
{
}

} // verus!
