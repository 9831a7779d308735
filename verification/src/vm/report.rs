//! The source excerpt shown with a runtime error: the failing line and up
//! to three lines on either side, numbered, the failing one marked.
use vstd::prelude::*;
use crate::text::{chars_of, nat_text, push_char, push_nat_text};

verus! {

/// `s` cut at each `\n`: the text before the first, between each two, and
/// after the last (possibly empty).
pub open spec fn line_pieces(s: Seq<char>) -> Seq<Seq<char>>
    decreases s.len(),
{
    if s.len() == 0 {
        seq![Seq::empty()]
    } else {
        let p = line_pieces(s.drop_last());
        if s.last() == '\n' {
            p.push(Seq::empty())
        } else {
            p.update(p.len() - 1, p.last().push(s.last()))
        }
    }
}

/// `x` without one trailing `\r`.
pub open spec fn strip_cr(x: Seq<char>) -> Seq<char> {
    if x.len() > 0 && x.last() == '\r' {
        x.drop_last()
    } else {
        x
    }
}

/// The lines of `s`, as `str::lines` gives them: split at `\n` or `\r\n`,
/// without the terminators, and without an empty line after a final
/// terminator.
pub open spec fn text_lines(s: Seq<char>) -> Seq<Seq<char>> {
    let p = line_pieces(s);
    let n = if p.last().len() == 0 { p.len() - 1 } else { p.len() as int };
    Seq::new(n as nat, |k: int| if k < p.len() - 1 { strip_cr(p[k]) } else { p[k] })
}

/// `t` right-aligned in a field of four characters.
pub open spec fn padded4(t: Seq<char>) -> Seq<char> {
    if t.len() >= 4 {
        t
    } else {
        Seq::new((4 - t.len()) as nat, |i: int| ' ') + t
    }
}

/// One excerpt row: a marker (`> ` on the failing line), the line number
/// right-aligned in four characters, ` | `, the line, and a newline.
pub open spec fn context_row(number: nat, text: Seq<char>, marked: bool) -> Seq<char> {
    (if marked { seq!['>', ' '] } else { seq![' ', ' '] }) + padded4(nat_text(number)) + seq![' ', '|', ' ']
        + text + seq!['\n']
}

/// The rows of lines `from .. to` (0-based), marking line number `line`.
pub open spec fn context_rows(lines: Seq<Seq<char>>, from: int, to: int, line: nat) -> Seq<char>
    decreases to - from,
{
    if to <= from {
        Seq::empty()
    } else {
        context_rows(lines, from, to - 1, line) + context_row(to as nat, lines[to - 1], to == line)
    }
}

/// The excerpt for 1-based line `line` of `source`: a newline, then the
/// rows of the three lines before it, the line itself and the three after
/// it, as far as they exist; empty when there is no such line.
pub open spec fn source_context_spec(source: Seq<char>, line: nat) -> Seq<char> {
    let ls = text_lines(source);
    if line == 0 || line > ls.len() {
        Seq::empty()
    } else {
        let z = line - 1;
        let start = if z >= 3 { z - 3 } else { 0 };
        let end = if z + 4 <= ls.len() { z + 4 } else { ls.len() as int };
        seq!['\n'] + context_rows(ls, start, end, line)
    }
}

/// The lines of `s` as character vectors.
pub open spec fn char_lines(v: Seq<Vec<char>>) -> Seq<Seq<char>> {
    v.map_values(|l: Vec<char>| l@)
}

/// `str::lines`, as vectors of characters.
fn split_lines(s: &str) -> (r: Vec<Vec<char>>)
    ensures
        char_lines(r@) == text_lines(s@),
{
    let chars = chars_of(s);
    let mut pieces: Vec<Vec<char>> = Vec::new();
    pieces.push(Vec::new());
    let mut i: usize = 0;
    proof {
        assert(chars@.take(0) =~= Seq::<char>::empty());
        assert(char_lines(pieces@) =~= line_pieces(chars@.take(0)));
    }
    while i < chars.len()
        invariant
            i <= chars@.len(),
            chars@ == s@,
            pieces@.len() > 0,
            char_lines(pieces@) == line_pieces(chars@.take(i as int)),
        decreases chars.len() - i,
    {
        let c = chars[i];
        proof {
            assert(chars@.take(i + 1).drop_last() =~= chars@.take(i as int));
            assert(chars@.take(i + 1).last() == c);
        }
        let ghost p0 = char_lines(pieces@);
        if c == '\n' {
            pieces.push(Vec::new());
            proof {
                assert(char_lines(pieces@) =~= p0.push(Seq::empty()));
            }
        } else {
            let last = pieces.len() - 1;
            let mut cur = pieces.pop().unwrap();
            cur.push(c);
            pieces.push(cur);
            proof {
                assert(char_lines(pieces@) =~= p0.update(last as int, p0[last as int].push(c)));
            }
        }
        i = i + 1;
    }
    proof {
        assert(chars@.take(i as int) =~= chars@);
    }
    let ghost p = char_lines(pieces@);
    let n = pieces.len();
    let keep = if pieces[n - 1].len() == 0 { n - 1 } else { n };
    let mut lines: Vec<Vec<char>> = Vec::new();
    let mut k: usize = 0;
    while k < keep
        invariant
            k <= keep,
            keep <= n,
            n == pieces@.len(),
            p == char_lines(pieces@),
            char_lines(lines@) =~= Seq::new(k as nat, |j: int| if j < p.len() - 1 { strip_cr(p[j]) } else { p[j] }),
        decreases keep - k,
    {
        let piece = &pieces[k];
        let mut line: Vec<char> = Vec::new();
        let m = piece.len();
        let cut = if k + 1 < n && m > 0 && piece[m - 1] == '\r' { m - 1 } else { m };
        let mut j: usize = 0;
        while j < cut
            invariant
                j <= cut,
                cut <= m,
                m == piece@.len(),
                line@ =~= piece@.take(j as int),
            decreases cut - j,
        {
            line.push(piece[j]);
            j = j + 1;
        }
        proof {
            assert(p[k as int] == piece@);
            if cut < m {
                assert(piece@.take(cut as int) =~= piece@.drop_last());
            } else {
                assert(piece@.take(cut as int) =~= piece@);
            }
        }
        let ghost l0 = char_lines(lines@);
        lines.push(line);
        proof {
            assert(char_lines(lines@) =~= l0.push(line@));
        }
        k = k + 1;
    }
    lines
}

/// Appends `t` to `s`.
fn push_chars(s: &mut String, t: &Vec<char>)
    ensures
        final(s)@ == old(s)@ + t@,
{
    let mut i: usize = 0;
    while i < t.len()
        invariant
            i <= t@.len(),
            s@ == old(s)@ + t@.take(i as int),
        decreases t.len() - i,
    {
        push_char(s, t[i]);
        proof {
            assert(t@.take(i + 1) =~= t@.take(i as int).push(t@[i as int]));
        }
        i = i + 1;
    }
    proof {
        assert(t@.take(i as int) =~= t@);
    }
}

/// Appends one excerpt row.
fn push_row(out: &mut String, number: usize, text: &Vec<char>, marked: bool)
    ensures
        final(out)@ == old(out)@ + context_row(number as nat, text@, marked),
{
    if marked {
        push_char(out, '>');
        push_char(out, ' ');
    } else {
        push_char(out, ' ');
        push_char(out, ' ');
    }
    let ghost after_marker = out@;
    let mut digits = String::new();
    push_nat_text(&mut digits, number as u64);
    let dv = chars_of(digits.as_str());
    assert(dv@ =~= nat_text(number as nat));
    let mut pad: usize = dv.len();
    while pad < 4
        invariant
            dv.len() <= pad <= 4 || pad == dv.len(),
            out@ == after_marker + Seq::new((pad - dv.len()) as nat, |i: int| ' '),
        decreases 4 - pad,
    {
        push_char(out, ' ');
        proof {
            assert(Seq::new((pad - dv.len()) as nat, |i: int| ' ').push(' ') =~= Seq::new(
                (pad + 1 - dv.len()) as nat,
                |i: int| ' ',
            ));
        }
        pad = pad + 1;
    }
    push_chars(out, &dv);
    push_char(out, ' ');
    push_char(out, '|');
    push_char(out, ' ');
    push_chars(out, text);
    push_char(out, '\n');
    proof {
        let marker = if marked { seq!['>', ' '] } else { seq![' ', ' '] };
        if dv@.len() >= 4 {
            assert(Seq::new(0, |i: int| ' ') + dv@ =~= padded4(dv@));
        } else {
            assert(Seq::new((4 - dv@.len()) as nat, |i: int| ' ') + dv@ =~= padded4(dv@));
        }
        assert(out@ =~= old(out)@ + context_row(number as nat, text@, marked));
    }
}

/// The excerpt of `source` around 1-based line `line` that accompanies a
/// runtime error (see `source_context_spec`).
pub fn source_context(source: &str, line: u32) -> (r: String)
    ensures
        r@ == source_context_spec(source@, line as nat),
{
    if line == 0 {
        return String::new();
    }
    let lines = split_lines(source);
    let ghost ls = text_lines(source@);
    let z = (line - 1) as usize;
    if z >= lines.len() {
        return String::new();
    }
    let start = if z >= 3 { z - 3 } else { 0 };
    let end = if lines.len() - z >= 4 { z + 4 } else { lines.len() };
    let mut out = String::new();
    push_char(&mut out, '\n');
    let mut i = start;
    while i < end
        invariant
            start <= i <= end <= lines@.len(),
            char_lines(lines@) == ls,
            out@ == seq!['\n'] + context_rows(ls, start as int, i as int, line as nat),
        decreases end - i,
    {
        let ghost before = out@;
        push_row(&mut out, i + 1, &lines[i], i + 1 == line as usize);
        proof {
            assert(ls[i as int] == lines@[i as int]@);
            assert(out@ =~= seq!['\n'] + context_rows(ls, start as int, i + 1, line as nat));
        }
        i = i + 1;
    }
    out
}

} // verus!
