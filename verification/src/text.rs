use vstd::prelude::*;
use crate::cell::Cell;

verus! {

/// Rust's `char::is_whitespace`: the characters with the Unicode
/// `White_Space` property.
pub open spec fn is_whitespace(c: char) -> bool {
    let u = c as u32;
    ||| 0x9 <= u <= 0xd
    ||| u == 0x20
    ||| u == 0x85
    ||| u == 0xa0
    ||| u == 0x1680
    ||| 0x2000 <= u <= 0x200a
    ||| u == 0x2028
    ||| u == 0x2029
    ||| u == 0x202f
    ||| u == 0x205f
    ||| u == 0x3000
}

pub fn char_is_whitespace(c: char) -> (b: bool)
    ensures
        b == is_whitespace(c),
{
    let u = c as u32;
    (0x9 <= u && u <= 0xd) || u == 0x20 || u == 0x85 || u == 0xa0 || u == 0x1680 || (0x2000 <= u
        && u <= 0x200a) || u == 0x2028 || u == 0x2029 || u == 0x202f || u == 0x205f || u == 0x3000
}

/// `s` without its trailing whitespace.
pub open spec fn trim_end(s: Seq<char>) -> Seq<char>
    decreases s.len(),
{
    if s.len() > 0 && is_whitespace(s.last()) {
        trim_end(s.drop_last())
    } else {
        s
    }
}

/// `s` without its leading whitespace.
pub open spec fn trim_start(s: Seq<char>) -> Seq<char>
    decreases s.len(),
{
    if s.len() > 0 && is_whitespace(s[0]) {
        trim_start(s.drop_first())
    } else {
        s
    }
}

/// `s` without leading and trailing whitespace.
pub open spec fn trim(s: Seq<char>) -> Seq<char> {
    trim_end(trim_start(s))
}

/// The lines joined with `'\n'` between them.
pub open spec fn join_lines(lines: Seq<Seq<char>>) -> Seq<char>
    decreases lines.len(),
{
    if lines.len() == 0 {
        Seq::empty()
    } else if lines.len() == 1 {
        lines[0]
    } else {
        join_lines(lines.drop_last()) + seq!['\n'] + lines.last()
    }
}

/// The characters that the cells of `line` show: wide-character padding
/// cells (width 0) contribute nothing.
pub open spec fn visible_chars(line: Seq<Cell>) -> Seq<char>
    decreases line.len(),
{
    if line.len() == 0 {
        Seq::empty()
    } else {
        visible_chars(line.drop_last()) + (if line.last().width != 0 {
            seq![line.last().c]
        } else {
            Seq::empty()
        })
    }
}

/// The text of a line of cells, trailing whitespace removed.
pub open spec fn line_text(line: Seq<Cell>) -> Seq<char> {
    trim_end(visible_chars(line))
}

/// Appends `c` to `s` (`String::push`).
#[verifier::external_body]
pub(crate) fn push_char(s: &mut String, c: char)
    ensures
        final(s)@ == old(s)@.push(c),
{
    s.push(c);
}

/// Removes trailing whitespace from `v`.
pub fn trim_end_vec(v: &mut Vec<char>)
    ensures
        final(v)@ == trim_end(old(v)@),
{
    while v.len() > 0 && char_is_whitespace(v[v.len() - 1])
        invariant
            trim_end(v@) == trim_end(old(v)@),
        decreases v.len(),
    {
        let ghost before = v@;
        v.pop();
        proof {
            assert(v@ =~= before.drop_last());
        }
    }
}

/// The text of a line of cells, trailing whitespace removed.
pub fn cells_text(cells: &[Cell]) -> (v: Vec<char>)
    ensures
        v@ == line_text(cells@),
{
    let mut v: Vec<char> = Vec::new();
    let mut i: usize = 0;
    while i < cells.len()
        invariant
            i <= cells@.len(),
            v@ == visible_chars(cells@.subrange(0, i as int)),
        decreases cells@.len() - i,
    {
        let cell = cells[i];
        if cell.width != 0 {
            v.push(cell.c);
        }
        proof {
            assert(cells@.subrange(0, i + 1).drop_last() =~= cells@.subrange(0, i as int));
        }
        i = i + 1;
    }
    proof {
        assert(cells@.subrange(0, i as int) =~= cells@);
    }
    trim_end_vec(&mut v);
    v
}

/// Appends `line` to `out`, which holds the first `lines.len()` lines
/// joined, so that it then holds `lines.push(line)` joined.
pub(crate) fn append_line(out: &mut String, line: &Vec<char>, first: bool, Ghost(lines): Ghost<Seq<Seq<char>>>)
    requires
        old(out)@ == join_lines(lines),
        first == (lines.len() == 0),
    ensures
        final(out)@ == join_lines(lines.push(line@)),
{
    if !first {
        push_char(out, '\n');
    }
    let ghost start = out@;
    let mut i: usize = 0;
    while i < line.len()
        invariant
            i <= line@.len(),
            out@ == start + line@.subrange(0, i as int),
        decreases line@.len() - i,
    {
        push_char(out, line[i]);
        i = i + 1;
        proof {
            assert(out@ =~= start + line@.subrange(0, i as int));
        }
    }
    proof {
        assert(lines.push(line@).drop_last() =~= lines);
        assert(line@.subrange(0, i as int) =~= line@);
        if lines.len() == 0 {
            assert(out@ =~= join_lines(lines.push(line@)));
        } else {
            assert(out@ =~= join_lines(lines.push(line@)));
        }
    }
}


/// The characters of `s`.
pub fn str_chars(s: &str) -> (v: Vec<char>)
    ensures
        v@ == s@,
{
    broadcast use vstd::string::group_string_axioms;
    let mut v: Vec<char> = Vec::new();
    for c in it: s.chars()
        invariant
            v@ == it.seq().take(it.index() as int),
            it.seq() == s@,
    {
        v.push(c);
        proof {
            assert(v@ =~= it.seq().take(it.index() + 1));
        }
    }
    assert(v@ =~= s@);
    v
}

/// A string holding the characters of `v`.
pub fn chars_string(v: &Vec<char>) -> (s: String)
    ensures
        s@ == v@,
{
    let mut s = String::new();
    let mut i: usize = 0;
    while i < v.len()
        invariant
            i <= v@.len(),
            s@ == v@.subrange(0, i as int),
        decreases v@.len() - i,
    {
        push_char(&mut s, v[i]);
        i = i + 1;
        proof {
            assert(s@ =~= v@.subrange(0, i as int));
        }
    }
    assert(v@.subrange(0, i as int) =~= v@);
    s
}

proof fn lemma_trim_start_skip(s: Seq<char>, k: int)
    requires
        0 <= k <= s.len(),
        forall|i: int| 0 <= i < k ==> is_whitespace(#[trigger] s[i]),
        k == s.len() || !is_whitespace(s[k]),
    ensures
        trim_start(s) == s.skip(k),
    decreases k,
{
    if k == 0 {
        assert(s.skip(0) =~= s);
    } else {
        assert forall|i: int| 0 <= i < k - 1 implies is_whitespace(#[trigger] s.drop_first()[i]) by {
            assert(s.drop_first()[i] == s[i + 1]);
        }
        lemma_trim_start_skip(s.drop_first(), k - 1);
        assert(s.drop_first().skip(k - 1) =~= s.skip(k));
    }
}

/// `v` without leading and trailing whitespace.
pub fn trim_vec(v: &Vec<char>) -> (t: Vec<char>)
    ensures
        t@ == trim(v@),
{
    let mut k: usize = 0;
    while k < v.len() && char_is_whitespace(v[k])
        invariant
            k <= v@.len(),
            forall|i: int| 0 <= i < k ==> is_whitespace(#[trigger] v@[i]),
        decreases v@.len() - k,
    {
        k = k + 1;
    }
    proof {
        lemma_trim_start_skip(v@, k as int);
    }
    let mut t: Vec<char> = Vec::new();
    let mut i: usize = k;
    while i < v.len()
        invariant
            k <= i <= v@.len(),
            t@ == v@.subrange(k as int, i as int),
        decreases v@.len() - i,
    {
        t.push(v[i]);
        i = i + 1;
        proof {
            assert(t@ =~= v@.subrange(k as int, i as int));
        }
    }
    assert(t@ =~= v@.skip(k as int));
    trim_end_vec(&mut t);
    t
}

/// Trimming the end keeps a prefix of the text, drops only whitespace, and
/// leaves text that is empty or ends in a character that is not whitespace.
pub proof fn law_trim_end(s: Seq<char>)
    ensures
        trim_end(s).is_prefix_of(s),
        forall|i: int| trim_end(s).len() <= i < s.len() ==> is_whitespace(#[trigger] s[i]),
        trim_end(s).len() == 0 || !is_whitespace(trim_end(s).last()),
    decreases s.len(),
{
    if s.len() > 0 && is_whitespace(s.last()) {
        law_trim_end(s.drop_last());
        assert forall|i: int| trim_end(s).len() <= i < s.len() implies is_whitespace(#[trigger] s[i]) by {
            if i < s.len() - 1 {
                assert(s.drop_last()[i] == s[i]);
            }
        }
        assert(trim_end(s).is_prefix_of(s)) by {
            assert forall|i: int| 0 <= i < trim_end(s).len() implies trim_end(s)[i] == s[i] by {
                assert(s.drop_last()[i] == s[i]);
            }
        }
    } else {
        assert(s.is_prefix_of(s));
    }
}

/// The text a line shows: the characters of its cells in order, leaving
/// out the padding cells (width 0) of wide characters.
pub proof fn law_visible_chars(line: Seq<Cell>)
    ensures
        visible_chars(line) == line.filter(|c: Cell| c.width != 0).map_values(|c: Cell| c.c),
    decreases line.len(),
{
    reveal_with_fuel(Seq::filter, 1);
    if line.len() > 0 {
        law_visible_chars(line.drop_last());
        let f = line.drop_last().filter(|c: Cell| c.width != 0);
        if line.last().width != 0 {
            assert(line.filter(|c: Cell| c.width != 0) == f.push(line.last()));
            assert(f.push(line.last()).map_values(|c: Cell| c.c) =~= f.map_values(|c: Cell| c.c) + seq![
                line.last().c,
            ]);
        } else {
            assert(line.filter(|c: Cell| c.width != 0) == f);
            assert(f.map_values(|c: Cell| c.c) =~= f.map_values(|c: Cell| c.c) + Seq::<char>::empty());
        }
    } else {
        assert(line.filter(|c: Cell| c.width != 0).map_values(|c: Cell| c.c) =~= Seq::<char>::empty());
    }
}

/// Joining lines puts exactly one newline between consecutive lines: the
/// joined text of `lines` and `more` is the two joined texts with a newline
/// between them when both are non-empty.
pub proof fn law_join_lines(lines: Seq<Seq<char>>, more: Seq<Seq<char>>)
    requires
        lines.len() > 0,
        more.len() > 0,
    ensures
        join_lines(lines + more) == join_lines(lines) + seq!['\n'] + join_lines(more),
    decreases more.len(),
{
    if more.len() == 1 {
        assert((lines + more).drop_last() =~= lines);
        assert(join_lines(more) == more[0]);
    } else {
        law_join_lines(lines, more.drop_last());
        assert((lines + more).drop_last() =~= lines + more.drop_last());
        assert(join_lines(lines + more) == join_lines(lines + more.drop_last()) + seq!['\n'] + more.last());
        assert(join_lines(more) == join_lines(more.drop_last()) + seq!['\n'] + more.last());
        assert(join_lines(lines) + seq!['\n'] + join_lines(more.drop_last()) + seq!['\n'] + more.last()
            =~= join_lines(lines) + seq!['\n'] + (join_lines(more.drop_last()) + seq!['\n'] + more.last()));
    }
}

} // verus!
