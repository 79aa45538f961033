//! The mathematical model of the dedent algorithm: line splitting and
//! joining, leading-space counting, the running-minimum indentation scan,
//! boundary-line normalization, and prefix stripping, all over `Seq<char>`.

use vstd::prelude::*;

verus! {

/// A character that counts as white space (the Unicode `White_Space` set,
/// the one `char::is_whitespace` recognizes).
pub open spec fn is_ws_char(c: char) -> bool {
    let u = c as u32;
    ||| u == 0x20
    ||| (0x9 <= u && u <= 0xd)
    ||| u == 0x85
    ||| u == 0xa0
    ||| u == 0x1680
    ||| (0x2000 <= u && u <= 0x200a)
    ||| u == 0x2028
    ||| u == 0x2029
    ||| u == 0x202f
    ||| u == 0x205f
    ||| u == 0x3000
}

/// An insignificant line: empty, or made of white space only.
pub open spec fn is_line_ws(s: Seq<char>) -> bool {
    forall|i: int| 0 <= i < s.len() ==> is_ws_char(#[trigger] s[i])
}

/// How many consecutive space characters (`' '` only) start the line.
pub open spec fn leading_spaces(s: Seq<char>) -> int
    decreases s.len(),
{
    if s.len() == 0 || s[0] != ' ' {
        0
    } else {
        1 + leading_spaces(s.drop_first())
    }
}

/// The index of the first line break in `s`, or `s.len()` if there is none.
pub open spec fn line_end(s: Seq<char>) -> int
    decreases s.len(),
{
    if s.len() == 0 {
        0
    } else if s[0] == '\n' {
        0
    } else {
        1 + line_end(s.drop_first())
    }
}

/// The lines of `s`, split on `'\n'` with the breaks removed; a trailing
/// line break does not open a final empty line.
pub open spec fn split_lines(s: Seq<char>) -> Seq<Seq<char>>
    decreases s.len(),
{
    if s.len() == 0 {
        Seq::empty()
    } else {
        let e = line_end(s);
        if 0 <= e < s.len() {
            seq![s.take(e)] + split_lines(s.skip(e + 1))
        } else {
            seq![s]
        }
    }
}

/// The lines joined back together, one `'\n'` between consecutive lines.
pub open spec fn join_lines(ls: Seq<Seq<char>>) -> Seq<char>
    decreases ls.len(),
{
    if ls.len() == 0 {
        Seq::empty()
    } else if ls.len() == 1 {
        ls[0]
    } else {
        ls[0] + seq!['\n'] + join_lines(ls.drop_first())
    }
}

/// The running-minimum scan over the remaining lines: a significant line
/// with strictly fewer leading spaces lowers the minimum, every other line
/// leaves it alone.
pub open spec fn min_indent_from(ls: Seq<Seq<char>>, acc: int) -> int
    decreases ls.len(),
{
    if ls.len() == 0 {
        acc
    } else {
        let c = leading_spaces(ls[0]);
        let acc2 = if !is_line_ws(ls[0]) && c < acc {
            c
        } else {
            acc
        };
        min_indent_from(ls.drop_first(), acc2)
    }
}

/// The minimum indentation of a document: the first line seeds the running
/// minimum unconditionally (significant or not); after that only significant
/// lines can lower it.
pub open spec fn min_indent(ls: Seq<Seq<char>>) -> int
    recommends
        ls.len() > 0,
{
    min_indent_from(ls.drop_first(), leading_spaces(ls[0]))
}

/// How many characters prefix removal takes off: `n`, or the whole space
/// prefix if the line has fewer than `n` leading spaces.
pub open spec fn strip_prefix_len(l: Seq<char>, n: int) -> int {
    if leading_spaces(l) < n {
        leading_spaces(l)
    } else {
        n
    }
}

/// The line with up to `n` leading spaces removed.
pub open spec fn strip_spaces(l: Seq<char>, n: int) -> Seq<char>
    recommends
        n >= 0,
{
    l.skip(strip_prefix_len(l, n))
}

/// A whitespace-only last line collapses to the empty line; every other
/// document is left alone.
pub open spec fn normalize_last(ls: Seq<Seq<char>>) -> Seq<Seq<char>> {
    if ls.len() > 0 && is_line_ws(ls.last()) {
        ls.update(ls.len() - 1, Seq::empty())
    } else {
        ls
    }
}

/// The dedented document: normalize the boundary line, then strip the
/// minimum indentation (computed before normalization) from every line.
pub open spec fn dedent_lines(ls: Seq<Seq<char>>) -> Seq<Seq<char>>
    recommends
        ls.len() > 0,
{
    normalize_last(ls).map_values(|l: Seq<char>| strip_spaces(l, min_indent(ls)))
}

/// The framing trim: at most one leading quote, then at most one trailing
/// quote, then at most one leading line break.
pub open spec fn trim_framing(s: Seq<char>) -> Seq<char> {
    let a = if s.len() > 0 && s[0] == '"' {
        s.drop_first()
    } else {
        s
    };
    let b = if a.len() > 0 && a.last() == '"' {
        a.drop_last()
    } else {
        a
    };
    if b.len() > 0 && b[0] == '\n' {
        b.drop_first()
    } else {
        b
    }
}

/// What dedenting a raw text block returns: trim the framing, split into
/// lines, dedent them, and join the result.
pub open spec fn dedent_text(s: Seq<char>) -> Seq<char>
    recommends
        trim_framing(s).len() > 0,
{
    join_lines(dedent_lines(split_lines(trim_framing(s))))
}

pub proof fn lemma_leading_spaces_bounds(s: Seq<char>)
    ensures
        0 <= leading_spaces(s) <= s.len(),
        forall|i: int| 0 <= i < leading_spaces(s) ==> s[i] == ' ',
        leading_spaces(s) < s.len() ==> s[leading_spaces(s)] != ' ',
    decreases s.len(),
{
    if s.len() == 0 || s[0] != ' ' {
    } else {
        lemma_leading_spaces_bounds(s.drop_first());
        assert forall|i: int| 0 <= i < leading_spaces(s) implies s[i] == ' ' by {
            if i > 0 {
                assert(s.drop_first()[i - 1] == s[i]);
            }
        }
    }
}

pub proof fn lemma_leading_spaces_at(s: Seq<char>, m: int)
    requires
        0 <= m <= s.len(),
        forall|i: int| 0 <= i < m ==> s[i] == ' ',
        m < s.len() ==> s[m] != ' ',
    ensures
        leading_spaces(s) == m,
    decreases s.len(),
{
    if m == 0 {
    } else {
        assert(s[0] == ' ');
        assert forall|i: int| 0 <= i < m - 1 implies s.drop_first()[i] == ' ' by {
            assert(s.drop_first()[i] == s[i + 1]);
        }
        assert(m - 1 < s.drop_first().len() ==> s.drop_first()[m - 1] != ' ');
        lemma_leading_spaces_at(s.drop_first(), m - 1);
    }
}

pub proof fn lemma_leading_spaces_skip(l: Seq<char>, j: int)
    requires
        0 <= j <= leading_spaces(l),
    ensures
        leading_spaces(l.skip(j)) == leading_spaces(l) - j,
    decreases j,
{
    lemma_leading_spaces_bounds(l);
    if j == 0 {
        assert(l.skip(0) =~= l);
    } else {
        assert(l[0] == ' ');
        assert(l.skip(j) =~= l.drop_first().skip(j - 1));
        lemma_leading_spaces_skip(l.drop_first(), j - 1);
    }
}

pub proof fn lemma_line_end_bounds(s: Seq<char>)
    ensures
        0 <= line_end(s) <= s.len(),
        forall|i: int| 0 <= i < line_end(s) ==> s[i] != '\n',
        line_end(s) < s.len() ==> s[line_end(s)] == '\n',
    decreases s.len(),
{
    if s.len() == 0 || s[0] == '\n' {
    } else {
        lemma_line_end_bounds(s.drop_first());
        assert forall|i: int| 0 <= i < line_end(s) implies s[i] != '\n' by {
            if i > 0 {
                assert(s.drop_first()[i - 1] == s[i]);
            }
        }
    }
}

pub proof fn lemma_line_end_at(s: Seq<char>, m: int)
    requires
        0 <= m <= s.len(),
        forall|i: int| 0 <= i < m ==> s[i] != '\n',
        m < s.len() ==> s[m] == '\n',
    ensures
        line_end(s) == m,
    decreases s.len(),
{
    if m == 0 {
    } else {
        assert(s[0] != '\n');
        assert forall|i: int| 0 <= i < m - 1 implies s.drop_first()[i] != '\n' by {
            assert(s.drop_first()[i] == s[i + 1]);
        }
        assert(m - 1 < s.drop_first().len() ==> s.drop_first()[m - 1] == '\n');
        lemma_line_end_at(s.drop_first(), m - 1);
    }
}

/// Unfolds one step of `split_lines` at a known line boundary.
pub proof fn lemma_split_lines_step(s: Seq<char>, e: int)
    requires
        0 <= e <= s.len(),
        forall|i: int| 0 <= i < e ==> s[i] != '\n',
        e < s.len() ==> s[e] == '\n',
    ensures
        e < s.len() ==> split_lines(s) == seq![s.take(e)] + split_lines(s.skip(e + 1)),
        e == s.len() && s.len() > 0 ==> split_lines(s) == seq![s],
{
    lemma_line_end_at(s, e);
}

pub proof fn lemma_split_lines_len(s: Seq<char>)
    ensures
        (split_lines(s).len() == 0) <==> (s.len() == 0),
{
    if s.len() > 0 {
        lemma_line_end_bounds(s);
    }
}

pub proof fn lemma_split_lines_no_nl(s: Seq<char>)
    ensures
        forall|i: int| 0 <= i < split_lines(s).len() ==> !(#[trigger] split_lines(s)[i]).contains(
            '\n',
        ),
    decreases s.len(),
{
    if s.len() == 0 {
    } else {
        lemma_line_end_bounds(s);
        let e = line_end(s);
        if e < s.len() {
            lemma_split_lines_no_nl(s.skip(e + 1));
            assert(!s.take(e).contains('\n')) by {
                assert(forall|k: int| 0 <= k < s.take(e).len() ==> s.take(e)[k] != '\n');
            }
            assert forall|i: int|
                0 <= i < split_lines(s).len() implies !(#[trigger] split_lines(s)[i]).contains(
                '\n',
            ) by {
                if i > 0 {
                    assert(split_lines(s)[i] == split_lines(s.skip(e + 1))[i - 1]);
                }
            }
        } else {
            assert(!s.contains('\n')) by {
                assert(forall|k: int| 0 <= k < s.len() ==> s[k] != '\n');
            }
        }
    }
}

pub proof fn lemma_join_lines_push(ls: Seq<Seq<char>>, l: Seq<char>)
    ensures
        ls.len() == 0 ==> join_lines(ls.push(l)) == l,
        ls.len() > 0 ==> join_lines(ls.push(l)) == join_lines(ls) + seq!['\n'] + l,
    decreases ls.len(),
{
    let p = ls.push(l);
    if ls.len() == 0 {
        assert(p.len() == 1);
        assert(p[0] == l);
    } else if ls.len() == 1 {
        assert(p.drop_first() =~= seq![l]);
        assert(join_lines(p.drop_first()) == l);
        assert(p[0] == ls[0]);
    } else {
        assert(p[0] == ls[0]);
        assert(p.drop_first() =~= ls.drop_first().push(l));
        lemma_join_lines_push(ls.drop_first(), l);
        assert((ls[0] + seq!['\n']) + (join_lines(ls.drop_first()) + seq!['\n'] + l) =~= ((ls[0]
            + seq!['\n']) + join_lines(ls.drop_first())) + seq!['\n'] + l);
    }
}

/// A document of two or more lines whose last line is empty joins to a text
/// that ends in a line break.
pub proof fn lemma_join_last_nl(ls: Seq<Seq<char>>)
    requires
        ls.len() >= 2,
        ls.last().len() == 0,
    ensures
        join_lines(ls).len() > 0,
        join_lines(ls).last() == '\n',
    decreases ls.len(),
{
    if ls.len() == 2 {
        assert(ls.drop_first().len() == 1);
        assert(join_lines(ls.drop_first()) == ls.drop_first()[0]);
        assert(ls.drop_first()[0] == ls.last());
    } else {
        assert(ls.drop_first().last() == ls.last());
        lemma_join_last_nl(ls.drop_first());
    }
}

pub proof fn lemma_min_indent_from_push(ls: Seq<Seq<char>>, acc: int, l: Seq<char>)
    ensures
        min_indent_from(ls.push(l), acc) == ({
            let m = min_indent_from(ls, acc);
            if !is_line_ws(l) && leading_spaces(l) < m {
                leading_spaces(l)
            } else {
                m
            }
        }),
    decreases ls.len(),
{
    let p = ls.push(l);
    if ls.len() == 0 {
        assert(p.len() == 1);
        assert(p[0] == l);
        assert(p.drop_first() =~= Seq::<Seq<char>>::empty());
        let c = leading_spaces(l);
        let acc2 = if !is_line_ws(l) && c < acc {
            c
        } else {
            acc
        };
        assert(min_indent_from(p.drop_first(), acc2) == acc2);
        assert(min_indent_from(p, acc) == acc2);
        assert(min_indent_from(ls, acc) == acc);
    } else {
        assert(p[0] == ls[0]);
        assert(p.drop_first() =~= ls.drop_first().push(l));
        let acc2 = if !is_line_ws(ls[0]) && leading_spaces(ls[0]) < acc {
            leading_spaces(ls[0])
        } else {
            acc
        };
        assert(min_indent_from(p, acc) == min_indent_from(ls.drop_first().push(l), acc2));
        assert(min_indent_from(ls, acc) == min_indent_from(ls.drop_first(), acc2));
        lemma_min_indent_from_push(ls.drop_first(), acc2, l);
    }
}

pub proof fn lemma_min_indent_from_le_acc(ls: Seq<Seq<char>>, acc: int)
    ensures
        min_indent_from(ls, acc) <= acc,
    decreases ls.len(),
{
    if ls.len() > 0 {
        let acc2 = if !is_line_ws(ls[0]) && leading_spaces(ls[0]) < acc {
            leading_spaces(ls[0])
        } else {
            acc
        };
        lemma_min_indent_from_le_acc(ls.drop_first(), acc2);
    }
}

pub proof fn lemma_min_indent_from_le_elem(ls: Seq<Seq<char>>, acc: int, i: int)
    requires
        0 <= i < ls.len(),
        !is_line_ws(ls[i]),
    ensures
        min_indent_from(ls, acc) <= leading_spaces(ls[i]),
    decreases ls.len(),
{
    let acc2 = if !is_line_ws(ls[0]) && leading_spaces(ls[0]) < acc {
        leading_spaces(ls[0])
    } else {
        acc
    };
    if i == 0 {
        lemma_min_indent_from_le_acc(ls.drop_first(), acc2);
    } else {
        assert(ls.drop_first()[i - 1] == ls[i]);
        lemma_min_indent_from_le_elem(ls.drop_first(), acc2, i - 1);
    }
}

pub proof fn lemma_min_indent_from_ge(ls: Seq<Seq<char>>, acc: int, k: int)
    requires
        acc >= k,
        forall|i: int| 0 <= i < ls.len() && !is_line_ws(#[trigger] ls[i]) ==> leading_spaces(
            ls[i],
        ) >= k,
    ensures
        min_indent_from(ls, acc) >= k,
    decreases ls.len(),
{
    if ls.len() > 0 {
        let acc2 = if !is_line_ws(ls[0]) && leading_spaces(ls[0]) < acc {
            leading_spaces(ls[0])
        } else {
            acc
        };
        assert forall|i: int|
            0 <= i < ls.drop_first().len() && !is_line_ws(
                #[trigger] ls.drop_first()[i],
            ) implies leading_spaces(ls.drop_first()[i]) >= k by {
            assert(ls.drop_first()[i] == ls[i + 1]);
        }
        lemma_min_indent_from_ge(ls.drop_first(), acc2, k);
    }
}

pub proof fn lemma_min_indent_push(ls: Seq<Seq<char>>, l: Seq<char>)
    requires
        ls.len() > 0,
    ensures
        min_indent(ls.push(l)) == ({
            let m = min_indent(ls);
            if !is_line_ws(l) && leading_spaces(l) < m {
                leading_spaces(l)
            } else {
                m
            }
        }),
{
    let p = ls.push(l);
    assert(p[0] == ls[0]);
    assert(p.drop_first() =~= ls.drop_first().push(l));
    lemma_min_indent_from_push(ls.drop_first(), leading_spaces(ls[0]), l);
}

pub proof fn lemma_min_indent_nonneg(ls: Seq<Seq<char>>)
    requires
        ls.len() > 0,
    ensures
        min_indent(ls) >= 0,
{
    lemma_leading_spaces_bounds(ls[0]);
    assert forall|i: int|
        0 <= i < ls.drop_first().len() && !is_line_ws(
            #[trigger] ls.drop_first()[i],
        ) implies leading_spaces(ls.drop_first()[i]) >= 0 by {
        lemma_leading_spaces_bounds(ls.drop_first()[i]);
    }
    lemma_min_indent_from_ge(ls.drop_first(), leading_spaces(ls[0]), 0);
}

/// The computed minimum never exceeds the indentation of a significant line.
pub proof fn lemma_min_indent_le_significant(ls: Seq<Seq<char>>, i: int)
    requires
        0 <= i < ls.len(),
        !is_line_ws(ls[i]),
    ensures
        min_indent(ls) <= leading_spaces(ls[i]),
{
    if i == 0 {
        lemma_min_indent_from_le_acc(ls.drop_first(), leading_spaces(ls[0]));
    } else {
        assert(ls.drop_first()[i - 1] == ls[i]);
        lemma_min_indent_from_le_elem(ls.drop_first(), leading_spaces(ls[0]), i - 1);
    }
}

pub proof fn lemma_space_is_ws()
    ensures
        is_ws_char(' '),
{
}

pub proof fn lemma_strip_spaces_zero(l: Seq<char>)
    ensures
        strip_spaces(l, 0) == l,
{
    lemma_leading_spaces_bounds(l);
    assert(l.skip(0) =~= l);
}

pub proof fn lemma_strip_spaces_empty(n: int)
    requires
        n >= 0,
    ensures
        strip_spaces(Seq::<char>::empty(), n) == Seq::<char>::empty(),
{
    assert(Seq::<char>::empty().skip(0) =~= Seq::<char>::empty());
}

/// Stripping takes exactly `strip_prefix_len` spaces off the space prefix.
pub proof fn lemma_strip_spaces_leading(l: Seq<char>, n: int)
    requires
        n >= 0,
    ensures
        leading_spaces(strip_spaces(l, n)) == leading_spaces(l) - strip_prefix_len(l, n),
{
    lemma_leading_spaces_bounds(l);
    lemma_leading_spaces_skip(l, strip_prefix_len(l, n));
}

/// Stripping leading spaces never makes a significant line insignificant.
pub proof fn lemma_strip_spaces_significant(l: Seq<char>, n: int)
    requires
        n >= 0,
        !is_line_ws(l),
    ensures
        !is_line_ws(strip_spaces(l, n)),
{
    lemma_leading_spaces_bounds(l);
    lemma_space_is_ws();
    let p = strip_prefix_len(l, n);
    let q = choose|q: int| 0 <= q < l.len() && !is_ws_char(l[q]);
    assert(0 <= q < l.len() && !is_ws_char(l[q]));
    assert(q >= leading_spaces(l)) by {
        if q < leading_spaces(l) {
            assert(l[q] == ' ');
        }
    }
    assert(l.skip(p)[q - p] == l[q]);
    assert(!is_ws_char(strip_spaces(l, n)[q - p]));
}

/// Joining and re-splitting round-trips a document whose lines hold no line
/// break and whose last line is not empty.
pub proof fn lemma_split_join(ls: Seq<Seq<char>>)
    requires
        ls.len() > 0,
        forall|i: int| 0 <= i < ls.len() ==> !(#[trigger] ls[i]).contains('\n'),
        ls.last().len() > 0,
    ensures
        split_lines(join_lines(ls)) == ls,
    decreases ls.len(),
{
    if ls.len() == 1 {
        let l = ls[0];
        assert(l == ls.last());
        assert forall|i: int| 0 <= i < l.len() implies l[i] != '\n' by {
            if l[i] == '\n' {
                assert(l.contains('\n'));
            }
        }
        lemma_split_lines_step(l, l.len() as int);
        assert(join_lines(ls) == l);
        assert(seq![l] =~= ls);
    } else {
        let j = join_lines(ls);
        let l0 = ls[0];
        let rest = ls.drop_first();
        assert(j == l0 + seq!['\n'] + join_lines(rest));
        let e = l0.len() as int;
        assert forall|i: int| 0 <= i < e implies j[i] != '\n' by {
            assert(j[i] == l0[i]);
            if l0[i] == '\n' {
                assert(l0.contains('\n'));
            }
        }
        assert(j[e] == '\n');
        assert(e < j.len());
        lemma_split_lines_step(j, e);
        assert(j.take(e) =~= l0);
        assert(j.skip(e + 1) =~= join_lines(rest));
        assert(rest.last() == ls.last());
        assert forall|i: int| 0 <= i < rest.len() implies !(#[trigger] rest[i]).contains('\n') by {
            assert(rest[i] == ls[i + 1]);
        }
        lemma_split_join(rest);
        assert(seq![l0] + rest =~= ls);
    }
}

} // verus!
