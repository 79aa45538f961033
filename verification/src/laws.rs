//! Document-level laws of the dedent algorithm, each stated over the model
//! and proved once and for all.

use crate::model::{
    dedent_lines, dedent_text, is_line_ws, join_lines, leading_spaces, lemma_join_last_nl,
    lemma_leading_spaces_bounds, lemma_min_indent_from_ge, lemma_min_indent_le_significant,
    lemma_min_indent_nonneg,
    lemma_split_join, lemma_split_lines_len, lemma_split_lines_no_nl, lemma_strip_spaces_empty,
    lemma_strip_spaces_leading, lemma_strip_spaces_significant, lemma_strip_spaces_zero,
    min_indent, min_indent_from, normalize_last, split_lines, strip_prefix_len, strip_spaces,
    trim_framing,
};
use vstd::prelude::*;

verus! {

/// Law: an input whose last line is purely whitespace dedents to a document
/// whose last line is the empty string, so the joined output ends in a line
/// break (or is empty altogether when that line is the only one).
pub proof fn lemma_trailing_ws_line_collapses(ls: Seq<Seq<char>>)
    requires
        ls.len() > 0,
        is_line_ws(ls.last()),
    ensures
        dedent_lines(ls).len() == ls.len(),
        dedent_lines(ls).last() == Seq::<char>::empty(),
        ls.len() >= 2 ==> join_lines(dedent_lines(ls)).last() == '\n',
        ls.len() == 1 ==> join_lines(dedent_lines(ls)) == Seq::<char>::empty(),
{
    lemma_min_indent_nonneg(ls);
    let m = min_indent(ls);
    assert(normalize_last(ls)[ls.len() - 1] == Seq::<char>::empty());
    lemma_strip_spaces_empty(m);
    assert(dedent_lines(ls)[ls.len() - 1] == strip_spaces(Seq::<char>::empty(), m));
    if ls.len() >= 2 {
        lemma_join_last_nl(dedent_lines(ls));
    } else {
        assert(join_lines(dedent_lines(ls)) == dedent_lines(ls)[0]);
    }
}

/// Law: when every significant line carries at least `k` leading spaces,
/// some significant line carries exactly `k`, and a whitespace-only first
/// line does not seed a smaller minimum, the computed minimum indentation
/// is exactly `k`, and dedenting leaves every significant line with its
/// original leading-space count reduced by exactly `k`.
pub proof fn lemma_common_prefix_removal(ls: Seq<Seq<char>>, k: int)
    requires
        ls.len() > 0,
        k >= 0,
        forall|i: int|
            0 <= i < ls.len() && !is_line_ws(#[trigger] ls[i]) ==> leading_spaces(ls[i]) >= k,
        exists|i: int|
            0 <= i < ls.len() && !is_line_ws(#[trigger] ls[i]) && leading_spaces(ls[i]) == k,
        is_line_ws(ls[0]) ==> leading_spaces(ls[0]) >= k,
    ensures
        min_indent(ls) == k,
        forall|i: int|
            0 <= i < ls.len() && !is_line_ws(#[trigger] ls[i]) ==> dedent_lines(ls)[i] == ls[i].skip(
                k,
            ),
        forall|i: int|
            0 <= i < ls.len() && !is_line_ws(#[trigger] ls[i]) ==> leading_spaces(
                dedent_lines(ls)[i],
            ) == leading_spaces(ls[i]) - k,
{
    let wit = choose|i: int|
        0 <= i < ls.len() && !is_line_ws(#[trigger] ls[i]) && leading_spaces(ls[i]) == k;
    lemma_min_indent_le_significant(ls, wit);
    assert(leading_spaces(ls[0]) >= k);
    assert forall|i: int|
        0 <= i < ls.drop_first().len() && !is_line_ws(
            #[trigger] ls.drop_first()[i],
        ) implies leading_spaces(ls.drop_first()[i]) >= k by {
        assert(ls.drop_first()[i] == ls[i + 1]);
    }
    lemma_min_indent_from_ge(ls.drop_first(), leading_spaces(ls[0]), k);
    assert(min_indent(ls) == k);
    assert forall|i: int|
        0 <= i < ls.len() && !is_line_ws(#[trigger] ls[i]) implies leading_spaces(
        dedent_lines(ls)[i],
    ) == leading_spaces(ls[i]) - k by {
        assert(normalize_last(ls)[i] == ls[i]);
        lemma_strip_spaces_leading(ls[i], k);
        assert(strip_prefix_len(ls[i], k) == k);
        assert(dedent_lines(ls)[i] == strip_spaces(ls[i], k));
    }
}

proof fn lemma_min_indent_from_insert_ws(ls: Seq<Seq<char>>, acc: int, j: int, w: Seq<char>)
    requires
        0 <= j <= ls.len(),
        is_line_ws(w),
    ensures
        min_indent_from(ls.insert(j, w), acc) == min_indent_from(ls, acc),
    decreases ls.len(),
{
    let p = ls.insert(j, w);
    ls.insert_ensures(j, w);
    if j == 0 {
        assert(p[0] == w);
        assert(p.drop_first() =~= ls);
    } else {
        assert(p[0] == ls[0]);
        assert(p.drop_first() =~= ls.drop_first().insert(j - 1, w)) by {
            ls.drop_first().insert_ensures(j - 1, w);
        }
        let acc2 = if !is_line_ws(ls[0]) && leading_spaces(ls[0]) < acc {
            leading_spaces(ls[0])
        } else {
            acc
        };
        lemma_min_indent_from_insert_ws(ls.drop_first(), acc2, j - 1, w);
    }
}

/// Law: a whitespace-only line inserted between two existing lines (never
/// as the first line, and never after the last) leaves the computed minimum
/// indentation unchanged, and leaves the dedented form of every other line
/// unchanged; the inserted line is itself stripped like any other.
pub proof fn lemma_ws_line_insertion(ls: Seq<Seq<char>>, i: int, w: Seq<char>)
    requires
        1 <= i < ls.len(),
        is_line_ws(w),
    ensures
        min_indent(ls.insert(i, w)) == min_indent(ls),
        dedent_lines(ls.insert(i, w)) == dedent_lines(ls).insert(
            i,
            strip_spaces(w, min_indent(ls)),
        ),
{
    let p = ls.insert(i, w);
    ls.insert_ensures(i, w);
    assert(p[0] == ls[0]);
    assert(p.drop_first() =~= ls.drop_first().insert(i - 1, w)) by {
        ls.drop_first().insert_ensures(i - 1, w);
    }
    lemma_min_indent_from_insert_ws(ls.drop_first(), leading_spaces(ls[0]), i - 1, w);
    assert(min_indent(p) == min_indent(ls));
    let m = min_indent(ls);
    let nls = normalize_last(ls);
    let np = normalize_last(p);
    assert(p.last() == ls.last());
    nls.insert_ensures(i, w);
    assert(np =~~= nls.insert(i, w)) by {
        assert forall|x: int| 0 <= x < np.len() implies np[x] == nls.insert(i, w)[x] by {
            if is_line_ws(ls.last()) {
                if x < i {
                    assert(np[x] == p[x]);
                    assert(nls.insert(i, w)[x] == nls[x]);
                } else if x == i {
                    assert(np[x] == p[i]);
                } else {
                    assert(nls.insert(i, w)[x] == nls[x - 1]);
                    if x == p.len() - 1 {
                        assert(np[x] == Seq::<char>::empty());
                        assert(nls[x - 1] == Seq::<char>::empty());
                    } else {
                        assert(np[x] == p[x]);
                        assert(p[x] == ls[x - 1]);
                        assert(nls[x - 1] == ls[x - 1]);
                    }
                }
            } else {
                assert(np == p);
                assert(nls == ls);
            }
        }
    }
    dedent_lines(ls).insert_ensures(i, strip_spaces(w, m));
    assert(dedent_lines(p) =~~= dedent_lines(ls).insert(i, strip_spaces(w, m))) by {
        assert forall|x: int| 0 <= x < dedent_lines(p).len() implies dedent_lines(p)[x]
            == dedent_lines(ls).insert(i, strip_spaces(w, m))[x] by {
            assert(dedent_lines(p)[x] == strip_spaces(np[x], m));
            assert(np[x] == nls.insert(i, w)[x]);
            if x < i {
                assert(dedent_lines(ls)[x] == strip_spaces(nls[x], m));
            } else if x > i {
                assert(dedent_lines(ls)[x - 1] == strip_spaces(nls[x - 1], m));
            }
        }
    }
}

/// Law (document level): once every significant line of a dedented document
/// sits at column zero and at least one significant line exists, dedenting
/// the document again changes nothing.
pub proof fn lemma_dedent_lines_idempotent(ls: Seq<Seq<char>>)
    requires
        ls.len() > 0,
        exists|i: int|
            0 <= i < dedent_lines(ls).len() && !is_line_ws(#[trigger] dedent_lines(ls)[i]),
        forall|i: int|
            0 <= i < dedent_lines(ls).len() && !is_line_ws(#[trigger] dedent_lines(ls)[i])
                ==> leading_spaces(dedent_lines(ls)[i]) == 0,
    ensures
        dedent_lines(dedent_lines(ls)) == dedent_lines(ls),
{
    let dl = dedent_lines(ls);
    let m0 = min_indent(ls);
    lemma_min_indent_nonneg(ls);
    lemma_min_indent_nonneg(dl);
    let w = choose|i: int|
        0 <= i < dedent_lines(ls).len() && !is_line_ws(#[trigger] dedent_lines(ls)[i]);
    lemma_min_indent_le_significant(dl, w);
    assert(min_indent(dl) == 0);
    if is_line_ws(dl.last()) {
        if is_line_ws(ls.last()) {
            lemma_strip_spaces_empty(m0);
            assert(normalize_last(ls)[ls.len() - 1] == Seq::<char>::empty());
            assert(dl.last() == strip_spaces(Seq::<char>::empty(), m0));
        } else {
            assert(normalize_last(ls)[ls.len() - 1] == ls.last());
            assert(dl.last() == strip_spaces(ls.last(), m0));
            lemma_strip_spaces_significant(ls.last(), m0);
            assert(false);
        }
        assert(normalize_last(dl) =~~= dl);
    }
    assert forall|i: int| 0 <= i < dl.len() implies dedent_lines(dl)[i] == dl[i] by {
        assert(normalize_last(dl)[i] == dl[i]);
        lemma_strip_spaces_zero(dl[i]);
        assert(dedent_lines(dl)[i] == strip_spaces(dl[i], 0));
    }
    assert(dedent_lines(dl) =~~= dl);
}

/// Law (text level): dedenting the output of `dedent_text` again returns it
/// unchanged, provided the output has no framing artifacts of its own (it
/// does not begin with a quote or a line break and does not end with a
/// quote or a line break) and its significant lines, of which there is at
/// least one, all sit at column zero.
pub proof fn lemma_dedent_idempotent(s: Seq<char>)
    requires
        trim_framing(s).len() > 0,
        dedent_text(s).len() > 0,
        dedent_text(s)[0] != '"',
        dedent_text(s)[0] != '\n',
        dedent_text(s).last() != '"',
        dedent_text(s).last() != '\n',
        exists|i: int|
            0 <= i < split_lines(dedent_text(s)).len() && !is_line_ws(
                #[trigger] split_lines(dedent_text(s))[i],
            ),
        forall|i: int|
            0 <= i < split_lines(dedent_text(s)).len() && !is_line_ws(
                #[trigger] split_lines(dedent_text(s))[i],
            ) ==> leading_spaces(split_lines(dedent_text(s))[i]) == 0,
    ensures
        dedent_text(dedent_text(s)) == dedent_text(s),
{
    let t = trim_framing(s);
    let ls = split_lines(t);
    let dl = dedent_lines(ls);
    let out = dedent_text(s);
    lemma_split_lines_len(t);
    lemma_min_indent_nonneg(ls);
    let m = min_indent(ls);
    lemma_split_lines_no_nl(t);
    assert forall|i: int| 0 <= i < dl.len() implies !(#[trigger] dl[i]).contains('\n') by {
        let nl = normalize_last(ls)[i];
        let pl = strip_prefix_len(nl, m);
        lemma_leading_spaces_bounds(nl);
        assert(dl[i] == strip_spaces(nl, m));
        assert forall|j: int| 0 <= j < dl[i].len() implies dl[i][j] != '\n' by {
            assert(dl[i][j] == nl[j + pl]);
            if nl[j + pl] == '\n' {
                assert(nl.contains('\n'));
                assert(i == ls.len() - 1 && nl == Seq::<char>::empty() || nl == ls[i]);
            }
        }
        if dl[i].contains('\n') {
            let q = choose|q: int| 0 <= q < dl[i].len() && dl[i][q] == '\n';
            assert(dl[i][q] != '\n');
        }
    }
    assert(out == join_lines(dl));
    if dl.len() >= 2 {
        if dl.last().len() == 0 {
            lemma_join_last_nl(dl);
            assert(false);
        }
    } else {
        assert(out == dl[0]);
    }
    assert(dl.last().len() > 0);
    lemma_split_join(dl);
    assert(split_lines(out) == dl);
    assert(trim_framing(out) == out);
    lemma_dedent_lines_idempotent(ls);
    assert(dedent_text(out) == join_lines(dedent_lines(split_lines(trim_framing(out)))));
    assert(dedent_text(out) == out);
}

} // verus!
