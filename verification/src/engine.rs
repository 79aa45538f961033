//! The executable dedenter: framing trim, the line scan that builds a
//! document with its minimum indentation, prefix stripping, and the joined
//! result, each proved against the model in `crate::model`.

use crate::model::{
    dedent_lines, dedent_text, is_line_ws, is_ws_char, join_lines, leading_spaces,
    lemma_join_lines_push, lemma_leading_spaces_at, lemma_min_indent_nonneg,
    lemma_min_indent_push, lemma_split_lines_len, lemma_split_lines_step, min_indent,
    normalize_last, split_lines, strip_prefix_len, strip_spaces, trim_framing,
};
use vstd::prelude::*;
use vstd::string::StrSliceExecFns;
use vstd::string::StringExecFns;

verus! {

/// One line of the input: its text (leading spaces included) and the count
/// of consecutive space characters at its start.
#[derive(Debug, Clone, PartialEq)]
pub struct Line {
    pub line: String,
    pub leading_space_count: i32,
}

/// The analyzed document: the lines in input order (a whitespace-only last
/// line already collapsed to the empty string) and the minimum indentation
/// over the significant lines, seeded by the first line.
#[derive(Debug, Clone, PartialEq)]
pub struct Lines {
    pub lines: Vec<Line>,
    pub least_spaces: i32,
}

/// The one failure the dedenter reports: the input has no line at all once
/// the framing is trimmed away.
#[derive(Debug, Clone, Copy, PartialEq, Eq)]
pub enum DedentError {
    EmptyInput,
}

/// Whether `c` is white space (the set `char::is_whitespace` accepts).
fn is_whitespace_char(c: char) -> (r: bool)
    ensures
        r == is_ws_char(c),
{
    let u = c as u32;
    u == 0x20 || (0x9 <= u && u <= 0xd) || u == 0x85 || u == 0xa0 || u == 0x1680 || (0x2000 <= u
        && u <= 0x200a) || u == 0x2028 || u == 0x2029 || u == 0x202f || u == 0x205f || u == 0x3000
}

/// Counts the consecutive space characters at the start of `l`.
fn count_spaces(l: &str) -> (c: usize)
    ensures
        c as int == leading_spaces(l@),
        c <= l@.len(),
{
    let n = l.unicode_len();
    let mut i: usize = 0;
    while i < n && l.get_char(i) == ' '
        invariant
            i <= n,
            n == l@.len(),
            forall|k: int| 0 <= k < i ==> l@[k] == ' ',
        decreases n - i,
    {
        i = i + 1;
    }
    proof {
        lemma_leading_spaces_at(l@, i as int);
    }
    i
}

/// Whether `l` is empty or made of white space only.
fn ws_only(l: &str) -> (r: bool)
    ensures
        r == is_line_ws(l@),
{
    let n = l.unicode_len();
    let mut i: usize = 0;
    while i < n
        invariant
            i <= n,
            n == l@.len(),
            forall|k: int| 0 <= k < i ==> is_ws_char(#[trigger] l@[k]),
        decreases n - i,
    {
        if !is_whitespace_char(l.get_char(i)) {
            return false;
        }
        i = i + 1;
    }
    true
}

/// Trims the framing: at most one leading quote, at most one trailing
/// quote, then at most one leading line break.
fn frame_trimmed(s: &str) -> (r: &str)
    ensures
        r@ == trim_framing(s@),
        r@.len() <= s@.len(),
{
    let n = s.unicode_len();
    let mut lo: usize = 0;
    let mut hi: usize = n;
    if lo < hi && s.get_char(lo) == '"' {
        lo = lo + 1;
    }
    proof {
        assert(s@.subrange(lo as int, hi as int) =~= (if s@.len() > 0 && s@[0] == '"' {
            s@.drop_first()
        } else {
            s@
        }));
    }
    let ghost a = s@.subrange(lo as int, hi as int);
    if lo < hi && s.get_char(hi - 1) == '"' {
        hi = hi - 1;
    }
    proof {
        assert(s@.subrange(lo as int, hi as int) =~= (if a.len() > 0 && a.last() == '"' {
            a.drop_last()
        } else {
            a
        }));
    }
    let ghost b = s@.subrange(lo as int, hi as int);
    if lo < hi && s.get_char(lo) == '\n' {
        lo = lo + 1;
    }
    proof {
        assert(s@.subrange(lo as int, hi as int) =~= (if b.len() > 0 && b[0] == '\n' {
            b.drop_first()
        } else {
            b
        }));
    }
    s.substring_char(lo, hi)
}

/// Splits the framed text into lines, recording each line's leading-space
/// count, the running minimum indentation (the first line seeds it, later
/// whitespace-only lines never lower it), and collapses a whitespace-only
/// last line to the empty string.
#[verifier::loop_isolation(false)]
#[verifier::rlimit(60)]
pub fn analyze(s: &str) -> (r: Lines)
    requires
        s@.len() <= 0x7fff_ffff,
        trim_framing(s@).len() > 0,
    ensures
        r.lines@.len() == split_lines(trim_framing(s@)).len(),
        forall|i: int|
            0 <= i < r.lines@.len() ==> (#[trigger] r.lines@[i]).line@ == normalize_last(
                split_lines(trim_framing(s@)),
            )[i],
        forall|i: int|
            0 <= i < r.lines@.len() ==> (#[trigger] r.lines@[i]).leading_space_count as int
                == leading_spaces(split_lines(trim_framing(s@))[i]),
        r.least_spaces as int == min_indent(split_lines(trim_framing(s@))),
{
    let t = frame_trimmed(s);
    let n = t.unicode_len();
    let ghost gls = split_lines(t@);
    proof {
        lemma_split_lines_len(t@);
    }
    let mut lines: Vec<Line> = Vec::new();
    let mut least: i32 = 0;
    let mut have_least: bool = false;
    let mut start: usize = 0;
    proof {
        assert(t@.skip(0) =~= t@);
        assert(gls.skip(0) =~= gls);
    }
    while start < n
        invariant
            start <= n,
            lines@.len() <= gls.len(),
            forall|i: int| 0 <= i < lines@.len() ==> (#[trigger] lines@[i]).line@ == gls[i],
            forall|i: int|
                0 <= i < lines@.len() ==> (#[trigger] lines@[i]).leading_space_count as int
                    == leading_spaces(gls[i]),
            split_lines(t@.skip(start as int)) == gls.skip(lines@.len() as int),
            lines@.len() == 0 ==> !have_least,
            lines@.len() > 0 ==> have_least && least as int == min_indent(
                gls.take(lines@.len() as int),
            ),
        decreases n - start,
    {
        let mut j: usize = start;
        while j < n && t.get_char(j) != '\n'
            invariant
                start <= j <= n,
                forall|k: int| start <= k < j ==> t@[k] != '\n',
            decreases n - j,
        {
            j = j + 1;
        }
        let line_str = t.substring_char(start, j);
        let ghost k = lines@.len() as int;
        proof {
            let rem = t@.skip(start as int);
            assert forall|m: int| 0 <= m < j - start implies rem[m] != '\n' by {
                assert(rem[m] == t@[start + m]);
            }
            assert(j < n ==> rem[j - start] == t@[j as int]);
            lemma_split_lines_step(rem, j - start);
            if j < n {
                assert(rem.take(j - start) =~= t@.subrange(start as int, j as int));
                assert(rem.skip(j - start + 1) =~= t@.skip(j as int + 1));
            } else {
                assert(rem =~= t@.subrange(start as int, j as int));
                assert(t@.skip(n as int) =~= Seq::<char>::empty());
            }
            assert(gls.skip(k)[0] == gls[k]);
            assert(gls[k] == line_str@);
            assert(gls.skip(k).drop_first() =~= gls.skip(k + 1));
        }
        let sc = count_spaces(line_str);
        let scount: i32 = sc as i32;
        let ws = ws_only(line_str);
        if !have_least {
            least = scount;
            have_least = true;
            proof {
                assert(k == 0);
                assert(gls.take(1).drop_first() =~= Seq::<Seq<char>>::empty());
                assert(gls.take(1)[0] == gls[0]);
                assert(min_indent(gls.take(1)) == leading_spaces(gls[0]));
            }
        } else {
            proof {
                assert(gls.take(k + 1) =~= gls.take(k).push(gls[k]));
                lemma_min_indent_push(gls.take(k), gls[k]);
            }
            if !ws && scount <= least {
                least = scount;
            }
        }
        lines.push(Line { line: line_str.to_owned(), leading_space_count: scount });
        if j < n {
            start = j + 1;
        } else {
            start = n;
        }
    }
    proof {
        assert(t@.skip(n as int) =~= Seq::<char>::empty());
        assert(gls.skip(lines@.len() as int).len() == 0);
        assert(lines@.len() == gls.len());
        assert(gls.take(gls.len() as int) =~= gls);
    }
    let ghost pre = lines@;
    let mut last = lines.pop().unwrap();
    if ws_only(last.line.as_str()) {
        last.line = String::new();
    }
    lines.push(last);
    proof {
        assert forall|i: int| 0 <= i < lines@.len() implies (#[trigger] lines@[i]).line@
            == normalize_last(gls)[i] by {
            if i < lines@.len() - 1 {
                assert(lines@[i] == pre[i]);
            }
        }
        assert forall|i: int| 0 <= i < lines@.len() implies (
        #[trigger] lines@[i]).leading_space_count as int == leading_spaces(gls[i]) by {
            if i < lines@.len() - 1 {
                assert(lines@[i] == pre[i]);
            }
        }
    }
    Lines { lines, least_spaces: least }
}

/// Removes up to `spaces` space characters from the start of `string`: a
/// line with fewer leading spaces loses only those it has.
pub fn remove_space(string: String, spaces: i32) -> (r: String)
    requires
        spaces >= 0,
    ensures
        r@ == strip_spaces(string@, spaces as int),
{
    let st = string.as_str();
    let n = st.unicode_len();
    let c = count_spaces(st);
    let su = spaces as usize;
    let k = if su < c {
        su
    } else {
        c
    };
    let r = st.substring_char(k, n).to_owned();
    proof {
        assert(string@.subrange(k as int, n as int) =~= string@.skip(
            strip_prefix_len(string@, spaces as int),
        ));
    }
    r
}

/// Dedents a raw text block: trims the framing, splits into lines, strips
/// the common minimum indentation from every line, and joins the lines with
/// single line breaks. Reports `EmptyInput` exactly when no line is left
/// once the framing is trimmed.
#[verifier::loop_isolation(false)]
pub fn dedent(s: &str) -> (r: Result<String, DedentError>)
    requires
        s@.len() <= 0x7fff_ffff,
    ensures
        match r {
            Ok(out) => trim_framing(s@).len() > 0 && out@ == dedent_text(s@),
            Err(e) => trim_framing(s@).len() == 0 && e == DedentError::EmptyInput,
        },
{
    let t = frame_trimmed(s);
    if t.unicode_len() == 0 {
        return Err(DedentError::EmptyInput);
    }
    let doc = analyze(s);
    let least = doc.least_spaces;
    let ghost ls = split_lines(trim_framing(s@));
    let ghost dl = dedent_lines(ls);
    proof {
        lemma_split_lines_len(trim_framing(s@));
        lemma_min_indent_nonneg(ls);
        reveal_strlit("\n");
        assert("\n"@ =~= seq!['\n']);
    }
    let n = doc.lines.len();
    let mut out = String::new();
    let mut i: usize = 0;
    while i < n
        invariant
            i <= n,
            out@ == join_lines(dl.take(i as int)),
        decreases n - i,
    {
        let stripped = remove_space(doc.lines[i].line.clone(), least);
        proof {
            assert(doc.lines@[i as int].line@ == normalize_last(ls)[i as int]);
            assert(dl[i as int] == strip_spaces(normalize_last(ls)[i as int], min_indent(ls)));
            assert(dl.take(i as int + 1) =~= dl.take(i as int).push(dl[i as int]));
            lemma_join_lines_push(dl.take(i as int), dl[i as int]);
        }
        if i > 0 {
            out.append("\n");
        }
        out.append(stripped.as_str());
        proof {
            assert(out@ =~= join_lines(dl.take(i as int + 1)));
        }
        i = i + 1;
    }
    proof {
        assert(dl.take(n as int) =~= dl);
    }
    Ok(out)
}

} // verus!
