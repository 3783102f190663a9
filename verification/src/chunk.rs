//! Splitting a file into embeddable chunks: paragraph chunks for prose, a
//! sliding line window for code.

use vstd::prelude::*;

use crate::text::{blank, chars_of, is_blank, is_ws, is_whitespace, join_lines, str_equal, string_of};

verus! {

/// One chunk of a file, with the line range it came from (1-based,
/// inclusive).
#[derive(Debug, Clone)]
pub struct Chunk {
    /// The chunk text.
    pub text: String,
    /// First source line (1-based).
    pub line_lo: usize,
    /// Last source line (1-based).
    pub line_hi: usize,
}

/// How to split a file.
#[derive(Debug, Clone, Copy)]
pub enum ChunkMode {
    /// Split on blank lines (prose, markdown).
    Paragraph,
    /// Sliding window of `win` lines advancing by `step` (code).
    Lines { win: usize, step: usize },
}

/// A line without its trailing carriage return, if it has one.
pub open spec fn strip_cr(l: Seq<char>) -> Seq<char> {
    if l.len() > 0 && l.last() == '\r' {
        l.drop_last()
    } else {
        l
    }
}

/// Scanning `s` from the left: the lines completed so far (each ended by a
/// `'\n'`, which is dropped together with a `'\r'` just before it) and the
/// line still open.
pub open spec fn scan_lines(s: Seq<char>) -> (Seq<Seq<char>>, Seq<char>)
    decreases s.len(),
{
    if s.len() == 0 {
        (Seq::empty(), Seq::empty())
    } else {
        let (done, cur) = scan_lines(s.drop_last());
        if s.last() == '\n' {
            (done.push(strip_cr(cur)), Seq::empty())
        } else {
            (done, cur.push(s.last()))
        }
    }
}

/// The lines of `s`, as `str::lines` yields them: split after each `'\n'`,
/// the terminator (and a `'\r'` before it) dropped, and a last line without
/// terminator kept when it is not empty.
pub open spec fn lines_of(s: Seq<char>) -> Seq<Seq<char>> {
    let (done, cur) = scan_lines(s);
    if cur.len() > 0 {
        done.push(cur)
    } else {
        done
    }
}

/// The character sequences held by a sequence of character vectors.
pub open spec fn views(v: Seq<Vec<char>>) -> Seq<Seq<char>> {
    v.map_values(|x: Vec<char>| x@)
}

/// A chunk as plain values: text, first line, last line.
pub open spec fn chunk_spec(c: Chunk) -> (Seq<char>, int, int) {
    (c.text@, c.line_lo as int, c.line_hi as int)
}

/// The chunks of `cs` as plain values.
pub open spec fn chunk_specs(cs: Seq<Chunk>) -> Seq<(Seq<char>, int, int)> {
    cs.map_values(|c: Chunk| chunk_spec(c))
}

/// `c` is one maximal run of non-blank lines of `ls`: lines `line_lo` to
/// `line_hi` (1-based) are all non-blank, the lines just outside the run are
/// blank or absent, and the text is the run joined with `'\n'`.
pub open spec fn paragraph_ok(ls: Seq<Seq<char>>, c: Chunk) -> bool {
    let lo = c.line_lo as int;
    let hi = c.line_hi as int;
    &&& 1 <= lo <= hi <= ls.len()
    &&& c.text@ == join_lines(ls.subrange(lo - 1, hi))
    &&& forall|j: int| lo - 1 <= j < hi ==> !blank(#[trigger] ls[j])
    &&& (lo == 1 || blank(ls[lo - 2]))
    &&& (hi == ls.len() || blank(ls[hi]))
}

/// `cs` is the paragraph split of `ls`: every chunk is a maximal run of
/// non-blank lines, the chunks come in line order, and every non-blank line
/// lies in one of them.
pub open spec fn is_paragraph_split(ls: Seq<Seq<char>>, cs: Seq<Chunk>) -> bool {
    &&& forall|k: int| 0 <= k < cs.len() ==> paragraph_ok(ls, #[trigger] cs[k])
    &&& forall|k: int, m: int|
        0 <= k < m < cs.len() ==> (#[trigger] cs[k]).line_hi < (#[trigger] cs[m]).line_lo
    &&& forall|j: int|
        0 <= j < ls.len() && !blank(#[trigger] ls[j]) ==> exists|k: int|
            0 <= k < cs.len() && (#[trigger] cs[k]).line_lo <= j + 1 <= cs[k].line_hi
}

/// Line windows of `ls` from line index `i` onward: a window of `win` lines
/// (fewer at the end) starts at `i`, the next one `step` lines later, and
/// the last window is the first that reaches the end. Blank windows are
/// left out.
pub open spec fn windows_from(ls: Seq<Seq<char>>, i: int, win: int, step: int) -> Seq<
    (Seq<char>, int, int),
>
    decreases (if i < ls.len() {
        ls.len() - i
    } else {
        0
    }),
    when step >= 1 && i >= 0
{
    if i >= ls.len() {
        Seq::empty()
    } else {
        let end = if i + win < ls.len() {
            i + win
        } else {
            ls.len() as int
        };
        let body = join_lines(ls.subrange(i, end));
        let rest = if end == ls.len() {
            Seq::<(Seq<char>, int, int)>::empty()
        } else {
            windows_from(ls, i + step, win, step)
        };
        if blank(body) {
            rest
        } else {
            seq![(body, i + 1, end)] + rest
        }
    }
}

/// At least one.
pub open spec fn at_least_one(x: usize) -> int {
    if x == 0 {
        1
    } else {
        x as int
    }
}

/// The chunks `chunk(text, mode)` yields, stated over the lines of `text`.
pub open spec fn chunked(text: Seq<char>, mode: ChunkMode, cs: Seq<Chunk>) -> bool {
    match mode {
        ChunkMode::Paragraph => is_paragraph_split(lines_of(text), cs),
        ChunkMode::Lines { win, step } => chunk_specs(cs) == windows_from(
            lines_of(text),
            0,
            at_least_one(win),
            at_least_one(step),
        ),
    }
}

/// Number of maximal runs of non-whitespace characters in `s`.
pub open spec fn words_in(s: Seq<char>) -> nat
    decreases s.len(),
{
    if s.len() == 0 {
        0
    } else {
        let starts_word = !is_ws(s.last()) && (s.len() == 1 || is_ws(s[s.len() - 2]));
        words_in(s.drop_last()) + if starts_word {
            1nat
        } else {
            0nat
        }
    }
}

/// Whether the extension names a prose format (`md`, `mdx`, `txt`, `rst`).
pub open spec fn prose_ext(ext: Seq<char>) -> bool {
    ext == "md"@ || ext == "mdx"@ || ext == "txt"@ || ext == "rst"@
}

impl ChunkMode {
    /// A sensible default for a file extension: paragraphs for prose formats,
    /// 40-line windows advancing by 30 otherwise.
    pub fn for_ext(ext: &str) -> (m: ChunkMode)
        ensures
            prose_ext(ext@) ==> m is Paragraph,
            !prose_ext(ext@) ==> m == (ChunkMode::Lines { win: 40, step: 30 }),
    {
        if str_equal(ext, "md") || str_equal(ext, "mdx") || str_equal(ext, "txt") || str_equal(
            ext,
            "rst",
        ) {
            ChunkMode::Paragraph
        } else {
            ChunkMode::Lines { win: 40, step: 30 }
        }
    }
}

/// Count whitespace-delimited words.
pub fn word_count(s: &str) -> (n: usize)
    ensures
        n == words_in(s@),
{
    let v = chars_of(s);
    let mut n: usize = 0;
    let mut i: usize = 0;
    while i < v.len()
        invariant
            v@ == s@,
            i <= v.len(),
            n == words_in(v@.take(i as int)),
            n <= i,
        decreases v.len() - i,
    {
        proof {
            let t = v@.take(i + 1);
            assert(t.drop_last() =~= v@.take(i as int));
            if i > 0 {
                assert(t[t.len() - 2] == v@[i - 1]);
            }
        }
        if !is_whitespace(v[i]) && (i == 0 || is_whitespace(v[i - 1])) {
            n = n + 1;
        }
        i = i + 1;
    }
    assert(v@.take(v.len() as int) =~= v@);
    n
}

/// Splits characters into lines (see [`lines_of`]).
fn split_lines(text: &Vec<char>) -> (ls: Vec<Vec<char>>)
    ensures
        views(ls@) == lines_of(text@),
{
    let mut done: Vec<Vec<char>> = Vec::new();
    let mut cur: Vec<char> = Vec::new();
    let mut i: usize = 0;
    while i < text.len()
        invariant
            i <= text.len(),
            (views(done@), cur@) == scan_lines(text@.take(i as int)),
        decreases text.len() - i,
    {
        proof {
            assert(text@.take(i + 1).drop_last() =~= text@.take(i as int));
        }
        let c = text[i];
        if c == '\n' {
            if cur.len() > 0 && cur[cur.len() - 1] == '\r' {
                cur.pop();
            }
            let line = cur;
            cur = Vec::new();
            let ghost before = done@;
            done.push(line);
            proof {
                assert(views(done@) =~= views(before).push(line@));
            }
        } else {
            cur.push(c);
        }
        i = i + 1;
    }
    assert(text@.take(text.len() as int) =~= text@);
    if cur.len() > 0 {
        let ghost before = done@;
        done.push(cur);
        proof {
            assert(views(done@) =~= views(before).push(cur@));
        }
    }
    done
}

/// Lines `lo..hi` of `ls` joined with `'\n'`.
fn join_range(ls: &Vec<Vec<char>>, lo: usize, hi: usize) -> (r: Vec<char>)
    requires
        lo <= hi <= ls@.len(),
    ensures
        r@ == join_lines(views(ls@).subrange(lo as int, hi as int)),
{
    let ghost vs = views(ls@);
    let mut r: Vec<char> = Vec::new();
    let mut j: usize = lo;
    while j < hi
        invariant
            lo <= j <= hi,
            hi <= ls@.len(),
            vs == views(ls@),
            r@ == join_lines(vs.subrange(lo as int, j as int)),
        decreases hi - j,
    {
        let ghost prev = r@;
        if j > lo {
            r.push('\n');
        }
        let line = &ls[j];
        let mut t: usize = 0;
        while t < line.len()
            invariant
                t <= line@.len(),
                r@ == (if j > lo {
                    prev.push('\n')
                } else {
                    prev
                }) + line@.take(t as int),
            decreases line.len() - t,
        {
            r.push(line[t]);
            proof {
                assert(line@.take(t + 1) =~= line@.take(t as int).push(line@[t as int]));
            }
            t = t + 1;
        }
        proof {
            assert(line@.take(line@.len() as int) =~= line@);
            let sub = vs.subrange(lo as int, j + 1);
            assert(sub.drop_last() =~= vs.subrange(lo as int, j as int));
            assert(sub.last() == line@);
            if j == lo {
                assert(sub.len() == 1);
                assert(r@ =~= line@);
            } else {
                assert(r@ =~= prev + seq!['\n'] + line@);
            }
        }
        j = j + 1;
    }
    r
}

/// A character of a line occurs in the join of the lines.
proof fn lemma_join_holds_line(ls: Seq<Seq<char>>, k: int, t: int)
    requires
        0 <= k < ls.len(),
        0 <= t < ls[k].len(),
    ensures
        exists|p: int| 0 <= p < join_lines(ls).len() && join_lines(ls)[p] == ls[k][t],
    decreases ls.len(),
{
    if ls.len() == 1 {
        assert(join_lines(ls)[t] == ls[k][t]);
    } else if k == ls.len() - 1 {
        let prefix = join_lines(ls.drop_last()) + seq!['\n'];
        assert(join_lines(ls)[prefix.len() + t] == ls[k][t]);
    } else {
        lemma_join_holds_line(ls.drop_last(), k, t);
        let p = choose|p: int|
            0 <= p < join_lines(ls.drop_last()).len() && join_lines(ls.drop_last())[p]
                == ls.drop_last()[k][t];
        assert(join_lines(ls)[p] == ls[k][t]);
    }
}

/// Lines that are not all blank join into text that is not blank.
proof fn lemma_join_not_blank(ls: Seq<Seq<char>>, k: int)
    requires
        0 <= k < ls.len(),
        !blank(ls[k]),
    ensures
        !blank(join_lines(ls)),
{
    let t = choose|t: int| 0 <= t < ls[k].len() && !is_ws(#[trigger] ls[k][t]);
    lemma_join_holds_line(ls, k, t);
}

fn make_chunk(ls: &Vec<Vec<char>>, lo: usize, hi: usize) -> (c: Chunk)
    requires
        lo < hi <= ls@.len(),
    ensures
        c.text@ == join_lines(views(ls@).subrange(lo as int, hi as int)),
        c.line_lo == lo + 1,
        c.line_hi == hi,
{
    let body = join_range(ls, lo, hi);
    Chunk { text: string_of(&body), line_lo: lo + 1, line_hi: hi }
}

/// Paragraph chunks of the lines: maximal runs of non-blank lines.
fn paragraphs_of(ls: &Vec<Vec<char>>) -> (out: Vec<Chunk>)
    ensures
        is_paragraph_split(views(ls@), out@),
{
    let n = ls.len();
    let ghost lv = views(ls@);
    let mut out: Vec<Chunk> = Vec::new();
    let mut in_para = false;
    let mut start: usize = 0;
    let mut i: usize = 0;
    while i < n
        invariant
            n == ls@.len(),
            lv == views(ls@),
            lv.len() == n,
            i <= n,
            start <= i,
            in_para ==> start < i && (start == 0 || blank(lv[start - 1])) && forall|j: int|
                start <= j < i ==> !blank(#[trigger] lv[j]),
            !in_para ==> (i == 0 || blank(lv[i - 1])),
            forall|k: int| 0 <= k < out@.len() ==> paragraph_ok(lv, #[trigger] out@[k]),
            forall|k: int, m: int|
                0 <= k < m < out@.len() ==> (#[trigger] out@[k]).line_hi < (
                #[trigger] out@[m]).line_lo,
            forall|k: int|
                0 <= k < out@.len() ==> (#[trigger] out@[k]).line_hi <= (if in_para {
                    start
                } else {
                    i
                }),
            forall|j: int|
                0 <= j < (if in_para {
                    start
                } else {
                    i
                }) && !blank(#[trigger] lv[j]) ==> exists|k: int|
                    0 <= k < out@.len() && (#[trigger] out@[k]).line_lo <= j + 1 <= out@[k].line_hi,
        decreases n - i,
    {
        assert(lv[i as int] == ls@[i as int]@);
        let b = is_blank(&ls[i]);
        if b {
            if in_para {
                let c = make_chunk(ls, start, i);
                proof {
                    assert(views(ls@).subrange(start as int, i as int) == lv.subrange(
                        c.line_lo - 1,
                        c.line_hi as int,
                    ));
                }
                let ghost before = out@;
                out.push(c);
                in_para = false;
                proof {
                    assert(out@[before.len() as int] == c);
                    assert forall|k: int| 0 <= k < out@.len() implies paragraph_ok(
                        lv,
                        #[trigger] out@[k],
                    ) by {
                        if k < before.len() {
                            assert(out@[k] == before[k]);
                        }
                    }
                    assert forall|k: int, m: int| 0 <= k < m < out@.len() implies (
                    #[trigger] out@[k]).line_hi < (#[trigger] out@[m]).line_lo by {
                        assert(out@[k] == before[k]);
                        if m < before.len() {
                            assert(out@[m] == before[m]);
                        }
                    }
                    assert forall|k: int| 0 <= k < out@.len() implies (
                    #[trigger] out@[k]).line_hi <= i + 1 by {
                        if k < before.len() {
                            assert(out@[k] == before[k]);
                        }
                    }
                    assert forall|j: int| 0 <= j < i + 1 && !blank(#[trigger] lv[j]) implies exists|
                        k: int,
                    | 0 <= k < out@.len() && (#[trigger] out@[k]).line_lo <= j + 1 <= out@[k].line_hi by {
                        if j < start {
                            let k = choose|k: int|
                                0 <= k < before.len() && (#[trigger] before[k]).line_lo <= j + 1
                                    <= before[k].line_hi;
                            assert(out@[k] == before[k]);
                        } else {
                            assert(out@[before.len() as int] == c);
                        }
                    }
                }
            }
        } else {
            if !in_para {
                start = i;
                in_para = true;
            }
        }
        i = i + 1;
    }
    if in_para {
        let c = make_chunk(ls, start, n);
        let ghost before = out@;
        out.push(c);
        proof {
            assert(views(ls@).subrange(start as int, n as int) == lv.subrange(
                c.line_lo - 1,
                c.line_hi as int,
            ));
            assert(out@[before.len() as int] == c);
            assert forall|k: int| 0 <= k < out@.len() implies paragraph_ok(
                lv,
                #[trigger] out@[k],
            ) by {
                if k < before.len() {
                    assert(out@[k] == before[k]);
                }
            }
            assert forall|k: int, m: int| 0 <= k < m < out@.len() implies (
            #[trigger] out@[k]).line_hi < (#[trigger] out@[m]).line_lo by {
                assert(out@[k] == before[k]);
                if m < before.len() {
                    assert(out@[m] == before[m]);
                }
            }
            assert forall|j: int| 0 <= j < n && !blank(#[trigger] lv[j]) implies exists|k: int|
                0 <= k < out@.len() && (#[trigger] out@[k]).line_lo <= j + 1 <= out@[k].line_hi by {
                if j < start {
                    let k = choose|k: int|
                        0 <= k < before.len() && (#[trigger] before[k]).line_lo <= j + 1 <= before[k].line_hi;
                    assert(out@[k] == before[k]);
                } else {
                    assert(out@[before.len() as int] == c);
                }
            }
        }
    }
    out
}

/// Line-window chunks of the lines (see [`windows_from`]).
fn line_windows(ls: &Vec<Vec<char>>, win: usize, step: usize) -> (out: Vec<Chunk>)
    requires
        win >= 1,
        step >= 1,
    ensures
        chunk_specs(out@) == windows_from(views(ls@), 0, win as int, step as int),
{
    let n = ls.len();
    let ghost lv = views(ls@);
    let mut out: Vec<Chunk> = Vec::new();
    let mut i: usize = 0;
    while i < n
        invariant
            n == ls@.len(),
            lv == views(ls@),
            lv.len() == n,
            i <= n,
            win >= 1,
            step >= 1,
            chunk_specs(out@) + windows_from(lv, i as int, win as int, step as int)
                == windows_from(lv, 0, win as int, step as int),
        decreases n - i,
    {
        let end: usize = if win >= n - i {
            n
        } else {
            i + win
        };
        let body = join_range(ls, i, end);
        let ghost before = out@;
        let ghost rest = if end == n {
            Seq::<(Seq<char>, int, int)>::empty()
        } else {
            windows_from(lv, i + step, win as int, step as int)
        };
        proof {
            assert(views(ls@).subrange(i as int, end as int) == lv.subrange(i as int, end as int));
        }
        if !is_blank(&body) {
            let c = Chunk { text: string_of(&body), line_lo: i + 1, line_hi: end };
            out.push(c);
            proof {
                assert(chunk_specs(out@) =~= chunk_specs(before).push(chunk_spec(c)));
                assert(windows_from(lv, i as int, win as int, step as int) == seq![
                    chunk_spec(c),
                ] + rest);
                assert(chunk_specs(out@) + rest =~= chunk_specs(before) + (seq![chunk_spec(c)]
                    + rest));
            }
        } else {
            proof {
                assert(windows_from(lv, i as int, win as int, step as int) == rest);
            }
        }
        if end == n {
            i = n;
        } else {
            match i.checked_add(step) {
                Some(next) => {
                    if next < n {
                        i = next;
                    } else {
                        i = n;
                    }
                },
                None => {
                    i = n;
                },
            }
        }
        proof {
            assert(windows_from(lv, i as int, win as int, step as int) == rest);
        }
    }
    proof {
        assert(chunk_specs(out@) + Seq::<(Seq<char>, int, int)>::empty() =~= chunk_specs(out@));
    }
    out
}

/// Every chunk of a paragraph split holds a non-blank line, so its text is
/// not blank.
pub proof fn lemma_paragraph_chunks_not_blank(ls: Seq<Seq<char>>, cs: Seq<Chunk>, k: int)
    requires
        is_paragraph_split(ls, cs),
        0 <= k < cs.len(),
    ensures
        !blank(cs[k].text@),
{
    let c = cs[k];
    assert(paragraph_ok(ls, c));
    let sub = ls.subrange(c.line_lo - 1, c.line_hi as int);
    assert(sub[0] == ls[c.line_lo - 1]);
    lemma_join_not_blank(sub, 0);
}

/// Line windows that overlap or touch (`step <= win`) lose no text: every
/// non-blank line at or after `i` lies in some window chunk. A window is
/// left out only when its joined text is blank.
pub proof fn lemma_windows_cover_nonblank_lines(
    ls: Seq<Seq<char>>,
    i: int,
    win: int,
    step: int,
    j: int,
)
    requires
        1 <= step <= win,
        0 <= i <= j < ls.len(),
        !blank(ls[j]),
    ensures
        exists|k: int|
            0 <= k < windows_from(ls, i, win, step).len() && (#[trigger] windows_from(
                ls,
                i,
                win,
                step,
            )[k]).1 <= j + 1 <= windows_from(ls, i, win, step)[k].2,
    decreases ls.len() - i,
{
    let end = if i + win < ls.len() {
        i + win
    } else {
        ls.len() as int
    };
    let sub = ls.subrange(i, end);
    let body = join_lines(sub);
    let ws = windows_from(ls, i, win, step);
    if j < end {
        assert(sub[j - i] == ls[j]);
        lemma_join_not_blank(sub, j - i);
        assert(ws[0] == (body, i + 1, end));
    } else {
        lemma_windows_cover_nonblank_lines(ls, i + step, win, step, j);
        let rest = windows_from(ls, i + step, win, step);
        let k = choose|k: int|
            0 <= k < rest.len() && (#[trigger] rest[k]).1 <= j + 1 <= rest[k].2;
        if blank(body) {
            assert(ws[k] == rest[k]);
        } else {
            assert(ws[k + 1] == rest[k]);
        }
    }
}

/// Chunking by line windows that overlap or touch loses no text: every
/// non-blank line of the text lies within the line range of some chunk.
pub proof fn lemma_line_chunks_cover_text(text: Seq<char>, win: usize, step: usize, cs: Seq<Chunk>, j: int)
    requires
        chunked(text, ChunkMode::Lines { win, step }, cs),
        at_least_one(step) <= at_least_one(win),
        0 <= j < lines_of(text).len(),
        !blank(lines_of(text)[j]),
    ensures
        exists|k: int|
            0 <= k < cs.len() && (#[trigger] cs[k]).line_lo <= j + 1 <= cs[k].line_hi,
{
    let ls = lines_of(text);
    lemma_windows_cover_nonblank_lines(ls, 0, at_least_one(win), at_least_one(step), j);
    let ws = windows_from(ls, 0, at_least_one(win), at_least_one(step));
    let k = choose|k: int| 0 <= k < ws.len() && (#[trigger] ws[k]).1 <= j + 1 <= ws[k].2;
    assert(chunk_specs(cs)[k] == ws[k]);
    assert(chunk_spec(cs[k]) == ws[k]);
}

/// Every window chunk has non-blank text and a line range within `1..=n`.
pub proof fn lemma_windows_shape(ls: Seq<Seq<char>>, i: int, win: int, step: int)
    requires
        win >= 1,
        step >= 1,
        i >= 0,
    ensures
        forall|k: int|
            0 <= k < windows_from(ls, i, win, step).len() ==> {
                let w = #[trigger] windows_from(ls, i, win, step)[k];
                &&& !blank(w.0)
                &&& i + 1 <= w.1 <= w.2 <= ls.len()
            },
    decreases (if i < ls.len() {
        ls.len() - i
    } else {
        0
    }),
{
    if i < ls.len() {
        let end = if i + win < ls.len() {
            i + win
        } else {
            ls.len() as int
        };
        if end != ls.len() {
            lemma_windows_shape(ls, i + step, win, step);
        }
        let rest = if end == ls.len() {
            Seq::<(Seq<char>, int, int)>::empty()
        } else {
            windows_from(ls, i + step, win, step)
        };
        let body = join_lines(ls.subrange(i, end));
        assert forall|k: int| 0 <= k < windows_from(ls, i, win, step).len() implies {
            let w = #[trigger] windows_from(ls, i, win, step)[k];
            &&& !blank(w.0)
            &&& i + 1 <= w.1 <= w.2 <= ls.len()
        } by {
            if !blank(body) && k == 0 {
            } else if !blank(body) {
                assert(windows_from(ls, i, win, step)[k] == rest[k - 1]);
            } else {
                assert(windows_from(ls, i, win, step)[k] == rest[k]);
            }
        }
    }
}

/// Split `text` into chunks under `mode`. Empty and whitespace-only chunks
/// are dropped.
pub fn chunk(text: &str, mode: ChunkMode) -> (out: Vec<Chunk>)
    ensures
        chunked(text@, mode, out@),
        forall|k: int| 0 <= k < out@.len() ==> !blank((#[trigger] out@[k]).text@),
        forall|k: int|
            0 <= k < out@.len() ==> 1 <= (#[trigger] out@[k]).line_lo <= out@[k].line_hi
                <= lines_of(text@).len(),
{
    let chars = chars_of(text);
    let ls = split_lines(&chars);
    match mode {
        ChunkMode::Paragraph => {
            let out = paragraphs_of(&ls);
            proof {
                assert forall|k: int| 0 <= k < out@.len() implies !blank(
                    (#[trigger] out@[k]).text@,
                ) by {
                    lemma_paragraph_chunks_not_blank(views(ls@), out@, k);
                }
                assert forall|k: int| 0 <= k < out@.len() implies 1 <= (
                #[trigger] out@[k]).line_lo <= out@[k].line_hi <= lines_of(text@).len() by {
                    assert(paragraph_ok(views(ls@), out@[k]));
                }
            }
            out
        },
        ChunkMode::Lines { win, step } => {
            let w = if win == 0 {
                1
            } else {
                win
            };
            let s = if step == 0 {
                1
            } else {
                step
            };
            let out = line_windows(&ls, w, s);
            proof {
                lemma_windows_shape(views(ls@), 0, w as int, s as int);
                assert forall|k: int| 0 <= k < out@.len() implies !blank(
                    (#[trigger] out@[k]).text@,
                ) && 1 <= out@[k].line_lo <= out@[k].line_hi <= lines_of(text@).len() by {
                    assert(chunk_specs(out@)[k] == chunk_spec(out@[k]));
                    assert(chunk_specs(out@)[k] == windows_from(views(ls@), 0, w as int, s as int)[k]);
                }
            }
            out
        },
    }
}

/// No line holds a `'\n'`: lines are split exactly at line feeds.
pub proof fn lemma_lines_have_no_line_feed(s: Seq<char>)
    ensures
        forall|k: int, j: int|
            0 <= k < lines_of(s).len() && 0 <= j < lines_of(s)[k].len() ==> #[trigger] lines_of(
                s,
            )[k][j] != '\n',
{
    lemma_scan_no_line_feed(s);
}

proof fn lemma_scan_no_line_feed(s: Seq<char>)
    ensures
        forall|k: int, j: int|
            0 <= k < scan_lines(s).0.len() && 0 <= j < scan_lines(s).0[k].len()
                ==> #[trigger] scan_lines(s).0[k][j] != '\n',
        forall|j: int| 0 <= j < scan_lines(s).1.len() ==> #[trigger] scan_lines(s).1[j] != '\n',
    decreases s.len(),
{
    if s.len() > 0 {
        lemma_scan_no_line_feed(s.drop_last());
        let (done, cur) = scan_lines(s.drop_last());
        if s.last() == '\n' {
            let l = strip_cr(cur);
            assert forall|j: int| 0 <= j < l.len() implies l[j] != '\n' by {
                assert(l[j] == cur[j]);
            }
            assert forall|k: int, j: int|
                0 <= k < done.push(l).len() && 0 <= j < done.push(l)[k].len() implies #[trigger] done.push(
                l,
            )[k][j] != '\n' by {
                if k < done.len() {
                    assert(done.push(l)[k] == done[k]);
                }
            }
        } else {
            assert forall|j: int| 0 <= j < cur.push(s.last()).len() implies #[trigger] cur.push(
                s.last(),
            )[j] != '\n' by {
                if j < cur.len() {
                    assert(cur.push(s.last())[j] == cur[j]);
                }
            }
        }
    }
}

/// Blank text holds no words, and no text holds more words than characters.
pub proof fn lemma_words_bounds(s: Seq<char>)
    ensures
        words_in(s) <= s.len(),
        blank(s) ==> words_in(s) == 0,
    decreases s.len(),
{
    if s.len() > 0 {
        lemma_words_bounds(s.drop_last());
        if blank(s) {
            assert(blank(s.drop_last())) by {
                assert forall|i: int| 0 <= i < s.drop_last().len() implies is_ws(
                    #[trigger] s.drop_last()[i],
                ) by {
                    assert(s.drop_last()[i] == s[i]);
                }
            }
            assert(is_ws(s[s.len() - 1]));
        }
    }
}

} // verus!
