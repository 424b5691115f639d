use vstd::prelude::*;

use crate::text::{
    check_ends_selfclose, check_starts_close, chars_of_str, ends_selfclose, has_close, has_lt,
    push_spaces, scan_close, scan_lt, spaces_of, starts_close, string_from_chars, trim_chars,
    trim_of,
};

verus! {

/// Index of the first newline in `s`, or `s.len()` if there is none.
pub open spec fn first_nl(s: Seq<char>) -> int
    decreases s.len(),
{
    if s.len() == 0 {
        0
    } else if s[0] == '\n' {
        0
    } else {
        1 + first_nl(s.drop_first())
    }
}

pub proof fn lemma_first_nl(s: Seq<char>)
    ensures
        0 <= first_nl(s) <= s.len(),
        first_nl(s) < s.len() ==> s[first_nl(s)] == '\n',
        forall|j: int| 0 <= j < first_nl(s) ==> s[j] != '\n',
    decreases s.len(),
{
    if s.len() > 0 && s[0] != '\n' {
        let d = s.drop_first();
        lemma_first_nl(d);
        let f = first_nl(d);
        if f < d.len() {
            assert(d[f] == s[1 + f]);
        }
        assert forall|j: int| 0 <= j < 1 + f implies s[j] != '\n' by {
            if j > 0 {
                assert(d[j - 1] == s[j]);
            }
        }
    }
}

/// A line segment with one trailing carriage return removed.
pub open spec fn strip_cr(t: Seq<char>) -> Seq<char> {
    if t.len() > 0 && t.last() == '\r' {
        t.drop_last()
    } else {
        t
    }
}

/// The lines of `s`: segments split at `\n`, each with a trailing `\r`
/// removed, and no empty segment after a final newline.
pub open spec fn lines_of(s: Seq<char>) -> Seq<Seq<char>>
    decreases s.len(),
    via lines_of_decreases
{
    if s.len() == 0 {
        Seq::empty()
    } else {
        let i = first_nl(s);
        if i == s.len() {
            seq![strip_cr(s)]
        } else {
            seq![strip_cr(s.take(i))] + lines_of(s.skip(i + 1))
        }
    }
}

#[via_fn]
proof fn lines_of_decreases(s: Seq<char>) {
    lemma_first_nl(s);
}

/// One reindented line block, or `None` where the running indent would
/// fall below zero: each non-blank line is trimmed and re-prefixed with the
/// running indent, which steps down by four before a line opening with `</`
/// and up by four after a line that opens a tag without closing one.
pub open spec fn render_lines(ls: Seq<Seq<char>>, ind: nat) -> Option<Seq<char>>
    decreases ls.len(),
{
    if ls.len() == 0 {
        Some(Seq::empty())
    } else {
        let t = trim_of(ls[0]);
        if t.len() == 0 {
            match render_lines(ls.drop_first(), ind) {
                Some(r) => Some(seq!['\n'] + r),
                None => None,
            }
        } else if starts_close(t) && ind < 4 {
            None
        } else {
            let ind2 = if starts_close(t) {
                (ind - 4) as nat
            } else {
                ind
            };
            let ind3 = if has_lt(t) && !has_close(t) && !ends_selfclose(t) {
                (ind2 + 4) as nat
            } else {
                ind2
            };
            match render_lines(ls.drop_first(), ind3) {
                Some(r) => Some(spaces_of(ind2) + t + seq!['\n'] + r),
                None => None,
            }
        }
    }
}

/// The lines of `v`, as vectors of characters.
pub fn split_lines(v: &Vec<char>) -> (r: Vec<Vec<char>>)
    ensures
        r.deep_view() == lines_of(v@),
{
    let mut out: Vec<Vec<char>> = Vec::new();
    let mut cur: Vec<char> = Vec::new();
    let mut start: usize = 0;
    let mut p: usize = 0;
    proof {
        assert(v@.skip(0) =~= v@);
        assert(out.deep_view() =~= Seq::<Seq<char>>::empty());
        assert(Seq::<Seq<char>>::empty() + lines_of(v@) =~= lines_of(v@));
        assert(cur@ =~= v@.subrange(0, 0));
    }
    while p < v.len()
        invariant
            start <= p <= v.len(),
            cur@ == v@.subrange(start as int, p as int),
            forall|j: int| start <= j < p ==> v@[j] != '\n',
            lines_of(v@) == out.deep_view() + lines_of(v@.skip(start as int)),
        decreases v.len() - p,
    {
        let c = v[p];
        if c == '\n' {
            if cur.len() > 0 && cur[cur.len() - 1] == '\r' {
                cur.pop();
            }
            proof {
                let rest = v@.skip(start as int);
                lemma_first_nl(rest);
                assert forall|j: int| 0 <= j < p - start implies rest[j] != '\n' by {
                    assert(rest[j] == v@[start + j]);
                }
                assert(rest[p - start] == '\n');
                assert(first_nl(rest) == p - start) by {
                    if first_nl(rest) < p - start {
                        assert(rest[first_nl(rest)] == '\n');
                    }
                }
                assert(rest.take(p - start) =~= v@.subrange(start as int, p as int));
                assert(strip_cr(v@.subrange(start as int, p as int)) =~= cur@);
                assert(rest.skip(p - start + 1) =~= v@.skip(p + 1));
                assert(lines_of(rest) == seq![cur@] + lines_of(v@.skip(p + 1)));
            }
            let ghost old_outs = out.deep_view();
            let ghost cur_v = cur@;
            out.push(cur);
            cur = Vec::new();
            start = p + 1;
            proof {
                assert(out.deep_view() =~~= old_outs + seq![cur_v]);
                assert(cur@ =~= v@.subrange(start as int, start as int));
                assert((old_outs + seq![cur_v]) + lines_of(v@.skip(start as int)) =~= old_outs + (
                seq![cur_v] + lines_of(v@.skip(start as int))));
            }
        } else {
            cur.push(c);
            proof {
                assert(cur@ =~= v@.subrange(start as int, p + 1));
            }
        }
        p = p + 1;
    }
    if cur.len() > 0 {
        if cur[cur.len() - 1] == '\r' {
            cur.pop();
        }
        proof {
            let rest = v@.skip(start as int);
            lemma_first_nl(rest);
            assert forall|j: int| 0 <= j < rest.len() implies rest[j] != '\n' by {
                assert(rest[j] == v@[start + j]);
            }
            assert(first_nl(rest) == rest.len()) by {
                if first_nl(rest) < rest.len() {
                    assert(rest[first_nl(rest)] == '\n');
                }
            }
            assert(rest =~= v@.subrange(start as int, v@.len() as int));
            assert(strip_cr(rest) =~= cur@);
            assert(lines_of(rest) == seq![cur@]);
        }
        let ghost old_outs = out.deep_view();
        let ghost cur_v = cur@;
        out.push(cur);
        proof {
            assert(out.deep_view() =~~= old_outs + seq![cur_v]);
            assert(lines_of(v@) =~= out.deep_view());
        }
    } else {
        proof {
            assert(v@.skip(start as int) =~= Seq::<char>::empty());
            assert(lines_of(v@) =~= out.deep_view());
        }
    }
    out
}

/// Whether reindentation of these lines from this base stays at or above
/// zero, so that `render_lines` yields a value the machine can also reach.
pub open spec fn indent_fits(ls: Seq<Seq<char>>, base: nat) -> bool {
    render_lines(ls, base) is Some && base + 4 * ls.len() <= usize::MAX
}

fn render_exec(lines: &Vec<Vec<char>>, base: usize) -> (r: Option<Vec<char>>)
    ensures
        match r {
            Some(out) => indent_fits(lines.deep_view(), base as nat) && render_lines(
                lines.deep_view(),
                base as nat,
            ) == Some(out@),
            None => !indent_fits(lines.deep_view(), base as nat),
        },
{
    let ghost ls = lines.deep_view();
    if lines.len() > (usize::MAX - base) / 4 {
        proof {
            assert(base + 4 * ls.len() > usize::MAX);
        }
        return None;
    }
    let mut out: Vec<char> = Vec::new();
    let mut ind: usize = base;
    let mut k: usize = 0;
    proof {
        assert(ls.skip(0) =~= ls);
        assert forall|rest: Seq<char>|
            render_lines(ls.skip(0), base as nat) == Some(rest) implies render_lines(
            ls,
            base as nat,
        ) == Some(out@ + rest) by {
            assert(out@ + rest =~= rest);
        }
    }
    while k < lines.len()
        invariant
            k <= lines.len(),
            ls == lines.deep_view(),
            base + 4 * lines@.len() <= usize::MAX,
            ind <= base + 4 * k,
            forall|rest: Seq<char>|
                render_lines(ls.skip(k as int), ind as nat) == Some(rest) ==> render_lines(
                    ls,
                    base as nat,
                ) == Some(out@ + rest),
            render_lines(ls.skip(k as int), ind as nat) is None ==> render_lines(
                ls,
                base as nat,
            ) is None,
        decreases lines.len() - k,
    {
        let ghost pre = ls.skip(k as int);
        proof {
            assert(pre[0] == ls[k as int]);
            assert(ls[k as int] =~= lines@[k as int]@);
            assert(pre.drop_first() =~= ls.skip(k + 1));
        }
        let t = trim_chars(&lines[k]);
        let ghost ind0 = ind as nat;
        let ghost old_out = out@;
        if t.len() == 0 {
            out.push('\n');
            k = k + 1;
            proof {
                assert forall|rest: Seq<char>|
                    render_lines(ls.skip(k as int), ind as nat) == Some(rest) implies render_lines(
                    ls,
                    base as nat,
                ) == Some(out@ + rest) by {
                    assert(render_lines(pre, ind0) == Some(seq!['\n'] + rest));
                    assert(out@ + rest =~= old_out + (seq!['\n'] + rest));
                }
                if render_lines(ls.skip(k as int), ind as nat) is None {
                    assert(render_lines(pre, ind0) is None);
                }
            }
        } else {
            let closing = check_starts_close(&t);
            if closing && ind < 4 {
                proof {
                    assert(render_lines(pre, ind0) is None);
                }
                return None;
            }
            if closing {
                ind = ind - 4;
            }
            let ghost ind2 = ind as nat;
            push_spaces(&mut out, ind);
            let mut j: usize = 0;
            while j < t.len()
                invariant
                    j <= t.len(),
                    out@ =~= old_out + spaces_of(ind2) + t@.take(j as int),
                decreases t.len() - j,
            {
                out.push(t[j]);
                j = j + 1;
                assert(out@ =~= old_out + spaces_of(ind2) + t@.take(j as int));
            }
            out.push('\n');
            proof {
                assert(t@.take(t@.len() as int) =~= t@);
                assert(out@ =~= old_out + (spaces_of(ind2) + t@ + seq!['\n']));
            }
            let grow = scan_lt(&t) && !scan_close(&t) && !check_ends_selfclose(&t);
            if grow {
                ind = ind + 4;
            }
            k = k + 1;
            proof {
                let ghost ind3 = ind as nat;
                assert(render_lines(pre, ind0) == match render_lines(ls.skip(k as int), ind3) {
                    Some(r) => Some(spaces_of(ind2) + t@ + seq!['\n'] + r),
                    None => None,
                });
                assert forall|rest: Seq<char>|
                    render_lines(ls.skip(k as int), ind as nat) == Some(rest) implies render_lines(
                    ls,
                    base as nat,
                ) == Some(out@ + rest) by {
                    assert(render_lines(pre, ind0) == Some(spaces_of(ind2) + t@ + seq!['\n']
                        + rest));
                    assert(out@ + rest =~= old_out + (spaces_of(ind2) + t@ + seq!['\n'] + rest));
                }
                if render_lines(ls.skip(k as int), ind as nat) is None {
                    assert(render_lines(pre, ind0) is None);
                }
            }
        }
    }
    proof {
        assert(ls.skip(ls.len() as int) =~= Seq::<Seq<char>>::empty());
        assert(render_lines(ls.skip(ls.len() as int), ind as nat) == Some(Seq::<char>::empty()));
        assert(out@ + Seq::<char>::empty() =~= out@);
    }
    Some(out)
}

/// `indent_html`, with the cases the running indent cannot handle reported
/// as `None` instead of being ruled out in advance.
pub fn indent_html_checked(html: &str, base_indent: usize) -> (r: Option<String>)
    ensures
        match r {
            Some(out) => indent_fits(lines_of(html@), base_indent as nat) && render_lines(
                lines_of(html@),
                base_indent as nat,
            ) == Some(out@),
            None => !indent_fits(lines_of(html@), base_indent as nat),
        },
{
    let chars = chars_of_str(html);
    let lines = split_lines(&chars);
    match render_exec(&lines, base_indent) {
        Some(out) => Some(string_from_chars(&out)),
        None => None,
    }
}

/// Re-indent best-effort HTML text: each line is trimmed and re-prefixed
/// with a running indent that follows naive tag open/close detection.
pub fn indent_html(html: &str, base_indent: usize) -> (r: String)
    requires
        indent_fits(lines_of(html@), base_indent as nat),
    ensures
        render_lines(lines_of(html@), base_indent as nat) == Some(r@),
{
    match indent_html_checked(html, base_indent) {
        Some(out) => out,
        None => vstd::pervasive::unreached(),
    }
}

} // verus!
