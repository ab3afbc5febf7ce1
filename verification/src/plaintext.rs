//! Plain-text layout: centering lines and drawing a box around text.

use vstd::prelude::*;
use vstd::string::StrSliceExecFns;
use vstd::string::StringExecFns;

use crate::text;

verus! {

/// All lines of `s`, in order, split as [`text::spec_line_split`] does.
pub open spec fn spec_lines(s: Seq<char>) -> Seq<Seq<char>>
    decreases s.len(),
{
    if s.len() == 0 {
        Seq::empty()
    } else {
        proof {
            text::lemma_find_first(s, seq!['\n']);
        }
        let (l, r) = text::spec_line_split(s);
        seq![l] + spec_lines(r)
    }
}

/// `n` space characters.
pub open spec fn spec_spaces(n: int) -> Seq<char>
    decreases n,
{
    if n <= 0 {
        Seq::empty()
    } else {
        spec_spaces(n - 1).push(' ')
    }
}

/// `line` centered in `width` columns: spaces on both sides, the odd
/// one going to the right; a line at least `width` wide is kept as is.
pub open spec fn spec_center_line(line: Seq<char>, width: int) -> Seq<char> {
    if line.len() >= width {
        line
    } else {
        let lpad = (width - line.len()) / 2;
        let rpad = width - line.len() - lpad;
        spec_spaces(lpad) + line + spec_spaces(rpad)
    }
}

/// The width of the widest line.
pub open spec fn spec_max_width(ls: Seq<Seq<char>>) -> int
    decreases ls.len(),
{
    if ls.len() == 0 {
        0
    } else {
        let m = spec_max_width(ls.drop_first());
        if ls[0].len() > m {
            ls[0].len() as int
        } else {
            m
        }
    }
}

/// No line is wider than the widest.
proof fn lemma_max_width_ge(ls: Seq<Seq<char>>)
    ensures
        spec_max_width(ls) >= 0,
        forall|k: int| 0 <= k < ls.len() ==> ls[k].len() <= spec_max_width(ls),
    decreases ls.len(),
{
    if ls.len() > 0 {
        lemma_max_width_ge(ls.drop_first());
        assert forall|k: int| 0 <= k < ls.len() implies ls[k].len() <= spec_max_width(ls) by {
            if k > 0 {
                assert(ls.drop_first()[k - 1] == ls[k]);
            }
        }
    }
}

/// Every line of `s` fits within `s` itself.
proof fn lemma_lines_width(s: Seq<char>)
    ensures
        spec_max_width(spec_lines(s)) <= s.len(),
    decreases s.len(),
{
    if s.len() > 0 {
        text::lemma_find_first(s, seq!['\n']);
        let (l, r) = text::spec_line_split(s);
        lemma_lines_width(r);
        let ls = spec_lines(s);
        assert(ls.drop_first() =~= spec_lines(r));
        assert(ls[0] == l);
    }
}

/// The lines joined with single newlines, no trailing newline.
pub open spec fn spec_join_lines(ls: Seq<Seq<char>>) -> Seq<char>
    decreases ls.len(),
{
    if ls.len() == 0 {
        Seq::empty()
    } else if ls.len() == 1 {
        ls[0]
    } else {
        ls[0] + seq!['\n'] + spec_join_lines(ls.drop_first())
    }
}

/// Each line of `s` centered in a common width (the given one, or the
/// width of the widest line), joined back with newlines.
pub open spec fn spec_center_multiline(s: Seq<char>, width: Option<usize>) -> Seq<char> {
    let ls = spec_lines(s);
    let w = match width {
        Some(w) => w as int,
        None => spec_max_width(ls),
    };
    spec_join_lines(ls.map_values(|l: Seq<char>| spec_center_line(l, w)))
}

/// The lines of `s`, as owned strings.
fn split_lines(s: &str) -> (r: Vec<String>)
    ensures
        r.deep_view() == spec_lines(s@),
{
    let mut cur: &str = s;
    let mut out: Vec<String> = Vec::new();
    let mut n = cur.unicode_len();
    proof {
        assert(out.deep_view() + spec_lines(cur@) =~= spec_lines(s@));
    }
    loop
        invariant_except_break
            n == cur@.len(),
            spec_lines(s@) == out.deep_view() + spec_lines(cur@),
        ensures
            spec_lines(s@) == out.deep_view(),
        decreases cur@.len(),
    {
        if n == 0 {
            proof {
                assert(out.deep_view() + Seq::<Seq<char>>::empty() =~= out.deep_view());
            }
            break;
        }
        let (l, rest) = text::line_split(cur);
        proof {
            reveal_strlit("\n");
            assert("\n"@ =~= seq!['\n']);
            text::lemma_find_first(cur@, seq!['\n']);
            let vs = spec_lines(rest@);
            assert((out.deep_view() + (seq![l@] + vs)) =~= ((out.deep_view() + seq![l@]) + vs));
        }
        let ghost old_out = out;
        out.push(l.to_owned());
        proof {
            assert(out.deep_view() =~= old_out.deep_view() + seq![l@]);
        }
        cur = rest;
        n = cur.unicode_len();
    }
    out
}

/// The width of the widest string.
fn max_width(v: &Vec<String>) -> (r: usize)
    ensures
        r as int == spec_max_width(v.deep_view()),
{
    let ghost dv = v.deep_view();
    let len = v.len();
    proof {
        assert(dv.subrange(len as int, len as int) =~= Seq::<Seq<char>>::empty());
    }
    let mut i = len;
    let mut acc: usize = 0;
    while i > 0
        invariant
            0 <= i <= len,
            len == v@.len(),
            dv == v.deep_view(),
            acc as int == spec_max_width(dv.subrange(i as int, len as int)),
        decreases i,
    {
        i -= 1;
        let w = v[i].as_str().unicode_len();
        proof {
            assert(dv.subrange(i as int, len as int)[0] == dv[i as int]);
            assert(dv[i as int] == v@[i as int]@);
            assert(dv.subrange(i as int, len as int).drop_first() =~= dv.subrange(
                i + 1,
                len as int,
            ));
        }
        if w > acc {
            acc = w;
        }
    }
    proof {
        assert(dv.subrange(0, len as int) =~= dv);
    }
    acc
}

/// `n` spaces.
fn spaces(n: usize) -> (r: String)
    ensures
        r@ == spec_spaces(n as int),
{
    proof {
        reveal_strlit(" ");
        assert(" "@ =~= seq![' ']);
    }
    let mut r = String::new();
    let mut i: usize = 0;
    while i < n
        invariant
            0 <= i <= n,
            r@ == spec_spaces(i as int),
            " "@ == seq![' '],
        decreases n - i,
    {
        r.append(" ");
        i += 1;
        proof {
            assert(spec_spaces((i - 1) as int).push(' ') =~= spec_spaces((i - 1) as int) + seq![
                ' ',
            ]);
        }
    }
    r
}

/// `line` centered in `w` columns.
fn center_line(line: &str, w: usize) -> (r: String)
    ensures
        r@ == spec_center_line(line@, w as int),
{
    let n = line.unicode_len();
    if n >= w {
        line.to_owned()
    } else {
        let lpad = (w - n) / 2;
        let rpad = w - n - lpad;
        let mut r = spaces(lpad);
        r.append(line);
        let right = spaces(rpad);
        r.append(right.as_str());
        r
    }
}

/// The strings joined with single newlines.
fn join_lines(v: &Vec<String>) -> (r: String)
    ensures
        r@ == spec_join_lines(v.deep_view()),
{
    let ghost dv = v.deep_view();
    let len = v.len();
    if len == 0 {
        return String::new();
    }
    proof {
        reveal_strlit("\n");
        assert("\n"@ =~= seq!['\n']);
    }
    let mut i = len - 1;
    let mut r = v[i].clone();
    proof {
        assert(dv.subrange(i as int, len as int)[0] == dv[i as int]);
        assert(dv[i as int] == v@[i as int]@);
    }
    while i > 0
        invariant
            0 <= i < len,
            len == v@.len(),
            dv == v.deep_view(),
            r@ == spec_join_lines(dv.subrange(i as int, len as int)),
            "\n"@ == seq!['\n'],
        decreases i,
    {
        i -= 1;
        let mut nr = v[i].clone();
        nr.append("\n");
        nr.append(r.as_str());
        proof {
            assert(dv.subrange(i as int, len as int)[0] == dv[i as int]);
            assert(dv[i as int] == v@[i as int]@);
            assert(dv.subrange(i as int, len as int).drop_first() =~= dv.subrange(
                i + 1,
                len as int,
            ));
            assert(nr@ =~= dv[i as int] + seq!['\n'] + spec_join_lines(dv.subrange(
                i + 1,
                len as int,
            )));
        }
        r = nr;
    }
    proof {
        assert(dv.subrange(0, len as int) =~= dv);
    }
    r
}

/// Centers every line of `lines` in a common width: the one given, or
/// the width of the widest line.
pub fn center_multiline(lines: &str, width: Option<usize>) -> (r: String)
    ensures
        r@ == spec_center_multiline(lines@, width),
{
    let ls = split_lines(lines);
    let w: usize = match width {
        Some(w) => w,
        None => max_width(&ls),
    };
    let ghost lsdv = ls.deep_view();
    let len = ls.len();
    let mut cv: Vec<String> = Vec::new();
    let mut idx: usize = 0;
    proof {
        assert(cv.deep_view() =~= lsdv.subrange(0, 0).map_values(
            |l: Seq<char>| spec_center_line(l, w as int),
        ));
    }
    while idx < len
        invariant
            0 <= idx <= len,
            len == ls@.len(),
            lsdv == ls.deep_view(),
            cv.deep_view() == lsdv.subrange(0, idx as int).map_values(
                |l: Seq<char>| spec_center_line(l, w as int),
            ),
        decreases len - idx,
    {
        let ghost old_cv = cv;
        let cl = center_line(ls[idx].as_str(), w);
        proof {
            assert(lsdv[idx as int] == ls@[idx as int]@);
        }
        cv.push(cl);
        proof {
            assert(cv.deep_view() =~= old_cv.deep_view().push(cl@));
            assert(cv.deep_view() =~= lsdv.subrange(0, idx + 1).map_values(
                |l: Seq<char>| spec_center_line(l, w as int),
            ));
        }
        idx += 1;
    }
    proof {
        assert(lsdv.subrange(0, len as int) =~= lsdv);
    }
    join_lines(&cv)
}

/// Relies on `box_drawing::heavy::HORIZONTAL`: the single character
/// U+2501.
#[verifier::external_body]
fn heavy_horizontal() -> (r: &'static str)
    ensures
        r@ == seq!['\u{2501}'],
{
    box_drawing::heavy::HORIZONTAL
}

/// Relies on `box_drawing::heavy::VERTICAL`: the single character
/// U+2503.
#[verifier::external_body]
fn heavy_vertical() -> (r: &'static str)
    ensures
        r@ == seq!['\u{2503}'],
{
    box_drawing::heavy::VERTICAL
}

/// Relies on `box_drawing::heavy::DOWN_RIGHT`: the single character
/// U+250F.
#[verifier::external_body]
fn heavy_down_right() -> (r: &'static str)
    ensures
        r@ == seq!['\u{250f}'],
{
    box_drawing::heavy::DOWN_RIGHT
}

/// Relies on `box_drawing::heavy::DOWN_LEFT`: the single character
/// U+2513.
#[verifier::external_body]
fn heavy_down_left() -> (r: &'static str)
    ensures
        r@ == seq!['\u{2513}'],
{
    box_drawing::heavy::DOWN_LEFT
}

/// Relies on `box_drawing::heavy::UP_RIGHT`: the single character
/// U+2517.
#[verifier::external_body]
fn heavy_up_right() -> (r: &'static str)
    ensures
        r@ == seq!['\u{2517}'],
{
    box_drawing::heavy::UP_RIGHT
}

/// Relies on `box_drawing::heavy::UP_LEFT`: the single character
/// U+251B.
#[verifier::external_body]
fn heavy_up_left() -> (r: &'static str)
    ensures
        r@ == seq!['\u{251b}'],
{
    box_drawing::heavy::UP_LEFT
}

/// `n` heavy horizontal bar characters.
pub open spec fn spec_hbar(n: int) -> Seq<char>
    decreases n,
{
    if n <= 0 {
        Seq::empty()
    } else {
        spec_hbar(n - 1).push('\u{2501}')
    }
}

/// One row of the box: the line padded to width `w` between two
/// vertical bars, ending in a newline.
pub open spec fn spec_box_row(line: Seq<char>, w: int) -> Seq<char> {
    seq!['\u{2503}', ' '] + line + spec_spaces(w - line.len()) + seq![' ', '\u{2503}', '\n']
}

/// The rows of the box, one per line.
pub open spec fn spec_box_rows(ls: Seq<Seq<char>>, w: int) -> Seq<char>
    decreases ls.len(),
{
    if ls.len() == 0 {
        Seq::empty()
    } else {
        spec_box_row(ls[0], w) + spec_box_rows(ls.drop_first(), w)
    }
}

/// `content` framed in a heavy box: a top bar, one padded row per line
/// with a blank column on each side, and a bottom bar.
pub open spec fn spec_wrap_box(content: Seq<char>) -> Seq<char> {
    let ls = spec_lines(content);
    let w = spec_max_width(ls);
    seq!['\u{250f}'] + spec_hbar(w + 2) + seq!['\u{2513}', '\n'] + spec_box_rows(ls, w) + seq![
        '\u{2517}',
    ] + spec_hbar(w + 2) + seq!['\u{251b}']
}

/// `n` heavy horizontal bars.
fn hbar(n: usize) -> (r: String)
    ensures
        r@ == spec_hbar(n as int),
{
    let mut r = String::new();
    let mut i: usize = 0;
    while i < n
        invariant
            0 <= i <= n,
            r@ == spec_hbar(i as int),
        decreases n - i,
    {
        r.append(heavy_horizontal());
        i += 1;
        proof {
            assert(spec_hbar((i - 1) as int).push('\u{2501}') =~= spec_hbar((i - 1) as int)
                + seq!['\u{2501}']);
        }
    }
    r
}

/// Draws a heavy box around `content`, one row per line, every row
/// padded to the widest line.
pub fn wrap_in_box(content: &str) -> (r: String)
    requires
        content@.len() + 2 <= usize::MAX,
    ensures
        r@ == spec_wrap_box(content@),
{
    let ls = split_lines(content);
    let w = max_width(&ls);
    proof {
        lemma_lines_width(content@);
        lemma_max_width_ge(ls.deep_view());
    }
    let ghost lsdv = ls.deep_view();
    let bar = hbar(w + 2);
    let mut r = String::from_str(heavy_down_right());
    r.append(bar.as_str());
    r.append(heavy_down_left());
    r.append("\n");
    proof {
        reveal_strlit("\n");
        assert("\n"@ =~= seq!['\n']);
        assert(r@ =~= seq!['\u{250f}'] + spec_hbar(w + 2) + seq!['\u{2513}', '\n']);
        assert(spec_box_rows(lsdv.subrange(0, 0), w as int) =~= Seq::<char>::empty());
        assert(r@ + spec_box_rows(lsdv.subrange(0, 0), w as int) =~= r@);
    }
    let ghost top = r@;
    let len = ls.len();
    let mut idx: usize = 0;
    proof {
        reveal_strlit(" ");
        assert(" "@ =~= seq![' ']);
    }
    while idx < len
        invariant
            0 <= idx <= len,
            len == ls@.len(),
            lsdv == ls.deep_view(),
            forall|k: int| 0 <= k < len ==> lsdv[k].len() <= w,
            r@ == top + spec_box_rows(lsdv.subrange(0, idx as int), w as int),
            " "@ == seq![' '],
            "\n"@ == seq!['\n'],
        decreases len - idx,
    {
        let li = &ls[idx];
        let n = li.as_str().unicode_len();
        proof {
            assert(lsdv[idx as int] == ls@[idx as int]@);
        }
        r.append(heavy_vertical());
        r.append(" ");
        r.append(li.as_str());
        let pad = spaces(w - n);
        r.append(pad.as_str());
        r.append(" ");
        r.append(heavy_vertical());
        r.append("\n");
        proof {
            assert(lsdv.subrange(0, idx + 1).drop_last() =~= lsdv.subrange(0, idx as int));
            assert(spec_box_rows(lsdv.subrange(0, idx + 1), w as int) =~= spec_box_rows(
                lsdv.subrange(0, idx as int),
                w as int,
            ) + spec_box_row(lsdv[idx as int], w as int)) by {
                lemma_box_rows_snoc(lsdv.subrange(0, idx + 1), w as int);
            }
            assert(r@ =~= top + spec_box_rows(lsdv.subrange(0, idx + 1), w as int));
        }
        idx += 1;
    }
    r.append(heavy_up_right());
    r.append(bar.as_str());
    r.append(heavy_up_left());
    proof {
        assert(lsdv.subrange(0, len as int) =~= lsdv);
        assert(r@ =~= spec_wrap_box(content@));
    }
    r
}

/// Splitting the last row off `spec_box_rows`.
proof fn lemma_box_rows_snoc(ls: Seq<Seq<char>>, w: int)
    requires
        ls.len() > 0,
    ensures
        spec_box_rows(ls, w) == spec_box_rows(ls.drop_last(), w) + spec_box_row(ls.last(), w),
    decreases ls.len(),
{
    if ls.len() == 1 {
        assert(ls.drop_last() =~= Seq::<Seq<char>>::empty());
        assert(spec_box_rows(ls.drop_last(), w) =~= Seq::<char>::empty());
        assert(ls.drop_first() =~= Seq::<Seq<char>>::empty());
        assert(spec_box_rows(ls, w) =~= spec_box_row(ls[0], w));
        assert(spec_box_rows(ls.drop_last(), w) + spec_box_row(ls.last(), w) =~= spec_box_row(
            ls[0],
            w,
        ));
    } else {
        lemma_box_rows_snoc(ls.drop_first(), w);
        assert(ls.drop_first().drop_last() =~= ls.drop_last().drop_first());
        assert(ls.drop_last()[0] == ls[0]);
        assert(ls.drop_first().last() == ls.last());
        assert(spec_box_rows(ls, w) == spec_box_row(ls[0], w) + spec_box_rows(
            ls.drop_first(),
            w,
        ));
        assert(spec_box_rows(ls.drop_last(), w) == spec_box_row(ls[0], w) + spec_box_rows(
            ls.drop_last().drop_first(),
            w,
        ));
        assert(spec_box_rows(ls, w) =~= spec_box_rows(ls.drop_last(), w) + spec_box_row(
            ls.last(),
            w,
        ));
    }
}

} // verus!
