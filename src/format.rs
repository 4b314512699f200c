//! Formatting a slide body: blank-line normalisation and the classification
//! of each line into styled spans.
use vstd::prelude::*;
use crate::text::{
    chars_of, copy_range, has_prefix, join_lines, join_strings, lines_chars, lines_of,
    remove_all, remove_all_chars, pieces, strip_cr, starts_with, string_of, string_views, trim, trim_chars,
    trim_end, trim_end_chars, trim_start, trim_start_chars, char_views,
};

verus! {

/// `s` without the newlines at its start.
pub open spec fn strip_leading_newlines(s: Seq<char>) -> Seq<char>
    decreases s.len(),
{
    if s.len() > 0 && s[0] == '\n' {
        strip_leading_newlines(s.drop_first())
    } else {
        s
    }
}

/// `s` without the newlines at its end.
pub open spec fn strip_trailing_newlines(s: Seq<char>) -> Seq<char>
    decreases s.len(),
{
    if s.len() > 0 && s.last() == '\n' {
        strip_trailing_newlines(s.drop_last())
    } else {
        s
    }
}

/// `s` with every run of two or more newlines shortened to exactly two.
pub open spec fn collapse_newlines(s: Seq<char>) -> Seq<char>
    decreases s.len(),
{
    if s.len() >= 3 && s[0] == '\n' && s[1] == '\n' && s[2] == '\n' {
        collapse_newlines(s.drop_first())
    } else if s.len() >= 2 && s[0] == '\n' && s[1] == '\n' {
        seq!['\n', '\n'] + collapse_newlines(s.subrange(2, s.len() as int))
    } else if s.len() == 0 {
        s
    } else {
        seq![s[0]] + collapse_newlines(s.drop_first())
    }
}

/// A slide body's text with the blank lines at both ends removed and at
/// most one blank line between paragraphs.
pub open spec fn normalized(s: Seq<char>) -> Seq<char> {
    collapse_newlines(strip_trailing_newlines(strip_leading_newlines(s)))
}

pub open spec fn leading_newlines_pattern() -> Seq<char> {
    seq!['^', '\n', '*']
}

pub open spec fn trailing_newlines_pattern() -> Seq<char> {
    seq!['\n', '*', '$']
}

pub open spec fn newline_run_pattern() -> Seq<char> {
    seq!['\n', '\n', '+']
}

/// Relies on `regex::Regex::new` and `regex::Regex::replace_all`, used with
/// three valid patterns only, so compiling cannot fail. Matching is
/// leftmost-first and greedy, `^` and `$` (without multi-line mode) anchor at
/// the start and end of the text, and every non-overlapping match is
/// replaced. Hence `^\n*` replaced by nothing drops the leading newlines,
/// `\n*$` replaced by nothing drops the trailing newlines, and `\n\n+`
/// replaced by two newlines shortens each run of two or more newlines to two.
#[verifier::external_body]
fn regex_replace_all(pattern: &str, text: &str, with: &str) -> (r: String)
    requires
        pattern@ == leading_newlines_pattern() || pattern@ == trailing_newlines_pattern()
            || pattern@ == newline_run_pattern(),
    ensures
        pattern@ == leading_newlines_pattern() && with@.len() == 0 ==> r@
            == strip_leading_newlines(text@),
        pattern@ == trailing_newlines_pattern() && with@.len() == 0 ==> r@
            == strip_trailing_newlines(text@),
        pattern@ == newline_run_pattern() && with@ == seq!['\n', '\n'] ==> r@
            == collapse_newlines(text@),
{
    regex::Regex::new(pattern).unwrap().replace_all(text, with).into_owned()
}

/// Removes the blank lines at both ends of a text and shortens every longer
/// gap between paragraphs to a single blank line.
pub fn normalize_blank_lines(text: &str) -> (r: String)
    ensures
        r@ == normalized(text@),
{
    proof {
        reveal_strlit("^\n*");
        reveal_strlit("\n*$");
        reveal_strlit("\n\n+");
        reveal_strlit("");
        reveal_strlit("\n\n");
    }
    assert("^\n*"@ =~= leading_newlines_pattern());
    assert("\n*$"@ =~= trailing_newlines_pattern());
    assert("\n\n+"@ =~= newline_run_pattern());
    assert(""@.len() == 0);
    assert("\n\n"@ =~= seq!['\n', '\n']);
    let a = regex_replace_all("^\n*", text, "");
    let b = regex_replace_all("\n*$", a.as_str(), "");
    regex_replace_all("\n\n+", b.as_str(), "\n\n")
}

/// How a span of a formatted line is drawn.
#[derive(PartialEq, Eq, Structural, Clone, Copy, Debug)]
pub enum Style {
    Plain,
    Heading,
    BulletMarker,
    BulletText,
    CodeLine,
}

/// A piece of text drawn in one style.
#[derive(Debug)]
pub struct StyledSpan {
    pub text: String,
    pub style: Style,
}

impl View for StyledSpan {
    type V = (Seq<char>, Style);

    open spec fn view(&self) -> (Seq<char>, Style) {
        (self.text@, self.style)
    }
}

/// One formatted line of a slide: its spans from left to right.
#[derive(Debug)]
pub struct StyledLine {
    pub spans: Vec<StyledSpan>,
}

impl View for StyledLine {
    type V = Seq<(Seq<char>, Style)>;

    open spec fn view(&self) -> Seq<(Seq<char>, Style)> {
        self.spans@.map_values(|sp: StyledSpan| sp@)
    }
}

/// The views of a sequence of styled lines.
pub open spec fn line_views(v: Seq<StyledLine>) -> Seq<Seq<(Seq<char>, Style)>> {
    v.map_values(|l: StyledLine| l@)
}

pub open spec fn heading_marker() -> Seq<char> {
    seq!['#', '#']
}

pub open spec fn bullet_marker() -> Seq<char> {
    seq!['*', ' ']
}

pub open spec fn fence_marker() -> Seq<char> {
    seq!['`', '`', '`']
}

/// The line drawn for `line` (none for a fence) and whether the lines after
/// it are inside a fenced code block, given whether `line` is.
pub open spec fn classify(line: Seq<char>, in_code: bool) -> (
    Option<Seq<(Seq<char>, Style)>>,
    bool,
) {
    if starts_with(trim_start(line), heading_marker()) {
        (Some(seq![(line, Style::Heading)]), in_code)
    } else if starts_with(trim(line), bullet_marker()) {
        (
            Some(
                seq![
                    (bullet_marker(), Style::BulletMarker),
                    (remove_all(trim(line), bullet_marker()), Style::BulletText),
                ],
            ),
            in_code,
        )
    } else if starts_with(trim_end(line), fence_marker()) {
        (None, !in_code)
    } else if in_code {
        (Some(seq![(seq![' '] + line + seq![' '], Style::CodeLine)]), true)
    } else {
        (Some(seq![(line, Style::Plain)]), false)
    }
}

/// The lines drawn for `lines`, the first of them inside a fenced code block
/// when `in_code` holds; the flag is carried from each line to the next.
pub open spec fn style_all(lines: Seq<Seq<char>>, in_code: bool) -> Seq<
    Seq<(Seq<char>, Style)>,
>
    decreases lines.len(),
{
    if lines.len() == 0 {
        Seq::empty()
    } else {
        let (o, f) = classify(lines[0], in_code);
        let rest = style_all(lines.drop_first(), f);
        match o {
            Some(l) => seq![l] + rest,
            None => rest,
        }
    }
}

/// The text lines a slide with these content lines shows: its content
/// joined, normalised and split again.
pub open spec fn prepared_lines(content: Seq<Seq<char>>) -> Seq<Seq<char>> {
    lines_of(normalized(join_lines(content)))
}

/// What a slide with these content lines shows: its prepared lines, each
/// classified.
pub open spec fn formatted(content: Seq<Seq<char>>) -> Seq<Seq<(Seq<char>, Style)>> {
    style_all(prepared_lines(content), false)
}

fn single_span(text: Vec<char>, style: Style) -> (r: StyledLine)
    ensures
        r@ == seq![(text@, style)],
{
    let sp = StyledSpan { text: string_of(text.as_slice()), style };
    let spans = vec![sp];
    let r = StyledLine { spans };
    assert(r@ =~= seq![(text@, style)]);
    r
}

/// Classifies one line of a slide body; `in_code` says whether it stands
/// inside a fenced code block. Returns the line to draw, if any, and whether
/// the next line stands inside such a block.
pub fn classify_line(line: &[char], in_code: bool) -> (r: (Option<StyledLine>, bool))
    ensures
        r.1 == classify(line@, in_code).1,
        match classify(line@, in_code).0 {
            Some(l) => r.0 is Some && r.0->0@ == l,
            None => r.0 is None,
        },
{
    let hh = vec!['#', '#'];
    let bm = vec!['*', ' '];
    let fence = vec!['`', '`', '`'];
    assert(hh@ =~= heading_marker());
    assert(bm@ =~= bullet_marker());
    assert(fence@ =~= fence_marker());
    let whole = copy_range(line, 0, line.len());
    assert(whole@ =~= line@);
    let start = trim_start_chars(line);
    if has_prefix(start.as_slice(), hh.as_slice()) {
        return (Some(single_span(whole, Style::Heading)), in_code);
    }
    let t = trim_chars(line);
    if has_prefix(t.as_slice(), bm.as_slice()) {
        let marker = StyledSpan { text: string_of(bm.as_slice()), style: Style::BulletMarker };
        let rest = remove_all_chars(t.as_slice(), bm.as_slice());
        let body = StyledSpan { text: string_of(rest.as_slice()), style: Style::BulletText };
        let spans = vec![marker, body];
        let r = StyledLine { spans };
        assert(r@ =~= classify(line@, in_code).0->0);
        return (Some(r), in_code);
    }
    let e = trim_end_chars(line);
    if has_prefix(e.as_slice(), fence.as_slice()) {
        return (None, !in_code);
    }
    if in_code {
        let mut padded: Vec<char> = Vec::new();
        padded.push(' ');
        let mut i: usize = 0;
        while i < line.len()
            invariant
                i <= line@.len(),
                padded@ == seq![' '] + line@.subrange(0, i as int),
            decreases line@.len() - i,
        {
            padded.push(line[i]);
            assert(padded@ =~= seq![' '] + line@.subrange(0, i + 1));
            i = i + 1;
        }
        padded.push(' ');
        assert(padded@ =~= seq![' '] + line@ + seq![' ']);
        (Some(single_span(padded, Style::CodeLine)), true)
    } else {
        (Some(single_span(whole, Style::Plain)), false)
    }
}

/// Classifies each line in turn, carrying the fenced-code-block flag from the
/// top down, and keeps the lines that are drawn.
pub fn style_lines(lines: &Vec<Vec<char>>) -> (r: Vec<StyledLine>)
    ensures
        line_views(r@) == style_all(char_views(lines@), false),
{
    let ghost all = char_views(lines@);
    let mut out: Vec<StyledLine> = Vec::new();
    let mut in_code = false;
    let mut i: usize = 0;
    assert(all.subrange(0, all.len() as int) =~= all);
    while i < lines.len()
        invariant
            i <= lines@.len() == all.len(),
            all == char_views(lines@),
            line_views(out@) + style_all(all.subrange(i as int, all.len() as int), in_code)
                == style_all(all, false),
        decreases lines@.len() - i,
    {
        let ghost rest = all.subrange(i as int, all.len() as int);
        assert(rest.drop_first() =~= all.subrange(i + 1, all.len() as int));
        assert(rest[0] == lines@[i as int]@);
        let (o, f) = classify_line(lines[i].as_slice(), in_code);
        let ghost before = line_views(out@);
        match o {
            Some(l) => {
                out.push(l);
                assert(line_views(out@) =~= before.push(classify(rest[0], in_code).0->0));
                assert(before.push(classify(rest[0], in_code).0->0) + style_all(
                    rest.drop_first(),
                    f,
                ) =~= before + (seq![classify(rest[0], in_code).0->0] + style_all(
                    rest.drop_first(),
                    f,
                )));
            },
            None => {},
        }
        in_code = f;
        i = i + 1;
    }
    assert(line_views(out@) + style_all(all.subrange(all.len() as int, all.len() as int), in_code)
        =~= line_views(out@));
    out
}

/// The styled lines that a slide with these content lines shows.
pub fn format_content(content: &[String]) -> (r: Vec<StyledLine>)
    ensures
        line_views(r@) == formatted(string_views(content@)),
{
    let joined = join_strings(content);
    let text = string_of(joined.as_slice());
    let norm = normalize_blank_lines(text.as_str());
    let cs = chars_of(norm.as_str());
    let lines = lines_chars(cs.as_slice());
    style_lines(&lines)
}

/// No three newlines in a row.
pub open spec fn no_triple_newline(s: Seq<char>) -> bool {
    forall|i: int|
        0 <= i && i + 2 < s.len() ==> !(#[trigger] s[i] == '\n' && s[i + 1] == '\n' && s[i + 2]
            == '\n')
}

proof fn lemma_strip_leading_first(s: Seq<char>)
    ensures
        strip_leading_newlines(s).len() == 0 || strip_leading_newlines(s)[0] != '\n',
    decreases s.len(),
{
    if s.len() > 0 && s[0] == '\n' {
        lemma_strip_leading_first(s.drop_first());
    }
}

proof fn lemma_strip_trailing_prefix(s: Seq<char>)
    ensures
        strip_trailing_newlines(s).len() <= s.len(),
        strip_trailing_newlines(s) == s.subrange(0, strip_trailing_newlines(s).len() as int),
        strip_trailing_newlines(s).len() == 0 || strip_trailing_newlines(s).last() != '\n',
    decreases s.len(),
{
    if s.len() > 0 && s.last() == '\n' {
        lemma_strip_trailing_prefix(s.drop_last());
        let r = strip_trailing_newlines(s.drop_last());
        assert(s.drop_last().subrange(0, r.len() as int) =~= s.subrange(0, r.len() as int));
    } else {
        assert(s.subrange(0, s.len() as int) =~= s);
    }
}

proof fn lemma_collapse_fixed(s: Seq<char>)
    requires
        no_triple_newline(s),
    ensures
        collapse_newlines(s) == s,
    decreases s.len(),
{
    if s.len() >= 3 && s[0] == '\n' && s[1] == '\n' && s[2] == '\n' {
        assert(s[0int] == '\n' && s[0int + 1] == '\n' && s[0int + 2] == '\n');
    } else if s.len() >= 2 && s[0] == '\n' && s[1] == '\n' {
        let rest = s.subrange(2, s.len() as int);
        assert forall|i: int| 0 <= i && i + 2 < rest.len() implies !(#[trigger] rest[i] == '\n'
            && rest[i + 1] == '\n' && rest[i + 2] == '\n') by {
            assert(rest[i] == s[i + 2]);
        }
        lemma_collapse_fixed(rest);
        assert(seq!['\n', '\n'] + rest =~= s);
    } else if s.len() > 0 {
        let rest = s.drop_first();
        assert forall|i: int| 0 <= i && i + 2 < rest.len() implies !(#[trigger] rest[i] == '\n'
            && rest[i + 1] == '\n' && rest[i + 2] == '\n') by {
            assert(rest[i] == s[i + 1]);
        }
        lemma_collapse_fixed(rest);
        assert(seq![s[0]] + rest =~= s);
    }
}

proof fn lemma_collapse_shape(s: Seq<char>)
    ensures
        no_triple_newline(collapse_newlines(s)),
        s.len() > 0 ==> collapse_newlines(s).len() > 0 && collapse_newlines(s)[0] == s[0]
            && collapse_newlines(s).last() == s.last(),
        s.len() == 0 ==> collapse_newlines(s).len() == 0,
    decreases s.len(),
{
    let r = collapse_newlines(s);
    if s.len() >= 3 && s[0] == '\n' && s[1] == '\n' && s[2] == '\n' {
        lemma_collapse_shape(s.drop_first());
    } else if s.len() >= 2 && s[0] == '\n' && s[1] == '\n' {
        let rest = s.subrange(2, s.len() as int);
        lemma_collapse_shape(rest);
        let c = collapse_newlines(rest);
        assert(r == seq!['\n', '\n'] + c);
        assert forall|i: int| 0 <= i && i + 2 < r.len() implies !(#[trigger] r[i] == '\n' && r[i
            + 1] == '\n' && r[i + 2] == '\n') by {
            if i >= 2 {
                assert(r[i] == c[i - 2] && r[i + 1] == c[i - 1] && r[i + 2] == c[i]);
                assert(c[i - 2] == '\n' && c[(i - 2) + 1] == '\n' && c[(i - 2) + 2] == '\n' ==> false);
            } else {
                assert(r[2] == c[0]);
            }
        }
        if rest.len() > 0 {
            assert(r.last() == c.last());
            assert(rest.last() == s.last());
        }
    } else if s.len() > 0 {
        let rest = s.drop_first();
        lemma_collapse_shape(rest);
        let c = collapse_newlines(rest);
        assert(r == seq![s[0]] + c);
        assert forall|i: int| 0 <= i && i + 2 < r.len() implies !(#[trigger] r[i] == '\n' && r[i
            + 1] == '\n' && r[i + 2] == '\n') by {
            if i >= 1 {
                assert(r[i] == c[i - 1] && r[i + 1] == c[i] && r[i + 2] == c[i + 1]);
                assert(c[i - 1] == '\n' && c[(i - 1) + 1] == '\n' && c[(i - 1) + 2] == '\n' ==> false);
            } else {
                assert(r[1] == c[0]);
            }
        }
        if rest.len() > 0 {
            assert(r.last() == c.last());
        }
    }
}

/// Normalising blank lines a second time changes nothing: the result has no
/// blank line at either end and no two blank lines in a row.
pub proof fn lemma_normalized_idempotent(s: Seq<char>)
    ensures
        normalized(normalized(s)) == normalized(s),
{
    let a = strip_leading_newlines(s);
    let b = strip_trailing_newlines(a);
    let c = collapse_newlines(b);
    lemma_strip_leading_first(s);
    lemma_strip_trailing_prefix(a);
    lemma_collapse_shape(b);
    if b.len() > 0 {
        assert(b[0] == a[0]);
    }
    assert(strip_leading_newlines(c) == c);
    assert(strip_trailing_newlines(c) == c);
    lemma_collapse_fixed(c);
}

/// No carriage return in `s`.
pub open spec fn no_cr(s: Seq<char>) -> bool {
    forall|i: int| 0 <= i < s.len() ==> s[i] != '\r'
}

proof fn lemma_join_no_cr(ls: Seq<Seq<char>>)
    requires
        forall|j: int| 0 <= j < ls.len() ==> no_cr(#[trigger] ls[j]),
    ensures
        no_cr(join_lines(ls)),
    decreases ls.len(),
{
    if ls.len() > 1 {
        lemma_join_no_cr(ls.drop_last());
        let a = join_lines(ls.drop_last());
        let r = a + seq!['\n'] + ls.last();
        assert(no_cr(ls[ls.len() - 1]));
        assert forall|i: int| 0 <= i < r.len() implies r[i] != '\r' by {
            if i < a.len() {
            } else if i == a.len() {
            } else {
                assert(r[i] == ls.last()[i - a.len() - 1]);
            }
        }
    } else if ls.len() == 1 {
        assert(no_cr(ls[0]));
    }
}

proof fn lemma_strip_leading_no_cr(s: Seq<char>)
    requires
        no_cr(s),
    ensures
        no_cr(strip_leading_newlines(s)),
    decreases s.len(),
{
    if s.len() > 0 && s[0] == '\n' {
        lemma_strip_leading_no_cr(s.drop_first());
    }
}

proof fn lemma_collapse_no_cr(s: Seq<char>)
    requires
        no_cr(s),
    ensures
        no_cr(collapse_newlines(s)),
    decreases s.len(),
{
    if s.len() >= 3 && s[0] == '\n' && s[1] == '\n' && s[2] == '\n' {
        lemma_collapse_no_cr(s.drop_first());
    } else if s.len() >= 2 && s[0] == '\n' && s[1] == '\n' {
        let rest = s.subrange(2, s.len() as int);
        lemma_collapse_no_cr(rest);
        let c = collapse_newlines(rest);
        let r = seq!['\n', '\n'] + c;
        assert forall|i: int| 0 <= i < r.len() implies r[i] != '\r' by {
            if i >= 2 {
                assert(r[i] == c[i - 2]);
            }
        }
    } else if s.len() > 0 {
        let rest = s.drop_first();
        lemma_collapse_no_cr(rest);
        let c = collapse_newlines(rest);
        let r = seq![s[0]] + c;
        assert forall|i: int| 0 <= i < r.len() implies r[i] != '\r' by {
            if i >= 1 {
                assert(r[i] == c[i - 1]);
            }
        }
    }
}

proof fn lemma_pieces_end(s: Seq<char>)
    requires
        no_cr(s),
    ensures
        pieces(s).len() >= 1,
        forall|j: int|
            0 <= j < pieces(s).len() ==> (#[trigger] pieces(s)[j]).len() == 0 || pieces(s)[j].last()
                != '\r',
        s.len() > 0 && s.last() != '\n' ==> pieces(s).last().len() > 0,
        join_lines(pieces(s)) == s,
    decreases s.len(),
{
    if s.len() > 0 {
        let d = s.drop_last();
        assert forall|i: int| 0 <= i < d.len() implies d[i] != '\r' by {
            assert(d[i] == s[i]);
        }
        lemma_pieces_end(d);
        let p = pieces(d);
        let c = s.last();
        assert(c != '\r');
        if c == '\n' {
            let q = p.push(Seq::<char>::empty());
            assert(q.drop_last() =~= p);
            assert(join_lines(q) =~= join_lines(p) + seq!['\n'] + Seq::<char>::empty());
            assert(d.push(c) =~= s);
        } else {
            let q = p.update(p.len() - 1, p.last().push(c));
            if p.len() == 1 {
                assert(join_lines(q) == q[0]);
                assert(join_lines(p) == p[0]);
            } else {
                assert(q.drop_last() =~= p.drop_last());
                assert(join_lines(q) == join_lines(p.drop_last()) + seq!['\n'] + p.last().push(c));
                assert(join_lines(p.drop_last()) + seq!['\n'] + p.last().push(c) =~= (
                join_lines(p.drop_last()) + seq!['\n'] + p.last()).push(c));
            }
            assert(d.push(c) =~= s);
        }
    }
}

proof fn lemma_join_lines_of(t: Seq<char>)
    requires
        no_cr(t),
        t.len() == 0 || t.last() != '\n',
    ensures
        join_lines(lines_of(t)) == t,
{
    lemma_pieces_end(t);
    let p = pieces(t);
    if t.len() == 0 {
        assert(p =~= seq![Seq::<char>::empty()]);
        assert(lines_of(t) =~= Seq::<Seq<char>>::empty());
    } else {
        let init = p.drop_last().map_values(|q: Seq<char>| strip_cr(q));
        assert(init =~= p.drop_last());
        assert(init.push(p.last()) =~= p);
    }
}

/// Feeding a slide's prepared lines back in as its content gives the same
/// lines again: nothing more is trimmed or collapsed. Content with a carriage
/// return is left out, since a line that ends in one loses it when the text
/// is split again.
pub proof fn lemma_prepared_lines_idempotent(content: Seq<Seq<char>>)
    requires
        forall|j: int| 0 <= j < content.len() ==> no_cr(#[trigger] content[j]),
    ensures
        prepared_lines(prepared_lines(content)) == prepared_lines(content),
{
    let j = join_lines(content);
    lemma_join_no_cr(content);
    let a = strip_leading_newlines(j);
    lemma_strip_leading_no_cr(j);
    let b = strip_trailing_newlines(a);
    lemma_strip_trailing_prefix(a);
    assert forall|i: int| 0 <= i < b.len() implies b[i] != '\r' by {
        assert(b[i] == a.subrange(0, b.len() as int)[i]);
    }
    lemma_collapse_no_cr(b);
    let t = normalized(j);
    lemma_collapse_shape(b);
    lemma_join_lines_of(t);
    lemma_normalized_idempotent(j);
}

} // verus!
