//! A slide deck: the title block and the slides of a markdown document.
use vstd::prelude::*;
use crate::format::{format_content, formatted, line_views, StyledLine};
use crate::text::{
    char_views, chars_of, has_prefix, lines_chars, push_range, remove_all, remove_all_chars, lines_of, remove_first, remove_first_chars,
    starts_with, string_of, string_views,
};

verus! {

/// One slide: its header line, marker included, and its raw body lines.
#[derive(Debug)]
pub struct Slide {
    title: String,
    content: Vec<String>,
}

impl View for Slide {
    type V = (Seq<char>, Seq<Seq<char>>);

    closed spec fn view(&self) -> (Seq<char>, Seq<Seq<char>>) {
        (self.title@, string_views(self.content@))
    }
}

/// The views of a sequence of slides.
pub open spec fn slide_views(v: Seq<Slide>) -> Seq<(Seq<char>, Seq<Seq<char>>)> {
    v.map_values(|s: Slide| s@)
}

/// What a presentation holds, as plain sequences.
pub struct PresentationModel {
    pub title: Seq<char>,
    pub author: Seq<char>,
    pub date: Seq<char>,
    pub slides: Seq<(Seq<char>, Seq<Seq<char>>)>,
}

/// A parsed document: title, author, date and at least one slide.
#[derive(Debug)]
pub struct Presentation {
    title: String,
    author: String,
    date: String,
    slides: Vec<Slide>,
}

impl View for Presentation {
    type V = PresentationModel;

    closed spec fn view(&self) -> PresentationModel {
        PresentationModel {
            title: self.title@,
            author: self.author@,
            date: self.date@,
            slides: slide_views(self.slides@),
        }
    }
}

pub open spec fn meta_marker() -> Seq<char> {
    seq!['%', ' ']
}

pub open spec fn header_marker() -> Seq<char> {
    seq!['#', ' ']
}

/// Line `i` is one of the three metadata lines: it is among the first three
/// and begins with `%`.
pub open spec fn is_meta(lines: Seq<Seq<char>>, i: int) -> bool {
    0 <= i < 3 && i < lines.len() && lines[i].len() > 0 && lines[i][0] == '%'
}

/// A line that begins a new slide.
pub open spec fn is_header(line: Seq<char>) -> bool {
    starts_with(line, header_marker())
}

/// The metadata value on line `i`: the line without its first `% `, or
/// empty where line `i` is no metadata line.
pub open spec fn meta_value(lines: Seq<Seq<char>>, i: int) -> Seq<char> {
    if is_meta(lines, i) {
        remove_first(lines[i], meta_marker())
    } else {
        Seq::empty()
    }
}

/// After the first `n` lines: the slides closed so far, and the title and
/// content of the slide still open. A header opens a slide; every header but
/// the first closes the one before it.
pub open spec fn scan(lines: Seq<Seq<char>>, n: nat) -> (
    Seq<(Seq<char>, Seq<Seq<char>>)>,
    Seq<char>,
    Seq<Seq<char>>,
)
    decreases n,
{
    if n == 0 {
        (Seq::empty(), Seq::empty(), Seq::empty())
    } else {
        let (done, t, c) = scan(lines, (n - 1) as nat);
        let i = n - 1;
        let line = lines[i];
        if is_meta(lines, i) {
            (done, t, c)
        } else if is_header(line) {
            if t.len() == 0 {
                (done, line, c)
            } else {
                (done.push((t, c)), line, Seq::empty())
            }
        } else {
            (done, t, c.push(line))
        }
    }
}

/// The slides of a document's lines: those that headers closed, then the
/// one open at the end.
pub open spec fn slides_of(lines: Seq<Seq<char>>) -> Seq<(Seq<char>, Seq<Seq<char>>)> {
    let (done, t, c) = scan(lines, lines.len());
    done.push((t, c))
}

/// The presentation that a document's text describes.
pub open spec fn parsed(text: Seq<char>) -> PresentationModel {
    let ls = lines_of(text);
    PresentationModel {
        title: meta_value(ls, 0),
        author: meta_value(ls, 1),
        date: meta_value(ls, 2),
        slides: slides_of(ls),
    }
}

fn is_meta_line(lines: &Vec<Vec<char>>, i: usize) -> (r: bool)
    requires
        i < lines@.len(),
    ensures
        r == is_meta(char_views(lines@), i as int),
{
    i < 3 && lines[i].len() > 0 && lines[i][0] == '%'
}

fn meta_value_at(lines: &Vec<Vec<char>>, i: usize) -> (r: String)
    ensures
        r@ == meta_value(char_views(lines@), i as int),
{
    if i < lines.len() && is_meta_line(lines, i) {
        let marker = vec!['%', ' '];
        assert(marker@ =~= meta_marker());
        let v = remove_first_chars(lines[i].as_slice(), marker.as_slice());
        string_of(v.as_slice())
    } else {
        String::new()
    }
}

impl Slide {
    /// A slide with this header line and these body lines.
    pub fn new(title: String, content: Vec<String>) -> (r: Slide)
        ensures
            r@ == (title@, string_views(content@)),
    {
        Slide { title, content }
    }

    /// The header line, marker included.
    pub fn title(&self) -> (r: &str)
        ensures
            r@ == self@.0,
    {
        self.title.as_str()
    }

    /// The raw body lines.
    pub fn content(&self) -> (r: &[String])
        ensures
            string_views(r@) == self@.1,
    {
        self.content.as_slice()
    }

    /// The styled lines this slide shows.
    pub fn formatted_content(&self) -> (r: Vec<StyledLine>)
        ensures
            line_views(r@) == formatted(self@.1),
    {
        format_content(self.content.as_slice())
    }
}

/// The left part of the footer at `index`: the title on the title view,
/// else the title, ` -- ` and the current slide's header without its `# `
/// markers.
pub open spec fn footer_text(p: PresentationModel, index: int) -> Seq<char> {
    if index == 0 {
        p.title
    } else {
        p.title + seq![' ', '-', '-', ' '] + remove_all(p.slides[index - 1].0, header_marker())
    }
}

impl Presentation {
    pub fn title(&self) -> (r: &str)
        ensures
            r@ == self@.title,
    {
        self.title.as_str()
    }

    pub fn author(&self) -> (r: &str)
        ensures
            r@ == self@.author,
    {
        self.author.as_str()
    }

    pub fn date(&self) -> (r: &str)
        ensures
            r@ == self@.date,
    {
        self.date.as_str()
    }

    pub fn slides(&self) -> (r: &[Slide])
        ensures
            slide_views(r@) == self@.slides,
    {
        self.slides.as_slice()
    }

    pub fn slide_count(&self) -> (r: usize)
        ensures
            r == self@.slides.len(),
    {
        self.slides.len()
    }

    /// The text on the left of the footer bar while view `index` is shown.
    pub fn footer_label(&self, index: usize) -> (r: String)
        requires
            index <= self@.slides.len(),
        ensures
            r@ == footer_text(self@, index as int),
    {
        let mut out = chars_of(self.title.as_str());
        if index > 0 {
            let ghost before = out@;
            out.push(' ');
            out.push('-');
            out.push('-');
            out.push(' ');
            let hm = vec!['#', ' '];
            assert(hm@ =~= header_marker());
            let st = chars_of(self.slides[index - 1].title.as_str());
            assert(slide_views(self.slides@)[index - 1] == self.slides@[index - 1]@);
            let stripped = remove_all_chars(st.as_slice(), hm.as_slice());
            let ghost mid = out@;
            push_range(&mut out, stripped.as_slice(), 0, stripped.len());
            assert(stripped@.subrange(0, stripped@.len() as int) =~= stripped@);
            assert(mid =~= before + seq![' ', '-', '-', ' ']);
        }
        string_of(out.as_slice())
    }

    /// Parses a document into its title block and its slides.
    pub fn parse(text: &str) -> (r: Presentation)
        ensures
            r@ == parsed(text@),
            r@.slides.len() >= 1,
    {
        let cs = chars_of(text);
        let lines = lines_chars(cs.as_slice());
        let ghost ls = char_views(lines@);
        let title = meta_value_at(&lines, 0);
        let author = meta_value_at(&lines, 1);
        let date = meta_value_at(&lines, 2);
        let hm = vec!['#', ' '];
        assert(hm@ =~= header_marker());
        let mut slides: Vec<Slide> = Vec::new();
        let mut slide_title: Vec<char> = Vec::new();
        let mut slide_content: Vec<String> = Vec::new();
        let mut i: usize = 0;
        while i < lines.len()
            invariant
                i <= lines@.len() == ls.len(),
                ls == char_views(lines@),
                hm@ == header_marker(),
                slide_views(slides@) == scan(ls, i as nat).0,
                slide_title@ == scan(ls, i as nat).1,
                string_views(slide_content@) == scan(ls, i as nat).2,
            decreases lines@.len() - i,
        {
            let ghost prev = scan(ls, i as nat);
            assert(ls[i as int] == lines@[i as int]@);
            if is_meta_line(&lines, i) {
            } else if has_prefix(lines[i].as_slice(), hm.as_slice()) {
                if slide_title.len() == 0 {
                    slide_title = copy_line(&lines[i]);
                } else {
                    let done_title = string_of(slide_title.as_slice());
                    let content = slide_content;
                    slide_content = Vec::new();
                    let ghost before = slide_views(slides@);
                    slides.push(Slide { title: done_title, content });
                    assert(slide_views(slides@) =~= before.push((prev.1, prev.2)));
                    slide_title = copy_line(&lines[i]);
                    assert(string_views(slide_content@) =~= Seq::<Seq<char>>::empty());
                }
            } else {
                let ghost before = string_views(slide_content@);
                slide_content.push(string_of(lines[i].as_slice()));
                assert(string_views(slide_content@) =~= before.push(ls[i as int]));
            }
            i = i + 1;
        }
        let ghost before = slide_views(slides@);
        slides.push(Slide { title: string_of(slide_title.as_slice()), content: slide_content });
        assert(slide_views(slides@) =~= before.push((scan(ls, ls.len()).1, scan(ls, ls.len()).2)));
        Presentation { title, author, date, slides }
    }
}

fn copy_line(line: &Vec<char>) -> (r: Vec<char>)
    ensures
        r@ == line@,
{
    let mut r: Vec<char> = Vec::new();
    let mut i: usize = 0;
    while i < line.len()
        invariant
            i <= line@.len(),
            r@ == line@.subrange(0, i as int),
        decreases line@.len() - i,
    {
        r.push(line[i]);
        assert(r@ =~= line@.subrange(0, i + 1));
        i = i + 1;
    }
    assert(r@ =~= line@);
    r
}

/// The lines among the first `n` that are not metadata, in order.
pub open spec fn body_lines(lines: Seq<Seq<char>>, n: nat) -> Seq<Seq<char>>
    decreases n,
{
    if n == 0 {
        Seq::empty()
    } else {
        let b = body_lines(lines, (n - 1) as nat);
        if is_meta(lines, n - 1) {
            b
        } else {
            b.push(lines[n - 1])
        }
    }
}

/// The positions of the header lines among the first `n`, in order.
pub open spec fn headers_upto(lines: Seq<Seq<char>>, n: nat) -> Seq<int>
    decreases n,
{
    if n == 0 {
        Seq::empty()
    } else {
        let h = headers_upto(lines, (n - 1) as nat);
        if is_header(lines[n - 1]) {
            h.push(n - 1)
        } else {
            h
        }
    }
}

/// Where the content of the slide opened by header `j` ends: at the next
/// header, or at the end of the document.
pub open spec fn content_end(hs: Seq<int>, len: int, j: int) -> int {
    if j + 1 < hs.len() {
        hs[j + 1]
    } else {
        len
    }
}

/// The document is its metadata lines, then a header: no line stands before
/// the first slide, and no metadata line after it.
pub open spec fn opens_with_header(lines: Seq<Seq<char>>) -> bool {
    exists|m: int|
        0 <= m < lines.len() && #[trigger] is_header(lines[m]) && (forall|i: int|
            0 <= i < m ==> is_meta(lines, i)) && (forall|i: int| m < i < lines.len() ==> !is_meta(lines, i))
}

proof fn lemma_meta_not_header(lines: Seq<Seq<char>>, i: int)
    requires
        is_meta(lines, i),
    ensures
        !is_header(lines[i]),
{
    if is_header(lines[i]) {
        assert(lines[i].subrange(0, 2)[0] == lines[i][0]);
    }
}

proof fn lemma_scan_without_headers(lines: Seq<Seq<char>>, n: nat)
    requires
        n <= lines.len(),
        forall|i: int| 0 <= i < n ==> !is_header(#[trigger] lines[i]),
    ensures
        scan(lines, n) == (Seq::<(Seq<char>, Seq<Seq<char>>)>::empty(), Seq::<char>::empty(), body_lines(lines, n)),
    decreases n,
{
    if n > 0 {
        lemma_scan_without_headers(lines, (n - 1) as nat);
        assert(!is_header(lines[n - 1]));
    }
}

/// A document without header lines is a single slide with an empty title,
/// whose content is every line that is not metadata, in order.
pub proof fn lemma_no_headers_single_slide(text: Seq<char>)
    requires
        forall|i: int| 0 <= i < lines_of(text).len() ==> !is_header(#[trigger] lines_of(text)[i]),
    ensures
        parsed(text).slides == seq![(Seq::<char>::empty(), body_lines(lines_of(text), lines_of(text).len()))],
{
    let ls = lines_of(text);
    lemma_scan_without_headers(ls, ls.len());
    assert(slides_of(ls) =~= seq![(Seq::<char>::empty(), body_lines(ls, ls.len()))]);
}

/// The first three lines, or all of them where there are fewer.
pub open spec fn first_three(lines: Seq<Seq<char>>) -> Seq<Seq<char>> {
    if lines.len() < 3 {
        lines
    } else {
        lines.subrange(0, 3)
    }
}

/// Metadata is positional: title, author and date depend on the first three
/// lines only, and no line from the fourth on is metadata, whatever it holds.
pub proof fn lemma_metadata_positional(t1: Seq<char>, t2: Seq<char>)
    requires
        first_three(lines_of(t1)) == first_three(lines_of(t2)),
    ensures
        parsed(t1).title == parsed(t2).title,
        parsed(t1).author == parsed(t2).author,
        parsed(t1).date == parsed(t2).date,
        forall|i: int| 3 <= i < lines_of(t1).len() ==> !is_meta(lines_of(t1), i),
{
    let l1 = lines_of(t1);
    let l2 = lines_of(t2);
    let f1 = first_three(l1);
    let f2 = first_three(l2);
    assert(f1.len() == f2.len());
    assert(forall|i: int| 0 <= i < f1.len() ==> f1[i] == l1[i] && f2[i] == l2[i]);
    assert(meta_value(l1, 0) == meta_value(l2, 0));
    assert(meta_value(l1, 1) == meta_value(l2, 1));
    assert(meta_value(l1, 2) == meta_value(l2, 2));
}

proof fn lemma_scan_meta_prefix(lines: Seq<Seq<char>>, n: nat)
    requires
        n <= lines.len(),
        forall|i: int| 0 <= i < n ==> is_meta(lines, i),
    ensures
        scan(lines, n) == (Seq::<(Seq<char>, Seq<Seq<char>>)>::empty(), Seq::<char>::empty(), Seq::<Seq<char>>::empty()),
        headers_upto(lines, n) == Seq::<int>::empty(),
    decreases n,
{
    if n > 0 {
        lemma_scan_meta_prefix(lines, (n - 1) as nat);
        lemma_meta_not_header(lines, n - 1);
    }
}

proof fn lemma_scan_after_header(lines: Seq<Seq<char>>, m: int, n: nat)
    requires
        0 <= m < n <= lines.len(),
        is_header(lines[m]),
        forall|i: int| 0 <= i < m ==> is_meta(lines, i),
        forall|i: int| m < i < lines.len() ==> !is_meta(lines, i),
    ensures
        ({
            let (done, t, c) = scan(lines, n);
            let hs = headers_upto(lines, n);
            &&& hs.len() >= 1
            &&& done.len() == hs.len() - 1
            &&& t == lines[hs.last()]
            &&& t.len() > 0
            &&& c == lines.subrange(hs.last() + 1, n as int)
            &&& forall|j: int| 0 <= j < hs.len() ==> m <= #[trigger] hs[j] < n
            &&& forall|j: int|
                0 <= j < done.len() ==> #[trigger] done[j] == (lines[hs[j]], lines.subrange(
                    hs[j] + 1,
                    hs[j + 1],
                ))
        }),
    decreases n,
{
    if n == m + 1 {
        lemma_scan_meta_prefix(lines, m as nat);
        assert(!is_meta(lines, m)) by {
            if is_meta(lines, m) {
                lemma_meta_not_header(lines, m);
            }
        }
        assert(lines.subrange(m + 1, m + 1) =~= Seq::<Seq<char>>::empty());
    } else {
        let k = (n - 1) as nat;
        lemma_scan_after_header(lines, m, k);
        let (done, t, c) = scan(lines, k);
        let hs = headers_upto(lines, k);
        assert(!is_meta(lines, k as int));
        if is_header(lines[k as int]) {
            let hs2 = headers_upto(lines, n);
            assert(hs2 == hs.push(k as int));
            let done2 = done.push((t, c));
            assert forall|j: int| 0 <= j < done2.len() implies #[trigger] done2[j] == (
                lines[hs2[j]],
                lines.subrange(hs2[j] + 1, hs2[j + 1]),
            ) by {
                if j < done.len() {
                    assert(hs2[j] == hs[j] && hs2[j + 1] == hs[j + 1]);
                } else {
                    assert(hs2[j] == hs.last() && hs2[j + 1] == k);
                }
            }
            assert(lines.subrange(n as int, n as int) =~= Seq::<Seq<char>>::empty());
        } else {
            assert(c.push(lines[k as int]) =~= lines.subrange(hs.last() + 1, n as int));
        }
    }
}

/// In a document made of its metadata lines and then slides, there is one
/// slide per header line, in order; each slide's title is its header line
/// and its content the lines strictly between that header and the next one,
/// or the end of the document.
pub proof fn lemma_slides_follow_headers(text: Seq<char>)
    requires
        opens_with_header(lines_of(text)),
    ensures
        ({
            let ls = lines_of(text);
            let hs = headers_upto(ls, ls.len());
            let sl = parsed(text).slides;
            &&& sl.len() == hs.len()
            &&& forall|j: int|
                0 <= j < hs.len() ==> #[trigger] sl[j] == (ls[hs[j]], ls.subrange(
                    hs[j] + 1,
                    content_end(hs, ls.len() as int, j),
                ))
        }),
{
    let ls = lines_of(text);
    let m = choose|m: int|
        0 <= m < ls.len() && #[trigger] is_header(ls[m]) && (forall|i: int|
            0 <= i < m ==> is_meta(ls, i)) && (forall|i: int| m < i < ls.len() ==> !is_meta(ls, i));
    lemma_scan_after_header(ls, m, ls.len());
    let hs = headers_upto(ls, ls.len());
    let sl = parsed(text).slides;
    assert forall|j: int| 0 <= j < hs.len() implies #[trigger] sl[j] == (ls[hs[j]], ls.subrange(
        hs[j] + 1,
        content_end(hs, ls.len() as int, j),
    )) by {
        if j + 1 < hs.len() {
            assert(sl[j] == scan(ls, ls.len()).0[j]);
        }
    }
}

} // verus!
