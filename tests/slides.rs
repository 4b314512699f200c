use mdslides::format::{classify_line, normalize_blank_lines, Style, StyledLine};
use mdslides::navigation::{command_for, Command, Key, Navigation};
use mdslides::presentation::{Presentation, Slide};

fn spans(line: &StyledLine) -> Vec<(String, Style)> {
    line.spans.iter().map(|s| (s.text.clone(), s.style)).collect()
}

fn slide(title: &str, content: &[&str]) -> Slide {
    Slide::new(title.to_string(), content.iter().map(|s| s.to_string()).collect())
}

fn chars(s: &str) -> Vec<char> {
    s.chars().collect()
}

#[test]
fn parses_metadata_and_two_slides() {
    let p = Presentation::parse("% Title\n% Author\n% 2024\n# Slide One\nHello\n# Slide Two\n* item");
    assert_eq!(p.title(), "Title");
    assert_eq!(p.author(), "Author");
    assert_eq!(p.date(), "2024");
    assert_eq!(p.slide_count(), 2);
    assert_eq!(p.slides()[0].title(), "# Slide One");
    assert_eq!(p.slides()[0].content(), &["Hello".to_string()]);
    assert_eq!(p.slides()[1].title(), "# Slide Two");
    assert_eq!(p.slides()[1].content(), &["* item".to_string()]);
}

#[test]
fn document_without_headers_is_one_untitled_slide() {
    let p = Presentation::parse("% T\nhello\nworld\n% late");
    assert_eq!(p.title(), "T");
    assert_eq!(p.author(), "");
    assert_eq!(p.slide_count(), 1);
    assert_eq!(p.slides()[0].title(), "");
    assert_eq!(
        p.slides()[0].content(),
        &["hello".to_string(), "world".to_string(), "% late".to_string()]
    );
}

#[test]
fn empty_document_has_one_empty_slide() {
    let p = Presentation::parse("");
    assert_eq!(p.title(), "");
    assert_eq!(p.slide_count(), 1);
    assert_eq!(p.slides()[0].title(), "");
    assert!(p.slides()[0].content().is_empty());
}

#[test]
fn slides_hold_lines_between_headers() {
    let p = Presentation::parse("# A\na1\n\na2\n# B\n# C\nc1\n");
    assert_eq!(p.slide_count(), 3);
    assert_eq!(p.slides()[0].title(), "# A");
    assert_eq!(
        p.slides()[0].content(),
        &["a1".to_string(), "".to_string(), "a2".to_string()]
    );
    assert_eq!(p.slides()[1].title(), "# B");
    assert!(p.slides()[1].content().is_empty());
    assert_eq!(p.slides()[2].title(), "# C");
    assert_eq!(p.slides()[2].content(), &["c1".to_string()]);
}

#[test]
fn lines_before_the_first_header_join_the_first_slide() {
    let p = Presentation::parse("intro\n# A\nbody");
    assert_eq!(p.slide_count(), 1);
    assert_eq!(p.slides()[0].title(), "# A");
    assert_eq!(p.slides()[0].content(), &["intro".to_string(), "body".to_string()]);
}

#[test]
fn metadata_is_positional() {
    let p = Presentation::parse("plain\n% Author\n# A\n% not meta");
    assert_eq!(p.title(), "");
    assert_eq!(p.author(), "Author");
    assert_eq!(p.date(), "");
    assert_eq!(p.slides()[0].title(), "# A");
    assert_eq!(p.slides()[0].content(), &["plain".to_string(), "% not meta".to_string()]);
}

#[test]
fn metadata_loses_only_first_marker() {
    let p = Presentation::parse("% 50% off\n%no space");
    assert_eq!(p.title(), "50% off");
    assert_eq!(p.author(), "%no space");
}

#[test]
fn crlf_lines_are_split() {
    let p = Presentation::parse("% T\r\n# A\r\nx\r\n");
    assert_eq!(p.title(), "T");
    assert_eq!(p.slides()[0].title(), "# A");
    assert_eq!(p.slides()[0].content(), &["x".to_string()]);
}

#[test]
fn blank_runs_are_trimmed_and_collapsed() {
    let s = slide("# S", &["\n\nFoo\n\n\n\nBar\n\n"]);
    let lines = s.formatted_content();
    let got: Vec<Vec<(String, Style)>> = lines.iter().map(spans).collect();
    assert_eq!(
        got,
        vec![
            vec![("Foo".to_string(), Style::Plain)],
            vec![("".to_string(), Style::Plain)],
            vec![("Bar".to_string(), Style::Plain)],
        ]
    );
}

#[test]
fn blank_runs_across_content_lines() {
    let s = slide("# S", &["", "", "Foo", "", "", "", "Bar", "", ""]);
    let got: Vec<Vec<(String, Style)>> = s.formatted_content().iter().map(spans).collect();
    assert_eq!(
        got,
        vec![
            vec![("Foo".to_string(), Style::Plain)],
            vec![("".to_string(), Style::Plain)],
            vec![("Bar".to_string(), Style::Plain)],
        ]
    );
}

#[test]
fn normalizing_uses_every_replacement() {
    assert_eq!(normalize_blank_lines("\n\nFoo\n\n\n\nBar\n\n"), "Foo\n\nBar");
    assert_eq!(normalize_blank_lines("a\n\n\nb\n\n\n\nc"), "a\n\nb\n\nc");
    assert_eq!(normalize_blank_lines("a\nb"), "a\nb");
    assert_eq!(normalize_blank_lines("\n\n\n"), "");
}

#[test]
fn normalizing_twice_changes_nothing() {
    let once = normalize_blank_lines("\n x\n\n\n\ny \n\n\nz\n\n");
    assert_eq!(normalize_blank_lines(&once), once);
}

#[test]
fn formatting_its_own_output_changes_nothing() {
    let s = slide("# S", &["", "a", "", "", "b", "", "", "", "c", ""]);
    let first: Vec<String> = s.formatted_content().iter().map(|l| l.spans[0].text.clone()).collect();
    let again = Slide::new("# S".to_string(), first.clone());
    let second: Vec<String> =
        again.formatted_content().iter().map(|l| l.spans[0].text.clone()).collect();
    assert_eq!(first, vec!["a", "", "b", "", "c"]);
    assert_eq!(first, second);
}

#[test]
fn fenced_block_yields_code_lines_only() {
    let s = slide("# S", &["```\ncode here\n```"]);
    let got: Vec<Vec<(String, Style)>> = s.formatted_content().iter().map(spans).collect();
    assert_eq!(got, vec![vec![(" code here ".to_string(), Style::CodeLine)]]);
}

#[test]
fn fence_flag_carries_across_lines() {
    let s = slide("# S", &["before", "```rust", "let x = 1;", "```  ", "after"]);
    let got: Vec<Vec<(String, Style)>> = s.formatted_content().iter().map(spans).collect();
    assert_eq!(
        got,
        vec![
            vec![("before".to_string(), Style::Plain)],
            vec![(" let x = 1; ".to_string(), Style::CodeLine)],
            vec![("after".to_string(), Style::Plain)],
        ]
    );
}

#[test]
fn headings_bullets_and_plain_lines() {
    let (h, f) = classify_line(&chars("  ## Sub"), false);
    assert_eq!(spans(&h.unwrap()), vec![("  ## Sub".to_string(), Style::Heading)]);
    assert!(!f);
    let (b, _) = classify_line(&chars("  * one * two "), false);
    assert_eq!(
        spans(&b.unwrap()),
        vec![
            ("* ".to_string(), Style::BulletMarker),
            ("one two".to_string(), Style::BulletText),
        ]
    );
    let (p, f) = classify_line(&chars("text"), false);
    assert_eq!(spans(&p.unwrap()), vec![("text".to_string(), Style::Plain)]);
    assert!(!f);
}

#[test]
fn fence_toggles_and_is_hidden() {
    let (o, f) = classify_line(&chars("```"), false);
    assert!(o.is_none());
    assert!(f);
    let (o, f) = classify_line(&chars("```"), true);
    assert!(o.is_none());
    assert!(!f);
    let (c, f) = classify_line(&chars("x"), true);
    assert_eq!(spans(&c.unwrap()), vec![(" x ".to_string(), Style::CodeLine)]);
    assert!(f);
}

#[test]
fn navigation_stays_in_range() {
    let mut n = Navigation::new(2);
    assert_eq!(n.index(), 0);
    n.step_back();
    assert_eq!(n.index(), 0);
    n.step_forward();
    n.step_forward();
    assert_eq!(n.index(), 2);
    n.step_forward();
    assert_eq!(n.index(), 2);
    n.step_back();
    assert_eq!(n.index(), 1);
    let cmds = [
        Command::StepForward,
        Command::StepForward,
        Command::StepForward,
        Command::StepBack,
        Command::StepBack,
        Command::StepBack,
        Command::StepBack,
        Command::Ignore,
    ];
    for c in cmds {
        assert!(n.apply(c));
        assert!(n.index() <= n.slide_count());
    }
    assert_eq!(n.index(), 0);
    assert!(!n.apply(Command::Quit));
}

#[test]
fn keys_map_to_commands() {
    assert_eq!(command_for(Key::Esc, true), Command::Quit);
    assert_eq!(command_for(Key::Char('q'), true), Command::Quit);
    assert_eq!(command_for(Key::Char('x'), true), Command::Ignore);
    assert_eq!(command_for(Key::Left, true), Command::StepBack);
    assert_eq!(command_for(Key::Right, true), Command::StepForward);
    assert_eq!(command_for(Key::Other, true), Command::Ignore);
    assert_eq!(command_for(Key::Right, false), Command::Ignore);
}

#[test]
fn footer_shows_title_and_counter() {
    let p = Presentation::parse("% Deck\n# One\n# Two # x");
    assert_eq!(p.footer_label(0), "Deck");
    assert_eq!(p.footer_label(1), "Deck -- One");
    assert_eq!(p.footer_label(2), "Deck -- Two x");
    let mut n = Navigation::new(p.slide_count());
    assert_eq!(n.counter_label(), "[1/3]");
    n.step_forward();
    assert_eq!(n.counter_label(), "[2/3]");
    let mut big = Navigation::new(11);
    for _ in 0..9 {
        big.step_forward();
    }
    assert_eq!(big.counter_label(), "[10/12]");
}
