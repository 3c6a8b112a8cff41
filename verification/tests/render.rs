use statusbar::bar::{collate_outcomes, Bar, RenderResult, Segment};
use statusbar::colored::Colored;
use statusbar::separators::SegSepTypes;

fn colored(plain: &str, decorated: &str) -> Colored {
    Colored::new(String::from(plain), String::from(decorated))
}

fn plain(text: &str) -> Colored {
    colored(text, text)
}

fn empty() -> Colored {
    Colored::empty()
}

fn ok(text: &str, width: u16) -> Option<RenderResult> {
    Some(RenderResult { text: String::from(text), width })
}

#[test]
fn static_spacer_and_single_module() {
    // A static spacer and one module wrapped in an empty separator: no
    // dynamic spacer, so the target width never matters and no division is
    // attempted.
    let mut bar = Bar::new((false, false));
    bar.add_segment(Segment::StaticSpacer(2));
    bar.add_segment(Segment::StatusSeg(1, SegSepTypes::One(empty())));
    let outcomes = vec![ok("X", 1)];
    let line = bar.try_render_line(10, &outcomes).unwrap();
    assert_eq!(line, "  X");
    assert_eq!(line.len(), 3);
    assert_eq!(bar.try_render_line(0, &outcomes).unwrap(), "  X");
    assert_eq!(bar.try_render_line(u16::MAX, &outcomes).unwrap(), "  X");
}

#[test]
fn dynamic_spacers_center_a_module() {
    // fixed width 3, two dynamic spacers, target 11: each spacer gets
    // (11 - 3) / 2 = 4 blanks.
    let mut bar = Bar::new((false, false));
    bar.add_segment(Segment::DynSpacer);
    bar.add_segment(Segment::StatusSeg(2, SegSepTypes::Two(empty(), empty())));
    bar.add_segment(Segment::DynSpacer);
    let outcomes = vec![ok("CL", 2), ok("K", 1)];
    let line = bar.try_render_line(11, &outcomes).unwrap();
    assert_eq!(line, "    CLK    ");
    assert_eq!(line.len(), 11);
}

#[test]
fn dynamic_spacer_single_module_width_eleven() {
    let mut bar = Bar::new((true, true));
    bar.add_segment(Segment::DynSpacer);
    bar.add_segment(Segment::StatusSeg(1, SegSepTypes::Two(empty(), empty())));
    bar.add_segment(Segment::DynSpacer);
    let outcomes = vec![ok("CLK", 3)];
    let line = bar.try_render_line(11, &outcomes).unwrap();
    assert_eq!(line, "    CLK    ");
}

#[test]
fn three_policy_wraps_a_segment() {
    // Three("[", "|", "]") over three modules: the line reads "[a|a|a]" —
    // each interior boundary carries the middle separator exactly once.
    let mut bar = Bar::new((false, false));
    bar.add_segment(Segment::StatusSeg(
        3,
        SegSepTypes::Three(plain("["), plain("|"), plain("]")),
    ));
    let jobs = bar.module_jobs();
    assert_eq!(jobs.len(), 3);
    // what each module task embeds around its content
    let embedded: Vec<(String, String)> = jobs
        .iter()
        .map(|j| (j.0.get_colored().to_string(), j.1.get_colored().to_string()))
        .collect();
    assert_eq!(embedded[0], (String::from("["), String::from("|")));
    assert_eq!(embedded[1], (String::from(""), String::from("|")));
    assert_eq!(embedded[2], (String::from(""), String::from("]")));
    // each module renders content "a" of width 1 between its decorations
    let outcomes: Vec<Option<RenderResult>> = embedded
        .iter()
        .map(|(l, r)| ok(&format!("{}a{}", l, r), 1))
        .collect();
    let line = bar.try_render_line(7, &outcomes).unwrap();
    assert_eq!(line, "[a|a|a]");
}

#[test]
fn one_policy_separators() {
    // One("|") over three modules: "|" on both sides of the first module,
    // then once after each later module.
    let bar_seps = SegSepTypes::One(plain("|"));
    let r0 = bar_seps.resolve(0, 3);
    let r1 = bar_seps.resolve(1, 3);
    let r2 = bar_seps.resolve(2, 3);
    assert_eq!((r0.0.get_plain(), r0.1.get_plain()), ("|", "|"));
    assert_eq!((r1.0.get_plain(), r1.1.get_plain()), ("", "|"));
    assert_eq!((r2.0.get_plain(), r2.1.get_plain()), ("", "|"));

    let mut bar = Bar::new((false, false));
    bar.add_segment(Segment::StatusSeg(3, SegSepTypes::One(plain("|"))));
    let jobs = bar.module_jobs();
    let outcomes: Vec<Option<RenderResult>> = jobs
        .iter()
        .zip(["a", "b", "c"])
        .map(|(j, c)| {
            ok(
                &format!("{}{}{}", j.0.get_colored(), c, j.1.get_colored()),
                1,
            )
        })
        .collect();
    let line = bar.try_render_line(7, &outcomes).unwrap();
    assert_eq!(line, "|a|b|c|");
}

#[test]
fn two_policy_wraps_every_module() {
    let seps = SegSepTypes::Two(plain("<"), plain(">"));
    for n in 1..5usize {
        for i in 0..n {
            let r = seps.resolve(i, n);
            assert_eq!(r.0.get_plain(), "<");
            assert_eq!(r.1.get_plain(), ">");
            let e = seps.embedded(i, n);
            assert_eq!(e.0.get_plain(), "<");
            assert_eq!(e.1.get_plain(), ">");
        }
    }
}

#[test]
fn three_policy_resolution_cases() {
    let seps = SegSepTypes::Three(plain("a"), plain("m"), plain("b"));
    let r0 = seps.resolve(0, 3);
    let r1 = seps.resolve(1, 3);
    let r2 = seps.resolve(2, 3);
    assert_eq!((r0.0.get_plain(), r0.1.get_plain()), ("a", "m"));
    assert_eq!((r1.0.get_plain(), r1.1.get_plain()), ("m", "m"));
    assert_eq!((r2.0.get_plain(), r2.1.get_plain()), ("m", "b"));
    // a singleton gets the outer pair
    let rs = seps.resolve(0, 1);
    assert_eq!((rs.0.get_plain(), rs.1.get_plain()), ("a", "b"));
}

#[test]
fn separator_width_counts_embedded_decorations() {
    // "[", "|", "]" over three modules stand in the line as "[", "|", "|",
    // "]": four plain characters.
    let seps = SegSepTypes::Three(plain("["), plain("|"), plain("]"));
    assert_eq!(seps.seg_sep_width(3), Some(4));
    // One("|") over three modules: "|" four times.
    assert_eq!(SegSepTypes::One(plain("|")).seg_sep_width(3), Some(4));
    // Two wraps every module.
    assert_eq!(
        SegSepTypes::Two(plain("<"), plain(">")).seg_sep_width(3),
        Some(6)
    );
    // no modules, no separators
    assert_eq!(SegSepTypes::One(plain("|")).seg_sep_width(0), Some(0));
}

#[test]
fn failed_task_degrades_to_placeholder() {
    // One failed task among three: the other texts stand untouched, in
    // order, and the failed slot degrades silently to the empty placeholder.
    let mut bar = Bar::new((false, false));
    bar.add_segment(Segment::StatusSeg(3, SegSepTypes::Two(empty(), empty())));
    let outcomes = vec![ok("A", 1), None, ok("C", 1)];
    let line = bar.try_render_line(5, &outcomes).unwrap();
    assert_eq!(line, "AC");
    // the same line as an explicit empty result of width zero
    let substituted = vec![ok("A", 1), ok("", 0), ok("C", 1)];
    assert_eq!(bar.try_render_line(5, &substituted).unwrap(), "AC");
    // a bar holding nothing but one failed task renders an empty line
    let mut lone = Bar::new((false, false));
    lone.add_segment(Segment::StatusSeg(1, SegSepTypes::Two(empty(), empty())));
    assert_eq!(lone.try_render_line(4, &vec![None]).unwrap(), "");
}

#[test]
fn failed_task_counts_zero_width() {
    // The failed slot contributes neither width nor text, so the dynamic
    // spacer is sized from the two real widths alone: (8 - 2) / 1 = 6
    // blanks, and the line still meets the target width.
    let mut bar = Bar::new((false, false));
    bar.add_segment(Segment::StatusSeg(3, SegSepTypes::Two(empty(), empty())));
    bar.add_segment(Segment::DynSpacer);
    let outcomes = vec![ok("A", 1), None, ok("C", 1)];
    let line = bar.try_render_line(8, &outcomes).unwrap();
    assert_eq!(line, "AC      ");
    assert_eq!(line.len(), 8);
}

#[test]
fn collation_is_completion_order_independent() {
    let mut bar = Bar::new((false, false));
    bar.add_segment(Segment::StatusSeg(3, SegSepTypes::Two(empty(), empty())));
    bar.add_segment(Segment::DynSpacer);

    let declared = vec![ok("A", 1), None, ok("C", 1)];
    let finish_one: Vec<(usize, Option<RenderResult>)> =
        vec![(2, ok("C", 1)), (0, ok("A", 1)), (1, None)];
    let finish_two: Vec<(usize, Option<RenderResult>)> =
        vec![(1, None), (2, ok("C", 1)), (0, ok("A", 1))];

    let c1 = collate_outcomes(&finish_one);
    let c2 = collate_outcomes(&finish_two);
    let l0 = bar.try_render_line(9, &declared).unwrap();
    let l1 = bar.try_render_line(9, &c1).unwrap();
    let l2 = bar.try_render_line(9, &c2).unwrap();
    assert_eq!(l0, l1);
    assert_eq!(l1, l2);
    // fixed = 1 + 0 + 1 = 2, so the spacer gets 9 - 2 = 7 blanks
    assert_eq!(l0, "AC       ");
}

#[test]
fn width_is_conserved_when_leftover_divides_evenly() {
    // fixed = separators (4) + module widths (3) = 7; target 10 leaves 3
    // for the single dynamic spacer; all texts are plain ASCII, so the
    // line's character count equals the target width.
    let mut bar = Bar::new((false, false));
    bar.add_segment(Segment::StatusSeg(
        3,
        SegSepTypes::Three(plain("["), plain("|"), plain("]")),
    ));
    bar.add_segment(Segment::DynSpacer);
    let jobs = bar.module_jobs();
    let outcomes: Vec<Option<RenderResult>> = jobs
        .iter()
        .map(|j| ok(&format!("{}a{}", j.0.get_colored(), j.1.get_colored()), 1))
        .collect();
    let line = bar.try_render_line(10, &outcomes).unwrap();
    assert_eq!(line, "[a|a|a]   ");
    assert_eq!(line.chars().count(), 10);
}

#[test]
fn leftover_remainder_is_dropped() {
    // Division rounds down and no remainder is redistributed: fixed 3,
    // two spacers, target 10 gives each spacer (10 - 3) / 2 = 3 blanks and
    // a line of 9 characters.
    let mut bar = Bar::new((false, false));
    bar.add_segment(Segment::DynSpacer);
    bar.add_segment(Segment::StatusSeg(1, SegSepTypes::Two(empty(), empty())));
    bar.add_segment(Segment::DynSpacer);
    let outcomes = vec![ok("CLK", 3)];
    let line = bar.try_render_line(10, &outcomes).unwrap();
    assert_eq!(line, "   CLK   ");
    assert_eq!(line.len(), 9);
}

#[test]
fn all_dynamic_spacers_share_one_width() {
    let mut bar = Bar::new((false, false));
    bar.add_segment(Segment::DynSpacer);
    bar.add_segment(Segment::StaticSpacer(1));
    bar.add_segment(Segment::DynSpacer);
    bar.add_segment(Segment::StatusSeg(1, SegSepTypes::Two(empty(), empty())));
    bar.add_segment(Segment::DynSpacer);
    let outcomes = vec![ok("CLK", 3)];
    // fixed = 1 + 3 = 4; (13 - 4) / 3 = 3 blanks for every spacer
    let line = bar.try_render_line(13, &outcomes).unwrap();
    assert_eq!(line, "       CLK   ");
    assert_eq!(line.len(), 13);
}

#[test]
fn underflow_clamps_spacers_to_zero() {
    // The fixed content exceeds the target width: every dynamic spacer gets
    // zero blanks instead of a wrapped subtraction.
    let mut bar = Bar::new((false, false));
    bar.add_segment(Segment::DynSpacer);
    bar.add_segment(Segment::StatusSeg(1, SegSepTypes::Two(empty(), empty())));
    bar.add_segment(Segment::DynSpacer);
    let outcomes = vec![ok("ABCDE", 5)];
    let line = bar.try_render_line(3, &outcomes).unwrap();
    assert_eq!(line, "ABCDE");
}

#[test]
fn outcome_count_must_match_declared_modules() {
    let mut bar = Bar::new((false, false));
    bar.add_segment(Segment::StatusSeg(2, SegSepTypes::Two(empty(), empty())));
    assert!(bar.try_render_line(10, &vec![ok("A", 1)]).is_none());
    assert!(bar
        .try_render_line(10, &vec![ok("A", 1), ok("B", 1), ok("C", 1)])
        .is_none());
    assert!(bar.try_render_line(10, &vec![ok("A", 1), ok("B", 1)]).is_some());
}

#[test]
fn empty_bar_renders_empty_line() {
    let bar = Bar::new((false, false));
    assert_eq!(bar.module_count(), Some(0));
    assert_eq!(bar.dyn_count(), 0);
    assert_eq!(bar.try_render_line(5, &vec![]).unwrap(), "");
}

#[test]
fn module_free_segments_render_nothing() {
    let mut bar = Bar::new((false, false));
    bar.add_segment(Segment::StatusSeg(0, SegSepTypes::One(plain("|"))));
    bar.add_segment(Segment::StaticSpacer(0));
    assert_eq!(bar.module_count(), Some(0));
    assert_eq!(bar.try_render_line(4, &vec![]).unwrap(), "");
}

#[test]
fn counts_follow_declaration() {
    let mut bar = Bar::new((false, false));
    bar.add_segment(Segment::DynSpacer);
    bar.add_segment(Segment::StatusSeg(2, SegSepTypes::One(plain("|"))));
    bar.add_segment(Segment::DynSpacer);
    bar.add_segment(Segment::StatusSeg(1, SegSepTypes::Two(empty(), empty()))) ;
    assert_eq!(bar.module_count(), Some(3));
    assert_eq!(bar.dyn_count(), 2);
    assert_eq!(bar.module_jobs().len(), 3);
}

#[test]
fn jobs_flatten_in_declaration_order() {
    let mut bar = Bar::new((false, false));
    bar.add_segment(Segment::DynSpacer);
    bar.add_segment(Segment::StatusSeg(2, SegSepTypes::One(plain("|"))));
    bar.add_segment(Segment::StaticSpacer(1));
    bar.add_segment(Segment::StatusSeg(
        1,
        SegSepTypes::Three(plain("["), plain("-"), plain("]")),
    ));
    let jobs = bar.module_jobs();
    let pairs: Vec<(&str, &str)> = jobs
        .iter()
        .map(|j| (j.0.get_plain(), j.1.get_plain()))
        .collect();
    assert_eq!(pairs, vec![("|", "|"), ("", "|"), ("[", "]")]);
}

#[test]
fn decorated_and_plain_forms_are_kept_apart() {
    // Width accounting reads the plain form, the line carries the decorated
    // form.
    let c = colored("|", "\u{1b}[31m|\u{1b}[0m");
    assert_eq!(c.plain_len(), 1);
    assert_eq!(c.get_plain(), "|");
    assert_eq!(c.get_colored(), "\u{1b}[31m|\u{1b}[0m");

    let mut bar = Bar::new((false, false));
    bar.add_segment(Segment::StatusSeg(
        1,
        SegSepTypes::Two(
            colored("<", "\u{1b}[31m<\u{1b}[0m"),
            colored(">", "\u{1b}[31m>\u{1b}[0m"),
        ),
    ));
    bar.add_segment(Segment::DynSpacer);
    let jobs = bar.module_jobs();
    let text = format!("{}x{}", jobs[0].0.get_colored(), jobs[0].1.get_colored());
    let outcomes = vec![ok(&text, 1)];
    // fixed = 2 (plain separator width) + 1 = 3; the spacer gets 9 - 3 = 6
    let line = bar.try_render_line(9, &outcomes).unwrap();
    assert_eq!(line, format!("{}      ", text));
}
