use texcomplete::doc::LabelKind;
use texcomplete::item::{Item, ItemKind};
use texcomplete::pos::{Position, Range};
use texcomplete::rank::{dedup, preselect, rank, score_and_filter, sort_items, EnvironmentInfo, COMPLETION_LIMIT};
use texcomplete::text::{citation_text, current_word, label_text, sort_prefix};
use texcomplete::engine::convert;

fn at() -> Range {
    Range::new_simple(0, 0, 0, 0)
}

fn item(label: &str) -> Item {
    Item::new(at(), ItemKind::Color, label.to_string(), label.to_string())
}

fn scored(label: &str, score: i64, pre: bool) -> Item {
    let mut it = item(label);
    it.score = Some(score);
    it.preselect = pre;
    it
}

fn names(items: &[Item]) -> Vec<String> {
    items.iter().map(|i| i.label.clone()).collect()
}

#[test]
fn dedup_keeps_first_of_each_label() {
    let mut a = item("red");
    a.kind = ItemKind::Color;
    let mut b = item("red");
    b.kind = ItemKind::UserCommand;
    let out = dedup(vec![a, item("blue"), b, item("blue"), item("green")]);
    assert_eq!(names(&out), vec!["red", "blue", "green"]);
    assert_eq!(out[0].kind, ItemKind::Color);
}

#[test]
fn dedup_twice_is_dedup_once() {
    let once = dedup(vec![item("a"), item("b"), item("a"), item("c"), item("b")]);
    let first = names(&once);
    let twice = dedup(once);
    assert_eq!(names(&twice), first);
}

#[test]
fn dedup_of_empty_list() {
    assert!(dedup(Vec::new()).is_empty());
}

#[test]
fn sort_puts_preselected_first_then_higher_scores() {
    let out = sort_items(vec![
        scored("low", 1, false),
        scored("high", 9, false),
        scored("pre", 0, true),
        scored("mid", 5, false),
    ]);
    assert_eq!(names(&out), vec!["pre", "high", "mid", "low"]);
}

#[test]
fn sort_is_stable_for_equal_keys() {
    let out = sort_items(vec![
        scored("a", 3, false),
        scored("b", 3, false),
        scored("c", 7, false),
        scored("d", 3, false),
    ]);
    assert_eq!(names(&out), vec!["c", "a", "b", "d"]);
}

#[test]
fn empty_pattern_scores_every_candidate_zero() {
    let out = score_and_filter(vec![item("red"), item("blue")], "");
    assert_eq!(out.len(), 2);
    assert!(out.iter().all(|i| i.score == Some(0)));
}

#[test]
fn pattern_drops_candidates_it_does_not_match() {
    let out = score_and_filter(vec![item("red"), item("blue"), item("black")], "bl");
    assert_eq!(names(&out), vec!["blue", "black"]);
    assert!(out.iter().all(|i| i.score.unwrap() > 0));
}

#[test]
fn scoring_uses_the_text_not_the_label() {
    let it = Item::new(at(), ItemKind::Citation, "k1".to_string(), "k1 Knuth Art of Programming".to_string());
    let out = score_and_filter(vec![it], "knuth");
    assert_eq!(out.len(), 1);
}

fn end_env(name: &str, closed: bool) -> EnvironmentInfo {
    EnvironmentInfo {
        name: Some(name.to_string()),
        end_name: Some(name.to_string()),
        begin_node: 1,
        end_node: 4,
        range: Range::new_simple(0, 0, 1, 6),
        end_argument: Range::new_simple(1, 4, 1, 6),
        end_argument_closed: closed,
    }
}

#[test]
fn preselects_the_environment_being_closed() {
    let envs = vec![end_env("foo", true)];
    let out = preselect(vec![item("bar"), item("foo")], &envs, Position::new(1, 5));
    assert!(!out[0].preselect);
    assert!(out[1].preselect);
}

#[test]
fn no_preselection_outside_the_end_argument() {
    let envs = vec![end_env("foo", true)];
    let out = preselect(vec![item("foo")], &envs, Position::new(1, 6));
    assert!(!out[0].preselect);
}

#[test]
fn unclosed_end_argument_preselects_at_its_end() {
    let envs = vec![end_env("foo", false)];
    let out = preselect(vec![item("foo")], &envs, Position::new(1, 6));
    assert!(out[0].preselect);
}

#[test]
fn preselected_candidate_outranks_better_scores() {
    let envs = vec![end_env("zeta", true)];
    let out = rank(vec![item("alpha"), item("zeta"), item("beta")], &envs, Position::new(1, 5), "");
    assert_eq!(out[0].label, "zeta");
    assert!(out[0].preselect);
}

#[test]
fn output_is_cut_at_the_limit() {
    let items: Vec<Item> = (0..60).map(|i| item(&format!("c{}", i))).collect();
    let out = rank(items, &Vec::new(), Position::new(0, 0), "");
    assert_eq!(out.len(), COMPLETION_LIMIT);
    assert_eq!(out.len(), 50);
    assert_eq!(out[0].label, "c0");
    assert_eq!(out[49].label, "c49");
}

#[test]
fn output_holds_all_survivors_below_the_limit() {
    let items: Vec<Item> = (0..60).map(|i| item(&format!("c{}", i))).collect();
    let out = rank(items, &Vec::new(), Position::new(0, 0), "c5");
    assert!(out.len() < 50);
    assert!(out.iter().any(|i| i.label == "c5"));
    assert!(out.iter().all(|i| i.label.contains('5')));
}

#[test]
fn rank_of_nothing_is_nothing() {
    assert!(rank(Vec::new(), &Vec::new(), Position::new(0, 0), "x").is_empty());
}

#[test]
fn rank_orders_by_score() {
    let out = rank(vec![item("xaxbxc"), item("abc")], &Vec::new(), Position::new(0, 0), "abc");
    assert_eq!(names(&out), vec!["abc", "xaxbxc"]);
    assert!(out[0].score.unwrap() > out[1].score.unwrap());
}

#[test]
fn current_word_stops_at_the_escape_character() {
    assert_eq!(current_word("\\sec", 4, true), "sec");
    assert_eq!(current_word("\\cite{foo,ba}", 12, true), "ba");
    assert_eq!(current_word("\\ref{sec:intro}", 9, true), "sec:");
    assert_eq!(current_word("", 0, true), "");
    assert_eq!(current_word("abc", 10, true), "abc");
    assert_eq!(current_word("a b", 2, true), "");
    assert_eq!(current_word("\\@ifnext", 9, true), "@ifnext");
}

#[test]
fn citation_text_flattens_the_entry() {
    let code = "@article{foo,\n    author = {Foo Bar},\n    title = {Baz},\n}";
    assert_eq!(citation_text("foo", code), "foo @articlefoo author Foo Bar title Baz");
}

#[test]
fn citation_text_of_empty_code() {
    assert_eq!(citation_text("key", ""), "key ");
}

#[test]
fn label_text_with_and_without_descriptor() {
    assert_eq!(label_text(&"fig:a".to_string(), &Some("Figure 1".to_string())), "fig:a Figure 1");
    assert_eq!(label_text(&"fig:a".to_string(), &None), "fig:a");
}

#[test]
fn sort_prefix_is_two_digits() {
    assert_eq!(sort_prefix(0), "00");
    assert_eq!(sort_prefix(7), "07");
    assert_eq!(sort_prefix(42), "42");
}

#[test]
fn convert_label_sorts_by_text() {
    let it = Item::new(at(), ItemKind::Label(LabelKind::Equation), "eq:1".to_string(), "eq:1 Equation (1)".to_string());
    let c = convert(it, 3);
    assert_eq!(c.label, "eq:1");
    assert_eq!(c.new_text, "eq:1");
    assert_eq!(c.sort_text, "03 eq:1 Equation (1)");
    assert_eq!(c.filter_text, Some("eq:1 Equation (1)".to_string()));
}

#[test]
fn convert_plain_candidate() {
    let c = convert(item("red"), 12);
    assert_eq!(c.sort_text, "12");
    assert_eq!(c.filter_text, None);
    assert_eq!(c.new_text, "red");
    assert!(!c.snippet);
}

#[test]
fn convert_begin_snippet() {
    let it = Item::new(at(), ItemKind::BeginCommand, "begin".to_string(), "begin".to_string());
    let c = convert(it, 0);
    assert!(c.snippet);
    assert_eq!(c.new_text, "begin{$1}\n\t\n\\end{$1}");
    assert_eq!(c.label, "begin");
}

#[test]
fn citation_text_treats_unicode_whitespace_as_separator() {
    let code = "@misc{k,\u{c}note = {A\u{a0}B\u{2003}C},\u{b}}";
    assert_eq!(citation_text("k", code), "k @misck note A B C");
}

#[test]
fn current_word_in_bibtex_stops_at_the_at_sign() {
    assert_eq!(current_word("@art", 4, false), "art");
    assert_eq!(current_word("@art", 4, true), "@art");
}
