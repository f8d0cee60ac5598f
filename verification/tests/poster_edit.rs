use yiffy_corner::poster_edit::{add_rules, add_tags, add_terms, drop_rules, edit_tags, remove_tags, remove_terms, rule_numbers, term_eq};
use yiffy_corner::tag_rule::{TagLiteral, TagRule, TagTerm};

fn s(x: &str) -> String {
    x.to_string()
}

fn has(t: &str) -> TagTerm {
    TagTerm(vec![TagLiteral::Has(s(t))])
}

fn rule(raw: &str) -> TagRule {
    TagRule::parse(raw).unwrap()
}

#[test]
fn adding_terms_appends_the_new_and_reports_the_present() {
    let (out, kept) = add_terms(&vec![has("wolf")], &vec![has("fox"), has("wolf"), has("fox")]);
    assert_eq!(out, vec![has("wolf"), has("fox")]);
    assert_eq!(kept, vec![has("wolf"), has("fox")]);
}

#[test]
fn removing_terms_drops_every_copy_and_reports_the_absent() {
    let (out, missing) = remove_terms(&vec![has("wolf"), has("fox"), has("wolf")], &vec![has("wolf"), has("cat")]);
    assert_eq!(out, vec![has("fox")]);
    assert_eq!(missing, vec![has("cat")]);
}

#[test]
fn forbidden_tags_edit_the_same_way() {
    let (out, kept) = add_tags(&vec![s("gore")], &vec![s("scat"), s("gore")]);
    assert_eq!(out, vec![s("gore"), s("scat")]);
    assert_eq!(kept, vec![s("gore")]);
    let (out, missing) = remove_tags(&vec![s("gore"), s("scat")], &vec![s("gore"), s("vore")]);
    assert_eq!(out, vec![s("scat")]);
    assert_eq!(missing, vec![s("vore")]);
}

#[test]
fn a_tag_edit_reports_untouched_terms_then_forbidden_tags() {
    let group = TagTerm(vec![TagLiteral::Has(s("gay")), TagLiteral::Lacks(s("female"))]);
    let e = edit_tags(&vec![has("wolf"), group.clone()], &vec![s("gore")], &vec![has("wolf"), has("fox"), group.clone()], &vec![s("gore")], true);
    assert_eq!(e.subscribed, vec![has("wolf"), group.clone(), has("fox")]);
    assert_eq!(e.forbidden, vec![s("gore")]);
    assert_eq!(e.untouched, vec![s("wolf"), s("(gay -female)"), s("-gore")]);
    let e = edit_tags(&vec![has("wolf")], &vec![s("gore")], &vec![has("fox")], &vec![s("gore")], false);
    assert_eq!(e.subscribed, vec![has("wolf")]);
    assert!(e.forbidden.is_empty());
    assert_eq!(e.untouched, vec![s("fox")]);
}

#[test]
fn terms_compare_by_their_literals() {
    assert!(term_eq(&has("wolf"), &has("wolf")));
    assert!(!term_eq(&has("wolf"), &TagTerm(vec![TagLiteral::Lacks(s("wolf"))])));
    assert!(!term_eq(&has("wolf"), &TagTerm(vec![TagLiteral::Has(s("wolf")), TagLiteral::Has(s("fox"))])));
}

#[test]
fn adding_rules_skips_the_present_and_names_them() {
    let (rules, already) = add_rules(&vec![rule("[solo]->[-male]")], &vec![rule("[solo]->[-male]"), rule("[duo]->[gay]")]);
    assert_eq!(rules, vec![rule("[solo]->[-male]"), rule("[duo]->[gay]")]);
    assert_eq!(already, vec![s("[solo]->[-male]")]);
}

#[test]
fn rule_numbers_come_back_sorted_and_unique() {
    assert_eq!(rule_numbers(&vec![s("3"), s("1"), s("3"), s("+2")]).unwrap(), vec![1, 2, 3]);
    assert_eq!(rule_numbers(&vec![]).unwrap(), Vec::<u64>::new());
    assert_eq!(rule_numbers(&vec![s("2"), s("0")]).unwrap_err(), "'0' is not a rule number (1 = first rule).");
    assert_eq!(rule_numbers(&vec![s("x")]).unwrap_err(), "'x' is not a rule number (1 = first rule).");
}

#[test]
fn dropping_rules_by_number_reports_the_missing_numbers() {
    let rules = vec![rule("[a]->[b]"), rule("[c]->[d]"), rule("[e]->[f]")];
    let (kept, beyond) = drop_rules(&rules, &vec![1, 3, 7]);
    assert_eq!(kept, vec![rule("[c]->[d]")]);
    assert_eq!(beyond, vec![7]);
}
