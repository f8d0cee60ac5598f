use yiffy_corner::tag_rule::{TagLiteral, TagRule, TagRuleParseError, TagTerm};

fn tags(names: &[&str]) -> Vec<String> {
    names.iter().map(|n| n.to_string()).collect()
}

#[test]
fn display_fromstr_roundtrip() {
    let rule: TagRule = "[solo]->[-male]".parse().unwrap();
    assert_eq!(rule.to_string(), "[solo]->[-male]");
    let rule: TagRule = "[solo female]->[safe -male]".parse().unwrap();
    assert_eq!(rule.to_string(), "[solo female]->[safe -male]");
}

#[test]
fn straight_channel_example() {
    // "solo is only allowed without male"
    let rule: TagRule = "[solo]->[-male]".parse().unwrap();
    assert!(rule.passes(&tags(&["solo", "female"])));
    assert!(!rule.passes(&tags(&["solo", "male"])));
    // Not solo → rule is vacuous.
    assert!(rule.passes(&tags(&["male", "duo"])));

    // The strict variant: solo requires female.
    let rule: TagRule = "[solo]->[female]".parse().unwrap();
    assert!(rule.passes(&tags(&["solo", "female"])));
    assert!(!rule.passes(&tags(&["solo", "gynomorph"])));
}

#[test]
fn negated_antecedents_work() {
    // "anything without female must carry gay"
    let rule: TagRule = "[-female]->[gay]".parse().unwrap();
    assert!(rule.passes(&tags(&["male", "gay"])));
    assert!(!rule.passes(&tags(&["male", "solo"])));
    assert!(rule.passes(&tags(&["female", "solo"])));
}

#[test]
fn or_groups_hold_on_any_hit() {
    let terms = TagTerm::parse_list("male (gay bisexual) -cub").unwrap();
    assert_eq!(terms.len(), 3);
    let ok = |names: &[&str]| terms.iter().all(|t| t.passes(&tags(names)));
    assert!(ok(&["male", "gay"]));
    assert!(ok(&["male", "bisexual"]));
    assert!(!ok(&["male", "straight"])); // no orientation hit
    assert!(!ok(&["male", "gay", "cub"])); // -cub violated

    // Display/parse roundtrip keeps the group form.
    let printed = terms
        .iter()
        .map(|t| t.to_string())
        .collect::<Vec<_>>()
        .join(" ");
    assert_eq!(printed, "male (gay bisexual) -cub");
    assert_eq!(TagTerm::parse_list(&printed).unwrap(), terms);
}

#[test]
fn or_groups_inside_rules() {
    // Every duo must carry an orientation marker.
    let rule: TagRule = "[duo]->[(gay straight bisexual)]".parse().unwrap();
    assert!(rule.passes(&tags(&["duo", "gay"])));
    assert!(rule.passes(&tags(&["duo", "straight"])));
    assert!(!rule.passes(&tags(&["duo", "male"])));
    assert!(rule.passes(&tags(&["solo", "male"]))); // vacuous
    assert_eq!(rule.to_string(), "[duo]->[(gay straight bisexual)]");
}

#[test]
fn group_parse_errors() {
    assert_eq!(
        TagTerm::parse_list("(gay bisexual"),
        Err(TagRuleParseError::UnclosedGroup)
    );
    assert_eq!(
        TagTerm::parse_list("()"),
        Err(TagRuleParseError::EmptyGroup)
    );
    assert_eq!(
        TagTerm::parse_list("ga)y"),
        Err(TagRuleParseError::StrayParen)
    );
    assert_eq!(
        TagTerm::parse_list("((a b))"),
        Err(TagRuleParseError::NestedGroup)
    );
}

#[test]
fn describe_reads_as_mechanical_natural_language() {
    let rule: TagRule = "[solo avian]->[(-female intersex) bird]".parse().unwrap();
    assert_eq!(
        rule.describe(),
        "solo AND avian REQUIRE ((NO female) OR intersex) AND bird"
    );
    let simple: TagRule = "[solo]->[-male]".parse().unwrap();
    assert_eq!(simple.describe(), "solo REQUIRE NO male");
    // Terms describe on their own too (poster subscriptions).
    let terms = TagTerm::parse_list("wolf (male female)").unwrap();
    assert_eq!(
        TagTerm::describe_list(&terms),
        "wolf AND (male OR female)"
    );
}

#[test]
fn parse_all_handles_multiple_rules_and_garbage() {
    let rules = TagRule::parse_all("[solo]->[-male] [duo]->[female]").unwrap();
    assert_eq!(rules.len(), 2);
    assert!(TagRule::parse_all("").unwrap().is_empty());
    assert!(TagRule::parse_all("solo->female").is_err());
    assert!(TagRule::parse_all("[]->[male]").is_err());
    assert!(TagRule::parse_all("[solo]->[-]").is_err());
}

#[test]
fn literal_parsing_reads_negation_and_rejects_empty() {
    assert_eq!("wolf".parse::<TagLiteral>(), Ok(TagLiteral::Has("wolf".to_string())));
    assert_eq!("-gore".parse::<TagLiteral>(), Ok(TagLiteral::Lacks("gore".to_string())));
    assert_eq!("--x".parse::<TagLiteral>(), Ok(TagLiteral::Lacks("-x".to_string())));
    assert_eq!("-".parse::<TagLiteral>(), Err(TagRuleParseError::EmptyLiteral));
    assert_eq!("".parse::<TagLiteral>(), Err(TagRuleParseError::EmptyLiteral));
}

#[test]
fn rule_errors_name_the_broken_part() {
    assert_eq!("[solo]->[]".parse::<TagRule>(), Err(TagRuleParseError::EmptySide));
    assert_eq!("[solo]->[male".parse::<TagRule>(), Err(TagRuleParseError::Malformed));
    assert_eq!("  [solo]->[male]  ".parse::<TagRule>().unwrap().to_string(), "[solo]->[male]");
    assert_eq!("[(a]->[b]".parse::<TagRule>(), Err(TagRuleParseError::UnclosedGroup));
    assert_eq!(TagRule::parse_all("[a]->[b] x"), Err(TagRuleParseError::Malformed));
    // Unicode whitespace separates terms too.
    assert_eq!(TagTerm::parse_list("wolf\u{3000}fox").unwrap().len(), 2);
}
