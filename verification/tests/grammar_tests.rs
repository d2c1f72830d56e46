use left_recursion::error::GrammarError;
use left_recursion::grammar::Grammar;
use left_recursion::production::Production;
use left_recursion::rule::Rule;
use left_recursion::symbol::Symbol;

fn sym(text: &str) -> Symbol {
    Symbol::new(text).unwrap()
}

fn prod(texts: &[&str]) -> Production {
    Production::new(texts.iter().map(|t| sym(t)).collect()).unwrap()
}

fn rule(lhs: &str, alternatives: &[&[&str]]) -> Rule {
    Rule::new(lhs, alternatives.iter().map(|a| prod(a)).collect()).unwrap()
}

fn regex_grammar() -> Grammar {
    Grammar::new(vec![
        rule("<REGEX>", &[&["<LOW_PRECEDENCE>"]]),
        rule("<LOW_PRECEDENCE>", &[&["<MED_PRECEDENCE>", "<ALTERNAT>"]]),
        rule("<ALTERNAT>", &[&["|", "<LOW_PRECEDENCE>"], &["EmptyString"]]),
        rule("<MED_PRECEDENCE>", &[&["<HIGH_PRECEDENCE>", "<CONCAT>"]]),
        rule("<CONCAT>", &[&["<MED_PRECEDENCE>"], &["EmptyString"]]),
        rule("<HIGH_PRECEDENCE>", &[&["<GIGA_PRECEDENCE>", "<KLEENE>"]]),
        rule("<KLEENE>", &[&["*"], &["EmptyString"]]),
        rule("<GIGA_PRECEDENCE>", &[&["(", "<LOW_PRECEDENCE>", ")"], &["<TERMINAL>"]]),
        rule("<TERMINAL>", &[&["EmptySet"], &["EmptyString"], &["C"]]),
    ])
}

#[test]
fn symbol_without_angle_bracket_is_terminal() {
    assert!(sym("x").is_terminal());
    assert!(sym("EmptyString").is_terminal());
    assert!(sym("a<b>").is_terminal());
    assert!(sym(">").is_terminal());
    assert!(sym("é<").is_terminal());
}

#[test]
fn symbol_with_angle_bracket_is_non_terminal() {
    assert!(!sym("<A>").is_terminal());
    assert!(!sym("<").is_terminal());
    assert!(!sym("<unclosed").is_terminal());
}

#[test]
fn symbol_keeps_its_text() {
    assert_eq!(sym("<A>").text(), "<A>");
    assert_eq!(sym("|").text(), "|");
}

#[test]
fn symbols_compare_by_text() {
    assert!(sym("<A>").same_text(&sym("<A>")));
    assert!(!sym("<A>").same_text(&sym("<B>")));
    assert!(!sym("<A>").same_text(&sym("<A")));
}

#[test]
fn empty_symbol_is_refused() {
    assert_eq!(Symbol::new("").unwrap_err(), GrammarError::InvalidSymbol);
}

#[test]
fn empty_production_is_refused() {
    assert_eq!(Production::new(Vec::new()).unwrap_err(), GrammarError::InvalidProduction);
}

#[test]
fn production_keeps_its_symbols() {
    let p = prod(&["<B>", "x", "y"]);
    assert_eq!(p.first_symbol().text(), "<B>");
    let texts: Vec<&str> = p.symbols().iter().map(|s| s.text()).collect();
    assert_eq!(texts, vec!["<B>", "x", "y"]);
}

#[test]
fn rule_with_terminal_left_side_is_refused() {
    assert_eq!(Rule::new("A", vec![prod(&["x"])]).unwrap_err(), GrammarError::InvalidRule);
}

#[test]
fn rule_without_alternatives_is_refused() {
    assert_eq!(Rule::new("<A>", Vec::new()).unwrap_err(), GrammarError::InvalidRule);
}

#[test]
fn rule_with_empty_left_side_is_refused_as_symbol() {
    assert_eq!(Rule::new("", vec![prod(&["x"])]).unwrap_err(), GrammarError::InvalidSymbol);
    assert_eq!(Rule::new("", Vec::new()).unwrap_err(), GrammarError::InvalidSymbol);
}

#[test]
fn rule_keeps_its_parts() {
    let r = rule("<A>", &[&["<B>", "x"], &["y"]]);
    assert_eq!(r.symbol().text(), "<A>");
    assert_eq!(r.derivations().len(), 2);
    assert_eq!(r.derivations()[0].first_symbol().text(), "<B>");
    assert_eq!(r.derivations()[1].first_symbol().text(), "y");
}

#[test]
fn direct_recursion_in_first_alternative() {
    assert!(rule("<A>", &[&["<A>", "x"], &["y"]]).has_direct_left_recursion());
}

#[test]
fn direct_recursion_in_last_alternative() {
    assert!(rule("<A>", &[&["y"], &["x"], &["<A>", "x"]]).has_direct_left_recursion());
}

#[test]
fn recursion_that_is_not_leftmost_is_not_direct() {
    assert!(!rule("<A>", &[&["x", "<A>"], &["y"]]).has_direct_left_recursion());
}

#[test]
fn self_referencing_rule_derives_itself() {
    let g = Grammar::new(vec![rule("<A>", &[&["<A>"]])]);
    assert_eq!(g.derives_to_symbol(&sym("<A>"), &sym("<A>")), Ok(true));
}

#[test]
fn indirect_recursion_is_found() {
    let g = Grammar::new(vec![rule("<A>", &[&["<B>", "x"]]), rule("<B>", &[&["<A>", "y"]])]);
    assert!(!g.rules()[0].has_direct_left_recursion());
    assert!(!g.rules()[1].has_direct_left_recursion());
    assert_eq!(g.has_indirect_left_recursion(), Ok(true));
    assert_eq!(g.has_left_recursion(), Ok(true));
}

#[test]
fn grammar_without_left_recursion() {
    let g = Grammar::new(vec![rule("<A>", &[&["x", "<B>"]]), rule("<B>", &[&["y"]])]);
    assert_eq!(g.has_indirect_left_recursion(), Ok(false));
    assert_eq!(g.has_left_recursion(), Ok(false));
}

#[test]
fn regex_grammar_has_no_left_recursion() {
    let g = regex_grammar();
    assert_eq!(g.has_indirect_left_recursion(), Ok(false));
    assert_eq!(g.has_left_recursion(), Ok(false));
}

#[test]
fn regex_grammar_levels_derive_downwards_only() {
    let g = regex_grammar();
    assert_eq!(g.derives_to_symbol(&sym("<REGEX>"), &sym("<TERMINAL>")), Ok(true));
    assert_eq!(g.derives_to_symbol(&sym("<REGEX>"), &sym("EmptySet")), Ok(true));
    assert_eq!(g.derives_to_symbol(&sym("<REGEX>"), &sym("(")), Ok(true));
    assert_eq!(g.derives_to_symbol(&sym("<TERMINAL>"), &sym("<REGEX>")), Ok(false));
    assert_eq!(g.derives_to_symbol(&sym("<REGEX>"), &sym("<KLEENE>")), Ok(false));
    assert_eq!(g.derives_to_symbol(&sym("<REGEX>"), &sym(")")), Ok(false));
    assert_eq!(g.derives_to_symbol(&sym("<CONCAT>"), &sym("<HIGH_PRECEDENCE>")), Ok(true));
}

#[test]
fn undefined_leftmost_symbol_is_reported() {
    let g = Grammar::new(vec![rule("<A>", &[&["<B>", "x"]])]);
    assert_eq!(g.derives_to_symbol(&sym("<A>"), &sym("<A>")), Err(GrammarError::UndefinedNonTerminal));
    assert_eq!(g.has_indirect_left_recursion(), Err(GrammarError::UndefinedNonTerminal));
    assert_eq!(g.has_left_recursion(), Err(GrammarError::UndefinedNonTerminal));
}

#[test]
fn undefined_start_is_reported() {
    let g = Grammar::new(vec![rule("<A>", &[&["x"]])]);
    assert_eq!(g.derives_to_symbol(&sym("<B>"), &sym("x")), Err(GrammarError::UndefinedNonTerminal));
    assert_eq!(g.derives_to_symbol(&sym("<B>"), &sym("<B>")), Err(GrammarError::UndefinedNonTerminal));
    let empty = Grammar::new(Vec::new());
    assert_eq!(empty.derives_to_symbol(&sym("<A>"), &sym("x")), Err(GrammarError::UndefinedNonTerminal));
}

#[test]
fn undefined_symbol_deep_in_the_chain_is_reported() {
    let g = Grammar::new(vec![
        rule("<A>", &[&["x"], &["<B>"]]),
        rule("<B>", &[&["<C>", "y"]]),
    ]);
    assert_eq!(g.derives_to_symbol(&sym("<A>"), &sym("z")), Err(GrammarError::UndefinedNonTerminal));
    assert_eq!(g.has_left_recursion(), Err(GrammarError::UndefinedNonTerminal));
}

#[test]
fn reached_target_wins_over_undefined_symbol() {
    let g = Grammar::new(vec![rule("<A>", &[&["<U>"], &["x"]])]);
    assert_eq!(g.derives_to_symbol(&sym("<A>"), &sym("x")), Ok(true));
    assert_eq!(g.derives_to_symbol(&sym("<A>"), &sym("<U>")), Ok(true));
    assert_eq!(g.derives_to_symbol(&sym("<A>"), &sym("y")), Err(GrammarError::UndefinedNonTerminal));
}

#[test]
fn direct_recursion_settles_before_any_lookup() {
    let g = Grammar::new(vec![rule("<A>", &[&["<U>"], &["<A>", "x"]])]);
    assert_eq!(g.has_left_recursion(), Ok(true));
}

#[test]
fn terminal_start_derives_nothing() {
    let g = Grammar::new(vec![rule("<A>", &[&["x"]])]);
    assert_eq!(g.derives_to_symbol(&sym("x"), &sym("x")), Ok(false));
    assert_eq!(g.derives_to_symbol(&sym("y"), &sym("<A>")), Ok(false));
}

#[test]
fn unused_non_leftmost_symbols_are_ignored() {
    let g = Grammar::new(vec![rule("<A>", &[&["x", "<A>"], &["y", "<U>"]])]);
    assert_eq!(g.derives_to_symbol(&sym("<A>"), &sym("<A>")), Ok(false));
    assert_eq!(g.derives_to_symbol(&sym("<A>"), &sym("<U>")), Ok(false));
    assert_eq!(g.has_left_recursion(), Ok(false));
}

#[test]
fn cycle_beside_the_target_ends_with_no() {
    let g = Grammar::new(vec![
        rule("<S>", &[&["<A>"]]),
        rule("<A>", &[&["<B>"]]),
        rule("<B>", &[&["<A>"], &["b"]]),
    ]);
    assert_eq!(g.derives_to_symbol(&sym("<S>"), &sym("<S>")), Ok(false));
    assert_eq!(g.derives_to_symbol(&sym("<S>"), &sym("z")), Ok(false));
    assert_eq!(g.derives_to_symbol(&sym("<S>"), &sym("b")), Ok(true));
    assert_eq!(g.derives_to_symbol(&sym("<A>"), &sym("<A>")), Ok(true));
    assert_eq!(g.has_indirect_left_recursion(), Ok(true));
}

#[test]
fn long_cycle_is_found() {
    let g = Grammar::new(vec![
        rule("<A>", &[&["a"], &["<B>", "x"]]),
        rule("<B>", &[&["b"], &["<C>", "x"]]),
        rule("<C>", &[&["c"], &["<D>", "x"]]),
        rule("<D>", &[&["d"], &["<A>", "x"]]),
    ]);
    assert_eq!(g.derives_to_symbol(&sym("<C>"), &sym("<B>")), Ok(true));
    assert_eq!(g.derives_to_symbol(&sym("<C>"), &sym("<C>")), Ok(true));
    assert_eq!(g.derives_to_symbol(&sym("<C>"), &sym("x")), Ok(false));
    assert_eq!(g.has_left_recursion(), Ok(true));
}

#[test]
fn helper_counts_the_start_itself() {
    let g = Grammar::new(vec![rule("<A>", &[&["x", "<A>"]])]);
    assert_eq!(g.derives_to_symbol_helper(&sym("<A>"), &sym("<A>")), Ok(true));
    assert_eq!(g.derives_to_symbol_helper(&sym("y"), &sym("y")), Ok(true));
    assert_eq!(g.derives_to_symbol_helper(&sym("<U>"), &sym("<U>")), Ok(true));
    assert_eq!(g.derives_to_symbol_helper(&sym("<A>"), &sym("x")), Ok(true));
    assert_eq!(g.derives_to_symbol_helper(&sym("<A>"), &sym("y")), Ok(false));
    assert_eq!(g.derives_to_symbol_helper(&sym("<U>"), &sym("y")), Err(GrammarError::UndefinedNonTerminal));
}

#[test]
fn lookup_finds_the_first_rule_of_a_name() {
    let g = Grammar::new(vec![
        rule("<A>", &[&["x"]]),
        rule("<B>", &[&["y"]]),
        rule("<A>", &[&["<A>"]]),
    ]);
    assert_eq!(g.find_rule_index(&sym("<A>")), Some(0));
    assert_eq!(g.find_rule_index(&sym("<B>")), Some(1));
    assert_eq!(g.find_rule_index(&sym("<C>")), None);
    assert_eq!(g.find_rule(&sym("<B>")).unwrap().derivations()[0].first_symbol().text(), "y");
    assert!(g.find_rule(&sym("<C>")).is_none());
    assert_eq!(g.require_rule(&sym("<A>")).unwrap().derivations()[0].first_symbol().text(), "x");
    assert_eq!(g.require_rule(&sym("<C>")).unwrap_err(), GrammarError::UndefinedNonTerminal);
    assert_eq!(g.derives_to_symbol(&sym("<A>"), &sym("<A>")), Ok(false));
    assert_eq!(g.has_indirect_left_recursion(), Ok(false));
    assert_eq!(g.has_left_recursion(), Ok(true));
}

#[test]
fn empty_grammar_has_no_left_recursion() {
    let g = Grammar::new(Vec::new());
    assert_eq!(g.rules().len(), 0);
    assert_eq!(g.has_indirect_left_recursion(), Ok(false));
    assert_eq!(g.has_left_recursion(), Ok(false));
    assert_eq!(g.display(), "");
    assert_eq!(g.widest_symbol(), 0);
}

#[test]
fn production_is_shown_without_separators() {
    assert_eq!(prod(&["<B>", "x", "y"]).display(), "<B>xy");
    assert_eq!(prod(&["|"]).display(), "|");
}

#[test]
fn alternatives_are_joined_by_or() {
    assert_eq!(rule("<A>", &[&["<B>", "x"], &["y"], &["z"]]).display_derivations(), "<B>x or y or z");
    assert_eq!(rule("<A>", &[&["y"]]).display_derivations(), "y");
}

#[test]
fn grammar_is_shown_in_aligned_lines() {
    let g = Grammar::new(vec![
        rule("<A>", &[&["<B>", "x"], &["y"]]),
        rule("<LONG>", &[&["z"]]),
        rule("<é>", &[&["<A>"]]),
    ]);
    assert_eq!(g.widest_symbol(), 6);
    assert_eq!(g.display(), "<A>    := <B>x or y\n<LONG> := z\n<é>   := <A>\n");
}

#[test]
fn regex_grammar_is_shown() {
    let text = regex_grammar().display();
    let lines: Vec<&str> = text.lines().collect();
    assert_eq!(lines.len(), 9);
    assert_eq!(lines[0], "<REGEX>           := <LOW_PRECEDENCE>");
    assert_eq!(lines[2], "<ALTERNAT>        := |<LOW_PRECEDENCE> or EmptyString");
    assert_eq!(lines[7], "<GIGA_PRECEDENCE> := (<LOW_PRECEDENCE>) or <TERMINAL>");
    assert_eq!(lines[8], "<TERMINAL>        := EmptySet or EmptyString or C");
    assert!(text.ends_with('\n'));
}

#[test]
fn direct_recursion_is_a_cycle_of_one_step() {
    let g = Grammar::new(vec![rule("<A>", &[&["y"], &["<A>", "x"]]), rule("<B>", &[&["<A>"]])]);
    assert!(g.rules()[0].has_direct_left_recursion());
    assert_eq!(g.derives_to_symbol(&sym("<A>"), &sym("<A>")), Ok(true));
    assert_eq!(g.has_indirect_left_recursion(), Ok(true));
    assert_eq!(g.has_left_recursion(), g.has_indirect_left_recursion());
}

#[test]
fn grammar_led_by_terminals_is_free_of_left_recursion() {
    let g = Grammar::new(vec![
        rule("<A>", &[&["a", "<A>"], &["b", "<B>"]]),
        rule("<B>", &[&["c", "<U>"], &["d", "<B>"]]),
    ]);
    assert_eq!(g.has_left_recursion(), Ok(false));
}

#[test]
fn derivation_goes_through_a_first_symbol() {
    let g = Grammar::new(vec![
        rule("<A>", &[&["a"], &["<B>", "x"]]),
        rule("<B>", &[&["<C>"]]),
        rule("<C>", &[&["c"]]),
    ]);
    assert_eq!(g.derives_to_symbol(&sym("<A>"), &sym("<B>")), Ok(true));
    assert_eq!(g.derives_to_symbol(&sym("<B>"), &sym("c")), Ok(true));
    assert_eq!(g.derives_to_symbol(&sym("<A>"), &sym("c")), Ok(true));
    assert_eq!(g.derives_to_symbol(&sym("<C>"), &sym("<B>")), Ok(false));
    assert_eq!(g.derives_to_symbol(&sym("<A>"), &sym("x")), Ok(false));
}
