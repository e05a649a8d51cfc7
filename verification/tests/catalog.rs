use sorry::strategies::{available_rules, available_strategies, make_rules, make_strategy};
use sorry::text::{has_prefix, str_eq};
use sorry::{Strategy, StrategyKind};

#[test]
fn strategies_are_found_by_name() {
    for name in available_strategies() {
        let k = make_strategy(&name).expect("listed strategy");
        assert_eq!(k.name(), name);
    }
    assert_eq!(make_strategy("Not Sorry"), Ok(StrategyKind::NotSorry));
    assert_eq!(
        make_strategy("Cheater"),
        Err("unknown strategy: Cheater".to_string())
    );
    assert_eq!(available_strategies().len(), 8);
}

#[test]
fn rules_are_found_by_name() {
    assert_eq!(available_rules(), vec!["Standard".to_string()]);
    assert_eq!(make_rules("Standard").unwrap().name(), "Standard");
    assert_eq!(make_rules("").unwrap().name(), "Standard");
    assert_eq!(
        make_rules("PlayOut").err(),
        Some("unknown rules variant: PlayOut".to_string())
    );
}

#[test]
fn text_helpers() {
    assert!(str_eq("abc", "abc"));
    assert!(!str_eq("abc", "abd"));
    assert!(!str_eq("abc", "ab"));
    assert!(has_prefix("Bot:Greedy", "Bot:"));
    assert!(!has_prefix("Bo", "Bot:"));
    assert!(!has_prefix("Box:Greedy", "Bot:"));
}

#[test]
fn strategies_describe_themselves() {
    let d = StrategyKind::Random.describe();
    assert_eq!(d.name, "Random");
    assert_eq!(d.summary, "Picks a uniformly random legal move.");
    assert_eq!(d.complexity, sorry::Complexity::Trivial);
    let d = StrategyKind::Loser.describe();
    assert_eq!(d.name, "Loser");
    assert_eq!(d.summary, "Deliberately plays to lose — avoids bumps and maximizes own distance-to-home.");
    assert_eq!(d.complexity, sorry::Complexity::Medium);
    for name in available_strategies() {
        let k = make_strategy(&name).expect("listed strategy");
        assert_eq!(k.describe().name, name);
    }
}
