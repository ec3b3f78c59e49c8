use biome_registry::keys::{GroupKey, RuleKey};
use biome_registry::order::{compare_str, Order};
use biome_registry::registry::{MetadataRegistry, Phase, Phases, RegistryRuleMetadata, RuleMetadata};

#[test]
fn compare_str_orders_bytes() {
    assert_eq!(compare_str("a", "b"), Order::Less);
    assert_eq!(compare_str("b", "a"), Order::Greater);
    assert_eq!(compare_str("ab", "a"), Order::Greater);
    assert_eq!(compare_str("", "a"), Order::Less);
    assert_eq!(compare_str("lint", "lint"), Order::Equal);
    assert_eq!(compare_str("Z", "a"), Order::Less);
}

#[test]
fn empty_registry_knows_nothing() {
    let registry = MetadataRegistry::new();
    assert_eq!(registry.find_group("style"), None);
    assert_eq!(registry.find_rule("style", "useConst"), None);
}

#[test]
fn recorded_rule_is_found_with_its_group() {
    let mut registry = MetadataRegistry::default();
    registry.insert_rule("style", "useConst");
    registry.insert_rule("correctness", "noUnusedVariables");
    assert_eq!(registry.find_rule("style", "useConst"), Some(RuleKey::new("style", "useConst")));
    assert_eq!(
        registry.find_rule("correctness", "noUnusedVariables"),
        Some(RuleKey::new("correctness", "noUnusedVariables"))
    );
    assert_eq!(registry.find_group("style"), Some(GroupKey::new("style")));
    assert_eq!(registry.find_group("correctness"), Some(GroupKey::new("correctness")));
}

#[test]
fn unknown_names_are_not_found() {
    let mut registry = MetadataRegistry::new();
    registry.insert_rule("style", "useConst");
    assert_eq!(registry.find_group("styles"), None);
    assert_eq!(registry.find_group("styl"), None);
    assert_eq!(registry.find_rule("style", "useLet"), None);
    assert_eq!(registry.find_rule("suspicious", "useConst"), None);
}

#[test]
fn recording_twice_keeps_one_pair() {
    let mut registry = MetadataRegistry::new();
    registry.insert_rule("a", "x");
    registry.insert_rule("a", "x");
    registry.insert_rule("a", "w");
    registry.insert_rule("b", "a");
    assert_eq!(registry.find_rule("a", "x"), Some(RuleKey::new("a", "x")));
    assert_eq!(registry.find_rule("a", "w"), Some(RuleKey::new("a", "w")));
    assert_eq!(registry.find_rule("b", "a"), Some(RuleKey::new("b", "a")));
    assert_eq!(registry.find_rule("b", "x"), None);
}

#[test]
fn group_key_names_the_group() {
    let mut registry = MetadataRegistry::new();
    registry.insert_rule("nursery", "noFoo");
    let key = registry.find_group("nursery").unwrap();
    assert_eq!(key.group(), "nursery");
    let rule = registry.find_rule("nursery", "noFoo").unwrap();
    assert_eq!(rule.group(), "nursery");
    assert_eq!(rule.rule_name(), "noFoo");
}

#[test]
fn metadata_entry_gives_its_rule_key() {
    let entry = RegistryRuleMetadata { group: "a11y", rule: RuleMetadata { name: "useAltText" } };
    assert_eq!(entry.to_rule_key(), RuleKey::new("a11y", "useAltText"));
}

#[test]
fn phases_run_syntax_first() {
    assert_eq!(Phases::Syntax.index(), 0);
    assert_eq!(Phases::Semantic.index(), 1);
    assert!(Phases::Syntax < Phases::Semantic);
    assert_eq!(<() as Phase>::phase(), Phases::Syntax);
}

#[test]
fn same_rule_compares_names() {
    let a = RuleKey::new("g", "r");
    assert!(a.same_rule(&RuleKey::new("g", "r")));
    assert!(!a.same_rule(&RuleKey::new("g", "s")));
    assert!(!a.same_rule(&RuleKey::new("h", "r")));
}
