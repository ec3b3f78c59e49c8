use biome_registry::analysis::{AnalysisFilter, RuleCategories, RuleCategory, RuleFilter, SyntaxKindSet};
use biome_registry::keys::RuleKey;
use biome_registry::registry::{MetadataRegistry, Phases};
use biome_registry::rule_registry::{
    MatchQueryParams, QueryKey, RegistryRule, RuleDescriptor, RuleOutcome, RuleRegistry, RuleSignalData,
    RuleState, RuleSuppressions, SignalEntry, SyntaxNodeRef, SYNTAX_NODE_TYPE,
};
use biome_registry::text::TextRange;

fn kinds(list: &[u16]) -> SyntaxKindSet {
    let mut set = SyntaxKindSet::new();
    for k in list {
        set.insert(*k);
    }
    set
}

fn syntax_rule(group: &'static str, name: &'static str, list: &[u16]) -> RuleDescriptor {
    RuleDescriptor {
        key: RuleKey::new(group, name),
        category: RuleCategory::Lint,
        phase: Phases::Syntax,
        query: QueryKey::Syntax(kinds(list)),
        visitors: vec![(Phases::Syntax, 100)],
    }
}

fn node_params(id: u64, kind: u16) -> MatchQueryParams {
    MatchQueryParams {
        phase: Phases::Syntax,
        query_type: SYNTAX_NODE_TYPE,
        node: Some(SyntaxNodeRef { id, kind }),
        range: TextRange::new(10, 20),
    }
}

fn signal(range: Option<TextRange>, suppressed: Vec<u64>, instances: Vec<&str>) -> RuleSignalData {
    RuleSignalData {
        text_range: range,
        suppressed_nodes: suppressed,
        instances: instances.into_iter().map(|s| s.to_string()).collect(),
    }
}

#[test]
fn syntax_kind_set_is_sorted_and_unique() {
    let set = kinds(&[5, 2, 9, 2]);
    assert_eq!(set.len(), 3);
    assert_eq!(set.get(0), 2);
    assert_eq!(set.get(1), 5);
    assert_eq!(set.get(2), 9);
}

#[test]
fn rules_are_kept_by_kind_in_order() {
    let mut builder = RuleRegistry::builder(AnalysisFilter::all());
    builder.record_rule(&syntax_rule("style", "a", &[3, 5]));
    builder.record_rule(&syntax_rule("style", "b", &[5]));
    let (registry, visitors, categories) = builder.build();
    assert!(visitors.contains(&(0, 100)));
    assert_eq!(visitors.len(), 1);
    assert!(categories.contains(RuleCategory::Lint));

    let on3 = registry.rules_for_query(&node_params(1, 3));
    assert_eq!(on3, vec![RegistryRule::new(RuleKey::new("style", "a"), RuleCategory::Lint, SYNTAX_NODE_TYPE, 0)]);
    let on5 = registry.rules_for_query(&node_params(1, 5));
    assert_eq!(
        on5,
        vec![
            RegistryRule::new(RuleKey::new("style", "a"), RuleCategory::Lint, SYNTAX_NODE_TYPE, 0),
            RegistryRule::new(RuleKey::new("style", "b"), RuleCategory::Lint, SYNTAX_NODE_TYPE, 1),
        ]
    );
    assert!(registry.rules_for_query(&node_params(1, 4)).is_empty());
    assert!(registry.rules_for_query(&node_params(1, 200)).is_empty());
}

#[test]
fn type_rules_and_phases_are_apart() {
    let mut builder = RuleRegistry::builder(AnalysisFilter::all());
    builder.record_rule(&RuleDescriptor {
        key: RuleKey::new("correctness", "semantic"),
        category: RuleCategory::Lint,
        phase: Phases::Semantic,
        query: QueryKey::TypeId(42),
        visitors: vec![(Phases::Semantic, 7), (Phases::Syntax, 100)],
    });
    let (registry, visitors, _) = builder.build();
    assert!(visitors.contains(&(1, 7)));
    assert!(visitors.contains(&(0, 100)));
    let semantic = MatchQueryParams { phase: Phases::Semantic, query_type: 42, node: None, range: TextRange::new(0, 1) };
    assert_eq!(
        registry.rules_for_query(&semantic),
        vec![RegistryRule::new(RuleKey::new("correctness", "semantic"), RuleCategory::Lint, 42, 0)]
    );
    let syntax = MatchQueryParams { phase: Phases::Syntax, query_type: 42, node: None, range: TextRange::new(0, 1) };
    assert!(registry.rules_for_query(&syntax).is_empty());
}

#[test]
fn filtered_rules_are_not_recorded() {
    let filter = AnalysisFilter {
        categories: RuleCategories { syntax: false, lint: true, action: false, transformation: false },
        enabled_rules: None,
        disabled_rules: vec![RuleFilter::Rule("style", "b")],
    };
    let mut builder = RuleRegistry::builder(filter);
    builder.record_rule(&syntax_rule("style", "a", &[1]));
    builder.record_rule(&syntax_rule("style", "b", &[1]));
    let mut action = syntax_rule("style", "c", &[1]);
    action.category = RuleCategory::Action;
    builder.record_rule(&action);
    let (registry, _, categories) = builder.build();
    assert!(!categories.contains(RuleCategory::Action));
    assert_eq!(
        registry.rules_for_query(&node_params(9, 1)),
        vec![RegistryRule::new(RuleKey::new("style", "a"), RuleCategory::Lint, SYNTAX_NODE_TYPE, 0)]
    );
}

#[test]
fn enabled_filters_select_rules() {
    let filter = AnalysisFilter {
        categories: RuleCategories::all(),
        enabled_rules: Some(vec![RuleFilter::Group("nursery")]),
        disabled_rules: vec![],
    };
    assert!(filter.match_rule(&RuleKey::new("nursery", "x"), RuleCategory::Lint));
    assert!(!filter.match_rule(&RuleKey::new("style", "x"), RuleCategory::Lint));
    let none = AnalysisFilter { categories: RuleCategories::all(), enabled_rules: Some(vec![]), disabled_rules: vec![] };
    assert!(!none.match_rule(&RuleKey::new("nursery", "x"), RuleCategory::Lint));
}

#[test]
fn match_query_queues_signals_in_rule_order() {
    let mut builder = RuleRegistry::builder(AnalysisFilter::all());
    builder.record_rule(&syntax_rule("g", "first", &[2]));
    builder.record_rule(&syntax_rule("g", "second", &[2]));
    let (mut registry, _, _) = builder.build();
    let params = node_params(1, 2);
    let outcomes = vec![
        RuleOutcome::Signals(vec![signal(None, vec![], vec!["x"]), signal(Some(TextRange::new(12, 13)), vec![], vec![])]),
        RuleOutcome::Signals(vec![signal(None, vec![], vec![])]),
    ];
    let mut queue: Vec<SignalEntry> = Vec::new();
    registry.match_query(&params, outcomes, &mut queue);
    assert_eq!(queue.len(), 3);
    assert_eq!(queue[0].rule, RuleKey::new("g", "first"));
    assert_eq!(queue[0].text_range, TextRange::new(10, 20));
    assert_eq!(queue[0].instances, vec!["x".to_string()]);
    assert_eq!(queue[1].rule, RuleKey::new("g", "first"));
    assert_eq!(queue[1].text_range, TextRange::new(12, 13));
    assert_eq!(queue[2].rule, RuleKey::new("g", "second"));
    assert_eq!(queue[2].category, RuleCategory::Lint);
}

#[test]
fn context_errors_are_dropped() {
    let mut builder = RuleRegistry::builder(AnalysisFilter::all());
    builder.record_rule(&syntax_rule("g", "broken", &[2]));
    builder.record_rule(&syntax_rule("g", "fine", &[2]));
    let (mut registry, _, _) = builder.build();
    let outcomes = vec![RuleOutcome::ContextError, RuleOutcome::Signals(vec![signal(None, vec![], vec![])])];
    let mut queue = Vec::new();
    registry.match_query(&node_params(3, 2), outcomes, &mut queue);
    assert_eq!(queue.len(), 1);
    assert_eq!(queue[0].rule, RuleKey::new("g", "fine"));
}

#[test]
fn suppressed_nodes_are_skipped_by_the_rule() {
    let mut builder = RuleRegistry::builder(AnalysisFilter::all());
    builder.record_rule(&syntax_rule("g", "suppressor", &[2]));
    builder.record_rule(&syntax_rule("g", "other", &[2]));
    let (mut registry, _, _) = builder.build();
    let mut queue = Vec::new();
    // The first rule suppresses node 5 while matching node 4.
    registry.match_query(
        &node_params(4, 2),
        vec![RuleOutcome::Signals(vec![signal(None, vec![5], vec![])]), RuleOutcome::Signals(vec![])],
        &mut queue,
    );
    assert_eq!(queue.len(), 1);
    // On node 5 the first rule is skipped; the other still runs.
    registry.match_query(
        &node_params(5, 2),
        vec![
            RuleOutcome::Signals(vec![signal(None, vec![], vec![])]),
            RuleOutcome::Signals(vec![signal(None, vec![], vec![])]),
        ],
        &mut queue,
    );
    assert_eq!(queue.len(), 2);
    assert_eq!(queue[1].rule, RuleKey::new("g", "other"));
}

#[test]
fn rule_state_run_reports_context_errors() {
    let mut state = RuleState::new();
    let rule = RegistryRule::new(RuleKey::new("g", "r"), RuleCategory::Syntax, SYNTAX_NODE_TYPE, 0);
    let mut queue = Vec::new();
    assert!(state.run(rule, &node_params(1, 1), RuleOutcome::ContextError, &mut queue).is_err());
    assert!(state.run(rule, &node_params(1, 1), RuleOutcome::Signals(vec![]), &mut queue).is_ok());
    assert!(queue.is_empty());
}

#[test]
fn suppressions_remember_nodes() {
    let mut s = RuleSuppressions::new();
    assert!(!s.is_suppressed(3));
    s.suppress_node(3);
    s.suppress_node(3);
    assert!(s.is_suppressed(3));
    assert!(!s.is_suppressed(4));
}

#[test]
fn metadata_registry_records_descriptors() {
    let mut registry = MetadataRegistry::new();
    registry.record_rule(&syntax_rule("style", "useConst", &[1]));
    assert_eq!(registry.find_rule("style", "useConst"), Some(RuleKey::new("style", "useConst")));
}

#[test]
fn distinct_registrations_get_distinct_states() {
    let mut builder = RuleRegistry::builder(AnalysisFilter::all());
    builder.record_rule(&syntax_rule("g", "a", &[1, 2]));
    builder.record_rule(&syntax_rule("g", "a", &[2]));
    let (registry, _, _) = builder.build();
    let rules = registry.rules_for_query(&node_params(1, 2));
    assert_eq!(rules.len(), 2);
    assert_ne!(rules[0].state_index, rules[1].state_index);
    assert_eq!(registry.rules_for_query(&node_params(1, 1))[0], rules[0]);
}

#[test]
fn suppressed_node_is_skipped_whatever_the_rule_type() {
    let mut state = RuleState::new();
    let rule = RegistryRule::new(RuleKey::new("g", "r"), RuleCategory::Lint, SYNTAX_NODE_TYPE, 0);
    let mut queue = Vec::new();
    state
        .run(rule, &node_params(1, 1), RuleOutcome::Signals(vec![signal(None, vec![8], vec![])]), &mut queue)
        .unwrap();
    assert_eq!(queue.len(), 1);
    let other = RegistryRule::new(RuleKey::new("g", "r"), RuleCategory::Lint, 42, 0);
    let r = state.run(other, &node_params(8, 1), RuleOutcome::ContextError, &mut queue);
    assert!(r.is_ok());
    assert_eq!(queue.len(), 1);
}
