//! The registry of the rules an analysis runs, kept by phase and by the kind
//! of query they match, with the state of each rule.
use vstd::prelude::*;
use rustc_hash::{FxHashMap, FxHashSet};
use std::collections::BTreeSet;
use crate::analysis::{AnalysisFilter, RuleCategories, RuleCategory, SyntaxKindSet};
use crate::fx::{fx_map_get, fx_map_insert, fx_map_remove, fx_set_contains, fx_set_insert};
use crate::keys::RuleKey;
use crate::registry::{MetadataRegistry, Phases};
use crate::seqs::lemma_push_to_set;
use crate::text::TextRange;

verus! {

/// The query type of syntax nodes: the rules that query syntax nodes are kept
/// by the kind of node they match.
pub const SYNTAX_NODE_TYPE: u64 = 0;

/// What a rule's query matches: syntax nodes of some kinds, or the values of
/// one other query type.
pub enum QueryKey {
    Syntax(SyntaxKindSet),
    TypeId(u64),
}

/// A rule, as the registry records it.
pub struct RuleDescriptor {
    pub key: RuleKey,
    pub category: RuleCategory,
    pub phase: Phases,
    pub query: QueryKey,
    /// The visitors that its query needs, each as (phase, visitor type).
    pub visitors: Vec<(Phases, u64)>,
}

/// A handle to a registered rule: which rule, and where its state is kept.
#[derive(Clone, Copy, Debug, PartialEq, Eq)]
pub struct RegistryRule {
    pub rule: RuleKey,
    pub category: RuleCategory,
    /// The query type of the values the rule matches.
    pub query_type: u64,
    pub state_index: usize,
}

/// The rules that match syntax nodes of one kind.
pub struct SyntaxKindRules {
    rules: Vec<RegistryRule>,
}

impl View for SyntaxKindRules {
    type V = Seq<RegistryRule>;

    closed spec fn view(&self) -> Seq<RegistryRule> {
        self.rules@
    }
}

impl SyntaxKindRules {
    pub fn new() -> (r: SyntaxKindRules)
        ensures
            r@ == Seq::<RegistryRule>::empty(),
    {
        SyntaxKindRules { rules: Vec::new() }
    }
}

/// The rules of one query type: by syntax kind for syntax nodes, else a list.
#[allow(inconsistent_fields)]
pub enum TypeRules {
    SyntaxRules { rules: Vec<SyntaxKindRules> },
    TypeRules { rules: Vec<RegistryRule> },
}

/// What a `TypeRules` holds.
pub enum TypeRulesView {
    SyntaxRules(Seq<Seq<RegistryRule>>),
    TypeRules(Seq<RegistryRule>),
}

impl View for TypeRules {
    type V = TypeRulesView;

    open spec fn view(&self) -> TypeRulesView {
        match self {
            TypeRules::SyntaxRules { rules } => TypeRulesView::SyntaxRules(
                rules@.map_values(|k: SyntaxKindRules| k@),
            ),
            TypeRules::TypeRules { rules } => TypeRulesView::TypeRules(rules@),
        }
    }
}

/// The set of nodes a rule has suppressed from matching its query.
pub struct RuleSuppressions {
    inner: FxHashSet<u64>,
}

impl View for RuleSuppressions {
    type V = Set<u64>;

    closed spec fn view(&self) -> Set<u64> {
        self.inner@
    }
}

impl RuleSuppressions {
    /// No node is suppressed.
    pub fn new() -> (r: RuleSuppressions)
        ensures
            r@ == Set::<u64>::empty(),
    {
        RuleSuppressions { inner: FxHashSet::default() }
    }

    /// Suppress query matching for the given node.
    pub fn suppress_node(&mut self, node: u64)
        ensures
            final(self)@ == old(self)@.insert(node),
    {
        fx_set_insert(&mut self.inner, node);
    }

    /// Whether the node is suppressed.
    pub fn is_suppressed(&self, node: u64) -> (r: bool)
        ensures
            r == self@.contains(node),
    {
        fx_set_contains(&self.inner, node)
    }
}

/// The state of one registered rule.
pub struct RuleState {
    suppressions: RuleSuppressions,
}

impl View for RuleState {
    type V = Set<u64>;

    /// The nodes the rule has suppressed.
    closed spec fn view(&self) -> Set<u64> {
        self.suppressions@
    }
}

impl RuleState {
    pub fn new() -> (r: RuleState)
        ensures
            r@ == Set::<u64>::empty(),
    {
        RuleState { suppressions: RuleSuppressions::new() }
    }
}

/// What the rules of one phase hold: the rules of each query type, and the
/// suppressed nodes of each rule state.
pub struct PhaseRulesView {
    pub type_rules: Map<u64, TypeRulesView>,
    pub states: Seq<Set<u64>>,
}

/// The rules of one phase.
pub struct PhaseRules {
    type_rules: FxHashMap<u64, TypeRules>,
    rule_states: Vec<RuleState>,
}

impl View for PhaseRules {
    type V = PhaseRulesView;

    closed spec fn view(&self) -> PhaseRulesView {
        PhaseRulesView {
            type_rules: self.type_rules@.map_values(|t: TypeRules| t@),
            states: self.rule_states@.map_values(|s: RuleState| s@),
        }
    }
}

/// Every rule of the list keeps its state among the `n` states and matches
/// values of the query type `query_type`.
pub open spec fn handles_ok(rules: Seq<RegistryRule>, n: int, query_type: u64) -> bool {
    forall|i: int|
        0 <= i < rules.len() ==> (#[trigger] rules[i]).state_index < n && rules[i].query_type
            == query_type
}

/// Syntax nodes are kept by kind, other query types in lists; each rule's
/// state exists, and each rule is kept under the query type it matches.
pub open spec fn tables_wf(v: PhaseRulesView) -> bool {
    forall|k: u64|
        #[trigger] v.type_rules.contains_key(k) ==> match v.type_rules[k] {
            TypeRulesView::SyntaxRules(by_kind) => k == SYNTAX_NODE_TYPE && forall|i: int|
                0 <= i < by_kind.len() ==> handles_ok(
                    #[trigger] by_kind[i],
                    v.states.len() as int,
                    SYNTAX_NODE_TYPE,
                ),
            TypeRulesView::TypeRules(list) => k != SYNTAX_NODE_TYPE && handles_ok(
                list,
                v.states.len() as int,
                k,
            ),
        }
}

/// Whether the rule handle `h` is kept in the table `t`.
pub open spec fn in_type_rules(t: TypeRulesView, h: RegistryRule) -> bool {
    match t {
        TypeRulesView::SyntaxRules(by_kind) => exists|i: int|
            0 <= i < by_kind.len() && (#[trigger] by_kind[i]).contains(h),
        TypeRulesView::TypeRules(list) => list.contains(h),
    }
}

/// Whether the rule handle `h` is kept among the rules of the phase.
pub open spec fn stored(v: PhaseRulesView, h: RegistryRule) -> bool {
    exists|k: u64| #[trigger] v.type_rules.contains_key(k) && in_type_rules(v.type_rules[k], h)
}

/// Rules from distinct registrations keep their state apart: two handles
/// with the same state are the same handle.
pub open spec fn distinct_states(v: PhaseRulesView) -> bool {
    forall|h1: RegistryRule, h2: RegistryRule|
        #[trigger] stored(v, h1) && #[trigger] stored(v, h2) && h1.state_index == h2.state_index
            ==> h1 == h2
}

/// The rules of a phase are well kept.
pub open spec fn phase_wf(v: PhaseRulesView) -> bool {
    &&& tables_wf(v)
    &&& distinct_states(v)
}

/// The rules stay well kept when only what the states hold changes.
pub proof fn lemma_phase_wf_same_tables(v: PhaseRulesView, w: PhaseRulesView)
    requires
        phase_wf(v),
        w.type_rules == v.type_rules,
        w.states.len() == v.states.len(),
    ensures
        phase_wf(w),
{
    assert forall|k: u64| #[trigger] w.type_rules.contains_key(k) implies match w.type_rules[k] {
        TypeRulesView::SyntaxRules(by_kind) => k == SYNTAX_NODE_TYPE && forall|i: int|
            0 <= i < by_kind.len() ==> handles_ok(
                #[trigger] by_kind[i],
                w.states.len() as int,
                SYNTAX_NODE_TYPE,
            ),
        TypeRulesView::TypeRules(list) => k != SYNTAX_NODE_TYPE && handles_ok(
            list,
            w.states.len() as int,
            k,
        ),
    } by {
        assert(v.type_rules.contains_key(k));
    }
    assert forall|h1: RegistryRule, h2: RegistryRule|
        #[trigger] stored(w, h1) && #[trigger] stored(w, h2) && h1.state_index
            == h2.state_index implies h1 == h2 by {
        assert(stored(v, h1));
        assert(stored(v, h2));
    }
}

/// A registration takes a state that no kept rule has: rules from distinct
/// registrations never share a state.
pub proof fn lemma_registration_state_is_fresh(v: PhaseRulesView, r: RegistryRule, h: RegistryRule)
    requires
        phase_wf(v),
        r.state_index == v.states.len(),
        stored(v, h),
    ensures
        h.state_index != r.state_index,
{
    lemma_stored_state_exists(v, h);
}

/// A kept handle's state exists.
pub proof fn lemma_stored_state_exists(v: PhaseRulesView, h: RegistryRule)
    requires
        tables_wf(v),
        stored(v, h),
    ensures
        h.state_index < v.states.len(),
{
    let k = choose|k: u64| #[trigger] v.type_rules.contains_key(k) && in_type_rules(v.type_rules[k], h);
    match v.type_rules[k] {
        TypeRulesView::SyntaxRules(by_kind) => {
            let i = choose|i: int| 0 <= i < by_kind.len() && (#[trigger] by_kind[i]).contains(h);
            assert(handles_ok(by_kind[i], v.states.len() as int, SYNTAX_NODE_TYPE));
            let j = choose|j: int| 0 <= j < by_kind[i].len() && by_kind[i][j] == h;
        },
        TypeRulesView::TypeRules(list) => {
            let j = choose|j: int| 0 <= j < list.len() && list[j] == h;
        },
    }
}

/// A handle kept after a registration was kept before it or is the new one.
pub proof fn lemma_stored_after_registration(
    v: PhaseRulesView,
    query: &QueryKey,
    r: RegistryRule,
    h: RegistryRule,
)
    requires
        stored(registered(v, query, r), h),
    ensures
        stored(v, h) || h == r,
{
    let w = registered(v, query, r);
    let k = choose|k: u64| #[trigger] w.type_rules.contains_key(k) && in_type_rules(w.type_rules[k], h);
    match query {
        QueryKey::Syntax(kinds) => {
            if k == SYNTAX_NODE_TYPE {
                let base = syntax_rules_of(v);
                let table = add_by_kind(base, kinds@, r);
                let i = choose|i: int| 0 <= i < table.len() && (#[trigger] table[i]).contains(h);
                let j = choose|j: int| 0 <= j < table[i].len() && table[i][j] == h;
                if h != r {
                    assert(i < base.len());
                    assert(j < base[i].len());
                    assert(base[i].contains(h));
                    assert(v.type_rules.contains_key(SYNTAX_NODE_TYPE));
                    assert(in_type_rules(v.type_rules[SYNTAX_NODE_TYPE], h));
                }
            } else {
                assert(v.type_rules.contains_key(k));
            }
        },
        QueryKey::TypeId(t) => {
            if k == *t {
                let list = type_rules_of(v, k);
                let j = choose|j: int| 0 <= j < list.push(r).len() && list.push(r)[j] == h;
                if h != r {
                    assert(list[j] == h);
                    assert(v.type_rules.contains_key(k));
                    assert(in_type_rules(v.type_rules[k], h));
                }
            } else {
                assert(v.type_rules.contains_key(k));
            }
        },
    }
}

/// The query type of the values that a query matches.
pub open spec fn query_type_of(query: &QueryKey) -> u64 {
    match query {
        QueryKey::Syntax(_) => SYNTAX_NODE_TYPE,
        QueryKey::TypeId(k) => *k,
    }
}

/// The rules for syntax nodes, by kind.
pub open spec fn syntax_rules_of(v: PhaseRulesView) -> Seq<Seq<RegistryRule>> {
    if v.type_rules.contains_key(SYNTAX_NODE_TYPE) {
        match v.type_rules[SYNTAX_NODE_TYPE] {
            TypeRulesView::SyntaxRules(by_kind) => by_kind,
            TypeRulesView::TypeRules(_) => Seq::empty(),
        }
    } else {
        Seq::empty()
    }
}

/// The rules for the query type `k`, other than syntax nodes.
pub open spec fn type_rules_of(v: PhaseRulesView, k: u64) -> Seq<RegistryRule> {
    if v.type_rules.contains_key(k) {
        match v.type_rules[k] {
            TypeRulesView::SyntaxRules(_) => Seq::empty(),
            TypeRulesView::TypeRules(list) => list,
        }
    } else {
        Seq::empty()
    }
}

/// Whether `i` is one of the kinds.
pub open spec fn has_kind(kinds: Seq<u16>, i: int) -> bool {
    exists|j: int| 0 <= j < kinds.len() && kinds[j] as int == i
}

/// How many kinds the table must cover after adding increasing `kinds` to
/// one that covered `len`.
pub open spec fn grown_len(len: int, kinds: Seq<u16>) -> int {
    if kinds.len() == 0 || len > kinds.last() {
        len
    } else {
        kinds.last() + 1
    }
}

/// The table of rules by kind, with `r` added to the list of each of `kinds`;
/// the table grows, with empty lists, to cover every kind.
pub open spec fn add_by_kind(base: Seq<Seq<RegistryRule>>, kinds: Seq<u16>, r: RegistryRule) -> Seq<
    Seq<RegistryRule>,
> {
    Seq::new(
        grown_len(base.len() as int, kinds) as nat,
        |i: int|
            (if i < base.len() {
                base[i]
            } else {
                Seq::empty()
            }) + (if has_kind(kinds, i) {
                seq![r]
            } else {
                Seq::empty()
            }),
    )
}

/// The rules of a phase once the rule `r`, of query `query`, is added with a
/// fresh state.
pub open spec fn registered(v: PhaseRulesView, query: &QueryKey, r: RegistryRule) -> PhaseRulesView {
    PhaseRulesView {
        type_rules: match query {
            QueryKey::Syntax(kinds) => v.type_rules.insert(
                SYNTAX_NODE_TYPE,
                TypeRulesView::SyntaxRules(add_by_kind(syntax_rules_of(v), kinds@, r)),
            ),
            QueryKey::TypeId(k) => v.type_rules.insert(
                *k,
                TypeRulesView::TypeRules(type_rules_of(v, *k).push(r)),
            ),
        },
        states: v.states.push(Set::empty()),
    }
}

/// A query on syntax nodes lists its kinds in increasing order, and other
/// queries do not take the type of syntax nodes.
pub open spec fn query_wf(query: &QueryKey) -> bool {
    match query {
        QueryKey::Syntax(kinds) => kinds.wf(),
        QueryKey::TypeId(k) => *k != SYNTAX_NODE_TYPE,
    }
}

impl PhaseRules {
    pub fn new() -> (r: PhaseRules)
        ensures
            r@.type_rules == Map::<u64, TypeRulesView>::empty(),
            r@.states == Seq::<Set<u64>>::empty(),
            phase_wf(r@),
    {
        let r = PhaseRules { type_rules: FxHashMap::default(), rule_states: Vec::new() };
        assert(r@.type_rules =~= Map::<u64, TypeRulesView>::empty());
        assert(r@.states =~= Seq::<Set<u64>>::empty());
        r
    }

    /// Adds the rule `r`, of query `query`, with a fresh state.
    pub fn add_rule(&mut self, query: &QueryKey, r: RegistryRule)
        requires
            phase_wf(old(self)@),
            r.state_index == old(self)@.states.len(),
            r.query_type == query_type_of(query),
            old(self)@.states.len() < usize::MAX,
            query_wf(query),
        ensures
            phase_wf(final(self)@),
            final(self)@ == registered(old(self)@, query, r),
    {
        let ghost v0 = self@;
        match query {
            QueryKey::Syntax(kinds) => {
                let ghost base = syntax_rules_of(v0);
                let entry = fx_map_remove(&mut self.type_rules, SYNTAX_NODE_TYPE);
                let mut by_kind: Vec<SyntaxKindRules> = match entry {
                    Some(TypeRules::SyntaxRules { rules }) => rules,
                    Some(TypeRules::TypeRules { .. }) => {
                        proof {
                            assert(v0.type_rules.contains_key(SYNTAX_NODE_TYPE));
                        }
                        Vec::new()
                    },
                    None => Vec::new(),
                };
                assert(by_kind@.map_values(|k: SyntaxKindRules| k@) =~= base);
                assert(kinds@.take(0) =~= Seq::<u16>::empty());
                assert(add_by_kind(base, kinds@.take(0), r) =~= base);
                let mut i: usize = 0;
                while i < kinds.len()
                    invariant
                        kinds.wf(),
                        0 <= i <= kinds@.len(),
                        by_kind@.map_values(|k: SyntaxKindRules| k@) == add_by_kind(
                            base,
                            kinds@.take(i as int),
                            r,
                        ),
                    decreases kinds@.len() - i,
                {
                    let kind = kinds.get(i) as usize;
                    let ghost cur = by_kind@.map_values(|k: SyntaxKindRules| k@);
                    let ghost prefix = kinds@.take(i as int);
                    let ghost next = kinds@.take(i + 1);
                    proof {
                        assert(next =~= prefix.push(kind as u16));
                        assert forall|j: int| 0 <= j < prefix.len() implies prefix[j] < kind by {
                            assert(prefix[j] == kinds@[j]);
                        }
                    }
                    while by_kind.len() <= kind
                        invariant
                            cur.len() <= by_kind@.len(),
                            by_kind@.len() == cur.len() || by_kind@.len() <= kind + 1,
                            forall|j: int|
                                0 <= j < by_kind@.len() ==> (#[trigger] by_kind@[j])@ == (if j
                                    < cur.len() {
                                    cur[j]
                                } else {
                                    Seq::<RegistryRule>::empty()
                                }),
                        decreases kind + 1 - by_kind@.len(),
                    {
                        by_kind.push(SyntaxKindRules::new());
                    }
                    let mut slot = SyntaxKindRules::new();
                    std::mem::swap(&mut slot, &mut by_kind[kind]);
                    slot.rules.push(r);
                    by_kind.set(kind, slot);
                    proof {
                        let after = by_kind@.map_values(|k: SyntaxKindRules| k@);
                        let want = add_by_kind(base, next, r);
                        assert(forall|j: int| 0 <= j < prefix.len() ==> #[trigger] prefix[j] < kind);
                        assert forall|j: int| 0 <= j < want.len() implies #[trigger] after[j]
                            == want[j] by {
                            if j == kind {
                                assert(next[prefix.len() as int] == kind as u16);
                                assert(has_kind(next, j));
                                if has_kind(prefix, j) {
                                    let m = choose|m: int| 0 <= m < prefix.len() && prefix[m] as int == j;
                                    assert(prefix[m] < kind);
                                }
                            } else {
                                if has_kind(next, j) {
                                    let m = choose|m: int| 0 <= m < next.len() && next[m] as int == j;
                                    assert(m < prefix.len());
                                    assert(prefix[m] == next[m]);
                                    assert(has_kind(prefix, j));
                                }
                                if has_kind(prefix, j) {
                                    let m = choose|m: int| 0 <= m < prefix.len() && prefix[m] as int == j;
                                    assert(next[m] == prefix[m]);
                                    assert(has_kind(next, j));
                                    assert(prefix[m] <= prefix.last());
                                }
                            }
                        }
                        assert(after =~= want);
                    }
                    i = i + 1;
                }
                assert(kinds@.take(kinds@.len() as int) =~= kinds@);
                let ghost table = by_kind@.map_values(|k: SyntaxKindRules| k@);
                fx_map_insert(&mut self.type_rules, SYNTAX_NODE_TYPE, TypeRules::SyntaxRules { rules: by_kind });
                self.rule_states.push(RuleState::new());
                proof {
                    assert(self@.type_rules =~= v0.type_rules.insert(
                        SYNTAX_NODE_TYPE,
                        TypeRulesView::SyntaxRules(table),
                    ));
                    assert(self@.states =~= v0.states.push(Set::empty()));
                }
            },
            QueryKey::TypeId(k) => {
                let k = *k;
                let entry = fx_map_remove(&mut self.type_rules, k);
                let mut list: Vec<RegistryRule> = match entry {
                    Some(TypeRules::TypeRules { rules }) => rules,
                    Some(TypeRules::SyntaxRules { .. }) => {
                        proof {
                            assert(v0.type_rules.contains_key(k));
                        }
                        Vec::new()
                    },
                    None => Vec::new(),
                };
                assert(list@ == type_rules_of(v0, k));
                list.push(r);
                let ghost l = list@;
                fx_map_insert(&mut self.type_rules, k, TypeRules::TypeRules { rules: list });
                self.rule_states.push(RuleState::new());
                proof {
                    assert(self@.type_rules =~= v0.type_rules.insert(k, TypeRulesView::TypeRules(l)));
                    assert(self@.states =~= v0.states.push(Set::empty()));
                }
            },
        }
        proof {
            let v = self@;
            assert forall|k: u64| #[trigger] v.type_rules.contains_key(k) implies match v.type_rules[k] {
                TypeRulesView::SyntaxRules(by_kind) => k == SYNTAX_NODE_TYPE && forall|i: int|
                    0 <= i < by_kind.len() ==> handles_ok(
                        #[trigger] by_kind[i],
                        v.states.len() as int,
                        SYNTAX_NODE_TYPE,
                    ),
                TypeRulesView::TypeRules(list) => k != SYNTAX_NODE_TYPE && handles_ok(
                    list,
                    v.states.len() as int,
                    k,
                ),
            } by {
                if v0.type_rules.contains_key(k) {
                    assert(v0.type_rules.contains_key(k));
                }
                match v.type_rules[k] {
                    TypeRulesView::SyntaxRules(by_kind) => {
                        assert forall|i: int| 0 <= i < by_kind.len() implies handles_ok(
                            #[trigger] by_kind[i],
                            v.states.len() as int,
                            SYNTAX_NODE_TYPE,
                        ) by {
                            if v0.type_rules.contains_key(k) && v0.type_rules[k] == v.type_rules[k] {
                            } else {
                                let base = syntax_rules_of(v0);
                                if i < base.len() {
                                    assert(handles_ok(base[i], v0.states.len() as int, SYNTAX_NODE_TYPE));
                                }
                            }
                        }
                    },
                    TypeRulesView::TypeRules(list) => {
                        if v0.type_rules.contains_key(k) && v0.type_rules[k] == v.type_rules[k] {
                        } else {
                            assert(handles_ok(type_rules_of(v0, k), v0.states.len() as int, k));
                        }
                    },
                }
            }
            assert forall|h1: RegistryRule, h2: RegistryRule|
                #[trigger] stored(v, h1) && #[trigger] stored(v, h2) && h1.state_index
                    == h2.state_index implies h1 == h2 by {
                lemma_stored_after_registration(v0, query, r, h1);
                lemma_stored_after_registration(v0, query, r, h2);
                if stored(v0, h1) {
                    lemma_stored_state_exists(v0, h1);
                }
                if stored(v0, h2) {
                    lemma_stored_state_exists(v0, h2);
                }
            }
        }
    }
}

/// The rule registry: the rules of each phase, syntax first, then semantic.
pub struct RuleRegistry {
    phase_rules: [PhaseRules; 2],
}

impl RuleRegistry {
    /// The rules of the phase `phase`.
    pub closed spec fn phase_view(&self, phase: Phases) -> PhaseRulesView {
        self.phase_rules[phase.spec_index() as int]@
    }

    pub open spec fn wf(&self) -> bool {
        &&& phase_wf(self.phase_view(Phases::Syntax))
        &&& phase_wf(self.phase_view(Phases::Semantic))
    }

    /// A registry without rules.
    pub fn new() -> (r: RuleRegistry)
        ensures
            r.wf(),
            forall|p: Phases|
                (#[trigger] r.phase_view(p)).type_rules == Map::<u64, TypeRulesView>::empty()
                    && r.phase_view(p).states == Seq::<Set<u64>>::empty(),
    {
        RuleRegistry { phase_rules: [PhaseRules::new(), PhaseRules::new()] }
    }

    /// A builder that records the rules that `filter` lets run.
    pub fn builder(filter: AnalysisFilter) -> (r: RuleRegistryBuilder)
        ensures
            r.wf(),
            r.filter() == filter,
            r.visitors() == Set::<(u64, u64)>::empty(),
            forall|p: Phases|
                (#[trigger] r.registry().phase_view(p)).type_rules == Map::<
                    u64,
                    TypeRulesView,
                >::empty() && r.registry().phase_view(p).states == Seq::<Set<u64>>::empty(),
    {
        RuleRegistryBuilder { filter, registry: RuleRegistry::new(), visitors: BTreeSet::new() }
    }
}

/// Records the rules of an analysis into a registry, with the visitors that
/// their queries need.
pub struct RuleRegistryBuilder {
    filter: AnalysisFilter,
    registry: RuleRegistry,
    visitors: BTreeSet<(u64, u64)>,
}

impl RuleRegistryBuilder {
    pub closed spec fn filter(&self) -> AnalysisFilter {
        self.filter
    }

    pub closed spec fn registry(&self) -> RuleRegistry {
        self.registry
    }

    /// The visitors needed so far, each as (phase index, visitor type).
    pub closed spec fn visitors(&self) -> Set<(u64, u64)> {
        self.visitors@
    }

    pub open spec fn wf(&self) -> bool {
        self.registry().wf()
    }

    /// Adds the rule to the registry if the filter lets it run: it goes to the
    /// phase it runs in, under its query, with a fresh state, and the visitors
    /// its query needs are added.
    pub fn record_rule(&mut self, rule: &RuleDescriptor)
        requires
            old(self).wf(),
            query_wf(&rule.query),
            old(self).registry().phase_view(rule.phase).states.len() < usize::MAX,
        ensures
            final(self).wf(),
            final(self).filter() == old(self).filter(),
            !old(self).filter().spec_match_rule(rule.key@, rule.category) ==> {
                &&& final(self).registry() == old(self).registry()
                &&& final(self).visitors() == old(self).visitors()
            },
            old(self).filter().spec_match_rule(rule.key@, rule.category) ==> {
                &&& final(self).registry().phase_view(rule.phase) == registered(
                    old(self).registry().phase_view(rule.phase),
                    &rule.query,
                    RegistryRule {
                        rule: rule.key,
                        category: rule.category,
                        query_type: query_type_of(&rule.query),
                        state_index: old(self).registry().phase_view(rule.phase).states.len() as usize,
                    },
                )
                &&& forall|p: Phases|
                    p != rule.phase ==> #[trigger] final(self).registry().phase_view(p) == old(
                        self,
                    ).registry().phase_view(p)
                &&& final(self).visitors() == old(self).visitors().union(
                    visitor_keys(rule.visitors@),
                )
            },
    {
        if !self.filter.match_rule(&rule.key, rule.category) {
            return;
        }
        let index = rule.phase.index();
        let mut phase = PhaseRules::new();
        std::mem::swap(&mut phase, &mut self.registry.phase_rules[index]);
        let query_type = match &rule.query {
            QueryKey::Syntax(_) => SYNTAX_NODE_TYPE,
            QueryKey::TypeId(k) => *k,
        };
        let registry_rule = RegistryRule {
            rule: rule.key,
            category: rule.category,
            query_type,
            state_index: phase.rule_states.len(),
        };
        phase.add_rule(&rule.query, registry_rule);
        std::mem::swap(&mut phase, &mut self.registry.phase_rules[index]);
        let ghost registry = self.registry;
        let mut i: usize = 0;
        while i < rule.visitors.len()
            invariant
                0 <= i <= rule.visitors@.len(),
                self.registry == registry,
                self.filter == old(self).filter,
                self.visitors@ == old(self).visitors@.union(
                    visitor_keys(rule.visitors@.take(i as int)),
                ),
            decreases rule.visitors@.len() - i,
        {
            let (p, t) = rule.visitors[i];
            add_visitor(&mut self.visitors, p, t);
            proof {
                assert(rule.visitors@.take(i + 1) =~= rule.visitors@.take(i as int).push((p, t)));
                lemma_visitor_keys_push(rule.visitors@.take(i as int), (p, t));
            }
            i = i + 1;
        }
        assert(rule.visitors@.take(rule.visitors@.len() as int) =~= rule.visitors@);
    }

    /// Ends the recording: the registry, the visitors its rules need, and the
    /// categories the analysis runs.
    pub fn build(self) -> (r: (RuleRegistry, BTreeSet<(u64, u64)>, RuleCategories))
        ensures
            r.0 == self.registry(),
            r.1@ == self.visitors(),
            r.2 == self.filter().categories,
    {
        (self.registry, self.visitors, self.filter.categories)
    }
}

impl RegistryRule {
    /// The handle of the rule `rule`, whose state is the `state_index`-th of its phase.
    pub fn new(rule: RuleKey, category: RuleCategory, query_type: u64, state_index: usize) -> (r:
        RegistryRule)
        ensures
            r == (RegistryRule { rule, category, query_type, state_index }),
    {
        RegistryRule { rule, category, query_type, state_index }
    }
}

impl MetadataRegistry {
    /// Records the (group, name) pair of the rule.
    pub fn record_rule(&mut self, rule: &RuleDescriptor)
        requires
            old(self).wf(),
        ensures
            final(self).wf(),
            final(self)@ == old(self)@.insert(rule.key@),
    {
        self.insert_rule(rule.key.group(), rule.key.rule_name());
    }
}

/// A rule recorded with a query on syntax nodes runs, last, on every match of
/// a node of one of its kinds; one recorded on another query type runs, last,
/// on every match of a value of that type.
pub proof fn lemma_registered_rule_runs(
    v: PhaseRulesView,
    query: &QueryKey,
    r: RegistryRule,
    params: MatchQueryParams,
)
    requires
        phase_wf(v),
        query_wf(query),
        params_wf(params),
        match query {
            QueryKey::Syntax(kinds) => params.query_type == SYNTAX_NODE_TYPE && kinds@.contains(
                params.node->0.kind,
            ),
            QueryKey::TypeId(k) => params.query_type == *k,
        },
    ensures
        matched_rules(registered(v, query, r), params).len() > 0,
        matched_rules(registered(v, query, r), params).last() == r,
        matched_rules(registered(v, query, r), params).drop_last() == matched_rules(v, params),
{
    match query {
        QueryKey::Syntax(kinds) => {
            let kind = params.node->0.kind;
            let j = choose|j: int| 0 <= j < kinds@.len() && kinds@[j] == kind;
            assert(has_kind(kinds@, kind as int));
            assert(kinds@[j] <= kinds@.last());
            let base = syntax_rules_of(v);
            let table = add_by_kind(base, kinds@, r);
            assert((kind as int) < table.len());
            if (kind as int) < base.len() {
                assert(table[kind as int].drop_last() =~= base[kind as int]);
            } else {
                assert(table[kind as int].drop_last() =~= Seq::<RegistryRule>::empty());
            }
        },
        QueryKey::TypeId(k) => {
            assert(type_rules_of(v, *k).push(r).drop_last() =~= type_rules_of(v, *k));
        },
    }
}

/// A run never lifts a suppression: the nodes suppressed before stay suppressed.
pub proof fn lemma_suppressions_grow(
    suppressed: Set<u64>,
    params: MatchQueryParams,
    outcome: RuleOutcome,
)
    ensures
        suppressed.subset_of(suppressed_after(suppressed, params, outcome)),
{
}

/// On a node it has suppressed, a rule raises nothing and its state stays.
pub proof fn lemma_suppressed_node_is_skipped(
    suppressed: Set<u64>,
    params: MatchQueryParams,
    outcome: RuleOutcome,
)
    requires
        params.node matches Some(n) && suppressed.contains(n.id),
    ensures
        emitted(suppressed, params, outcome) == Seq::<RuleSignalData>::empty(),
        suppressed_after(suppressed, params, outcome) == suppressed,
{
}

/// A node that a signal of a run suppresses is skipped by that rule from then on.
pub proof fn lemma_signal_suppresses_later_matches(
    suppressed: Set<u64>,
    params: MatchQueryParams,
    results: Seq<RuleSignalData>,
    i: int,
    j: int,
    later: MatchQueryParams,
)
    requires
        !skips(suppressed, params),
        0 <= i < results.len(),
        0 <= j < results[i].suppressed_nodes@.len(),
        later.node matches Some(n) && n.id == results[i].suppressed_nodes@[j],
    ensures
        forall|outcome: RuleOutcome|
            outcome matches RuleOutcome::Signals(v) && v@ == results ==> skips(
                #[trigger] suppressed_after(suppressed, params, outcome),
                later,
            ),
{
    assert forall|outcome: RuleOutcome|
        outcome matches RuleOutcome::Signals(v) && v@ == results implies skips(
        #[trigger] suppressed_after(suppressed, params, outcome),
        later,
    ) by {
        assert(suppressed_by(results).contains(results[i].suppressed_nodes@[j]));
    }
}

/// Adds the visitor of type `visitor` to the phase `phase`, unless the phase has it.
pub fn add_visitor(visitors: &mut BTreeSet<(u64, u64)>, phase: Phases, visitor: u64)
    ensures
        final(visitors)@ == old(visitors)@.insert((phase.spec_index() as u64, visitor)),
{
    proof {
        lemma_visitor_keys_ordered();
    }
    visitors.insert((phase.index() as u64, visitor));
}

/// One more visitor adds its key to the keys.
proof fn lemma_visitor_keys_push(visitors: Seq<(Phases, u64)>, v: (Phases, u64))
    ensures
        visitor_keys(visitors.push(v)) == visitor_keys(visitors).insert(
            (v.0.spec_index() as u64, v.1),
        ),
{
    let s = visitors.push(v);
    assert forall|key: (u64, u64)| #[trigger] visitor_keys(s).contains(key) <==> visitor_keys(
        visitors,
    ).insert((v.0.spec_index() as u64, v.1)).contains(key) by {
        if visitor_keys(visitors).contains(key) {
            let i = choose|i: int|
                0 <= i < visitors.len() && key == ((#[trigger] visitors[i]).0.spec_index() as u64,
                visitors[i].1);
            assert(s[i] == visitors[i]);
        }
        if key == (v.0.spec_index() as u64, v.1) {
            assert(s[visitors.len() as int] == v);
        }
        if visitor_keys(s).contains(key) {
            let i = choose|i: int|
                0 <= i < s.len() && key == ((#[trigger] s[i]).0.spec_index() as u64, s[i].1);
            if i < visitors.len() {
                assert(s[i] == visitors[i]);
            }
        }
    }
    assert(visitor_keys(s) =~= visitor_keys(visitors).insert((v.0.spec_index() as u64, v.1)));
}

/// Pairs of integers are totally ordered, as `BTreeSet` needs.
proof fn lemma_visitor_keys_ordered()
    ensures
        vstd::laws_cmp::obeys_cmp::<(u64, u64)>(),
{
    broadcast use vstd::laws_cmp::group_laws_cmp;

}

/// The visitor keys, (phase index, visitor type), of a list of visitors.
pub open spec fn visitor_keys(visitors: Seq<(Phases, u64)>) -> Set<(u64, u64)> {
    Set::new(
        |key: (u64, u64)|
            exists|i: int|
                0 <= i < visitors.len() && key == ((#[trigger] visitors[i]).0.spec_index() as u64,
                visitors[i].1),
    )
}

/// A syntax node that a query matched: which node, and its raw kind.
#[derive(Clone, Copy, Debug, PartialEq, Eq, Structural)]
pub struct SyntaxNodeRef {
    pub id: u64,
    pub kind: u16,
}

/// A query match to run the rules on: the phase, the type of the matched
/// value, the node when the value is a syntax node, and its text range.
#[derive(Clone, Copy, Debug, PartialEq, Eq, Structural)]
pub struct MatchQueryParams {
    pub phase: Phases,
    pub query_type: u64,
    pub node: Option<SyntaxNodeRef>,
    pub range: TextRange,
}

/// The matched value is a syntax node exactly when its type is that of syntax nodes.
pub open spec fn params_wf(params: MatchQueryParams) -> bool {
    params.node is Some <==> params.query_type == SYNTAX_NODE_TYPE
}

/// The rules of a phase that a query match runs, in order.
pub open spec fn matched_rules(v: PhaseRulesView, params: MatchQueryParams) -> Seq<RegistryRule> {
    if v.type_rules.contains_key(params.query_type) {
        match v.type_rules[params.query_type] {
            TypeRulesView::SyntaxRules(by_kind) => {
                let kind = params.node->0.kind as int;
                if kind < by_kind.len() {
                    by_kind[kind]
                } else {
                    Seq::empty()
                }
            },
            TypeRulesView::TypeRules(list) => list,
        }
    } else {
        Seq::empty()
    }
}

/// One signal that a rule's run raised: where it points, if the rule says,
/// the nodes the rule suppresses with it, and the instances it names.
pub struct RuleSignalData {
    pub text_range: Option<TextRange>,
    pub suppressed_nodes: Vec<u64>,
    pub instances: Vec<String>,
}

/// What running a rule on a query match gave: the context of the rule could
/// not be made, or the signals of the run.
pub enum RuleOutcome {
    ContextError,
    Signals(Vec<RuleSignalData>),
}

/// A signal in the queue of the analysis.
pub struct SignalEntry {
    pub rule: RuleKey,
    pub instances: Vec<String>,
    pub text_range: TextRange,
    pub category: RuleCategory,
}

/// The error of a rule whose context could not be made.
#[derive(Clone, Copy, Debug, PartialEq, Eq, Structural)]
pub enum RuleError {
    Context,
}

/// The nodes that a run's signals suppress.
pub open spec fn suppressed_by(results: Seq<RuleSignalData>) -> Set<u64> {
    Set::new(
        |n: u64|
            exists|i: int, j: int|
                0 <= i < results.len() && 0 <= j < results[i].suppressed_nodes@.len()
                    && #[trigger] results[i].suppressed_nodes@[j] == n,
    )
}

/// The rule skips the match: it is on a node the rule has suppressed.
pub open spec fn skips(suppressed: Set<u64>, params: MatchQueryParams) -> bool {
    params.node matches Some(n) && suppressed.contains(n.id)
}

/// The signals a run raises.
pub open spec fn emitted(suppressed: Set<u64>, params: MatchQueryParams, outcome: RuleOutcome) -> Seq<
    RuleSignalData,
> {
    if skips(suppressed, params) {
        Seq::empty()
    } else {
        match outcome {
            RuleOutcome::ContextError => Seq::empty(),
            RuleOutcome::Signals(results) => results@,
        }
    }
}

/// The nodes suppressed after a run.
pub open spec fn suppressed_after(
    suppressed: Set<u64>,
    params: MatchQueryParams,
    outcome: RuleOutcome,
) -> Set<u64> {
    if skips(suppressed, params) {
        suppressed
    } else {
        match outcome {
            RuleOutcome::ContextError => suppressed,
            RuleOutcome::Signals(results) => suppressed.union(suppressed_by(results@)),
        }
    }
}

/// `e` is the queue entry of signal `d` of `rule`: it points where the signal
/// says, else at the matched value.
pub open spec fn entry_for(e: SignalEntry, rule: RegistryRule, d: RuleSignalData, range: TextRange) -> bool {
    &&& e.rule == rule.rule
    &&& e.category == rule.category
    &&& e.instances@ == d.instances@
    &&& e.text_range == match d.text_range {
        Some(t) => t,
        None => range,
    }
}

/// The rule states and the raised signals after running the first `n` rules
/// of `rules` on a match, in order.
pub open spec fn run_prefix(
    states: Seq<Set<u64>>,
    rules: Seq<RegistryRule>,
    outcomes: Seq<RuleOutcome>,
    params: MatchQueryParams,
    n: nat,
) -> (Seq<Set<u64>>, Seq<(RegistryRule, RuleSignalData)>)
    decreases n,
{
    if n == 0 {
        (states, Seq::empty())
    } else {
        let prev = run_prefix(states, rules, outcomes, params, (n - 1) as nat);
        let r = rules[n - 1];
        let s = prev.0[r.state_index as int];
        (
            prev.0.update(r.state_index as int, suppressed_after(s, params, outcomes[n - 1])),
            prev.1 + emitted(s, params, outcomes[n - 1]).map_values(
                |d: RuleSignalData| (r, d),
            ),
        )
    }
}

/// A queued entry names the rule that raised it and carries that rule's
/// category, the signal's instances, and the signal's range or else the
/// range of the match.
pub proof fn lemma_entry_carries_its_rule(e: SignalEntry, rule: RegistryRule, d: RuleSignalData, range: TextRange)
    requires
        entry_for(e, rule, d, range),
    ensures
        e.rule == rule.rule,
        e.category == rule.category,
        e.instances@ == d.instances@,
        d.text_range matches Some(t) ==> e.text_range == t,
        d.text_range is None ==> e.text_range == range,
{
}

/// Every signal a run of rules raises comes from one of those rules, and
/// a rule whose outcome raised nothing, or that skipped the match, adds none.
pub proof fn lemma_signals_come_from_rules(
    states: Seq<Set<u64>>,
    rules: Seq<RegistryRule>,
    outcomes: Seq<RuleOutcome>,
    params: MatchQueryParams,
    n: nat,
)
    requires
        n <= rules.len(),
    ensures
        forall|j: int|
            0 <= j < run_prefix(states, rules, outcomes, params, n).1.len() ==> exists|k: int|
                0 <= k < n && (#[trigger] run_prefix(states, rules, outcomes, params, n).1[j]).0
                    == rules[k],
    decreases n,
{
    if n > 0 {
        lemma_signals_come_from_rules(states, rules, outcomes, params, (n - 1) as nat);
        let prev = run_prefix(states, rules, outcomes, params, (n - 1) as nat);
        let cur = run_prefix(states, rules, outcomes, params, n);
        let r = rules[n - 1];
        assert forall|j: int| 0 <= j < cur.1.len() implies exists|k: int|
            0 <= k < n && (#[trigger] cur.1[j]).0 == rules[k] by {
            if j < prev.1.len() {
                assert(cur.1[j] == prev.1[j]);
                let k = choose|k: int| 0 <= k < n - 1 && (#[trigger] prev.1[j]).0 == rules[k];
            } else {
                assert(cur.1[j].0 == r);
            }
        }
    }
}

/// Each signal that a query match queues carries the category of a rule that
/// the match runs, and names that rule.
pub proof fn lemma_queued_signal_category(
    v: PhaseRulesView,
    params: MatchQueryParams,
    outcomes: Seq<RuleOutcome>,
    queued: Seq<SignalEntry>,
)
    requires
        ({
            let rules = matched_rules(v, params);
            let run = run_prefix(v.states, rules, outcomes, params, rules.len());
            &&& queued.len() == run.1.len()
            &&& forall|j: int|
                0 <= j < run.1.len() ==> entry_for(
                    #[trigger] queued[j],
                    run.1[j].0,
                    run.1[j].1,
                    params.range,
                )
        }),
    ensures
        forall|j: int|
            0 <= j < queued.len() ==> exists|k: int|
                0 <= k < matched_rules(v, params).len() && (#[trigger] queued[j]).category
                    == matched_rules(v, params)[k].category && queued[j].rule == matched_rules(
                    v,
                    params,
                )[k].rule,
{
    let rules = matched_rules(v, params);
    let run = run_prefix(v.states, rules, outcomes, params, rules.len());
    lemma_signals_come_from_rules(v.states, rules, outcomes, params, rules.len());
    assert forall|j: int| 0 <= j < queued.len() implies exists|k: int|
        0 <= k < rules.len() && (#[trigger] queued[j]).category == rules[k].category && queued[j].rule
            == rules[k].rule by {
        assert(entry_for(queued[j], run.1[j].0, run.1[j].1, params.range));
        let k = choose|k: int| 0 <= k < rules.len() && (#[trigger] run.1[j]).0 == rules[k];
    }
}

/// Copies a list of rule handles.
fn copy_rules(v: &Vec<RegistryRule>) -> (r: Vec<RegistryRule>)
    ensures
        r@ == v@,
{
    let mut r: Vec<RegistryRule> = Vec::new();
    let mut i: usize = 0;
    while i < v.len()
        invariant
            0 <= i <= v@.len(),
            r@ == v@.take(i as int),
        decreases v@.len() - i,
    {
        r.push(v[i]);
        assert(v@.take(i + 1) =~= v@.take(i as int).push(v@[i as int]));
        i = i + 1;
    }
    assert(v@.take(v@.len() as int) =~= v@);
    r
}

impl RuleState {
    /// Runs the rule `rule` on a match, with what the rule's run gave. On a
    /// node the rule has suppressed it does nothing, whatever the match's type;
    /// otherwise the match is of the query type the rule was registered for,
    /// and each signal suppresses its nodes and goes to the queue, pointing
    /// where it says or at the match.
    pub fn run(
        &mut self,
        rule: RegistryRule,
        params: &MatchQueryParams,
        outcome: RuleOutcome,
        signal_queue: &mut Vec<SignalEntry>,
    ) -> (r: Result<(), RuleError>)
        requires
            rule.query_type == params.query_type || skips(old(self)@, *params),
        ensures
            final(self)@ == suppressed_after(old(self)@, *params, outcome),
            r is Err <==> (!skips(old(self)@, *params) && outcome is ContextError),
            final(signal_queue)@.len() == old(signal_queue)@.len() + emitted(
                old(self)@,
                *params,
                outcome,
            ).len(),
            final(signal_queue)@.take(old(signal_queue)@.len() as int) == old(signal_queue)@,
            forall|j: int|
                0 <= j < emitted(old(self)@, *params, outcome).len() ==> entry_for(
                    #[trigger] final(signal_queue)@[old(signal_queue)@.len() + j],
                    rule,
                    emitted(old(self)@, *params, outcome)[j],
                    params.range,
                ),
    {
        if let Some(node) = params.node {
            if self.suppressions.is_suppressed(node.id) {
                assert(signal_queue@.take(signal_queue@.len() as int) =~= signal_queue@);
                return Ok(());
            }
        }
        let mut results = match outcome {
            RuleOutcome::ContextError => {
                assert(signal_queue@.take(signal_queue@.len() as int) =~= signal_queue@);
                return Err(RuleError::Context);
            },
            RuleOutcome::Signals(results) => results,
        };
        let ghost all = results@;
        let ghost base = self@;
        let ghost q0 = signal_queue@;
        let mut i: usize = 0;
        assert(suppressed_by(all.take(0)) =~= Set::<u64>::empty());
        assert(base.union(Set::<u64>::empty()) =~= base);
        while i < results.len()
            invariant
                0 <= i <= all.len(),
                results@.len() == all.len(),
                forall|j: int| i <= j < all.len() ==> #[trigger] results@[j] == all[j],
                self@ == base.union(suppressed_by(all.take(i as int))),
                signal_queue@.len() == q0.len() + i,
                signal_queue@.take(q0.len() as int) == q0,
                forall|j: int|
                    0 <= j < i ==> entry_for(
                        #[trigger] signal_queue@[q0.len() + j],
                        rule,
                        all[j],
                        params.range,
                    ),
            decreases all.len() - i,
        {
            let mut data = RuleSignalData {
                text_range: None,
                suppressed_nodes: Vec::new(),
                instances: Vec::new(),
            };
            std::mem::swap(&mut data, &mut results[i]);
            assert(data == all[i as int]);
            let text_range = match data.text_range {
                Some(t) => t,
                None => params.range,
            };
            let ghost before = self@;
            let mut k: usize = 0;
            while k < data.suppressed_nodes.len()
                invariant
                    0 <= k <= data.suppressed_nodes@.len(),
                    self@ == before.union(data.suppressed_nodes@.take(k as int).to_set()),
                decreases data.suppressed_nodes@.len() - k,
            {
                self.suppressions.suppress_node(data.suppressed_nodes[k]);
                assert(data.suppressed_nodes@.take(k + 1) =~= data.suppressed_nodes@.take(
                    k as int,
                ).push(data.suppressed_nodes@[k as int]));
                proof {
                    lemma_push_to_set(
                        data.suppressed_nodes@.take(k as int),
                        data.suppressed_nodes@[k as int],
                    );
                }
                k = k + 1;
            }
            proof {
                assert(data.suppressed_nodes@.take(data.suppressed_nodes@.len() as int)
                    =~= data.suppressed_nodes@);
                let prefix = all.take(i as int);
                let next = all.take(i + 1);
                assert(next =~= prefix.push(all[i as int]));
                assert forall|n: u64| #[trigger] suppressed_by(next).contains(n) <==> (
                suppressed_by(prefix).contains(n) || data.suppressed_nodes@.to_set().contains(n)) by {
                    if suppressed_by(next).contains(n) {
                        let (a, b) = choose|a: int, b: int|
                            0 <= a < next.len() && 0 <= b < next[a].suppressed_nodes@.len()
                                && #[trigger] next[a].suppressed_nodes@[b] == n;
                        if a < prefix.len() {
                            assert(prefix[a].suppressed_nodes@[b] == n);
                        } else {
                            assert(data.suppressed_nodes@.contains(n));
                        }
                    }
                    if suppressed_by(prefix).contains(n) {
                        let (a, b) = choose|a: int, b: int|
                            0 <= a < prefix.len() && 0 <= b < prefix[a].suppressed_nodes@.len()
                                && #[trigger] prefix[a].suppressed_nodes@[b] == n;
                        assert(next[a].suppressed_nodes@[b] == n);
                    }
                    if data.suppressed_nodes@.to_set().contains(n) {
                        let b = choose|b: int|
                            0 <= b < data.suppressed_nodes@.len() && data.suppressed_nodes@[b] == n;
                        assert(next[i as int].suppressed_nodes@[b] == n);
                    }
                }
                assert(suppressed_by(next) =~= suppressed_by(prefix).union(
                    data.suppressed_nodes@.to_set(),
                ));
                assert(self@ =~= base.union(suppressed_by(next)));
            }
            let entry = SignalEntry {
                rule: rule.rule,
                instances: data.instances,
                text_range,
                category: rule.category,
            };
            signal_queue.push(entry);
            assert(signal_queue@.take(q0.len() as int) =~= q0);
            i = i + 1;
        }
        assert(all.take(all.len() as int) =~= all);
        Ok(())
    }
}

impl RuleRegistry {
    /// The rules that a query match runs, in the order they run.
    pub fn rules_for_query(&self, params: &MatchQueryParams) -> (r: Vec<RegistryRule>)
        requires
            self.wf(),
            params_wf(*params),
        ensures
            r@ == matched_rules(self.phase_view(params.phase), *params),
            handles_ok(r@, self.phase_view(params.phase).states.len() as int, params.query_type),
    {
        let phase = &self.phase_rules[params.phase.index()];
        let ghost v = phase@;
        assert(v == self.phase_view(params.phase));
        match fx_map_get(&phase.type_rules, params.query_type) {
            None => Vec::new(),
            Some(TypeRules::SyntaxRules { rules }) => {
                assert(v.type_rules.contains_key(params.query_type));
                match params.node {
                    Some(node) => {
                        let kind = node.kind as usize;
                        if kind < rules.len() {
                            let r = copy_rules(&rules[kind].rules);
                            assert(r@ == v.type_rules[params.query_type]->SyntaxRules_0[kind as int]);
                            r
                        } else {
                            Vec::new()
                        }
                    },
                    None => Vec::new(),
                }
            },
            Some(TypeRules::TypeRules { rules }) => {
                assert(v.type_rules.contains_key(params.query_type));
                copy_rules(rules)
            },
        }
    }

    /// Runs the rules of a query match in order, each with its own state and
    /// what its run gave (`outcomes`, one per rule of `rules_for_query`); the
    /// signals go to the queue and errors of the rules are dropped.
    pub fn match_query(
        &mut self,
        params: &MatchQueryParams,
        outcomes: Vec<RuleOutcome>,
        signal_queue: &mut Vec<SignalEntry>,
    )
        requires
            old(self).wf(),
            params_wf(*params),
            outcomes@.len() == matched_rules(old(self).phase_view(params.phase), *params).len(),
        ensures
            final(self).wf(),
            forall|p: Phases|
                p != params.phase ==> #[trigger] final(self).phase_view(p) == old(self).phase_view(p),
            ({
                let v = old(self).phase_view(params.phase);
                let rules = matched_rules(v, *params);
                let run = run_prefix(v.states, rules, outcomes@, *params, rules.len());
                &&& final(self).phase_view(params.phase).type_rules == v.type_rules
                &&& final(self).phase_view(params.phase).states == run.0
                &&& final(signal_queue)@.len() == old(signal_queue)@.len() + run.1.len()
                &&& final(signal_queue)@.take(old(signal_queue)@.len() as int) == old(
                    signal_queue,
                )@
                &&& forall|j: int|
                    0 <= j < run.1.len() ==> entry_for(
                        #[trigger] final(signal_queue)@[old(signal_queue)@.len() + j],
                        run.1[j].0,
                        run.1[j].1,
                        params.range,
                    )
            }),
    {
        let rules = self.rules_for_query(params);
        let index = params.phase.index();
        let mut phase = PhaseRules::new();
        std::mem::swap(&mut phase, &mut self.phase_rules[index]);
        let ghost v0 = phase@;
        let ghost q0 = signal_queue@;
        let ghost all = outcomes@;
        let mut outcomes = outcomes;
        let mut i: usize = 0;
        assert(q0.take(q0.len() as int) =~= q0);
        while i < rules.len()
            invariant
                0 <= i <= rules@.len(),
                rules@ == matched_rules(v0, *params),
                handles_ok(rules@, v0.states.len() as int, params.query_type),
                outcomes@.len() == all.len(),
                all.len() == rules@.len(),
                forall|j: int| i <= j < all.len() ==> #[trigger] outcomes@[j] == all[j],
                phase@.type_rules == v0.type_rules,
                phase@.states == run_prefix(v0.states, rules@, all, *params, i as nat).0,
                phase@.states.len() == v0.states.len(),
                signal_queue@.len() == q0.len() + run_prefix(
                    v0.states,
                    rules@,
                    all,
                    *params,
                    i as nat,
                ).1.len(),
                signal_queue@.take(q0.len() as int) == q0,
                forall|j: int|
                    0 <= j < run_prefix(v0.states, rules@, all, *params, i as nat).1.len()
                        ==> entry_for(
                        #[trigger] signal_queue@[q0.len() + j],
                        run_prefix(v0.states, rules@, all, *params, i as nat).1[j].0,
                        run_prefix(v0.states, rules@, all, *params, i as nat).1[j].1,
                        params.range,
                    ),
            decreases rules@.len() - i,
        {
            let rule = rules[i];
            let mut outcome = RuleOutcome::ContextError;
            std::mem::swap(&mut outcome, &mut outcomes[i]);
            assert(outcome == all[i as int]);
            let mut state = RuleState::new();
            assert(rule.state_index < phase@.states.len());
            std::mem::swap(&mut state, &mut phase.rule_states[rule.state_index]);
            let ghost prev = run_prefix(v0.states, rules@, all, *params, i as nat);
            let ghost q1 = signal_queue@;
            assert(state@ == prev.0[rule.state_index as int]);
            let _ = state.run(rule, params, outcome, signal_queue);
            std::mem::swap(&mut state, &mut phase.rule_states[rule.state_index]);
            proof {
                let next = run_prefix(v0.states, rules@, all, *params, (i + 1) as nat);
                let em = emitted(prev.0[rule.state_index as int], *params, all[i as int]);
                assert(phase@.states =~= next.0);
                assert(next.1 == prev.1 + em.map_values(|d: RuleSignalData| (rule, d)));
                assert(signal_queue@.take(q0.len() as int) =~= q0) by {
                    assert(signal_queue@.take(q1.len() as int) == q1);
                    assert forall|j: int| 0 <= j < q0.len() implies signal_queue@[j] == q0[j] by {
                        assert(signal_queue@.take(q1.len() as int)[j] == q1[j]);
                        assert(q1.take(q0.len() as int)[j] == q0[j]);
                    }
                }
                assert forall|j: int| 0 <= j < next.1.len() implies entry_for(
                    #[trigger] signal_queue@[q0.len() + j],
                    next.1[j].0,
                    next.1[j].1,
                    params.range,
                ) by {
                    if j < prev.1.len() {
                        assert(signal_queue@.take(q1.len() as int)[q0.len() + j] == q1[q0.len() + j]);
                    } else {
                        let m = j - prev.1.len();
                        assert(q0.len() + j == q1.len() + m);
                    }
                }
            }
            i = i + 1;
        }
        proof {
            lemma_phase_wf_same_tables(v0, phase@);
        }
        std::mem::swap(&mut phase, &mut self.phase_rules[index]);
    }
}

} // verus!
