//! Rule categories, the filter that selects the rules to run, and the sets of
//! syntax kinds that a rule's query matches.
use vstd::prelude::*;
use crate::keys::RuleKey;
use crate::order::{compare_str, lemma_str_equal, Order};
use crate::seqs::lemma_insert_to_set;

verus! {

/// The category of a rule.
#[derive(Clone, Copy, Debug, PartialEq, Eq, Hash, Structural)]
pub enum RuleCategory {
    Syntax,
    Lint,
    Action,
    Transformation,
}

/// A set of rule categories.
#[derive(Clone, Copy, Debug, PartialEq, Eq, Structural)]
pub struct RuleCategories {
    pub syntax: bool,
    pub lint: bool,
    pub action: bool,
    pub transformation: bool,
}

impl RuleCategories {
    pub open spec fn spec_contains(self, category: RuleCategory) -> bool {
        match category {
            RuleCategory::Syntax => self.syntax,
            RuleCategory::Lint => self.lint,
            RuleCategory::Action => self.action,
            RuleCategory::Transformation => self.transformation,
        }
    }

    /// Whether the set holds `category`.
    pub fn contains(&self, category: RuleCategory) -> (r: bool)
        ensures
            r == self.spec_contains(category),
    {
        match category {
            RuleCategory::Syntax => self.syntax,
            RuleCategory::Lint => self.lint,
            RuleCategory::Action => self.action,
            RuleCategory::Transformation => self.transformation,
        }
    }

    /// The set of all categories.
    pub fn all() -> (r: RuleCategories)
        ensures
            forall|c: RuleCategory| r.spec_contains(c),
    {
        RuleCategories { syntax: true, lint: true, action: true, transformation: true }
    }
}

/// Selects a group of rules, or a single rule of a group.
#[derive(Clone, Copy, Debug)]
pub enum RuleFilter {
    Group(&'static str),
    Rule(&'static str, &'static str),
}

impl RuleFilter {
    /// Whether the filter selects the rule `key`.
    pub open spec fn spec_match_rule(self, key: (Seq<char>, Seq<char>)) -> bool {
        match self {
            RuleFilter::Group(group) => group@ == key.0,
            RuleFilter::Rule(group, rule) => group@ == key.0 && rule@ == key.1,
        }
    }

    /// Whether the filter selects the rule `key`.
    pub fn match_rule(&self, key: &RuleKey) -> (r: bool)
        ensures
            r == self.spec_match_rule(key@),
    {
        proof {
            lemma_str_equal(key@.0, key@.0);
        }
        match self {
            RuleFilter::Group(group) => {
                proof {
                    lemma_str_equal((*group)@, key@.0);
                }
                compare_str(group, key.group()) == Order::Equal
            },
            RuleFilter::Rule(group, rule) => {
                proof {
                    lemma_str_equal((*group)@, key@.0);
                    lemma_str_equal((*rule)@, key@.1);
                }
                compare_str(group, key.group()) == Order::Equal && compare_str(
                    rule,
                    key.rule_name(),
                ) == Order::Equal
            },
        }
    }
}

/// Whether some filter of `filters` selects the rule `key`.
pub open spec fn any_filter_matches(filters: Seq<RuleFilter>, key: (Seq<char>, Seq<char>)) -> bool {
    exists|i: int| 0 <= i < filters.len() && (#[trigger] filters[i]).spec_match_rule(key)
}

/// Whether some filter of `filters` selects the rule `key`.
fn any_matches(filters: &Vec<RuleFilter>, key: &RuleKey) -> (r: bool)
    ensures
        r == any_filter_matches(filters@, key@),
{
    let mut i: usize = 0;
    while i < filters.len()
        invariant
            0 <= i <= filters@.len(),
            forall|j: int| 0 <= j < i ==> !(#[trigger] filters@[j]).spec_match_rule(key@),
        decreases filters@.len() - i,
    {
        if filters[i].match_rule(key) {
            return true;
        }
        i = i + 1;
    }
    false
}

/// Which rules an analysis runs: those of the given categories that the
/// enabled filters select (all, when there are none) and no disabled filter does.
pub struct AnalysisFilter {
    pub categories: RuleCategories,
    pub enabled_rules: Option<Vec<RuleFilter>>,
    pub disabled_rules: Vec<RuleFilter>,
}

impl AnalysisFilter {
    /// Whether the filter lets the rule `key`, of category `category`, run.
    pub open spec fn spec_match_rule(&self, key: (Seq<char>, Seq<char>), category: RuleCategory) -> bool {
        &&& self.categories.spec_contains(category)
        &&& match self.enabled_rules {
            None => true,
            Some(enabled) => any_filter_matches(enabled@, key),
        }
        &&& !any_filter_matches(self.disabled_rules@, key)
    }

    /// A filter that lets every rule run.
    pub fn all() -> (r: AnalysisFilter)
        ensures
            forall|key: (Seq<char>, Seq<char>), c: RuleCategory| r.spec_match_rule(key, c),
    {
        AnalysisFilter {
            categories: RuleCategories::all(),
            enabled_rules: None,
            disabled_rules: Vec::new(),
        }
    }

    /// Whether the category is one the analysis runs.
    pub fn match_category(&self, category: RuleCategory) -> (r: bool)
        ensures
            r == self.categories.spec_contains(category),
    {
        self.categories.contains(category)
    }

    /// Whether the filter lets the rule `key`, of category `category`, run.
    pub fn match_rule(&self, key: &RuleKey, category: RuleCategory) -> (r: bool)
        ensures
            r == self.spec_match_rule(key@, category),
    {
        if !self.match_category(category) {
            return false;
        }
        let enabled = match &self.enabled_rules {
            None => true,
            Some(enabled) => any_matches(enabled, key),
        };
        enabled && !any_matches(&self.disabled_rules, key)
    }
}

/// A rule filter selects a rule when it names the rule's group, or the rule's
/// group and the rule itself.
pub open spec fn names_rule(filter: RuleFilter, key: (Seq<char>, Seq<char>)) -> bool {
    match filter {
        RuleFilter::Group(group) => group@ == key.0,
        RuleFilter::Rule(group, rule) => group@ == key.0 && rule@ == key.1,
    }
}

/// What the filter lets run: a rule that some disabled filter names never runs,
/// whatever the enabled filters; a rule of a category outside the analysis
/// never runs; when enabled filters are given, a rule none of them names never
/// runs; and every other rule runs.
pub proof fn lemma_filter_decides(f: &AnalysisFilter, key: (Seq<char>, Seq<char>), category: RuleCategory)
    ensures
        (exists|i: int|
            0 <= i < f.disabled_rules@.len() && names_rule(#[trigger] f.disabled_rules@[i], key))
            ==> !f.spec_match_rule(key, category),
        !f.categories.spec_contains(category) ==> !f.spec_match_rule(key, category),
        (f.enabled_rules matches Some(enabled) && !exists|i: int|
            0 <= i < enabled@.len() && names_rule(#[trigger] enabled@[i], key)) ==> !f.spec_match_rule(
            key,
            category,
        ),
        (f.categories.spec_contains(category) && (f.enabled_rules matches Some(enabled)
            ==> exists|i: int| 0 <= i < enabled@.len() && names_rule(#[trigger] enabled@[i], key))
            && !exists|i: int|
            0 <= i < f.disabled_rules@.len() && names_rule(#[trigger] f.disabled_rules@[i], key))
            ==> f.spec_match_rule(key, category),
{
    if exists|i: int| 0 <= i < f.disabled_rules@.len() && names_rule(#[trigger] f.disabled_rules@[i], key) {
        let i = choose|i: int| 0 <= i < f.disabled_rules@.len() && names_rule(#[trigger] f.disabled_rules@[i], key);
        assert(f.disabled_rules@[i].spec_match_rule(key));
    }
    if let Some(enabled) = f.enabled_rules {
        if exists|i: int| 0 <= i < enabled@.len() && names_rule(#[trigger] enabled@[i], key) {
            let i = choose|i: int| 0 <= i < enabled@.len() && names_rule(#[trigger] enabled@[i], key);
            assert(enabled@[i].spec_match_rule(key));
        }
        if any_filter_matches(enabled@, key) {
            let i = choose|i: int| 0 <= i < enabled@.len() && (#[trigger] enabled@[i]).spec_match_rule(key);
            assert(names_rule(enabled@[i], key));
        }
    }
    if any_filter_matches(f.disabled_rules@, key) {
        let i = choose|i: int| 0 <= i < f.disabled_rules@.len() && (#[trigger] f.disabled_rules@[i]).spec_match_rule(key);
        assert(names_rule(f.disabled_rules@[i], key));
    }
}

/// Whether a sequence of syntax kinds is strictly increasing.
pub open spec fn increasing_kinds(s: Seq<u16>) -> bool {
    forall|i: int, j: int| 0 <= i < j < s.len() ==> s[i] < s[j]
}

/// A set of syntax kinds, kept in increasing order.
pub struct SyntaxKindSet {
    kinds: Vec<u16>,
}

impl View for SyntaxKindSet {
    type V = Seq<u16>;

    /// The kinds of the set, in increasing order.
    closed spec fn view(&self) -> Seq<u16> {
        self.kinds@
    }
}

impl SyntaxKindSet {
    pub open spec fn wf(&self) -> bool {
        increasing_kinds(self@)
    }

    /// The empty set.
    pub fn new() -> (r: SyntaxKindSet)
        ensures
            r.wf(),
            r@ == Seq::<u16>::empty(),
    {
        SyntaxKindSet { kinds: Vec::new() }
    }

    /// Adds `kind` to the set.
    pub fn insert(&mut self, kind: u16)
        requires
            old(self).wf(),
        ensures
            final(self).wf(),
            final(self)@.to_set() == old(self)@.to_set().insert(kind),
    {
        let ghost before = self.kinds@;
        let mut i: usize = 0;
        while i < self.kinds.len() && self.kinds[i] < kind
            invariant
                self.kinds@ == before,
                increasing_kinds(before),
                0 <= i <= before.len(),
                forall|j: int| 0 <= j < i ==> before[j] < kind,
            decreases before.len() - i,
        {
            i = i + 1;
        }
        if i < self.kinds.len() && self.kinds[i] == kind {
            assert(before.to_set() =~= before.to_set().insert(kind));
            return;
        }
        self.kinds.insert(i, kind);
        let ghost after = self.kinds@;
        assert(after =~= before.insert(i as int, kind));
        proof {
            lemma_insert_to_set(before, i as int, kind);
        }
        assert(after.to_set() =~= before.to_set().insert(kind));
    }

    /// The number of kinds in the set.
    pub fn len(&self) -> (r: usize)
        ensures
            r == self@.len(),
    {
        self.kinds.len()
    }

    /// The kind at position `i`, in increasing order.
    pub fn get(&self, i: usize) -> (r: u16)
        requires
            i < self@.len(),
        ensures
            r == self@[i as int],
    {
        self.kinds[i]
    }
}

} // verus!
