//! Identifiers of rule groups and rules, and the order on them.
use vstd::prelude::*;
use crate::order::{compare_str, lemma_str_equal, lemma_str_flip, lemma_str_less_transitive, str_order, Order};

verus! {

/// Identifies a group of rules by its name.
#[derive(Clone, Copy, Debug, PartialEq, Eq, Hash)]
pub struct GroupKey {
    group: &'static str,
}

impl View for GroupKey {
    type V = Seq<char>;

    closed spec fn view(&self) -> Seq<char> {
        self.group@
    }
}

impl GroupKey {
    pub fn new(group: &'static str) -> (r: GroupKey)
        ensures
            r@ == group@,
    {
        GroupKey { group }
    }

    /// The name of the group.
    pub fn group(&self) -> (r: &'static str)
        ensures
            r@ == self@,
    {
        self.group
    }
}

/// Identifies a rule by the name of its group and its own name.
#[derive(Clone, Copy, Debug, PartialEq, Eq, Hash)]
pub struct RuleKey {
    group: &'static str,
    rule: &'static str,
}

impl View for RuleKey {
    type V = (Seq<char>, Seq<char>);

    closed spec fn view(&self) -> (Seq<char>, Seq<char>) {
        (self.group@, self.rule@)
    }
}

impl RuleKey {
    pub fn new(group: &'static str, rule: &'static str) -> (r: RuleKey)
        ensures
            r@ == (group@, rule@),
    {
        RuleKey { group, rule }
    }

    /// The name of the rule's group.
    pub fn group(&self) -> (r: &'static str)
        ensures
            r@ == self@.0,
    {
        self.group
    }

    /// The name of the rule.
    pub fn rule_name(&self) -> (r: &'static str)
        ensures
            r@ == self@.1,
    {
        self.rule
    }

    /// Whether two keys name the same rule.
    pub fn same_rule(&self, other: &RuleKey) -> (r: bool)
        ensures
            r == (self@ == other@),
    {
        proof {
            lemma_str_equal(self.group@, other.group@);
            lemma_str_equal(self.rule@, other.rule@);
        }
        let g = compare_str(self.group, other.group);
        let n = compare_str(self.rule, other.rule);
        g == Order::Equal && n == Order::Equal
    }
}

/// Order of (group, rule) name pairs: by group first, then by rule.
pub open spec fn pair_order(a: (Seq<char>, Seq<char>), b: (Seq<char>, Seq<char>)) -> Order {
    if str_order(a.0, b.0) != Order::Equal {
        str_order(a.0, b.0)
    } else {
        str_order(a.1, b.1)
    }
}

/// Two pairs compare equal exactly when they are the same pair.
pub proof fn lemma_pair_equal(a: (Seq<char>, Seq<char>), b: (Seq<char>, Seq<char>))
    ensures
        (pair_order(a, b) == Order::Equal) <==> (a == b),
{
    lemma_str_equal(a.0, b.0);
    lemma_str_equal(a.1, b.1);
}

/// Swapping the operands swaps `Less` and `Greater`.
pub proof fn lemma_pair_flip(a: (Seq<char>, Seq<char>), b: (Seq<char>, Seq<char>))
    ensures
        (pair_order(a, b) == Order::Less) <==> (pair_order(b, a) == Order::Greater),
{
    lemma_str_flip(a.0, b.0);
    lemma_str_flip(a.1, b.1);
    lemma_str_equal(a.0, b.0);
    lemma_str_equal(b.0, a.0);
}

/// `Less` is transitive on pairs.
pub proof fn lemma_pair_less_transitive(
    a: (Seq<char>, Seq<char>),
    b: (Seq<char>, Seq<char>),
    c: (Seq<char>, Seq<char>),
)
    requires
        pair_order(a, b) == Order::Less,
        pair_order(b, c) == Order::Less,
    ensures
        pair_order(a, c) == Order::Less,
{
    lemma_str_equal(a.0, b.0);
    lemma_str_equal(b.0, c.0);
    lemma_str_equal(a.0, c.0);
    if str_order(a.0, b.0) == Order::Less && str_order(b.0, c.0) == Order::Less {
        lemma_str_less_transitive(a.0, b.0, c.0);
    } else if str_order(a.0, b.0) == Order::Equal && str_order(b.0, c.0) == Order::Equal {
        lemma_str_less_transitive(a.1, b.1, c.1);
    }
}

/// Compares two (group, rule) pairs by group, then by rule.
pub fn compare_pair(a: (&str, &str), b: (&str, &str)) -> (r: Order)
    ensures
        r == pair_order((a.0@, a.1@), (b.0@, b.1@)),
{
    let g = compare_str(a.0, b.0);
    if g != Order::Equal {
        g
    } else {
        compare_str(a.1, b.1)
    }
}

} // verus!
