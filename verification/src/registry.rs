//! Analysis phases and the alphabetically sorted registry of rule metadata.
use vstd::prelude::*;
use crate::keys::{
    compare_pair, lemma_pair_equal, lemma_pair_flip, lemma_pair_less_transitive, pair_order,
    GroupKey, RuleKey,
};
use crate::order::{compare_str, lemma_str_equal, Order};
use crate::seqs::lemma_insert_to_set;

verus! {

/// The phases a rule can run in.
#[derive(Clone, Copy, Debug, PartialEq, Eq, PartialOrd, Ord, Hash, Structural)]
pub enum Phases {
    Syntax,
    Semantic,
}

impl Phases {
    /// The position of the phase in the order in which phases run.
    pub open spec fn spec_index(self) -> usize {
        match self {
            Phases::Syntax => 0,
            Phases::Semantic => 1,
        }
    }

    /// The position of the phase in the order in which phases run.
    pub fn index(self) -> (r: usize)
        ensures
            r == self.spec_index(),
    {
        match self {
            Phases::Syntax => 0,
            Phases::Semantic => 1,
        }
    }
}

/// Defines in which phase a rule runs, from the services it demands.
pub trait Phase {
    fn phase() -> Phases;
}

/// A rule that needs no service runs in the syntax phase.
impl Phase for () {
    fn phase() -> (r: Phases)
        ensures
            r == Phases::Syntax,
    {
        Phases::Syntax
    }
}

/// The metadata of a rule that the registry keeps: its name.
#[derive(Clone, Copy, Debug)]
pub struct RuleMetadata {
    pub name: &'static str,
}

/// Metadata entry for a rule and its group.
#[derive(Clone, Copy, Debug)]
pub struct RegistryRuleMetadata {
    pub group: &'static str,
    pub rule: RuleMetadata,
}

impl RegistryRuleMetadata {
    /// The key of the rule this entry describes.
    pub fn to_rule_key(&self) -> (r: RuleKey)
        ensures
            r@ == (self.group@, self.rule.name@),
    {
        RuleKey::new(self.group, self.rule.name)
    }
}

/// A (group, rule) name pair, kept in the metadata registry.
#[derive(Clone, Copy, Debug)]
pub struct MetadataKey {
    inner: (&'static str, &'static str),
}

impl View for MetadataKey {
    type V = (Seq<char>, Seq<char>);

    closed spec fn view(&self) -> (Seq<char>, Seq<char>) {
        (self.inner.0@, self.inner.1@)
    }
}

impl MetadataKey {
    /// The key of the group this pair belongs to.
    pub fn into_group_key(self) -> (r: GroupKey)
        ensures
            r@ == self@.0,
    {
        let (group, _) = self.inner;
        GroupKey::new(group)
    }

    /// The key of the rule this pair names.
    pub fn into_rule_key(self) -> (r: RuleKey)
        ensures
            r@ == self@,
    {
        let (group, rule) = self.inner;
        RuleKey::new(group, rule)
    }
}

/// Whether a sequence of name pairs is strictly increasing.
pub open spec fn strictly_sorted(s: Seq<(Seq<char>, Seq<char>)>) -> bool {
    forall|i: int, j: int| 0 <= i < j < s.len() ==> pair_order(s[i], s[j]) == Order::Less
}

/// Whether some pair of the set belongs to the given group.
pub open spec fn has_group(keys: Set<(Seq<char>, Seq<char>)>, group: Seq<char>) -> bool {
    exists|k: (Seq<char>, Seq<char>)| #[trigger] keys.contains(k) && k.0 == group
}

/// Stores the (group, rule) names of all the rules, sorted alphabetically.
pub struct MetadataRegistry {
    inner: Vec<MetadataKey>,
}

impl View for MetadataRegistry {
    type V = Set<(Seq<char>, Seq<char>)>;

    closed spec fn view(&self) -> Set<(Seq<char>, Seq<char>)> {
        self.keys().to_set()
    }
}

impl MetadataRegistry {
    /// The stored pairs, in the order in which they are kept.
    pub closed spec fn keys(&self) -> Seq<(Seq<char>, Seq<char>)> {
        self.inner@.map_values(|k: MetadataKey| k@)
    }

    /// The pairs are kept sorted alphabetically, each once.
    pub open spec fn wf(&self) -> bool {
        strictly_sorted(self.keys())
    }

    /// A registry that knows no rule.
    pub fn new() -> (r: MetadataRegistry)
        ensures
            r.wf(),
            r@ == Set::<(Seq<char>, Seq<char>)>::empty(),
            r.keys().len() == 0,
    {
        let r = MetadataRegistry { inner: Vec::new() };
        assert(r.keys() =~= Seq::empty());
        assert(r@ =~= Set::empty());
        r
    }

    /// Return a unique identifier for a rule group if it's known by this registry.
    pub fn find_group(&self, group: &str) -> (r: Option<GroupKey>)
        ensures
            r is Some <==> has_group(self@, group@),
            r matches Some(k) ==> k@ == group@,
    {
        let mut i: usize = 0;
        while i < self.inner.len()
            invariant
                0 <= i <= self.inner@.len(),
                self.keys().len() == self.inner@.len(),
                forall|j: int| 0 <= j < i ==> #[trigger] self.keys()[j].0 != group@,
            decreases self.inner@.len() - i,
        {
            let key = self.inner[i];
            proof {
                lemma_str_equal(key@.0, group@);
                assert(self.keys()[i as int] == key@);
            }
            if compare_str(key.inner.0, group) == Order::Equal {
                assert(self.keys().contains(key@));
                assert(self@.contains(key@));
                return Some(key.into_group_key());
            }
            i = i + 1;
        }
        proof {
            if has_group(self@, group@) {
                let k = choose|k: (Seq<char>, Seq<char>)| #[trigger] self@.contains(k) && k.0 == group@;
                let j = choose|j: int| 0 <= j < self.keys().len() && self.keys()[j] == k;
                assert(self.keys()[j].0 != group@);
            }
        }
        None
    }

    /// Return a unique identifier for a rule if it's known by this registry.
    pub fn find_rule(&self, group: &str, rule: &str) -> (r: Option<RuleKey>)
        ensures
            r is Some <==> self@.contains((group@, rule@)),
            r matches Some(k) ==> k@ == (group@, rule@),
    {
        let mut i: usize = 0;
        while i < self.inner.len()
            invariant
                0 <= i <= self.inner@.len(),
                self.keys().len() == self.inner@.len(),
                forall|j: int| 0 <= j < i ==> #[trigger] self.keys()[j] != (group@, rule@),
            decreases self.inner@.len() - i,
        {
            let key = self.inner[i];
            proof {
                lemma_pair_equal(key@, (group@, rule@));
                assert(self.keys()[i as int] == key@);
            }
            if compare_pair(key.inner, (group, rule)) == Order::Equal {
                assert(self.keys().contains(key@));
                return Some(key.into_rule_key());
            }
            i = i + 1;
        }
        None
    }

    /// Records the pair (`group`, `rule`); a pair already known stays as it is.
    pub fn insert_rule(&mut self, group: &'static str, rule: &'static str)
        requires
            old(self).wf(),
        ensures
            final(self).wf(),
            final(self)@ == old(self)@.insert((group@, rule@)),
    {
        let key = MetadataKey { inner: (group, rule) };
        let ghost new = key@;
        let ghost before = self.keys();
        let mut i: usize = 0;
        let mut found = false;
        let mut passed = false;
        while i < self.inner.len() && !found && !passed
            invariant
                self.wf(),
                new == key@,
                new == (group@, rule@),
                self.keys() == before,
                before.len() == self.inner@.len(),
                0 <= i <= before.len(),
                forall|j: int| 0 <= j < i ==> pair_order(#[trigger] before[j], new) == Order::Less,
                found ==> i < before.len() && before[i as int] == new,
                passed ==> i < before.len() && pair_order(before[i as int], new) == Order::Greater,
            decreases before.len() - i + (if found || passed { 0int } else { 1int }),
        {
            let cur = self.inner[i];
            let o = compare_pair(cur.inner, key.inner);
            proof {
                assert(cur == self.inner@[i as int]);
                lemma_pair_equal(before[i as int], new);
            }
            match o {
                Order::Less => {
                    i = i + 1;
                },
                Order::Equal => {
                    found = true;
                },
                Order::Greater => {
                    passed = true;
                },
            }
        }
        if found {
            assert(before.contains(new));
            assert(self@ =~= self@.insert(new));
            return;
        }
        proof {
            if i < before.len() {
                lemma_pair_flip(new, before[i as int]);
                lemma_pair_equal(before[i as int], new);
            }
        }
        self.inner.insert(i, key);
        let ghost after = self.keys();
        assert(after =~= before.insert(i as int, new));
        assert forall|p: int, q: int| 0 <= p < q < after.len() implies pair_order(
            after[p],
            after[q],
        ) == Order::Less by {
            if q == i {
            } else if p == i {
                if q - 1 > i {
                    lemma_pair_less_transitive(new, before[i as int], before[q - 1]);
                }
            } else if p < i && q > i {
            }
        }
        proof {
            lemma_insert_to_set(before, i as int, new);
        }
        assert(self@ =~= old(self)@.insert(new));
    }
}

/// The registry holds its pairs in alphabetical order, each once, and its
/// pairs are the ones it holds.
pub proof fn lemma_keys_alphabetical(reg: &MetadataRegistry)
    requires
        reg.wf(),
    ensures
        reg@ == reg.keys().to_set(),
        forall|i: int, j: int|
            0 <= i < j < reg.keys().len() ==> pair_order(reg.keys()[i], reg.keys()[j]) == Order::Less
                && reg.keys()[i] != reg.keys()[j],
{
    assert forall|i: int, j: int| 0 <= i < j < reg.keys().len() implies pair_order(
        reg.keys()[i],
        reg.keys()[j],
    ) == Order::Less && reg.keys()[i] != reg.keys()[j] by {
        lemma_pair_equal(reg.keys()[i], reg.keys()[j]);
    }
}

/// Two strictly sorted sequences of the same pairs are the same sequence.
pub proof fn lemma_sorted_by_set(s1: Seq<(Seq<char>, Seq<char>)>, s2: Seq<(Seq<char>, Seq<char>)>)
    requires
        strictly_sorted(s1),
        strictly_sorted(s2),
        s1.to_set() == s2.to_set(),
    ensures
        s1 == s2,
    decreases s1.len(),
{
    if s1.len() == 0 {
        if s2.len() > 0 {
            assert(s2.to_set().contains(s2[0]));
        }
        assert(s1 =~= s2);
    } else {
        assert(s1.to_set().contains(s1[0]));
        assert(s2.len() > 0) by {
            if s2.len() == 0 {
                assert(s2.to_set() =~= Set::empty());
            }
        }
        assert(s2.to_set().contains(s2[0]));
        let i = choose|i: int| 0 <= i < s1.len() && s1[i] == s2[0];
        let j = choose|j: int| 0 <= j < s2.len() && s2[j] == s1[0];
        if i > 0 && j > 0 {
            lemma_pair_flip(s1[0], s2[0]);
            lemma_pair_flip(s2[0], s1[0]);
        }
        let x = s1[0];
        assert(x == s2[0]) by {
            if i == 0 {
            } else if j == 0 {
            } else {
                lemma_pair_flip(s1[0], s2[0]);
            }
        }
        let t1 = s1.drop_first();
        let t2 = s2.drop_first();
        assert forall|k: int| 0 <= k < t1.len() implies t1[k] != x by {
            lemma_pair_equal(x, s1[k + 1]);
            lemma_pair_equal(x, x);
        }
        assert forall|k: int| 0 <= k < t2.len() implies t2[k] != x by {
            lemma_pair_equal(x, s2[k + 1]);
            lemma_pair_equal(x, x);
        }
        assert forall|y: (Seq<char>, Seq<char>)| #[trigger] t1.to_set().contains(y) <==> t2.to_set().contains(y) by {
            if t1.contains(y) {
                let k = choose|k: int| 0 <= k < t1.len() && t1[k] == y;
                assert(s1[k + 1] == y);
                assert(s2.to_set().contains(y));
                let m = choose|m: int| 0 <= m < s2.len() && s2[m] == y;
                assert(m != 0);
                assert(t2[m - 1] == y);
            }
            if t2.contains(y) {
                let k = choose|k: int| 0 <= k < t2.len() && t2[k] == y;
                assert(s2[k + 1] == y);
                assert(s1.to_set().contains(y));
                let m = choose|m: int| 0 <= m < s1.len() && s1[m] == y;
                assert(m != 0);
                assert(t1[m - 1] == y);
            }
        }
        assert(t1.to_set() =~= t2.to_set());
        assert(strictly_sorted(t1)) by {
            assert forall|a: int, b: int| 0 <= a < b < t1.len() implies pair_order(t1[a], t1[b])
                == Order::Less by {
                assert(t1[a] == s1[a + 1] && t1[b] == s1[b + 1]);
            }
        }
        assert(strictly_sorted(t2)) by {
            assert forall|a: int, b: int| 0 <= a < b < t2.len() implies pair_order(t2[a], t2[b])
                == Order::Less by {
                assert(t2[a] == s2[a + 1] && t2[b] == s2[b + 1]);
            }
        }
        lemma_sorted_by_set(t1, t2);
        assert(s1 =~= seq![x] + t1);
        assert(s2 =~= seq![x] + t2);
    }
}

/// Two registries that know the same pairs keep them in the same order,
/// whatever order they were recorded in.
pub proof fn lemma_same_pairs_same_order(r1: &MetadataRegistry, r2: &MetadataRegistry)
    requires
        r1.wf(),
        r2.wf(),
        r1@ == r2@,
    ensures
        r1.keys() == r2.keys(),
{
    lemma_sorted_by_set(r1.keys(), r2.keys());
}

/// A group is known exactly when some recorded pair has it as its group: a
/// name that only appears as a rule's name is no group.
pub proof fn lemma_group_known_iff_pair(keys: Set<(Seq<char>, Seq<char>)>, group: Seq<char>)
    ensures
        has_group(keys, group) <==> exists|rule: Seq<char>| #[trigger] keys.contains((group, rule)),
{
    if has_group(keys, group) {
        let k = choose|k: (Seq<char>, Seq<char>)| #[trigger] keys.contains(k) && k.0 == group;
        assert(keys.contains((group, k.1)));
    }
    if exists|rule: Seq<char>| #[trigger] keys.contains((group, rule)) {
        let rule = choose|rule: Seq<char>| #[trigger] keys.contains((group, rule));
        assert(keys.contains((group, rule)) && (group, rule).0 == group);
    }
}

/// In a registry that holds only (`group`, `rule`), `group` is found and the
/// rule's name is not, unless it names the same group.
pub proof fn lemma_rule_name_is_no_group(group: Seq<char>, rule: Seq<char>)
    ensures
        has_group(Set::empty().insert((group, rule)), group),
        rule != group ==> !has_group(Set::empty().insert((group, rule)), rule),
{
    lemma_group_known_iff_pair(Set::empty().insert((group, rule)), group);
    lemma_group_known_iff_pair(Set::empty().insert((group, rule)), rule);
    assert(Set::<(Seq<char>, Seq<char>)>::empty().insert((group, rule)).contains((group, rule)));
}

/// Once the pair (`group`, `rule`) is recorded, the rule is found, and so is its group.
pub proof fn lemma_recorded_rule_is_found(
    keys: Set<(Seq<char>, Seq<char>)>,
    group: Seq<char>,
    rule: Seq<char>,
)
    ensures
        keys.insert((group, rule)).contains((group, rule)),
        has_group(keys.insert((group, rule)), group),
{
    assert(keys.insert((group, rule)).contains((group, rule)));
}

/// The group of a rule that is found is found too.
pub proof fn lemma_found_rule_has_group(
    keys: Set<(Seq<char>, Seq<char>)>,
    group: Seq<char>,
    rule: Seq<char>,
)
    requires
        keys.contains((group, rule)),
    ensures
        has_group(keys, group),
{
}

/// Recording a pair that is already known changes nothing.
pub proof fn lemma_record_known_pair(
    keys: Set<(Seq<char>, Seq<char>)>,
    group: Seq<char>,
    rule: Seq<char>,
)
    requires
        keys.contains((group, rule)),
    ensures
        keys.insert((group, rule)) == keys,
{
    assert(keys.insert((group, rule)) =~= keys);
}

impl Default for MetadataRegistry {
    fn default() -> (r: MetadataRegistry)
        ensures
            r.wf(),
            r@ == Set::<(Seq<char>, Seq<char>)>::empty(),
    {
        MetadataRegistry::new()
    }
}

} // verus!
