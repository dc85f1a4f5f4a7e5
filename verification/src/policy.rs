//! What the recommendation policy says of each kind of finding.
use crate::text::same_text;
use vstd::prelude::*;

verus! {

/// What holds of one kind.
#[derive(Clone, Copy, PartialEq, Eq, Structural, Debug)]
pub struct Rules {
    /// The least size, in allocated bytes, of a recommendation.
    pub minimum_bytes: u64,
    /// How long nothing may have changed.
    pub quiet_days: i64,
    /// Where the kind stands among the recommendations; the smallest comes first.
    pub priority: u64,
    /// Whether it may be removed permanently.
    pub permanent: bool,
    pub checks_git: bool,
    pub checks_activity: bool,
    /// Whether measuring it goes by the rules for build output.
    pub developer_measurement: bool,
}

/// A kind with its rules.
pub struct KindRule {
    pub kind: String,
    pub rules: Rules,
}

/// The rules of all kinds, and the version they have together.
pub struct Policy {
    pub rules: Vec<KindRule>,
    pub rule_version: u32,
}

impl Policy {
    /// Whether the rule at `i` is the first one of a kind.
    pub open spec fn rules_at(self, kind: Seq<char>, i: int) -> bool {
        &&& 0 <= i < self.rules@.len()
        &&& self.rules@[i].kind@ == kind
        &&& forall|j: int| 0 <= j < i ==> (#[trigger] self.rules@[j]).kind@ != kind
    }

    /// Whether there is a rule for a kind.
    pub open spec fn has_rule(self, kind: Seq<char>) -> bool {
        exists|i: int| #[trigger] self.rules_at(kind, i)
    }

    /// The rule of a kind.
    pub open spec fn rule_of(self, kind: Seq<char>) -> Rules {
        self.rules@[choose|i: int| #[trigger] self.rules_at(kind, i)].rules
    }

    /// Looks up the rule of a kind.
    pub fn find(&self, kind: &str) -> (r: Option<Rules>)
        ensures
            match r {
                Some(rules) => self.has_rule(kind@) && rules == self.rule_of(kind@),
                None => !self.has_rule(kind@),
            },
    {
        let mut i: usize = 0;
        while i < self.rules.len()
            invariant
                i <= self.rules.len(),
                forall|j: int| 0 <= j < i ==> (#[trigger] self.rules@[j]).kind@ != kind@,
            decreases self.rules.len() - i,
        {
            if same_text(self.rules[i].kind.as_str(), kind) {
                proof {
                    assert(self.rules_at(kind@, i as int));
                    let c = choose|c: int| #[trigger] self.rules_at(kind@, c);
                    if c < i {
                        assert(self.rules@[c].kind@ != kind@);
                    } else if i < c {
                        assert(self.rules@[i as int].kind@ != kind@);
                    }
                }
                return Some(self.rules[i].rules);
            }
            i = i + 1;
        }
        None
    }

    /// Whether a size is enough for a recommendation of this kind. A kind
    /// without rules is never recommended.
    pub open spec fn large_enough(self, kind: Seq<char>, bytes: u64) -> bool {
        self.has_rule(kind) && bytes >= self.rule_of(kind).minimum_bytes
    }

    pub fn is_large_enough(&self, kind: &str, bytes: u64) -> (r: bool)
        ensures
            r == self.large_enough(kind@, bytes),
    {
        match self.find(kind) {
            Some(rule) => bytes >= rule.minimum_bytes,
            None => false,
        }
    }

    /// The place of a kind among the recommendations.
    pub open spec fn rank(self, kind: Seq<char>) -> u64 {
        if self.has_rule(kind) {
            self.rule_of(kind).priority
        } else {
            u64::MAX
        }
    }

    pub fn rank_of(&self, kind: &str) -> (r: u64)
        ensures
            r == self.rank(kind@),
    {
        match self.find(kind) {
            Some(rule) => rule.priority,
            None => u64::MAX,
        }
    }
}

} // verus!
