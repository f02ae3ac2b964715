//! Tool policy: which tool invocations pass at once and which are held for
//! the operator.

use vstd::prelude::*;
use vstd::string::*;
use crate::text::texts;

verus! {

/// How risky a tool is. `Verify` and `Deny` tools are always held for
/// operator review; `Allow` tools run unattended unless one of their threat
/// patterns flags the invocation's arguments.
#[derive(Debug, Clone, Copy, PartialEq, Eq, Structural)]
pub enum RiskTier {
    Allow,
    Verify,
    Deny,
}

/// What the policy decides for one tool invocation.
#[derive(Debug, Clone, Copy, PartialEq, Eq, Structural)]
pub enum PolicyDecision {
    Pass,
    Escalate,
}

/// The policy of one tool: its tier and the regular expressions that mark
/// threatening arguments.
#[derive(Debug, Clone)]
pub struct CompiledToolPolicy {
    pub risk_tier: RiskTier,
    pub patterns: Vec<String>,
}

/// The tier and the pattern texts of a tool policy.
pub open spec fn policy_view(p: CompiledToolPolicy) -> (RiskTier, Seq<Seq<char>>) {
    (p.risk_tier, texts(p.patterns@))
}

/// What `regex::Regex::new(pattern)` followed by `is_match(text)` gives:
/// `None` when the pattern does not compile, else whether the compiled
/// expression matches somewhere in `text`.
pub uninterp spec fn pattern_search(pattern: Seq<char>, text: Seq<char>) -> Option<bool>;

/// Compiles `pattern` with `regex::Regex::new` and, when that succeeds,
/// searches `text` with `Regex::is_match`. The contract claims only that the
/// result is a function of the two texts, named `pattern_search`; neither
/// call panics on any input.
#[verifier::external_body]
fn search_pattern(pattern: &str, text: &str) -> (res: Option<bool>)
    ensures
        res == pattern_search(pattern@, text@),
{
    match regex::Regex::new(pattern) {
        Ok(re) => Some(re.is_match(text)),
        Err(_) => None,
    }
}

/// A pattern flags the arguments when it matches them, and also when it
/// does not compile: a broken pattern holds the invocation rather than let
/// it through.
pub open spec fn flags(pattern: Seq<char>, arguments: Seq<char>) -> bool {
    pattern_search(pattern, arguments) != Some(false)
}

pub open spec fn any_flags(patterns: Seq<Seq<char>>, arguments: Seq<char>) -> bool {
    exists|i: int| 0 <= i < patterns.len() && #[trigger] flags(patterns[i], arguments)
}

/// The decision for an invocation with `arguments` of a tool whose policy
/// is `entry`; a tool the policy does not list passes.
pub open spec fn decision_for(entry: Option<(RiskTier, Seq<Seq<char>>)>, arguments: Seq<char>) -> PolicyDecision {
    match entry {
        None => PolicyDecision::Pass,
        Some((RiskTier::Allow, patterns)) => if any_flags(patterns, arguments) {
            PolicyDecision::Escalate
        } else {
            PolicyDecision::Pass
        },
        Some(_) => PolicyDecision::Escalate,
    }
}

/// The policy of the first entry at or after `i` named `name`.
pub open spec fn lookup_from(
    tools: Seq<(String, CompiledToolPolicy)>,
    name: Seq<char>,
    i: nat,
) -> Option<(RiskTier, Seq<Seq<char>>)>
    decreases tools.len() - i,
{
    if i >= tools.len() {
        None
    } else if tools[i as int].0@ == name {
        Some(policy_view(tools[i as int].1))
    } else {
        lookup_from(tools, name, i + 1)
    }
}

pub open spec fn names_distinct(tools: Seq<(String, CompiledToolPolicy)>) -> bool {
    forall|i: int, j: int| 0 <= i < j < tools.len() ==> tools[i].0@ != tools[j].0@
}

/// Tool policies by tool name; each name occurs once.
pub struct PolicyEngine {
    tools: Vec<(String, CompiledToolPolicy)>,
}

impl PolicyEngine {
    #[verifier::type_invariant]
    spec fn inv(self) -> bool {
        names_distinct(self.tools@)
    }

    /// The policy of the tool `name`, if the policy lists it.
    pub closed spec fn entry(&self, name: Seq<char>) -> Option<(RiskTier, Seq<Seq<char>>)> {
        lookup_from(self.tools@, name, 0)
    }

    /// The decision for an invocation of the tool `name` with `arguments`.
    pub open spec fn decision(&self, name: Seq<char>, arguments: Seq<char>) -> PolicyDecision {
        decision_for(self.entry(name), arguments)
    }

    /// A policy that lists no tool.
    pub fn new() -> (engine: Self)
        ensures
            forall|name: Seq<char>| #[trigger] engine.entry(name) is None,
    {
        PolicyEngine { tools: Vec::new() }
    }

    /// Index of the entry named `name`, if any.
    fn position(&self, name: &String) -> (res: Option<usize>)
        ensures
            match res {
                Some(k) => {
                    &&& k < self.tools@.len()
                    &&& self.tools@[k as int].0@ == name@
                    &&& forall|j: int| 0 <= j < k ==> self.tools@[j].0@ != name@
                },
                None => forall|j: int| 0 <= j < self.tools@.len() ==> self.tools@[j].0@ != name@,
            },
    {
        let n = self.tools.len();
        let mut i: usize = 0;
        while i < n
            invariant
                n == self.tools@.len(),
                i <= n,
                forall|j: int| 0 <= j < i ==> self.tools@[j].0@ != name@,
            decreases n - i,
        {
            if self.tools[i].0 == *name {
                return Some(i);
            }
            i = i + 1;
        }
        None
    }

    /// Sets the policy of the tool `name`, replacing the one it had.
    pub fn insert(&mut self, name: String, policy: CompiledToolPolicy)
        ensures
            final(self).entry(name@) == Some(policy_view(policy)),
            forall|other: Seq<char>| other != name@ ==> #[trigger] final(self).entry(other) == old(self).entry(other),
    {
        proof { use_type_invariant(&*self); }
        let ghost old_tools = self.tools@;
        let ghost entry = (name, policy);
        let position = self.position(&name);
        let mut tools: Vec<(String, CompiledToolPolicy)> = Vec::new();
        std::mem::swap(&mut tools, &mut self.tools);
        match position {
            Some(k) => {
                tools.set(k, (name, policy));
                proof {
                    assert(tools@ == old_tools.update(k as int, entry));
                    assert forall|i: int, j: int| 0 <= i < j < tools@.len() implies tools@[i].0@ != tools@[j].0@ by {
                        assert(old_tools[i].0@ != old_tools[j].0@);
                    }
                    lemma_lookup_replaced(old_tools, k as nat, entry, 0);
                }
            },
            None => {
                tools.push((name, policy));
                proof {
                    assert(tools@ == old_tools.push(entry));
                    lemma_lookup_pushed(old_tools, entry, 0);
                }
            },
        }
        self.tools = tools;
    }

    /// The tier of the tool `tool_name`, if the policy lists it.
    pub fn tier_of(&self, tool_name: &str) -> (res: Option<RiskTier>)
        ensures
            res == match self.entry(tool_name@) {
                Some(e) => Some(e.0),
                None => None,
            },
    {
        let key = String::from_str(tool_name);
        match self.position(&key) {
            Some(k) => {
                proof { lemma_lookup_first(self.tools@, key@, k as nat, 0); }
                Some(self.tools[k].1.risk_tier)
            },
            None => {
                proof { lemma_lookup_absent(self.tools@, key@, 0); }
                None
            },
        }
    }

    /// Decides an invocation of `tool_name` with `arguments`: an unlisted
    /// tool passes; a `Verify` or `Deny` tool is escalated to the operator;
    /// an `Allow` tool is escalated when one of its patterns matches the
    /// arguments or does not compile, and passes otherwise.
    pub fn evaluate(&self, tool_name: &str, arguments: &str) -> (res: PolicyDecision)
        ensures
            res == self.decision(tool_name@, arguments@),
    {
        let key = String::from_str(tool_name);
        match self.position(&key) {
            Some(k) => {
                proof { lemma_lookup_first(self.tools@, key@, k as nat, 0); }
                match self.tools[k].1.risk_tier {
                    RiskTier::Allow => {
                        if any_pattern_flags(&self.tools[k].1.patterns, arguments) {
                            PolicyDecision::Escalate
                        } else {
                            PolicyDecision::Pass
                        }
                    },
                    _ => PolicyDecision::Escalate,
                }
            },
            None => {
                proof { lemma_lookup_absent(self.tools@, key@, 0); }
                PolicyDecision::Pass
            },
        }
    }
}

impl Default for PolicyEngine {
    /// A policy that lists no tool.
    fn default() -> (engine: Self)
        ensures
            forall|name: Seq<char>| #[trigger] engine.entry(name) is None,
    {
        PolicyEngine::new()
    }
}

/// Whether one of `patterns` flags `arguments`.
fn any_pattern_flags(patterns: &Vec<String>, arguments: &str) -> (res: bool)
    ensures
        res == any_flags(texts(patterns@), arguments@),
{
    let ghost pats = texts(patterns@);
    let n = patterns.len();
    let mut i: usize = 0;
    while i < n
        invariant
            n == patterns@.len(),
            pats == texts(patterns@),
            i <= n,
            forall|j: int| 0 <= j < i ==> !flags(#[trigger] pats[j], arguments@),
        decreases n - i,
    {
        let verdict = search_pattern(patterns[i].as_str(), arguments);
        assert(pats[i as int] == patterns@[i as int]@);
        match verdict {
            Some(false) => {},
            _ => {
                assert(flags(pats[i as int], arguments@));
                return true;
            },
        }
        i = i + 1;
    }
    false
}

/// `Verify` and `Deny` tools are always held for the operator, whatever
/// their patterns and the arguments.
pub proof fn law_reviewed_tiers_always_escalate(engine: PolicyEngine, name: Seq<char>, arguments: Seq<char>)
    requires
        engine.entry(name) matches Some((tier, _)) && tier != RiskTier::Allow,
    ensures
        engine.decision(name, arguments) == PolicyDecision::Escalate,
{
}

/// A tool that the policy does not list runs unattended.
pub proof fn law_unlisted_tools_pass(engine: PolicyEngine, name: Seq<char>, arguments: Seq<char>)
    requires
        engine.entry(name) is None,
    ensures
        engine.decision(name, arguments) == PolicyDecision::Pass,
{
}

/// An `Allow` tool is held exactly when one of its patterns matches the
/// arguments or does not compile.
pub proof fn law_allowed_tools_held_only_on_a_threat(
    engine: PolicyEngine,
    name: Seq<char>,
    arguments: Seq<char>,
    patterns: Seq<Seq<char>>,
)
    requires
        engine.entry(name) == Some((RiskTier::Allow, patterns)),
    ensures
        engine.decision(name, arguments) == PolicyDecision::Escalate <==> exists|i: int|
            0 <= i < patterns.len() && pattern_search(#[trigger] patterns[i], arguments) != Some(false),
{
    if engine.decision(name, arguments) == PolicyDecision::Escalate {
        let i = choose|i: int| 0 <= i < patterns.len() && #[trigger] flags(patterns[i], arguments);
        assert(pattern_search(patterns[i], arguments) != Some(false));
    } else {
        assert forall|i: int| 0 <= i < patterns.len() implies pattern_search(#[trigger] patterns[i], arguments) == Some(false) by {
            assert(!flags(patterns[i], arguments));
        }
    }
}

/// A policy set by `insert` is the one that decides: after the tool is set
/// to `Verify` or `Deny` every invocation of it is held; after it is set to
/// `Allow` with no pattern every invocation of it passes.
pub proof fn law_inserted_tier_decides(
    before: PolicyEngine,
    after: PolicyEngine,
    name: Seq<char>,
    policy: CompiledToolPolicy,
    arguments: Seq<char>,
)
    requires
        after.entry(name) == Some(policy_view(policy)),
    ensures
        policy.risk_tier != RiskTier::Allow ==> after.decision(name, arguments) == PolicyDecision::Escalate,
        policy.risk_tier == RiskTier::Allow && policy.patterns@.len() == 0 ==> after.decision(name, arguments)
            == PolicyDecision::Pass,
{
}

proof fn lemma_lookup_first(tools: Seq<(String, CompiledToolPolicy)>, name: Seq<char>, k: nat, i: nat)
    requires
        i <= k < tools.len(),
        tools[k as int].0@ == name,
        forall|j: int| 0 <= j < k ==> tools[j].0@ != name,
    ensures
        lookup_from(tools, name, i) == Some(policy_view(tools[k as int].1)),
    decreases k - i,
{
    if i < k {
        lemma_lookup_first(tools, name, k, i + 1);
    }
}

proof fn lemma_lookup_absent(tools: Seq<(String, CompiledToolPolicy)>, name: Seq<char>, i: nat)
    requires
        forall|j: int| 0 <= j < tools.len() ==> tools[j].0@ != name,
    ensures
        lookup_from(tools, name, i) is None,
    decreases tools.len() - i,
{
    if i < tools.len() {
        lemma_lookup_absent(tools, name, i + 1);
    }
}

proof fn lemma_lookup_replaced(
    tools: Seq<(String, CompiledToolPolicy)>,
    k: nat,
    entry: (String, CompiledToolPolicy),
    i: nat,
)
    requires
        k < tools.len() ==> tools[k as int].0@ == entry.0@,
        k < tools.len() ==> forall|j: int| 0 <= j < k ==> tools[j].0@ != entry.0@,
    ensures
        k < tools.len() ==> i <= k ==> lookup_from(tools.update(k as int, entry), entry.0@, i) == Some(
            policy_view(entry.1),
        ),
        k < tools.len() ==> forall|other: Seq<char>| other != entry.0@ ==>
            #[trigger] lookup_from(tools.update(k as int, entry), other, i) == lookup_from(tools, other, i),
    decreases tools.len() - i,
{
    if k < tools.len() {
        let t2 = tools.update(k as int, entry);
        if i < tools.len() {
            lemma_lookup_replaced(tools, k, entry, i + 1);
            assert forall|other: Seq<char>| other != entry.0@ implies
                #[trigger] lookup_from(t2, other, i) == lookup_from(tools, other, i) by {
                assert(lookup_from(t2, other, i + 1) == lookup_from(tools, other, i + 1));
                assert(t2[i as int].0@ == other <==> tools[i as int].0@ == other);
            }
        }
    }
}

proof fn lemma_lookup_pushed(tools: Seq<(String, CompiledToolPolicy)>, entry: (String, CompiledToolPolicy), i: nat)
    requires
        forall|j: int| 0 <= j < tools.len() ==> tools[j].0@ != entry.0@,
    ensures
        i <= tools.len() ==> lookup_from(tools.push(entry), entry.0@, i) == Some(policy_view(entry.1)),
        forall|other: Seq<char>| other != entry.0@ ==>
            #[trigger] lookup_from(tools.push(entry), other, i) == lookup_from(tools, other, i),
    decreases tools.len() + 1 - i,
{
    let t2 = tools.push(entry);
    if i < t2.len() {
        lemma_lookup_pushed(tools, entry, i + 1);
        assert forall|other: Seq<char>| other != entry.0@ implies
            #[trigger] lookup_from(t2, other, i) == lookup_from(tools, other, i) by {
            assert(lookup_from(t2, other, i + 1) == lookup_from(tools, other, i + 1));
            if i < tools.len() {
                assert(t2[i as int] == tools[i as int]);
            }
        }
    }
}

} // verus!
