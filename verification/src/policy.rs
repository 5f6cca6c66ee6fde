//! The approval policy: which tool calls may run without asking the user.
//!
//! A configuration holds a mode and a table of per-tool rules. `check`
//! decides `Allow` or `Ask` for a tool name:
//!
//! | Rule \ Mode   | suggest | auto-edit | yolo  |
//! |---------------|---------|-----------|-------|
//! | allow         | Allow   | Allow     | Allow |
//! | ask           | Ask     | Ask       | Allow |
//! | workspace     | Ask     | Allow     | Allow |
//! | (no match)    | Ask     | Ask       | Allow |
//!
//! A rule key is either an exact tool name or a wildcard `"prefix.*"`,
//! which matches every `"prefix.<something>"`. An exact key wins over a
//! wildcard.
use vstd::prelude::*;
use crate::text::{has_prefix, has_suffix, to_chars, str_eq, ends_with_str, starts_with};

verus! {

/// Approval mode.
#[derive(Clone, Copy, Debug, PartialEq, Eq, Structural)]
pub enum Mode {
    /// Every tool call requires explicit approval.
    Suggest,
    /// Workspace edits auto-approve; everything else asks.
    AutoEdit,
    /// Nothing asks.
    Yolo,
}

/// Per-tool rule.
#[derive(Clone, Copy, Debug, PartialEq, Eq, Structural)]
pub enum Rule {
    /// Auto-approve regardless of mode.
    Allow,
    /// Always ask (unless the mode is Yolo).
    Ask,
    /// Allowed in AutoEdit mode, asks in Suggest mode.
    Workspace,
}

/// The outcome of a policy check.
#[derive(Clone, Copy, Debug, PartialEq, Eq, Structural)]
pub enum Decision {
    Allow,
    Ask,
}

/// Limits on sub-agent spawning.
#[derive(Clone, Copy, Debug, PartialEq, Eq, Structural)]
pub struct SubagentsConfig {
    pub max_depth: u32,
    pub max_concurrent: u32,
    pub inherit_mode: bool,
}

/// The policy configuration: mode, rules table (key → rule), sub-agent limits.
#[derive(Clone, Debug)]
pub struct PolicyConfig {
    pub mode: Mode,
    pub rules: Vec<(String, Rule)>,
    pub subagents: SubagentsConfig,
}

/// Pure rule evaluation over a configuration.
#[derive(Clone, Debug)]
pub struct PolicyEngine {
    pub config: PolicyConfig,
}

impl Default for Mode {
    fn default() -> (r: Mode)
        ensures
            r == Mode::Suggest,
    {
        Mode::Suggest
    }
}

impl Default for SubagentsConfig {
    fn default() -> (r: SubagentsConfig)
        ensures
            r == (SubagentsConfig { max_depth: 0, max_concurrent: 0, inherit_mode: false }),
    {
        SubagentsConfig { max_depth: 0, max_concurrent: 0, inherit_mode: false }
    }
}

impl Default for PolicyConfig {
    fn default() -> (r: PolicyConfig)
        ensures
            r.mode == Mode::Suggest,
            r.rules@.len() == 0,
            r.subagents == (SubagentsConfig { max_depth: 0, max_concurrent: 0, inherit_mode: false }),
    {
        PolicyConfig {
            mode: Mode::Suggest,
            rules: Vec::new(),
            subagents: SubagentsConfig { max_depth: 0, max_concurrent: 0, inherit_mode: false },
        }
    }
}

/// Default sub-agent nesting depth when a configuration file leaves it out.
pub fn default_max_depth() -> (r: u32)
    ensures
        r == 4,
{
    4
}

/// Default number of concurrent sub-agents when a configuration file leaves it out.
pub fn default_max_concurrent() -> (r: u32)
    ensures
        r == 16,
{
    16
}

/// Default for whether sub-agents inherit the mode, when a configuration file leaves it out.
pub fn default_inherit_mode() -> (r: bool)
    ensures
        r == true,
{
    true
}

// ── specification ───────────────────────────────────────────────────────────

/// The rules table as (key, rule) pairs.
pub open spec fn rules_view(rules: Seq<(String, Rule)>) -> Seq<(Seq<char>, Rule)> {
    rules.map_values(|p: (String, Rule)| (p.0@, p.1))
}

/// No key occurs twice in the table (as in a map).
pub open spec fn keys_distinct(rules: Seq<(Seq<char>, Rule)>) -> bool {
    forall|i: int, j: int| 0 <= i < j < rules.len() ==> rules[i].0 != rules[j].0
}

/// `pattern` covers `tool`: equal, or `pattern` is `"prefix.*"` and `tool`
/// starts with `"prefix."`.
pub open spec fn wildcard_match(pattern: Seq<char>, tool: Seq<char>) -> bool {
    pattern == tool || (has_suffix(pattern, seq!['.', '*']) && has_prefix(
        tool,
        pattern.subrange(0, pattern.len() - 2).push('.'),
    ))
}

/// The rule of the first entry whose key is exactly `tool`.
pub open spec fn exact_rule(rules: Seq<(Seq<char>, Rule)>, tool: Seq<char>) -> Option<Rule>
    decreases rules.len(),
{
    if rules.len() == 0 {
        None
    } else if rules[0].0 == tool {
        Some(rules[0].1)
    } else {
        exact_rule(rules.drop_first(), tool)
    }
}

/// The rule of the first entry whose key covers `tool`.
pub open spec fn wildcard_rule(rules: Seq<(Seq<char>, Rule)>, tool: Seq<char>) -> Option<Rule>
    decreases rules.len(),
{
    if rules.len() == 0 {
        None
    } else if wildcard_match(rules[0].0, tool) {
        Some(rules[0].1)
    } else {
        wildcard_rule(rules.drop_first(), tool)
    }
}

/// The rule that applies to `tool`: an exact key first, else a covering key.
pub open spec fn rule_for(rules: Seq<(Seq<char>, Rule)>, tool: Seq<char>) -> Option<Rule> {
    match exact_rule(rules, tool) {
        Some(r) => Some(r),
        None => wildcard_rule(rules, tool),
    }
}

/// The decision for a rule (or no rule) under a mode other than Yolo.
pub open spec fn rule_decision(mode: Mode, rule: Option<Rule>) -> Decision {
    match rule {
        None => Decision::Ask,
        Some(Rule::Allow) => Decision::Allow,
        Some(Rule::Ask) => Decision::Ask,
        Some(Rule::Workspace) => if mode == Mode::AutoEdit {
            Decision::Allow
        } else {
            Decision::Ask
        },
    }
}

/// The decision for `tool` under a configuration.
pub open spec fn decide(mode: Mode, rules: Seq<(Seq<char>, Rule)>, tool: Seq<char>) -> Decision {
    if mode == Mode::Yolo {
        Decision::Allow
    } else {
        rule_decision(mode, rule_for(rules, tool))
    }
}

impl PolicyConfig {
    /// The rules table as (key, rule) pairs.
    pub open spec fn table(&self) -> Seq<(Seq<char>, Rule)> {
        rules_view(self.rules@)
    }
}

// ── executable ──────────────────────────────────────────────────────────────

/// Whether `pattern` covers `tool`: equal, or `"prefix.*"` against `"prefix.…"`.
pub fn matches_wildcard(pattern: &str, tool: &str) -> (r: bool)
    ensures
        r == wildcard_match(pattern@, tool@),
{
    if str_eq(pattern, tool) {
        return true;
    }
    let p = to_chars(pattern);
    if ends_with_str(&p, ".*") {
        proof {
            reveal_strlit(".*");
            assert(".*"@ =~= seq!['.', '*']);
        }
        let mut prefix: Vec<char> = Vec::new();
        let mut i: usize = 0;
        let n = p.len() - 2;
        while i < n
            invariant
                n == p@.len() - 2,
                i <= n,
                prefix@ == p@.subrange(0, i as int),
            decreases n - i,
        {
            prefix.push(p[i]);
            i = i + 1;
            assert(prefix@ =~= p@.subrange(0, i as int));
        }
        prefix.push('.');
        let t = to_chars(tool);
        starts_with(&t, &prefix)
    } else {
        proof {
            reveal_strlit(".*");
            assert(".*"@ =~= seq!['.', '*']);
        }
        false
    }
}

proof fn lemma_exact_skip(rules: Seq<(Seq<char>, Rule)>, i: int, tool: Seq<char>)
    requires
        0 <= i < rules.len(),
        rules[i].0 != tool,
    ensures
        exact_rule(rules.subrange(i, rules.len() as int), tool) == exact_rule(
            rules.subrange(i + 1, rules.len() as int),
            tool,
        ),
{
    assert(rules.subrange(i, rules.len() as int).drop_first() =~= rules.subrange(
        i + 1,
        rules.len() as int,
    ));
}

proof fn lemma_wildcard_skip(rules: Seq<(Seq<char>, Rule)>, i: int, tool: Seq<char>)
    requires
        0 <= i < rules.len(),
        !wildcard_match(rules[i].0, tool),
    ensures
        wildcard_rule(rules.subrange(i, rules.len() as int), tool) == wildcard_rule(
            rules.subrange(i + 1, rules.len() as int),
            tool,
        ),
{
    assert(rules.subrange(i, rules.len() as int).drop_first() =~= rules.subrange(
        i + 1,
        rules.len() as int,
    ));
}

impl PolicyEngine {
    /// The rules table is a map: each key at most once.
    pub open spec fn wf(&self) -> bool {
        keys_distinct(self.config.table())
    }

    /// An engine over `config`, whose rules table is a map.
    pub fn new(config: PolicyConfig) -> (r: PolicyEngine)
        requires
            keys_distinct(config.table()),
        ensures
            r.config == config,
            r.wf(),
    {
        PolicyEngine { config }
    }

    /// Whether `tool_name` may proceed without user confirmation.
    pub fn check(&self, tool_name: &str) -> (d: Decision)
        ensures
            d == decide(self.config.mode, self.config.table(), tool_name@),
    {
        if self.config.mode == Mode::Yolo {
            return Decision::Allow;
        }
        let rule = self.find_rule(tool_name);
        self.apply_rule(rule)
    }

    /// The rule that applies to `tool_name`: an exact key first, else a
    /// covering wildcard key.
    pub fn find_rule(&self, tool_name: &str) -> (r: Option<Rule>)
        ensures
            r == rule_for(self.config.table(), tool_name@),
    {
        let rules = &self.config.rules;
        let ghost tab = self.config.table();
        assert(tab.subrange(0, tab.len() as int) =~= tab);
        let mut i: usize = 0;
        while i < rules.len()
            invariant
                tab == rules_view(rules@),
                tab == self.config.table(),
                rules == &self.config.rules,
                i <= rules@.len(),
                exact_rule(tab, tool_name@) == exact_rule(
                    tab.subrange(i as int, tab.len() as int),
                    tool_name@,
                ),
            decreases rules@.len() - i,
        {
            assert(tab[i as int] == (rules@[i as int].0@, rules@[i as int].1));
            if str_eq(rules[i].0.as_str(), tool_name) {
                assert(tab.subrange(i as int, tab.len() as int)[0] == tab[i as int]);
                return Some(rules[i].1);
            }
            proof {
                lemma_exact_skip(tab, i as int, tool_name@);
            }
            i = i + 1;
        }
        let mut j: usize = 0;
        while j < rules.len()
            invariant
                tab == rules_view(rules@),
                tab == self.config.table(),
                rules == &self.config.rules,
                j <= rules@.len(),
                exact_rule(tab, tool_name@) is None,
                wildcard_rule(tab, tool_name@) == wildcard_rule(
                    tab.subrange(j as int, tab.len() as int),
                    tool_name@,
                ),
            decreases rules@.len() - j,
        {
            assert(tab[j as int] == (rules@[j as int].0@, rules@[j as int].1));
            if matches_wildcard(rules[j].0.as_str(), tool_name) {
                assert(tab.subrange(j as int, tab.len() as int)[0] == tab[j as int]);
                return Some(rules[j].1);
            }
            proof {
                lemma_wildcard_skip(tab, j as int, tool_name@);
            }
            j = j + 1;
        }
        None
    }

    /// The decision for a rule (or for no rule) under the configured mode.
    pub fn apply_rule(&self, rule: Option<Rule>) -> (d: Decision)
        ensures
            d == rule_decision(self.config.mode, rule),
    {
        match rule {
            None => Decision::Ask,
            Some(Rule::Allow) => Decision::Allow,
            Some(Rule::Ask) => Decision::Ask,
            Some(Rule::Workspace) => match self.config.mode {
                Mode::AutoEdit => Decision::Allow,
                _ => Decision::Ask,
            },
        }
    }
}

impl Mode {
    /// The mode named by its configuration spelling
    /// (`"suggest"`, `"auto-edit"`, `"yolo"`).
    pub fn from_name(name: &str) -> (r: Option<Mode>)
        ensures
            r == mode_named(name@),
    {
        if str_eq(name, "suggest") {
            Some(Mode::Suggest)
        } else if str_eq(name, "auto-edit") {
            Some(Mode::AutoEdit)
        } else if str_eq(name, "yolo") {
            Some(Mode::Yolo)
        } else {
            None
        }
    }
}

/// The mode a configuration spelling names, if any.
pub open spec fn mode_named(name: Seq<char>) -> Option<Mode> {
    if name == "suggest"@ {
        Some(Mode::Suggest)
    } else if name == "auto-edit"@ {
        Some(Mode::AutoEdit)
    } else if name == "yolo"@ {
        Some(Mode::Yolo)
    } else {
        None
    }
}

// ── laws ────────────────────────────────────────────────────────────────────

/// Yolo mode allows every tool, whatever the rules say.
pub proof fn law_yolo_allows_everything(rules: Seq<(Seq<char>, Rule)>, tool: Seq<char>)
    ensures
        decide(Mode::Yolo, rules, tool) == Decision::Allow,
{
}

/// A tool that no key names or covers is asked for in every mode but Yolo.
pub proof fn law_unknown_tool_asks(mode: Mode, rules: Seq<(Seq<char>, Rule)>, tool: Seq<char>)
    requires
        mode != Mode::Yolo,
        forall|i: int| 0 <= i < rules.len() ==> !wildcard_match(#[trigger] rules[i].0, tool),
    ensures
        decide(mode, rules, tool) == Decision::Ask,
    decreases rules.len(),
{
    lemma_no_match_none(rules, tool);
}

proof fn lemma_no_match_none(rules: Seq<(Seq<char>, Rule)>, tool: Seq<char>)
    requires
        forall|i: int| 0 <= i < rules.len() ==> !wildcard_match(#[trigger] rules[i].0, tool),
    ensures
        exact_rule(rules, tool) is None,
        wildcard_rule(rules, tool) is None,
    decreases rules.len(),
{
    if rules.len() > 0 {
        assert(!wildcard_match(rules[0].0, tool));
        let rest = rules.drop_first();
        assert forall|i: int| 0 <= i < rest.len() implies !wildcard_match(#[trigger] rest[i].0, tool) by {
            assert(rest[i] == rules[i + 1]);
        }
        lemma_no_match_none(rest, tool);
    }
}

proof fn lemma_exact_at(rules: Seq<(Seq<char>, Rule)>, k: int, tool: Seq<char>)
    requires
        keys_distinct(rules),
        0 <= k < rules.len(),
        rules[k].0 == tool,
    ensures
        exact_rule(rules, tool) == Some(rules[k].1),
    decreases rules.len(),
{
    if k > 0 {
        let rest = rules.drop_first();
        assert(rules[0].0 != rules[k].0);
        assert(rest[k - 1] == rules[k]);
        assert(keys_distinct(rest)) by {
            assert forall|i: int, j: int| 0 <= i < j < rest.len() implies rest[i].0 != rest[j].0 by {
                assert(rest[i] == rules[i + 1] && rest[j] == rules[j + 1]);
            }
        }
        lemma_exact_at(rest, k - 1, tool);
    }
}

proof fn lemma_exact_found(rules: Seq<(Seq<char>, Rule)>, tool: Seq<char>)
    ensures
        exact_rule(rules, tool) is None ==> forall|k: int| 0 <= k < rules.len() ==> #[trigger] rules[k].0 != tool,
        forall|r: Rule|
            exact_rule(rules, tool) == Some(r) ==> exists|k: int|
                0 <= k < rules.len() && #[trigger] rules[k].0 == tool && rules[k].1 == r,
    decreases rules.len(),
{
    if rules.len() > 0 {
        let rest = rules.drop_first();
        lemma_exact_found(rest, tool);
        assert forall|k: int| 1 <= k < rules.len() implies #[trigger] rules[k] == rest[k - 1] by {}
        if rules[0].0 != tool {
            assert forall|r: Rule| exact_rule(rules, tool) == Some(r) implies exists|k: int|
                0 <= k < rules.len() && #[trigger] rules[k].0 == tool && rules[k].1 == r by {
                let j = choose|j: int| 0 <= j < rest.len() && #[trigger] rest[j].0 == tool && rest[j].1 == r;
                assert(rules[j + 1] == rest[j]);
            }
            assert forall|k: int| exact_rule(rules, tool) is None && 0 <= k < rules.len() implies #[trigger] rules[k].0 != tool by {
                if k > 0 {
                    assert(rules[k] == rest[k - 1]);
                }
            }
        }
    }
}

proof fn lemma_wildcard_found(rules: Seq<(Seq<char>, Rule)>, tool: Seq<char>)
    ensures
        wildcard_rule(rules, tool) is None <==> forall|k: int|
            0 <= k < rules.len() ==> !wildcard_match(#[trigger] rules[k].0, tool),
        forall|r: Rule|
            wildcard_rule(rules, tool) == Some(r) ==> exists|k: int|
                0 <= k < rules.len() && wildcard_match(#[trigger] rules[k].0, tool) && rules[k].1 == r,
    decreases rules.len(),
{
    if rules.len() > 0 {
        let rest = rules.drop_first();
        lemma_wildcard_found(rest, tool);
        assert forall|k: int| 1 <= k < rules.len() implies #[trigger] rules[k] == rest[k - 1] by {}
        if !wildcard_match(rules[0].0, tool) {
            assert forall|r: Rule| wildcard_rule(rules, tool) == Some(r) implies exists|k: int|
                0 <= k < rules.len() && wildcard_match(#[trigger] rules[k].0, tool) && rules[k].1 == r by {
                let j = choose|j: int|
                    0 <= j < rest.len() && wildcard_match(#[trigger] rest[j].0, tool) && rest[j].1 == r;
                assert(rules[j + 1] == rest[j]);
            }
            if wildcard_rule(rules, tool) is None {
                assert forall|k: int| 0 <= k < rules.len() implies !wildcard_match(#[trigger] rules[k].0, tool) by {
                    if k > 0 {
                        assert(rules[k] == rest[k - 1]);
                    }
                }
            } else {
                let k = choose|k: int| 0 <= k < rest.len() && wildcard_match(#[trigger] rest[k].0, tool);
                assert(rules[k + 1] == rest[k]);
            }
        }
    }
}

/// Read as a map (each key once), the rules table gives a tool the rule
/// stored under the tool's own name when there is one; no rule exactly when
/// no key covers the tool; and otherwise the rule of some key that covers it.
pub proof fn law_rule_lookup(rules: Seq<(Seq<char>, Rule)>, tool: Seq<char>)
    requires
        keys_distinct(rules),
    ensures
        forall|k: int|
            0 <= k < rules.len() && #[trigger] rules[k].0 == tool ==> rule_for(rules, tool) == Some(
                rules[k].1,
            ),
        rule_for(rules, tool) is None <==> forall|k: int|
            0 <= k < rules.len() ==> !wildcard_match(#[trigger] rules[k].0, tool),
        forall|r: Rule|
            rule_for(rules, tool) == Some(r) ==> exists|k: int|
                0 <= k < rules.len() && wildcard_match(#[trigger] rules[k].0, tool) && rules[k].1 == r,
{
    lemma_exact_found(rules, tool);
    lemma_wildcard_found(rules, tool);
    assert forall|k: int| 0 <= k < rules.len() && #[trigger] rules[k].0 == tool implies rule_for(rules, tool) == Some(
        rules[k].1,
    ) by {
        lemma_exact_at(rules, k, tool);
    }
    if exact_rule(rules, tool) is Some {
        let r = exact_rule(rules, tool)->0;
        let k = choose|k: int| 0 <= k < rules.len() && #[trigger] rules[k].0 == tool && rules[k].1 == r;
        assert(wildcard_match(rules[k].0, tool));
    }
}

/// An exact key wins over any wildcard key: when the table (a map, so each
/// key once) has an entry for `tool` itself, that entry decides.
pub proof fn law_exact_match_wins(
    mode: Mode,
    rules: Seq<(Seq<char>, Rule)>,
    tool: Seq<char>,
    k: int,
)
    requires
        keys_distinct(rules),
        0 <= k < rules.len(),
        rules[k].0 == tool,
    ensures
        rule_for(rules, tool) == Some(rules[k].1),
        decide(mode, rules, tool) == if mode == Mode::Yolo {
            Decision::Allow
        } else {
            rule_decision(mode, Some(rules[k].1))
        },
{
    lemma_exact_at(rules, k, tool);
}

/// `"prefix.*"` covers every `"prefix.<something>"`, the empty something included.
pub proof fn law_wildcard_covers_prefixed(prefix: Seq<char>, rest: Seq<char>)
    ensures
        wildcard_match(prefix + seq!['.', '*'], prefix + seq!['.'] + rest),
{
    let pattern = prefix + seq!['.', '*'];
    let tool = prefix + seq!['.'] + rest;
    assert(pattern.subrange(pattern.len() - 2, pattern.len() as int) =~= seq!['.', '*']);
    assert(pattern.subrange(0, pattern.len() - 2) =~= prefix);
    assert(tool.subrange(0, prefix.len() + 1int) =~= prefix.push('.'));
}

/// `"prefix.*"` covers nothing that does not start with `"prefix."`: neither
/// the bare prefix nor the prefix followed by another separator.
pub proof fn law_wildcard_needs_dot(prefix: Seq<char>, tool: Seq<char>)
    requires
        !has_prefix(tool, prefix.push('.')),
    ensures
        !wildcard_match(prefix + seq!['.', '*'], tool),
{
    let pattern = prefix + seq!['.', '*'];
    assert(pattern.subrange(0, pattern.len() - 2) =~= prefix);
    if pattern == tool {
        assert(tool.subrange(0, prefix.len() + 1int) =~= prefix.push('.'));
    }
}

/// The mode × rule matrix: for a tool governed by rule `r`, Allow passes in
/// every mode, Ask only in Yolo, Workspace in AutoEdit and Yolo.
pub proof fn law_decision_matrix(mode: Mode, rules: Seq<(Seq<char>, Rule)>, tool: Seq<char>, r: Rule)
    requires
        rule_for(rules, tool) == Some(r),
    ensures
        (decide(mode, rules, tool) == Decision::Allow) <==> (match r {
            Rule::Allow => true,
            Rule::Ask => mode == Mode::Yolo,
            Rule::Workspace => mode == Mode::AutoEdit || mode == Mode::Yolo,
        }),
{
}

} // verus!
