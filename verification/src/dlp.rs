//! Request-body scanning for configured sensitive values.
//!
//! Matching is substring-based and case-sensitive, over JSON string values
//! (and number literals when enabled), never object keys. All rules feed one
//! Aho-Corasick automaton.
use vstd::prelude::*;

use crate::config::DlpConfig;
use crate::json::JsonValue;

verus! {

#[verifier::external_type_specification]
#[verifier::external_body]
pub struct ExAhoCorasick(aho_corasick::AhoCorasick);

/// The patterns an automaton was built from, in order.
pub uninterp spec fn ac_patterns(m: aho_corasick::AhoCorasick) -> Seq<Seq<char>>;

/// Whether `AhoCorasick::new` succeeds on `patterns`. Its default builder
/// refuses only patterns that are too many, too long, or need more automaton
/// states than its ids can number.
pub uninterp spec fn ac_builds(patterns: Seq<Seq<char>>) -> bool;

/// Pattern indices of the matches `find_iter` reports for `text` under
/// standard semantics, in order.
pub uninterp spec fn ac_find_ids(patterns: Seq<Seq<char>>, text: Seq<char>) -> Seq<usize>;

/// Whether `p` occurs in `text`.
pub open spec fn occurs_in(p: Seq<char>, text: Seq<char>) -> bool {
    exists|i: int| 0 <= i && i + p.len() <= text.len() && #[trigger] text.subrange(i, i + p.len()) == p
}

/// Whether some pattern occurs in `text`.
pub open spec fn some_occurs(patterns: Seq<Seq<char>>, text: Seq<char>) -> bool {
    exists|j: int| 0 <= j < patterns.len() && occurs_in(#[trigger] patterns[j], text)
}

/// `AhoCorasick::new` over `rules`: the automaton, or `None` when it cannot
/// be built. Whether it builds depends on the patterns alone.
#[verifier::external_body]
fn build_matcher(rules: &Vec<String>) -> (r: Option<aho_corasick::AhoCorasick>)
    ensures
        r is Some == ac_builds(rule_views(rules@)),
        r matches Some(m) ==> ac_patterns(m) == rule_views(rules@),
{
    aho_corasick::AhoCorasick::new(rules.iter().map(String::as_str)).ok()
}

/// `AhoCorasick::find_iter(text)`, each match mapped to its pattern index.
/// Every reported pattern occurs in `text`, and a match is reported whenever
/// some pattern occurs.
#[verifier::external_body]
fn find_pattern_ids(m: &aho_corasick::AhoCorasick, text: &str) -> (r: Vec<usize>)
    ensures
        r@ == ac_find_ids(ac_patterns(*m), text@),
        forall|i: int| 0 <= i < r.len() ==> (#[trigger] r[i]) < ac_patterns(*m).len()
            && occurs_in(ac_patterns(*m)[r[i] as int], text@),
        some_occurs(ac_patterns(*m), text@) ==> r.len() > 0,
{
    m.find_iter(text).map(|mat| mat.pattern().as_usize()).collect()
}

/// The smaller of two optional indices.
pub open spec fn min_opt(a: Option<nat>, b: Option<nat>) -> Option<nat> {
    match (a, b) {
        (Some(x), Some(y)) => Some(if x <= y { x } else { y }),
        (Some(x), None) => Some(x),
        (None, _) => b,
    }
}

/// The smallest index in `ids`.
pub open spec fn min_id(ids: Seq<usize>) -> Option<nat>
    decreases ids.len(),
{
    if ids.len() == 0 {
        None
    } else {
        min_opt(min_id(ids.drop_last()), Some(ids.last() as nat))
    }
}

/// The earliest rule reported in any scanned leaf of `v`.
pub open spec fn best_rule(v: JsonValue, patterns: Seq<Seq<char>>, scan_numbers: bool) -> Option<nat>
    decreases v, 1nat,
{
    match v {
        JsonValue::Str(s) => min_id(ac_find_ids(patterns, s@)),
        JsonValue::Number(n) => if scan_numbers { min_id(ac_find_ids(patterns, n.text@)) } else { None },
        JsonValue::Array(a) => best_rule_items(a@, patterns, scan_numbers),
        JsonValue::Object(m) => best_rule_members(m@, patterns, scan_numbers),
        _ => None,
    }
}

pub open spec fn best_rule_items(s: Seq<JsonValue>, patterns: Seq<Seq<char>>, scan_numbers: bool) -> Option<nat>
    decreases s, 0nat,
{
    if s.len() == 0 {
        None
    } else {
        min_opt(best_rule_items(s.drop_last(), patterns, scan_numbers), best_rule(s.last(), patterns, scan_numbers))
    }
}

pub open spec fn best_rule_members(s: Seq<(String, JsonValue)>, patterns: Seq<Seq<char>>, scan_numbers: bool) -> Option<nat>
    decreases s, 0nat,
{
    if s.len() == 0 {
        None
    } else {
        min_opt(best_rule_members(s.drop_last(), patterns, scan_numbers), best_rule(s.last().1, patterns, scan_numbers))
    }
}

/// Whether some pattern occurs in a scanned leaf of `v`.
pub open spec fn leaf_hit(v: JsonValue, patterns: Seq<Seq<char>>, scan_numbers: bool) -> bool
    decreases v, 1nat,
{
    match v {
        JsonValue::Str(s) => some_occurs(patterns, s@),
        JsonValue::Number(n) => scan_numbers && some_occurs(patterns, n.text@),
        JsonValue::Array(a) => hit_items(a@, patterns, scan_numbers),
        JsonValue::Object(m) => hit_members(m@, patterns, scan_numbers),
        _ => false,
    }
}

pub open spec fn hit_items(s: Seq<JsonValue>, patterns: Seq<Seq<char>>, scan_numbers: bool) -> bool
    decreases s, 0nat,
{
    if s.len() == 0 {
        false
    } else {
        hit_items(s.drop_last(), patterns, scan_numbers) || leaf_hit(s.last(), patterns, scan_numbers)
    }
}

pub open spec fn hit_members(s: Seq<(String, JsonValue)>, patterns: Seq<Seq<char>>, scan_numbers: bool) -> bool
    decreases s, 0nat,
{
    if s.len() == 0 {
        false
    } else {
        hit_members(s.drop_last(), patterns, scan_numbers) || leaf_hit(s.last().1, patterns, scan_numbers)
    }
}

} // verus!

verus! {

pub open spec fn rule_views(rules: Seq<String>) -> Seq<Seq<char>> {
    rules.map_values(|s: String| s@)
}

/// Whether an optional rule index lies below `n`.
pub open spec fn in_range(b: Option<usize>, n: nat) -> bool {
    b matches Some(x) ==> x < n
}

/// Fold the matches reported for `text` into `best`.
fn scan_text(text: &str, matcher: &aho_corasick::AhoCorasick, best: &mut Option<usize>)
    ensures
        ((*old(best)) is Some || some_occurs(ac_patterns(*matcher), text@)) ==> (*final(best)) is Some,
        in_range(*old(best), ac_patterns(*matcher).len()) ==> in_range(*final(best), ac_patterns(*matcher).len()),
        match *final(best) { Some(b) => Some(b as nat), None => None::<nat> } == min_opt(
            match *old(best) { Some(b) => Some(b as nat), None => None::<nat> },
            min_id(ac_find_ids(ac_patterns(*matcher), text@)),
        ),
{
    let ids = find_pattern_ids(matcher, text);
    let ghost b0 = match *best { Some(b) => Some(b as nat), None => None::<nat> };
    let ghost was_some = best.is_some();
    let mut i: usize = 0;
    while i < ids.len()
        invariant
            i <= ids.len(),
            ids@ == ac_find_ids(ac_patterns(*matcher), text@),
            b0 == match *old(best) { Some(b) => Some(b as nat), None => None::<nat> },
            forall|k: int| 0 <= k < ids.len() ==> (#[trigger] ids[k]) < ac_patterns(*matcher).len(),
            in_range(*old(best), ac_patterns(*matcher).len()) ==> in_range(*best, ac_patterns(*matcher).len()),
            match *best { Some(b) => Some(b as nat), None => None::<nat> } == min_opt(b0, min_id(ids@.take(i as int))),
            was_some == (*old(best)) is Some,
            (was_some || i > 0) ==> (*best) is Some,
            some_occurs(ac_patterns(*matcher), text@) ==> ids.len() > 0,
        decreases ids.len() - i,
    {
        proof {
            assert(ids@.take(i + 1).drop_last() == ids@.take(i as int));
            assert(ids@.take(i + 1).last() == ids[i as int]);
        }
        let idx = ids[i];
        *best = Some(match *best {
            Some(prev) => if prev <= idx { prev } else { idx },
            None => idx,
        });
        assert(match *best { Some(b) => Some(b as nat), None => None::<nat> } == min_opt(b0, min_id(ids@.take(i + 1))));
        if *best == Some(0usize) {
            proof {
                lemma_min_id_prefix(ids@, i + 1);
                assert(b0 == match *old(best) { Some(b) => Some(b as nat), None => None::<nat> });
                assert(min_opt(b0, min_id(ids@)) == Some(0nat));
            }
            return;
        }
        i = i + 1;
    }
    assert(ids@.take(ids.len() as int) == ids@);
}

proof fn lemma_min_id_prefix(ids: Seq<usize>, k: int)
    requires
        0 <= k <= ids.len(),
    ensures
        min_id(ids.take(k)) matches Some(x) ==> (min_id(ids) matches Some(y) && y <= x),
    decreases ids.len(),
{
    if k < ids.len() {
        assert(ids.drop_last().take(k) == ids.take(k));
        lemma_min_id_prefix(ids.drop_last(), k);
    } else {
        assert(ids.take(k) == ids);
    }
}

} // verus!

verus! {

pub open spec fn opt_nat(b: Option<usize>) -> Option<nat> {
    match b {
        Some(x) => Some(x as nat),
        None => None,
    }
}

proof fn lemma_items_prefix(s: Seq<JsonValue>, k: int, p: Seq<Seq<char>>, sn: bool)
    requires
        0 <= k <= s.len(),
    ensures
        best_rule_items(s.take(k), p, sn) matches Some(x) ==> (best_rule_items(s, p, sn) matches Some(y) && y <= x),
    decreases s.len(),
{
    if k < s.len() {
        assert(s.drop_last().take(k) == s.take(k));
        lemma_items_prefix(s.drop_last(), k, p, sn);
    } else {
        assert(s.take(k) == s);
    }
}

proof fn lemma_members_prefix(s: Seq<(String, JsonValue)>, k: int, p: Seq<Seq<char>>, sn: bool)
    requires
        0 <= k <= s.len(),
    ensures
        best_rule_members(s.take(k), p, sn) matches Some(x) ==> (best_rule_members(s, p, sn) matches Some(y) && y <= x),
    decreases s.len(),
{
    if k < s.len() {
        assert(s.drop_last().take(k) == s.take(k));
        lemma_members_prefix(s.drop_last(), k, p, sn);
    } else {
        assert(s.take(k) == s);
    }
}

/// Fold the earliest rule found in the scanned leaves of `value` into `best`.
fn scan_value(value: &JsonValue, matcher: &aho_corasick::AhoCorasick, scan_numbers: bool, best: &mut Option<usize>)
    ensures
        in_range(*old(best), ac_patterns(*matcher).len()) ==> in_range(*final(best), ac_patterns(*matcher).len()),
        opt_nat(*final(best)) == min_opt(opt_nat(*old(best)), best_rule(*value, ac_patterns(*matcher), scan_numbers)),
        ((*old(best)) is Some || leaf_hit(*value, ac_patterns(*matcher), scan_numbers)) ==> (*final(best)) is Some,
    decreases value,
{
    let ghost p = ac_patterns(*matcher);
    if *best == Some(0usize) {
        return;
    }
    match value {
        JsonValue::Str(s) => scan_text(s.as_str(), matcher, best),
        JsonValue::Number(n) => {
            if scan_numbers {
                scan_text(n.text.as_str(), matcher, best);
            }
        },
        JsonValue::Array(items) => {
            let ghost b0 = opt_nat(*best);
            let mut i: usize = 0;
            while i < items.len()
                invariant
                    i <= items.len(),
                    *value == JsonValue::Array(*items),
                    p == ac_patterns(*matcher),
                    b0 == opt_nat(*old(best)),
                    in_range(*old(best), p.len()) ==> in_range(*best, p.len()),
                    opt_nat(*best) == min_opt(b0, best_rule_items(items@.take(i as int), p, scan_numbers)),
                    ((*old(best)) is Some || hit_items(items@.take(i as int), p, scan_numbers)) ==> (*best) is Some,
                decreases items.len() - i,
            {
                proof {
                    assert(items@.take(i + 1).drop_last() == items@.take(i as int));
                    assert(items@.take(i + 1).last() == items@[i as int]);
                }
                proof {
                    assert(decreases_to!(*value => *items));
                    assert(decreases_to!(*items => items@));
                    assert(decreases_to!(items@ => items@[i as int]));
                }
                scan_value(&items[i], matcher, scan_numbers, best);
                assert(opt_nat(*best) == min_opt(b0, best_rule_items(items@.take(i + 1), p, scan_numbers)));
                if *best == Some(0usize) {
                    proof {
                        lemma_items_prefix(items@, i + 1, p, scan_numbers);
                    }
                    return;
                }
                i = i + 1;
            }
            assert(items@.take(items.len() as int) == items@);
        },
        JsonValue::Object(members) => {
            let ghost b0 = opt_nat(*best);
            let mut i: usize = 0;
            while i < members.len()
                invariant
                    i <= members.len(),
                    *value == JsonValue::Object(*members),
                    p == ac_patterns(*matcher),
                    b0 == opt_nat(*old(best)),
                    in_range(*old(best), p.len()) ==> in_range(*best, p.len()),
                    opt_nat(*best) == min_opt(b0, best_rule_members(members@.take(i as int), p, scan_numbers)),
                    ((*old(best)) is Some || hit_members(members@.take(i as int), p, scan_numbers)) ==> (*best) is Some,
                decreases members.len() - i,
            {
                proof {
                    assert(members@.take(i + 1).drop_last() == members@.take(i as int));
                    assert(members@.take(i + 1).last() == members@[i as int]);
                }
                proof {
                    assert(decreases_to!(*value => *members));
                    assert(decreases_to!(*members => members@));
                    assert(decreases_to!(members@ => members@[i as int]));
                    assert(decreases_to!(members@[i as int] => members@[i as int].1));
                }
                scan_value(&members[i].1, matcher, scan_numbers, best);
                assert(opt_nat(*best) == min_opt(b0, best_rule_members(members@.take(i + 1), p, scan_numbers)));
                if *best == Some(0usize) {
                    proof {
                        lemma_members_prefix(members@, i + 1, p, scan_numbers);
                    }
                    return;
                }
                i = i + 1;
            }
            assert(members@.take(members.len() as int) == members@);
        },
        _ => {},
    }
}

} // verus!

verus! {

/// The configured values that are not empty, in configured order.
pub open spec fn nonempty_rules(values: Seq<String>) -> Seq<Seq<char>> {
    rule_views(values).filter(|s: Seq<char>| s.len() > 0)
}

/// Scanner over the configured literal values.
///
/// A scanner is effectively disabled when no value is configured, even if
/// the configuration enables it, so an empty list never blocks anything.
#[derive(Clone)]
pub struct DlpScanner {
    enabled: bool,
    /// Non-empty configured rules, in configured order (index = priority).
    rules: Vec<String>,
    /// Automaton over `rules`; `None` when it could not be built, in which
    /// case detection is disabled.
    matcher: Option<aho_corasick::AhoCorasick>,
    scan_numbers: bool,
}

impl DlpScanner {
    /// The rules the scanner holds, in priority order.
    pub closed spec fn rules_view(&self) -> Seq<Seq<char>> {
        rule_views(self.rules@)
    }

    /// Whether the scanner inspects bodies at all.
    pub closed spec fn active(&self) -> bool {
        self.enabled
    }

    /// Whether number literals are inspected.
    pub closed spec fn numbers_scanned(&self) -> bool {
        self.scan_numbers
    }

    /// Internal consistency: an active scanner has an automaton built from
    /// exactly its rules, and no rule is empty.
    pub closed spec fn wf(&self) -> bool {
        &&& forall|i: int| 0 <= i < self.rules@.len() ==> (#[trigger] self.rules@[i])@.len() > 0
        &&& self.enabled ==> (self.matcher matches Some(m) && ac_patterns(m) == rule_views(self.rules@)
            && self.rules@.len() > 0)
    }

    /// The index of the rule that `scan` reports for `body`: the earliest
    /// rule reported in any scanned leaf, or `None`.
    pub open spec fn outcome(&self, body: JsonValue) -> Option<nat> {
        if self.active() {
            best_rule(body, self.rules_view(), self.numbers_scanned())
        } else {
            None
        }
    }

    /// An inactive scanner reports nothing.
    pub proof fn lemma_inactive_reports_nothing(&self, body: JsonValue)
        ensures
            !self.active() ==> self.outcome(body) is None,
    {
    }

    pub fn new(config: &DlpConfig) -> (s: Self)
        ensures
            s.wf(),
            s.rules_view() == nonempty_rules(config.sensitive_values@),
            s.numbers_scanned() == config.scan_numbers,
            s.active() == (config.enabled && s.rules_view().len() > 0 && ac_builds(s.rules_view())),
    {
        let mut rules: Vec<String> = Vec::new();
        let mut i: usize = 0;
        while i < config.sensitive_values.len()
            invariant
                i <= config.sensitive_values.len(),
                rule_views(rules@) == nonempty_rules(config.sensitive_values@.take(i as int)),
                forall|k: int| 0 <= k < rules@.len() ==> (#[trigger] rules@[k])@.len() > 0,
            decreases config.sensitive_values.len() - i,
        {
            proof {
                assert(config.sensitive_values@.take(i + 1).drop_last() == config.sensitive_values@.take(i as int));
                reveal_with_fuel(Seq::<_>::filter, 1);
                assert(rule_views(config.sensitive_values@.take(i + 1)).drop_last()
                    == rule_views(config.sensitive_values@.take(i as int)));
            }
            let v = &config.sensitive_values[i];
            if !v.as_str().is_empty() {
                rules.push(v.clone());
            }
            proof {
                assert(rule_views(config.sensitive_values@.take(i + 1)).last() == config.sensitive_values@[i as int]@);
                assert(rule_views(rules@) == nonempty_rules(config.sensitive_values@.take(i + 1)));
            }
            i = i + 1;
        }
        proof {
            assert(config.sensitive_values@.take(i as int) == config.sensitive_values@);
        }
        let enabled = config.enabled && rules.len() > 0;
        let matcher = if enabled {
            build_matcher(&rules)
        } else {
            None
        };
        let active = enabled && matcher.is_some();
        DlpScanner { enabled: active, rules, matcher, scan_numbers: config.scan_numbers }
    }

    pub fn is_enabled(&self) -> (r: bool)
        ensures
            r == self.active(),
    {
        self.enabled
    }

    /// The first configured value found in the body, or `None`. String leaves
    /// are always inspected, number leaves only when number scanning is on;
    /// object keys never are.
    pub fn scan(&self, body: &JsonValue) -> (r: Option<&str>)
        requires
            self.wf(),
        ensures
            match self.outcome(*body) {
                None => r is None,
                Some(idx) => idx < self.rules_view().len() && (r matches Some(s) && s@ == self.rules_view()[idx as int]),
            },
            self.active() && leaf_hit(*body, self.rules_view(), self.numbers_scanned()) ==> r is Some,
    {
        if !self.enabled {
            return None;
        }
        match &self.matcher {
            None => None,
            Some(matcher) => {
                let mut best: Option<usize> = None;
                scan_value(body, matcher, self.scan_numbers, &mut best);
                match best {
                    None => None,
                    Some(idx) => Some(self.rules[idx].as_str()),
                }
            },
        }
    }
}

} // verus!
