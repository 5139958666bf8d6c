//! The suppression filter: decides whether a diagnostic should be hidden
//! because it was triggered inside generated or macro-expanded code. A rule is
//! a literal marker substring, optionally scoped to the diagnostic codes it
//! applies to; a diagnostic is suppressed when any of its spans' literal
//! source text contains any applicable marker.
use vstd::prelude::*;

use crate::diagnostics::Message;
use crate::diagnostics::Span;
use crate::diagnostics::Text;
use crate::diagnostics::Code;
use crate::text::has_substring;
use crate::text::contains_text;
use crate::text::str_eq;

verus! {

/// One suppression rule: a literal marker, optionally scoped to a set of
/// diagnostic codes. An unscoped rule (`codes` absent) applies to every
/// diagnostic; a scoped rule applies only to diagnostics whose code is in the
/// set.
#[derive(Debug, Clone, PartialEq, Eq)]
pub struct SuppressionRule {
    pub marker: String,
    pub codes: Option<Vec<String>>,
}

/// The rule applies to a diagnostic carrying this code: either the rule is
/// unscoped, or the diagnostic's code is one of the rule's codes.
pub open spec fn rule_applies(rule: SuppressionRule, code: Option<Code>) -> bool {
    match rule.codes {
        None => true,
        Some(cs) => match code {
            Some(c) => exists|s: String| cs@.contains(s) && s@ == c.code@,
            None => false,
        },
    }
}

/// Some fragment of the span's literal source text contains the rule's
/// marker.
pub open spec fn span_matches(s: Span, rule: SuppressionRule) -> bool {
    exists|t: Text| s.text@.contains(t) && has_substring(t.text@, rule.marker@)
}

/// The rule hides this diagnostic: it applies to the diagnostic's code and
/// its marker occurs in the text of some span.
pub open spec fn rule_suppresses(m: Message, rule: SuppressionRule) -> bool {
    rule_applies(rule, m.code) && exists|s: Span| m.spans@.contains(s) && span_matches(s, rule)
}

/// The diagnostic is hidden from the report: some rule suppresses it.
pub open spec fn is_suppressed(m: Message, rules: Seq<SuppressionRule>) -> bool {
    exists|rule: SuppressionRule| rules.contains(rule) && rule_suppresses(m, rule)
}

#[verifier::loop_isolation(false)]
fn rule_applies_to(rule: &SuppressionRule, code: &Option<Code>) -> (r: bool)
    ensures
        r == rule_applies(*rule, *code),
{
    match &rule.codes {
        None => true,
        Some(cs) => match code {
            Some(c) => {
                let mut i: usize = 0;
                while i < cs.len()
                    invariant
                        i <= cs@.len(),
                        forall|k: int| 0 <= k < i ==> (#[trigger] cs@[k])@ != c.code@,
                    decreases cs@.len() - i,
                {
                    if str_eq(cs[i].as_str(), c.code.as_str()) {
                        assert(rule_applies(*rule, *code)) by {
                            assert(cs@.contains(cs@[i as int]));
                            assert((cs@[i as int])@ == c.code@);
                        }
                        return true;
                    }
                    i = i + 1;
                }
                assert forall|s: String| cs@.contains(s) implies s@ != c.code@ by {
                    let k = choose|k: int| 0 <= k < cs@.len() && cs@[k] == s;
                }
                false
            },
            None => false,
        },
    }
}

#[verifier::loop_isolation(false)]
fn span_matches_rule(s: &Span, rule: &SuppressionRule) -> (r: bool)
    ensures
        r == span_matches(*s, *rule),
{
    let mut i: usize = 0;
    while i < s.text.len()
        invariant
            i <= s.text@.len(),
            forall|k: int|
                0 <= k < i ==> !has_substring((#[trigger] s.text@[k]).text@, rule.marker@),
        decreases s.text@.len() - i,
    {
        if contains_text(s.text[i].text.as_str(), rule.marker.as_str()) {
            assert(s.text@.contains(s.text@[i as int]));
            return true;
        }
        i = i + 1;
    }
    assert forall|t: Text| s.text@.contains(t) implies !has_substring(t.text@, rule.marker@) by {
        let k = choose|k: int| 0 <= k < s.text@.len() && s.text@[k] == t;
    }
    false
}

/// Whether the diagnostic is hidden from the report under the given rules:
/// true exactly when some span's literal source text contains the marker of
/// some rule that applies to the diagnostic's code.
#[verifier::loop_isolation(false)]
pub fn ignored(message: &Message, rules: &Vec<SuppressionRule>) -> (r: bool)
    ensures
        r == is_suppressed(*message, rules@),
{
    let mut i: usize = 0;
    while i < rules.len()
        invariant
            i <= rules@.len(),
            forall|k: int| 0 <= k < i ==> !rule_suppresses(*message, #[trigger] rules@[k]),
        decreases rules@.len() - i,
    {
        if rule_applies_to(&rules[i], &message.code) {
            let mut j: usize = 0;
            while j < message.spans.len()
                invariant
                    i < rules@.len(),
                    j <= message.spans@.len(),
                    forall|k: int|
                        0 <= k < j ==> !span_matches(
                            #[trigger] message.spans@[k],
                            rules@[i as int],
                        ),
                decreases message.spans@.len() - j,
            {
                if span_matches_rule(&message.spans[j], &rules[i]) {
                    assert(is_suppressed(*message, rules@)) by {
                        assert(message.spans@.contains(message.spans@[j as int]));
                        assert(span_matches(message.spans@[j as int], rules@[i as int]));
                        assert(rule_suppresses(*message, rules@[i as int]));
                        assert(rules@.contains(rules@[i as int]));
                    }
                    return true;
                }
                j = j + 1;
            }
            assert(!rule_suppresses(*message, rules@[i as int])) by {
                assert forall|s: Span| message.spans@.contains(s) implies !span_matches(
                    s,
                    rules@[i as int],
                ) by {
                    let k = choose|k: int|
                        0 <= k < message.spans@.len() && message.spans@[k] == s;
                }
            }
        }
        i = i + 1;
    }
    assert forall|rule: SuppressionRule| rules@.contains(rule) implies !rule_suppresses(
        *message,
        rule,
    ) by {
        let k = choose|k: int| 0 <= k < rules@.len() && rules@[k] == rule;
    }
    false
}

/// A diagnostic with no locations is never suppressed by the text-based
/// policy: no span text exists for a marker to occur in.
pub proof fn lemma_no_locations_never_suppressed(m: Message, rules: Seq<SuppressionRule>)
    requires
        m.spans@.len() == 0,
    ensures
        !is_suppressed(m, rules),
{
    assert forall|rule: SuppressionRule| rules.contains(rule) implies !rule_suppresses(m, rule) by {
        assert forall|s: Span| !m.spans@.contains(s) by {
            if m.spans@.contains(s) {
                let k = choose|k: int| 0 <= k < m.spans@.len() && m.spans@[k] == s;
            }
        }
    }
}

/// Suppression does not depend on the order of a diagnostic's locations: two
/// diagnostics with the same code and the same spans, in any order, are
/// suppressed under exactly the same rules.
pub proof fn lemma_suppression_independent_of_location_order(
    m1: Message,
    m2: Message,
    rules: Seq<SuppressionRule>,
)
    requires
        m1.code == m2.code,
        m1.spans@.to_multiset() == m2.spans@.to_multiset(),
    ensures
        is_suppressed(m1, rules) == is_suppressed(m2, rules),
{
    broadcast use vstd::seq_lib::group_to_multiset_ensures;

    assert forall|s: Span| m1.spans@.contains(s) implies m2.spans@.contains(s) by {
        assert(m1.spans@.to_multiset().count(s) > 0);
    }
    assert forall|s: Span| m2.spans@.contains(s) implies m1.spans@.contains(s) by {
        assert(m2.spans@.to_multiset().count(s) > 0);
    }
    assert forall|rule: SuppressionRule|
        rule_suppresses(m1, rule) == #[trigger] rule_suppresses(m2, rule) by {
        if rule_suppresses(m1, rule) {
            let s = choose|s: Span| m1.spans@.contains(s) && span_matches(s, rule);
            assert(m2.spans@.contains(s));
        }
        if rule_suppresses(m2, rule) {
            let s = choose|s: Span| m2.spans@.contains(s) && span_matches(s, rule);
            assert(m1.spans@.contains(s));
        }
    }
}

} // verus!
