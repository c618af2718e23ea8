//! The rule engine: conditions matched against an event's fields and
//! actions that transform them.
//!
//! A rule fires when all of its conditions hold; its actions are then
//! applied in listed order, each seeing the values the previous one
//! produced. Rules are independent: one that does not fire leaves the
//! event as it was, and later rules are still tried.

use vstd::prelude::*;
use crate::event::{
    Event, FieldSeq, field_index, field_value, has_field, lemma_store_field, store_field,
    wf_fields,
};
use crate::text::{contains_str, seq_contains};

verus! {

/// How a condition compares a field against its value.
#[derive(Clone)]
pub enum ConditionOp {
    /// Case-sensitive substring containment.
    Contains,
}

/// One condition: a field name, an operator and a value to compare with.
#[derive(Clone)]
pub struct Condition {
    pub field: String,
    pub op: ConditionOp,
    pub value: String,
}

/// How an action rewrites a field.
#[derive(Clone)]
pub enum ActionOp {
    /// The field's value becomes exactly the action's value.
    Overwrite,
    /// The action's value is concatenated in front of the current value.
    Prepend,
}

/// One action: a field name, an operator and the value it applies.
#[derive(Clone)]
pub struct Action {
    pub field: String,
    pub op: ActionOp,
    pub value: String,
}

/// A named list of conditions and the actions applied when all hold.
#[derive(Clone)]
pub struct Rule {
    pub name: String,
    pub conditions: Vec<Condition>,
    pub actions: Vec<Action>,
}

/// A condition holds when the named field's current value (empty if the
/// field is absent) contains the condition's value as a substring.
pub open spec fn condition_holds(m: FieldSeq, c: Condition) -> bool {
    seq_contains(field_value(m, c.field@), c.value@)
}

/// All conditions of a rule hold (logical AND; empty list always holds).
pub open spec fn conditions_hold(m: FieldSeq, cs: Seq<Condition>) -> bool {
    forall|i: int| 0 <= i < cs.len() ==> condition_holds(m, cs[i])
}

/// The field map after one action.
pub open spec fn apply_action_spec(m: FieldSeq, a: Action) -> FieldSeq {
    match a.op {
        ActionOp::Overwrite => store_field(m, a.field@, a.value@),
        ActionOp::Prepend => store_field(m, a.field@, a.value@ + field_value(m, a.field@)),
    }
}

/// The field map after a list of actions, applied left to right.
pub open spec fn apply_actions_spec(m: FieldSeq, s: Seq<Action>) -> FieldSeq
    decreases s.len(),
{
    if s.len() == 0 {
        m
    } else {
        apply_action_spec(apply_actions_spec(m, s.drop_last()), s.last())
    }
}

/// The field map after one rule: its actions if all conditions hold,
/// otherwise unchanged.
pub open spec fn apply_rule_spec(m: FieldSeq, r: Rule) -> FieldSeq {
    if conditions_hold(m, r.conditions@) {
        apply_actions_spec(m, r.actions@)
    } else {
        m
    }
}

/// The field map after all rules, applied in configured order.
pub open spec fn apply_rules_spec(m: FieldSeq, rs: Seq<Rule>) -> FieldSeq
    decreases rs.len(),
{
    if rs.len() == 0 {
        m
    } else {
        apply_rule_spec(apply_rules_spec(m, rs.drop_last()), rs.last())
    }
}

/// One action keeps field keys unique.
pub proof fn lemma_apply_action_wf(m: FieldSeq, a: Action)
    requires
        wf_fields(m),
    ensures
        wf_fields(apply_action_spec(m, a)),
{
    match a.op {
        ActionOp::Overwrite => lemma_store_field(m, a.field@, a.value@),
        ActionOp::Prepend => lemma_store_field(m, a.field@, a.value@ + field_value(m, a.field@)),
    }
}

/// A list of actions keeps field keys unique.
pub proof fn lemma_apply_actions_wf(m: FieldSeq, s: Seq<Action>)
    requires
        wf_fields(m),
    ensures
        wf_fields(apply_actions_spec(m, s)),
    decreases s.len(),
{
    if s.len() > 0 {
        lemma_apply_actions_wf(m, s.drop_last());
        lemma_apply_action_wf(apply_actions_spec(m, s.drop_last()), s.last());
    }
}

/// The whole rule pass keeps field keys unique.
pub proof fn lemma_apply_rules_wf(m: FieldSeq, rs: Seq<Rule>)
    requires
        wf_fields(m),
    ensures
        wf_fields(apply_rules_spec(m, rs)),
    decreases rs.len(),
{
    if rs.len() > 0 {
        lemma_apply_rules_wf(m, rs.drop_last());
        let prev = apply_rules_spec(m, rs.drop_last());
        if conditions_hold(prev, rs.last().conditions@) {
            lemma_apply_actions_wf(prev, rs.last().actions@);
        }
    }
}

/// Law: an event that no rule matches keeps all its fields unchanged.
/// Rules that do not fire leave the map as it was, so none of the later
/// rules sees anything but the original fields either.
pub proof fn lemma_no_rule_fires(m: FieldSeq, rs: Seq<Rule>)
    requires
        forall|i: int| 0 <= i < rs.len() ==> !conditions_hold(m, #[trigger] rs[i].conditions@),
    ensures
        apply_rules_spec(m, rs) == m,
    decreases rs.len(),
{
    if rs.len() > 0 {
        assert(forall|i: int|
            0 <= i < rs.drop_last().len() ==> !conditions_hold(
                m,
                #[trigger] rs.drop_last()[i].conditions@,
            ));
        lemma_no_rule_fires(m, rs.drop_last());
        assert(!conditions_hold(m, rs[rs.len() - 1].conditions@));
    }
}

/// Law: `Prepend` is not idempotent. Applying the same prepend twice
/// leaves the field holding the action's value twice in front of the
/// original value.
pub proof fn lemma_prepend_twice(m: FieldSeq, a: Action)
    requires
        wf_fields(m),
        a.op is Prepend,
    ensures
        field_value(apply_action_spec(apply_action_spec(m, a), a), a.field@) == a.value@
            + a.value@ + field_value(m, a.field@),
{
    let k = a.field@;
    let v0 = field_value(m, k);
    lemma_store_field(m, k, a.value@ + v0);
    let m1 = apply_action_spec(m, a);
    lemma_store_field(m1, k, a.value@ + field_value(m1, k));
    assert(a.value@ + (a.value@ + v0) =~= a.value@ + a.value@ + v0);
}

/// Law: `Overwrite` is idempotent. Applying the same overwrite twice
/// yields the same field map as applying it once.
pub proof fn lemma_overwrite_idempotent(m: FieldSeq, a: Action)
    requires
        wf_fields(m),
        a.op is Overwrite,
    ensures
        apply_action_spec(apply_action_spec(m, a), a) == apply_action_spec(m, a),
{
    let k = a.field@;
    let v = a.value@;
    lemma_store_field(m, k, v);
    let m1 = store_field(m, k, v);
    lemma_store_field(m1, k, v);
    let i = field_index(m1, k);
    assert(m1[i].0 == k && m1[i].1 == v) by {
        crate::event::lemma_field_value_at(m1, i);
    }
    assert(m1.update(i, (k, v)) =~= m1);
}

/// Whether one condition holds of the event.
pub fn condition_matches(e: &Event, c: &Condition) -> (r: bool)
    requires
        e.wf(),
    ensures
        r == condition_holds(e@, *c),
{
    let v = e.field_or_empty(c.field.as_str());
    contains_str(v.as_str(), c.value.as_str())
}

/// Whether all conditions of the rule hold of the event. Evaluation
/// stops at the first condition that fails.
pub fn rule_matches(e: &Event, r: &Rule) -> (b: bool)
    requires
        e.wf(),
    ensures
        b == conditions_hold(e@, r.conditions@),
{
    let n = r.conditions.len();
    let mut i: usize = 0;
    while i < n
        invariant
            i <= n,
            n == r.conditions@.len(),
            e.wf(),
            forall|j: int| 0 <= j < i ==> condition_holds(e@, r.conditions@[j]),
        decreases n - i,
    {
        if !condition_matches(e, &r.conditions[i]) {
            return false;
        }
        i = i + 1;
    }
    true
}

/// Applies one action to the event.
pub fn apply_action(e: &mut Event, a: &Action)
    requires
        old(e).wf(),
    ensures
        final(e).wf(),
        final(e)@ == apply_action_spec(old(e)@, *a),
{
    match a.op {
        ActionOp::Overwrite => {
            e.set_field(a.field.as_str(), a.value.clone());
        },
        ActionOp::Prepend => {
            let cur = e.field_or_empty(a.field.as_str());
            let nv = a.value.clone().concat(cur.as_str());
            e.set_field(a.field.as_str(), nv);
        },
    }
}

/// Applies one rule to the event: all actions if all conditions hold,
/// nothing otherwise.
pub fn apply_rule(e: &mut Event, r: &Rule)
    requires
        old(e).wf(),
    ensures
        final(e).wf(),
        final(e)@ == apply_rule_spec(old(e)@, *r),
{
    if rule_matches(e, r) {
        let n = r.actions.len();
        let mut i: usize = 0;
        while i < n
            invariant
                i <= n,
                n == r.actions@.len(),
                e.wf(),
                e@ == apply_actions_spec(old(e)@, r.actions@.take(i as int)),
            decreases n - i,
        {
            apply_action(e, &r.actions[i]);
            proof {
                assert(r.actions@.take(i + 1).drop_last() =~= r.actions@.take(i as int));
                assert(r.actions@.take(i + 1).last() == r.actions@[i as int]);
            }
            i = i + 1;
        }
        proof {
            assert(r.actions@.take(n as int) =~= r.actions@);
        }
    }
}

/// Applies every configured rule to the event, in listed order.
pub fn apply_rules(e: &mut Event, rs: &Vec<Rule>)
    requires
        old(e).wf(),
    ensures
        final(e).wf(),
        final(e)@ == apply_rules_spec(old(e)@, rs@),
{
    let n = rs.len();
    let mut i: usize = 0;
    while i < n
        invariant
            i <= n,
            n == rs@.len(),
            e.wf(),
            e@ == apply_rules_spec(old(e)@, rs@.take(i as int)),
        decreases n - i,
    {
        apply_rule(e, &rs[i]);
        proof {
            assert(rs@.take(i + 1).drop_last() =~= rs@.take(i as int));
            assert(rs@.take(i + 1).last() == rs@[i as int]);
        }
        i = i + 1;
    }
    proof {
        assert(rs@.take(n as int) =~= rs@);
    }
}

} // verus!
