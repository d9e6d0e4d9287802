use vstd::prelude::*;

use crate::rules::{EhcpiEvent, RuleTable};

verus! {

/// The category of a raw input event.
#[derive(Clone, Copy, PartialEq, Eq, Structural, Debug)]
pub enum EventKind {
    Key,
    Switch,
    Other,
}

/// One raw input event as a device reports it: a category, a numeric
/// code, and a value (for keys 1 = pressed, 0 = released, 2 = repeat;
/// for switches the new state).
#[derive(Clone, Copy, PartialEq, Eq, Structural, Debug)]
pub struct RawEvent {
    pub kind: EventKind,
    pub code: u16,
    pub value: i32,
}

/// What the matcher returns for an event under a rule mapping: only a key
/// press (value 1) triggers a key rule; a switch event triggers the rule
/// for exactly the state it reports; anything else never matches.
pub open spec fn match_spec(ev: RawEvent, m: Map<EhcpiEvent, Seq<char>>) -> Option<Seq<char>> {
    match ev.kind {
        EventKind::Key => if ev.value == 1 && m.contains_key(EhcpiEvent::Key(ev.code)) {
            Some(m[EhcpiEvent::Key(ev.code)])
        } else {
            None
        },
        EventKind::Switch => if m.contains_key(EhcpiEvent::Switch(ev.code, ev.value)) {
            Some(m[EhcpiEvent::Switch(ev.code, ev.value)])
        } else {
            None
        },
        EventKind::Other => None,
    }
}

/// Find the command a raw event triggers, if any. Pure: the result is a
/// function of the event and the table alone.
pub fn get_cmd<'a>(event: &RawEvent, rules: &'a RuleTable) -> (r: Option<&'a Vec<char>>)
    ensures
        match r {
            Some(c) => match_spec(*event, rules@) == Some(c@),
            None => match_spec(*event, rules@) is None,
        },
{
    match event.kind {
        EventKind::Key => {
            if event.value != 1 {
                return None;
            }
            rules.get(&EhcpiEvent::Key(event.code))
        },
        EventKind::Switch => rules.get(&EhcpiEvent::Switch(event.code, event.value)),
        EventKind::Other => None,
    }
}

/// A key event whose value is not 1 (a release or a repeat) never
/// matches, whatever the table holds.
pub proof fn lemma_key_press_only(ev: RawEvent, m: Map<EhcpiEvent, Seq<char>>)
    requires
        ev.kind == EventKind::Key,
        ev.value != 1,
    ensures
        match_spec(ev, m) is None,
{
}

/// A switch rule matches only the exact state it was configured for: a
/// table holding one switch rule for state `expected` never matches a
/// switch event of the same type reporting a different state.
pub proof fn lemma_switch_exact_value(ev: RawEvent, expected: i32, cmd: Seq<char>)
    requires
        ev.kind == EventKind::Switch,
        ev.value != expected,
    ensures
        match_spec(ev, map![EhcpiEvent::Switch(ev.code, expected) => cmd]) is None,
{
    assert(!map![EhcpiEvent::Switch(ev.code, expected) => cmd].contains_key(
        EhcpiEvent::Switch(ev.code, ev.value),
    ));
}

/// Matching is idempotent: the matcher's result is pinned to
/// `match_spec` of the event and table, so two results of matching the
/// same event against the same table are equal.
pub proof fn lemma_match_idempotent(
    ev: RawEvent,
    m: Map<EhcpiEvent, Seq<char>>,
    r1: Option<Seq<char>>,
    r2: Option<Seq<char>>,
)
    requires
        r1 == match_spec(ev, m),
        r2 == match_spec(ev, m),
    ensures
        r1 == r2,
{
}

} // verus!
