use vstd::prelude::*;

use crate::text::{
    join_cmd, join_tokens, parse_i32, parse_i32_spec, tokenize, tokens_of, views_of,
};

verus! {

/// A trigger condition: either a key press or a switch reaching a state.
#[derive(Clone, Copy, PartialEq, Eq, Structural, Debug)]
pub enum EhcpiEvent {
    /// A semantic key code.
    Key(u16),
    /// A switch type code together with the state value that triggers.
    Switch(u16, i32),
}

/// A structural fault in the rule source.
#[derive(Clone, Copy, PartialEq, Eq, Structural, Debug)]
pub enum RuleParseError {
    ParseError,
}

/// One loaded rule: a trigger and the command it runs.
pub struct Rule {
    pub event: EhcpiEvent,
    pub cmd: Vec<char>,
}

/// The key code a key name denotes, if any. Keys are named by a fixed
/// table, so the result depends on the characters of the name alone.
pub uninterp spec fn key_code_of(name: Seq<char>) -> Option<u16>;

/// The switch type code a switch name denotes, if any; a fixed table again.
pub uninterp spec fn switch_code_of(name: Seq<char>) -> Option<u16>;

/// Relies on evdev's `KeyCode::from_str`: a lookup in a constant
/// name-to-code table, a function of the name alone.
#[verifier::external_body]
fn parse_key_name(tok: &Vec<char>) -> (r: Option<u16>)
    ensures
        r == key_code_of(tok@),
{
    let s: String = tok.iter().collect();
    match s.parse::<evdev::KeyCode>() {
        Ok(k) => Some(k.0),
        Err(_) => None,
    }
}

/// Relies on evdev's `SwitchCode::from_str`: a lookup in a constant
/// name-to-code table, a function of the name alone.
#[verifier::external_body]
fn parse_switch_name(tok: &Vec<char>) -> (r: Option<u16>)
    ensures
        r == switch_code_of(tok@),
{
    let s: String = tok.iter().collect();
    match s.parse::<evdev::SwitchCode>() {
        Ok(k) => Some(k.0),
        Err(_) => None,
    }
}

/// A token that could name a key: it starts with `KEY`.
pub open spec fn has_key_prefix(t: Seq<char>) -> bool {
    t.len() >= 3 && t[0] == 'K' && t[1] == 'E' && t[2] == 'Y'
}

/// A token that could name a switch type: it starts with `SW`.
pub open spec fn has_sw_prefix(t: Seq<char>) -> bool {
    t.len() >= 2 && t[0] == 'S' && t[1] == 'W'
}

/// The literal token `do` that separates the trigger from the command.
pub open spec fn is_do(t: Seq<char>) -> bool {
    t.len() == 2 && t[0] == 'd' && t[1] == 'o'
}

/// What one rule line means, given its tokens: the trigger and the command,
/// or nothing when the line is malformed.
pub open spec fn parse_line_spec(toks: Seq<Seq<char>>) -> Option<(EhcpiEvent, Seq<char>)> {
    if toks.len() == 0 {
        None
    } else if has_key_prefix(toks[0]) {
        match key_code_of(toks[0]) {
            Some(code) => if toks.len() >= 3 && is_do(toks[1]) {
                Some((EhcpiEvent::Key(code), join_cmd(toks.subrange(2, toks.len() as int))))
            } else {
                None
            },
            None => None,
        }
    } else if has_sw_prefix(toks[0]) {
        match switch_code_of(toks[0]) {
            Some(code) => if toks.len() >= 2 {
                match parse_i32_spec(toks[1]) {
                    Some(v) => if toks.len() >= 4 && is_do(toks[2]) {
                        Some(
                            (
                                EhcpiEvent::Switch(code, v as i32),
                                join_cmd(toks.subrange(3, toks.len() as int)),
                            ),
                        )
                    } else {
                        None
                    },
                    None => None,
                }
            } else {
                None
            },
            None => None,
        }
    } else {
        None
    }
}

/// The mapping the given rules make up, later rules overwriting earlier
/// ones with the same trigger.
pub open spec fn map_of(rs: Seq<Rule>) -> Map<EhcpiEvent, Seq<char>>
    decreases rs.len(),
{
    if rs.len() == 0 {
        Map::empty()
    } else {
        map_of(rs.drop_last()).insert(rs.last().event, rs.last().cmd@)
    }
}

/// The rule table the given source lines denote, or nothing when any line
/// is malformed: no partial tables.
pub open spec fn rules_of(lines: Seq<Seq<char>>) -> Option<Map<EhcpiEvent, Seq<char>>>
    decreases lines.len(),
{
    if lines.len() == 0 {
        Some(Map::empty())
    } else {
        match rules_of(lines.drop_last()) {
            Some(m) => match parse_line_spec(tokens_of(lines.last())) {
                Some(r) => Some(m.insert(r.0, r.1)),
                None => None,
            },
            None => None,
        }
    }
}

fn is_do_exec(t: &Vec<char>) -> (r: bool)
    ensures
        r == is_do(t@),
{
    t.len() == 2 && t[0] == 'd' && t[1] == 'o'
}

/// Parse the tokens of one rule line into a rule.
fn parse_line(toks: &Vec<Vec<char>>) -> (r: Option<Rule>)
    ensures
        match r {
            Some(rule) => parse_line_spec(views_of(toks@)) == Some((rule.event, rule.cmd@)),
            None => parse_line_spec(views_of(toks@)) is None,
        },
{
    let n = toks.len();
    if n == 0 {
        return None;
    }
    let t0 = &toks[0];
    if t0.len() >= 3 && t0[0] == 'K' && t0[1] == 'E' && t0[2] == 'Y' {
        match parse_key_name(t0) {
            Some(code) => {
                if n >= 3 && is_do_exec(&toks[1]) {
                    let cmd = join_tokens(toks, 2);
                    Some(Rule { event: EhcpiEvent::Key(code), cmd })
                } else {
                    None
                }
            },
            None => None,
        }
    } else if t0.len() >= 2 && t0[0] == 'S' && t0[1] == 'W' {
        match parse_switch_name(t0) {
            Some(code) => {
                if n >= 2 {
                    match parse_i32(&toks[1]) {
                        Some(v) => {
                            if n >= 4 && is_do_exec(&toks[2]) {
                                let cmd = join_tokens(toks, 3);
                                Some(Rule { event: EhcpiEvent::Switch(code, v), cmd })
                            } else {
                                None
                            }
                        },
                        None => None,
                    }
                } else {
                    None
                }
            },
            None => None,
        }
    } else {
        None
    }
}

/// The rule table: an immutable mapping from trigger to command, built
/// once from the rule source. Its view is that mapping.
pub struct RuleTable {
    rules: Vec<Rule>,
}

impl View for RuleTable {
    type V = Map<EhcpiEvent, Seq<char>>;

    closed spec fn view(&self) -> Map<EhcpiEvent, Seq<char>> {
        map_of(self.rules@)
    }
}

proof fn lemma_map_of_skip(rs: Seq<Rule>, e: EhcpiEvent, k: int)
    requires
        0 <= k <= rs.len(),
        forall|x: int| k <= x < rs.len() ==> rs[x].event != e,
    ensures
        map_of(rs).contains_key(e) == map_of(rs.subrange(0, k)).contains_key(e),
        map_of(rs).contains_key(e) ==> map_of(rs)[e] == map_of(rs.subrange(0, k))[e],
    decreases rs.len(),
{
    if k == rs.len() {
        assert(rs.subrange(0, k) =~= rs);
    } else {
        let d = rs.drop_last();
        assert(rs.last().event != e);
        lemma_map_of_skip(d, e, k);
        assert(d.subrange(0, k) =~= rs.subrange(0, k));
    }
}

proof fn lemma_map_of_domain(rs: Seq<Rule>, e: EhcpiEvent)
    ensures
        map_of(rs).contains_key(e) == exists|i: int| 0 <= i < rs.len() && rs[i].event == e,
    decreases rs.len(),
{
    if rs.len() > 0 {
        let d = rs.drop_last();
        lemma_map_of_domain(d, e);
        if rs.last().event == e {
            assert(rs[rs.len() - 1].event == e);
        } else {
            if map_of(rs).contains_key(e) {
                let i = choose|i: int| 0 <= i < d.len() && d[i].event == e;
                assert(rs[i].event == e);
            }
            if exists|i: int| 0 <= i < rs.len() && rs[i].event == e {
                let i = choose|i: int| 0 <= i < rs.len() && rs[i].event == e;
                assert(d[i].event == e);
            }
        }
    }
}

impl RuleTable {
    /// The number of rules held.
    pub closed spec fn rule_count(self) -> nat {
        self.rules@.len()
    }

    /// The trigger of the rule at position `i`.
    pub closed spec fn event_at(self, i: int) -> EhcpiEvent {
        self.rules@[i].event
    }

    /// Read the trigger of the rule at position `i`.
    pub fn event_index(&self, i: usize) -> (e: EhcpiEvent)
        requires
            i < self.rule_count(),
        ensures
            e == self.event_at(i as int),
    {
        self.rules[i].event
    }

    /// A table with no rules.
    pub fn new() -> (r: RuleTable)
        ensures
            r@ == Map::<EhcpiEvent, Seq<char>>::empty(),
            r.rule_count() == 0,
    {
        RuleTable { rules: Vec::new() }
    }

    pub fn len(&self) -> (n: usize)
        ensures
            n == self.rule_count(),
    {
        self.rules.len()
    }

    /// Add a rule; a rule for the same trigger added later wins.
    pub fn push(&mut self, rule: Rule)
        ensures
            final(self)@ == old(self)@.insert(rule.event, rule.cmd@),
            final(self).rule_count() == old(self).rule_count() + 1,
    {
        let ghost before = self.rules@;
        let ghost ev = rule.event;
        let ghost cv = rule.cmd@;
        self.rules.push(rule);
        proof {
            assert(self.rules@.drop_last() =~= before);
            assert(map_of(self.rules@) == map_of(before).insert(ev, cv));
        }
    }

    /// Look up the command for a trigger: the last rule loaded for it.
    pub fn get(&self, ev: &EhcpiEvent) -> (r: Option<&Vec<char>>)
        ensures
            match r {
                Some(c) => self@.contains_key(*ev) && self@[*ev] == c@,
                None => !self@.contains_key(*ev),
            },
    {
        let n = self.rules.len();
        let mut k: usize = n;
        while k > 0
            invariant
                0 <= k <= n,
                n == self.rules@.len(),
                forall|x: int| k <= x < n ==> self.rules@[x].event != *ev,
            decreases k,
        {
            k -= 1;
            if self.rules[k].event == *ev {
                proof {
                    lemma_map_of_skip(self.rules@, *ev, k + 1);
                    let pre = self.rules@.subrange(0, k + 1);
                    assert(pre.drop_last() =~= self.rules@.subrange(0, k as int));
                    assert(pre.last() == self.rules@[k as int]);
                    assert(map_of(pre).contains_key(*ev));
                    assert(map_of(pre)[*ev] == self.rules@[k as int].cmd@);
                }
                return Some(&self.rules[k].cmd);
            }
        }
        proof {
            lemma_map_of_skip(self.rules@, *ev, 0);
            assert(self.rules@.subrange(0, 0) =~= Seq::<Rule>::empty());
        }
        None
    }
}

/// A trigger stands in the table's mapping exactly when some loaded rule
/// carries it.
pub proof fn map_of_contains(t: &RuleTable, e: EhcpiEvent)
    ensures
        t@.contains_key(e) == exists|i: int| 0 <= i < t.rule_count() && t.event_at(i) == e,
{
    lemma_map_of_domain(t.rules@, e);
    if exists|i: int| 0 <= i < t.rules@.len() && t.rules@[i].event == e {
        let i = choose|i: int| 0 <= i < t.rules@.len() && t.rules@[i].event == e;
        assert(t.event_at(i) == e);
    }
    if exists|i: int| 0 <= i < t.rule_count() && t.event_at(i) == e {
        let i = choose|i: int| 0 <= i < t.rule_count() && t.event_at(i) == e;
        assert(t.rules@[i].event == e);
    }
}

proof fn lemma_rules_of_prefix_none(lines: Seq<Seq<char>>, m: int)
    requires
        0 <= m <= lines.len(),
        rules_of(lines.subrange(0, m)) is None,
    ensures
        rules_of(lines) is None,
    decreases lines.len(),
{
    if m == lines.len() {
        assert(lines.subrange(0, m) =~= lines);
    } else {
        let d = lines.drop_last();
        assert(d.subrange(0, m) =~= lines.subrange(0, m));
        lemma_rules_of_prefix_none(d, m);
    }
}

proof fn lemma_join_cmd_nonempty(ts: Seq<Seq<char>>)
    requires
        ts.len() > 0,
    ensures
        join_cmd(ts).len() > 0,
{
}

proof fn lemma_parse_line_command_nonempty(toks: Seq<Seq<char>>)
    ensures
        parse_line_spec(toks) matches Some(r) ==> r.1.len() > 0,
{
    if parse_line_spec(toks) is Some {
        if toks.len() >= 3 && has_key_prefix(toks[0]) {
            lemma_join_cmd_nonempty(toks.subrange(2, toks.len() as int));
        }
        if toks.len() >= 4 && has_sw_prefix(toks[0]) {
            lemma_join_cmd_nonempty(toks.subrange(3, toks.len() as int));
        }
    }
}

/// No entry of a loaded rule table has an empty command: a line with
/// nothing after `do` is rejected at load time.
pub proof fn lemma_no_empty_commands(lines: Seq<Seq<char>>, m: Map<EhcpiEvent, Seq<char>>, e: EhcpiEvent)
    requires
        rules_of(lines) == Some(m),
        m.contains_key(e),
    ensures
        m[e].len() > 0,
    decreases lines.len(),
{
    if lines.len() > 0 {
        let prev = rules_of(lines.drop_last()).unwrap();
        let r = parse_line_spec(tokens_of(lines.last())).unwrap();
        lemma_parse_line_command_nonempty(tokens_of(lines.last()));
        if e != r.0 {
            lemma_no_empty_commands(lines.drop_last(), prev, e);
        }
    }
}

/// A malformed line fails the whole load: if any one line of the source
/// does not parse, the source denotes no rule table at all.
pub proof fn lemma_line_failure_fails_parse(lines: Seq<Seq<char>>, i: int)
    requires
        0 <= i < lines.len(),
        parse_line_spec(tokens_of(lines[i])) is None,
    ensures
        rules_of(lines) is None,
    decreases lines.len(),
{
    if i < lines.len() - 1 {
        lemma_line_failure_fails_parse(lines.drop_last(), i);
    }
}

/// A line starting with a token that names neither a key nor a switch
/// type fails the whole parse: no rules are partially loaded.
pub proof fn lemma_unknown_token_fails(lines: Seq<Seq<char>>, i: int)
    requires
        0 <= i < lines.len(),
        tokens_of(lines[i]).len() > 0,
        !(has_key_prefix(tokens_of(lines[i])[0]) && key_code_of(tokens_of(lines[i])[0]) is Some),
        !(has_sw_prefix(tokens_of(lines[i])[0]) && switch_code_of(tokens_of(lines[i])[0]) is Some),
    ensures
        rules_of(lines) is None,
{
    assert(parse_line_spec(tokens_of(lines[i])) is None);
    lemma_line_failure_fails_parse(lines, i);
}

/// Build the rule table from the lines of the rule source. Any malformed
/// line fails the whole load: no partial tables.
pub fn parse_rules(lines: &Vec<Vec<char>>) -> (r: Result<RuleTable, RuleParseError>)
    ensures
        match r {
            Ok(t) => rules_of(views_of(lines@)) == Some(t@),
            Err(_) => rules_of(views_of(lines@)) is None,
        },
{
    let ghost vs = views_of(lines@);
    let mut table = RuleTable::new();
    let n = lines.len();
    let mut i: usize = 0;
    proof {
        assert(vs.subrange(0, 0) =~= Seq::<Seq<char>>::empty());
    }
    while i < n
        invariant
            0 <= i <= n,
            n == lines@.len(),
            vs == views_of(lines@),
            vs.len() == n,
            rules_of(vs.subrange(0, i as int)) == Some(table@),
        decreases n - i,
    {
        let toks = tokenize(&lines[i]);
        proof {
            assert(vs[i as int] == lines@[i as int]@);
        }
        match parse_line(&toks) {
            Some(rule) => {
                proof {
                    let pre = vs.subrange(0, i + 1);
                    assert(pre.drop_last() =~= vs.subrange(0, i as int));
                    assert(pre.last() == vs[i as int]);
                }
                table.push(rule);
            },
            None => {
                proof {
                    let pre = vs.subrange(0, i + 1);
                    assert(pre.drop_last() =~= vs.subrange(0, i as int));
                    assert(pre.last() == vs[i as int]);
                    assert(rules_of(pre) is None);
                    lemma_rules_of_prefix_none(vs, i + 1);
                }
                return Err(RuleParseError::ParseError);
            },
        }
        i += 1;
    }
    proof {
        assert(vs.subrange(0, n as int) =~= vs);
    }
    Ok(table)
}

} // verus!
