pub mod devices;
pub mod matcher;
pub mod rules;
pub mod text;

use vstd::prelude::*;

use crate::devices::{select_devices, selection_ok, DeviceCaps};
use crate::rules::{parse_rules, rules_of, RuleParseError, RuleTable};
use crate::text::views_of;

verus! {

/// Start the dispatcher's verified part: build the rule table from the
/// rule source lines, then pick the devices worth listening on. Fails,
/// with nothing loaded, when any source line is malformed.
pub fn run(lines: &Vec<Vec<char>>, devices: &Vec<DeviceCaps>) -> (r: Result<
    (RuleTable, Vec<usize>),
    RuleParseError,
>)
    ensures
        match r {
            Ok(p) => rules_of(views_of(lines@)) == Some(p.0@) && selection_ok(
                p.1@,
                devices@,
                p.0@,
            ),
            Err(_) => rules_of(views_of(lines@)) is None,
        },
{
    match parse_rules(lines) {
        Ok(table) => {
            let sel = select_devices(devices, &table);
            Ok((table, sel))
        },
        Err(e) => Err(e),
    }
}

} // verus!
