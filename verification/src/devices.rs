use vstd::prelude::*;

use crate::rules::{map_of_contains, EhcpiEvent, RuleTable};

verus! {

/// What one input device can produce: the key codes and the switch type
/// codes it supports.
pub struct DeviceCaps {
    pub keys: Vec<u16>,
    pub switches: Vec<u16>,
}

/// Whether a device with the given capabilities could ever produce the
/// trigger `e`: a key rule needs the key supported, a switch rule needs
/// the switch type supported — the expected state is irrelevant here.
pub open spec fn caps_support(keys: Seq<u16>, switches: Seq<u16>, e: EhcpiEvent) -> bool {
    match e {
        EhcpiEvent::Key(k) => keys.contains(k),
        EhcpiEvent::Switch(s, _) => switches.contains(s),
    }
}

/// Whether the device is worth listening on: some rule in the mapping
/// names a key or switch type it supports.
pub open spec fn device_matches_spec(
    keys: Seq<u16>,
    switches: Seq<u16>,
    m: Map<EhcpiEvent, Seq<char>>,
) -> bool {
    exists|e: EhcpiEvent| m.contains_key(e) && caps_support(keys, switches, e)
}

fn contains_u16(v: &Vec<u16>, x: u16) -> (r: bool)
    ensures
        r == v@.contains(x),
{
    let n = v.len();
    let mut i: usize = 0;
    while i < n
        invariant
            0 <= i <= n,
            n == v@.len(),
            forall|j: int| 0 <= j < i ==> v@[j] != x,
        decreases n - i,
    {
        if v[i] == x {
            return true;
        }
        i += 1;
    }
    false
}

/// Decide whether a device could produce any trigger of the table.
pub fn device_matches(caps: &DeviceCaps, table: &RuleTable) -> (r: bool)
    ensures
        r == device_matches_spec(caps.keys@, caps.switches@, table@),
{
    let n = table.len();
    let mut i: usize = 0;
    while i < n
        invariant
            0 <= i <= n,
            n == table.rule_count(),
            forall|j: int|
                0 <= j < i ==> !caps_support(caps.keys@, caps.switches@, table.event_at(j)),
        decreases n - i,
    {
        let ev = table.event_index(i);
        let supported = match ev {
            EhcpiEvent::Key(k) => contains_u16(&caps.keys, k),
            EhcpiEvent::Switch(s, _) => contains_u16(&caps.switches, s),
        };
        if supported {
            proof {
                assert(table.event_at(i as int) == ev);
                map_of_contains(table, ev);
                assert(table@.contains_key(ev));
                assert(caps_support(caps.keys@, caps.switches@, ev));
            }
            return true;
        }
        i += 1;
    }
    proof {
        if device_matches_spec(caps.keys@, caps.switches@, table@) {
            let e = choose|e: EhcpiEvent|
                table@.contains_key(e) && caps_support(caps.keys@, caps.switches@, e);
            map_of_contains(table, e);
            let j = choose|j: int| 0 <= j < table.rule_count() && table.event_at(j) == e;
            assert(!caps_support(caps.keys@, caps.switches@, table.event_at(j)));
            assert(false);
        }
    }
    false
}

/// The selection contract: `sel` lists, in order, exactly the indices of
/// the devices whose capabilities match some rule of `m`.
pub open spec fn selection_ok(
    sel: Seq<usize>,
    devs: Seq<DeviceCaps>,
    m: Map<EhcpiEvent, Seq<char>>,
) -> bool {
    &&& forall|a: int, b: int| 0 <= a < b < sel.len() ==> sel[a] < sel[b]
    &&& forall|a: int|
        0 <= a < sel.len() ==> sel[a] < devs.len() && device_matches_spec(
            devs[sel[a] as int].keys@,
            devs[sel[a] as int].switches@,
            m,
        )
    &&& forall|i: int|
        0 <= i < devs.len() && device_matches_spec(devs[i].keys@, devs[i].switches@, m)
            ==> exists|a: int| 0 <= a < sel.len() && sel[a] == i
}

/// Keep exactly the devices that could produce a trigger of the table,
/// in their original order, given as indices into `devs`.
pub fn select_devices(devs: &Vec<DeviceCaps>, table: &RuleTable) -> (r: Vec<usize>)
    ensures
        selection_ok(r@, devs@, table@),
{
    let n = devs.len();
    let mut sel: Vec<usize> = Vec::new();
    let mut i: usize = 0;
    while i < n
        invariant
            0 <= i <= n,
            n == devs@.len(),
            forall|a: int, b: int| 0 <= a < b < sel@.len() ==> sel@[a] < sel@[b],
            forall|a: int| 0 <= a < sel@.len() ==> sel@[a] < i,
            forall|a: int|
                0 <= a < sel@.len() ==> device_matches_spec(
                    devs@[sel@[a] as int].keys@,
                    devs@[sel@[a] as int].switches@,
                    table@,
                ),
            forall|j: int|
                0 <= j < i && device_matches_spec(devs@[j].keys@, devs@[j].switches@, table@)
                    ==> exists|a: int| 0 <= a < sel@.len() && sel@[a] == j,
        decreases n - i,
    {
        if device_matches(&devs[i], table) {
            let ghost before = sel@;
            sel.push(i);
            proof {
                assert(sel@[sel@.len() - 1] == i);
                assert(forall|j: int|
                    0 <= j < i && device_matches_spec(
                        devs@[j].keys@,
                        devs@[j].switches@,
                        table@,
                    ) ==> exists|a: int| 0 <= a < before.len() && before[a] == j);
                assert forall|j: int|
                    0 <= j <= i && device_matches_spec(
                        devs@[j].keys@,
                        devs@[j].switches@,
                        table@,
                    ) implies exists|a: int| 0 <= a < sel@.len() && sel@[a] == j by {
                    if j < i {
                        let a = choose|a: int| 0 <= a < before.len() && before[a] == j;
                        assert(sel@[a] == j);
                    } else {
                        assert(sel@[sel@.len() - 1] == j);
                    }
                }
            }
        }
        i += 1;
    }
    sel
}

/// The path prefix that marks an event-producing device node.
pub open spec fn event_path_prefix() -> Seq<char> {
    seq!['/', 'd', 'e', 'v', '/', 'i', 'n', 'p', 'u', 't', '/', 'e', 'v', 'e', 'n', 't']
}

/// A candidate device path: one under the input-device directory whose
/// name marks an event-producing node.
pub open spec fn is_event_path_spec(s: Seq<char>) -> bool {
    s.len() >= event_path_prefix().len() && forall|i: int|
        0 <= i < event_path_prefix().len() ==> s[i] == event_path_prefix()[i]
}

/// Decide whether a path names an event-producing device node.
pub fn is_event_path(name: &Vec<char>) -> (r: bool)
    ensures
        r == is_event_path_spec(name@),
{
    let p: Vec<char> = vec![
        '/',
        'd',
        'e',
        'v',
        '/',
        'i',
        'n',
        'p',
        'u',
        't',
        '/',
        'e',
        'v',
        'e',
        'n',
        't',
    ];
    proof {
        assert(p@ =~= event_path_prefix());
    }
    if name.len() < p.len() {
        return false;
    }
    let m = p.len();
    let mut i: usize = 0;
    while i < m
        invariant
            0 <= i <= m,
            m == event_path_prefix().len(),
            p@ == event_path_prefix(),
            name@.len() >= m,
            forall|j: int| 0 <= j < i ==> name@[j] == event_path_prefix()[j],
        decreases m - i,
    {
        if name[i] != p[i] {
            return false;
        }
        i += 1;
    }
    true
}

} // verus!
