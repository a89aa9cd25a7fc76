//! The LDPlayer console: reading its instance list, telling whether an
//! instance runs, and finding the adb serial of each running instance.
use vstd::prelude::*;
use crate::adb::{int_string, invocation, owned};
use crate::text::{
    Sep, append_chars, chars_of, contains, contains_seq, decimal_i32, int_decimal, lines,
    parse_i32, parse_i32_spec, split, split_by, split_lines, string_from,
};
use crate::types::{Invocation, LdInstance, LdInstanceView, strings_view};

verus! {

/// An entry of `ldconsole list2`: instance index and title.
#[derive(Clone, Debug)]
pub struct LdEntry {
    pub index: i32,
    pub name: String,
}

pub open spec fn entries_view(v: Seq<LdEntry>) -> Seq<(i32, Seq<char>)> {
    v.map_values(|e: LdEntry| (e.index, e.name@))
}

/// The entry on a line of `ldconsole list2`: comma-separated fields, the first
/// an instance index, the second its title.
pub open spec fn entry_on_line(line: Seq<char>) -> Option<(i32, Seq<char>)> {
    let parts = split_by(line, Sep::Char(','));
    if parts.len() >= 2 {
        match parse_i32_spec(parts[0]) {
            Some(i) => Some((i, parts[1])),
            None => None,
        }
    } else {
        None
    }
}

pub open spec fn entries_in(output: Seq<char>) -> Seq<(i32, Seq<char>)> {
    lines(output).filter_map(|l: Seq<char>| entry_on_line(l))
}

/// The command that lists the instances.
pub fn ld_list_command() -> (r: Invocation)
    ensures
        r@ == ("ldconsole.exe"@, seq!["list2"@]),
{
    let mut args: Vec<String> = Vec::new();
    args.push(owned("list2"));
    proof {
        assert(strings_view(args@) =~= seq!["list2"@]);
    }
    invocation("ldconsole.exe", args)
}

/// The instances that `ldconsole list2` printed; none where it could not be run.
pub fn parse_ld_list(output: &Option<String>) -> (r: Vec<LdEntry>)
    ensures
        entries_view(r@) == match output {
            Some(o) => entries_in(o@),
            None => Seq::empty(),
        },
{
    let mut r: Vec<LdEntry> = Vec::new();
    match output {
        None => {
            proof {
                assert(entries_view(r@) =~= Seq::<(i32, Seq<char>)>::empty());
            }
            r
        },
        Some(o) => {
            let cs = chars_of(o.as_str());
            let ls = split_lines(&cs);
            let ghost lv = lines(o@);
            let ghost f = |l: Seq<char>| entry_on_line(l);
            let mut k: usize = 0;
            while k < ls.len()
                invariant
                    k <= ls.len() == lv.len(),
                    f == (|l: Seq<char>| entry_on_line(l)),
                    forall|i: int| 0 <= i < ls.len() ==> #[trigger] ls@[i]@ == lv[i],
                    entries_view(r@) == lv.take(k as int).filter_map(f),
                decreases ls.len() - k,
            {
                proof {
                    lv.lemma_filter_map_take_succ(f, k as int);
                }
                let ghost prev = entries_view(r@);
                let parts = split(&ls[k], Sep::Char(','));
                let mut added = false;
                if parts.len() >= 2 {
                    match parse_i32(&parts[0]) {
                        Some(i) => {
                            let e = LdEntry { index: i, name: string_from(&parts[1]) };
                            r.push(e);
                            added = true;
                            proof {
                                assert(entries_view(r@) =~= prev + seq![(i, parts@[1]@)]);
                            }
                        },
                        None => {},
                    }
                }
                if !added {
                    proof {
                        assert(prev + Seq::<(i32, Seq<char>)>::empty() =~= prev);
                    }
                }
                k += 1;
            }
            proof {
                assert(lv.take(ls.len() as int) == lv);
            }
            r
        },
    }
}

/// The command that asks whether instance `index` runs.
pub fn isrunning_command(index: i32) -> (r: Invocation)
    ensures
        r@ == ("ldconsole.exe"@, seq!["isrunning"@, "--index"@, int_decimal(index as int)]),
{
    let mut args: Vec<String> = Vec::new();
    args.push(owned("isrunning"));
    args.push(owned("--index"));
    args.push(int_string(index));
    proof {
        assert(strings_view(args@) =~= seq!["isrunning"@, "--index"@, int_decimal(index as int)]);
    }
    invocation("ldconsole.exe", args)
}

/// The lowercase form of a text, as `str::to_lowercase` maps it.
pub uninterp spec fn lowercase(s: Seq<char>) -> Seq<char>;

/// `str::to_lowercase`; its result is named `lowercase`, a function of the text
/// alone. Not stated: the Unicode case mapping itself.
#[verifier::external_body]
fn to_lowercase(s: &str) -> (r: String)
    ensures
        r@ == lowercase(s@),
{
    s.to_lowercase()
}

/// Whether a lowercased answer of `ldconsole isrunning` says the instance runs.
pub fn reports_running(lowered: &str) -> (r: bool)
    ensures
        r == contains_seq(lowered@, "running"@),
{
    let hay = chars_of(lowered);
    let needle = chars_of("running");
    contains(&hay, &needle)
}

/// Whether the answer of `ldconsole isrunning` says the instance runs: its
/// lowercase form holds `running`. No answer (`None`) means it does not run.
pub fn check_ld_running(output: &Option<String>) -> (r: bool)
    ensures
        r == match output {
            Some(o) => contains_seq(lowercase(o@), "running"@),
            None => false,
        },
{
    match output {
        Some(o) => {
            let lowered = to_lowercase(o.as_str());
            reports_running(lowered.as_str())
        },
        None => false,
    }
}

/// The adb port of instance `idx`: 5555 for the first, two apart after that.
pub open spec fn expected_port(idx: i32) -> int {
    5555 + 2 * idx
}

/// The port arithmetic of instance `idx` stays within `i32`.
pub open spec fn port_in_range(idx: i32) -> bool {
    i32::MIN <= 2 * idx && expected_port(idx) <= i32::MAX
}

pub fn port_computable(idx: i32) -> (r: bool)
    ensures
        r == port_in_range(idx),
{
    -1073741824 <= idx && idx <= 1073739046
}

pub open spec fn emulator_serial(idx: i32) -> Seq<char> {
    "emulator-"@ + int_decimal(expected_port(idx) - 1)
}

pub open spec fn ip_serial(idx: i32) -> Seq<char> {
    "127.0.0.1:"@ + int_decimal(expected_port(idx))
}

/// The serial that reaches instance `idx`: its emulator name where adb lists
/// it, else its TCP address where adb lists that, else the placeholder `LD-idx`.
pub open spec fn serial_for(idx: i32, devices: Seq<Seq<char>>) -> Seq<char> {
    if devices.contains(emulator_serial(idx)) {
        emulator_serial(idx)
    } else if devices.contains(ip_serial(idx)) {
        ip_serial(idx)
    } else {
        "LD-"@ + int_decimal(idx as int)
    }
}

fn prefixed_number(prefix: &str, v: i32) -> (r: Vec<char>)
    ensures
        r@ == prefix@ + int_decimal(v as int),
{
    let mut out = chars_of(prefix);
    let d = decimal_i32(v);
    append_chars(&mut out, &d);
    out
}

fn listed(devices: &Vec<String>, s: &Vec<char>) -> (r: bool)
    ensures
        r == strings_view(devices@).contains(s@),
{
    let ghost dv = strings_view(devices@);
    let mut i: usize = 0;
    while i < devices.len()
        invariant
            i <= devices.len() == dv.len(),
            dv == strings_view(devices@),
            forall|j: int| 0 <= j < i ==> dv[j] != s@,
        decreases devices.len() - i,
    {
        let d = chars_of(devices[i].as_str());
        if crate::text::chars_eq(&d, s) {
            proof {
                assert(dv[i as int] == s@);
            }
            return true;
        }
        i += 1;
    }
    false
}

/// The adb serial of instance `idx`, given the devices that adb lists.
pub fn adb_serial_for(idx: i32, devices: &Vec<String>) -> (r: String)
    requires
        port_in_range(idx),
    ensures
        r@ == serial_for(idx, strings_view(devices@)),
{
    let port = 5555 + idx * 2;
    let emulator = prefixed_number("emulator-", port - 1);
    if listed(devices, &emulator) {
        return string_from(&emulator);
    }
    let ip = prefixed_number("127.0.0.1:", port);
    if listed(devices, &ip) {
        return string_from(&ip);
    }
    let placeholder = prefixed_number("LD-", idx);
    string_from(&placeholder)
}

/// The running instances with their serials: each entry in list order whose
/// `running` answer is yes.
pub open spec fn instances_of(
    entries: Seq<(i32, Seq<char>)>,
    running: Seq<bool>,
    devices: Seq<Seq<char>>,
) -> Seq<LdInstanceView>
    decreases entries.len(),
{
    if entries.len() == 0 || running.len() != entries.len() {
        Seq::empty()
    } else {
        let prev = instances_of(entries.drop_last(), running.drop_last(), devices);
        let e = entries.last();
        if running.last() {
            prev.push((e.0, e.1, serial_for(e.0, devices)))
        } else {
            prev
        }
    }
}

/// The running instances among `entries` (`running[i]` answers for
/// `entries[i]`), each with the adb serial that reaches it.
pub fn get_ld_instances(entries: &Vec<LdEntry>, running: &Vec<bool>, devices: &Vec<String>) -> (r:
    Vec<LdInstance>)
    requires
        running.len() == entries.len(),
        forall|i: int| 0 <= i < entries.len() && running[i] ==> port_in_range(#[trigger] entries[i].index),
    ensures
        r@.map_values(|x: LdInstance| x@) == instances_of(
            entries_view(entries@),
            running@,
            strings_view(devices@),
        ),
{
    let ghost ev = entries_view(entries@);
    let ghost dv = strings_view(devices@);
    let mut r: Vec<LdInstance> = Vec::new();
    let mut k: usize = 0;
    while k < entries.len()
        invariant
            k <= entries.len() == running.len() == ev.len(),
            ev == entries_view(entries@),
            dv == strings_view(devices@),
            forall|i: int| 0 <= i < entries.len() && running[i] ==> port_in_range(#[trigger] entries[i].index),
            r@.map_values(|x: LdInstance| x@) == instances_of(ev.take(k as int), running@.take(k as int), dv),
        decreases entries.len() - k,
    {
        proof {
            assert(ev.take(k + 1).drop_last() == ev.take(k as int));
            assert(running@.take(k + 1).drop_last() == running@.take(k as int));
        }
        let ghost prev = r@.map_values(|x: LdInstance| x@);
        if running[k] {
            let e = &entries[k];
            let serial = adb_serial_for(e.index, devices);
            let inst = LdInstance { index: e.index, name: e.name.clone(), adb_serial: serial };
            r.push(inst);
            proof {
                assert(r@.map_values(|x: LdInstance| x@) =~= prev.push(inst@));
            }
        }
        k += 1;
    }
    proof {
        assert(ev.take(entries.len() as int) == ev);
        assert(running@.take(entries.len() as int) == running@);
    }
    r
}

/// The serial chosen for an instance is one that adb lists whenever adb lists
/// either of its two names, and the emulator name wins over the TCP address.
pub proof fn law_serial_prefers_listed(idx: i32, devices: Seq<Seq<char>>)
    ensures
        devices.contains(emulator_serial(idx)) ==> serial_for(idx, devices) == emulator_serial(idx),
        devices.contains(ip_serial(idx)) ==> devices.contains(serial_for(idx, devices)),
{
}

} // verus!
