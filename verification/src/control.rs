//! The decisions of the interactive tool: reading menu answers, changing the
//! settings, the commands it sends, the processes it ends, and its timing.
use vstd::prelude::*;
use crate::adb::{int_string, invocation, owned};
use crate::config::AppConfig;
use crate::text::{
    Sep, chars_of, int_decimal, lines, parse_i32, parse_i32_spec, parse_u32, parse_u32_spec,
    parse_u64, parse_u64_spec, parse_u8, parse_u8_spec, parse_usize, parse_usize_spec, split,
    split_by, split_lines, trim, trim_by, trim_chars,
};
use crate::types::{Invocation, strings_view};

verus! {

/// A menu answer: the trimmed input read as a `u8`, or `default`.
pub open spec fn choice_of(input: Seq<char>, default: u8) -> u8 {
    match parse_u8_spec(trim(input)) {
        Some(v) => v,
        None => default,
    }
}

/// Reads a menu answer (`input.trim().parse::<u8>().unwrap_or(default)`).
pub fn parse_choice(input: &str, default: u8) -> (r: u8)
    ensures
        r == choice_of(input@, default),
{
    let cs = chars_of(input);
    let t = trim_chars(&cs, Sep::Whitespace);
    match parse_u8(&t) {
        Some(v) => v,
        None => default,
    }
}

/// The trimmed input read as a `u64`.
pub fn parse_trimmed_u64(input: &str) -> (r: Option<u64>)
    ensures
        r == parse_u64_spec(trim(input@)),
{
    let cs = chars_of(input);
    let t = trim_chars(&cs, Sep::Whitespace);
    parse_u64(&t)
}

/// The trimmed input read as an `i32`.
pub fn parse_trimmed_i32(input: &str) -> (r: Option<i32>)
    ensures
        r == parse_i32_spec(trim(input@)),
{
    let cs = chars_of(input);
    let t = trim_chars(&cs, Sep::Whitespace);
    parse_i32(&t)
}

/// How many instances to log in: the trimmed input read as a count, 15 where
/// it is no count, then held within 1..=15.
pub open spec fn login_count_of(input: Seq<char>) -> usize {
    let n = match parse_usize_spec(trim(input)) {
        Some(v) => v,
        None => 15usize,
    };
    if n < 1 {
        1
    } else if n > 15 {
        15
    } else {
        n
    }
}

pub fn parse_login_count(input: &str) -> (r: usize)
    ensures
        r == login_count_of(input@),
        1 <= r <= 15,
{
    let cs = chars_of(input);
    let t = trim_chars(&cs, Sep::Whitespace);
    let n = match parse_usize(&t) {
        Some(v) => v,
        None => 15,
    };
    if n < 1 {
        1
    } else if n > 15 {
        15
    } else {
        n
    }
}

/// `s` with every `','` turned into a space.
pub open spec fn commas_to_spaces(s: Seq<char>) -> Seq<char> {
    s.map_values(|c: char| if c == ',' { ' ' } else { c })
}

/// The instance indices typed as `1,2,5` or `1 2 5`: the words between
/// commas and white space that read as `i32`, in order (an empty piece reads
/// as nothing, so this is `split_whitespace`).
pub open spec fn ld_list_of(input: Seq<char>) -> Seq<i32> {
    split_by(commas_to_spaces(input), Sep::Whitespace).filter_map(|w: Seq<char>| parse_i32_spec(w))
}

pub fn parse_ld_indices(input: &str) -> (r: Vec<i32>)
    ensures
        r@ == ld_list_of(input@),
{
    let cs = chars_of(input);
    let mut spaced: Vec<char> = Vec::new();
    let mut i: usize = 0;
    while i < cs.len()
        invariant
            i <= cs.len(),
            cs@ == input@,
            spaced@ == commas_to_spaces(cs@.take(i as int)),
        decreases cs.len() - i,
    {
        let c = cs[i];
        spaced.push(
            if c == ',' {
                ' '
            } else {
                c
            },
        );
        proof {
            assert(spaced@ =~= commas_to_spaces(cs@.take(i + 1)));
        }
        i += 1;
    }
    proof {
        assert(cs@.take(cs.len() as int) == cs@);
    }
    let words = split(&spaced, Sep::Whitespace);
    let ghost wv = split_by(commas_to_spaces(input@), Sep::Whitespace);
    let ghost f = |w: Seq<char>| parse_i32_spec(w);
    let mut r: Vec<i32> = Vec::new();
    let mut k: usize = 0;
    while k < words.len()
        invariant
            k <= words.len() == wv.len(),
            f == (|w: Seq<char>| parse_i32_spec(w)),
            forall|j: int| 0 <= j < words.len() ==> #[trigger] words@[j]@ == wv[j],
            r@ == wv.take(k as int).filter_map(f),
        decreases words.len() - k,
    {
        proof {
            wv.lemma_filter_map_take_succ(f, k as int);
        }
        let ghost prev = r@;
        match parse_i32(&words[k]) {
            Some(v) => {
                r.push(v);
                proof {
                    assert(r@ =~= prev + seq![v]);
                }
            },
            None => {
                proof {
                    assert(prev + Seq::<i32>::empty() =~= prev);
                }
            },
        }
        k += 1;
    }
    proof {
        assert(wv.take(words.len() as int) == wv);
    }
    r
}

/// A change made from the settings menu.
pub enum SettingsChange {
    ToggleAutoStart,
    ToggleAutoSort,
    ToggleAutoOpenNph,
    SortDelay(u64),
    LdList(Vec<i32>),
    SortColumns(i32),
    NphActive(i32, i32),
}

/// The settings after a change: one setting flipped or replaced, all others kept.
pub open spec fn settings_changed(c: AppConfig, change: SettingsChange) -> AppConfig {
    match change {
        SettingsChange::ToggleAutoStart => AppConfig { auto_start_enabled: !c.auto_start_enabled, ..c },
        SettingsChange::ToggleAutoSort => AppConfig {
            auto_sort_after_start: !c.auto_sort_after_start,
            ..c
        },
        SettingsChange::ToggleAutoOpenNph => AppConfig {
            auto_open_nph_enabled: !c.auto_open_nph_enabled,
            ..c
        },
        SettingsChange::SortDelay(d) => AppConfig { auto_sort_delay_sec: d, ..c },
        SettingsChange::LdList(l) => AppConfig { auto_start_lds: l, ..c },
        SettingsChange::SortColumns(n) => AppConfig { sort_columns: n, ..c },
        SettingsChange::NphActive(x, y) => AppConfig { nph_active_x: x, nph_active_y: y, ..c },
    }
}

/// Makes a change from the settings menu.
pub fn apply_settings_change(config: &mut AppConfig, change: SettingsChange)
    ensures
        *final(config) == settings_changed(*old(config), change),
{
    match change {
        SettingsChange::ToggleAutoStart => {
            config.auto_start_enabled = !config.auto_start_enabled;
        },
        SettingsChange::ToggleAutoSort => {
            config.auto_sort_after_start = !config.auto_sort_after_start;
        },
        SettingsChange::ToggleAutoOpenNph => {
            config.auto_open_nph_enabled = !config.auto_open_nph_enabled;
        },
        SettingsChange::SortDelay(d) => {
            config.auto_sort_delay_sec = d;
        },
        SettingsChange::LdList(l) => {
            config.auto_start_lds = l;
        },
        SettingsChange::SortColumns(n) => {
            config.sort_columns = n;
        },
        SettingsChange::NphActive(x, y) => {
            config.nph_active_x = x;
            config.nph_active_y = y;
        },
    }
}

/// Toggling a setting twice gives the settings back.
pub proof fn law_toggle_twice(c: AppConfig)
    ensures
        settings_changed(settings_changed(c, SettingsChange::ToggleAutoStart), SettingsChange::ToggleAutoStart) == c,
        settings_changed(settings_changed(c, SettingsChange::ToggleAutoSort), SettingsChange::ToggleAutoSort) == c,
        settings_changed(settings_changed(c, SettingsChange::ToggleAutoOpenNph), SettingsChange::ToggleAutoOpenNph) == c,
{
}

/// Whether `c` is the change that the settings menu makes for the answer
/// `choice` and the further answers `first` and `second` (the second is
/// asked only for the NPH position).
pub open spec fn change_for(c: SettingsChange, choice: u8, first: Seq<char>, second: Seq<char>) -> bool {
    if choice == 1 {
        c is ToggleAutoStart
    } else if choice == 2 {
        c is ToggleAutoSort
    } else if choice == 3 {
        c is ToggleAutoOpenNph
    } else if choice == 4 {
        c matches SettingsChange::SortDelay(d) && parse_u64_spec(trim(first)) == Some(d)
    } else if choice == 5 {
        c matches SettingsChange::LdList(l) && l@ == ld_list_of(first)
    } else if choice == 6 {
        c matches SettingsChange::SortColumns(n) && parse_i32_spec(trim(first)) == Some(n)
    } else {
        c matches SettingsChange::NphActive(x, y) && parse_i32_spec(trim(first)) == Some(x)
            && parse_i32_spec(trim(second)) == Some(y)
    }
}

/// Whether the settings menu changes anything for these answers: the answer
/// is one of 1 to 7, and the numbers that it asks for read as numbers.
pub open spec fn changes_anything(choice: u8, first: Seq<char>, second: Seq<char>) -> bool {
    ||| 1 <= choice <= 3 || choice == 5
    ||| choice == 4 && parse_u64_spec(trim(first)) is Some
    ||| choice == 6 && parse_i32_spec(trim(first)) is Some
    ||| choice == 7 && parse_i32_spec(trim(first)) is Some && parse_i32_spec(trim(second)) is Some
}

/// The change that the settings menu makes for its answers, if any.
pub fn settings_change(choice: u8, first: &str, second: &str) -> (r: Option<SettingsChange>)
    ensures
        r is Some <==> changes_anything(choice, first@, second@),
        r matches Some(c) ==> change_for(c, choice, first@, second@),
{
    if choice == 1 {
        Some(SettingsChange::ToggleAutoStart)
    } else if choice == 2 {
        Some(SettingsChange::ToggleAutoSort)
    } else if choice == 3 {
        Some(SettingsChange::ToggleAutoOpenNph)
    } else if choice == 4 {
        match parse_trimmed_u64(first) {
            Some(d) => Some(SettingsChange::SortDelay(d)),
            None => None,
        }
    } else if choice == 5 {
        Some(SettingsChange::LdList(parse_ld_indices(first)))
    } else if choice == 6 {
        match parse_trimmed_i32(first) {
            Some(n) => Some(SettingsChange::SortColumns(n)),
            None => None,
        }
    } else if choice == 7 {
        match (parse_trimmed_i32(first), parse_trimmed_i32(second)) {
            (Some(x), Some(y)) => Some(SettingsChange::NphActive(x, y)),
            _ => None,
        }
    } else {
        None
    }
}

/// One step of starting the selected instances.
pub enum StartStep {
    /// Run `launch_command` for this instance.
    Launch(i32),
    /// Wait this many milliseconds.
    WaitMs(u64),
    /// Open the NPH tool and press its activation button.
    OpenNph,
    /// Wait this many seconds.
    WaitSecs(u64),
    /// Arrange the emulator windows.
    SortWindows,
}

/// Launch each instance of `lds` in order, 1.5 s apart.
pub open spec fn launches(lds: Seq<i32>) -> Seq<StartStep>
    decreases lds.len(),
{
    if lds.len() == 0 {
        Seq::empty()
    } else {
        launches(lds.drop_last()) + seq![StartStep::Launch(lds.last()), StartStep::WaitMs(1500)]
    }
}

/// What starting the selected instances does: nothing without a selection;
/// else launch them, open the NPH tool where that is switched on, and, where
/// sorting is switched on, wait the set delay and arrange the windows.
pub open spec fn start_plan(c: AppConfig) -> Seq<StartStep> {
    if c.auto_start_lds@.len() == 0 {
        Seq::empty()
    } else {
        launches(c.auto_start_lds@) + (if c.auto_open_nph_enabled {
            seq![StartStep::OpenNph]
        } else {
            Seq::empty()
        }) + (if c.auto_sort_after_start {
            seq![StartStep::WaitSecs(c.auto_sort_delay_sec), StartStep::SortWindows]
        } else {
            Seq::empty()
        })
    }
}

/// The steps of starting the selected instances (`run_auto_start_feature`).
pub fn auto_start_steps(config: &AppConfig) -> (r: Vec<StartStep>)
    ensures
        r@ == start_plan(*config),
{
    let lds = &config.auto_start_lds;
    let mut r: Vec<StartStep> = Vec::new();
    if lds.len() == 0 {
        proof {
            assert(r@ =~= start_plan(*config));
        }
        return r;
    }
    let mut i: usize = 0;
    while i < lds.len()
        invariant
            i <= lds.len(),
            r@ == launches(lds@.take(i as int)),
        decreases lds.len() - i,
    {
        r.push(StartStep::Launch(lds[i]));
        r.push(StartStep::WaitMs(1500));
        proof {
            assert(lds@.take(i + 1).drop_last() =~= lds@.take(i as int));
            assert(r@ =~= launches(lds@.take(i + 1)));
        }
        i += 1;
    }
    proof {
        assert(lds@.take(lds.len() as int) =~= lds@);
    }
    if config.auto_open_nph_enabled {
        r.push(StartStep::OpenNph);
    }
    if config.auto_sort_after_start {
        r.push(StartStep::WaitSecs(config.auto_sort_delay_sec));
        r.push(StartStep::SortWindows);
    }
    proof {
        assert(r@ =~= start_plan(*config));
    }
    r
}

proof fn lemma_launches(lds: Seq<i32>)
    ensures
        launches(lds).len() == 2 * lds.len(),
        forall|k: int|
            0 <= k < launches(lds).len() ==> #[trigger] launches(lds)[k] == if k % 2 == 0 {
                StartStep::Launch(lds[k / 2])
            } else {
                StartStep::WaitMs(1500)
            },
    decreases lds.len(),
{
    if lds.len() > 0 {
        let d = lds.drop_last();
        lemma_launches(d);
        let tail = seq![StartStep::Launch(lds.last()), StartStep::WaitMs(1500)];
        let l = launches(lds);
        assert(l == launches(d) + tail);
        assert forall|k: int| 0 <= k < l.len() implies #[trigger] l[k] == if k % 2 == 0 {
            StartStep::Launch(lds[k / 2])
        } else {
            StartStep::WaitMs(1500)
        } by {
            if k < launches(d).len() {
                assert(l[k] == launches(d)[k]);
                assert(d[k / 2] == lds[k / 2]);
            } else if k == launches(d).len() {
                assert(l[k] == tail[0]);
                assert(k / 2 == d.len());
            } else {
                assert(l[k] == tail[1]);
            }
        }
    }
}

/// Starting the selected instances: with no instance selected nothing
/// happens. Otherwise each selected instance is launched in order, 1.5 s
/// apart; the NPH tool is opened exactly when that setting is on, whatever
/// the sorting setting; and the windows are sorted, after the set delay,
/// exactly when sorting is on, whatever the NPH setting.
pub proof fn law_start_plan_follows_settings(c: AppConfig)
    ensures
        c.auto_start_lds@.len() == 0 ==> start_plan(c).len() == 0,
        c.auto_start_lds@.len() > 0 ==> {
            let lds = c.auto_start_lds@;
            let plan = start_plan(c);
            let n: int = 2 * (lds.len() as int);
            &&& forall|i: int|
                0 <= i < lds.len() ==> plan[2 * i] == StartStep::Launch(#[trigger] lds[i])
                    && plan[2 * i + 1] == StartStep::WaitMs(1500)
            &&& plan.len() == n + (if c.auto_open_nph_enabled { 1int } else { 0 }) + (
            if c.auto_sort_after_start {
                2int
            } else {
                0
            })
            &&& (plan.contains(StartStep::OpenNph) <==> c.auto_open_nph_enabled)
            &&& c.auto_open_nph_enabled ==> plan[n] == StartStep::OpenNph
            &&& (plan.contains(StartStep::SortWindows) <==> c.auto_sort_after_start)
            &&& c.auto_sort_after_start ==> plan.last() == StartStep::SortWindows && plan[plan.len() - 2]
                == StartStep::WaitSecs(c.auto_sort_delay_sec)
        },
{
    let lds = c.auto_start_lds@;
    if lds.len() > 0 {
        lemma_launches(lds);
        let plan = start_plan(c);
        let l = launches(lds);
        let n: int = 2 * (lds.len() as int);
        assert forall|i: int| 0 <= i < n implies (#[trigger] plan[i]) == l[i] by {}
        assert forall|i: int| 0 <= i < lds.len() implies plan[2 * i] == StartStep::Launch(#[trigger] lds[i])
            && plan[2 * i + 1] == StartStep::WaitMs(1500) by {
            assert(plan[2 * i] == l[2 * i]);
            assert(plan[2 * i + 1] == l[2 * i + 1]);
            assert((2 * i) / 2 == i);
        }
        if plan.contains(StartStep::OpenNph) {
            let i = choose|i: int| 0 <= i < plan.len() && plan[i] == StartStep::OpenNph;
            if i < n {
                assert(plan[i] == l[i]);
            }
        }
        if plan.contains(StartStep::SortWindows) {
            let i = choose|i: int| 0 <= i < plan.len() && plan[i] == StartStep::SortWindows;
            if i < n {
                assert(plan[i] == l[i]);
            }
        }
        if c.auto_open_nph_enabled {
            assert(plan[n] == StartStep::OpenNph);
        }
        if c.auto_sort_after_start {
            assert(plan[plan.len() - 1] == StartStep::SortWindows);
        }
    }
}

/// The command line asks for the unattended start: one argument is `--auto-start`.
pub open spec fn auto_start_flag(args: Seq<Seq<char>>) -> bool {
    exists|i: int| 0 <= i < args.len() && #[trigger] args[i] == "--auto-start"@
}

pub fn has_auto_start_flag(args: &Vec<String>) -> (r: bool)
    ensures
        r == auto_start_flag(strings_view(args@)),
{
    let flag = chars_of("--auto-start");
    let mut i: usize = 0;
    while i < args.len()
        invariant
            i <= args.len(),
            flag@ == "--auto-start"@,
            forall|j: int| 0 <= j < i ==> #[trigger] strings_view(args@)[j] != "--auto-start"@,
        decreases args.len() - i,
    {
        let a = chars_of(args[i].as_str());
        if crate::text::chars_eq(&a, &flag) {
            proof {
                assert(strings_view(args@)[i as int] == "--auto-start"@);
            }
            return true;
        }
        i += 1;
    }
    false
}

/// The instance tag that starts a log line: `LD-<index>: ` for an instance,
/// nothing for a negative index (a message of the tool itself).
pub open spec fn log_prefix(ld_index: i32) -> Seq<char> {
    if ld_index >= 0 {
        "LD-"@ + int_decimal(ld_index as int) + ": "@
    } else {
        Seq::empty()
    }
}

pub fn log_prefix_text(ld_index: i32) -> (r: String)
    ensures
        r@ == log_prefix(ld_index),
{
    if ld_index >= 0 {
        let mut out = chars_of("LD-");
        let d = crate::text::decimal_i32(ld_index);
        crate::text::append_chars(&mut out, &d);
        crate::text::append_chars(&mut out, &chars_of(": "));
        crate::text::string_from(&out)
    } else {
        proof {
            reveal_strlit("");
        }
        owned("")
    }
}

/// The registry key under which Windows starts programs at log-on.
pub open spec fn run_key() -> Seq<char> {
    "HKCU\\Software\\Microsoft\\Windows\\CurrentVersion\\Run"@
}

/// The command line registered for start at log-on: the quoted executable path
/// followed by `--auto-start`.
pub open spec fn autostart_command_line(exe_path: Seq<char>) -> Seq<char> {
    seq!['"'] + exe_path + seq!['"'] + " --auto-start"@
}

/// The `reg` command that registers the tool to start with Windows (`enable`)
/// or removes that registration.
pub fn autostart_registry_command(enable: bool, exe_path: &str) -> (r: Invocation)
    ensures
        r@ == if enable {
            (
                "reg"@,
                seq![
                    "add"@,
                    run_key(),
                    "/v"@,
                    "CheckLoginAutoStart"@,
                    "/t"@,
                    "REG_SZ"@,
                    "/d"@,
                    autostart_command_line(exe_path@),
                    "/f"@,
                ],
            )
        } else {
            ("reg"@, seq!["delete"@, run_key(), "/v"@, "CheckLoginAutoStart"@, "/f"@])
        },
{
    let mut args: Vec<String> = Vec::new();
    if enable {
        let mut line = chars_of("\"");
        let exe = chars_of(exe_path);
        crate::text::append_chars(&mut line, &exe);
        line.push('"');
        let tail = chars_of(" --auto-start");
        crate::text::append_chars(&mut line, &tail);
        proof {
            assert(line@ =~= autostart_command_line(exe_path@)) by {
                reveal_strlit("\"");
            }
        }
        args.push(owned("add"));
        args.push(owned("HKCU\\Software\\Microsoft\\Windows\\CurrentVersion\\Run"));
        args.push(owned("/v"));
        args.push(owned("CheckLoginAutoStart"));
        args.push(owned("/t"));
        args.push(owned("REG_SZ"));
        args.push(owned("/d"));
        args.push(crate::text::string_from(&line));
        args.push(owned("/f"));
        proof {
            assert(strings_view(args@) =~= seq![
                "add"@,
                run_key(),
                "/v"@,
                "CheckLoginAutoStart"@,
                "/t"@,
                "REG_SZ"@,
                "/d"@,
                autostart_command_line(exe_path@),
                "/f"@,
            ]);
        }
    } else {
        args.push(owned("delete"));
        args.push(owned("HKCU\\Software\\Microsoft\\Windows\\CurrentVersion\\Run"));
        args.push(owned("/v"));
        args.push(owned("CheckLoginAutoStart"));
        args.push(owned("/f"));
        proof {
            assert(strings_view(args@) =~= seq![
                "delete"@,
                run_key(),
                "/v"@,
                "CheckLoginAutoStart"@,
                "/f"@,
            ]);
        }
    }
    invocation("reg", args)
}

/// The command that starts instance `index`.
pub fn launch_command(index: i32) -> (r: Invocation)
    ensures
        r@ == ("ldconsole.exe"@, seq!["launch"@, "--index"@, int_decimal(index as int)]),
{
    let mut args: Vec<String> = Vec::new();
    args.push(owned("launch"));
    args.push(owned("--index"));
    args.push(int_string(index));
    proof {
        assert(strings_view(args@) =~= seq!["launch"@, "--index"@, int_decimal(index as int)]);
    }
    invocation("ldconsole.exe", args)
}

/// The command that closes every instance.
pub fn quit_all_command() -> (r: Invocation)
    ensures
        r@ == ("ldconsole.exe"@, seq!["quitall"@]),
{
    let mut args: Vec<String> = Vec::new();
    args.push(owned("quitall"));
    proof {
        assert(strings_view(args@) =~= seq!["quitall"@]);
    }
    invocation("ldconsole.exe", args)
}

/// The command that ends the NPH tool and what it started.
pub fn kill_nph_command() -> (r: Invocation)
    ensures
        r@ == ("taskkill"@, seq!["/F"@, "/IM"@, "tool.exe"@, "/T"@]),
{
    let mut args: Vec<String> = Vec::new();
    args.push(owned("/F"));
    args.push(owned("/IM"));
    args.push(owned("tool.exe"));
    args.push(owned("/T"));
    proof {
        assert(strings_view(args@) =~= seq!["/F"@, "/IM"@, "tool.exe"@, "/T"@]);
    }
    invocation("taskkill", args)
}

/// Where the NPH tool is installed.
pub open spec fn nph_tool_path() -> Seq<char> {
    "C:\\Program Files\\NPHTool\\tool.exe"@
}

/// The command that opens the NPH tool.
pub fn open_nph_command() -> (r: Invocation)
    ensures
        r@ == ("cmd"@, seq!["/c"@, "start"@, ""@, nph_tool_path()]),
{
    let mut args: Vec<String> = Vec::new();
    args.push(owned("/c"));
    args.push(owned("start"));
    args.push(owned(""));
    args.push(owned("C:\\Program Files\\NPHTool\\tool.exe"));
    proof {
        assert(strings_view(args@) =~= seq!["/c"@, "start"@, ""@, nph_tool_path()]);
    }
    invocation("cmd", args)
}

/// What the power menu does for an answer: shut down (`Some(false)`),
/// restart (`Some(true)`), or nothing.
pub open spec fn power_action(choice: u8) -> Option<bool> {
    if choice == 1 {
        Some(false)
    } else if choice == 2 {
        Some(true)
    } else {
        None
    }
}

/// The command that shuts the computer down at once, or restarts it.
pub fn shutdown_command(restart: bool) -> (r: Invocation)
    ensures
        r@ == ("shutdown"@, seq![if restart { "/r"@ } else { "/s"@ }, "/t"@, "0"@, "/f"@]),
{
    let mut args: Vec<String> = Vec::new();
    args.push(
        if restart {
            owned("/r")
        } else {
            owned("/s")
        },
    );
    args.push(owned("/t"));
    args.push(owned("0"));
    args.push(owned("/f"));
    proof {
        assert(strings_view(args@) =~= seq![
            if restart {
                "/r"@
            } else {
                "/s"@
            },
            "/t"@,
            "0"@,
            "/f"@,
        ]);
    }
    invocation("shutdown", args)
}

/// The power menu's answer as an action (see `power_action`).
pub fn power_choice(choice: u8) -> (r: Option<bool>)
    ensures
        r == power_action(choice),
{
    if choice == 1 {
        Some(false)
    } else if choice == 2 {
        Some(true)
    } else {
        None
    }
}

/// The command that lists the tool's own processes as CSV without a header.
pub fn tasklist_command() -> (r: Invocation)
    ensures
        r@ == ("tasklist"@, seq!["/FI"@, "IMAGENAME eq check_login.exe"@, "/FO"@, "CSV"@, "/NH"@]),
{
    let mut args: Vec<String> = Vec::new();
    args.push(owned("/FI"));
    args.push(owned("IMAGENAME eq check_login.exe"));
    args.push(owned("/FO"));
    args.push(owned("CSV"));
    args.push(owned("/NH"));
    proof {
        assert(strings_view(args@) =~= seq![
            "/FI"@,
            "IMAGENAME eq check_login.exe"@,
            "/FO"@,
            "CSV"@,
            "/NH"@,
        ]);
    }
    invocation("tasklist", args)
}

/// The process id on a line of the task list: its second comma-separated
/// field, quotes trimmed, read as a `u32`.
pub open spec fn pid_on_line(line: Seq<char>) -> Option<u32> {
    let parts = split_by(line, Sep::Char(','));
    if parts.len() >= 2 {
        parse_u32_spec(trim_by(parts[1], Sep::Char('"')))
    } else {
        None
    }
}

/// The earlier copies of the tool to end: every process id in the task list
/// other than `current`, in order.
pub open spec fn pids_to_end(output: Seq<char>, current: u32) -> Seq<u32> {
    lines(output).filter_map(
        |l: Seq<char>|
            match pid_on_line(l) {
                Some(p) => if p != current {
                    Some(p)
                } else {
                    None
                },
                None => None,
            },
    )
}

pub fn pids_to_kill(output: &str, current: u32) -> (r: Vec<u32>)
    ensures
        r@ == pids_to_end(output@, current),
        forall|i: int| 0 <= i < r.len() ==> r@[i] != current,
{
    let cs = chars_of(output);
    let ls = split_lines(&cs);
    let ghost lv = lines(output@);
    let ghost f = |l: Seq<char>|
        match pid_on_line(l) {
            Some(p) => if p != current {
                Some(p)
            } else {
                None
            },
            None => None,
        };
    let mut r: Vec<u32> = Vec::new();
    let mut k: usize = 0;
    while k < ls.len()
        invariant
            k <= ls.len() == lv.len(),
            lv == lines(output@),
            f == (|l: Seq<char>|
                match pid_on_line(l) {
                    Some(p) => if p != current {
                        Some(p)
                    } else {
                        None
                    },
                    None => None,
                }),
            forall|i: int| 0 <= i < ls.len() ==> #[trigger] ls@[i]@ == lv[i],
            r@ == lv.take(k as int).filter_map(f),
            forall|i: int| 0 <= i < r.len() ==> r@[i] != current,
        decreases ls.len() - k,
    {
        proof {
            lv.lemma_filter_map_take_succ(f, k as int);
        }
        let ghost prev = r@;
        let parts = split(&ls[k], Sep::Char(','));
        let mut pid: Option<u32> = None;
        if parts.len() >= 2 {
            let field = trim_chars(&parts[1], Sep::Char('"'));
            pid = parse_u32(&field);
        }
        proof {
            assert(pid == pid_on_line(lv[k as int]));
        }
        match pid {
            Some(p) => {
                if p != current {
                    r.push(p);
                    proof {
                        assert(r@ =~= prev + seq![p]);
                    }
                } else {
                    proof {
                        assert(prev + Seq::<u32>::empty() =~= prev);
                    }
                }
            },
            None => {
                proof {
                    assert(prev + Seq::<u32>::empty() =~= prev);
                }
            },
        }
        k += 1;
    }
    proof {
        assert(lv.take(ls.len() as int) == lv);
    }
    r
}

/// The command that ends process `pid`.
pub fn taskkill_command(pid: u32) -> (r: Invocation)
    ensures
        r@ == ("taskkill"@, seq!["/F"@, "/PID"@, int_decimal(pid as int)]),
{
    let mut args: Vec<String> = Vec::new();
    args.push(owned("/F"));
    args.push(owned("/PID"));
    let d = crate::text::decimal_u64(pid as u64);
    args.push(crate::text::string_from(&d));
    proof {
        assert(strings_view(args@) =~= seq!["/F"@, "/PID"@, int_decimal(pid as int)]);
    }
    invocation("taskkill", args)
}

/// The time before the automatic restart, in milliseconds; none where the
/// restart is switched off (0 minutes).
pub fn restart_delay_ms(minutes: u64) -> (r: Option<u64>)
    requires
        minutes * 60000 <= u64::MAX,
    ensures
        r == if minutes > 0 {
            Some((minutes * 60000) as u64)
        } else {
            None::<u64>
        },
{
    if minutes > 0 {
        Some(minutes * 60 * 1000)
    } else {
        None
    }
}

/// The pause between checks: `min_sec` seconds plus `seed` taken modulo the
/// span of milliseconds up to `max_sec` seconds.
pub open spec fn delay_ms(min_sec: u64, max_sec: u64, seed: u64) -> int {
    min_sec * 1000 + (seed as int) % ((max_sec - min_sec) * 1000 + 1)
}

/// The pause between checks for the clock reading `seed`.
pub fn random_delay(min_sec: u64, max_sec: u64, seed: u64) -> (r: u64)
    requires
        min_sec <= max_sec,
        max_sec * 1000 <= u64::MAX,
    ensures
        r == delay_ms(min_sec, max_sec, seed),
        min_sec * 1000 <= r <= max_sec * 1000,
{
    let min_ms = min_sec * 1000;
    let max_ms = max_sec * 1000;
    let span = max_ms - min_ms + 1;
    let r = min_ms + (seed % span);
    proof {
        assert((max_sec - min_sec) * 1000 == max_ms - min_ms) by (nonlinear_arith)
            requires
                min_ms == min_sec * 1000,
                max_ms == max_sec * 1000,
        ;
    }
    r
}

/// The wall-clock time of day in UTC+7 as `HH:MM:SS`, for `unix_secs`
/// seconds after the epoch.
pub open spec fn clock_fields(unix_secs: u64) -> (int, int, int) {
    let secs = (unix_secs % 86400) as int;
    ((secs / 3600 + 7) % 24, (secs % 3600) / 60, secs % 60)
}

pub open spec fn two_digits(n: int) -> Seq<char> {
    seq![crate::text::digit_char((n / 10) as nat), crate::text::digit_char((n % 10) as nat)]
}

pub open spec fn clock_text(unix_secs: u64) -> Seq<char> {
    let (h, m, s) = clock_fields(unix_secs);
    two_digits(h) + seq![':'] + two_digits(m) + seq![':'] + two_digits(s)
}

fn push_two_digits(out: &mut Vec<char>, n: u64)
    requires
        n < 100,
    ensures
        final(out)@ == old(out)@ + two_digits(n as int),
{
    let hi = (n / 10) as u8;
    let lo = (n % 10) as u8;
    out.push((hi + 48u8) as char);
    out.push((lo + 48u8) as char);
    proof {
        assert(final(out)@ =~= old(out)@ + two_digits(n as int));
    }
}

/// The time stamp of the log lines (`chrono_time`), from the clock reading.
pub fn chrono_time(unix_secs: u64) -> (r: String)
    ensures
        r@ == clock_text(unix_secs),
{
    let secs = unix_secs % 86400;
    let hours = (secs / 3600 + 7) % 24;
    let mins = (secs % 3600) / 60;
    let s = secs % 60;
    let mut out: Vec<char> = Vec::new();
    push_two_digits(&mut out, hours);
    out.push(':');
    push_two_digits(&mut out, mins);
    out.push(':');
    push_two_digits(&mut out, s);
    proof {
        assert(out@ =~= clock_text(unix_secs));
    }
    crate::text::string_from(&out)
}

} // verus!
