//! The adb commands that drive an emulator, and the reading of `adb devices`.
use vstd::prelude::*;
use crate::text::{
    Sep, append_chars, chars_of, contains, contains_seq, decimal_i32, int_decimal, lines, split, split_by,
    split_lines, string_from,
};
use crate::types::{Invocation, InvocationView, Step, steps_view, strings_view};

verus! {

/// A `String` with the characters of `s`.
pub fn owned(s: &str) -> (r: String)
    ensures
        r@ == s@,
{
    String::from_str(s)
}

/// The decimal numeral of `v` as a `String` (`i32::to_string`).
pub fn int_string(v: i32) -> (r: String)
    ensures
        r@ == int_decimal(v as int),
{
    let d = decimal_i32(v);
    string_from(&d)
}

/// `program` run with `args`.
pub fn invocation(program: &str, args: Vec<String>) -> (r: Invocation)
    ensures
        r@ == (program@, strings_view(args@)),
{
    Invocation { program: owned(program), args }
}

/// The arguments that address the device `serial` and run `shell` on it.
pub open spec fn adb_shell(serial: Seq<char>, rest: Seq<Seq<char>>) -> Seq<Seq<char>> {
    seq!["-s"@, serial, "shell"@] + rest
}

fn adb_shell_args(serial: &str) -> (r: Vec<String>)
    ensures
        strings_view(r@) == adb_shell(serial@, Seq::empty()),
{
    let mut v: Vec<String> = Vec::new();
    v.push(owned("-s"));
    v.push(owned(serial));
    v.push(owned("shell"));
    proof {
        assert(strings_view(v@) =~= adb_shell(serial@, Seq::empty()));
    }
    v
}

fn push_arg(v: &mut Vec<String>, a: String)
    ensures
        strings_view(final(v)@) == strings_view(old(v)@).push(a@),
{
    v.push(a);
    proof {
        assert(strings_view(v@) =~= strings_view(old(v)@).push(a@));
    }
}

/// `adb -s <serial> shell input tap <x> <y>`.
pub open spec fn tap_call(serial: Seq<char>, x: i32, y: i32) -> InvocationView {
    ("adb"@, adb_shell(serial, seq!["input"@, "tap"@, int_decimal(x as int), int_decimal(y as int)]))
}

/// `adb -s <serial> shell input text <text with spaces escaped>`.
pub open spec fn text_call(serial: Seq<char>, text: Seq<char>) -> InvocationView {
    ("adb"@, adb_shell(serial, seq!["input"@, "text"@, escape_spaces(text)]))
}

/// The command that taps the screen of device `serial` at `(x, y)`.
pub fn adb_tap(serial: &str, x: i32, y: i32) -> (r: Invocation)
    ensures
        r@ == tap_call(serial@, x, y),
{
    let mut args = adb_shell_args(serial);
    push_arg(&mut args, owned("input"));
    push_arg(&mut args, owned("tap"));
    push_arg(&mut args, int_string(x));
    push_arg(&mut args, int_string(y));
    proof {
        assert(strings_view(args@) =~= adb_shell(
            serial@,
            seq!["input"@, "tap"@, int_decimal(x as int), int_decimal(y as int)],
        ));
    }
    invocation("adb", args)
}

/// `text` as `adb shell input text` takes it: every space written `%s`.
pub open spec fn escape_spaces(text: Seq<char>) -> Seq<char>
    decreases text.len(),
{
    if text.len() == 0 {
        Seq::empty()
    } else {
        escape_spaces(text.drop_last()) + if text.last() == ' ' {
            seq!['%', 's']
        } else {
            seq![text.last()]
        }
    }
}

/// `str::replace(" ", "%s")`.
pub fn escape_spaces_exec(text: &str) -> (r: String)
    ensures
        r@ == escape_spaces(text@),
{
    let cs = chars_of(text);
    let mut out: Vec<char> = Vec::new();
    let mut i: usize = 0;
    while i < cs.len()
        invariant
            i <= cs.len(),
            cs@ == text@,
            out@ == escape_spaces(cs@.take(i as int)),
        decreases cs.len() - i,
    {
        let ghost before = out@;
        if cs[i] == ' ' {
            out.push('%');
            out.push('s');
        } else {
            out.push(cs[i]);
        }
        proof {
            assert(cs@.take(i + 1).drop_last() == cs@.take(i as int));
            assert(out@ =~= escape_spaces(cs@.take(i + 1)));
        }
        i += 1;
    }
    proof {
        assert(cs@.take(cs.len() as int) == cs@);
    }
    string_from(&out)
}

/// The typed text holds no space (each became `%s`), and text without
/// spaces is typed as it is.
pub proof fn law_typed_text_has_no_space(text: Seq<char>)
    ensures
        forall|i: int| 0 <= i < escape_spaces(text).len() ==> #[trigger] escape_spaces(text)[i] != ' ',
        (forall|i: int| 0 <= i < text.len() ==> #[trigger] text[i] != ' ') ==> escape_spaces(text) == text,
    decreases text.len(),
{
    if text.len() > 0 {
        law_typed_text_has_no_space(text.drop_last());
        let head = escape_spaces(text.drop_last());
        let tail = if text.last() == ' ' {
            seq!['%', 's']
        } else {
            seq![text.last()]
        };
        assert(escape_spaces(text) == head + tail);
        assert forall|i: int| 0 <= i < escape_spaces(text).len() implies #[trigger] escape_spaces(text)[i]
            != ' ' by {
            if i < head.len() {
                assert(escape_spaces(text)[i] == head[i]);
            } else {
                assert(escape_spaces(text)[i] == tail[i - head.len()]);
            }
        }
        if forall|i: int| 0 <= i < text.len() ==> #[trigger] text[i] != ' ' {
            assert(forall|i: int|
                0 <= i < text.drop_last().len() ==> #[trigger] text.drop_last()[i] == text[i]);
            assert(text.last() == text[text.len() - 1]);
            assert(escape_spaces(text) =~= text);
        }
    }
}

/// The command that types `text` into the focused field of device `serial`.
pub fn adb_text(serial: &str, text: &str) -> (r: Invocation)
    ensures
        r@ == text_call(serial@, text@),
{
    let mut args = adb_shell_args(serial);
    push_arg(&mut args, owned("input"));
    push_arg(&mut args, owned("text"));
    push_arg(&mut args, escape_spaces_exec(text));
    proof {
        assert(strings_view(args@) =~= adb_shell(
            serial@,
            seq!["input"@, "text"@, escape_spaces(text@)],
        ));
    }
    invocation("adb", args)
}

fn keyevents(serial: &str, keys: Vec<String>) -> (r: Invocation)
    ensures
        r@ == ("adb"@, adb_shell(serial@, seq!["input"@, "keyevent"@] + strings_view(keys@))),
{
    let mut args = adb_shell_args(serial);
    push_arg(&mut args, owned("input"));
    push_arg(&mut args, owned("keyevent"));
    let ghost head = strings_view(args@);
    let mut i: usize = 0;
    while i < keys.len()
        invariant
            i <= keys.len(),
            strings_view(args@) == head + strings_view(keys@).take(i as int),
        decreases keys.len() - i,
    {
        push_arg(&mut args, keys[i].clone());
        proof {
            assert(strings_view(keys@).take(i + 1) == strings_view(keys@).take(i as int).push(
                keys@[i as int]@,
            ));
        }
        i += 1;
    }
    proof {
        assert(strings_view(keys@).take(keys.len() as int) == strings_view(keys@));
        assert(head + strings_view(keys@) =~= adb_shell(
            serial@,
            seq!["input"@, "keyevent"@] + strings_view(keys@),
        ));
    }
    invocation("adb", args)
}

/// `n` copies of the key code 67 (backspace).
pub open spec fn backspaces(n: nat) -> Seq<Seq<char>>
    decreases n,
{
    if n == 0 {
        Seq::empty()
    } else {
        backspaces((n - 1) as nat).push("67"@)
    }
}

/// The steps that empty the focused field of device `serial`: move to the
/// end, select all, wait 100 ms, one backspace, then twenty more.
pub open spec fn clear_field_steps(serial: Seq<char>) -> Seq<Result<(Seq<char>, Seq<Seq<char>>), u64>> {
    seq![
        Ok(("adb"@, adb_shell(serial, seq!["input"@, "keyevent"@, "123"@]))),
        Ok(("adb"@, adb_shell(serial, seq!["input"@, "keyevent"@, "KEYCODE_CTRL_LEFT"@, "KEYCODE_A"@]))),
        Err(100u64),
        Ok(("adb"@, adb_shell(serial, seq!["input"@, "keyevent"@, "67"@]))),
        Ok(("adb"@, adb_shell(serial, seq!["input"@, "keyevent"@] + backspaces(20)))),
    ]
}

/// The steps that empty the focused field of device `serial`.
pub fn adb_clear_field(serial: &str) -> (r: Vec<Step>)
    ensures
        steps_view(r@) == clear_field_steps(serial@),
{
    let mut steps: Vec<Step> = Vec::new();
    let mut k1: Vec<String> = Vec::new();
    k1.push(owned("123"));
    let s1 = keyevents(serial, k1);
    let mut k2: Vec<String> = Vec::new();
    k2.push(owned("KEYCODE_CTRL_LEFT"));
    k2.push(owned("KEYCODE_A"));
    let s2 = keyevents(serial, k2);
    let mut k3: Vec<String> = Vec::new();
    k3.push(owned("67"));
    let s3 = keyevents(serial, k3);
    let mut k4: Vec<String> = Vec::new();
    let mut i: usize = 0;
    while i < 20
        invariant
            i <= 20,
            strings_view(k4@) == backspaces(i as nat),
        decreases 20 - i,
    {
        push_arg(&mut k4, owned("67"));
        i += 1;
    }
    let s4 = keyevents(serial, k4);
    proof {
        assert(strings_view(k1@) =~= seq!["123"@]);
        assert(strings_view(k2@) =~= seq!["KEYCODE_CTRL_LEFT"@, "KEYCODE_A"@]);
        assert(strings_view(k3@) =~= seq!["67"@]);
        assert(seq!["input"@, "keyevent"@] + seq!["123"@] =~= seq!["input"@, "keyevent"@, "123"@]);
        assert(seq!["input"@, "keyevent"@] + seq!["KEYCODE_CTRL_LEFT"@, "KEYCODE_A"@] =~= seq![
            "input"@,
            "keyevent"@,
            "KEYCODE_CTRL_LEFT"@,
            "KEYCODE_A"@,
        ]);
        assert(seq!["input"@, "keyevent"@] + seq!["67"@] =~= seq!["input"@, "keyevent"@, "67"@]);
    }
    steps.push(Step::Run(s1));
    steps.push(Step::Run(s2));
    steps.push(Step::SleepMs(100));
    steps.push(Step::Run(s3));
    steps.push(Step::Run(s4));
    proof {
        assert(steps_view(steps@) =~= clear_field_steps(serial@));
    }
    steps
}

/// `s` with every `':'` written `'_'`.
pub open spec fn colons_to_underscores(s: Seq<char>) -> Seq<char> {
    s.map_values(|c: char| if c == ':' { '_' } else { c })
}

/// The name of the local copy of a screenshot of device `serial` taken for
/// `purpose`: `cl_<purpose>_<serial with ':' written '_'>.png`.
pub open spec fn shot_file_name(purpose: Seq<char>, serial: Seq<char>) -> Seq<char> {
    "cl_"@ + purpose + "_"@ + colons_to_underscores(serial) + ".png"@
}

pub fn screenshot_file_name(purpose: &str, serial: &str) -> (r: String)
    ensures
        r@ == shot_file_name(purpose@, serial@),
{
    let mut out = chars_of("cl_");
    append_chars(&mut out, &chars_of(purpose));
    out.push('_');
    let cs = chars_of(serial);
    let ghost start = out@;
    let mut i: usize = 0;
    while i < cs.len()
        invariant
            i <= cs.len(),
            cs@ == serial@,
            out@ == start + colons_to_underscores(cs@.take(i as int)),
        decreases cs.len() - i,
    {
        out.push(
            if cs[i] == ':' {
                '_'
            } else {
                cs[i]
            },
        );
        proof {
            assert(colons_to_underscores(cs@.take(i + 1)) =~= colons_to_underscores(cs@.take(i as int)).push(
                if cs@[i as int] == ':' {
                    '_'
                } else {
                    cs@[i as int]
                },
            ));
            assert(out@ =~= start + colons_to_underscores(cs@.take(i + 1)));
        }
        i += 1;
    }
    proof {
        assert(cs@.take(cs.len() as int) =~= cs@);
    }
    append_chars(&mut out, &chars_of(".png"));
    proof {
        reveal_strlit("_");
        assert(out@ =~= shot_file_name(purpose@, serial@));
    }
    string_from(&out)
}

/// Where the device keeps a screenshot taken for `purpose`: `/sdcard/cl_<purpose>.png`.
pub open spec fn device_shot_path(purpose: Seq<char>) -> Seq<char> {
    "/sdcard/cl_"@ + purpose + ".png"@
}

/// The commands that take a screenshot of device `serial`, copy it to
/// `local_path`, and delete it on the device.
pub open spec fn screenshot_calls(serial: Seq<char>, purpose: Seq<char>, local_path: Seq<char>) -> Seq<
    InvocationView,
> {
    seq![
        ("adb"@, adb_shell(serial, seq!["screencap"@, "-p"@, device_shot_path(purpose)])),
        ("adb"@, seq!["-s"@, serial, "pull"@, device_shot_path(purpose), local_path]),
        ("adb"@, adb_shell(serial, seq!["rm"@, "-f"@, device_shot_path(purpose)])),
    ]
}

pub open spec fn invocations_view(v: Seq<Invocation>) -> Seq<InvocationView> {
    v.map_values(|i: Invocation| i@)
}

/// The commands that bring a screenshot of device `serial` to `local_path`.
pub fn screenshot_commands(serial: &str, purpose: &str, local_path: &str) -> (r: Vec<Invocation>)
    ensures
        invocations_view(r@) == screenshot_calls(serial@, purpose@, local_path@),
{
    let mut path = chars_of("/sdcard/cl_");
    append_chars(&mut path, &chars_of(purpose));
    append_chars(&mut path, &chars_of(".png"));
    let on_device = string_from(&path);
    let mut a1 = adb_shell_args(serial);
    push_arg(&mut a1, owned("screencap"));
    push_arg(&mut a1, owned("-p"));
    push_arg(&mut a1, on_device.clone());
    let mut a2: Vec<String> = Vec::new();
    push_arg(&mut a2, owned("-s"));
    push_arg(&mut a2, owned(serial));
    push_arg(&mut a2, owned("pull"));
    push_arg(&mut a2, on_device.clone());
    push_arg(&mut a2, owned(local_path));
    let mut a3 = adb_shell_args(serial);
    push_arg(&mut a3, owned("rm"));
    push_arg(&mut a3, owned("-f"));
    push_arg(&mut a3, on_device);
    let mut r: Vec<Invocation> = Vec::new();
    r.push(invocation("adb", a1));
    r.push(invocation("adb", a2));
    r.push(invocation("adb", a3));
    proof {
        assert(path@ =~= device_shot_path(purpose@));
        assert(strings_view(a1@) =~= adb_shell(serial@, seq!["screencap"@, "-p"@, device_shot_path(purpose@)]));
        assert(strings_view(a2@) =~= seq!["-s"@, serial@, "pull"@, device_shot_path(purpose@), local_path@]);
        assert(strings_view(a3@) =~= adb_shell(serial@, seq!["rm"@, "-f"@, device_shot_path(purpose@)]));
        assert(invocations_view(r@) =~= screenshot_calls(serial@, purpose@, local_path@));
    }
    r
}

/// The command that lists the attached devices.
pub fn adb_devices_command() -> (r: Invocation)
    ensures
        r@ == ("adb"@, seq!["devices"@]),
{
    let mut args: Vec<String> = Vec::new();
    push_arg(&mut args, owned("devices"));
    proof {
        assert(strings_view(args@) =~= seq!["devices"@]);
    }
    invocation("adb", args)
}

/// The serial on a line of `adb devices`, where the line reports a device in
/// the `device` state: the text before the first tab.
pub open spec fn device_on_line(line: Seq<char>) -> Option<Seq<char>> {
    if contains_seq(line, "\tdevice"@) {
        Some(split_by(line, Sep::Char('\t'))[0])
    } else {
        None
    }
}

/// The serials that the output of `adb devices` lists as ready: every line
/// after the header that holds `"\tdevice"`, up to its first tab.
pub open spec fn devices_in(output: Seq<char>) -> Seq<Seq<char>> {
    let ls = lines(output);
    if ls.len() == 0 {
        Seq::empty()
    } else {
        ls.drop_first().filter_map(|l: Seq<char>| device_on_line(l))
    }
}

/// The ready devices that `adb devices` reported; none where the command could
/// not be run (`output` is `None`).
pub fn get_adb_devices(output: &Option<String>) -> (r: Vec<String>)
    ensures
        strings_view(r@) == match output {
            Some(o) => devices_in(o@),
            None => Seq::empty(),
        },
{
    let mut r: Vec<String> = Vec::new();
    match output {
        None => {
            proof {
                assert(strings_view(r@) =~= Seq::<Seq<char>>::empty());
            }
            r
        },
        Some(o) => {
            let cs = chars_of(o.as_str());
            let ls = split_lines(&cs);
            let needle = chars_of("\tdevice");
            let ghost lv = lines(o@);
            let ghost f = |l: Seq<char>| device_on_line(l);
            if ls.len() == 0 {
                proof {
                    assert(strings_view(r@) =~= Seq::<Seq<char>>::empty());
                }
                return r;
            }
            let ghost rest = lv.drop_first();
            let mut k: usize = 1;
            while k < ls.len()
                invariant
                    1 <= k <= ls.len() == lv.len(),
                    rest == lv.drop_first(),
                    needle@ == "\tdevice"@,
                    f == (|l: Seq<char>| device_on_line(l)),
                    forall|i: int| 0 <= i < ls.len() ==> #[trigger] ls@[i]@ == lv[i],
                    strings_view(r@) == rest.take(k - 1).filter_map(f),
                decreases ls.len() - k,
            {
                proof {
                    rest.lemma_filter_map_take_succ(f, k - 1);
                    assert(rest[k - 1] == lv[k as int]);
                }
                let ghost prev = strings_view(r@);
                if contains(&ls[k], &needle) {
                    let parts = split(&ls[k], Sep::Char('\t'));
                    proof {
                        crate::text::lemma_split_by_len(ls@[k as int]@, Sep::Char('\t'));
                    }
                    let serial = string_from(&parts[0]);
                    r.push(serial);
                    proof {
                        assert(strings_view(r@) =~= prev + seq![serial@]);
                    }
                } else {
                    proof {
                        assert(prev + Seq::<Seq<char>>::empty() =~= prev);
                    }
                }
                k += 1;
            }
            proof {
                assert(rest.take(ls.len() - 1) == rest);
            }
            r
        },
    }
}

} // verus!
