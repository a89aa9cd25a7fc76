use check_login::adb::{
    adb_clear_field, adb_devices_command, adb_tap, adb_text, escape_spaces_exec, get_adb_devices,
    int_string, screenshot_commands, screenshot_file_name,
};
use check_login::ldplayer::{
    LdEntry, adb_serial_for, check_ld_running, get_ld_instances, isrunning_command, ld_list_command,
    parse_ld_list, port_computable, reports_running,
};
use check_login::types::{Invocation, Step};

fn call(inv: &Invocation) -> (String, Vec<String>) {
    (inv.program.clone(), inv.args.clone())
}

fn strs(v: &[&str]) -> Vec<String> {
    v.iter().map(|s| s.to_string()).collect()
}

#[test]
fn tap_command() {
    let inv = adb_tap("emulator-5554", 480, 213);
    assert_eq!(
        call(&inv),
        ("adb".to_string(), strs(&["-s", "emulator-5554", "shell", "input", "tap", "480", "213"]))
    );
    let neg = adb_tap("x", -5, 0);
    assert_eq!(neg.args[5], "-5");
    assert_eq!(neg.args[6], "0");
}

#[test]
fn int_string_matches_to_string() {
    for v in [0, 7, -1, 42, i32::MAX, i32::MIN, 1000000] {
        assert_eq!(int_string(v), v.to_string());
    }
}

#[test]
fn text_command_escapes_spaces() {
    let inv = adb_text("127.0.0.1:5557", "my user name");
    assert_eq!(
        call(&inv),
        ("adb".to_string(), strs(&["-s", "127.0.0.1:5557", "shell", "input", "text", "my%suser%sname"]))
    );
    assert_eq!(escape_spaces_exec("nospace"), "nospace");
    assert_eq!(escape_spaces_exec(" "), "%s");
    assert_eq!(escape_spaces_exec(""), "");
}

#[test]
fn typed_text_has_no_space() {
    for t in ["a b c", "  ", "x", "tab\there"] {
        assert!(!escape_spaces_exec(t).contains(' '));
    }
}

#[test]
fn clear_field_steps() {
    let steps = adb_clear_field("s1");
    assert_eq!(steps.len(), 5);
    match &steps[0] {
        Step::Run(i) => assert_eq!(call(i), ("adb".to_string(), strs(&["-s", "s1", "shell", "input", "keyevent", "123"]))),
        _ => panic!("first step runs a command"),
    }
    match &steps[1] {
        Step::Run(i) => assert_eq!(
            i.args,
            strs(&["-s", "s1", "shell", "input", "keyevent", "KEYCODE_CTRL_LEFT", "KEYCODE_A"])
        ),
        _ => panic!("second step runs a command"),
    }
    assert!(matches!(steps[2], Step::SleepMs(100)));
    match &steps[3] {
        Step::Run(i) => assert_eq!(i.args, strs(&["-s", "s1", "shell", "input", "keyevent", "67"])),
        _ => panic!("fourth step runs a command"),
    }
    match &steps[4] {
        Step::Run(i) => {
            assert_eq!(i.args.len(), 25);
            assert_eq!(&i.args[..5], &strs(&["-s", "s1", "shell", "input", "keyevent"])[..]);
            assert!(i.args[5..].iter().all(|k| k == "67"));
        }
        _ => panic!("fifth step runs a command"),
    }
}

#[test]
fn devices_command_and_output() {
    assert_eq!(call(&adb_devices_command()), ("adb".to_string(), strs(&["devices"])));
    let out = "List of devices attached\nemulator-5554\tdevice\n127.0.0.1:5557\tdevice\r\nemulator-5556\toffline\n\n";
    assert_eq!(
        get_adb_devices(&Some(out.to_string())),
        strs(&["emulator-5554", "127.0.0.1:5557"])
    );
    assert!(get_adb_devices(&None).is_empty());
    assert!(get_adb_devices(&Some(String::new())).is_empty());
    assert!(get_adb_devices(&Some("emulator-5554\tdevice".to_string())).is_empty());
}

#[test]
fn screenshot_name_and_commands() {
    assert_eq!(screenshot_file_name("check", "127.0.0.1:5555"), "cl_check_127.0.0.1_5555.png");
    assert_eq!(screenshot_file_name("click", "emulator-5554"), "cl_click_emulator-5554.png");
    let cmds = screenshot_commands("emulator-5554", "check", "C:\\tmp\\cl_check_emulator-5554.png");
    assert_eq!(cmds.len(), 3);
    assert_eq!(
        call(&cmds[0]),
        ("adb".to_string(), strs(&["-s", "emulator-5554", "shell", "screencap", "-p", "/sdcard/cl_check.png"]))
    );
    assert_eq!(
        call(&cmds[1]),
        (
            "adb".to_string(),
            strs(&["-s", "emulator-5554", "pull", "/sdcard/cl_check.png", "C:\\tmp\\cl_check_emulator-5554.png"])
        )
    );
    assert_eq!(
        call(&cmds[2]),
        ("adb".to_string(), strs(&["-s", "emulator-5554", "shell", "rm", "-f", "/sdcard/cl_check.png"]))
    );
}

#[test]
fn ld_list_parsing() {
    assert_eq!(call(&ld_list_command()), ("ldconsole.exe".to_string(), strs(&["list2"])));
    let out = "0,LDPlayer,1234,5678,1,100,200\n1,LDPlayer-1,0,0,0,-1,-1\r\nbad line\nx,named\n2,Third\n";
    let got: Vec<(i32, String)> = parse_ld_list(&Some(out.to_string()))
        .into_iter()
        .map(|e| (e.index, e.name))
        .collect();
    assert_eq!(
        got,
        vec![(0, "LDPlayer".to_string()), (1, "LDPlayer-1".to_string()), (2, "Third".to_string())]
    );
    assert!(parse_ld_list(&None).is_empty());
}

#[test]
fn running_answer_is_read_case_blind() {
    assert_eq!(
        call(&isrunning_command(3)),
        ("ldconsole.exe".to_string(), strs(&["isrunning", "--index", "3"]))
    );
    assert!(check_ld_running(&Some("running\r\n".to_string())));
    assert!(check_ld_running(&Some("RUNNING".to_string())));
    assert!(check_ld_running(&Some("Is Running".to_string())));
    assert!(!check_ld_running(&Some("stop".to_string())));
    assert!(!check_ld_running(&Some(String::new())));
    assert!(!check_ld_running(&None));
    assert!(reports_running("still running"));
    assert!(!reports_running("RUNNING"));
}

#[test]
fn serial_for_instance() {
    let devices = strs(&["emulator-5554", "127.0.0.1:5557", "emulator-5558", "127.0.0.1:5559"]);
    assert_eq!(adb_serial_for(0, &devices), "emulator-5554");
    assert_eq!(adb_serial_for(1, &devices), "127.0.0.1:5557");
    assert_eq!(adb_serial_for(2, &devices), "emulator-5558");
    assert_eq!(adb_serial_for(5, &devices), "LD-5");
    assert_eq!(adb_serial_for(-1, &Vec::new()), "LD--1");
}

#[test]
fn serial_prefers_emulator_name() {
    let both = strs(&["127.0.0.1:5555", "emulator-5554"]);
    assert_eq!(adb_serial_for(0, &both), "emulator-5554");
}

#[test]
fn port_range() {
    assert!(port_computable(0));
    assert!(port_computable(1073739046));
    assert!(!port_computable(1073739047));
    assert!(port_computable(-1073741824));
    assert!(!port_computable(-1073741825));
}

#[test]
fn running_instances_with_serials() {
    let entries = vec![
        LdEntry { index: 0, name: "LDPlayer".to_string() },
        LdEntry { index: 1, name: "LDPlayer-1".to_string() },
        LdEntry { index: 2, name: "LDPlayer-2".to_string() },
    ];
    let running = vec![true, false, true];
    let devices = strs(&["emulator-5554", "127.0.0.1:5559"]);
    let got: Vec<(i32, String, String)> = get_ld_instances(&entries, &running, &devices)
        .into_iter()
        .map(|i| (i.index, i.name, i.adb_serial))
        .collect();
    assert_eq!(
        got,
        vec![
            (0, "LDPlayer".to_string(), "emulator-5554".to_string()),
            (2, "LDPlayer-2".to_string(), "127.0.0.1:5559".to_string()),
        ]
    );
    assert!(get_ld_instances(&Vec::new(), &Vec::new(), &devices).is_empty());
}
