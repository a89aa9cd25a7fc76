use check_login::config::AppConfig;
use check_login::control::{
    SettingsChange, StartStep, apply_settings_change, auto_start_steps, autostart_registry_command,
    chrono_time, has_auto_start_flag, kill_nph_command, launch_command, log_prefix_text,
    open_nph_command, parse_choice, parse_ld_indices, parse_login_count, parse_trimmed_i32,
    parse_trimmed_u64, pids_to_kill, power_choice, quit_all_command, random_delay,
    restart_delay_ms, settings_change, shutdown_command, taskkill_command, tasklist_command,
};
use check_login::types::Invocation;

fn call(inv: &Invocation) -> (String, Vec<String>) {
    (inv.program.clone(), inv.args.clone())
}

fn strs(v: &[&str]) -> Vec<String> {
    v.iter().map(|s| s.to_string()).collect()
}

#[test]
fn menu_answers() {
    assert_eq!(parse_choice("3\n", 0), 3);
    assert_eq!(parse_choice("  7  \r\n", 0), 7);
    assert_eq!(parse_choice("", 0), 0);
    assert_eq!(parse_choice("abc", 1), 1);
    assert_eq!(parse_choice("256", 0), 0);
    assert_eq!(parse_choice("+5", 0), 5);
    assert_eq!(parse_choice("-1", 9), 9);
}

#[test]
fn trimmed_numbers() {
    assert_eq!(parse_trimmed_u64(" 12 \n"), Some(12));
    assert_eq!(parse_trimmed_u64("18446744073709551615"), Some(u64::MAX));
    assert_eq!(parse_trimmed_u64("18446744073709551616"), None);
    assert_eq!(parse_trimmed_u64("-1"), None);
    assert_eq!(parse_trimmed_i32("-42\n"), Some(-42));
    assert_eq!(parse_trimmed_i32("2147483648"), None);
    assert_eq!(parse_trimmed_i32("-2147483648"), Some(i32::MIN));
    assert_eq!(parse_trimmed_i32("1 2"), None);
}

#[test]
fn login_count_is_held_in_range() {
    assert_eq!(parse_login_count(""), 15);
    assert_eq!(parse_login_count("0"), 1);
    assert_eq!(parse_login_count("20\n"), 15);
    assert_eq!(parse_login_count(" 7 "), 7);
    assert_eq!(parse_login_count("-3"), 15);
    assert_eq!(parse_login_count("1"), 1);
}

#[test]
fn instance_list_input() {
    assert_eq!(parse_ld_indices("1,2, 5 x -3\n"), vec![1, 2, 5, -3]);
    assert_eq!(parse_ld_indices("1 2 5"), vec![1, 2, 5]);
    assert_eq!(parse_ld_indices(",,, ,"), Vec::<i32>::new());
    assert_eq!(parse_ld_indices(""), Vec::<i32>::new());
    assert_eq!(parse_ld_indices("1,,2"), vec![1, 2]);
}

#[test]
fn settings_changes_from_answers() {
    assert!(matches!(settings_change(1, "", ""), Some(SettingsChange::ToggleAutoStart)));
    assert!(matches!(settings_change(2, "", ""), Some(SettingsChange::ToggleAutoSort)));
    assert!(matches!(settings_change(3, "", ""), Some(SettingsChange::ToggleAutoOpenNph)));
    assert!(matches!(settings_change(4, "12\n", ""), Some(SettingsChange::SortDelay(12))));
    assert!(settings_change(4, "x", "").is_none());
    match settings_change(5, "1 2,3", "") {
        Some(SettingsChange::LdList(l)) => assert_eq!(l, vec![1, 2, 3]),
        _ => panic!("answer 5 changes the list"),
    }
    match settings_change(5, "none", "") {
        Some(SettingsChange::LdList(l)) => assert!(l.is_empty()),
        _ => panic!("answer 5 always changes the list"),
    }
    assert!(matches!(settings_change(6, "4", ""), Some(SettingsChange::SortColumns(4))));
    assert!(settings_change(6, "", "").is_none());
    assert!(matches!(settings_change(7, "10", " 20 "), Some(SettingsChange::NphActive(10, 20))));
    assert!(settings_change(7, "10", "y").is_none());
    assert!(settings_change(7, "x", "20").is_none());
    assert!(settings_change(0, "1", "1").is_none());
    assert!(settings_change(8, "1", "1").is_none());
}

#[test]
fn settings_change_is_applied() {
    let mut c = AppConfig::default();
    apply_settings_change(&mut c, SettingsChange::ToggleAutoStart);
    assert!(c.auto_start_enabled);
    apply_settings_change(&mut c, SettingsChange::SortDelay(9));
    assert_eq!(c.auto_sort_delay_sec, 9);
    apply_settings_change(&mut c, SettingsChange::LdList(vec![4, 2]));
    assert_eq!(c.auto_start_lds, vec![4, 2]);
    apply_settings_change(&mut c, SettingsChange::SortColumns(3));
    assert_eq!(c.sort_columns, 3);
    apply_settings_change(&mut c, SettingsChange::NphActive(1, 2));
    assert_eq!((c.nph_active_x, c.nph_active_y), (1, 2));
    apply_settings_change(&mut c, SettingsChange::ToggleAutoSort);
    assert!(c.auto_sort_after_start);
    apply_settings_change(&mut c, SettingsChange::ToggleAutoOpenNph);
    assert!(c.auto_open_nph_enabled);
    assert_eq!(c.restart_minutes, 240);
    assert_eq!(c.login_btn_y, 316);
}

#[test]
fn toggling_twice_restores_settings() {
    let mut c = AppConfig::default();
    for _ in 0..2 {
        apply_settings_change(&mut c, SettingsChange::ToggleAutoStart);
        apply_settings_change(&mut c, SettingsChange::ToggleAutoSort);
        apply_settings_change(&mut c, SettingsChange::ToggleAutoOpenNph);
    }
    assert!(!c.auto_start_enabled);
    assert!(!c.auto_sort_after_start);
    assert!(!c.auto_open_nph_enabled);
}

#[test]
fn auto_start_plan() {
    let mut c = AppConfig::default();
    assert!(auto_start_steps(&c).is_empty());
    c.auto_open_nph_enabled = true;
    c.auto_sort_after_start = true;
    assert!(auto_start_steps(&c).is_empty());
    c.auto_start_lds = vec![1, 3];
    c.auto_sort_delay_sec = 5;
    let steps = auto_start_steps(&c);
    assert_eq!(steps.len(), 7);
    assert!(matches!(steps[0], StartStep::Launch(1)));
    assert!(matches!(steps[1], StartStep::WaitMs(1500)));
    assert!(matches!(steps[2], StartStep::Launch(3)));
    assert!(matches!(steps[3], StartStep::WaitMs(1500)));
    assert!(matches!(steps[4], StartStep::OpenNph));
    assert!(matches!(steps[5], StartStep::WaitSecs(5)));
    assert!(matches!(steps[6], StartStep::SortWindows));
    c.auto_open_nph_enabled = false;
    c.auto_sort_after_start = false;
    assert_eq!(auto_start_steps(&c).len(), 4);
}

#[test]
fn command_line_flag() {
    assert!(has_auto_start_flag(&strs(&["check_login.exe", "--auto-start"])));
    assert!(!has_auto_start_flag(&strs(&["check_login.exe"])));
    assert!(!has_auto_start_flag(&strs(&["--auto-start=1"])));
    assert!(!has_auto_start_flag(&Vec::new()));
}

#[test]
fn log_prefixes() {
    assert_eq!(log_prefix_text(3), "LD-3: ");
    assert_eq!(log_prefix_text(0), "LD-0: ");
    assert_eq!(log_prefix_text(-1), "");
}

#[test]
fn registry_commands() {
    let on = autostart_registry_command(true, "C:\\Tools\\check_login.exe");
    assert_eq!(
        call(&on),
        (
            "reg".to_string(),
            strs(&[
                "add",
                "HKCU\\Software\\Microsoft\\Windows\\CurrentVersion\\Run",
                "/v",
                "CheckLoginAutoStart",
                "/t",
                "REG_SZ",
                "/d",
                "\"C:\\Tools\\check_login.exe\" --auto-start",
                "/f",
            ])
        )
    );
    let off = autostart_registry_command(false, "ignored");
    assert_eq!(
        call(&off),
        (
            "reg".to_string(),
            strs(&["delete", "HKCU\\Software\\Microsoft\\Windows\\CurrentVersion\\Run", "/v", "CheckLoginAutoStart", "/f"])
        )
    );
}

#[test]
fn console_commands() {
    assert_eq!(call(&launch_command(12)), ("ldconsole.exe".to_string(), strs(&["launch", "--index", "12"])));
    assert_eq!(call(&quit_all_command()), ("ldconsole.exe".to_string(), strs(&["quitall"])));
    assert_eq!(call(&kill_nph_command()), ("taskkill".to_string(), strs(&["/F", "/IM", "tool.exe", "/T"])));
    assert_eq!(
        call(&open_nph_command()),
        ("cmd".to_string(), strs(&["/c", "start", "", "C:\\Program Files\\NPHTool\\tool.exe"]))
    );
    assert_eq!(call(&shutdown_command(false)), ("shutdown".to_string(), strs(&["/s", "/t", "0", "/f"])));
    assert_eq!(call(&shutdown_command(true)), ("shutdown".to_string(), strs(&["/r", "/t", "0", "/f"])));
    assert_eq!(
        call(&tasklist_command()),
        ("tasklist".to_string(), strs(&["/FI", "IMAGENAME eq check_login.exe", "/FO", "CSV", "/NH"]))
    );
    assert_eq!(call(&taskkill_command(4321)), ("taskkill".to_string(), strs(&["/F", "/PID", "4321"])));
    assert_eq!(taskkill_command(u32::MAX).args[2], "4294967295");
}

#[test]
fn power_menu() {
    assert_eq!(power_choice(1), Some(false));
    assert_eq!(power_choice(2), Some(true));
    assert_eq!(power_choice(0), None);
    assert_eq!(power_choice(3), None);
}

#[test]
fn earlier_copies_to_end() {
    let out = "\"check_login.exe\",\"1234\",\"Console\",\"1\",\"10,000 K\"\r\n\
               \"check_login.exe\",\"99\",\"Console\",\"1\",\"9,000 K\"\n\
               INFO: No tasks are running which match the specified criteria.\n\
               \"check_login.exe\",\"abc\",\"Console\"\n\
               \"check_login.exe\",\"77\"";
    assert_eq!(pids_to_kill(out, 99), vec![1234, 77]);
    assert_eq!(pids_to_kill(out, 5), vec![1234, 99, 77]);
    assert!(pids_to_kill("", 1).is_empty());
}

#[test]
fn restart_delay() {
    assert_eq!(restart_delay_ms(240), Some(14_400_000));
    assert_eq!(restart_delay_ms(1), Some(60_000));
    assert_eq!(restart_delay_ms(0), None);
}

#[test]
fn pause_between_checks() {
    assert_eq!(random_delay(10, 15, 0), 10_000);
    assert_eq!(random_delay(10, 15, 5_000), 15_000);
    assert_eq!(random_delay(10, 15, 5_001), 10_000);
    assert_eq!(random_delay(10, 15, 12_345), 10_000 + 12_345 % 5_001);
    assert_eq!(random_delay(3, 3, 999), 3_000);
    for seed in [0u64, 1, 77, 123_456_789, u64::MAX] {
        let d = random_delay(10, 15, seed);
        assert!((10_000..=15_000).contains(&d));
    }
}

#[test]
fn clock_text() {
    assert_eq!(chrono_time(0), "07:00:00");
    assert_eq!(chrono_time(17 * 3600 + 61), "00:01:01");
    assert_eq!(chrono_time(86_399), "06:59:59");
    assert_eq!(chrono_time(86_400 * 365 + 5 * 3600 + 30 * 60 + 9), "12:30:09");
}
