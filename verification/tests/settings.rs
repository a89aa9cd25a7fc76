use check_login::config::{
    AppConfig, choose_config, config_paths, default_auto_open_nph_enabled,
    default_auto_sort_after_start, default_auto_sort_delay_sec, default_auto_start_enabled,
    default_auto_start_lds, default_check_interval_max, default_check_interval_min,
    default_config_nph_delay_ms, default_login_btn_x, default_login_btn_y,
    default_login_half_delay_sec, default_login_password_x, default_login_password_y,
    default_login_username_x, default_login_username_y, default_max_concurrent,
    default_nph_active_x, default_nph_active_y, default_nph_refresh_x, default_nph_refresh_y,
    default_nph_scroll_x, default_nph_scroll_y1, default_nph_scroll_y2, default_restart_minutes,
    default_sort_columns, get_accounts_path, get_roi_config_path, get_template_dir,
    join_path_exec, strip_bom,
};

#[test]
fn default_settings() {
    let c = AppConfig::default();
    assert_eq!(c.restart_minutes, 240);
    assert_eq!(c.max_concurrent, 5);
    assert_eq!(c.check_interval_min_sec, 10);
    assert_eq!(c.check_interval_max_sec, 15);
    assert_eq!(c.config_nph_delay_ms, 40);
    assert_eq!(c.login_half_delay_sec, 60);
    assert!(!c.auto_start_enabled);
    assert!(c.auto_start_lds.is_empty());
    assert!(!c.auto_sort_after_start);
    assert_eq!(c.auto_sort_delay_sec, 5);
    assert!(!c.auto_open_nph_enabled);
    assert_eq!((c.login_username_x, c.login_username_y), (480, 213));
    assert_eq!((c.login_password_x, c.login_password_y), (480, 261));
    assert_eq!((c.login_btn_x, c.login_btn_y), (480, 316));
    assert_eq!(c.sort_columns, 5);
    assert_eq!((c.nph_active_x, c.nph_active_y), (910, 125));
    assert_eq!((c.nph_refresh_x, c.nph_refresh_y), (515, 320));
    assert_eq!((c.nph_scroll_x, c.nph_scroll_y1, c.nph_scroll_y2), (980, 200, 600));
}

#[test]
fn missing_keys_get_the_default_values() {
    let c = AppConfig::default();
    assert_eq!(default_restart_minutes(), c.restart_minutes);
    assert_eq!(default_max_concurrent(), c.max_concurrent);
    assert_eq!(default_check_interval_min(), c.check_interval_min_sec);
    assert_eq!(default_check_interval_max(), c.check_interval_max_sec);
    assert_eq!(default_config_nph_delay_ms(), c.config_nph_delay_ms);
    assert_eq!(default_login_half_delay_sec(), c.login_half_delay_sec);
    assert_eq!(default_auto_start_enabled(), c.auto_start_enabled);
    assert_eq!(default_auto_start_lds(), c.auto_start_lds);
    assert_eq!(default_auto_sort_after_start(), c.auto_sort_after_start);
    assert_eq!(default_auto_sort_delay_sec(), c.auto_sort_delay_sec);
    assert_eq!(default_auto_open_nph_enabled(), c.auto_open_nph_enabled);
    assert_eq!(default_nph_active_x(), c.nph_active_x);
    assert_eq!(default_nph_active_y(), c.nph_active_y);
    assert_eq!(default_nph_refresh_x(), c.nph_refresh_x);
    assert_eq!(default_nph_refresh_y(), c.nph_refresh_y);
    assert_eq!(default_nph_scroll_x(), c.nph_scroll_x);
    assert_eq!(default_nph_scroll_y1(), c.nph_scroll_y1);
    assert_eq!(default_nph_scroll_y2(), c.nph_scroll_y2);
    assert_eq!(default_login_username_x(), c.login_username_x);
    assert_eq!(default_login_username_y(), c.login_username_y);
    assert_eq!(default_login_password_x(), c.login_password_x);
    assert_eq!(default_login_password_y(), c.login_password_y);
    assert_eq!(default_login_btn_x(), c.login_btn_x);
    assert_eq!(default_login_btn_y(), c.login_btn_y);
    assert_eq!(default_sort_columns(), c.sort_columns);
}

#[test]
fn default_settings_are_usable() {
    let c = AppConfig::default();
    assert!(c.check_interval_min_sec <= c.check_interval_max_sec);
    assert!(c.max_concurrent > 0);
    assert!(c.sort_columns > 0);
    assert!(c.restart_minutes.checked_mul(60_000).is_some());
}

#[test]
fn byte_order_mark_is_removed() {
    assert_eq!(strip_bom("\u{feff}{\"a\":1}"), "{\"a\":1}");
    assert_eq!(strip_bom("\u{feff}a\u{feff}b"), "ab");
    assert_eq!(strip_bom("a\u{feff}b"), "a\u{feff}b");
    assert_eq!(strip_bom(""), "");
    assert_eq!(strip_bom("\u{feff}"), "");
    assert!(!strip_bom("\u{feff}\u{feff}x\u{feff}").contains('\u{feff}'));
}

#[test]
fn paths_beside_the_executable() {
    assert_eq!(join_path_exec("C:\\tool", "Acc.csv", '\\'), "C:\\tool\\Acc.csv");
    assert_eq!(join_path_exec("C:\\tool\\", "Acc.csv", '\\'), "C:\\tool\\Acc.csv");
    assert_eq!(join_path_exec("C:/tool/", "Acc.csv", '\\'), "C:/tool/Acc.csv");
    assert_eq!(join_path_exec("", "Acc.csv", '/'), "Acc.csv");
    assert_eq!(get_accounts_path("/opt/t", '/'), "/opt/t/Acc.csv");
    assert_eq!(get_template_dir("C:\\t", '\\'), "C:\\t\\template");
    assert_eq!(get_roi_config_path("/opt/t", '/'), "/opt/t/template/roi_config.json");
    assert_eq!(get_roi_config_path("C:\\t", '\\'), "C:\\t\\template\\roi_config.json");
}

#[test]
fn settings_files_to_try() {
    assert_eq!(config_paths(&Some("/d".to_string()), '/'), vec!["config.json".to_string(), "/d/config.json".to_string()]);
    assert_eq!(config_paths(&None, '/'), vec!["config.json".to_string()]);
}

#[test]
fn first_parsed_settings_win() {
    let mut a = AppConfig::default();
    a.sort_columns = 3;
    let mut b = AppConfig::default();
    b.sort_columns = 4;
    assert_eq!(choose_config(vec![None, Some(a), Some(b)]).sort_columns, 3);
    let none: Vec<Option<AppConfig>> = vec![None, None];
    assert_eq!(choose_config(none).sort_columns, 5);
    assert_eq!(choose_config(Vec::new()).restart_minutes, 240);
}
