use check_login::config::AppConfig;
use check_login::nph::{is_green_filter, nph_config_rows, nph_login_clicks};
use check_login::tasks::{TaskAction, TaskEvent, TaskState, check_login_task, do_login};
use check_login::types::{Account, Step};

fn account(username: &str, ld_index: i32) -> Account {
    Account { username: username.to_string(), password: "pw d".to_string(), ld_index }
}

fn run_args(step: &Step) -> Vec<String> {
    match step {
        Step::Run(i) => {
            assert_eq!(i.program, "adb");
            i.args.clone()
        }
        Step::SleepMs(_) => panic!("expected a command"),
    }
}

fn sleep_ms(step: &Step) -> u64 {
    match step {
        Step::SleepMs(ms) => *ms,
        Step::Run(_) => panic!("expected a pause"),
    }
}

#[test]
fn login_form_steps() {
    let c = AppConfig::default();
    let steps = do_login("emulator-5554", "user one", "pw", &c);
    assert_eq!(steps.len(), 21);
    assert_eq!(run_args(&steps[0])[4..], ["tap", "480", "213"]);
    assert_eq!(sleep_ms(&steps[1]), 300);
    assert_eq!(run_args(&steps[2])[5..], ["123"]);
    assert_eq!(sleep_ms(&steps[4]), 100);
    assert_eq!(sleep_ms(&steps[7]), 200);
    assert_eq!(run_args(&steps[8])[3..], ["input", "text", "user%sone"]);
    assert_eq!(sleep_ms(&steps[9]), 300);
    assert_eq!(run_args(&steps[10])[4..], ["tap", "480", "261"]);
    assert_eq!(sleep_ms(&steps[11]), 300);
    assert_eq!(sleep_ms(&steps[14]), 100);
    assert_eq!(run_args(&steps[16]).len(), 25);
    assert_eq!(sleep_ms(&steps[17]), 200);
    assert_eq!(run_args(&steps[18])[3..], ["input", "text", "pw"]);
    assert_eq!(sleep_ms(&steps[19]), 300);
    assert_eq!(run_args(&steps[20])[4..], ["tap", "480", "316"]);
    assert_eq!(run_args(&steps[20])[1], "emulator-5554");
}

#[test]
fn login_form_uses_configured_positions() {
    let mut c = AppConfig::default();
    c.login_username_x = 1;
    c.login_username_y = 2;
    c.login_password_x = 3;
    c.login_password_y = 4;
    c.login_btn_x = 5;
    c.login_btn_y = 6;
    let steps = do_login("s", "u", "p", &c);
    assert_eq!(run_args(&steps[0])[5..], ["1", "2"]);
    assert_eq!(run_args(&steps[10])[5..], ["3", "4"]);
    assert_eq!(run_args(&steps[20])[5..], ["5", "6"]);
}

fn step(s: TaskState, e: TaskEvent) -> (TaskState, TaskAction) {
    check_login_task(s, e)
}

#[test]
fn task_waits_for_a_slot_then_checks() {
    let (s, a) = step(TaskState::Begin, TaskEvent::Status { running: true, slot_free: false });
    assert!(matches!(s, TaskState::Napping));
    assert!(matches!(a, TaskAction::SleepMs(500)));
    let (s, a) = step(s, TaskEvent::Done);
    assert!(matches!(s, TaskState::Begin));
    assert!(matches!(a, TaskAction::Poll));
    let (s, a) = step(s, TaskEvent::Status { running: true, slot_free: true });
    assert!(matches!(a, TaskAction::TakeSlot));
    let (s, a) = step(s, TaskEvent::Done);
    assert!(matches!(a, TaskAction::Poll));
    let (s, a) = step(s, TaskEvent::Status { running: true, slot_free: false });
    assert!(matches!(s, TaskState::Checking));
    assert!(matches!(a, TaskAction::CheckTemplates));
    let (s, a) = step(s, TaskEvent::Templates { ok: false, login: false });
    assert!(matches!(a, TaskAction::ReleaseSlot));
    let (s, a) = step(s, TaskEvent::Done);
    assert!(matches!(a, TaskAction::Rest));
    let (s, a) = step(s, TaskEvent::Done);
    assert!(matches!(s, TaskState::Begin));
    assert!(matches!(a, TaskAction::Poll));
    let (s, a) = step(s, TaskEvent::Status { running: false, slot_free: true });
    assert!(matches!(s, TaskState::Stopped));
    assert!(matches!(a, TaskAction::Stop));
}

#[test]
fn task_logs_in_with_unbound_account_and_binds_it() {
    let (s, a) = step(TaskState::Checking, TaskEvent::Templates { ok: true, login: true });
    assert!(matches!(a, TaskAction::ClickOk));
    let (s, a) = step(s, TaskEvent::Clicked(true));
    assert!(matches!(a, TaskAction::SleepMs(2000)));
    let (s, a) = step(s, TaskEvent::Done);
    assert!(matches!(s, TaskState::Claiming { found: true }));
    assert!(matches!(a, TaskAction::ClaimAccount));
    let (s, a) = step(s, TaskEvent::Claimed(Some(account("free", -1))));
    assert!(matches!(a, TaskAction::ClickLogin));
    let (s, a) = step(s, TaskEvent::Clicked(true));
    assert!(matches!(a, TaskAction::SleepMs(1500)));
    let (s, a) = step(s, TaskEvent::Done);
    match a {
        TaskAction::EnterCredentials(acc) => {
            assert_eq!(acc.username, "free");
            assert_eq!(acc.password, "pw d");
            assert_eq!(acc.ld_index, -1);
        }
        _ => panic!("the form is filled next"),
    }
    let (s, a) = step(s, TaskEvent::Done);
    match a {
        TaskAction::AssignToFile(u) => assert_eq!(u, "free"),
        _ => panic!("an unbound account is written to the file"),
    }
    let (s, a) = step(s, TaskEvent::Done);
    assert!(matches!(s, TaskState::Scan));
    assert!(matches!(a, TaskAction::Poll));
    let (_, a) = step(s, TaskEvent::Status { running: false, slot_free: true });
    assert!(matches!(a, TaskAction::ReleaseSlot));
}

#[test]
fn bound_account_is_not_written_again() {
    let (s, _) = step(TaskState::LoginPause { account: account("bound", 3) }, TaskEvent::Done);
    let (s, a) = step(s, TaskEvent::Done);
    assert!(matches!(s, TaskState::Scan));
    assert!(matches!(a, TaskAction::Poll));
}

#[test]
fn task_handles_missing_account_and_missed_clicks() {
    let (s, a) = step(TaskState::Checking, TaskEvent::Templates { ok: false, login: true });
    assert!(matches!(s, TaskState::Claiming { found: false }));
    assert!(matches!(a, TaskAction::ClaimAccount));
    let (s, a) = step(s, TaskEvent::Claimed(None));
    assert!(matches!(a, TaskAction::ReportNoAccount));
    let (_, a) = step(s, TaskEvent::Done);
    assert!(matches!(a, TaskAction::ReleaseSlot));

    let (_, a) = step(TaskState::OkClick { login: false }, TaskEvent::Clicked(false));
    assert!(matches!(a, TaskAction::ReleaseSlot));
    let (_, a) = step(TaskState::OkClick { login: true }, TaskEvent::Clicked(false));
    assert!(matches!(a, TaskAction::ClaimAccount));
    let (_, a) = step(TaskState::OkPause { login: false }, TaskEvent::Done);
    assert!(matches!(a, TaskAction::Poll));
    let (s, a) = step(TaskState::LoginClick { account: account("x", -1) }, TaskEvent::Clicked(false));
    assert!(matches!(s, TaskState::Scan));
    assert!(matches!(a, TaskAction::Poll));
    let (_, a) = step(TaskState::Reported { found: true }, TaskEvent::Done);
    assert!(matches!(a, TaskAction::Poll));
}

#[test]
fn unexpected_event_ends_task() {
    let (s, a) = step(TaskState::Checking, TaskEvent::Done);
    assert!(matches!(s, TaskState::Stopped));
    assert!(matches!(a, TaskAction::Stop));
    let (_, a) = step(TaskState::Stopped, TaskEvent::Status { running: true, slot_free: true });
    assert!(matches!(a, TaskAction::Stop));
}

#[test]
fn task_never_stops_holding_a_slot() {
    // every path from taking a slot reaches the release before it can stop
    let (s, a) = step(TaskState::SlotTaken, TaskEvent::Done);
    assert!(matches!(a, TaskAction::Poll));
    let (s, a) = step(s, TaskEvent::Status { running: false, slot_free: false });
    assert!(matches!(a, TaskAction::ReleaseSlot));
    let (s, a) = step(s, TaskEvent::Done);
    assert!(matches!(a, TaskAction::Rest));
    let (s, a) = step(s, TaskEvent::Done);
    assert!(matches!(a, TaskAction::Poll));
    let (_, a) = step(s, TaskEvent::Status { running: false, slot_free: false });
    assert!(matches!(a, TaskAction::Stop));
}

#[test]
fn nph_filter_answer() {
    assert!(is_green_filter("2\n"));
    assert!(!is_green_filter("1"));
    assert!(!is_green_filter(""));
    assert!(!is_green_filter("green"));
}

#[test]
fn nph_config_clicks() {
    let event = nph_config_rows(false);
    let green = nph_config_rows(true);
    assert_eq!(event.len(), 15);
    assert_eq!(green.len(), 15);
    assert_eq!(event[0], vec![(1768, 692), (1735, 1352), (2434, 698), (2470, 932), (1397, 691)]);
    assert_eq!(green[0], vec![(1768, 692), (1735, 1352), (2434, 698), (2470, 782), (1397, 691)]);
    assert_eq!(event[14], vec![(1762, 1995), (1757, 1792), (2416, 1995), (2405, 1852), (1391, 1993)]);
    assert_eq!(green[14][3], (2405, 1702));
    for i in 0..15 {
        assert_eq!(event[i].len(), 5);
        assert_eq!(event[i][..3], green[i][..3]);
        assert_eq!(event[i][3].1 - 150, green[i][3].1);
        assert_eq!(event[i][4], green[i][4]);
    }
}

#[test]
fn nph_login_buttons() {
    let three = nph_login_clicks(3);
    assert_eq!(three, vec![(965, 689), (1081, 786), (1082, 883)]);
    assert_eq!(nph_login_clicks(15).len(), 15);
    assert_eq!(nph_login_clicks(40).len(), 15);
    assert_eq!(nph_login_clicks(15)[14], (1078, 1989));
    assert!(nph_login_clicks(0).is_empty());
}

fn states() -> Vec<TaskState> {
    vec![
        TaskState::Begin,
        TaskState::Napping,
        TaskState::SlotTaken,
        TaskState::Scan,
        TaskState::Checking,
        TaskState::OkClick { login: true },
        TaskState::OkClick { login: false },
        TaskState::OkPause { login: true },
        TaskState::OkPause { login: false },
        TaskState::Claiming { found: true },
        TaskState::Claiming { found: false },
        TaskState::Reported { found: true },
        TaskState::Reported { found: false },
        TaskState::LoginClick { account: account("a", -1) },
        TaskState::LoginPause { account: account("a", 2) },
        TaskState::Entering { account: account("a", -1) },
        TaskState::Assigning,
        TaskState::Releasing,
        TaskState::Resting,
        TaskState::Stopped,
    ]
}

fn events() -> Vec<TaskEvent> {
    let mut v = Vec::new();
    for running in [true, false] {
        for slot_free in [true, false] {
            v.push(TaskEvent::Status { running, slot_free });
        }
    }
    for ok in [true, false] {
        for login in [true, false] {
            v.push(TaskEvent::Templates { ok, login });
        }
    }
    v.push(TaskEvent::Clicked(true));
    v.push(TaskEvent::Clicked(false));
    v.push(TaskEvent::Claimed(Some(account("b", -1))));
    v.push(TaskEvent::Claimed(None));
    v.push(TaskEvent::Done);
    v
}

fn holds_slot(s: &TaskState) -> bool {
    !matches!(
        s,
        TaskState::Begin | TaskState::Napping | TaskState::Releasing | TaskState::Resting | TaskState::Stopped
    )
}

#[test]
fn screen_work_only_while_holding_a_slot() {
    let n_events = events().len();
    for si in 0..states().len() {
        for ei in 0..n_events {
            let (n, a) = step(states().remove(si), events().remove(ei));
            let screen_work = matches!(
                a,
                TaskAction::CheckTemplates
                    | TaskAction::ClickOk
                    | TaskAction::ClickLogin
                    | TaskAction::ClaimAccount
                    | TaskAction::EnterCredentials(_)
                    | TaskAction::AssignToFile(_)
            );
            if screen_work {
                assert!(holds_slot(&n));
            }
        }
    }
}

#[test]
fn slot_is_taken_and_given_back_in_turn() {
    let n_events = events().len();
    for si in 0..states().len() {
        for ei in 0..n_events {
            let before = holds_slot(&states()[si]);
            let (n, a) = step(states().remove(si), events().remove(ei));
            match a {
                TaskAction::TakeSlot => assert!(!before && holds_slot(&n)),
                TaskAction::ReleaseSlot => assert!(before && !holds_slot(&n)),
                TaskAction::Stop => assert!(!holds_slot(&n)),
                _ => {}
            }
        }
    }
}
