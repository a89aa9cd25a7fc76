//! Logging an instance in: the taps and keystrokes that fill the login form,
//! and the decisions of the task that watches one instance for the login
//! screen.
use vstd::prelude::*;
use crate::adb::{adb_clear_field, adb_tap, adb_text, clear_field_steps, tap_call, text_call};
use crate::config::AppConfig;
use crate::types::{Account, InvocationView, Step, step_view, steps_view};

verus! {

/// The steps that fill the login form of device `serial`: tap the username
/// field, clear it, type the username; the same for the password; then tap
/// the login button, with the pauses in between.
pub open spec fn login_steps(
    serial: Seq<char>,
    username: Seq<char>,
    password: Seq<char>,
    c: AppConfig,
) -> Seq<Result<InvocationView, u64>> {
    seq![Ok(tap_call(serial, c.login_username_x, c.login_username_y)), Err(300u64)]
        + clear_field_steps(serial)
        + seq![
        Err(200u64),
        Ok(text_call(serial, username)),
        Err(300u64),
        Ok(tap_call(serial, c.login_password_x, c.login_password_y)),
        Err(300u64),
    ] + clear_field_steps(serial) + seq![
        Err(200u64),
        Ok(text_call(serial, password)),
        Err(300u64),
        Ok(tap_call(serial, c.login_btn_x, c.login_btn_y)),
    ]
}

fn push_step(v: &mut Vec<Step>, s: Step)
    ensures
        steps_view(final(v)@) == steps_view(old(v)@).push(step_view(s)),
{
    v.push(s);
    proof {
        assert(steps_view(final(v)@) =~= steps_view(old(v)@).push(step_view(s)));
    }
}

fn append_steps(v: &mut Vec<Step>, mut other: Vec<Step>)
    ensures
        steps_view(final(v)@) == steps_view(old(v)@) + steps_view(other@),
{
    let ghost o = other@;
    v.append(&mut other);
    proof {
        assert(steps_view(final(v)@) =~= steps_view(old(v)@) + steps_view(o));
    }
}

/// The steps that log device `adb_serial` in with `username` and `password`
/// at the form positions of `config`.
pub fn do_login(adb_serial: &str, username: &str, password: &str, config: &AppConfig) -> (r: Vec<
    Step,
>)
    ensures
        steps_view(r@) == login_steps(adb_serial@, username@, password@, *config),
{
    let mut steps: Vec<Step> = Vec::new();
    push_step(&mut steps, Step::Run(adb_tap(adb_serial, config.login_username_x, config.login_username_y)));
    push_step(&mut steps, Step::SleepMs(300));
    append_steps(&mut steps, adb_clear_field(adb_serial));
    push_step(&mut steps, Step::SleepMs(200));
    push_step(&mut steps, Step::Run(adb_text(adb_serial, username)));
    push_step(&mut steps, Step::SleepMs(300));
    push_step(&mut steps, Step::Run(adb_tap(adb_serial, config.login_password_x, config.login_password_y)));
    push_step(&mut steps, Step::SleepMs(300));
    append_steps(&mut steps, adb_clear_field(adb_serial));
    push_step(&mut steps, Step::SleepMs(200));
    push_step(&mut steps, Step::Run(adb_text(adb_serial, password)));
    push_step(&mut steps, Step::SleepMs(300));
    push_step(&mut steps, Step::Run(adb_tap(adb_serial, config.login_btn_x, config.login_btn_y)));
    proof {
        assert(steps_view(steps@) =~= login_steps(adb_serial@, username@, password@, *config));
    }
    steps
}

/// Where the task that watches one instance stands.
pub enum TaskState {
    /// At the top of the round: the task asks whether it is still running and
    /// whether a slot among the concurrent checks is free.
    Begin,
    /// Waiting half a second for a free slot.
    Napping,
    /// Has just taken a slot.
    SlotTaken,
    /// Holds a slot and is about to look at the screen again.
    Scan,
    /// Waiting for the result of looking for the two buttons.
    Checking,
    /// Clicking the OK button; `login` tells whether the login button was seen too.
    OkClick { login: bool },
    /// Pausing after the OK button was clicked.
    OkPause { login: bool },
    /// Asking for an account; `found` tells whether something was done in this look.
    Claiming { found: bool },
    /// Reporting that no account was left.
    Reported { found: bool },
    /// Clicking the login button for `account`.
    LoginClick { account: Account },
    /// Pausing after the login button was clicked.
    LoginPause { account: Account },
    /// Filling the login form for `account`.
    Entering { account: Account },
    /// Writing the new binding of the account to the accounts file.
    Assigning,
    /// Giving the slot back.
    Releasing,
    /// Resting between rounds.
    Resting,
    /// The task has ended.
    Stopped,
}

/// What the outside reports after doing what the task asked.
pub enum TaskEvent {
    /// Whether the tool still runs, and whether fewer checks than allowed are active.
    Status { running: bool, slot_free: bool },
    /// Whether the OK button and the login button are on the screen.
    Templates { ok: bool, login: bool },
    /// Whether a button was found and clicked.
    Clicked(bool),
    /// The account handed to this instance, if any was left.
    Claimed(Option<Account>),
    /// The asked work is done.
    Done,
}

/// What the task asks the outside to do next.
pub enum TaskAction {
    /// Report `Status`.
    Poll,
    /// End the task.
    Stop,
    /// Wait this many milliseconds.
    SleepMs(u64),
    /// Join the instances being looked at right now.
    TakeSlot,
    /// Look for the OK button and the login button on one screenshot.
    CheckTemplates,
    /// Find and click the OK button.
    ClickOk,
    /// Claim an account for the instance.
    ClaimAccount,
    /// Find and click the login button.
    ClickLogin,
    /// Fill the login form with this account (`do_login`).
    EnterCredentials(Account),
    /// Bind the account of this username to the instance in the accounts file.
    AssignToFile(String),
    /// Report that no account is left.
    ReportNoAccount,
    /// Leave the instances being looked at right now.
    ReleaseSlot,
    /// Wait a random time between two rounds.
    Rest,
}

/// The next state and action of the task in state `s` on event `e`. An
/// event that does not answer what the state asked ends the task.
pub open spec fn task_next(s: TaskState, e: TaskEvent) -> (TaskState, TaskAction) {
    match (s, e) {
        (TaskState::Begin, TaskEvent::Status { running, slot_free }) => if !running {
            (TaskState::Stopped, TaskAction::Stop)
        } else if slot_free {
            (TaskState::SlotTaken, TaskAction::TakeSlot)
        } else {
            (TaskState::Napping, TaskAction::SleepMs(500))
        },
        (TaskState::Napping, TaskEvent::Done) => (TaskState::Begin, TaskAction::Poll),
        (TaskState::SlotTaken, TaskEvent::Done) => (TaskState::Scan, TaskAction::Poll),
        (TaskState::Scan, TaskEvent::Status { running, slot_free: _ }) => if running {
            (TaskState::Checking, TaskAction::CheckTemplates)
        } else {
            (TaskState::Releasing, TaskAction::ReleaseSlot)
        },
        (TaskState::Checking, TaskEvent::Templates { ok, login }) => if ok {
            (TaskState::OkClick { login }, TaskAction::ClickOk)
        } else if login {
            (TaskState::Claiming { found: false }, TaskAction::ClaimAccount)
        } else {
            (TaskState::Releasing, TaskAction::ReleaseSlot)
        },
        (TaskState::OkClick { login }, TaskEvent::Clicked(clicked)) => if clicked {
            (TaskState::OkPause { login }, TaskAction::SleepMs(2000))
        } else if login {
            (TaskState::Claiming { found: false }, TaskAction::ClaimAccount)
        } else {
            (TaskState::Releasing, TaskAction::ReleaseSlot)
        },
        (TaskState::OkPause { login }, TaskEvent::Done) => if login {
            (TaskState::Claiming { found: true }, TaskAction::ClaimAccount)
        } else {
            (TaskState::Scan, TaskAction::Poll)
        },
        (TaskState::Claiming { found }, TaskEvent::Claimed(claimed)) => match claimed {
            Some(account) => (TaskState::LoginClick { account }, TaskAction::ClickLogin),
            None => (TaskState::Reported { found }, TaskAction::ReportNoAccount),
        },
        (TaskState::Reported { found }, TaskEvent::Done) => if found {
            (TaskState::Scan, TaskAction::Poll)
        } else {
            (TaskState::Releasing, TaskAction::ReleaseSlot)
        },
        (TaskState::LoginClick { account }, TaskEvent::Clicked(clicked)) => if clicked {
            (TaskState::LoginPause { account }, TaskAction::SleepMs(1500))
        } else {
            (TaskState::Scan, TaskAction::Poll)
        },
        (TaskState::LoginPause { account }, TaskEvent::Done) => (
            TaskState::Entering { account },
            TaskAction::EnterCredentials(account),
        ),
        (TaskState::Entering { account }, TaskEvent::Done) => if account.ld_index < 0 {
            (TaskState::Assigning, TaskAction::AssignToFile(account.username))
        } else {
            (TaskState::Scan, TaskAction::Poll)
        },
        (TaskState::Assigning, TaskEvent::Done) => (TaskState::Scan, TaskAction::Poll),
        (TaskState::Releasing, TaskEvent::Done) => (TaskState::Resting, TaskAction::Rest),
        (TaskState::Resting, TaskEvent::Done) => (TaskState::Begin, TaskAction::Poll),
        _ => (TaskState::Stopped, TaskAction::Stop),
    }
}

fn same_account(a: &Account) -> (r: Account)
    ensures
        r == *a,
{
    Account { username: a.username.clone(), password: a.password.clone(), ld_index: a.ld_index }
}

/// One step of the task that watches an instance for the login screen: the
/// state after `event` and what to do next. A task starts in `Begin` with
/// the action `Poll`.
pub fn check_login_task(state: TaskState, event: TaskEvent) -> (r: (TaskState, TaskAction))
    ensures
        r == task_next(state, event),
{
    match (state, event) {
        (TaskState::Begin, TaskEvent::Status { running, slot_free }) => if !running {
            (TaskState::Stopped, TaskAction::Stop)
        } else if slot_free {
            (TaskState::SlotTaken, TaskAction::TakeSlot)
        } else {
            (TaskState::Napping, TaskAction::SleepMs(500))
        },
        (TaskState::Napping, TaskEvent::Done) => (TaskState::Begin, TaskAction::Poll),
        (TaskState::SlotTaken, TaskEvent::Done) => (TaskState::Scan, TaskAction::Poll),
        (TaskState::Scan, TaskEvent::Status { running, slot_free: _ }) => if running {
            (TaskState::Checking, TaskAction::CheckTemplates)
        } else {
            (TaskState::Releasing, TaskAction::ReleaseSlot)
        },
        (TaskState::Checking, TaskEvent::Templates { ok, login }) => if ok {
            (TaskState::OkClick { login }, TaskAction::ClickOk)
        } else if login {
            (TaskState::Claiming { found: false }, TaskAction::ClaimAccount)
        } else {
            (TaskState::Releasing, TaskAction::ReleaseSlot)
        },
        (TaskState::OkClick { login }, TaskEvent::Clicked(clicked)) => if clicked {
            (TaskState::OkPause { login }, TaskAction::SleepMs(2000))
        } else if login {
            (TaskState::Claiming { found: false }, TaskAction::ClaimAccount)
        } else {
            (TaskState::Releasing, TaskAction::ReleaseSlot)
        },
        (TaskState::OkPause { login }, TaskEvent::Done) => if login {
            (TaskState::Claiming { found: true }, TaskAction::ClaimAccount)
        } else {
            (TaskState::Scan, TaskAction::Poll)
        },
        (TaskState::Claiming { found }, TaskEvent::Claimed(claimed)) => match claimed {
            Some(account) => (TaskState::LoginClick { account }, TaskAction::ClickLogin),
            None => (TaskState::Reported { found }, TaskAction::ReportNoAccount),
        },
        (TaskState::Reported { found }, TaskEvent::Done) => if found {
            (TaskState::Scan, TaskAction::Poll)
        } else {
            (TaskState::Releasing, TaskAction::ReleaseSlot)
        },
        (TaskState::LoginClick { account }, TaskEvent::Clicked(clicked)) => if clicked {
            (TaskState::LoginPause { account }, TaskAction::SleepMs(1500))
        } else {
            (TaskState::Scan, TaskAction::Poll)
        },
        (TaskState::LoginPause { account }, TaskEvent::Done) => {
            let copy = same_account(&account);
            (TaskState::Entering { account }, TaskAction::EnterCredentials(copy))
        },
        (TaskState::Entering { account }, TaskEvent::Done) => if account.ld_index < 0 {
            (TaskState::Assigning, TaskAction::AssignToFile(account.username))
        } else {
            (TaskState::Scan, TaskAction::Poll)
        },
        (TaskState::Assigning, TaskEvent::Done) => (TaskState::Scan, TaskAction::Poll),
        (TaskState::Releasing, TaskEvent::Done) => (TaskState::Resting, TaskAction::Rest),
        (TaskState::Resting, TaskEvent::Done) => (TaskState::Begin, TaskAction::Poll),
        _ => (TaskState::Stopped, TaskAction::Stop),
    }
}

/// Whether `e` is the kind of event that state `s` waits for.
pub open spec fn answers(s: TaskState, e: TaskEvent) -> bool {
    match s {
        TaskState::Begin | TaskState::Scan => e is Status,
        TaskState::Checking => e is Templates,
        TaskState::OkClick { .. } | TaskState::LoginClick { .. } => e is Clicked,
        TaskState::Claiming { .. } => e is Claimed,
        TaskState::Stopped => true,
        _ => e is Done,
    }
}

/// Whether the task counts among the active checks once the action that
/// led to state `s` is done.
pub open spec fn holds_slot(s: TaskState) -> bool {
    !(s is Begin || s is Napping || s is Releasing || s is Resting || s is Stopped)
}

/// A task takes a slot only when it holds none, gives it back only when it
/// holds one, holds one from the taking to the giving back, and never ends
/// while it holds one.
pub proof fn law_slot_taken_and_given_back(s: TaskState, e: TaskEvent)
    requires
        answers(s, e),
    ensures
        ({
            let (n, a) = task_next(s, e);
            &&& a is TakeSlot ==> !holds_slot(s) && holds_slot(n)
            &&& a is ReleaseSlot ==> holds_slot(s) && !holds_slot(n)
            &&& !(a is TakeSlot) && !(a is ReleaseSlot) ==> holds_slot(n) == holds_slot(s)
            &&& a is Stop ==> !holds_slot(s)
        }),
{
}

/// A running task ends only when it is told that the tool no longer runs.
pub proof fn law_stops_only_when_told(s: TaskState, e: TaskEvent)
    requires
        answers(s, e),
        !(s is Stopped),
        task_next(s, e).1 is Stop,
    ensures
        e matches TaskEvent::Status { running, .. } && !running,
{
}

/// Once the login button was clicked for an account, the next steps fill in
/// exactly that account, and an account not yet bound to an instance is then
/// bound to this one in the accounts file.
pub proof fn law_entered_account_is_bound(account: Account)
    ensures
        task_next(TaskState::LoginClick { account }, TaskEvent::Clicked(true)) == (
            TaskState::LoginPause { account },
            TaskAction::SleepMs(1500),
        ),
        task_next(TaskState::LoginPause { account }, TaskEvent::Done).1 == TaskAction::EnterCredentials(
            account,
        ),
        account.ld_index < 0 ==> task_next(
            task_next(TaskState::LoginPause { account }, TaskEvent::Done).0,
            TaskEvent::Done,
        ) == (TaskState::Assigning, TaskAction::AssignToFile(account.username)),
        account.ld_index >= 0 ==> task_next(
            task_next(TaskState::LoginPause { account }, TaskEvent::Done).0,
            TaskEvent::Done,
        ) == (TaskState::Scan, TaskAction::Poll),
{
}

/// The work on an instance's screen (looking for the buttons, clicking them,
/// claiming an account and filling the form) is asked for only while the
/// task holds a slot, so no more instances are worked on at once than slots
/// were taken.
pub proof fn law_screen_work_holds_a_slot(s: TaskState, e: TaskEvent)
    ensures
        ({
            let (n, a) = task_next(s, e);
            (a is CheckTemplates || a is ClickOk || a is ClickLogin || a is ClaimAccount
                || a is EnterCredentials || a is AssignToFile) ==> holds_slot(n)
        }),
{
}

/// An account is claimed only when the login button was seen: after a look
/// that did not see it, the next steps (whatever the clicks and pauses
/// report) never ask for an account before the screen is looked at again;
/// after a look that saw it, an account is asked for once the OK button, if
/// it was seen too, has been dealt with.
pub proof fn law_claims_only_after_login_seen(
    ok: bool,
    e1: TaskEvent,
    e2: TaskEvent,
    e3: TaskEvent,
    clicked: bool,
)
    ensures
        ({
            let (s1, a1) = task_next(TaskState::Checking, TaskEvent::Templates { ok, login: false });
            let (s2, a2) = task_next(s1, e1);
            let (s3, a3) = task_next(s2, e2);
            let (s4, a4) = task_next(s3, e3);
            &&& !(a1 is ClaimAccount) && !(a2 is ClaimAccount)
            &&& (a2 is CheckTemplates || !(a3 is ClaimAccount))
            &&& (a2 is CheckTemplates || a3 is CheckTemplates || !(a4 is ClaimAccount))
        }),
        !ok ==> task_next(TaskState::Checking, TaskEvent::Templates { ok, login: true }).1 is ClaimAccount,
        ok ==> ({
            let (s1, a1) = task_next(TaskState::Checking, TaskEvent::Templates { ok, login: true });
            let (s2, a2) = task_next(s1, TaskEvent::Clicked(clicked));
            &&& a1 is ClickOk
            &&& if clicked {
                task_next(s2, TaskEvent::Done).1 is ClaimAccount
            } else {
                a2 is ClaimAccount
            }
        }),
{
}

} // verus!
