//! The plain records that the library passes around.
use vstd::prelude::*;

verus! {

/// A running LDPlayer instance and the adb serial that reaches it.
#[derive(Clone, Debug)]
pub struct LdInstance {
    pub index: i32,
    pub name: String,
    pub adb_serial: String,
}

/// A game account; `ld_index` is the instance it is bound to, or negative when unbound.
#[derive(Clone, Debug)]
pub struct Account {
    pub username: String,
    pub password: String,
    pub ld_index: i32,
}

/// A rectangle of the reference 960x540 screen in which a template is searched.
#[derive(Clone, Copy, Debug, PartialEq, Eq)]
pub struct Roi {
    pub x1: u32,
    pub y1: u32,
    pub x2: u32,
    pub y2: u32,
}

/// An account as plain values: username, password, bound instance.
pub type AccountView = (Seq<char>, Seq<char>, i32);

impl View for Account {
    type V = AccountView;

    open spec fn view(&self) -> AccountView {
        (self.username@, self.password@, self.ld_index)
    }
}

/// An instance as plain values: index, name, adb serial.
pub type LdInstanceView = (i32, Seq<char>, Seq<char>);

impl View for LdInstance {
    type V = LdInstanceView;

    open spec fn view(&self) -> LdInstanceView {
        (self.index, self.name@, self.adb_serial@)
    }
}

pub open spec fn accounts_view(v: Seq<Account>) -> Seq<AccountView> {
    v.map_values(|a: Account| a@)
}

pub open spec fn option_account_view(o: Option<Account>) -> Option<AccountView> {
    match o {
        Some(a) => Some(a@),
        None => None,
    }
}

/// A field-by-field copy of an account.
pub fn copy_account(a: &Account) -> (r: Account)
    ensures
        r@ == a@,
{
    Account { username: a.username.clone(), password: a.password.clone(), ld_index: a.ld_index }
}

/// A program to run, with its arguments.
#[derive(Clone, Debug)]
pub struct Invocation {
    pub program: String,
    pub args: Vec<String>,
}

/// One step of a scripted interaction: run a command, or wait some milliseconds.
#[derive(Clone, Debug)]
pub enum Step {
    Run(Invocation),
    SleepMs(u64),
}

pub open spec fn strings_view(v: Seq<String>) -> Seq<Seq<char>> {
    v.map_values(|s: String| s@)
}

/// An invocation as plain values: the program and its arguments.
pub type InvocationView = (Seq<char>, Seq<Seq<char>>);

impl View for Invocation {
    type V = InvocationView;

    open spec fn view(&self) -> InvocationView {
        (self.program@, strings_view(self.args@))
    }
}

/// A step as plain values: `Ok` an invocation to run, `Err` a wait in milliseconds.
pub open spec fn step_view(s: Step) -> Result<InvocationView, u64> {
    match s {
        Step::Run(i) => Ok(i@),
        Step::SleepMs(ms) => Err(ms),
    }
}

pub open spec fn steps_view(v: Seq<Step>) -> Seq<Result<InvocationView, u64>> {
    v.map_values(|s: Step| step_view(s))
}

} // verus!
