//! The tool's settings, their defaults, where the files sit beside the
//! executable, and the text clean-up before a settings file is read.
use vstd::prelude::*;
use crate::adb::owned;
use crate::text::{append_chars, chars_of, string_from};

verus! {

pub const DEFAULT_MAX_CONCURRENT: usize = 5;

pub const DEFAULT_CHECK_INTERVAL_MIN_SEC: u64 = 10;

pub const DEFAULT_CHECK_INTERVAL_MAX_SEC: u64 = 15;

pub const DEFAULT_RESTART_MINUTES: u64 = 240;

/// The settings of `config.json`.
#[derive(Clone, Debug)]
pub struct AppConfig {
    pub restart_minutes: u64,
    pub max_concurrent: usize,
    pub check_interval_min_sec: u64,
    pub check_interval_max_sec: u64,
    pub config_nph_delay_ms: u64,
    pub login_half_delay_sec: u64,
    pub auto_start_enabled: bool,
    pub auto_start_lds: Vec<i32>,
    pub auto_sort_after_start: bool,
    pub auto_sort_delay_sec: u64,
    pub auto_open_nph_enabled: bool,
    pub login_username_x: i32,
    pub login_username_y: i32,
    pub login_password_x: i32,
    pub login_password_y: i32,
    pub login_btn_x: i32,
    pub login_btn_y: i32,
    pub sort_columns: i32,
    pub nph_active_x: i32,
    pub nph_active_y: i32,
    pub nph_refresh_x: i32,
    pub nph_refresh_y: i32,
    pub nph_scroll_x: i32,
    pub nph_scroll_y1: i32,
    pub nph_scroll_y2: i32,
}

/// Every setting at its default.
pub open spec fn is_default_config(c: AppConfig) -> bool {
    &&& c.restart_minutes == 240
    &&& c.max_concurrent == 5
    &&& c.check_interval_min_sec == 10
    &&& c.check_interval_max_sec == 15
    &&& c.config_nph_delay_ms == 40
    &&& c.login_half_delay_sec == 60
    &&& !c.auto_start_enabled
    &&& c.auto_start_lds@ == Seq::<i32>::empty()
    &&& !c.auto_sort_after_start
    &&& c.auto_sort_delay_sec == 5
    &&& !c.auto_open_nph_enabled
    &&& c.login_username_x == 480
    &&& c.login_username_y == 213
    &&& c.login_password_x == 480
    &&& c.login_password_y == 261
    &&& c.login_btn_x == 480
    &&& c.login_btn_y == 316
    &&& c.sort_columns == 5
    &&& c.nph_active_x == 910
    &&& c.nph_active_y == 125
    &&& c.nph_refresh_x == 515
    &&& c.nph_refresh_y == 320
    &&& c.nph_scroll_x == 980
    &&& c.nph_scroll_y1 == 200
    &&& c.nph_scroll_y2 == 600
}

pub fn default_restart_minutes() -> (r: u64)
    ensures
        r == 240,
{
    DEFAULT_RESTART_MINUTES
}

pub fn default_max_concurrent() -> (r: usize)
    ensures
        r == 5,
{
    DEFAULT_MAX_CONCURRENT
}

pub fn default_check_interval_min() -> (r: u64)
    ensures
        r == 10,
{
    DEFAULT_CHECK_INTERVAL_MIN_SEC
}

pub fn default_check_interval_max() -> (r: u64)
    ensures
        r == 15,
{
    DEFAULT_CHECK_INTERVAL_MAX_SEC
}

pub fn default_config_nph_delay_ms() -> (r: u64)
    ensures
        r == 40,
{
    40
}

pub fn default_login_half_delay_sec() -> (r: u64)
    ensures
        r == 60,
{
    60
}

pub fn default_auto_start_enabled() -> (r: bool)
    ensures
        !r,
{
    false
}

pub fn default_auto_start_lds() -> (r: Vec<i32>)
    ensures
        r@ == Seq::<i32>::empty(),
{
    Vec::new()
}

pub fn default_auto_sort_after_start() -> (r: bool)
    ensures
        !r,
{
    false
}

pub fn default_auto_sort_delay_sec() -> (r: u64)
    ensures
        r == 5,
{
    5
}

pub fn default_auto_open_nph_enabled() -> (r: bool)
    ensures
        !r,
{
    false
}

pub fn default_nph_active_x() -> (r: i32)
    ensures
        r == 910,
{
    910
}

pub fn default_nph_active_y() -> (r: i32)
    ensures
        r == 125,
{
    125
}

pub fn default_nph_refresh_x() -> (r: i32)
    ensures
        r == 515,
{
    515
}

pub fn default_nph_refresh_y() -> (r: i32)
    ensures
        r == 320,
{
    320
}

pub fn default_nph_scroll_x() -> (r: i32)
    ensures
        r == 980,
{
    980
}

pub fn default_nph_scroll_y1() -> (r: i32)
    ensures
        r == 200,
{
    200
}

pub fn default_nph_scroll_y2() -> (r: i32)
    ensures
        r == 600,
{
    600
}

pub fn default_login_username_x() -> (r: i32)
    ensures
        r == 480,
{
    480
}

pub fn default_login_username_y() -> (r: i32)
    ensures
        r == 213,
{
    213
}

pub fn default_login_password_x() -> (r: i32)
    ensures
        r == 480,
{
    480
}

pub fn default_login_password_y() -> (r: i32)
    ensures
        r == 261,
{
    261
}

pub fn default_login_btn_x() -> (r: i32)
    ensures
        r == 480,
{
    480
}

pub fn default_login_btn_y() -> (r: i32)
    ensures
        r == 316,
{
    316
}

pub fn default_sort_columns() -> (r: i32)
    ensures
        r == 5,
{
    5
}

impl Default for AppConfig {
    fn default() -> (r: Self)
        ensures
            is_default_config(r),
    {
        AppConfig {
            restart_minutes: DEFAULT_RESTART_MINUTES,
            max_concurrent: DEFAULT_MAX_CONCURRENT,
            check_interval_min_sec: DEFAULT_CHECK_INTERVAL_MIN_SEC,
            check_interval_max_sec: DEFAULT_CHECK_INTERVAL_MAX_SEC,
            config_nph_delay_ms: 40,
            login_half_delay_sec: 60,
            auto_start_enabled: false,
            auto_start_lds: Vec::new(),
            auto_sort_after_start: false,
            auto_sort_delay_sec: 5,
            auto_open_nph_enabled: false,
            login_username_x: 480,
            login_username_y: 213,
            login_password_x: 480,
            login_password_y: 261,
            login_btn_x: 480,
            login_btn_y: 316,
            sort_columns: 5,
            nph_active_x: 910,
            nph_active_y: 125,
            nph_refresh_x: 515,
            nph_refresh_y: 320,
            nph_scroll_x: 980,
            nph_scroll_y1: 200,
            nph_scroll_y2: 600,
        }
    }
}

/// The default settings are the named defaults, and every computation that
/// takes a setting accepts them: the check interval is a proper range whose
/// milliseconds fit in a `u64`, at least one check may run, the windows are
/// laid out in at least one column, and the restart delay in milliseconds
/// fits in a `u64`.
pub proof fn law_default_config_is_usable(c: AppConfig)
    requires
        is_default_config(c),
    ensures
        c.restart_minutes == DEFAULT_RESTART_MINUTES,
        c.max_concurrent == DEFAULT_MAX_CONCURRENT,
        c.check_interval_min_sec == DEFAULT_CHECK_INTERVAL_MIN_SEC,
        c.check_interval_max_sec == DEFAULT_CHECK_INTERVAL_MAX_SEC,
        c.check_interval_min_sec <= c.check_interval_max_sec,
        c.check_interval_max_sec * 1000 <= u64::MAX,
        c.max_concurrent > 0,
        c.sort_columns > 0,
        c.restart_minutes * 60000 <= u64::MAX,
{
}

/// The byte-order mark that some editors put at the start of a text file.
pub open spec fn bom() -> char {
    '\u{feff}'
}

/// `s` with every occurrence of `c` removed.
pub open spec fn without_char(s: Seq<char>, c: char) -> Seq<char>
    decreases s.len(),
{
    if s.len() == 0 {
        s
    } else {
        without_char(s.drop_last(), c) + if s.last() == c {
            Seq::<char>::empty()
        } else {
            seq![s.last()]
        }
    }
}

/// A settings text as it is parsed: where it starts with a byte-order mark,
/// every byte-order mark in it is removed.
pub open spec fn bom_stripped(s: Seq<char>) -> Seq<char> {
    if s.len() > 0 && s[0] == bom() {
        without_char(s, bom())
    } else {
        s
    }
}

/// Removing a character leaves none of it, and keeps every other character.
pub proof fn lemma_without_char(s: Seq<char>, c: char)
    ensures
        forall|i: int| 0 <= i < without_char(s, c).len() ==> #[trigger] without_char(s, c)[i] != c,
        without_char(s, c).len() <= s.len(),
    decreases s.len(),
{
    if s.len() > 0 {
        lemma_without_char(s.drop_last(), c);
        let head = without_char(s.drop_last(), c);
        assert forall|i: int| 0 <= i < without_char(s, c).len() implies #[trigger] without_char(s, c)[i]
            != c by {
            if i < head.len() {
                assert(without_char(s, c)[i] == head[i]);
            }
        }
    }
}

/// A settings text that starts with a byte-order mark is parsed with no
/// byte-order mark left in it; any other text is parsed as it is.
pub proof fn law_no_bom_is_parsed(s: Seq<char>)
    ensures
        s.len() > 0 && s[0] == bom() ==> forall|i: int|
            0 <= i < bom_stripped(s).len() ==> #[trigger] bom_stripped(s)[i] != bom(),
        !(s.len() > 0 && s[0] == bom()) ==> bom_stripped(s) == s,
{
    lemma_without_char(s, bom());
}

/// The settings text with its byte-order marks removed, as `load_config` reads it.
pub fn strip_bom(content: &str) -> (r: String)
    ensures
        r@ == bom_stripped(content@),
{
    let cs = chars_of(content);
    if cs.len() == 0 || cs[0] != '\u{feff}' {
        return owned(content);
    }
    let mut out: Vec<char> = Vec::new();
    let mut i: usize = 0;
    while i < cs.len()
        invariant
            i <= cs.len(),
            cs@ == content@,
            out@ == without_char(cs@.take(i as int), bom()),
        decreases cs.len() - i,
    {
        if cs[i] != '\u{feff}' {
            out.push(cs[i]);
        }
        proof {
            assert(cs@.take(i + 1).drop_last() == cs@.take(i as int));
            assert(out@ =~= without_char(cs@.take(i + 1), bom()));
        }
        i += 1;
    }
    proof {
        assert(cs@.take(cs.len() as int) == cs@);
    }
    string_from(&out)
}

/// `dir` joined with the relative file name `name` the way `Path::join` does:
/// a separator goes between them unless `dir` is empty or already ends in one
/// (`'/'` or the platform's own `main_sep`).
pub open spec fn join_path(dir: Seq<char>, name: Seq<char>, main_sep: char) -> Seq<char> {
    if dir.len() == 0 {
        name
    } else if dir.last() == '/' || dir.last() == main_sep {
        dir + name
    } else {
        dir + seq![main_sep] + name
    }
}

/// `dir` joined with `name` (see `join_path`).
pub fn join_path_exec(dir: &str, name: &str, main_sep: char) -> (r: String)
    ensures
        r@ == join_path(dir@, name@, main_sep),
{
    let mut out = chars_of(dir);
    let n = chars_of(name);
    if out.len() > 0 {
        let last = out[out.len() - 1];
        if last != '/' && last != main_sep {
            out.push(main_sep);
        }
    }
    append_chars(&mut out, &n);
    string_from(&out)
}

/// The account list beside the executable in `exe_dir`.
pub fn get_accounts_path(exe_dir: &str, main_sep: char) -> (r: String)
    ensures
        r@ == join_path(exe_dir@, "Acc.csv"@, main_sep),
{
    join_path_exec(exe_dir, "Acc.csv", main_sep)
}

/// The template folder beside the executable in `exe_dir`.
pub fn get_template_dir(exe_dir: &str, main_sep: char) -> (r: String)
    ensures
        r@ == join_path(exe_dir@, "template"@, main_sep),
{
    join_path_exec(exe_dir, "template", main_sep)
}

/// The table of regions of interest in the template folder.
pub fn get_roi_config_path(exe_dir: &str, main_sep: char) -> (r: String)
    ensures
        r@ == join_path(join_path(exe_dir@, "template"@, main_sep), "roi_config.json"@, main_sep),
{
    let dir = get_template_dir(exe_dir, main_sep);
    join_path_exec(dir.as_str(), "roi_config.json", main_sep)
}

/// The settings files to try, in order: `config.json` in the working
/// directory, then the one beside the executable where its folder is known.
pub fn config_paths(exe_dir: &Option<String>, main_sep: char) -> (r: Vec<String>)
    ensures
        r@.map_values(|s: String| s@) == match exe_dir {
            Some(d) => seq!["config.json"@, join_path(d@, "config.json"@, main_sep)],
            None => seq!["config.json"@],
        },
{
    let mut r: Vec<String> = Vec::new();
    r.push(owned("config.json"));
    match exe_dir {
        Some(d) => {
            r.push(join_path_exec(d.as_str(), "config.json", main_sep));
            proof {
                assert(r@.map_values(|s: String| s@) =~= seq![
                    "config.json"@,
                    join_path(d@, "config.json"@, main_sep),
                ]);
            }
        },
        None => {
            proof {
                assert(r@.map_values(|s: String| s@) =~= seq!["config.json"@]);
            }
        },
    }
    r
}

/// The settings in force: those of the first file that parsed (`parsed[i]`
/// answers for the `i`-th file tried), else the defaults.
pub fn choose_config(parsed: Vec<Option<AppConfig>>) -> (r: AppConfig)
    ensures
        (exists|i: int| 0 <= i < parsed.len() && parsed@[i] is Some) ==> exists|i: int|
            0 <= i < parsed.len() && parsed@[i] == Some(r) && forall|j: int|
                0 <= j < i ==> #[trigger] parsed@[j] is None,
        (forall|i: int| 0 <= i < parsed.len() ==> #[trigger] parsed@[i] is None) ==> is_default_config(r),
{
    let mut i: usize = 0;
    while i < parsed.len()
        invariant
            i <= parsed.len(),
            forall|j: int| 0 <= j < i ==> #[trigger] parsed@[j] is None,
        decreases parsed.len() - i,
    {
        if parsed[i].is_some() {
            let mut v = parsed;
            let found = v.remove(i);
            match found {
                Some(c) => {
                    return c;
                },
                None => {
                    return AppConfig::default();
                },
            }
        }
        i += 1;
    }
    AppConfig::default()
}

} // verus!
