//! The account list (`user|pass|LD-n` lines), the binding of accounts to
//! instances in that list, and the per-session claiming of free accounts.
use vstd::prelude::*;
use crate::text::{
    Sep, append_chars, chars_eq, chars_of, decimal_i32, free_of, int_decimal, is_ws, join_lines,
    lemma_int_decimal_parses, lemma_lines_free, lemma_split_by_concat, lemma_split_by_free,
    lemma_split_by_keeps_free, lemma_split_by_pieces, lemma_split_join_lines,
    lemma_trim_ends, lemma_trim_identity, lemma_trim_keeps_free, lemma_trim_push_trimmed, lines,
    parse_i32, parse_i32_spec, sep_matches, split, split_by, split_lines, starts_with, string_from,
    strip_cr, subvec, trim, trim_chars,
};
use crate::types::{Account, AccountView, accounts_view, copy_account, option_account_view};

verus! {

pub open spec fn ld_prefix() -> Seq<char> {
    seq!['L', 'D', '-']
}

/// The instance that the third field of an account line names: `LD-n` or `n`,
/// and -1 where the field does not parse.
pub open spec fn ld_field_value(field: Seq<char>) -> i32 {
    let f = trim(field);
    let digits = if ld_prefix().is_prefix_of(f) {
        f.skip(3)
    } else {
        f
    };
    match parse_i32_spec(digits) {
        Some(v) => v,
        None => -1i32,
    }
}

/// The account that one line of the list holds, if any: the trimmed line split
/// at `'|'`, with at least a username and a password.
pub open spec fn parse_account_line(line: Seq<char>) -> Option<AccountView> {
    let t = trim(line);
    if t.len() == 0 {
        None
    } else {
        let parts = split_by(t, Sep::Char('|'));
        if parts.len() >= 2 {
            let ld = if parts.len() >= 3 {
                ld_field_value(parts[2])
            } else {
                -1i32
            };
            Some((parts[0], parts[1], ld))
        } else {
            None
        }
    }
}

/// The accounts that a list file holds, in order.
pub open spec fn accounts_in(content: Seq<char>) -> Seq<AccountView> {
    lines(content).filter_map(|l: Seq<char>| parse_account_line(l))
}

fn parse_ld_field(field: &Vec<char>) -> (r: i32)
    ensures
        r == ld_field_value(field@),
{
    let f = trim_chars(field, Sep::Whitespace);
    let prefix = vec!['L', 'D', '-'];
    proof {
        assert(prefix@ == ld_prefix());
    }
    let digits = if starts_with(&f, &prefix) {
        subvec(&f, 3, f.len())
    } else {
        subvec(&f, 0, f.len())
    };
    proof {
        assert(f@.subrange(0, f@.len() as int) == f@);
        assert(f@.subrange(3, f@.len() as int) == f@.skip(3));
    }
    match parse_i32(&digits) {
        Some(v) => v,
        None => -1,
    }
}

/// The account on one line of the list, if the line holds one.
pub fn parse_account(line: &Vec<char>) -> (r: Option<Account>)
    ensures
        option_account_view(r) == parse_account_line(line@),
{
    let t = trim_chars(line, Sep::Whitespace);
    if t.len() == 0 {
        return None;
    }
    let parts = split(&t, Sep::Char('|'));
    if parts.len() >= 2 {
        let ld = if parts.len() >= 3 {
            parse_ld_field(&parts[2])
        } else {
            -1
        };
        let username = string_from(&parts[0]);
        let password = string_from(&parts[1]);
        Some(Account { username, password, ld_index: ld })
    } else {
        None
    }
}

/// The accounts of a list file (the text of `Acc.csv`), one per line that
/// holds at least `username|password`.
pub fn parse_accounts(content: &str) -> (r: Vec<Account>)
    ensures
        accounts_view(r@) == accounts_in(content@),
{
    let chars = chars_of(content);
    let ls = split_lines(&chars);
    let ghost f = |l: Seq<char>| parse_account_line(l);
    let ghost ls_view = lines(content@);
    let mut r: Vec<Account> = Vec::new();
    let mut k: usize = 0;
    while k < ls.len()
        invariant
            k <= ls.len() == ls_view.len(),
            ls_view == lines(content@),
            f == (|l: Seq<char>| parse_account_line(l)),
            forall|i: int| 0 <= i < ls.len() ==> #[trigger] ls@[i]@ == ls_view[i],
            accounts_view(r@) == ls_view.take(k as int).filter_map(f),
        decreases ls.len() - k,
    {
        let acc = parse_account(&ls[k]);
        proof {
            ls_view.lemma_filter_map_take_succ(f, k as int);
        }
        let ghost prev = accounts_view(r@);
        match acc {
            Some(a) => {
                r.push(a);
                proof {
                    assert(accounts_view(r@) =~= prev.push(a@));
                    assert(f(ls_view[k as int]) == Some(a@));
                    assert(prev.push(a@) =~= prev + seq![a@]);
                }
            },
            None => {
                proof {
                    assert(f(ls_view[k as int]) == None::<AccountView>);
                    assert(prev =~= prev + Seq::<AccountView>::empty());
                }
            },
        }
        k += 1;
    }
    proof {
        assert(ls_view.take(ls.len() as int) == ls_view);
    }
    r
}

/// A line of the list with the account `username` bound to instance `ld`: its
/// username and password kept, its third field replaced by `LD-ld` and any
/// further fields dropped. Other lines stay as they are.
pub open spec fn assign_line(line: Seq<char>, username: Seq<char>, ld: i32) -> Seq<char> {
    let t = trim(line);
    if t.len() == 0 {
        line
    } else {
        let parts = split_by(t, Sep::Char('|'));
        if parts.len() >= 2 && parts[0] == username {
            parts[0] + seq!['|'] + parts[1] + seq!['|'] + ld_prefix() + int_decimal(ld as int)
        } else {
            line
        }
    }
}

/// The list file after binding the accounts named `username` to instance `ld`:
/// its lines, each passed through `assign_line`, joined with `'\n'`.
pub open spec fn assigned_content(content: Seq<char>, username: Seq<char>, ld: i32) -> Seq<char> {
    join_lines(assigned_lines(content, username, ld))
}

/// The lines of the list file, each passed through `assign_line`.
pub open spec fn assigned_lines(content: Seq<char>, username: Seq<char>, ld: i32) -> Seq<Seq<char>> {
    lines(content).map_values(|l: Seq<char>| assign_line(l, username, ld))
}

fn assign_line_exec(line: &Vec<char>, username: &Vec<char>, ld: i32) -> (r: Vec<char>)
    ensures
        r@ == assign_line(line@, username@, ld),
{
    let t = trim_chars(line, Sep::Whitespace);
    proof {
        assert(line@.subrange(0, line@.len() as int) == line@);
    }
    if t.len() == 0 {
        return subvec(line, 0, line.len());
    }
    let parts = split(&t, Sep::Char('|'));
    if parts.len() >= 2 && chars_eq(&parts[0], username) {
        let mut out: Vec<char> = Vec::new();
        append_chars(&mut out, &parts[0]);
        out.push('|');
        append_chars(&mut out, &parts[1]);
        out.push('|');
        out.push('L');
        out.push('D');
        out.push('-');
        let digits = decimal_i32(ld);
        append_chars(&mut out, &digits);
        proof {
            assert(out@ =~= parts@[0]@ + seq!['|'] + parts@[1]@ + seq!['|'] + ld_prefix()
                + int_decimal(ld as int));
        }
        out
    } else {
        subvec(line, 0, line.len())
    }
}

/// The list file `content` after binding every account named `username` to
/// instance `ld` (what `assign_account_to_file` writes back).
pub fn assign_account_in_content(content: &str, username: &str, ld: i32) -> (r: String)
    ensures
        r@ == assigned_content(content@, username@, ld),
{
    let chars = chars_of(content);
    let ls = split_lines(&chars);
    let u = chars_of(username);
    let ghost ls_view = lines(content@);
    let ghost m = ls_view.map_values(|l: Seq<char>| assign_line(l, username@, ld));
    let mut out: Vec<char> = Vec::new();
    let mut k: usize = 0;
    while k < ls.len()
        invariant
            k <= ls.len() == ls_view.len() == m.len(),
            u@ == username@,
            m == ls_view.map_values(|l: Seq<char>| assign_line(l, username@, ld)),
            forall|i: int| 0 <= i < ls.len() ==> #[trigger] ls@[i]@ == ls_view[i],
            out@ == join_lines(m.take(k as int)),
        decreases ls.len() - k,
    {
        let nl = assign_line_exec(&ls[k], &u, ld);
        proof {
            assert(m.take(k + 1).drop_last() == m.take(k as int));
            assert(m.take(k + 1).last() == nl@);
        }
        if k > 0 {
            out.push('\n');
        } else {
            proof {
                assert(out@ == Seq::<char>::empty());
            }
        }
        append_chars(&mut out, &nl);
        proof {
            if k == 0 {
                assert(out@ =~= m.take(1)[0]);
            }
        }
        k += 1;
    }
    proof {
        assert(m.take(ls.len() as int) == m);
    }
    string_from(&out)
}

/// An account after binding the accounts named `username` to instance `ld`.
pub open spec fn rebind(a: AccountView, username: Seq<char>, ld: i32) -> AccountView {
    if a.0 == username {
        (a.0, a.1, ld)
    } else {
        a
    }
}

pub proof fn lemma_parse_strip_cr(x: Seq<char>)
    ensures
        parse_account_line(strip_cr(x)) == parse_account_line(x),
{
    if x.len() > 0 && x.last() == '\r' {
        lemma_trim_push_trimmed(x.drop_last(), '\r', Sep::Whitespace);
        assert(x.drop_last().push('\r') == x);
    }
}

/// The line that `assign_line` writes for a matching account reads back as
/// that account bound to `ld`; other lines read back unchanged.
pub proof fn lemma_parse_assigned_line(l: Seq<char>, u: Seq<char>, ld: i32)
    ensures
        parse_account_line(assign_line(l, u, ld)) == match parse_account_line(l) {
            Some(a) => Some(rebind(a, u, ld)),
            None => None,
        },
{
    let t = trim(l);
    if t.len() > 0 {
        let parts = split_by(t, Sep::Char('|'));
        if parts.len() >= 2 && parts[0] == u {
            let p0 = parts[0];
            let p1 = parts[1];
            let dec = int_decimal(ld as int);
            let rest = ld_prefix() + dec;
            let tail = p1 + seq!['|'] + rest;
            let new = p0 + seq!['|'] + tail;
            assert(assign_line(l, u, ld) == new) by {
                assert(p0 + seq!['|'] + p1 + seq!['|'] + ld_prefix() + dec =~= new);
            }
            lemma_split_by_pieces(t, Sep::Char('|'));
            lemma_trim_ends(l, Sep::Whitespace);
            lemma_int_decimal_parses(ld as int);
            // The rewritten line is its own trim.
            if p0.len() > 0 {
                assert(new[0] == p0[0]);
                assert(p0[0] == t[0]);
            } else {
                assert(new[0] == '|');
                assert(t[0] == '|');
            }
            assert(new.last() == dec.last());
            assert(!is_ws(dec.last()));
            lemma_trim_identity(new, Sep::Whitespace);
            // It splits into username, password and the instance field.
            assert(free_of(rest, Sep::Char('|'))) by {
                assert forall|i: int| 0 <= i < rest.len() implies !sep_matches(
                    Sep::Char('|'),
                    #[trigger] rest[i],
                ) by {
                    if i >= 3 {
                        assert(rest[i] == dec[i - 3]);
                    }
                }
            }
            lemma_split_by_concat(p0, '|', tail, Sep::Char('|'));
            lemma_split_by_concat(p1, '|', rest, Sep::Char('|'));
            lemma_split_by_free(p0, Sep::Char('|'));
            lemma_split_by_free(p1, Sep::Char('|'));
            lemma_split_by_free(rest, Sep::Char('|'));
            let np = split_by(new, Sep::Char('|'));
            assert(np =~= seq![p0, p1, rest]);
            // The instance field reads back as `ld`.
            assert(rest[0] == 'L');
            assert(rest.last() == dec.last());
            lemma_trim_identity(rest, Sep::Whitespace);
            assert(ld_prefix().is_prefix_of(rest));
            assert(rest.skip(3) =~= dec);
            assert(parse_i32_spec(dec) == Some(ld));
            assert(ld_field_value(rest) == ld);
        }
    }
}

proof fn lemma_strip_cr_lines_parse(ms: Seq<Seq<char>>)
    ensures
        ms.map_values(|l: Seq<char>| strip_cr(l)).filter_map(|l: Seq<char>| parse_account_line(l))
            == ms.filter_map(|l: Seq<char>| parse_account_line(l)),
    decreases ms.len(),
{
    let f = |l: Seq<char>| parse_account_line(l);
    let g = ms.map_values(|l: Seq<char>| strip_cr(l));
    if ms.len() > 0 {
        let d = ms.drop_last();
        lemma_strip_cr_lines_parse(d);
        assert(g.drop_last() =~= d.map_values(|l: Seq<char>| strip_cr(l)));
        lemma_parse_strip_cr(ms.last());
        assert(f(g.last()) == f(ms.last()));
    } else {
        assert(g.len() == 0);
    }
}

proof fn lemma_assigned_lines_parse(ls: Seq<Seq<char>>, u: Seq<char>, ld: i32)
    ensures
        ls.map_values(|l: Seq<char>| assign_line(l, u, ld)).filter_map(
            |l: Seq<char>| parse_account_line(l),
        ) == ls.filter_map(|l: Seq<char>| parse_account_line(l)).map_values(
            |a: AccountView| rebind(a, u, ld),
        ),
    decreases ls.len(),
{
    let f = |l: Seq<char>| parse_account_line(l);
    let m = ls.map_values(|l: Seq<char>| assign_line(l, u, ld));
    let h = |a: AccountView| rebind(a, u, ld);
    if ls.len() > 0 {
        let d = ls.drop_last();
        lemma_assigned_lines_parse(d, u, ld);
        assert(m.drop_last() =~= d.map_values(|l: Seq<char>| assign_line(l, u, ld)));
        lemma_parse_assigned_line(ls.last(), u, ld);
        let prev = d.filter_map(f);
        match f(ls.last()) {
            Some(a) => {
                assert((prev + seq![a]).map_values(h) =~= prev.map_values(h) + seq![h(a)]);
            },
            None => {},
        }
    } else {
        assert(m.len() == 0);
    }
}

/// The accounts read back from lines joined with `'\n'` are the accounts of
/// those lines.
proof fn lemma_joined_lines_parse(ms: Seq<Seq<char>>)
    requires
        forall|i: int| 0 <= i < ms.len() ==> free_of(#[trigger] ms[i], Sep::Char('\n')),
    ensures
        lines(join_lines(ms)).filter_map(|l: Seq<char>| parse_account_line(l)) == ms.filter_map(
            |l: Seq<char>| parse_account_line(l),
        ),
{
    let f = |l: Seq<char>| parse_account_line(l);
    if ms.len() == 0 {
        assert(join_lines(ms) == Seq::<char>::empty());
        assert(split_by(Seq::<char>::empty(), Sep::Char('\n')) == seq![Seq::<char>::empty()]);
        assert(lines(join_lines(ms)) =~= Seq::<Seq<char>>::empty());
    } else {
        lemma_split_join_lines(ms);
        let d = ms.drop_last();
        lemma_strip_cr_lines_parse(d);
        let body = d.map_values(|l: Seq<char>| strip_cr(l));
        assert(ms.filter_map(f) == d.filter_map(f) + match f(ms.last()) {
            Some(a) => seq![a],
            None => Seq::<AccountView>::empty(),
        });
        if ms.last().len() == 0 {
            assert(trim(ms.last()) == ms.last());
            assert(f(ms.last()) == None::<AccountView>);
            assert(lines(join_lines(ms)) == body);
            assert(d.filter_map(f) + Seq::<AccountView>::empty() =~= d.filter_map(f));
        } else {
            assert(lines(join_lines(ms)) == body.push(ms.last()));
            assert(body.push(ms.last()).drop_last() == body);
        }
    }
}

proof fn lemma_assigned_lines_free(content: Seq<char>, username: Seq<char>, ld: i32)
    ensures
        forall|i: int|
            0 <= i < lines(content).len() ==> free_of(
                #[trigger] assigned_lines(content, username, ld)[i],
                Sep::Char('\n'),
            ),
{
    let ls = lines(content);
    let m = ls.map_values(|l: Seq<char>| assign_line(l, username, ld));
    lemma_lines_free(content);
    assert forall|i: int| 0 <= i < m.len() implies free_of(#[trigger] m[i], Sep::Char('\n')) by {
        let l = ls[i];
        assert(free_of(l, Sep::Char('\n')));
        let t = trim(l);
        if t.len() > 0 {
            let parts = split_by(t, Sep::Char('|'));
            if parts.len() >= 2 && parts[0] == username {
                lemma_trim_keeps_free(l, Sep::Whitespace, Sep::Char('\n'));
                lemma_split_by_keeps_free(t, Sep::Char('|'), Sep::Char('\n'));
                lemma_int_decimal_parses(ld as int);
                let new = assign_line(l, username, ld);
                let dec = int_decimal(ld as int);
                assert(new == parts[0] + seq!['|'] + parts[1] + seq!['|'] + ld_prefix() + dec);
                assert(free_of(parts[0], Sep::Char('\n')));
                assert(free_of(parts[1], Sep::Char('\n')));
                assert forall|j: int| 0 <= j < new.len() implies !sep_matches(
                    Sep::Char('\n'),
                    #[trigger] new[j],
                ) by {
                    let a = parts[0].len() as int;
                    let b = parts[1].len() as int;
                    if j < a {
                        assert(new[j] == parts[0][j]);
                    } else if a < j < a + 1 + b {
                        assert(new[j] == parts[1][j - a - 1]);
                    } else if j >= a + b + 5 {
                        assert(new[j] == dec[j - a - b - 5]);
                    }
                }
            }
        }
    }
}

/// What `assign_account_to_file` writes, `load_accounts` reads back: the same
/// accounts in the same order, those named `username` now bound to `ld`.
pub proof fn law_assigned_accounts_read_back(content: Seq<char>, username: Seq<char>, ld: i32)
    ensures
        accounts_in(assigned_content(content, username, ld)) == accounts_in(content).map_values(
            |a: AccountView| rebind(a, username, ld),
        ),
{
    let ls = lines(content);
    let m = ls.map_values(|l: Seq<char>| assign_line(l, username, ld));
    lemma_assigned_lines_free(content, username, ld);
    assert forall|i: int| 0 <= i < m.len() implies free_of(#[trigger] m[i], Sep::Char('\n')) by {
        assert(m[i] == assigned_lines(content, username, ld)[i]);
    }
    lemma_joined_lines_parse(m);
    lemma_assigned_lines_parse(ls, username, ld);
}

/// The smallest index of `s` whose element satisfies `p`, or `s.len()` where none does.
pub open spec fn first_match<A>(s: Seq<A>, p: spec_fn(A) -> bool) -> int
    decreases s.len(),
{
    if s.len() == 0 {
        0
    } else if p(s[0]) {
        0
    } else {
        1 + first_match(s.drop_first(), p)
    }
}

pub proof fn lemma_first_match<A>(s: Seq<A>, p: spec_fn(A) -> bool)
    ensures
        0 <= first_match(s, p) <= s.len(),
        forall|i: int| 0 <= i < first_match(s, p) ==> !p(#[trigger] s[i]),
        first_match(s, p) < s.len() ==> p(s[first_match(s, p)]),
    decreases s.len(),
{
    if s.len() > 0 && !p(s[0]) {
        lemma_first_match(s.drop_first(), p);
        assert forall|i: int| 0 <= i < first_match(s, p) implies !p(#[trigger] s[i]) by {
            if i > 0 {
                assert(s[i] == s.drop_first()[i - 1]);
            }
        }
    }
}

/// Pins `first_match` down from what a left-to-right search saw.
pub proof fn lemma_first_match_is<A>(s: Seq<A>, p: spec_fn(A) -> bool, i: int)
    requires
        0 <= i <= s.len(),
        forall|j: int| 0 <= j < i ==> !p(#[trigger] s[j]),
        i < s.len() ==> p(s[i]),
    ensures
        first_match(s, p) == i,
{
    lemma_first_match(s, p);
    if first_match(s, p) < i {
        assert(!p(s[first_match(s, p)]));
    }
    if first_match(s, p) > i {
        assert(!p(s[i]));
    }
}

/// The instance `ld` is named in an account's own line.
pub open spec fn bound_to(ld: i32) -> spec_fn(AccountView) -> bool {
    |a: AccountView| a.2 == ld
}

pub open spec fn named(u: Seq<char>) -> spec_fn(AccountView) -> bool {
    |a: AccountView| a.0 == u
}

/// Unbound, and neither used nor claimed in this session.
pub open spec fn claimable(used: Set<Seq<char>>, claimed: Set<Seq<char>>) -> spec_fn(
    AccountView,
) -> bool {
    |a: AccountView| a.2 < 0 && !used.contains(a.0) && !claimed.contains(a.0)
}

/// The session's state as plain values: the accounts, the usernames used, and
/// the username that each instance has claimed.
pub type SessionView = (Seq<AccountView>, Set<Seq<char>>, Map<i32, Seq<char>>);

/// What claiming an account for instance `ld` gives and leaves: the first
/// account bound to `ld` in the list; else the first account named by the
/// session's claim of `ld`; else the first unbound account that no instance
/// has used or claimed, which is then recorded as used and claimed by `ld`;
/// else nothing.
pub open spec fn claim_spec(s: SessionView, ld: i32) -> (Option<AccountView>, SessionView) {
    let (accs, used, claims) = s;
    let a = first_match(accs, bound_to(ld));
    if a < accs.len() {
        (Some(accs[a]), s)
    } else {
        let b = if claims.contains_key(ld) {
            first_match(accs, named(claims[ld]))
        } else {
            accs.len() as int
        };
        if b < accs.len() {
            (Some(accs[b]), s)
        } else {
            let c = first_match(accs, claimable(used, claims.values()));
            if c < accs.len() {
                (Some(accs[c]), (accs, used.insert(accs[c].0), claims.insert(ld, accs[c].0)))
            } else {
                (None, s)
            }
        }
    }
}

/// An instance's claim of an account for this session.
pub struct Claim {
    pub ld_index: i32,
    pub username: String,
}

pub open spec fn claims_map(c: Seq<Claim>) -> Map<i32, Seq<char>>
    decreases c.len(),
{
    if c.len() == 0 {
        Map::empty()
    } else {
        claims_map(c.drop_last()).insert(c.last().ld_index, c.last().username@)
    }
}

pub open spec fn keys_unique(c: Seq<Claim>) -> bool {
    forall|i: int, j: int|
        0 <= i < c.len() && 0 <= j < c.len() && i != j ==> #[trigger] c[i].ld_index
            != #[trigger] c[j].ld_index
}

pub proof fn lemma_claims_map(c: Seq<Claim>)
    requires
        keys_unique(c),
    ensures
        forall|k: i32|
            claims_map(c).contains_key(k) <==> exists|i: int|
                0 <= i < c.len() && #[trigger] c[i].ld_index == k,
        forall|i: int|
            0 <= i < c.len() ==> #[trigger] claims_map(c)[c[i].ld_index] == c[i].username@,
    decreases c.len(),
{
    if c.len() > 0 {
        let d = c.drop_last();
        assert(claims_map(c) == claims_map(d).insert(c.last().ld_index, c.last().username@));
        assert(keys_unique(d)) by {
            assert forall|i: int, j: int|
                0 <= i < d.len() && 0 <= j < d.len() && i != j implies #[trigger] d[i].ld_index
                != #[trigger] d[j].ld_index by {
                assert(d[i] == c[i] && d[j] == c[j]);
            }
        }
        lemma_claims_map(d);
        assert forall|k: i32|
            claims_map(c).contains_key(k) implies exists|i: int|
                0 <= i < c.len() && #[trigger] c[i].ld_index == k by {
            if k != c.last().ld_index {
                assert(claims_map(d).contains_key(k));
                let i = choose|i: int| 0 <= i < d.len() && #[trigger] d[i].ld_index == k;
                assert(c[i] == d[i]);
            } else {
                assert(c[c.len() - 1].ld_index == k);
            }
        }
        assert forall|k: i32|
            (exists|i: int| 0 <= i < c.len() && #[trigger] c[i].ld_index == k) implies claims_map(
            c,
        ).contains_key(k) by {
            let i = choose|i: int| 0 <= i < c.len() && #[trigger] c[i].ld_index == k;
            if i < d.len() {
                assert(d[i] == c[i]);
            }
        }
        assert forall|i: int| 0 <= i < c.len() implies #[trigger] claims_map(
            c,
        )[c[i].ld_index] == c[i].username@ by {
            if i < d.len() {
                assert(d[i] == c[i]);
                assert(c[i].ld_index != c[c.len() - 1].ld_index);
            }
        }
    }
}

pub proof fn lemma_claims_map_add(c: Seq<Claim>, ld: i32, u: Seq<char>)
    requires
        keys_unique(c),
        !claims_map(c).contains_key(ld),
    ensures
        forall|x: Claim|
            x.ld_index == ld && x.username@ == u ==> keys_unique(#[trigger] c.push(x))
                && claims_map(c.push(x)) == claims_map(c).insert(ld, u),
{
    lemma_claims_map(c);
    assert forall|x: Claim| x.ld_index == ld && x.username@ == u implies keys_unique(
        #[trigger] c.push(x),
    ) && claims_map(c.push(x)) == claims_map(c).insert(ld, u) by {
        let e = c.push(x);
        assert(e.drop_last() == c);
        assert forall|i: int, j: int|
            0 <= i < e.len() && 0 <= j < e.len() && i != j implies #[trigger] e[i].ld_index
            != #[trigger] e[j].ld_index by {
            if i < c.len() && j < c.len() {
                assert(e[i] == c[i] && e[j] == c[j]);
            } else if i < c.len() {
                assert(e[i] == c[i]);
            } else if j < c.len() {
                assert(e[j] == c[j]);
            }
        }
    }
}

pub proof fn lemma_claims_map_replace(c: Seq<Claim>, j: int, ld: i32, u: Seq<char>)
    requires
        keys_unique(c),
        0 <= j < c.len(),
        c[j].ld_index == ld,
    ensures
        forall|x: Claim|
            x.ld_index == ld && x.username@ == u ==> keys_unique(#[trigger] c.update(j, x))
                && claims_map(c.update(j, x)) == claims_map(c).insert(ld, u),
{
    lemma_claims_map(c);
    assert forall|x: Claim| x.ld_index == ld && x.username@ == u implies keys_unique(
        #[trigger] c.update(j, x),
    ) && claims_map(c.update(j, x)) == claims_map(c).insert(ld, u) by {
        let e = c.update(j, x);
        assert forall|a: int, b: int|
            0 <= a < e.len() && 0 <= b < e.len() && a != b implies #[trigger] e[a].ld_index
            != #[trigger] e[b].ld_index by {
            assert(e[a].ld_index == c[a].ld_index);
            assert(e[b].ld_index == c[b].ld_index);
        }
        lemma_claims_map(e);
        let m1 = claims_map(e);
        let m2 = claims_map(c).insert(ld, u);
        assert forall|k: i32| #[trigger] m1.contains_key(k) <==> m2.contains_key(k) by {
            if m1.contains_key(k) {
                let i = choose|i: int| 0 <= i < e.len() && #[trigger] e[i].ld_index == k;
                assert(c[i].ld_index == k);
            }
            if m2.contains_key(k) && k != ld {
                let i = choose|i: int| 0 <= i < c.len() && #[trigger] c[i].ld_index == k;
                assert(e[i].ld_index == k);
            }
            if k == ld {
                assert(e[j].ld_index == k);
            }
        }
        assert forall|k: i32| #[trigger] m1.contains_key(k) implies m1[k] == m2[k] by {
            let i = choose|i: int| 0 <= i < e.len() && #[trigger] e[i].ld_index == k;
            if i != j {
                assert(e[i] == c[i]);
            }
        }
        assert(m1 =~= m2);
    }
}

/// The accounts of a check-login session, with the usernames handed out so far
/// and the account each instance has claimed (at most one claim per instance).
pub struct AccountSession {
    accounts: Vec<Account>,
    used: Vec<String>,
    claims: Vec<Claim>,
}

impl AccountSession {
    pub closed spec fn used_set(&self) -> Set<Seq<char>> {
        self.used@.map_values(|u: String| u@).to_set()
    }

    pub closed spec fn claim_map(&self) -> Map<i32, Seq<char>> {
        claims_map(self.claims@)
    }

    pub closed spec fn state(&self) -> SessionView {
        (accounts_view(self.accounts@), self.used_set(), self.claim_map())
    }

    pub closed spec fn wf(&self) -> bool {
        keys_unique(self.claims@)
    }

    /// A session over `accounts` in which nothing has been used or claimed yet.
    pub fn new(accounts: Vec<Account>) -> (r: AccountSession)
        ensures
            r.wf(),
            r.state() == (accounts_view(accounts@), Set::<Seq<char>>::empty(), Map::<
                i32,
                Seq<char>,
            >::empty()),
    {
        let r = AccountSession { accounts, used: Vec::new(), claims: Vec::new() };
        proof {
            assert(r.used@.map_values(|u: String| u@) =~= Seq::<Seq<char>>::empty());
            assert(r.used_set() =~= Set::<Seq<char>>::empty());
        }
        r
    }

    /// Loads a new account list into the session; the usernames used and the
    /// claims made so far stay.
    pub fn set_accounts(&mut self, accounts: Vec<Account>)
        requires
            old(self).wf(),
        ensures
            final(self).wf(),
            final(self).state() == (accounts_view(accounts@), old(self).state().1, old(self).state().2),
    {
        self.accounts = accounts;
    }

    fn used_contains(&self, u: &String) -> (r: bool)
        ensures
            r == self.used_set().contains(u@),
    {
        let ghost vs = self.used@.map_values(|x: String| x@);
        let mut i: usize = 0;
        while i < self.used.len()
            invariant
                i <= self.used.len() == vs.len(),
                vs == self.used@.map_values(|x: String| x@),
                forall|j: int| 0 <= j < i ==> vs[j] != u@,
            decreases self.used.len() - i,
        {
            if self.used[i] == *u {
                proof {
                    assert(vs[i as int] == u@);
                    assert(vs.to_set().contains(u@));
                }
                return true;
            }
            i += 1;
        }
        proof {
            if vs.to_set().contains(u@) {
                let j = choose|j: int| 0 <= j < vs.len() && vs[j] == u@;
                assert(vs[j] != u@);
            }
        }
        false
    }

    /// Where the claim of instance `ld` stands in `claims`, if it has one.
    fn claim_index(&self, ld: i32) -> (r: Option<usize>)
        requires
            self.wf(),
        ensures
            match r {
                Some(i) => i < self.claims.len() && self.claims@[i as int].ld_index == ld,
                None => !self.claim_map().contains_key(ld),
            },
    {
        proof {
            lemma_claims_map(self.claims@);
        }
        let mut i: usize = 0;
        while i < self.claims.len()
            invariant
                i <= self.claims.len(),
                forall|j: int| 0 <= j < i ==> #[trigger] self.claims@[j].ld_index != ld,
            decreases self.claims.len() - i,
        {
            if self.claims[i].ld_index == ld {
                return Some(i);
            }
            i += 1;
        }
        None
    }

    fn claimed_by_anyone(&self, u: &String) -> (r: bool)
        requires
            self.wf(),
        ensures
            r == self.claim_map().values().contains(u@),
    {
        proof {
            lemma_claims_map(self.claims@);
        }
        let mut i: usize = 0;
        while i < self.claims.len()
            invariant
                self.wf(),
                i <= self.claims.len(),
                forall|j: int| 0 <= j < i ==> #[trigger] self.claims@[j].username@ != u@,
            decreases self.claims.len() - i,
        {
            if self.claims[i].username == *u {
                proof {
                    lemma_claims_map(self.claims@);
                    let k = self.claims@[i as int].ld_index;
                    assert(self.claim_map().contains_key(k));
                    assert(self.claim_map()[k] == u@);
                }
                return true;
            }
            i += 1;
        }
        proof {
            if self.claim_map().values().contains(u@) {
                let k = choose|k: i32|
                    #![auto]
                    self.claim_map().contains_key(k) && self.claim_map()[k] == u@;
                let j = choose|j: int| 0 <= j < self.claims.len() && #[trigger] self.claims@[j].ld_index == k;
                assert(self.claims@[j].username@ == u@);
            }
        }
        false
    }
}

fn first_bound_to(accounts: &Vec<Account>, ld: i32) -> (r: usize)
    ensures
        r == first_match(accounts_view(accounts@), bound_to(ld)),
{
    let ghost v = accounts_view(accounts@);
    let mut i: usize = 0;
    while i < accounts.len()
        invariant
            i <= accounts.len() == v.len(),
            v == accounts_view(accounts@),
            forall|j: int| 0 <= j < i ==> !bound_to(ld)(#[trigger] v[j]),
        decreases accounts.len() - i,
    {
        if accounts[i].ld_index == ld {
            proof {
                lemma_first_match_is(v, bound_to(ld), i as int);
            }
            return i;
        }
        i += 1;
    }
    proof {
        lemma_first_match_is(v, bound_to(ld), i as int);
    }
    i
}

fn first_named(accounts: &Vec<Account>, u: &String) -> (r: usize)
    ensures
        r == first_match(accounts_view(accounts@), named(u@)),
{
    let ghost v = accounts_view(accounts@);
    let mut i: usize = 0;
    while i < accounts.len()
        invariant
            i <= accounts.len() == v.len(),
            v == accounts_view(accounts@),
            forall|j: int| 0 <= j < i ==> !named(u@)(#[trigger] v[j]),
        decreases accounts.len() - i,
    {
        if accounts[i].username == *u {
            proof {
                lemma_first_match_is(v, named(u@), i as int);
            }
            return i;
        }
        i += 1;
    }
    proof {
        lemma_first_match_is(v, named(u@), i as int);
    }
    i
}

fn first_claimable(session: &AccountSession) -> (r: usize)
    requires
        session.wf(),
    ensures
        r == first_match(
            accounts_view(session.accounts@),
            claimable(session.used_set(), session.claim_map().values()),
        ),
{
    let ghost v = accounts_view(session.accounts@);
    let ghost p = claimable(session.used_set(), session.claim_map().values());
    let mut i: usize = 0;
    while i < session.accounts.len()
        invariant
            session.wf(),
            i <= session.accounts.len() == v.len(),
            v == accounts_view(session.accounts@),
            p == claimable(session.used_set(), session.claim_map().values()),
            forall|j: int| 0 <= j < i ==> !p(#[trigger] v[j]),
        decreases session.accounts.len() - i,
    {
        let acc = &session.accounts[i];
        if acc.ld_index < 0 && !session.used_contains(&acc.username)
            && !session.claimed_by_anyone(&acc.username) {
            proof {
                lemma_first_match_is(v, p, i as int);
            }
            return i;
        }
        i += 1;
    }
    proof {
        lemma_first_match_is(v, p, i as int);
    }
    i
}

/// Gives instance `ld_index` its account for this session: the account bound
/// to it in the list, else the one it claimed earlier in the session, else the
/// first free unbound account, which it then claims.
pub fn claim_account_for_ld(session: &mut AccountSession, ld_index: i32) -> (r: Option<Account>)
    requires
        old(session).wf(),
    ensures
        final(session).wf(),
        (option_account_view(r), final(session).state()) == claim_spec(
            old(session).state(),
            ld_index,
        ),
{
    let ghost s0 = session.state();
    let a = first_bound_to(&session.accounts, ld_index);
    if a < session.accounts.len() {
        return Some(copy_account(&session.accounts[a]));
    }
    proof {
        lemma_claims_map(session.claims@);
    }
    match session.claim_index(ld_index) {
        Some(j) => {
            let b = first_named(&session.accounts, &session.claims[j].username);
            if b < session.accounts.len() {
                return Some(copy_account(&session.accounts[b]));
            }
        },
        None => {},
    }
    let c = first_claimable(session);
    if c < session.accounts.len() {
        let acc = copy_account(&session.accounts[c]);
        let ghost used0 = session.used@;
        let ghost claims0 = session.claims@;
        session.used.push(acc.username.clone());
        let new_claim = Claim { ld_index, username: acc.username.clone() };
        match session.claim_index(ld_index) {
            Some(j) => {
                session.claims.set(j, new_claim);
                proof {
                    lemma_claims_map_replace(claims0, j as int, ld_index, acc.username@);
                    assert(session.claims@ == claims0.update(j as int, new_claim));
                }
            },
            None => {
                session.claims.push(new_claim);
                proof {
                    lemma_claims_map_add(claims0, ld_index, acc.username@);
                    assert(session.claims@ == claims0.push(new_claim));
                }
            },
        }
        proof {
            let vs0 = used0.map_values(|u: String| u@);
            assert(session.used@.map_values(|u: String| u@) =~= vs0.push(acc.username@));
            vs0.lemma_push_to_set_commute(acc.username@);
            assert(session.used_set() =~= s0.1.insert(acc.username@));
        }
        return Some(acc);
    }
    None
}

/// Claiming again for the same instance, with nothing changed in between,
/// hands out an account with the same username and changes nothing.
pub proof fn law_claim_is_stable(s: SessionView, ld: i32)
    ensures
        claim_spec(s, ld).0 is Some ==> {
            let (r1, s1) = claim_spec(s, ld);
            let (r2, s2) = claim_spec(s1, ld);
            &&& r2 is Some
            &&& r2.unwrap().0 == r1.unwrap().0
            &&& s2 == s1
        },
{
    let (accs, used, claims) = s;
    lemma_first_match(accs, bound_to(ld));
    let a = first_match(accs, bound_to(ld));
    if a >= accs.len() {
        let b = if claims.contains_key(ld) {
            first_match(accs, named(claims[ld]))
        } else {
            accs.len() as int
        };
        if claims.contains_key(ld) {
            lemma_first_match(accs, named(claims[ld]));
        }
        if b >= accs.len() {
            let p = claimable(used, claims.values());
            lemma_first_match(accs, p);
            let c = first_match(accs, p);
            if c < accs.len() {
                let u = accs[c].0;
                let s1 = claim_spec(s, ld).1;
                assert(s1.2.contains_key(ld) && s1.2[ld] == u);
                lemma_first_match(accs, named(u));
                assert(named(u)(accs[c]));
                assert(first_match(accs, named(u)) <= c) by {
                    if first_match(accs, named(u)) > c {
                        assert(!named(u)(accs[c]));
                    }
                }
            }
        }
    }
}

/// An account that the list binds to instance `ld` is what `ld` gets, and
/// handing it out changes nothing.
pub proof fn law_bound_account_wins(s: SessionView, ld: i32, i: int)
    requires
        0 <= i < s.0.len(),
        s.0[i].2 == ld,
    ensures
        claim_spec(s, ld).0 is Some,
        claim_spec(s, ld).0.unwrap().2 == ld,
        claim_spec(s, ld).1 == s,
{
    lemma_first_match(s.0, bound_to(ld));
    if first_match(s.0, bound_to(ld)) >= s.0.len() {
        assert(!bound_to(ld)(s.0[i]));
    }
}

/// The account that instance `ld` gets is bound to `ld` in the list, or is the
/// one that `ld` holds a claim to afterwards; a fresh claim is only ever made
/// on an unbound account.
pub proof fn law_claim_belongs_to_instance(s: SessionView, ld: i32)
    ensures
        claim_spec(s, ld).0 is Some ==> {
            let (r, s1) = claim_spec(s, ld);
            ||| r.unwrap().2 == ld
            ||| (s1.2.contains_key(ld) && s1.2[ld] == r.unwrap().0 && (s1.2 != s.2 ==> r.unwrap().2 < 0))
        },
{
    let (accs, used, claims) = s;
    lemma_first_match(accs, bound_to(ld));
    if claims.contains_key(ld) {
        lemma_first_match(accs, named(claims[ld]));
    }
    lemma_first_match(accs, claimable(used, claims.values()));
}

/// No username is ever claimed by two instances: claiming keeps the claims
/// one-to-one.
pub proof fn law_claims_stay_exclusive(s: SessionView, ld: i32)
    requires
        s.2.is_injective(),
    ensures
        claim_spec(s, ld).1.2.is_injective(),
{
    let (accs, used, claims) = s;
    let p = claimable(used, claims.values());
    lemma_first_match(accs, p);
    let c = first_match(accs, p);
    let s1 = claim_spec(s, ld).1;
    if s1.2 != claims {
        let u = accs[c].0;
        assert(!claims.values().contains(u));
        let m = claims.insert(ld, u);
        assert(s1.2 == m);
        assert forall|k1: i32, k2: i32|
            m.contains_key(k1) && m.contains_key(k2) && k1 != k2 implies m[k1] != m[k2] by {
            if k1 != ld && k2 != ld {
                assert(m[k1] == claims[k1] && m[k2] == claims[k2]);
            } else if k1 == ld {
                assert(m[k2] == claims[k2]);
                assert(claims.values().contains(claims[k2]));
            } else {
                assert(m[k1] == claims[k1]);
                assert(claims.values().contains(claims[k1]));
            }
        }
    }
}

/// Once the accounts file binds `username` to instance `ld`, a session over
/// the accounts read back from it hands `ld` that account (its first line,
/// password included) and changes nothing, whatever was used or claimed
/// before; this holds unless the file already bound another account to `ld`.
pub proof fn law_assigned_account_comes_back(
    content: Seq<char>,
    username: Seq<char>,
    ld: i32,
    used: Set<Seq<char>>,
    claims: Map<i32, Seq<char>>,
    i: int,
)
    requires
        0 <= i < accounts_in(content).len(),
        accounts_in(content)[i].0 == username,
        forall|j: int|
            0 <= j < accounts_in(content).len() && #[trigger] accounts_in(content)[j].0 != username
                ==> accounts_in(content)[j].2 != ld,
    ensures
        ({
            let before = accounts_in(content);
            let after = accounts_in(assigned_content(content, username, ld));
            let k = first_match(before, named(username));
            &&& 0 <= k < before.len()
            &&& claim_spec((after, used, claims), ld) == (
                Some((username, before[k].1, ld)),
                (after, used, claims),
            )
        }),
{
    let before = accounts_in(content);
    law_assigned_accounts_read_back(content, username, ld);
    let after = accounts_in(assigned_content(content, username, ld));
    assert(after == before.map_values(|a: AccountView| rebind(a, username, ld)));
    lemma_first_match(before, named(username));
    let k = first_match(before, named(username));
    if k >= before.len() {
        assert(!named(username)(before[i]));
    }
    assert forall|j: int| 0 <= j < k implies !bound_to(ld)(#[trigger] after[j]) by {
        assert(!named(username)(before[j]));
        assert(after[j] == rebind(before[j], username, ld));
    }
    assert(after[k] == rebind(before[k], username, ld));
    lemma_first_match_is(after, bound_to(ld), k);
}

/// Binding an account rewrites only that account's lines. The file is written
/// as one line per line read, joined with `'\n'` (nothing at all for a file
/// without lines). A line that is not an account line of `username` is
/// written back exactly as it was read; a line of `username` is written so
/// that it reads back as that account, with its password, bound to `ld`.
pub proof fn law_assign_keeps_other_lines(content: Seq<char>, username: Seq<char>, ld: i32)
    ensures
        lines(content).len() == 0 ==> assigned_content(content, username, ld).len() == 0,
        lines(content).len() > 0 ==> split_by(assigned_content(content, username, ld), Sep::Char('\n')).len()
            == lines(content).len(),
        lines(content).len() > 0 ==> forall|i: int|
            0 <= i < lines(content).len() ==> if split_by(trim(#[trigger] lines(content)[i]), Sep::Char('|')).len()
                >= 2 && split_by(trim(lines(content)[i]), Sep::Char('|'))[0] == username {
                parse_account_line(split_by(assigned_content(content, username, ld), Sep::Char('\n'))[i])
                    == Some((username, split_by(trim(lines(content)[i]), Sep::Char('|'))[1], ld))
            } else {
                split_by(assigned_content(content, username, ld), Sep::Char('\n'))[i] == lines(content)[i]
            },
{
    let ls = lines(content);
    let m = assigned_lines(content, username, ld);
    if ls.len() == 0 {
        assert(m.len() == 0);
    } else {
        lemma_assigned_lines_free(content, username, ld);
        lemma_split_join_lines(m);
        assert forall|i: int| 0 <= i < ls.len() implies (if split_by(trim(#[trigger] ls[i]), Sep::Char('|')).len()
            >= 2 && split_by(trim(ls[i]), Sep::Char('|'))[0] == username {
            parse_account_line(m[i]) == Some((username, split_by(trim(ls[i]), Sep::Char('|'))[1], ld))
        } else {
            m[i] == ls[i]
        }) by {
            assert(m[i] == assign_line(ls[i], username, ld));
            lemma_parse_assigned_line(ls[i], username, ld);
        }
    }
}

} // verus!
