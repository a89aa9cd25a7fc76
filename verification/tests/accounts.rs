use check_login::account::{
    AccountSession, assign_account_in_content, claim_account_for_ld, parse_account, parse_accounts,
};
use check_login::types::Account;

fn account(username: &str, password: &str, ld_index: i32) -> Account {
    Account { username: username.to_string(), password: password.to_string(), ld_index }
}

fn summary(accounts: &[Account]) -> Vec<(String, String, i32)> {
    accounts.iter().map(|a| (a.username.clone(), a.password.clone(), a.ld_index)).collect()
}

#[test]
fn parses_account_lines() {
    let text = "u1|p1|LD-2\n\n  u2|p2  \nbad\nu3|p3|7\nu4|p4|LD-x\nu5|p5| LD-4 |extra\r\n";
    let got = parse_accounts(text);
    assert_eq!(
        summary(&got),
        vec![
            ("u1".to_string(), "p1".to_string(), 2),
            ("u2".to_string(), "p2".to_string(), -1),
            ("u3".to_string(), "p3".to_string(), 7),
            ("u4".to_string(), "p4".to_string(), -1),
            ("u5".to_string(), "p5".to_string(), 4),
        ]
    );
}

#[test]
fn parses_empty_and_blank_account_text() {
    assert!(parse_accounts("").is_empty());
    assert!(parse_accounts("\n   \n\t\n").is_empty());
}

#[test]
fn parses_one_account_line() {
    let line: Vec<char> = "name|secret|LD-11".chars().collect();
    let a = parse_account(&line).unwrap();
    assert_eq!((a.username.as_str(), a.password.as_str(), a.ld_index), ("name", "secret", 11));
    let short: Vec<char> = "onlyname".chars().collect();
    assert!(parse_account(&short).is_none());
    let negative: Vec<char> = "n|p|-3".chars().collect();
    assert_eq!(parse_account(&negative).unwrap().ld_index, -3);
}

#[test]
fn assigns_account_in_file_text() {
    let text = "a|1\nb|2|LD-0\n";
    assert_eq!(assign_account_in_content(text, "a", 5), "a|1|LD-5\nb|2|LD-0");
}

#[test]
fn assign_rewrites_trimmed_line_and_drops_carriage_returns() {
    let text = "a|1\r\n  b|2|LD-9  \r\n\r\nc|3";
    assert_eq!(assign_account_in_content(text, "b", 3), "a|1\nb|2|LD-3\n\nc|3");
}

#[test]
fn assign_of_unknown_user_keeps_lines() {
    let text = "a|1\nb|2";
    assert_eq!(assign_account_in_content(text, "zz", 1), "a|1\nb|2");
}

#[test]
fn assigned_accounts_read_back_with_new_binding() {
    let text = "a|1\nb|2|LD-0\na|9|LD-4\n";
    let after = assign_account_in_content(text, "a", 6);
    let before = summary(&parse_accounts(text));
    let expected: Vec<(String, String, i32)> = before
        .into_iter()
        .map(|(u, p, ld)| if u == "a" { (u, p, 6) } else { (u, p, ld) })
        .collect();
    assert_eq!(summary(&parse_accounts(&after)), expected);
}

#[test]
fn claims_bound_account_first() {
    let mut s = AccountSession::new(vec![account("u1", "p1", 2), account("u2", "p2", -1)]);
    let a = claim_account_for_ld(&mut s, 2).unwrap();
    assert_eq!(a.username, "u1");
    assert_eq!(a.ld_index, 2);
}

#[test]
fn claims_free_accounts_in_order_and_keeps_them() {
    let mut s = AccountSession::new(vec![
        account("u1", "p1", 2),
        account("u2", "p2", -1),
        account("u3", "p3", -1),
    ]);
    assert_eq!(claim_account_for_ld(&mut s, 5).unwrap().username, "u2");
    assert_eq!(claim_account_for_ld(&mut s, 5).unwrap().username, "u2");
    assert_eq!(claim_account_for_ld(&mut s, 6).unwrap().username, "u3");
    assert!(claim_account_for_ld(&mut s, 7).is_none());
    assert_eq!(claim_account_for_ld(&mut s, 2).unwrap().username, "u1");
    assert_eq!(claim_account_for_ld(&mut s, 6).unwrap().password, "p3");
}

#[test]
fn no_account_when_list_is_empty() {
    let mut s = AccountSession::new(Vec::new());
    assert!(claim_account_for_ld(&mut s, 0).is_none());
}

#[test]
fn bound_accounts_are_not_handed_to_others() {
    let mut s = AccountSession::new(vec![account("u1", "p1", 1)]);
    assert!(claim_account_for_ld(&mut s, 2).is_none());
    assert_eq!(claim_account_for_ld(&mut s, 1).unwrap().username, "u1");
}

#[test]
fn claims_stay_exclusive_between_instances() {
    let mut s = AccountSession::new(vec![
        account("a", "1", -1),
        account("b", "2", -1),
        account("c", "3", -1),
    ]);
    let mut names = Vec::new();
    for ld in 0..3 {
        names.push(claim_account_for_ld(&mut s, ld).unwrap().username);
    }
    names.sort();
    names.dedup();
    assert_eq!(names.len(), 3);
}

#[test]
fn claim_is_stable_for_an_instance() {
    let mut s = AccountSession::new(vec![account("a", "1", -1), account("b", "2", -1)]);
    let first = claim_account_for_ld(&mut s, 4).unwrap().username;
    for _ in 0..3 {
        assert_eq!(claim_account_for_ld(&mut s, 4).unwrap().username, first);
    }
}

#[test]
fn reloaded_accounts_keep_earlier_claims() {
    let mut s = AccountSession::new(vec![account("a", "1", -1), account("b", "2", -1)]);
    assert_eq!(claim_account_for_ld(&mut s, 1).unwrap().username, "a");
    s.set_accounts(vec![account("a", "new", -1), account("b", "2", -1), account("c", "3", -1)]);
    let again = claim_account_for_ld(&mut s, 1).unwrap();
    assert_eq!((again.username.as_str(), again.password.as_str()), ("a", "new"));
    assert_eq!(claim_account_for_ld(&mut s, 2).unwrap().username, "b");
}

#[test]
fn assigned_account_comes_back_in_next_session() {
    let text = "x|0|LD-9\nme|pw\nme|pw2\nfree|f\n";
    let after = assign_account_in_content(text, "me", 4);
    let mut s = AccountSession::new(parse_accounts(&after));
    let got = claim_account_for_ld(&mut s, 4).unwrap();
    assert_eq!((got.username.as_str(), got.password.as_str(), got.ld_index), ("me", "pw", 4));
    assert_eq!(claim_account_for_ld(&mut s, 5).unwrap().username, "free");
}
