//! The click plans of the NPH tool window: the five clicks that set up each
//! of its fifteen rows, and the login button of each row.
use vstd::prelude::*;
use crate::control::{choice_of, parse_choice};

verus! {

/// The five click positions of each of the fifteen rows of the NPH set-up
/// screen, in window coordinates.
pub open spec fn nph_click_data() -> Seq<Seq<(i32, i32)>> {
    seq![
        seq![(1768i32, 692i32), (1735i32, 1352i32), (2434i32, 698i32), (2470i32, 932i32), (1297i32, 691i32)],
        seq![(1782i32, 779i32), (1747i32, 1452i32), (2418i32, 780i32), (2395i32, 1025i32), (1292i32, 779i32)],
        seq![(1768i32, 878i32), (1727i32, 1545i32), (2417i32, 874i32), (2391i32, 1123i32), (1299i32, 881i32)],
        seq![(1751i32, 963i32), (1727i32, 1626i32), (2398i32, 965i32), (2409i32, 1202i32), (1297i32, 968i32)],
        seq![(1785i32, 1059i32), (1729i32, 1721i32), (2406i32, 1065i32), (2400i32, 1306i32), (1292i32, 1062i32)],
        seq![(1769i32, 1155i32), (1779i32, 1826i32), (2390i32, 1157i32), (2485i32, 1400i32), (1298i32, 1161i32)],
        seq![(1752i32, 1252i32), (1791i32, 1941i32), (2399i32, 1245i32), (2410i32, 1502i32), (1289i32, 1250i32)],
        seq![(1756i32, 1342i32), (1741i32, 1136i32), (2415i32, 1345i32), (2453i32, 1605i32), (1288i32, 1334i32)],
        seq![(1755i32, 1427i32), (1723i32, 1237i32), (2392i32, 1433i32), (2445i32, 1676i32), (1297i32, 1442i32)],
        seq![(1759i32, 1522i32), (1770i32, 1336i32), (2391i32, 1532i32), (2402i32, 1767i32), (1299i32, 1528i32)],
        seq![(1765i32, 1621i32), (1756i32, 1409i32), (2404i32, 1622i32), (2436i32, 1879i32), (1289i32, 1619i32)],
        seq![(1784i32, 1725i32), (1765i32, 1514i32), (2399i32, 1702i32), (2424i32, 1961i32), (1292i32, 1714i32)],
        seq![(1754i32, 1803i32), (1810i32, 1606i32), (2397i32, 1801i32), (2407i32, 1665i32), (1291i32, 1802i32)],
        seq![(1823i32, 1903i32), (1767i32, 1696i32), (2405i32, 1897i32), (2383i32, 1761i32), (1288i32, 1904i32)],
        seq![(1762i32, 1995i32), (1757i32, 1792i32), (2416i32, 1995i32), (2405i32, 1852i32), (1291i32, 1993i32)],
    ]
}

/// The login button of each of the fifteen rows.
pub open spec fn nph_login_data() -> Seq<(i32, i32)> {
    seq![(965i32, 689i32), (1081i32, 786i32), (1082i32, 883i32), (1082i32, 967i32), (1075i32, 1065i32), (1086i32, 1159i32), (1082i32, 1248i32), (1084i32, 1341i32), (1081i32, 1432i32), (1081i32, 1523i32), (1079i32, 1624i32), (1086i32, 1709i32), (1087i32, 1802i32), (1078i32, 1900i32), (1078i32, 1989i32)]
}

/// Click `k` of a row as it is made: with the green filter the fourth click
/// goes 150 pixels higher, and the fifth click always goes 100 pixels to the
/// right of its table position.
pub open spec fn adjusted(p: (i32, i32), k: int, green: bool) -> (i32, i32) {
    if k == 3 && green {
        (p.0, (p.1 - 150) as i32)
    } else if k == 4 {
        ((p.0 + 100) as i32, p.1)
    } else {
        p
    }
}

/// The clicks of every row, as they are made.
pub open spec fn config_rows(green: bool) -> Seq<Seq<(i32, i32)>> {
    nph_click_data().map(|i: int, row: Seq<(i32, i32)>| row.map(|k: int, p: (i32, i32)| adjusted(p, k, green)))
}

pub open spec fn rows_view(v: Seq<Vec<(i32, i32)>>) -> Seq<Seq<(i32, i32)>> {
    v.map_values(|r: Vec<(i32, i32)>| r@)
}

/// The filter menu answer selects the green filter when it reads as 2; an
/// answer that is no number counts as 1.
pub open spec fn green_filter(input: Seq<char>) -> bool {
    choice_of(input, 1) == 2
}

pub fn is_green_filter(input: &str) -> (r: bool)
    ensures
        r == green_filter(input@),
{
    parse_choice(input, 1) == 2
}

fn adjusted_row(
    green: bool,
    p0: (i32, i32),
    p1: (i32, i32),
    p2: (i32, i32),
    p3: (i32, i32),
    p4: (i32, i32),
) -> (r: Vec<(i32, i32)>)
    requires
        p3.1 >= 0,
        p4.0 <= 10000,
    ensures
        r@ == seq![p0, p1, p2, p3, p4].map(|k: int, p: (i32, i32)| adjusted(p, k, green)),
{
    let mut r: Vec<(i32, i32)> = Vec::new();
    r.push(p0);
    r.push(p1);
    r.push(p2);
    if green {
        r.push((p3.0, p3.1 - 150));
    } else {
        r.push(p3);
    }
    r.push((p4.0 + 100, p4.1));
    proof {
        assert(r@ =~= seq![p0, p1, p2, p3, p4].map(|k: int, p: (i32, i32)| adjusted(p, k, green)));
    }
    r
}

/// The clicks that set up the fifteen rows of the NPH tool, row by row, with
/// the green filter or without.
pub fn nph_config_rows(green: bool) -> (r: Vec<Vec<(i32, i32)>>)
    ensures
        rows_view(r@) == config_rows(green),
{
    let mut rows: Vec<Vec<(i32, i32)>> = Vec::new();
    rows.push(adjusted_row(green, (1768, 692), (1735, 1352), (2434, 698), (2470, 932), (1297, 691)));
    rows.push(adjusted_row(green, (1782, 779), (1747, 1452), (2418, 780), (2395, 1025), (1292, 779)));
    rows.push(adjusted_row(green, (1768, 878), (1727, 1545), (2417, 874), (2391, 1123), (1299, 881)));
    rows.push(adjusted_row(green, (1751, 963), (1727, 1626), (2398, 965), (2409, 1202), (1297, 968)));
    rows.push(adjusted_row(green, (1785, 1059), (1729, 1721), (2406, 1065), (2400, 1306), (1292, 1062)));
    rows.push(adjusted_row(green, (1769, 1155), (1779, 1826), (2390, 1157), (2485, 1400), (1298, 1161)));
    rows.push(adjusted_row(green, (1752, 1252), (1791, 1941), (2399, 1245), (2410, 1502), (1289, 1250)));
    rows.push(adjusted_row(green, (1756, 1342), (1741, 1136), (2415, 1345), (2453, 1605), (1288, 1334)));
    rows.push(adjusted_row(green, (1755, 1427), (1723, 1237), (2392, 1433), (2445, 1676), (1297, 1442)));
    rows.push(adjusted_row(green, (1759, 1522), (1770, 1336), (2391, 1532), (2402, 1767), (1299, 1528)));
    rows.push(adjusted_row(green, (1765, 1621), (1756, 1409), (2404, 1622), (2436, 1879), (1289, 1619)));
    rows.push(adjusted_row(green, (1784, 1725), (1765, 1514), (2399, 1702), (2424, 1961), (1292, 1714)));
    rows.push(adjusted_row(green, (1754, 1803), (1810, 1606), (2397, 1801), (2407, 1665), (1291, 1802)));
    rows.push(adjusted_row(green, (1823, 1903), (1767, 1696), (2405, 1897), (2383, 1761), (1288, 1904)));
    rows.push(adjusted_row(green, (1762, 1995), (1757, 1792), (2416, 1995), (2405, 1852), (1291, 1993)));
    proof {
        assert(rows_view(rows@) =~~= config_rows(green));
    }
    rows
}

/// The login buttons of the first `count` rows (of all fifteen where `count`
/// is larger).
pub fn nph_login_clicks(count: usize) -> (r: Vec<(i32, i32)>)
    ensures
        r@ == nph_login_data().take(if count <= 15 { count as int } else { 15 }),
{
    let mut v: Vec<(i32, i32)> = Vec::new();
    v.push((965, 689));
    v.push((1081, 786));
    v.push((1082, 883));
    v.push((1082, 967));
    v.push((1075, 1065));
    v.push((1086, 1159));
    v.push((1082, 1248));
    v.push((1084, 1341));
    v.push((1081, 1432));
    v.push((1081, 1523));
    v.push((1079, 1624));
    v.push((1086, 1709));
    v.push((1087, 1802));
    v.push((1078, 1900));
    v.push((1078, 1989));
    proof {
        assert(v@ =~= nph_login_data());
    }
    let n: usize = if count <= 15 { count } else { 15 };
    v.truncate(n);
    proof {
        assert(v@ =~= nph_login_data().take(n as int));
    }
    v
}

} // verus!
