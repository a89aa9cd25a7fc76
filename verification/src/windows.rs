//! Arranging the LDPlayer windows: which windows the console lists as
//! running, their order by instance index, and the grid they are laid out on.
use vstd::prelude::*;
use crate::text::{
    Sep, chars_of, lines, parse_i32, parse_i32_spec, parse_isize, parse_isize_spec, split,
    split_by, split_lines, string_from,
};

verus! {

/// A running instance's window, as `ldconsole list2` reports it.
#[derive(Clone, Debug)]
pub struct LdWindow {
    pub index: i32,
    pub hwnd: isize,
    pub title: String,
}

pub type LdWindowView = (i32, isize, Seq<char>);

pub open spec fn window_view(w: LdWindow) -> LdWindowView {
    (w.index, w.hwnd, w.title@)
}

pub open spec fn windows_view(v: Seq<LdWindow>) -> Seq<LdWindowView> {
    v.map_values(|w: LdWindow| window_view(w))
}

/// The window on a line of `ldconsole list2` (index, title, handle, ..., running
/// flag): kept where the line has at least five fields, the fifth is `1` and
/// the handle is not 0. An index that does not parse counts as -1, a handle
/// that does not parse as 0.
pub open spec fn window_on_line(line: Seq<char>) -> Option<LdWindowView> {
    let parts = split_by(line, Sep::Char(','));
    if parts.len() >= 5 {
        let index = match parse_i32_spec(parts[0]) {
            Some(v) => v,
            None => -1i32,
        };
        let hwnd = match parse_isize_spec(parts[2]) {
            Some(v) => v,
            None => 0isize,
        };
        if parts[4] == seq!['1'] && hwnd != 0 {
            Some((index, hwnd, parts[1]))
        } else {
            None
        }
    } else {
        None
    }
}

/// The position at which `w` goes into the list `sorted`: after every window
/// whose index is not larger, so that equal indices keep their order.
pub open spec fn insert_position(sorted: Seq<LdWindowView>, w: LdWindowView) -> int
    decreases sorted.len(),
{
    if sorted.len() == 0 {
        0
    } else if sorted.last().0 <= w.0 {
        sorted.len() as int
    } else {
        insert_position(sorted.drop_last(), w)
    }
}

/// The windows ordered by instance index, windows with equal indices in the
/// order they came (what the stable `sort_by_key` gives).
pub open spec fn sorted_by_index(s: Seq<LdWindowView>) -> Seq<LdWindowView>
    decreases s.len(),
{
    if s.len() == 0 {
        s
    } else {
        let prev = sorted_by_index(s.drop_last());
        prev.insert(insert_position(prev, s.last()), s.last())
    }
}

/// The running windows that the console lists, ordered by instance index.
pub open spec fn running_windows(output: Seq<char>) -> Seq<LdWindowView> {
    sorted_by_index(lines(output).filter_map(|l: Seq<char>| window_on_line(l)))
}

pub open spec fn index_sorted(s: Seq<LdWindowView>) -> bool {
    forall|i: int, j: int| 0 <= i <= j < s.len() ==> (#[trigger] s[i]).0 <= (#[trigger] s[j]).0
}

proof fn lemma_insert_position(sorted: Seq<LdWindowView>, w: LdWindowView)
    requires
        index_sorted(sorted),
    ensures
        0 <= insert_position(sorted, w) <= sorted.len(),
        forall|i: int| 0 <= i < insert_position(sorted, w) ==> (#[trigger] sorted[i]).0 <= w.0,
        forall|i: int| insert_position(sorted, w) <= i < sorted.len() ==> (#[trigger] sorted[i]).0 > w.0,
    decreases sorted.len(),
{
    if sorted.len() > 0 && sorted.last().0 > w.0 {
        let d = sorted.drop_last();
        assert(index_sorted(d));
        lemma_insert_position(d, w);
        assert forall|i: int| 0 <= i < insert_position(sorted, w) implies (#[trigger] sorted[i]).0
            <= w.0 by {
            assert(sorted[i] == d[i]);
        }
        assert forall|i: int| insert_position(sorted, w) <= i < sorted.len() implies (
        #[trigger] sorted[i]).0 > w.0 by {
            if i < d.len() {
                assert(sorted[i] == d[i]);
            }
        }
    } else if sorted.len() > 0 {
        assert forall|i: int| 0 <= i < sorted.len() implies (#[trigger] sorted[i]).0 <= w.0 by {
            assert(sorted[i].0 <= sorted[sorted.len() - 1].0);
        }
    }
}

/// The windows of instance `k`.
pub open spec fn of_instance(k: i32) -> spec_fn(LdWindowView) -> bool {
    |w: LdWindowView| w.0 == k
}

proof fn lemma_none_of_instance(s: Seq<LdWindowView>, k: i32)
    requires
        forall|i: int| 0 <= i < s.len() ==> (#[trigger] s[i]).0 != k,
    ensures
        s.filter(of_instance(k)) == Seq::<LdWindowView>::empty(),
{
    s.lemma_all_neg_filter_empty(of_instance(k));
}

/// The order by instance index is sorted, holds the same windows, and keeps
/// the windows of each instance in the order they came.
pub proof fn law_sorted_by_index(s: Seq<LdWindowView>)
    ensures
        index_sorted(sorted_by_index(s)),
        sorted_by_index(s).to_multiset() == s.to_multiset(),
        forall|k: i32| #[trigger] sorted_by_index(s).filter(of_instance(k)) == s.filter(of_instance(k)),
    decreases s.len(),
{
    broadcast use vstd::multiset::group_multiset_axioms;
    broadcast use vstd::seq_lib::group_to_multiset_ensures;

    if s.len() > 0 {
        let d = s.drop_last();
        law_sorted_by_index(d);
        let prev = sorted_by_index(d);
        let w = s.last();
        lemma_insert_position(prev, w);
        let p = insert_position(prev, w);
        let r = prev.insert(p, w);
        assert forall|i: int, j: int| 0 <= i <= j < r.len() implies (#[trigger] r[i]).0 <= (
        #[trigger] r[j]).0 by {
            if i < p && j < p {
                assert(r[i] == prev[i] && r[j] == prev[j]);
            } else if i < p && j == p {
                assert(r[i] == prev[i]);
            } else if i < p {
                assert(r[i] == prev[i] && r[j] == prev[j - 1]);
            } else if i == p && j > p {
                assert(r[j] == prev[j - 1]);
            } else if i > p {
                assert(r[i] == prev[i - 1] && r[j] == prev[j - 1]);
            }
        }
        prev.insert_ensures(p, w);
        assert(prev.insert(p, w) =~= prev.subrange(0, p) + seq![w] + prev.subrange(p, prev.len() as int));
        assert(prev =~= prev.subrange(0, p) + prev.subrange(p, prev.len() as int));
        vstd::seq_lib::lemma_multiset_commutative(prev.subrange(0, p) + seq![w], prev.subrange(p, prev.len() as int));
        vstd::seq_lib::lemma_multiset_commutative(prev.subrange(0, p), seq![w]);
        vstd::seq_lib::lemma_multiset_commutative(prev.subrange(0, p), prev.subrange(p, prev.len() as int));
        assert(s =~= d.push(w));
        let front = prev.subrange(0, p);
        let back = prev.subrange(p, prev.len() as int);
        assert forall|k: i32| #[trigger] r.filter(of_instance(k)) == s.filter(of_instance(k)) by {
            let f = of_instance(k);
            Seq::filter_distributes_over_add(front + seq![w], back, f);
            Seq::filter_distributes_over_add(front, seq![w], f);
            Seq::filter_distributes_over_add(front, back, f);
            d.lemma_filter_push(w, f);
            Seq::<LdWindowView>::empty().lemma_filter_push(w, f);
            assert(seq![w] =~= Seq::<LdWindowView>::empty().push(w));
            reveal(Seq::filter);
            assert(Seq::<LdWindowView>::empty().filter(f) =~= Seq::<LdWindowView>::empty());
            if w.0 == k {
                lemma_none_of_instance(back, k);
            }
            assert(r.filter(f) =~= s.filter(f));
        }
    }
}

fn window_from_line(line: &Vec<char>) -> (r: Option<LdWindow>)
    ensures
        match r {
            Some(w) => window_on_line(line@) == Some(window_view(w)),
            None => window_on_line(line@) is None,
        },
{
    let parts = split(line, Sep::Char(','));
    if parts.len() < 5 {
        return None;
    }
    let index = match parse_i32(&parts[0]) {
        Some(v) => v,
        None => -1,
    };
    let hwnd = match parse_isize(&parts[2]) {
        Some(v) => v,
        None => 0,
    };
    let flag = &parts[4];
    let running = flag.len() == 1 && flag[0] == '1';
    proof {
        if running {
            assert(flag@ =~= seq!['1']);
        }
        if flag@ == seq!['1'] {
            assert(flag@[0] == '1');
        }
    }
    if running && hwnd != 0 {
        Some(LdWindow { index, hwnd, title: string_from(&parts[1]) })
    } else {
        None
    }
}

fn find_insert_position(sorted: &Vec<LdWindow>, index: i32) -> (r: usize)
    requires
        index_sorted(windows_view(sorted@)),
    ensures
        r <= sorted.len(),
        forall|w: LdWindowView| w.0 == index ==> r == insert_position(windows_view(sorted@), w),
{
    let ghost sv = windows_view(sorted@);
    let mut p: usize = sorted.len();
    proof {
        assert(sv.subrange(0, sv.len() as int) == sv);
    }
    while p > 0 && sorted[p - 1].index > index
        invariant
            p <= sorted.len() == sv.len(),
            sv == windows_view(sorted@),
            index_sorted(sv),
            forall|w: LdWindowView|
                w.0 == index ==> insert_position(sv, w) == insert_position(sv.subrange(0, p as int), w),
        decreases p,
    {
        proof {
            assert(sv.subrange(0, p as int).drop_last() == sv.subrange(0, p - 1));
        }
        p -= 1;
    }
    proof {
        assert forall|w: LdWindowView| w.0 == index implies p == insert_position(sv, w) by {
            let t = sv.subrange(0, p as int);
            if p > 0 {
                assert(t.last() == sv[p - 1]);
            }
        }
    }
    p
}

/// The running windows that `ldconsole list2` printed, ordered by instance index.
pub fn parse_running_windows(output: &str) -> (r: Vec<LdWindow>)
    ensures
        windows_view(r@) == running_windows(output@),
{
    let cs = chars_of(output);
    let ls = split_lines(&cs);
    let ghost lv = lines(output@);
    let ghost f = |l: Seq<char>| window_on_line(l);
    let ghost listed = lv.filter_map(f);
    let mut sorted: Vec<LdWindow> = Vec::new();
    let mut k: usize = 0;
    while k < ls.len()
        invariant
            k <= ls.len() == lv.len(),
            lv == lines(output@),
            f == (|l: Seq<char>| window_on_line(l)),
            forall|i: int| 0 <= i < ls.len() ==> #[trigger] ls@[i]@ == lv[i],
            windows_view(sorted@) == sorted_by_index(lv.take(k as int).filter_map(f)),
            index_sorted(windows_view(sorted@)),
        decreases ls.len() - k,
    {
        proof {
            lv.lemma_filter_map_take_succ(f, k as int);
        }
        let ghost before = lv.take(k as int).filter_map(f);
        match window_from_line(&ls[k]) {
            Some(w) => {
                let p = find_insert_position(&sorted, w.index);
                let ghost prev = windows_view(sorted@);
                proof {
                    law_sorted_by_index(before + seq![window_view(w)]);
                    assert((before + seq![window_view(w)]).drop_last() == before);
                }
                sorted.insert(p, w);
                proof {
                    assert(windows_view(sorted@) =~= prev.insert(p as int, window_view(w)));
                }
            },
            None => {
                proof {
                    assert(before + Seq::<LdWindowView>::empty() =~= before);
                }
            },
        }
        k += 1;
    }
    proof {
        assert(lv.take(ls.len() as int) == lv);
    }
    sorted
}

/// Rust's `/` on integers: the quotient rounded toward zero.
pub open spec fn div_trunc(a: int, b: int) -> int {
    if (a >= 0) == (b > 0) {
        if a >= 0 {
            a / b
        } else {
            (-a) / (-b)
        }
    } else {
        if a >= 0 {
            -(a / (-b))
        } else {
            -((-a) / b)
        }
    }
}

/// Rust's `%` on integers: the remainder that goes with `div_trunc`.
pub open spec fn rem_trunc(a: int, b: int) -> int {
    a - b * div_trunc(a, b)
}

proof fn lemma_div_trunc_bounds(a: int, b: int)
    requires
        b != 0,
    ensures
        -(if a >= 0 { a } else { -a }) <= div_trunc(a, b) <= (if a >= 0 { a } else { -a }),
        -(if a >= 0 { a } else { -a }) <= b * div_trunc(a, b) <= (if a >= 0 { a } else { -a }),
{
    let ua = if a >= 0 { a } else { -a };
    let ub = if b >= 0 { b } else { -b };
    let q = ua / ub;
    assert(0 <= q <= ua && 0 <= ub * q <= ua) by (nonlinear_arith)
        requires
            ua >= 0,
            ub >= 1,
            q == ua / ub,
    ;
    assert(div_trunc(a, b) == q || div_trunc(a, b) == -q);
    assert(b * q == ub * q || b * q == -(ub * q)) by (nonlinear_arith)
        requires
            ub == b || ub == -b,
    ;
    assert(b * (-q) == -(b * q)) by (nonlinear_arith);
}

fn div_trunc_exec(a: i64, b: i64) -> (r: i64)
    requires
        b != 0,
        -0x8000_0000 <= a < 0x8000_0000,
        -0x8000_0000 <= b < 0x8000_0000,
    ensures
        r == div_trunc(a as int, b as int),
{
    let ua: i64 = if a >= 0 {
        a
    } else {
        -a
    };
    let ub: i64 = if b >= 0 {
        b
    } else {
        -b
    };
    let q = ua / ub;
    if (a >= 0) == (b > 0) {
        q
    } else {
        -q
    }
}

/// Where the `i`-th window goes: column `i % cols`, row `i / cols`, each cell
/// `width` by `height`.
pub open spec fn cell_of(i: int, cols: int, width: int, height: int) -> (int, int) {
    (rem_trunc(i, cols) * width, div_trunc(i, cols) * height)
}

/// The layout of `n` windows in `cols` columns on a screen `screen_width`
/// wide, each `height` tall: every window's cell, its width being the screen
/// width divided by the columns. `None` where the arithmetic leaves `i32`
/// (dividing by zero columns, or a cell beyond the `i32` range).
pub open spec fn layout(n: nat, screen_width: i32, cols: i32, height: i32) -> Option<Seq<(i32, i32)>> {
    if cols == 0 || (screen_width == i32::MIN && cols == -1) {
        None
    } else {
        let width = div_trunc(screen_width as int, cols as int);
        if forall|i: int|
            0 <= i < n ==> {
                let c = #[trigger] cell_of(i, cols as int, width, height as int);
                i32::MIN <= c.0 <= i32::MAX && i32::MIN <= c.1 <= i32::MAX
            } {
            Some(
                Seq::new(
                    n,
                    |i: int| {
                        let c = cell_of(i, cols as int, width, height as int);
                        (c.0 as i32, c.1 as i32)
                    },
                ),
            )
        } else {
            None
        }
    }
}

/// The cell width and the top-left corner of each of `n` windows laid out in
/// `cols` columns (`None` where the `i32` arithmetic would overflow or
/// divide by zero).
pub fn window_layout(n: usize, screen_width: i32, cols: i32, height: i32) -> (r: Option<(i32, Vec<(i32, i32)>)>)
    requires
        n <= i32::MAX,
    ensures
        match r {
            Some((w, cells)) => layout(n as nat, screen_width, cols, height) == Some(cells@) && w
                == div_trunc(screen_width as int, cols as int),
            None => layout(n as nat, screen_width, cols, height) is None,
        },
{
    if cols == 0 || (screen_width == i32::MIN && cols == -1) {
        return None;
    }
    let width = div_trunc_exec(screen_width as i64, cols as i64);
    let ghost wi = div_trunc(screen_width as int, cols as int);
    assert(i32::MIN <= wi <= i32::MAX) by (nonlinear_arith)
        requires
            wi == div_trunc(screen_width as int, cols as int),
            cols != 0,
            !(screen_width == i32::MIN && cols == -1),
            i32::MIN <= screen_width <= i32::MAX,
            i32::MIN <= cols <= i32::MAX,
    ;
    let mut cells: Vec<(i32, i32)> = Vec::new();
    let mut i: usize = 0;
    while i < n
        invariant
            i <= n <= i32::MAX,
            cols != 0,
            width == wi,
            wi == div_trunc(screen_width as int, cols as int),
            cells.len() == i,
            forall|j: int|
                0 <= j < i ==> {
                    let c = #[trigger] cell_of(j, cols as int, wi, height as int);
                    i32::MIN <= c.0 <= i32::MAX && i32::MIN <= c.1 <= i32::MAX && cells@[j] == (
                    c.0 as i32, c.1 as i32)
                },
        decreases n - i,
    {
        let row = div_trunc_exec(i as i64, cols as i64);
        proof {
            lemma_div_trunc_bounds(i as int, cols as int);
        }
        let col = (i as i64) - (cols as i64) * row;
        assert(-0x1_0000_0000 <= col <= 0x1_0000_0000);
        assert(-0x1_0000_0000 * 0x1_0000_0000 <= (col as int) * (width as int) <= 0x1_0000_0000
            * 0x1_0000_0000) by (nonlinear_arith)
            requires
                -0x1_0000_0000 <= col <= 0x1_0000_0000,
                -0x8000_0000 <= width <= 0x8000_0000,
        ;
        assert(-0x1_0000_0000 * 0x1_0000_0000 <= (row as int) * (height as int) <= 0x1_0000_0000
            * 0x1_0000_0000) by (nonlinear_arith)
            requires
                -0x8000_0000 <= row <= 0x8000_0000,
                -0x8000_0000 <= height <= 0x8000_0000,
        ;
        let x = (col as i128) * (width as i128);
        let y = (row as i128) * (height as i128);
        proof {
            assert(cell_of(i as int, cols as int, wi, height as int) == (x as int, y as int));
        }
        if x < i32::MIN as i128 || x > i32::MAX as i128 || y < i32::MIN as i128 || y > i32::MAX as i128 {
            proof {
                let c = cell_of(i as int, cols as int, wi, height as int);
                assert(!(i32::MIN <= c.0 <= i32::MAX && i32::MIN <= c.1 <= i32::MAX));
            }
            return None;
        }
        cells.push((x as i32, y as i32));
        i += 1;
    }
    proof {
        let s = Seq::new(
            n as nat,
            |j: int| {
                let c = cell_of(j, cols as int, wi, height as int);
                (c.0 as i32, c.1 as i32)
            },
        );
        assert(cells@ =~= s);
    }
    Some((width as i32, cells))
}

proof fn lemma_cell_nonneg(i: int, cols: int, width: int, height: int)
    requires
        0 <= i,
        0 < cols,
    ensures
        div_trunc(i, cols) == i / cols,
        rem_trunc(i, cols) == i % cols,
        cell_of(i, cols, width, height) == ((i % cols) * width, (i / cols) * height),
{
    assert(i == cols * (i / cols) + i % cols) by (nonlinear_arith)
        requires
            0 < cols,
    ;
}

/// On a screen at least as wide as it has columns, every window of the
/// layout lies within the screen's width and below its top edge, and no two
/// windows are placed at the same point.
pub proof fn law_layout_tiles_screen(n: nat, screen_width: i32, cols: i32, height: i32, i: int, j: int)
    requires
        cols <= screen_width,
        0 < cols,
        0 < height,
        0 <= i < n,
        0 <= j < n,
        i != j,
        layout(n, screen_width, cols, height) is Some,
    ensures
        ({
            let cells = layout(n, screen_width, cols, height)->0;
            let w = screen_width / cols;
            &&& 0 <= cells[i].0
            &&& cells[i].0 + w <= screen_width
            &&& 0 <= cells[i].1
            &&& cells[i] != cells[j]
        }),
{
    let c = cols as int;
    let sw = screen_width as int;
    let h = height as int;
    let w = sw / c;
    assert(div_trunc(sw, c) == w);
    assert(1 <= w && w * c <= sw) by (nonlinear_arith)
        requires
            c <= sw,
            0 < c,
            w == sw / c,
    ;
    lemma_cell_nonneg(i, c, w, h);
    lemma_cell_nonneg(j, c, w, h);
    let cells = layout(n, screen_width, cols, height)->0;
    assert(cells[i] == (((i % c) * w) as i32, ((i / c) * h) as i32));
    assert(cells[j] == (((j % c) * w) as i32, ((j / c) * h) as i32));
    assert(cell_of(i, c, w, h) == ((i % c) * w, (i / c) * h));
    assert(cell_of(j, c, w, h) == ((j % c) * w, (j / c) * h));
    assert(0 <= (i % c) * w && (i % c) * w + w <= sw && 0 <= (i / c) * h) by (nonlinear_arith)
        requires
            0 <= i,
            0 < c,
            1 <= w,
            w * c <= sw,
            0 < h,
    ;
    if (i % c) * w == (j % c) * w && (i / c) * h == (j / c) * h {
        assert(i == j) by (nonlinear_arith)
            requires
                0 <= i,
                0 <= j,
                0 < c,
                1 <= w,
                0 < h,
                (i % c) * w == (j % c) * w,
                (i / c) * h == (j / c) * h,
        ;
    }
}

} // verus!
