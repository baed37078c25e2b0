//! Pricing whole codes typed on the numeric keypad.
use vstd::prelude::*;
use super::cost::{
    all_fit, calc_key_costs, cost_table, fit, lemma_cost_at_least_one, lemma_path_cost_prefix,
    lemma_same_key_costs_one, lemma_seq_min_in, min_path_cost, min_path_cost_of, nonneg,
    path_cost, seq_min_at, table_view,
};
use super::layout::{lemma_layout_cells, DirKey, Layout};
use super::paths::{
    candidate_paths, get_paths, lemma_candidates_nonempty, paths_view, vertical_first_path,
};

verus! {

/// Why a list of codes could not be priced.
#[derive(Clone, Copy, PartialEq, Eq, Debug)]
pub enum KeypadError {
    /// The code at this position of the list is not digits followed by `A`.
    InvalidCode { line: usize },
    /// The cost table or the total does not fit in a `u64`.
    Overflow,
}

pub open spec fn is_digit(b: u8) -> bool {
    '0' as u8 <= b <= '9' as u8
}

/// One or more digits, then the terminating `A`.
pub open spec fn valid_code(c: Seq<u8>) -> bool {
    &&& c.len() >= 2
    &&& c.last() == 'A' as u8
    &&& forall|i: int| 0 <= i < c.len() - 1 ==> is_digit(#[trigger] c[i])
}

/// The numeric key that byte `b` of a code names: a digit, else Activate.
pub open spec fn numeric_key(b: u8) -> int {
    if is_digit(b) {
        b - '0' as u8
    } else {
        10
    }
}

/// Numeric key on which the arm rests before the `i`-th key of code `c` is pressed.
pub open spec fn numeric_key_before(c: Seq<u8>, i: int) -> int {
    if i == 0 {
        10
    } else {
        numeric_key(c[i - 1])
    }
}

/// Presses at the bottom to move the numeric arm from key `from` and press key `to`,
/// where `t` is the table of the directional keypad that drives it.
pub open spec fn press_cost(t: Seq<int>, from: int, to: int) -> int {
    min_path_cost(t, candidate_paths(Layout::Numeric, from, to))
}

/// Presses at the bottom to type the whole code `c`, starting from Activate.
pub open spec fn code_presses(t: Seq<int>, c: Seq<u8>) -> int
    decreases c.len(),
{
    if c.len() == 0 {
        0
    } else {
        code_presses(t, c.drop_last()) + press_cost(
            t,
            numeric_key_before(c, c.len() - 1),
            numeric_key(c.last()),
        )
    }
}

/// Decimal value of a run of digits.
pub open spec fn digits_value(d: Seq<u8>) -> int
    decreases d.len(),
{
    if d.len() == 0 {
        0
    } else {
        digits_value(d.drop_last()) * 10 + (d.last() - '0' as u8)
    }
}

/// The number that a code's digits spell.
pub open spec fn code_value(c: Seq<u8>) -> int {
    digits_value(c.drop_last())
}

/// A code's presses times its number.
pub open spec fn complexity(t: Seq<int>, c: Seq<u8>) -> int {
    code_presses(t, c) * code_value(c)
}

pub open spec fn total_complexity(t: Seq<int>, codes: Seq<Seq<u8>>) -> int
    decreases codes.len(),
{
    if codes.len() == 0 {
        0
    } else {
        total_complexity(t, codes.drop_last()) + complexity(t, codes.last())
    }
}

pub open spec fn codes_view(codes: Seq<Vec<u8>>) -> Seq<Seq<u8>> {
    codes.map_values(|c: Vec<u8>| c@)
}

/// Whether `code` is one or more digits followed by `A`.
pub fn is_valid_code(code: &[u8]) -> (r: bool)
    ensures
        r == valid_code(code@),
{
    if code.len() < 2 || code[code.len() - 1] != 65u8 {
        return false;
    }
    let mut i: usize = 0;
    while i < code.len() - 1
        invariant
            code@.len() >= 2,
            i <= code@.len() - 1,
            forall|j: int| 0 <= j < i ==> is_digit(#[trigger] code@[j]),
        decreases code@.len() - 1 - i,
    {
        if !(48u8 <= code[i] && code[i] <= 57u8) {
            return false;
        }
        i = i + 1;
    }
    true
}

/// The numeric key that byte `b` names.
fn numeric_key_of(b: u8) -> (r: usize)
    ensures
        r == numeric_key(b),
        r <= 10,
{
    if 48u8 <= b && b <= 57u8 {
        (b - 48u8) as usize
    } else {
        10
    }
}

proof fn lemma_press_cost_nonneg(t: Seq<int>, from: int, to: int)
    requires
        t.len() == 25,
        nonneg(t),
        0 <= from < 11,
        0 <= to < 11,
    ensures
        press_cost(t, from, to) >= 0,
{
    lemma_candidates_nonempty(Layout::Numeric, from, to);
    let ps = candidate_paths(Layout::Numeric, from, to);
    let costs = ps.map_values(|p: Seq<DirKey>| path_cost(t, p));
    lemma_seq_min_in(costs);
    lemma_path_cost_prefix(t, ps[seq_min_at(costs)], 0);
}

proof fn lemma_code_presses_prefix(t: Seq<int>, c: Seq<u8>, j: int)
    requires
        t.len() == 25,
        nonneg(t),
        0 <= j <= c.len(),
    ensures
        0 <= code_presses(t, c.take(j)) <= code_presses(t, c),
    decreases c.len(),
{
    if c.len() > 0 {
        let n = c.len() - 1;
        lemma_press_cost_nonneg(t, numeric_key_before(c, n), numeric_key(c.last()));
        if j == c.len() {
            assert(c.take(j) =~= c);
            lemma_code_presses_prefix(t, c.drop_last(), j - 1);
            assert(c.drop_last().take(j - 1) =~= c.drop_last());
        } else {
            lemma_code_presses_prefix(t, c.drop_last(), j);
            assert(c.drop_last().take(j) =~= c.take(j));
        }
    }
}

/// Presses at the bottom to type `code` on the numeric keypad, where `table` is the cost
/// table of the directional keypad that drives it; `None` where that does not fit in a `u64`.
/// A byte that is not a digit stands for Activate.
pub fn code_presses_of(code: &[u8], table: &Vec<u64>) -> (r: Option<u64>)
    requires
        table@.len() == 25,
    ensures
        r == fit(code_presses(table_view(table@), code@)),
{
    let ghost t = table_view(table@);
    let mut paths: Vec<Vec<DirKey>> = Vec::new();
    let mut pos: usize = 10;
    let mut sum: u64 = 0;
    let mut i: usize = 0;
    while i < code.len()
        invariant
            i <= code@.len(),
            table@.len() == 25,
            t == table_view(table@),
            pos == numeric_key_before(code@, i as int),
            pos <= 10,
            sum == code_presses(t, code@.take(i as int)),
        decreases code@.len() - i,
    {
        let new_pos = numeric_key_of(code[i]);
        paths.clear();
        get_paths(&mut paths, Layout::Numeric, pos, new_pos);
        proof {
            lemma_candidates_nonempty(Layout::Numeric, pos as int, new_pos as int);
            assert(paths_view(paths@) =~= candidate_paths(Layout::Numeric, pos as int, new_pos as int));
            lemma_press_cost_nonneg(t, pos as int, new_pos as int);
        }
        let ghost pre = code@.take(i as int + 1);
        assert(pre.drop_last() =~= code@.take(i as int));
        assert(numeric_key_before(pre, i as int) == numeric_key_before(code@, i as int));
        let cost = match min_path_cost_of(table, &paths) {
            Some(c) => c,
            None => {
                proof {
                    lemma_code_presses_prefix(t, code@, i + 1);
                }
                return None;
            },
        };
        match sum.checked_add(cost) {
            Some(s) => {
                sum = s;
            },
            None => {
                proof {
                    lemma_code_presses_prefix(t, code@, i + 1);
                }
                return None;
            },
        }
        pos = new_pos;
        i = i + 1;
    }
    assert(code@.take(i as int) =~= code@);
    Some(sum)
}

proof fn lemma_digits_value_prefix(d: Seq<u8>, j: int)
    requires
        0 <= j <= d.len(),
        forall|i: int| 0 <= i < d.len() ==> is_digit(#[trigger] d[i]),
    ensures
        0 <= digits_value(d.take(j)) <= digits_value(d),
    decreases d.len(),
{
    if d.len() > 0 {
        let e = d.drop_last();
        assert forall|i: int| 0 <= i < e.len() implies is_digit(#[trigger] e[i]) by {
            assert(e[i] == d[i]);
        }
        assert(is_digit(d[d.len() - 1]));
        if j == d.len() {
            assert(d.take(j) =~= d);
            lemma_digits_value_prefix(e, j - 1);
            assert(e.take(j - 1) =~= e);
        } else {
            lemma_digits_value_prefix(e, j);
            assert(e.take(j) =~= d.take(j));
        }
    }
}

/// The number that the digits of a valid code spell; `None` where it does not fit in a `u64`.
pub fn code_value_of(code: &[u8]) -> (r: Option<u64>)
    requires
        valid_code(code@),
    ensures
        r == fit(code_value(code@)),
{
    let ghost d = code@.drop_last();
    assert forall|i: int| 0 <= i < d.len() implies is_digit(#[trigger] d[i]) by {
        assert(d[i] == code@[i]);
    }
    let mut value: u64 = 0;
    let mut i: usize = 0;
    while i < code.len() - 1
        invariant
            valid_code(code@),
            d == code@.drop_last(),
            forall|i: int| 0 <= i < d.len() ==> is_digit(#[trigger] d[i]),
            i <= d.len(),
            value == digits_value(d.take(i as int)),
        decreases d.len() - i,
    {
        let digit = (code[i] - 48u8) as u64;
        assert(d.take(i as int + 1).drop_last() =~= d.take(i as int));
        assert(d[i as int] == code@[i as int]);
        proof {
            lemma_digits_value_prefix(d, i + 1);
        }
        match value.checked_mul(10) {
            Some(v) => match v.checked_add(digit) {
                Some(w) => {
                    value = w;
                },
                None => {
                    return None;
                },
            },
            None => {
                assert(digits_value(d.take(i as int + 1)) >= value * 10);
                return None;
            },
        }
        i = i + 1;
    }
    assert(d.take(i as int) =~= d);
    Some(value)
}

proof fn lemma_product_too_big(a: int, b: int)
    requires
        a > u64::MAX,
        b >= 1,
    ensures
        a * b > u64::MAX,
{
    assert(a * b >= a * 1) by (nonlinear_arith)
        requires
            a > 0,
            b >= 1,
    ;
}

/// Presses of a valid code times its number, where `table` is the cost table of the
/// directional keypad that drives the numeric one; `None` where that does not fit in a `u64`.
pub fn code_complexity(code: &[u8], table: &Vec<u64>) -> (r: Option<u64>)
    requires
        valid_code(code@),
        table@.len() == 25,
    ensures
        r == fit(complexity(table_view(table@), code@)),
{
    let ghost t = table_view(table@);
    let ghost p = code_presses(t, code@);
    let ghost v = code_value(code@);
    proof {
        lemma_code_presses_prefix(t, code@, 0);
        lemma_digits_value_prefix(code@.drop_last(), 0);
        assert forall|i: int| 0 <= i < code@.drop_last().len() implies is_digit(
            #[trigger] code@.drop_last()[i],
        ) by {
            assert(code@.drop_last()[i] == code@[i]);
        }
    }
    let value = code_value_of(code);
    if value == Some(0u64) {
        assert(v == 0);
        assert(p * v == 0) by (nonlinear_arith)
            requires
                v == 0,
        ;
        return Some(0);
    }
    let presses = code_presses_of(code, table);
    if presses == Some(0u64) {
        assert(p == 0);
        assert(p * v == 0) by (nonlinear_arith)
            requires
                p == 0,
        ;
        return Some(0);
    }
    match (presses, value) {
        (Some(a), Some(b)) => a.checked_mul(b),
        (None, _) => {
            proof {
                lemma_product_too_big(p, v);
            }
            None
        },
        (_, None) => {
            proof {
                lemma_product_too_big(v, p);
                assert(v * p == p * v) by (nonlinear_arith);
            }
            None
        },
    }
}

proof fn lemma_complexity_nonneg(t: Seq<int>, c: Seq<u8>)
    requires
        t.len() == 25,
        nonneg(t),
        valid_code(c),
    ensures
        complexity(t, c) >= 0,
{
    lemma_code_presses_prefix(t, c, 0);
    let d = c.drop_last();
    assert forall|i: int| 0 <= i < d.len() implies is_digit(#[trigger] d[i]) by {
        assert(d[i] == c[i]);
    }
    lemma_digits_value_prefix(d, 0);
    let a = code_presses(t, c);
    let b = code_value(c);
    assert(a * b >= 0) by (nonlinear_arith)
        requires
            a >= 0,
            b >= 0,
    ;
}

proof fn lemma_total_prefix(t: Seq<int>, codes: Seq<Seq<u8>>, j: int)
    requires
        t.len() == 25,
        nonneg(t),
        forall|i: int| 0 <= i < codes.len() ==> valid_code(#[trigger] codes[i]),
        0 <= j <= codes.len(),
    ensures
        0 <= total_complexity(t, codes.take(j)) <= total_complexity(t, codes),
    decreases codes.len(),
{
    if codes.len() > 0 {
        let e = codes.drop_last();
        assert forall|i: int| 0 <= i < e.len() implies valid_code(#[trigger] e[i]) by {
            assert(e[i] == codes[i]);
        }
        lemma_complexity_nonneg(t, codes[codes.len() - 1]);
        if j == codes.len() {
            assert(codes.take(j) =~= codes);
            lemma_total_prefix(t, e, j - 1);
            assert(e.take(j - 1) =~= e);
        } else {
            lemma_total_prefix(t, e, j);
            assert(e.take(j) =~= codes.take(j));
        }
    }
}

/// Sum over `codes` of each code's presses times its number, through a chain of `keypads`
/// directional keypads. Fails on the first code that is not digits followed by `A`, else
/// with `Overflow` where the chain's cost table or the sum does not fit in a `u64`.
pub fn solve(codes: &Vec<Vec<u8>>, keypads: usize) -> (r: Result<u64, KeypadError>)
    requires
        keypads >= 1,
    ensures
        ({
            let cv = codes_view(codes@);
            let t = cost_table((keypads - 1) as nat);
            let all_valid = forall|i: int| 0 <= i < cv.len() ==> valid_code(#[trigger] cv[i]);
            &&& r matches Err(KeypadError::InvalidCode { line }) ==> line < cv.len() && !valid_code(
                cv[line as int],
            ) && forall|j: int| 0 <= j < line ==> valid_code(#[trigger] cv[j])
            &&& r matches Err(KeypadError::Overflow) ==> all_valid && !(all_fit(t)
                && total_complexity(t, cv) <= u64::MAX)
            &&& r matches Ok(n) ==> all_valid && all_fit(t) && n == total_complexity(t, cv)
        }),
{
    let ghost cv = codes_view(codes@);
    let mut i: usize = 0;
    while i < codes.len()
        invariant
            i <= codes@.len(),
            cv == codes_view(codes@),
            forall|j: int| 0 <= j < i ==> valid_code(#[trigger] cv[j]),
        decreases codes@.len() - i,
    {
        if !is_valid_code(codes[i].as_slice()) {
            return Err(KeypadError::InvalidCode { line: i });
        }
        i = i + 1;
    }
    let table = match calc_key_costs(keypads) {
        Some(t) => t,
        None => {
            return Err(KeypadError::Overflow);
        },
    };
    let ghost t = table_view(table@);
    proof {
        lemma_cost_at_least_one((keypads - 1) as nat);
        assert(table@.len() == t.len());
    }
    let mut total: u64 = 0;
    let mut i: usize = 0;
    while i < codes.len()
        invariant
            i <= codes@.len(),
            cv == codes_view(codes@),
            forall|j: int| 0 <= j < cv.len() ==> valid_code(#[trigger] cv[j]),
            table@.len() == 25,
            t == table_view(table@),
            t == cost_table((keypads - 1) as nat),
            all_fit(t),
            total == total_complexity(t, cv.take(i as int)),
        decreases codes@.len() - i,
    {
        assert(cv.take(i as int + 1).drop_last() =~= cv.take(i as int));
        assert(cv[i as int] == codes@[i as int]@);
        proof {
            lemma_total_prefix(t, cv, i + 1);
            lemma_complexity_nonneg(t, cv[i as int]);
        }
        let c = match code_complexity(codes[i].as_slice(), &table) {
            Some(c) => c,
            None => {
                return Err(KeypadError::Overflow);
            },
        };
        match total.checked_add(c) {
            Some(s) => {
                total = s;
            },
            None => {
                return Err(KeypadError::Overflow);
            },
        }
        i = i + 1;
    }
    assert(cv.take(i as int) =~= cv);
    Ok(total)
}

/// Pressing the numeric key that the arm already rests on costs exactly one press at the
/// bottom of a chain of any depth.
pub proof fn lemma_numeric_same_key_costs_one(depth: nat, k: int)
    requires
        0 <= k < 11,
    ensures
        press_cost(cost_table(depth), k, k) == 1,
{
    let t = cost_table(depth);
    let only: Seq<DirKey> = seq![DirKey::Activate];
    lemma_layout_cells(Layout::Numeric, k);
    assert(vertical_first_path(Layout::Numeric.pos(k), Layout::Numeric.pos(k)) =~= only);
    assert(candidate_paths(Layout::Numeric, k, k) =~= seq![only]);
    assert(only.drop_last() =~= Seq::<DirKey>::empty());
    assert(path_cost(t, Seq::<DirKey>::empty()) == 0);
    assert(path_cost(t, only) == t[6]);
    assert(candidate_paths(Layout::Numeric, k, k).map_values(|p: Seq<DirKey>| path_cost(t, p))
        =~= seq![t[6]]);
    lemma_same_key_costs_one(depth, 1);
}

} // verus!
