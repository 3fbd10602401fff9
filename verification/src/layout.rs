//! Pane layouts and the parser of the layout argument.
//!
//! A layout is a list of columns, each with its number of rows (panes).
//! The argument takes one of three forms, tried in order:
//! a comma-separated list of row counts (`1,3`), a grid `CxR`
//! (`2x3`: two columns of three rows) or a number of panes (`4`),
//! which is arranged as a near-square grid.

use vstd::prelude::*;

use crate::number::{parse_u32_in, parse_u32_spec};
use crate::text::{
    chars_of, contains_char, find_char_in, lemma_find_char, lemma_split_on_append,
    lemma_split_on_no_sep, lemma_split_on_nonempty,
    split_on, split_once, split_ranges, surround,
};

verus! {

/// Pane layout: `columns[i]` is the number of rows in column `i`.
#[derive(Debug, PartialEq)]
pub struct Layout {
    pub columns: Vec<u32>,
}

impl View for Layout {
    type V = Seq<u32>;

    open spec fn view(&self) -> Seq<u32> {
        self.columns@
    }
}

/// The sum of the entries of `s`.
pub open spec fn sum_of(s: Seq<u32>) -> int
    decreases s.len(),
{
    if s.len() == 0 {
        0
    } else {
        sum_of(s.drop_last()) + s.last()
    }
}

/// A layout the splitter can carry out: at least one column, every column with
/// at least one row, and from 2 to `u32::MAX` panes in all.
pub open spec fn valid_layout(cols: Seq<u32>) -> bool {
    &&& cols.len() >= 1
    &&& forall|i: int| 0 <= i < cols.len() ==> #[trigger] cols[i] >= 1
    &&& 2 <= sum_of(cols) <= u32::MAX
}

/// Every column has the same number of rows.
pub open spec fn uniform(cols: Seq<u32>) -> bool {
    forall|i: int, j: int| 0 <= i < cols.len() && 0 <= j < cols.len() ==> cols[i] == cols[j]
}

/// `d` divides `n`.
pub open spec fn divides(d: int, n: int) -> bool {
    n % d == 0
}

/// `c` is the least divisor of `n` whose square is at least `n`, that is the
/// least divisor of `n` not below the square root of `n`.
pub open spec fn is_near_square_cols(n: int, c: int) -> bool {
    &&& 1 <= c
    &&& divides(c, n)
    &&& c * c >= n
    &&& forall|d: int| 1 <= d < c && #[trigger] divides(d, n) ==> d * d < n
}

/// The number of columns of the near-square grid of `n` panes.
pub open spec fn near_square_cols(n: int) -> int {
    choose|c: int| is_near_square_cols(n, c)
}

/// `n` columns of `r` rows each.
pub open spec fn grid(c: nat, r: u32) -> Seq<u32> {
    Seq::new(c, |_i: int| r)
}

/// The ways a comma-separated column fails.
pub enum ColumnFault {
    /// The column is not a number.
    Malformed,
    /// The column asks for zero rows.
    ZeroRows,
}

/// Reads the comma-separated columns in order; the first bad one decides.
pub open spec fn custom_columns(parts: Seq<Seq<char>>) -> Result<Seq<u32>, ColumnFault>
    decreases parts.len(),
{
    if parts.len() == 0 {
        Ok(Seq::empty())
    } else {
        match custom_columns(parts.drop_last()) {
            Err(f) => Err(f),
            Ok(cols) => match parse_u32_spec(parts.last()) {
                None => Err(ColumnFault::Malformed),
                Some(r) => if r == 0 {
                    Err(ColumnFault::ZeroRows)
                } else {
                    Ok(cols.push(r))
                },
            },
        }
    }
}

/// Error: fewer than two panes in all.
pub open spec fn too_few_panes_msg() -> Seq<char> {
    "Total panes must be >= 2"@
}

/// Error: more panes than a `u32` counts.
pub open spec fn too_many_panes_msg() -> Seq<char> {
    "Total panes must be <= 4294967295"@
}

/// The checks on the total that end every successful parse.
pub open spec fn checked_total(cols: Seq<u32>) -> Result<Seq<u32>, Seq<char>> {
    if sum_of(cols) < 2 {
        Err(too_few_panes_msg())
    } else if sum_of(cols) > u32::MAX {
        Err(too_many_panes_msg())
    } else {
        Ok(cols)
    }
}

/// A comma-separated layout such as `1,3`.
pub open spec fn custom_layout_spec(arg: Seq<char>) -> Result<Seq<u32>, Seq<char>> {
    match custom_columns(split_on(arg, ',')) {
        Err(ColumnFault::Malformed) => Err("Invalid custom layout: '"@ + arg + "'"@),
        Err(ColumnFault::ZeroRows) => Err(
            "Each column must have >= 1 row, got 0 in: '"@ + arg + "'"@,
        ),
        Ok(cols) => checked_total(cols),
    }
}

/// A grid layout `CxR`: `C` columns of `R` rows.
pub open spec fn grid_layout_spec(arg: Seq<char>) -> Result<Seq<u32>, Seq<char>> {
    let invalid = "Invalid grid format: '"@ + arg + "'"@;
    match split_once(arg, 'x') {
        None => Err(invalid),
        Some((cs, rs)) => match (parse_u32_spec(cs), parse_u32_spec(rs)) {
            (Some(c), Some(r)) => if c == 0 || r == 0 {
                Err("Grid dimensions must be >= 1, got: '"@ + arg + "'"@)
            } else {
                checked_total(grid(c as nat, r))
            },
            _ => Err(invalid),
        },
    }
}

/// A number of panes `N`, arranged as `near_square_cols(N)` columns of equal height.
pub open spec fn numeric_layout_spec(arg: Seq<char>) -> Result<Seq<u32>, Seq<char>> {
    match parse_u32_spec(arg) {
        None => Err(
            "Invalid argument: '"@ + arg + "'. Expected a number or grid spec (e.g. 4, 2x3)"@,
        ),
        Some(n) => if n < 2 {
            Err("Number of panes must be >= 2"@)
        } else {
            let c = near_square_cols(n as int);
            Ok(grid(c as nat, (n / (c as u32)) as u32))
        },
    }
}

/// The layout that an argument describes, or the error it is answered with.
pub open spec fn layout_spec(arg: Seq<char>) -> Result<Seq<u32>, Seq<char>> {
    if arg.contains(',') {
        custom_layout_spec(arg)
    } else if arg.contains('x') {
        grid_layout_spec(arg)
    } else {
        numeric_layout_spec(arg)
    }
}

/// The parse result as plain values.
pub open spec fn layout_result_view(r: Result<Layout, String>) -> Result<Seq<u32>, Seq<char>> {
    match r {
        Ok(l) => Ok(l@),
        Err(e) => Err(e@),
    }
}

/// The sum of a sequence of counts is never negative and grows with the prefix.
pub proof fn lemma_sum_of_prefix(s: Seq<u32>, k: int)
    requires
        0 <= k <= s.len(),
    ensures
        0 <= sum_of(s.take(k)) <= sum_of(s),
    decreases s.len() - k,
{
    if k < s.len() {
        lemma_sum_of_prefix(s, k + 1);
        assert(s.take(k + 1).drop_last() =~= s.take(k));
        lemma_sum_of_nonneg(s.take(k));
    } else {
        assert(s.take(k) =~= s);
        lemma_sum_of_nonneg(s);
    }
}

/// The sum of a sequence of counts is never negative.
pub proof fn lemma_sum_of_nonneg(s: Seq<u32>)
    ensures
        sum_of(s) >= 0,
    decreases s.len(),
{
    if s.len() > 0 {
        lemma_sum_of_nonneg(s.drop_last());
    }
}

/// `c` columns of `r` rows hold `c * r` panes.
pub proof fn lemma_sum_of_grid(c: nat, r: u32)
    ensures
        sum_of(grid(c, r)) == c * r,
    decreases c,
{
    if c > 0 {
        lemma_sum_of_grid((c - 1) as nat, r);
        assert(grid(c, r).drop_last() =~= grid((c - 1) as nat, r));
        assert(grid(c, r).last() == r);
        assert(sum_of(grid(c, r)) == sum_of(grid((c - 1) as nat, r)) + r);
        assert(c * r == (c - 1) * r + r) by (nonlinear_arith)
            requires
                c >= 1,
        ;
    } else {
        assert(grid(c, r).len() == 0);
    }
}

/// A sum of counts that are all at least 1 is at least the number of counts.
pub proof fn lemma_sum_of_positive(s: Seq<u32>)
    requires
        forall|i: int| 0 <= i < s.len() ==> #[trigger] s[i] >= 1,
    ensures
        sum_of(s) >= s.len(),
    decreases s.len(),
{
    if s.len() > 0 {
        lemma_sum_of_positive(s.drop_last());
    }
}

/// There is only one near-square column count.
pub proof fn lemma_near_square_cols_unique(n: int, c: int)
    requires
        is_near_square_cols(n, c),
    ensures
        near_square_cols(n) == c,
{
    let c2 = near_square_cols(n);
    assert(is_near_square_cols(n, c2));
    if c2 < c {
        assert(divides(c2, n));
    } else if c < c2 {
        assert(divides(c, n));
    }
}

/// Once a column fails, the whole comma-separated list fails the same way.
proof fn lemma_custom_columns_err(parts: Seq<Seq<char>>, k: int, f: ColumnFault)
    requires
        0 <= k <= parts.len(),
        custom_columns(parts.take(k)) == Err::<Seq<u32>, ColumnFault>(f),
    ensures
        custom_columns(parts) == Err::<Seq<u32>, ColumnFault>(f),
    decreases parts.len() - k,
{
    if k < parts.len() {
        assert(parts.take(k + 1).drop_last() =~= parts.take(k));
        lemma_custom_columns_err(parts, k + 1, f);
    } else {
        assert(parts.take(k) =~= parts);
    }
}

/// Every column of a successful comma-separated list has at least one row.
proof fn lemma_custom_columns_positive(parts: Seq<Seq<char>>)
    ensures
        custom_columns(parts) matches Ok(cols) ==> cols.len() == parts.len() && forall|i: int|
            0 <= i < cols.len() ==> #[trigger] cols[i] >= 1,
    decreases parts.len(),
{
    if parts.len() > 0 {
        lemma_custom_columns_positive(parts.drop_last());
    }
}

impl Layout {
    /// Total number of columns.
    pub fn num_cols(&self) -> (n: usize)
        ensures
            n == self@.len(),
    {
        self.columns.len()
    }

    /// Total number of panes.
    pub fn total_panes(&self) -> (t: u32)
        requires
            sum_of(self@) <= u32::MAX,
        ensures
            t == sum_of(self@),
    {
        let mut t: u32 = 0;
        let mut i: usize = 0;
        while i < self.columns.len()
            invariant
                i <= self@.len(),
                t == sum_of(self@.take(i as int)),
                sum_of(self@) <= u32::MAX,
            decreases self@.len() - i,
        {
            proof {
                lemma_sum_of_prefix(self@, i + 1);
                assert(self@.take(i + 1).drop_last() =~= self@.take(i as int));
            }
            t = t + self.columns[i];
            i = i + 1;
        }
        assert(self@.take(i as int) =~= self@);
        t
    }

    /// Whether every column has the same number of rows.
    pub fn is_uniform(&self) -> (b: bool)
        ensures
            b == uniform(self@),
    {
        let n = self.columns.len();
        if n == 0 {
            return true;
        }
        let first = self.columns[0];
        let mut i: usize = 1;
        while i < n
            invariant
                n == self@.len(),
                1 <= i <= n,
                first == self@[0],
                forall|j: int| 0 <= j < i ==> self@[j] == first,
            decreases n - i,
        {
            if self.columns[i] != first {
                return false;
            }
            i = i + 1;
        }
        true
    }
}

/// The least integer whose square is at least `n`.
fn ceil_sqrt(n: u32) -> (c: u32)
    ensures
        c as int * c as int >= n,
        c == 0 || (c - 1) * (c - 1) < n,
        c <= 65536,
{
    let mut c: u64 = 0;
    while c * c < n as u64
        invariant
            c <= 65536,
            c * c <= 0x1_0000_0000,
            c == 0 || (c - 1) * (c - 1) < n,
        decreases 65536 - c,
    {
        assert(c < 65536) by (nonlinear_arith)
            requires
                c * c < n,
                n <= u32::MAX,
        ;
        c = c + 1;
        assert(c * c <= 0x1_0000_0000) by (nonlinear_arith)
            requires
                c <= 65536,
        ;
    }
    c as u32
}

/// Parses a layout argument string into a `Layout`.
///
/// Accepts three formats (tried in order):
/// 1. Comma-separated custom layout (e.g. "1,3")
/// 2. Grid spec with 'x' (e.g. "2x3")
/// 3. Plain number (e.g. "4")
pub fn parse_layout(arg: &str) -> (r: Result<Layout, String>)
    ensures
        layout_result_view(r) == layout_spec(arg@),
        r matches Ok(l) ==> valid_layout(l@),
{
    let chars = chars_of(arg);
    let n = chars.len();
    if contains_char(&chars, 0, n, ',') {
        assert(chars@.subrange(0, n as int) =~= arg@);
        return parse_custom_layout(arg, &chars);
    }
    if contains_char(&chars, 0, n, 'x') {
        assert(chars@.subrange(0, n as int) =~= arg@);
        return parse_grid_spec(arg, &chars);
    }
    assert(chars@.subrange(0, n as int) =~= arg@);
    parse_numeric(arg, &chars)
}

/// Parses comma-separated custom layout (e.g. "1,3" -> columns: [1, 3]).
fn parse_custom_layout(arg: &str, chars: &Vec<char>) -> (r: Result<Layout, String>)
    requires
        chars@ == arg@,
    ensures
        layout_result_view(r) == custom_layout_spec(arg@),
        r matches Ok(l) ==> valid_layout(l@),
{
    let n = chars.len();
    let parts = split_ranges(chars, 0, n, ',');
    let ghost pieces = split_on(chars@.subrange(0, n as int), ',');
    assert(chars@.subrange(0, n as int) =~= arg@);
    let mut columns: Vec<u32> = Vec::with_capacity(parts.len());
    let mut total: u64 = 0;
    let mut k: usize = 0;
    while k < parts.len()
        invariant
            pieces == split_on(arg@, ','),
            parts@.len() == pieces.len(),
            forall|j: int|
                0 <= j < parts@.len() ==> 0 <= (#[trigger] parts@[j]).0 <= parts@[j].1 <= n
                    && chars@.subrange(parts@[j].0 as int, parts@[j].1 as int) == pieces[j],
            n == chars@.len(),
            chars@ == arg@,
            k <= parts@.len(),
            custom_columns(pieces.take(k as int)) == Ok::<Seq<u32>, ColumnFault>(columns@),
            total as int == if sum_of(columns@) > u32::MAX {
                u32::MAX + 1
            } else {
                sum_of(columns@)
            },
        decreases parts@.len() - k,
    {
        let (a, b) = parts[k];
        let rows = parse_u32_in(chars, a, b);
        proof {
            assert(pieces.take(k + 1).drop_last() =~= pieces.take(k as int));
            assert(pieces.take(k + 1).last() == pieces[k as int]);
        }
        match rows {
            None => {
                proof {
                    lemma_custom_columns_err(pieces, k + 1, ColumnFault::Malformed);
                }
                return Err(surround("Invalid custom layout: '", arg, "'"));
            },
            Some(r) => {
                if r == 0 {
                    proof {
                        lemma_custom_columns_err(pieces, k + 1, ColumnFault::ZeroRows);
                    }
                    return Err(surround("Each column must have >= 1 row, got 0 in: '", arg, "'"));
                }
                proof {
                    assert(columns@.push(r).drop_last() =~= columns@);
                    lemma_sum_of_nonneg(columns@);
                }
                columns.push(r);
                total = if total + (r as u64) > u32::MAX as u64 {
                    u32::MAX as u64 + 1
                } else {
                    total + (r as u64)
                };
            },
        }
        k = k + 1;
    }
    assert(pieces.take(k as int) =~= pieces);
    proof {
        lemma_custom_columns_positive(pieces);
    }
    if total < 2 {
        return Err(String::from_str("Total panes must be >= 2"));
    }
    if total > u32::MAX as u64 {
        return Err(String::from_str("Total panes must be <= 4294967295"));
    }
    Ok(Layout { columns })
}

/// Parses grid spec (e.g. "2x3" -> 2 columns, each with 3 rows).
fn parse_grid_spec(arg: &str, chars: &Vec<char>) -> (r: Result<Layout, String>)
    requires
        chars@ == arg@,
    ensures
        layout_result_view(r) == grid_layout_spec(arg@),
        r matches Ok(l) ==> valid_layout(l@),
{
    let n = chars.len();
    assert(chars@.subrange(0, n as int) =~= arg@);
    let pos = match find_char_in(chars, 0, n, 'x') {
        Some(p) => p,
        None => {
            return Err(surround("Invalid grid format: '", arg, "'"));
        },
    };
    assert(chars@.subrange(0, pos as int) =~= arg@.take(pos as int));
    assert(chars@.subrange(pos + 1, n as int) =~= arg@.skip(pos + 1));
    let cols = match parse_u32_in(chars, 0, pos) {
        Some(c) => c,
        None => {
            return Err(surround("Invalid grid format: '", arg, "'"));
        },
    };
    let rows = match parse_u32_in(chars, pos + 1, n) {
        Some(r) => r,
        None => {
            return Err(surround("Invalid grid format: '", arg, "'"));
        },
    };
    if cols == 0 || rows == 0 {
        return Err(surround("Grid dimensions must be >= 1, got: '", arg, "'"));
    }
    proof {
        lemma_sum_of_grid(cols as nat, rows);
    }
    assert(cols as u64 * rows as u64 <= u32::MAX as u64 * u32::MAX as u64) by (nonlinear_arith)
        requires
            cols <= u32::MAX,
            rows <= u32::MAX,
    ;
    let total = cols as u64 * rows as u64;
    if total < 2 {
        return Err(String::from_str("Total panes must be >= 2"));
    }
    if total > u32::MAX as u64 {
        return Err(String::from_str("Total panes must be <= 4294967295"));
    }
    let columns = vec![rows; cols as usize];
    assert(columns@ =~= grid(cols as nat, rows));
    Ok(Layout { columns })
}

/// Parses a plain number and factorizes into near-square grid.
fn parse_numeric(arg: &str, chars: &Vec<char>) -> (r: Result<Layout, String>)
    requires
        chars@ == arg@,
    ensures
        layout_result_view(r) == numeric_layout_spec(arg@),
        r matches Ok(l) ==> valid_layout(l@),
{
    let len = chars.len();
    assert(chars@.subrange(0, len as int) =~= arg@);
    let n = match parse_u32_in(chars, 0, len) {
        Some(n) => n,
        None => {
            return Err(
                surround(
                    "Invalid argument: '",
                    arg,
                    "'. Expected a number or grid spec (e.g. 4, 2x3)",
                ),
            );
        },
    };
    if n < 2 {
        return Err(String::from_str("Number of panes must be >= 2"));
    }
    // Factorize into near-square: pick the factor pair closest to sqrt(N)
    let start = ceil_sqrt(n);
    assert(2 <= start <= n) by (nonlinear_arith)
        requires
            start as int * start as int >= n,
            start == 0 || (start - 1) * (start - 1) < n,
            n >= 2,
    ;
    assert forall|d: int| 1 <= d < start && #[trigger] divides(d, n as int) implies d * d < n by {
        assert(d * d <= (start - 1) * (start - 1)) by (nonlinear_arith)
            requires
                1 <= d <= start - 1,
        ;
    }
    let mut cols = start;
    while n % cols != 0
        invariant
            2 <= start <= cols <= n,
            cols as int * cols as int >= n,
            forall|d: int| 1 <= d < cols && #[trigger] divides(d, n as int) ==> d * d < n,
        decreases n - cols,
    {
        assert(!divides(cols as int, n as int));
        assert(divides(n as int, n as int)) by (nonlinear_arith)
            requires
                n >= 2,
        ;
        assert((cols + 1) * (cols + 1) >= cols * cols) by (nonlinear_arith)
            requires
                cols >= 0,
        ;
        cols = cols + 1;
    }
    let rows = n / cols;
    assert(is_near_square_cols(n as int, cols as int));
    proof {
        lemma_near_square_cols_unique(n as int, cols as int);
    }
    assert(cols >= rows && rows >= 1 && cols as int * rows as int == n) by (nonlinear_arith)
        requires
            cols as int * cols as int >= n,
            n % cols == 0,
            rows == n / cols,
            2 <= cols <= n,
    ;
    // Ensure cols >= rows
    let (cols, rows) = if cols >= rows {
        (cols, rows)
    } else {
        (rows, cols)
    };
    let columns = vec![rows; cols as usize];
    assert(columns@ =~= grid(cols as nat, rows));
    proof {
        lemma_sum_of_grid(cols as nat, rows);
    }
    Ok(Layout { columns })
}

/// `c` copies of `piece` separated by commas.
pub open spec fn comma_joined(piece: Seq<char>, c: nat) -> Seq<char>
    decreases c,
{
    if c <= 1 {
        piece
    } else {
        comma_joined(piece, (c - 1) as nat) + seq![','] + piece
    }
}

/// A number of panes has a near-square grid: some column count meets
/// `is_near_square_cols`.
pub proof fn lemma_near_square_cols_exists(n: int, c: int)
    requires
        2 <= n,
        1 <= c <= n,
        forall|d: int| 1 <= d < c && #[trigger] divides(d, n) ==> d * d < n,
    ensures
        is_near_square_cols(n, near_square_cols(n)),
    decreases n - c,
{
    assert(n * n >= n) by (nonlinear_arith)
        requires
            n >= 2,
    ;
    assert(divides(n, n)) by (nonlinear_arith)
        requires
            n >= 2,
    ;
    if divides(c, n) && c * c >= n {
        assert(is_near_square_cols(n, c));
    } else {
        lemma_near_square_cols_exists(n, c + 1);
    }
}

/// Numeric layouts: `N` panes become a grid of exactly `N` panes whose columns
/// all have the same height, with at least as many columns as rows, and the
/// number of columns is the least divisor of `N` not below the square root of `N`.
pub proof fn numeric_layout_law(arg: Seq<char>, n: u32)
    requires
        parse_u32_spec(arg) == Some(n),
        n >= 2,
    ensures
        numeric_layout_spec(arg) matches Ok(cols) && {
            &&& sum_of(cols) == n
            &&& uniform(cols)
            &&& cols.len() >= cols[0]
            &&& is_near_square_cols(n as int, cols.len() as int)
        },
{
    lemma_near_square_cols_exists(n as int, 1);
    let c = near_square_cols(n as int);
    assert(c <= n && (n / (c as u32)) as int == n as int / c && c >= n as int / c && n as int
        / c >= 1 && c * (n as int / c) == n) by (nonlinear_arith)
        requires
            is_near_square_cols(n as int, c),
            n >= 2,
    ;
    let cols = grid(c as nat, (n / (c as u32)) as u32);
    lemma_sum_of_grid(c as nat, (n / (c as u32)) as u32);
}

/// Prime numbers of panes are laid out as one row of single-pane columns.
pub proof fn prime_layout_law(arg: Seq<char>, n: u32)
    requires
        parse_u32_spec(arg) == Some(n),
        n >= 2,
        forall|d: int| 1 < d < n ==> !#[trigger] divides(d, n as int),
    ensures
        numeric_layout_spec(arg) == Ok::<Seq<u32>, Seq<char>>(grid(n as nat, 1)),
{
    numeric_layout_law(arg, n);
    let c = near_square_cols(n as int);
    assert(2 <= c <= n) by (nonlinear_arith)
        requires
            c >= 1,
            c * c >= n,
            (n as int) % c == 0,
            n >= 2,
    ;
    assert(divides(c, n as int));
    assert(c == n);
    assert((n / (c as u32)) == 1) by (nonlinear_arith)
        requires
            c == n,
            n >= 2,
    ;
}

/// A square number `k * k` of panes is laid out as `k` columns of `k` rows.
pub proof fn square_layout_law(arg: Seq<char>, n: u32, k: u32)
    requires
        parse_u32_spec(arg) == Some(n),
        n >= 2,
        k as int * k as int == n,
    ensures
        numeric_layout_spec(arg) == Ok::<Seq<u32>, Seq<char>>(grid(k as nat, k)),
{
    assert(k >= 1 && divides(k as int, n as int) && (n / k) == k) by (nonlinear_arith)
        requires
            k as int * k as int == n,
            n >= 2,
    ;
    assert forall|d: int| 1 <= d < k && #[trigger] divides(d, n as int) implies d * d < n by {
        assert(d * d < k * k) by (nonlinear_arith)
            requires
                1 <= d < k,
        ;
    }
    assert(is_near_square_cols(n as int, k as int));
    lemma_near_square_cols_unique(n as int, k as int);
}

/// Grid and numeric layouts give every column the same number of rows.
pub proof fn uniform_layout_law(arg: Seq<char>)
    requires
        !arg.contains(','),
    ensures
        layout_spec(arg) matches Ok(cols) ==> uniform(cols),
{
}


/// A numeral accepted by `parse_u32_spec` holds only digits and a leading `+`.
pub proof fn lemma_numeral_chars(s: Seq<char>, c: char)
    requires
        parse_u32_spec(s) is Some,
        !('0' <= c && c <= '9'),
        c != '+',
    ensures
        !s.contains(c),
{
    if s.contains(c) {
        let j = choose|j: int| 0 <= j < s.len() && s[j] == c;
        if s.len() > 0 && s[0] == '+' {
            assert(s.drop_first()[j - 1] == c);
        } else {
            assert(s[j] == c);
        }
    }
}

/// Comma-joined copies of one row count read as that many equal columns.
proof fn lemma_custom_columns_repeated(piece: Seq<char>, r: u32, c: nat)
    requires
        parse_u32_spec(piece) == Some(r),
        r >= 1,
        c >= 1,
    ensures
        split_on(comma_joined(piece, c), ',') == Seq::new(c, |_i: int| piece),
        custom_columns(Seq::new(c, |_i: int| piece)) == Ok::<Seq<u32>, ColumnFault>(grid(c, r)),
    decreases c,
{
    lemma_numeral_chars(piece, ',');
    if c == 1 {
        assert(piece =~= Seq::<char>::empty() + seq![','] + piece ==> true);
        reveal_with_fuel(split_on, 1);
        assert(split_on(piece, ',') =~= seq![piece]) by {
            lemma_split_on_no_sep(piece, ',');
        }
        assert(Seq::new(c, |_i: int| piece) =~= seq![piece]);
        assert(Seq::new(c, |_i: int| piece).drop_last() =~= Seq::<Seq<char>>::empty());
        assert(grid(c, r) =~= Seq::<u32>::empty().push(r));
        assert(custom_columns(Seq::<Seq<char>>::empty()) == Ok::<Seq<u32>, ColumnFault>(
            Seq::empty(),
        ));
        assert(Seq::new(c, |_i: int| piece).last() == piece);
    } else {
        lemma_custom_columns_repeated(piece, r, (c - 1) as nat);
        lemma_split_on_append(comma_joined(piece, (c - 1) as nat), piece, ',');
        assert(Seq::new((c - 1) as nat, |_i: int| piece).push(piece) =~= Seq::new(
            c,
            |_i: int| piece,
        ));
        assert(Seq::new(c, |_i: int| piece).drop_last() =~= Seq::new(
            (c - 1) as nat,
            |_i: int| piece,
        ));
        assert(grid((c - 1) as nat, r).push(r) =~= grid(c, r));
        assert(Seq::new(c, |_i: int| piece).last() == piece);
    }
}


/// A grid `CxR` with at least two columns is the same layout as `R` written
/// `C` times, separated by commas: `2x2` and `2,2` agree.
pub proof fn grid_custom_equivalence_law(cs: Seq<char>, rs: Seq<char>, c: u32, r: u32)
    requires
        parse_u32_spec(cs) == Some(c),
        parse_u32_spec(rs) == Some(r),
        c >= 2,
        r >= 1,
    ensures
        layout_spec(cs + seq!['x'] + rs) == layout_spec(comma_joined(rs, c as nat)),
{
    let g = cs + seq!['x'] + rs;
    let j = comma_joined(rs, c as nat);
    lemma_numeral_chars(cs, ',');
    lemma_numeral_chars(cs, 'x');
    lemma_numeral_chars(rs, ',');
    lemma_numeral_chars(rs, 'x');
    assert(!g.contains(',')) by {
        if g.contains(',') {
            let i = choose|i: int| 0 <= i < g.len() && g[i] == ',';
            if i < cs.len() {
                assert(cs[i] == ',');
            } else if i > cs.len() {
                assert(rs[i - cs.len() - 1] == ',');
            }
        }
    }
    assert(g[cs.len() as int] == 'x');
    assert(g.contains('x'));
    assert forall|k: int| 0 <= k < cs.len() implies g[k] != 'x' by {
        assert(g[k] == cs[k]);
        assert(cs[k] == 'x' ==> cs.contains('x'));
    }
    lemma_find_char(g, 'x', cs.len() as int);
    assert(g.take(cs.len() as int) =~= cs);
    assert(g.skip(cs.len() as int + 1) =~= rs);
    lemma_custom_columns_repeated(rs, r, c as nat);
    assert(j.contains(',')) by {
        lemma_comma_joined_has_comma(rs, c as nat);
    }
}

/// Grid layouts: `CxR` with `C, R >= 1` and from 2 to `u32::MAX` panes in
/// all is `C` columns of `R` rows each.
pub proof fn grid_layout_law(cs: Seq<char>, rs: Seq<char>, c: u32, r: u32)
    requires
        parse_u32_spec(cs) == Some(c),
        parse_u32_spec(rs) == Some(r),
        c >= 1,
        r >= 1,
        2 <= c * r <= u32::MAX,
    ensures
        layout_spec(cs + seq!['x'] + rs) == Ok::<Seq<u32>, Seq<char>>(grid(c as nat, r)),
{
    let g = cs + seq!['x'] + rs;
    lemma_numeral_chars(cs, ',');
    lemma_numeral_chars(cs, 'x');
    lemma_numeral_chars(rs, ',');
    lemma_numeral_chars(rs, 'x');
    assert(!g.contains(',')) by {
        if g.contains(',') {
            let i = choose|i: int| 0 <= i < g.len() && g[i] == ',';
            if i < cs.len() {
                assert(cs[i] == ',');
            } else if i > cs.len() {
                assert(rs[i - cs.len() - 1] == ',');
            }
        }
    }
    assert(g[cs.len() as int] == 'x');
    assert forall|k: int| 0 <= k < cs.len() implies g[k] != 'x' by {
        assert(g[k] == cs[k]);
        assert(cs[k] == 'x' ==> cs.contains('x'));
    }
    lemma_find_char(g, 'x', cs.len() as int);
    assert(g.take(cs.len() as int) =~= cs);
    assert(g.skip(cs.len() as int + 1) =~= rs);
    lemma_sum_of_grid(c as nat, r);
}

/// Two or more joined copies hold a comma.
proof fn lemma_comma_joined_has_comma(piece: Seq<char>, c: nat)
    requires
        c >= 2,
    ensures
        comma_joined(piece, c).contains(','),
{
    let prev = comma_joined(piece, (c - 1) as nat);
    let s = prev + seq![','] + piece;
    assert(s[prev.len() as int] == ',');
}

/// The numbers the pieces spell, piece by piece.
pub open spec fn piece_values(pieces: Seq<Seq<char>>) -> Seq<u32> {
    pieces.map_values(|p: Seq<char>| parse_u32_spec(p).unwrap())
}

/// When every piece is a numeral of at least 1, the comma-separated columns
/// are those numbers, in order.
proof fn lemma_custom_columns_values(parts: Seq<Seq<char>>)
    requires
        forall|i: int|
            0 <= i < parts.len() ==> (#[trigger] parse_u32_spec(parts[i])) is Some && parse_u32_spec(
                parts[i],
            ).unwrap() >= 1,
    ensures
        custom_columns(parts) == Ok::<Seq<u32>, ColumnFault>(piece_values(parts)),
    decreases parts.len(),
{
    if parts.len() > 0 {
        let init = parts.drop_last();
        assert forall|i: int| 0 <= i < init.len() implies (#[trigger] parse_u32_spec(init[i]))
            is Some && parse_u32_spec(init[i]).unwrap() >= 1 by {
            assert(init[i] == parts[i]);
        }
        lemma_custom_columns_values(init);
        assert(parse_u32_spec(parts[parts.len() - 1]) is Some);
        assert(parts.last() == parts[parts.len() - 1]);
        assert(piece_values(init).push(parse_u32_spec(parts.last()).unwrap()) =~= piece_values(
            parts,
        ));
    } else {
        assert(piece_values(parts) =~= Seq::<u32>::empty());
    }
}

/// Custom layouts keep every column as written: when the argument holds a
/// comma and each comma-separated piece `i` is a numeral of value `r_i >= 1`,
/// the layout is exactly `[r_0, ..., r_{k-1}]` as long as the total is from 2
/// to `u32::MAX`, and any layout it gives is that list.
pub proof fn custom_layout_law(arg: Seq<char>)
    requires
        arg.contains(','),
        forall|i: int|
            0 <= i < split_on(arg, ',').len() ==> (#[trigger] parse_u32_spec(
                split_on(arg, ',')[i],
            )) is Some && parse_u32_spec(split_on(arg, ',')[i]).unwrap() >= 1,
    ensures
        layout_spec(arg) matches Ok(cols) ==> cols.len() == split_on(arg, ',').len() && forall|
            i: int,
        |
            0 <= i < cols.len() ==> cols[i] == parse_u32_spec(split_on(arg, ',')[i]).unwrap(),
        2 <= sum_of(piece_values(split_on(arg, ','))) <= u32::MAX ==> layout_spec(arg) == Ok::<
            Seq<u32>,
            Seq<char>,
        >(piece_values(split_on(arg, ','))),
{
    lemma_custom_columns_values(split_on(arg, ','));
}

} // verus!
