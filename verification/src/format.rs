//! Deterministic text for reports: grouped numbers, signed deltas and
//! percentages that add up to exactly one hundred.

use vstd::prelude::*;
use vstd::utf8::{encode_utf8, is_ascii_chars, is_ascii_chars_encode_utf8};
use vstd::set_lib::{lemma_int_range, lemma_map_size, lemma_subset_equality, set_int_range};

verus! {

/// The ASCII digit for a value below ten.
pub open spec fn digit_char(d: nat) -> char {
    if d == 0 { '0' }
    else if d == 1 { '1' }
    else if d == 2 { '2' }
    else if d == 3 { '3' }
    else if d == 4 { '4' }
    else if d == 5 { '5' }
    else if d == 6 { '6' }
    else if d == 7 { '7' }
    else if d == 8 { '8' }
    else { '9' }
}

/// The decimal digits of `n`, most significant first, without leading zeros.
pub open spec fn decimal_digits(n: nat) -> Seq<char>
    decreases n,
{
    if n < 10 {
        seq![digit_char(n)]
    } else {
        decimal_digits(n / 10).push(digit_char(n % 10))
    }
}

/// Digits separated into groups of three by commas, counted from the right.
pub open spec fn grouped(d: Seq<char>) -> Seq<char>
    decreases d.len(),
{
    if d.len() <= 3 {
        d
    } else {
        grouped(d.take(d.len() - 3)) + seq![','] + d.skip(d.len() - 3)
    }
}

/// `n` in decimal with comma thousands separators.
pub open spec fn spec_format_unsigned(n: nat) -> Seq<char> {
    grouped(decimal_digits(n))
}

/// A signed delta: always a sign, then the grouped magnitude.
pub open spec fn spec_format_signed(v: int) -> Seq<char> {
    if v < 0 {
        seq!['-'] + spec_format_unsigned((-v) as nat)
    } else {
        seq!['+'] + spec_format_unsigned(v as nat)
    }
}

fn digit(d: u128) -> (r: char)
    requires
        d < 10,
    ensures
        r == digit_char(d as nat),
{
    if d == 0 { '0' }
    else if d == 1 { '1' }
    else if d == 2 { '2' }
    else if d == 3 { '3' }
    else if d == 4 { '4' }
    else if d == 5 { '5' }
    else if d == 6 { '6' }
    else if d == 7 { '7' }
    else if d == 8 { '8' }
    else { '9' }
}

fn digits_of(n: u128) -> (r: Vec<char>)
    ensures
        r@ == decimal_digits(n as nat),
    decreases n,
{
    if n < 10 {
        let mut v: Vec<char> = Vec::new();
        v.push(digit(n));
        assert(v@ =~= seq![digit_char(n as nat)]);
        v
    } else {
        let mut v = digits_of(n / 10);
        v.push(digit(n % 10));
        v
    }
}

fn group(d: &[char]) -> (r: Vec<char>)
    ensures
        r@ == grouped(d@),
    decreases d.len(),
{
    let n = d.len();
    if n <= 3 {
        let mut out: Vec<char> = Vec::new();
        let mut i: usize = 0;
        while i < n
            invariant
                n == d.len(),
                i <= n,
                out@ == d@.take(i as int),
            decreases n - i,
        {
            out.push(d[i]);
            assert(out@ =~= d@.take(i as int + 1));
            i += 1;
        }
        assert(d@.take(n as int) =~= d@);
        out
    } else {
        let mut out = group(&d[0..n - 3]);
        assert(d@.subrange(0, n - 3) =~= d@.take(n - 3));
        let ghost head = out@;
        out.push(',');
        out.push(d[n - 3]);
        out.push(d[n - 2]);
        out.push(d[n - 1]);
        assert(out@ =~= head + seq![','] + d@.skip(n - 3));
        out
    }
}

/// `value` in decimal with comma thousands separators.
pub fn format_unsigned(value: u128) -> (r: String)
    ensures
        r@ == spec_format_unsigned(value as nat),
{
    let d = digits_of(value);
    let g = group(d.as_slice());
    crate::chars::string_of(g.as_slice())
}

/// A count in decimal with comma thousands separators.
pub fn format_number(value: u64) -> (r: String)
    ensures
        r@ == spec_format_unsigned(value as nat),
{
    format_unsigned(value as u128)
}

/// A signed delta with its sign and grouped magnitude.
pub fn format_signed(value: i128) -> (r: String)
    ensures
        r@ == spec_format_signed(value as int),
{
    if value < 0 {
        let magnitude: u128 = ((-(value + 1)) as u128) + 1;
        let digits = format_unsigned(magnitude);
        proof {
            reveal_strlit("-");
        }
        crate::chars::concat("-", digits.as_str())
    } else {
        let digits = format_unsigned(value as u128);
        proof {
            reveal_strlit("+");
        }
        crate::chars::concat("+", digits.as_str())
    }
}

/// Sum of the token counts.
pub open spec fn token_total(t: Seq<u64>) -> nat
    decreases t.len(),
{
    if t.len() == 0 {
        0
    } else {
        token_total(t.drop_last()) + t.last() as nat
    }
}

/// Share of entry `i` in tenths of a percent, rounded down.
pub open spec fn scaled_floor(t: Seq<u64>, i: int) -> nat {
    ((t[i] * 1000) as nat / token_total(t)) as nat
}

/// What rounding down left over for entry `i`, in units of 1/total tenths.
pub open spec fn scaled_rem(t: Seq<u64>, i: int) -> nat {
    ((t[i] * 1000) as nat % token_total(t)) as nat
}

/// The remainders of all entries.
pub open spec fn remainders(t: Seq<u64>) -> Seq<int> {
    Seq::new(t.len(), |i: int| scaled_rem(t, i) as int)
}

/// Sum of the rounded-down shares of the first `m` entries.
pub open spec fn floor_total(t: Seq<u64>, m: int) -> nat
    decreases m,
{
    if m <= 0 {
        0
    } else {
        floor_total(t, m - 1) + scaled_floor(t, m - 1)
    }
}

/// Tenths of a percent still to hand out after rounding down.
pub open spec fn leftover(t: Seq<u64>) -> int {
    1000 - floor_total(t, t.len() as int)
}

/// Whether entry `j` comes before entry `i` when handing out leftovers:
/// larger remainders first, ties by position.
pub open spec fn outranks(rems: Seq<int>, j: int, i: int) -> bool {
    rems[j] > rems[i] || (rems[j] == rems[i] && j < i)
}

/// How many of the first `m` entries come before entry `i`.
pub open spec fn count_outranking(rems: Seq<int>, i: int, m: int) -> nat
    decreases m,
{
    if m <= 0 {
        0
    } else {
        count_outranking(rems, i, m - 1) + if outranks(rems, m - 1, i) { 1nat } else { 0nat }
    }
}

/// Position of entry `i` in the order in which leftovers are handed out.
pub open spec fn leftover_rank(rems: Seq<int>, i: int) -> nat {
    count_outranking(rems, i, rems.len() as int)
}

/// The share of entry `i` in tenths of a percent by the largest-remainder
/// method: everyone gets the rounded-down share, and the entries with the
/// largest remainders (earlier entries first on ties) get one more tenth each
/// until the shares add up to 1000. Zero for every entry when the total is zero.
pub open spec fn percent_tenths(t: Seq<u64>, i: int) -> nat {
    if token_total(t) == 0 {
        0
    } else {
        scaled_floor(t, i) + if leftover_rank(remainders(t), i) < leftover(t) { 1nat } else { 0nat }
    }
}

/// Sum of the shares of the first `m` entries.
pub open spec fn percent_total(t: Seq<u64>, m: int) -> nat
    decreases m,
{
    if m <= 0 {
        0
    } else {
        percent_total(t, m - 1) + percent_tenths(t, m - 1)
    }
}

proof fn lemma_token_total_prefix(t: Seq<u64>, m: int)
    requires
        0 <= m <= t.len(),
    ensures
        token_total(t.take(m)) <= token_total(t),
        forall|i: int| 0 <= i < m ==> #[trigger] t[i] <= token_total(t.take(m)),
    decreases t.len() - m,
{
    if m < t.len() {
        lemma_token_total_prefix(t, m + 1);
        assert(t.take(m + 1).drop_last() =~= t.take(m));
        assert forall|i: int| 0 <= i < m implies #[trigger] t[i] <= token_total(t.take(m)) by {
            lemma_entry_le_total(t.take(m), i);
        }
    } else {
        assert(t.take(m) =~= t);
        assert forall|i: int| 0 <= i < m implies #[trigger] t[i] <= token_total(t.take(m)) by {
            lemma_entry_le_total(t, i);
        }
    }
}

proof fn lemma_entry_le_total(t: Seq<u64>, i: int)
    requires
        0 <= i < t.len(),
    ensures
        t[i] <= token_total(t),
    decreases t.len(),
{
    if i < t.len() - 1 {
        lemma_entry_le_total(t.drop_last(), i);
    }
}

proof fn lemma_floor_identity(t: Seq<u64>, m: int)
    requires
        token_total(t) > 0,
        0 <= m <= t.len(),
    ensures
        floor_total(t, m) * token_total(t) + rem_total(t, m) == 1000 * token_total(t.take(m)),
        rem_total(t, m) < (m + 1) * token_total(t),
        m > 0 ==> rem_total(t, m) < m * token_total(t),
    decreases m,
{
    let total = token_total(t);
    if m > 0 {
        lemma_floor_identity(t, m - 1);
        assert(t.take(m).drop_last() =~= t.take(m - 1));
        let a = (t[m - 1] * 1000) as nat;
        let q = scaled_floor(t, m - 1);
        let r = scaled_rem(t, m - 1);
        assert(q * total + r == a && r < total) by (nonlinear_arith)
            requires
                total > 0,
                q == a / total,
                r == a % total,
        ;
        assert(floor_total(t, m) * total == floor_total(t, m - 1) * total + q * total) by (nonlinear_arith)
            requires
                floor_total(t, m) == floor_total(t, m - 1) + q,
        ;
        assert(m * total == (m - 1) * total + total) by (nonlinear_arith);
        assert((m + 1) * total == m * total + total) by (nonlinear_arith);
    } else {
        assert(t.take(0) =~= Seq::<u64>::empty());
        assert(total > 0);
    }
}

/// Sum of the remainders of the first `m` entries.
pub open spec fn rem_total(t: Seq<u64>, m: int) -> nat
    decreases m,
{
    if m <= 0 {
        0
    } else {
        rem_total(t, m - 1) + scaled_rem(t, m - 1)
    }
}

/// The leftover after rounding down is at least zero and fewer than the entries.
proof fn lemma_leftover_bounds(t: Seq<u64>)
    requires
        token_total(t) > 0,
    ensures
        0 <= leftover(t) < t.len(),
{
    let n = t.len() as int;
    let total = token_total(t);
    lemma_floor_identity(t, n);
    assert(t.take(n) =~= t);
    let f = floor_total(t, n);
    let r = rem_total(t, n);
    if n == 0 {
        assert(total == 0);
    }
    assert(f <= 1000 && 1000 - f < n) by (nonlinear_arith)
        requires
            f * total + r == 1000 * total,
            r < n * total,
            total > 0,
            r >= 0,
            f >= 0,
    ;
}

proof fn lemma_count_bounds(rems: Seq<int>, i: int, m: int)
    requires
        0 <= m <= rems.len(),
    ensures
        count_outranking(rems, i, m) <= m,
        0 <= i < m ==> count_outranking(rems, i, m) < m,
    decreases m,
{
    if m > 0 {
        lemma_count_bounds(rems, i, m - 1);
    }
}

proof fn lemma_count_monotone(rems: Seq<int>, a: int, b: int, m: int)
    requires
        0 <= a < rems.len(),
        0 <= b < rems.len(),
        outranks(rems, a, b),
        0 <= m <= rems.len(),
    ensures
        count_outranking(rems, a, m) <= count_outranking(rems, b, m),
        m > a ==> count_outranking(rems, a, m) < count_outranking(rems, b, m),
    decreases m,
{
    if m > 0 {
        lemma_count_monotone(rems, a, b, m - 1);
    }
}

proof fn lemma_rank_injective(rems: Seq<int>, a: int, b: int)
    requires
        0 <= a < rems.len(),
        0 <= b < rems.len(),
        a != b,
    ensures
        leftover_rank(rems, a) != leftover_rank(rems, b),
{
    if outranks(rems, a, b) {
        lemma_count_monotone(rems, a, b, rems.len() as int);
    } else {
        assert(outranks(rems, b, a));
        lemma_count_monotone(rems, b, a, rems.len() as int);
    }
}

/// The entries whose rank is below `l`.
spec fn ranked_below(rems: Seq<int>, l: int, m: int) -> Set<int> {
    set_int_range(0, m).filter(|i: int| leftover_rank(rems, i) < l)
}

proof fn lemma_count_ranked_below(rems: Seq<int>, l: int)
    requires
        0 <= l <= rems.len(),
    ensures
        ranked_below(rems, l, rems.len() as int).finite(),
        ranked_below(rems, l, rems.len() as int).len() == l,
{
    let n = rems.len() as int;
    let all = set_int_range(0, n);
    let f = |i: int| leftover_rank(rems, i) as int;
    lemma_int_range(0, n);
    assert forall|x: int, y: int| all.contains(x) && all.contains(y) && #[trigger] f(x) == #[trigger] f(y) implies x == y by {
        if x != y {
            lemma_rank_injective(rems, x, y);
        }
    }
    assert(vstd::relations::injective_on(f, all));
    lemma_map_size(all, all.map(f), f);
    assert(all.map(f).subset_of(all)) by {
        assert forall|y: int| all.map(f).contains(y) implies all.contains(y) by {
            let x = choose|x: int| all.contains(x) && f(x) == y;
            lemma_count_bounds(rems, x, n);
        }
    }
    lemma_subset_equality(all.map(f), all);
    let below = ranked_below(rems, l, n);
    assert(below.subset_of(all));
    vstd::set_lib::lemma_len_subset(below, all);
    assert(vstd::relations::injective_on(f, below));
    lemma_map_size(below, below.map(f), f);
    assert(below.map(f) =~= set_int_range(0, l)) by {
        assert forall|y: int| below.map(f).contains(y) implies set_int_range(0, l).contains(y) by {
            let x = choose|x: int| below.contains(x) && f(x) == y;
        }
        assert forall|y: int| set_int_range(0, l).contains(y) implies below.map(f).contains(y) by {
            assert(all.contains(y));
            assert(all.map(f).contains(y));
            let x = choose|x: int| all.contains(x) && f(x) == y;
            assert(below.contains(x));
        }
    }
    lemma_int_range(0, l);
}

proof fn lemma_percent_total(t: Seq<u64>, m: int)
    requires
        token_total(t) > 0,
        0 <= m <= t.len(),
    ensures
        percent_total(t, m) == floor_total(t, m) + ranked_below(remainders(t), leftover(t), m).len(),
        ranked_below(remainders(t), leftover(t), m).finite(),
    decreases m,
{
    let rems = remainders(t);
    let l = leftover(t);
    lemma_int_range(0, m);
    vstd::set_lib::lemma_len_subset(ranked_below(rems, l, m), set_int_range(0, m));
    if m > 0 {
        lemma_percent_total(t, m - 1);
        let prev = ranked_below(rems, l, m - 1);
        if leftover_rank(rems, m - 1) < l {
            assert(ranked_below(rems, l, m) =~= prev.insert(m - 1));
        } else {
            assert(ranked_below(rems, l, m) =~= prev);
        }
    } else {
        assert(ranked_below(rems, l, 0) =~= Set::<int>::empty());
    }
}

/// The percentages of a language table add up to exactly 100.0% whenever
/// anything was counted.
pub proof fn law_percentages_sum_to_one_hundred(t: Seq<u64>)
    requires
        token_total(t) > 0,
    ensures
        percent_total(t, t.len() as int) == 1000,
{
    let n = t.len() as int;
    lemma_leftover_bounds(t);
    lemma_percent_total(t, n);
    assert(remainders(t).len() == n);
    lemma_count_ranked_below(remainders(t), leftover(t));
}

/// Tenths of a percent for each entry, by the largest-remainder method, so that
/// they add up to exactly 1000 whenever the total is positive.
pub fn allocated_percent_tenths(tokens: &[u64]) -> (r: Vec<u16>)
    ensures
        r@.len() == tokens@.len(),
        forall|i: int| 0 <= i < tokens@.len() ==> r@[i] as nat == percent_tenths(tokens@, i),
{
    let ghost t = tokens@;
    let n = tokens.len();
    let mut total: u128 = 0;
    let mut k: usize = 0;
    assert(t.take(0) =~= Seq::<u64>::empty());
    while k < n
        invariant
            t == tokens@,
            n == t.len(),
            k <= n,
            total == token_total(t.take(k as int)),
            total <= k * 18446744073709551615u128,
        decreases n - k,
    {
        assert(t.take(k as int + 1).drop_last() =~= t.take(k as int));
        assert(total + t[k as int] <= (k + 1) * 18446744073709551615u128) by (nonlinear_arith)
            requires
                total <= k * 18446744073709551615u128,
                t[k as int] <= 18446744073709551615u128,
        ;
        assert((k + 1) * 18446744073709551615u128 <= 340282366920938463463374607431768211455u128) by (nonlinear_arith)
            requires
                k < n,
                n <= 18446744073709551615u128,
        ;
        total = total + tokens[k] as u128;
        k += 1;
    }
    assert(t.take(n as int) =~= t);
    if total == 0 {
        let mut zeros: Vec<u16> = Vec::new();
        let mut i: usize = 0;
        while i < n
            invariant
                n == t.len(),
                token_total(t) == 0,
                i <= n,
                zeros@.len() == i,
                forall|j: int| 0 <= j < i ==> zeros@[j] as nat == percent_tenths(t, j),
            decreases n - i,
        {
            zeros.push(0);
            i += 1;
        }
        return zeros;
    }
    proof {
        lemma_leftover_bounds(t);
        lemma_token_total_prefix(t, n as int);
        assert(t.take(n as int) =~= t);
    }
    let mut floors: Vec<u16> = Vec::new();
    let mut rems: Vec<u128> = Vec::new();
    let mut floor_sum: u16 = 0;
    let mut i: usize = 0;
    while i < n
        invariant
            t == tokens@,
            n == t.len(),
            total == token_total(t),
            total > 0,
            i <= n,
            floors@.len() == i,
            rems@.len() == i,
            forall|j: int| 0 <= j < i ==> floors@[j] as nat == scaled_floor(t, j),
            forall|j: int| 0 <= j < i ==> rems@[j] as int == remainders(t)[j],
            forall|j: int| 0 <= j < n ==> #[trigger] t[j] <= token_total(t),
            floor_sum as nat == floor_total(t, i as int),
            floor_total(t, n as int) <= 1000,
        decreases n - i,
    {
        let scaled: u128 = tokens[i] as u128 * 1000;
        let floor = scaled / total;
        let rem = scaled % total;
        proof {
            assert(t[i as int] <= total);
            assert(floor <= 1000) by (nonlinear_arith)
                requires
                    scaled == t[i as int] * 1000,
                    t[i as int] <= total,
                    total > 0,
                    floor == scaled / total,
            ;
            lemma_floor_total_prefix(t, i as int + 1, n as int);
        }
        floors.push(floor as u16);
        rems.push(rem);
        floor_sum = floor_sum + floor as u16;
        i += 1;
    }
    let left: u16 = 1000 - floor_sum;
    let ghost rs = remainders(t);
    let mut out: Vec<u16> = Vec::new();
    let mut i: usize = 0;
    while i < n
        invariant
            t == tokens@,
            n == t.len(),
            total == token_total(t),
            total > 0,
            i <= n,
            floors@.len() == n,
            rems@.len() == n,
            rs == remainders(t),
            rs.len() == n,
            forall|j: int| 0 <= j < n ==> floors@[j] as nat == scaled_floor(t, j),
            forall|j: int| 0 <= j < n ==> rems@[j] as int == rs[j],
            left as int == leftover(t),
            0 <= leftover(t) < n,
            out@.len() == i,
            forall|j: int| 0 <= j < i ==> out@[j] as nat == percent_tenths(t, j),
        decreases n - i,
    {
        let mut rank: usize = 0;
        let mut j: usize = 0;
        while j < n
            invariant
                n == t.len(),
                rems@.len() == n,
                rs.len() == n,
                forall|x: int| 0 <= x < n ==> rems@[x] as int == rs[x],
                i < n,
                j <= n,
                rank as nat == count_outranking(rs, i as int, j as int),
                rank <= j,
            decreases n - j,
        {
            if rems[j] > rems[i] || (rems[j] == rems[i] && j < i) {
                rank += 1;
            }
            j += 1;
        }
        let extra: u16 = if rank < left as usize { 1 } else { 0 };
        proof {
            if extra == 1 {
                lemma_floor_bound_with_extra(t, i as int, n as int);
            }
        }
        out.push(floors[i] + extra);
        i += 1;
    }
    out
}

proof fn lemma_floor_total_prefix(t: Seq<u64>, i: int, n: int)
    requires
        0 <= i <= n,
        n == t.len(),
        token_total(t) > 0,
    ensures
        floor_total(t, i) <= floor_total(t, n),
    decreases n - i,
{
    if i < n {
        lemma_floor_total_prefix(t, i + 1, n);
    }
}

proof fn lemma_floor_bound_with_extra(t: Seq<u64>, i: int, n: int)
    requires
        0 <= i < n,
        n == t.len(),
        token_total(t) > 0,
        leftover(t) > 0,
    ensures
        scaled_floor(t, i) < 1000,
{
    lemma_floor_total_prefix(t, i + 1, n);
}

/// Ten to the power `k`.
pub open spec fn pow10(k: nat) -> nat
    decreases k,
{
    if k == 0 {
        1
    } else {
        10 * pow10((k - 1) as nat)
    }
}

proof fn lemma_digits_shape(n: nat, k: nat)
    requires
        k >= 1,
        n < pow10(k),
    ensures
        decimal_digits(n).len() <= k,
        decimal_digits(n).len() >= 1,
        is_ascii_chars(decimal_digits(n)),
        forall|i: int| 0 <= i < decimal_digits(n).len() ==> '0' <= #[trigger] decimal_digits(n)[i] <= '9',
    decreases n,
{
    if n >= 10 {
        assert(k >= 2) by {
            if k == 1 {
                assert(pow10(1) == 10) by {
                    reveal_with_fuel(pow10, 2);
                }
            }
        }
        assert(n / 10 < pow10((k - 1) as nat)) by (nonlinear_arith)
            requires
                n < pow10(k),
                pow10(k) == 10 * pow10((k - 1) as nat),
        ;
        lemma_digits_shape(n / 10, (k - 1) as nat);
    }
}

proof fn lemma_grouped_shape(d: Seq<char>)
    requires
        d.len() >= 1,
        forall|i: int| 0 <= i < d.len() ==> '0' <= #[trigger] d[i] <= '9',
    ensures
        grouped(d).len() == d.len() + (d.len() - 1) / 3,
        is_ascii_chars(grouped(d)),
    decreases d.len(),
{
    if d.len() > 3 {
        let h = d.take(d.len() - 3);
        assert forall|i: int| 0 <= i < h.len() implies '0' <= #[trigger] h[i] <= '9' by {
            assert(h[i] == d[i]);
        }
        lemma_grouped_shape(h);
        let g = grouped(d);
        assert forall|i: int| 0 <= i < g.len() implies '\0' <= #[trigger] g[i] <= '\u{7f}' by {
            let gh = grouped(h);
            if i < gh.len() {
                assert(g[i] == gh[i]);
            } else if i == gh.len() {
                assert(g[i] == ',');
            } else {
                assert(g[i] == d[d.len() - 3 + (i - gh.len() - 1)]);
            }
        }
    }
}

/// A formatted count is ASCII and at most 26 characters wide (20 digits and 6 separators).
pub proof fn lemma_format_width(n: nat)
    requires
        n <= u64::MAX,
    ensures
        is_ascii_chars(spec_format_unsigned(n)),
        spec_format_unsigned(n).len() <= 26,
        encode_utf8(spec_format_unsigned(n)).len() == spec_format_unsigned(n).len(),
{
    assert(pow10(20) == 100000000000000000000nat) by {
        reveal_with_fuel(pow10, 21);
    }
    lemma_digits_shape(n, 20);
    lemma_grouped_shape(decimal_digits(n));
    is_ascii_chars_encode_utf8(spec_format_unsigned(n));
}

/// The decimal digits of `value`, without separators.
pub fn digits_text(value: u128) -> (r: String)
    ensures
        r@ == decimal_digits(value as nat),
{
    let d = digits_of(value);
    crate::chars::string_of(d.as_slice())
}

} // verus!
