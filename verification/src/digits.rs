use vstd::prelude::*;

verus! {

/// ASCII decimal digit.
pub open spec fn is_digit(c: char) -> bool {
    c == '0' || c == '1' || c == '2' || c == '3' || c == '4' || c == '5' || c == '6' || c == '7'
        || c == '8' || c == '9'
}

pub open spec fn digit_val(c: char) -> int {
    if c == '0' {
        0
    } else if c == '1' {
        1
    } else if c == '2' {
        2
    } else if c == '3' {
        3
    } else if c == '4' {
        4
    } else if c == '5' {
        5
    } else if c == '6' {
        6
    } else if c == '7' {
        7
    } else if c == '8' {
        8
    } else {
        9
    }
}

pub open spec fn digit_char(v: int) -> char {
    if v == 0 {
        '0'
    } else if v == 1 {
        '1'
    } else if v == 2 {
        '2'
    } else if v == 3 {
        '3'
    } else if v == 4 {
        '4'
    } else if v == 5 {
        '5'
    } else if v == 6 {
        '6'
    } else if v == 7 {
        '7'
    } else if v == 8 {
        '8'
    } else {
        '9'
    }
}

/// Value of a digit string read most-significant first; 0 for the empty string.
pub open spec fn val_of(s: Seq<char>) -> int
    decreases s.len(),
{
    if s.len() == 0 {
        0
    } else {
        val_of(s.drop_last()) * 10 + digit_val(s.last())
    }
}

/// Shortest decimal digit string of a natural number.
pub open spec fn digits_of(n: nat) -> Seq<char>
    decreases n,
{
    if n < 10 {
        seq![digit_char(n as int)]
    } else {
        digits_of(n / 10).push(digit_char((n % 10) as int))
    }
}

pub open spec fn all_digits(s: Seq<char>) -> bool {
    forall|k: int| 0 <= k < s.len() ==> is_digit(#[trigger] s[k])
}

pub proof fn lemma_val_of_nonneg(s: Seq<char>)
    requires
        all_digits(s),
    ensures
        val_of(s) >= 0,
    decreases s.len(),
{
    if s.len() > 0 {
        lemma_val_of_nonneg(s.drop_last());
    }
}

/// The decimal digit string of `n` evaluates back to `n`.
pub proof fn lemma_digits_of_val(n: nat)
    ensures
        val_of(digits_of(n)) == n,
        all_digits(digits_of(n)),
        digits_of(n).len() >= 1,
    decreases n,
{
    if n < 10 {
        assert(digits_of(n) =~= seq![digit_char(n as int)]);
        assert(digits_of(n).drop_last() =~= Seq::<char>::empty());
        assert(digits_of(n).last() == digit_char(n as int));
        assert(digit_val(digit_char(n as int)) == n);
        assert(val_of(digits_of(n)) == val_of(digits_of(n).drop_last()) * 10 + digit_val(
            digits_of(n).last(),
        ));
        assert(val_of(digits_of(n)) == n);
    } else {
        lemma_digits_of_val(n / 10);
        assert(digits_of(n).drop_last() =~= digits_of(n / 10));
        assert(digits_of(n).last() == digit_char((n % 10) as int));
        assert(digit_val(digit_char((n % 10) as int)) == n % 10);
        assert(val_of(digits_of(n)) == (n / 10) * 10 + (n % 10));
        assert((n / 10) * 10 + (n % 10) == n) by (nonlinear_arith);
        assert(val_of(digits_of(n)) == n);
    }
}

/// Prepending leading zeroes does not change the value of a digit string.
pub proof fn lemma_val_of_zero_prefix(z: Seq<char>, s: Seq<char>)
    requires
        forall|k: int| 0 <= k < z.len() ==> #[trigger] z[k] == '0',
    ensures
        val_of(z + s) == val_of(s),
    decreases s.len(),
{
    if s.len() == 0 {
        assert(z + s =~= z);
        lemma_val_of_all_zero(z);
    } else {
        assert((z + s).drop_last() =~= z + s.drop_last());
        lemma_val_of_zero_prefix(z, s.drop_last());
    }
}

pub proof fn lemma_val_of_all_zero(z: Seq<char>)
    requires
        forall|k: int| 0 <= k < z.len() ==> #[trigger] z[k] == '0',
    ensures
        val_of(z) == 0,
    decreases z.len(),
{
    if z.len() > 0 {
        lemma_val_of_all_zero(z.drop_last());
    }
}

/// End of the run of digits that starts at position `i`.
pub open spec fn run_end(s: Seq<char>, i: int) -> int
    decreases s.len() - i when 0 <= i <= s.len()
{
    if i < s.len() && is_digit(s[i]) {
        run_end(s, i + 1)
    } else {
        i
    }
}

pub proof fn lemma_run_end_facts(s: Seq<char>, i: int)
    requires
        0 <= i <= s.len(),
    ensures
        i <= run_end(s, i) <= s.len(),
        forall|k: int| i <= k < run_end(s, i) ==> is_digit(#[trigger] s[k]),
        run_end(s, i) == s.len() || !is_digit(s[run_end(s, i)]),
    decreases s.len() - i,
{
    if i < s.len() && is_digit(s[i]) {
        lemma_run_end_facts(s, i + 1);
    }
}

/// A digit run bounded by a non-digit (or the end) is exactly the run the
/// scanner finds.
pub proof fn lemma_run_end_determined(s: Seq<char>, i: int, j: int)
    requires
        0 <= i <= j <= s.len(),
        forall|k: int| i <= k < j ==> is_digit(#[trigger] s[k]),
        j == s.len() || !is_digit(s[j]),
    ensures
        run_end(s, i) == j,
    decreases j - i,
{
    if i < j {
        lemma_run_end_determined(s, i + 1, j);
    }
}

/// Meaning of a decimal scan at position `i`: the value of the digit run
/// starting there, if the run is non-empty and the value fits in a `u64`.
pub open spec fn dec_num(s: Seq<char>, i: int) -> Option<(u64, int)> {
    let e = run_end(s, i);
    if e == i {
        None
    } else if val_of(s.subrange(i, e)) <= u64::MAX {
        Some((val_of(s.subrange(i, e)) as u64, e))
    } else {
        None
    }
}

pub fn digit_char_x(v: u64) -> (c: char)
    requires
        v < 10,
    ensures
        c == digit_char(v as int),
{
    if v == 0 {
        '0'
    } else if v == 1 {
        '1'
    } else if v == 2 {
        '2'
    } else if v == 3 {
        '3'
    } else if v == 4 {
        '4'
    } else if v == 5 {
        '5'
    } else if v == 6 {
        '6'
    } else if v == 7 {
        '7'
    } else if v == 8 {
        '8'
    } else {
        '9'
    }
}

pub fn is_digit_x(c: char) -> (r: bool)
    ensures
        r == is_digit(c),
{
    c == '0' || c == '1' || c == '2' || c == '3' || c == '4' || c == '5' || c == '6' || c == '7'
        || c == '8' || c == '9'
}

pub fn digit_val_x(c: char) -> (v: u64)
    requires
        is_digit(c),
    ensures
        v as int == digit_val(c),
        v < 10,
{
    if c == '0' {
        0
    } else if c == '1' {
        1
    } else if c == '2' {
        2
    } else if c == '3' {
        3
    } else if c == '4' {
        4
    } else if c == '5' {
        5
    } else if c == '6' {
        6
    } else if c == '7' {
        7
    } else if c == '8' {
        8
    } else {
        9
    }
}

/// Appends the decimal digits of `n` to `out`.
pub fn push_u64(out: &mut Vec<char>, n: u64)
    ensures
        final(out)@ == old(out)@ + digits_of(n as nat),
    decreases n,
{
    if n < 10 {
        out.push(digit_char_x(n));
        assert(out@ =~= old(out)@ + digits_of(n as nat));
    } else {
        push_u64(out, n / 10);
        out.push(digit_char_x(n % 10));
        assert(out@ =~= old(out)@ + digits_of(n as nat));
    }
}

/// Scans the digit run starting at `i`; returns its value and end position.
pub fn scan_number(s: &Vec<char>, i: usize) -> (r: Option<(u64, usize)>)
    requires
        i <= s@.len(),
    ensures
        match r {
            Some((v, e)) => dec_num(s@, i as int) == Some((v, e as int)) && i < e <= s@.len(),
            None => dec_num(s@, i as int) is None,
        },
{
    let len = s.len();
    let mut j = i;
    let mut val: u64 = 0;
    let mut overflow = false;
    proof {
        assert(s@.subrange(i as int, i as int) =~= Seq::<char>::empty());
    }
    while j < len && is_digit_x(s[j])
        invariant
            i <= j <= len,
            len == s@.len(),
            forall|k: int| i <= k < j ==> is_digit(#[trigger] s@[k]),
            !overflow ==> val == val_of(s@.subrange(i as int, j as int)),
            overflow ==> val_of(s@.subrange(i as int, j as int)) > u64::MAX,
        decreases len - j,
    {
        let d = digit_val_x(s[j]);
        proof {
            let pre = s@.subrange(i as int, j as int);
            let cj = s@[j as int];
            assert(s@.subrange(i as int, j as int + 1) =~= pre.push(cj));
            assert(pre.push(cj).drop_last() =~= pre);
            assert(pre.push(cj).last() == cj);
            assert(val_of(pre.push(cj)) == val_of(pre) * 10 + digit_val(cj));
            assert forall|k: int| 0 <= k < pre.len() implies is_digit(#[trigger] pre[k]) by {
                assert(pre[k] == s@[i + k]);
            }
            lemma_val_of_nonneg(pre);
        }
        if !overflow {
            match val.checked_mul(10) {
                Some(v1) => {
                    match v1.checked_add(d) {
                        Some(v2) => {
                            val = v2;
                        },
                        None => {
                            overflow = true;
                        },
                    }
                },
                None => {
                    proof {
                        lemma_val_of_nonneg(s@.subrange(i as int, j as int));
                    }
                    overflow = true;
                },
            }
        } else {
            proof {
                lemma_val_of_nonneg(s@.subrange(i as int, j as int));
            }
        }
        j += 1;
    }
    proof {
        lemma_run_end_determined(s@, i as int, j as int);
    }
    if j == i {
        None
    } else if overflow {
        None
    } else {
        Some((val, j))
    }
}

} // verus!
