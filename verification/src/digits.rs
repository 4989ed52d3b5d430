//! Decimal formatting of integers and of micro-degree coordinates.
//!
//! Coordinates are carried as integer millionths of a degree, and printed
//! the way a decimal degree value is usually written: an optional sign, the
//! whole degrees, and, when the fractional part is not zero, a dot followed
//! by the fractional digits with trailing zeros removed.

use vstd::prelude::*;
use crate::strutil::push_char;

verus! {

/// One millionth of a degree is the resolution of a coordinate.
pub const MICRO: u64 = 1000000;

/// The character for a single decimal digit.
pub open spec fn dec_digit(n: nat) -> char {
    if n == 0 { '0' }
    else if n == 1 { '1' }
    else if n == 2 { '2' }
    else if n == 3 { '3' }
    else if n == 4 { '4' }
    else if n == 5 { '5' }
    else if n == 6 { '6' }
    else if n == 7 { '7' }
    else if n == 8 { '8' }
    else { '9' }
}

/// The usual decimal notation of `n`, without leading zeros.
pub open spec fn dec_seq(n: nat) -> Seq<char>
    decreases n,
{
    if n < 10 {
        seq![dec_digit(n)]
    } else {
        dec_seq(n / 10) + seq![dec_digit(n % 10)]
    }
}

/// The decimal notation of a signed integer.
pub open spec fn int_seq(n: int) -> Seq<char> {
    if n < 0 {
        seq!['-'] + dec_seq((-n) as nat)
    } else {
        dec_seq(n as nat)
    }
}

/// `k` decimal digits of `n`, leading zeros kept.
pub open spec fn pad_seq(n: nat, k: nat) -> Seq<char>
    decreases k,
{
    if k == 0 {
        Seq::<char>::empty()
    } else {
        pad_seq(n / 10, (k - 1) as nat) + seq![dec_digit(n % 10)]
    }
}

/// `s` with every trailing `'0'` removed.
pub open spec fn trim_zeros(s: Seq<char>) -> Seq<char>
    decreases s.len(),
{
    if s.len() > 0 && s.last() == '0' {
        trim_zeros(s.drop_last())
    } else {
        s
    }
}

/// The printed form of a non-negative number of micro-degrees.
pub open spec fn coord_abs_seq(m: nat) -> Seq<char> {
    if m % (MICRO as nat) == 0 {
        dec_seq(m / (MICRO as nat))
    } else {
        dec_seq(m / (MICRO as nat)) + seq!['.'] + trim_zeros(
            pad_seq(m % (MICRO as nat), 6),
        )
    }
}

/// The printed form of a signed number of micro-degrees.
pub open spec fn coord_seq(m: int) -> Seq<char> {
    if m < 0 {
        seq!['-'] + coord_abs_seq((-m) as nat)
    } else {
        coord_abs_seq(m as nat)
    }
}

/// The digit character for `n`, which must be below ten.
pub fn digit_char(n: u64) -> (r: char)
    requires
        n < 10,
    ensures
        r == dec_digit(n as nat),
{
    if n == 0 { '0' }
    else if n == 1 { '1' }
    else if n == 2 { '2' }
    else if n == 3 { '3' }
    else if n == 4 { '4' }
    else if n == 5 { '5' }
    else if n == 6 { '6' }
    else if n == 7 { '7' }
    else if n == 8 { '8' }
    else { '9' }
}

/// Appends the decimal notation of `n` to `s`.
pub fn push_u64(s: &mut String, n: u64)
    ensures
        final(s)@ == old(s)@ + dec_seq(n as nat),
    decreases n,
{
    if n < 10 {
        push_char(s, digit_char(n));
        proof {
            assert(s@ =~= old(s)@ + dec_seq(n as nat));
        }
    } else {
        push_u64(s, n / 10);
        push_char(s, digit_char(n % 10));
        proof {
            assert(s@ =~= old(s)@ + dec_seq(n as nat));
        }
    }
}

/// Appends `k` decimal digits of `n`, leading zeros kept, to `v`.
fn push_pad(v: &mut Vec<char>, n: u64, k: usize)
    ensures
        final(v)@ == old(v)@ + pad_seq(n as nat, k as nat),
    decreases k,
{
    if k > 0 {
        push_pad(v, n / 10, k - 1);
        v.push(digit_char(n % 10));
        proof {
            assert(v@ =~= old(v)@ + pad_seq(n as nat, k as nat));
        }
    } else {
        proof {
            assert(v@ =~= old(v)@ + pad_seq(n as nat, 0));
        }
    }
}

/// Appends the printed form of a non-negative micro-degree count to `s`.
fn push_coord_abs(s: &mut String, m: u64)
    ensures
        final(s)@ == old(s)@ + coord_abs_seq(m as nat),
{
    push_u64(s, m / MICRO);
    let f = m % MICRO;
    if f != 0 {
        push_char(s, '.');
        let mut digs: Vec<char> = Vec::new();
        push_pad(&mut digs, f, 6);
        while digs.len() > 0 && digs[digs.len() - 1] == '0'
            invariant
                trim_zeros(digs@) == trim_zeros(pad_seq(f as nat, 6)),
            decreases digs@.len(),
        {
            proof {
                assert(digs@.drop_last() =~= digs@.take(digs@.len() - 1));
            }
            digs.pop();
        }
        proof {
            assert(trim_zeros(digs@) == digs@);
        }
        let mut i: usize = 0;
        let ghost mid = s@;
        while i < digs.len()
            invariant
                i <= digs@.len(),
                s@ =~= mid + digs@.take(i as int),
            decreases digs@.len() - i,
        {
            push_char(s, digs[i]);
            i += 1;
        }
        proof {
            assert(s@ =~= old(s)@ + coord_abs_seq(m as nat));
        }
    } else {
        proof {
            assert(s@ =~= old(s)@ + coord_abs_seq(m as nat));
        }
    }
}

/// Appends the printed form of a signed micro-degree count to `s`.
pub fn push_coord(s: &mut String, m: i64)
    requires
        -200_000_000 <= m <= 200_000_000,
    ensures
        final(s)@ == old(s)@ + coord_seq(m as int),
{
    if m < 0 {
        push_char(s, '-');
        push_coord_abs(s, (-m) as u64);
        proof {
            assert(s@ =~= old(s)@ + coord_seq(m as int));
        }
    } else {
        push_coord_abs(s, m as u64);
    }
}

/// Appends the decimal notation of `n` to `v`.
pub fn push_u64_chars(v: &mut Vec<char>, n: u64)
    ensures
        final(v)@ == old(v)@ + dec_seq(n as nat),
    decreases n,
{
    if n < 10 {
        v.push(digit_char(n));
        proof {
            assert(v@ =~= old(v)@ + dec_seq(n as nat));
        }
    } else {
        push_u64_chars(v, n / 10);
        v.push(digit_char(n % 10));
        proof {
            assert(v@ =~= old(v)@ + dec_seq(n as nat));
        }
    }
}

/// Every character of a decimal notation is a digit.
pub proof fn lemma_dec_seq_digits(n: nat)
    ensures
        dec_seq(n).len() >= 1,
        forall|k: int| 0 <= k < dec_seq(n).len() ==> crate::json::is_digit(
            #[trigger] dec_seq(n)[k],
        ),
    decreases n,
{
    if n < 10 {
        assert(dec_seq(n) == seq![dec_digit(n)]);
        assert(crate::json::is_digit(dec_seq(n)[0]));
    } else {
        lemma_dec_seq_digits(n / 10);
        assert forall|k: int| 0 <= k < dec_seq(n).len() implies crate::json::is_digit(
            #[trigger] dec_seq(n)[k],
        ) by {
            if k < dec_seq(n / 10).len() {
                assert(dec_seq(n)[k] == dec_seq(n / 10)[k]);
            } else {
                assert(dec_seq(n)[k] == dec_digit(n % 10));
            }
        }
    }
}

/// The decimal notation of a positive number has no leading zero.
pub proof fn lemma_dec_seq_head(n: nat)
    requires
        n >= 1,
    ensures
        dec_seq(n)[0] != '0',
    decreases n,
{
    if n < 10 {
    } else {
        lemma_dec_seq_head(n / 10);
        assert(dec_seq(n)[0] == dec_seq(n / 10)[0]);
    }
}

/// A run of digits keeps the number automaton in its digit state.
proof fn lemma_run_digits(ds: Seq<char>)
    requires
        forall|k: int| 0 <= k < ds.len() ==> crate::json::is_digit(#[trigger] ds[k]),
    ensures
        crate::json::num_run(ds, crate::json::NumState::Digits),
    decreases ds.len(),
{
    if ds.len() > 0 {
        assert(crate::json::is_digit(ds[0]));
        assert forall|k: int| 0 <= k < ds.drop_first().len() implies crate::json::is_digit(
            #[trigger] ds.drop_first()[k],
        ) by {
            assert(ds.drop_first()[k] == ds[k + 1]);
        }
        lemma_run_digits(ds.drop_first());
    }
}

/// The decimal notation of any integer is a well-formed number token.
pub proof fn lemma_wf_int_seq(n: int)
    ensures
        crate::json::wf_num(int_seq(n)),
{
    if n < 0 {
        let m = (-n) as nat;
        lemma_dec_seq_digits(m);
        lemma_dec_seq_head(m);
        let t = int_seq(n);
        assert(t == seq!['-'] + dec_seq(m));
        assert(t[0] == '-');
        assert(t.drop_first() =~= dec_seq(m));
        lemma_int_seq_digits_run(m);
        assert(crate::json::num_run(dec_seq(m), crate::json::NumState::Minus) == crate::json::num_run(
            dec_seq(m),
            crate::json::NumState::Start,
        )) by {
            lemma_start_minus_same(dec_seq(m));
        }
    } else {
        lemma_int_seq_digits_run(n as nat);
    }
}

/// From either initial state, a nonzero-led digit run is accepted.
proof fn lemma_start_minus_same(ds: Seq<char>)
    requires
        ds.len() >= 1,
        crate::json::is_digit(ds[0]),
    ensures
        crate::json::num_run(ds, crate::json::NumState::Minus) == crate::json::num_run(
            ds,
            crate::json::NumState::Start,
        ),
{
    assert(crate::json::num_step(crate::json::NumState::Minus, ds[0])
        == crate::json::num_step(crate::json::NumState::Start, ds[0]));
}

/// The decimal notation of a natural number is accepted from the start
/// state.
proof fn lemma_int_seq_digits_run(m: nat)
    ensures
        crate::json::num_run(dec_seq(m), crate::json::NumState::Start),
{
    lemma_dec_seq_digits(m);
    let t = dec_seq(m);
    if m == 0 {
        assert(t == seq![dec_digit(0)]);
        assert(t[0] == '0');
        assert(t.drop_first() =~= Seq::<char>::empty());
        assert(crate::json::num_run(Seq::<char>::empty(), crate::json::NumState::Zero));
        assert(crate::json::num_run(t, crate::json::NumState::Start));
    } else {
        lemma_dec_seq_head(m);
        assert(t[0] != '0');
        assert(crate::json::is_digit(t[0]));
        assert forall|k: int| 0 <= k < t.drop_first().len() implies crate::json::is_digit(
            #[trigger] t.drop_first()[k],
        ) by {
            assert(t.drop_first()[k] == t[k + 1]);
        }
        lemma_run_digits(t.drop_first());
    }
}

/// The numeric value of a digit character.
pub open spec fn digit_val(c: char) -> nat {
    (c as int - '0' as int) as nat
}

/// The number a run of digit characters denotes.
pub open spec fn digits_val(ds: Seq<char>) -> nat
    decreases ds.len(),
{
    if ds.len() == 0 {
        0
    } else {
        digits_val(ds.drop_last()) * 10 + digit_val(ds.last())
    }
}

/// The decimal notation of `n` denotes `n`.
pub proof fn lemma_digits_val_dec_seq(m: nat)
    ensures
        digits_val(dec_seq(m)) == m,
    decreases m,
{
    if m < 10 {
        let ds = dec_seq(m);
        assert(ds == seq![dec_digit(m)]);
        assert(ds.drop_last() =~= Seq::<char>::empty());
        assert(digits_val(Seq::<char>::empty()) == 0);
        assert(ds.last() == dec_digit(m));
        assert(digit_val(dec_digit(m)) == m);
        assert(digits_val(ds) == digits_val(ds.drop_last()) * 10 + digit_val(ds.last()));
    } else {
        lemma_digits_val_dec_seq(m / 10);
        let ds = dec_seq(m);
        assert(ds.drop_last() =~= dec_seq(m / 10));
        assert(ds.last() == dec_digit(m % 10));
        assert(digit_val(dec_digit(m % 10)) == m % 10);
        assert(digits_val(ds) == digits_val(ds.drop_last()) * 10 + digit_val(ds.last()));
        assert(digits_val(ds) == (m / 10) * 10 + m % 10);
    }
}

/// A prefix of a digit run denotes no more than the whole run.
pub proof fn lemma_digits_val_prefix(ds: Seq<char>, k: int)
    requires
        0 <= k <= ds.len(),
    ensures
        digits_val(ds.take(k)) <= digits_val(ds),
    decreases ds.len() - k,
{
    if k < ds.len() {
        lemma_digits_val_prefix(ds, k + 1);
        assert(ds.take(k + 1).drop_last() =~= ds.take(k));
        assert(digits_val(ds.take(k + 1)) == digits_val(ds.take(k)) * 10 + digit_val(
            ds.take(k + 1).last(),
        ));
    } else {
        assert(ds.take(k) =~= ds);
    }
}

/// The shape of the decimal notation of a signed integer.
pub proof fn lemma_int_seq_shape(n: int)
    ensures
        int_seq(n).len() >= 1,
        n < 0 ==> int_seq(n)[0] == '-' && int_seq(n).skip(1) =~= dec_seq((-n) as nat)
            && int_seq(n).len() == 1 + dec_seq((-n) as nat).len(),
        n >= 0 ==> int_seq(n) == dec_seq(n as nat),
        n >= 0 ==> int_seq(n)[0] != '-',
{
    if n < 0 {
        lemma_dec_seq_digits((-n) as nat);
        assert(int_seq(n).skip(1) =~= dec_seq((-n) as nat));
    } else {
        lemma_dec_seq_digits(n as nat);
        assert(crate::json::is_digit(dec_seq(n as nat)[0]));
    }
}

} // verus!
