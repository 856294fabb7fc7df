//! The synthetic identity key format `test_<epoch_millis>_<random>`: a test
//! event's identity is its own timestamp carrier, so the embedded
//! milliseconds are parsed back out when the test queue is pruned.

use vstd::prelude::*;
use vstd::string::StrSliceExecFns;
use vstd::string::StringExecFns;
use vstd::arithmetic::div_mod::lemma_fundamental_div_mod;

verus! {

/// A decimal digit, as a character.
pub open spec fn spec_is_digit(c: char) -> bool {
    48 <= c as int && c as int <= 57
}

/// The numeric value of a decimal digit character.
pub open spec fn digit_val(c: char) -> int {
    c as int - 48
}

/// Every character of `s` is a decimal digit.
pub open spec fn all_digits(s: Seq<char>) -> bool {
    forall|i: int| 0 <= i < s.len() ==> spec_is_digit(#[trigger] s[i])
}

/// The number a digit sequence denotes, most significant digit first.
pub open spec fn digits_value(s: Seq<char>) -> int
    decreases s.len(),
{
    if s.len() == 0 {
        0
    } else {
        digits_value(s.drop_last()) * 10 + digit_val(s.last())
    }
}

/// The first position at or after `i` that does not hold a digit.
pub open spec fn digit_run_end(s: Seq<char>, i: int) -> int
    decreases s.len() - i,
    when 0 <= i <= s.len()
{
    if i < s.len() && spec_is_digit(s[i]) {
        digit_run_end(s, i + 1)
    } else {
        i
    }
}

/// The marker a synthetic identity key starts with.
pub open spec fn test_prefix() -> Seq<char> {
    seq!['t', 'e', 's', 't', '_']
}

/// The epoch milliseconds embedded in a synthetic identity key, if the key
/// has the shape `test_`, then one or more decimal digits that denote a
/// value a u64 can hold, then `_`, then anything. Any other shape carries no
/// timestamp.
pub open spec fn test_token_millis(s: Seq<char>) -> Option<int> {
    if s.len() > 5 && s.subrange(0, 5) == test_prefix() {
        let e = digit_run_end(s, 5);
        if 5 < e && e < s.len() && s[e] == '_' && digits_value(s.subrange(5, e)) <= u64::MAX {
            Some(digits_value(s.subrange(5, e)))
        } else {
            None
        }
    } else {
        None
    }
}

proof fn lemma_digit_run_end_bounds(s: Seq<char>, i: int)
    requires
        0 <= i <= s.len(),
    ensures
        i <= digit_run_end(s, i) <= s.len(),
        forall|j: int| i <= j < digit_run_end(s, i) ==> spec_is_digit(#[trigger] s[j]),
        digit_run_end(s, i) == s.len() || !spec_is_digit(s[digit_run_end(s, i)]),
    decreases s.len() - i,
{
    if i < s.len() && spec_is_digit(s[i]) {
        lemma_digit_run_end_bounds(s, i + 1);
    }
}

proof fn lemma_digit_run_end_of_run(s: Seq<char>, i: int, e: int)
    requires
        0 <= i <= e <= s.len(),
        forall|j: int| i <= j < e ==> spec_is_digit(#[trigger] s[j]),
        e == s.len() || !spec_is_digit(s[e]),
    ensures
        digit_run_end(s, i) == e,
    decreases e - i,
{
    if i < e {
        lemma_digit_run_end_of_run(s, i + 1, e);
    }
}

proof fn lemma_digits_value_nonneg(s: Seq<char>)
    requires
        all_digits(s),
    ensures
        digits_value(s) >= 0,
    decreases s.len(),
{
    if s.len() > 0 {
        assert(all_digits(s.drop_last()));
        lemma_digits_value_nonneg(s.drop_last());
    }
}

proof fn lemma_digits_value_extend(s: Seq<char>, k: int)
    requires
        all_digits(s),
        0 <= k <= s.len(),
    ensures
        digits_value(s) >= digits_value(s.subrange(0, k)),
    decreases s.len() - k,
{
    if k < s.len() {
        lemma_digits_value_extend(s, k + 1);
        let longer = s.subrange(0, k + 1);
        assert(longer.drop_last() =~= s.subrange(0, k));
        assert(all_digits(s.subrange(0, k)));
        lemma_digits_value_nonneg(s.subrange(0, k));
        assert(digits_value(longer) == digits_value(s.subrange(0, k)) * 10 + digit_val(s[k]));
    } else {
        assert(s.subrange(0, k) =~= s);
    }
}

/// Reads the epoch milliseconds embedded in a synthetic identity key, or
/// nothing when the key is not of that shape (or the number is too large
/// for a u64).
pub fn parse_test_millis(s: &str) -> (r: Option<u64>)
    ensures
        match r {
            Some(v) => test_token_millis(s@) == Some(v as int),
            None => test_token_millis(s@) is None,
        },
{
    let n = s.unicode_len();
    if n <= 5 {
        return None;
    }
    if s.get_char(0) != 't' || s.get_char(1) != 'e' || s.get_char(2) != 's' || s.get_char(3) != 't'
        || s.get_char(4) != '_' {
        proof {
            if s@.subrange(0, 5) == test_prefix() {
                assert(s@.subrange(0, 5)[0] == s@[0]);
                assert(s@.subrange(0, 5)[1] == s@[1]);
                assert(s@.subrange(0, 5)[2] == s@[2]);
                assert(s@.subrange(0, 5)[3] == s@[3]);
                assert(s@.subrange(0, 5)[4] == s@[4]);
            }
        }
        return None;
    }
    proof {
        assert(s@.subrange(0, 5) =~= test_prefix());
        lemma_digit_run_end_bounds(s@, 5);
    }
    let ghost e = digit_run_end(s@, 5);
    let mut i: usize = 5;
    let mut val: u64 = 0;
    while i < n
        invariant
            5 <= i <= n,
            n == s@.len(),
            s@.subrange(0, 5) == test_prefix(),
            e == digit_run_end(s@, 5),
            5 <= e <= s@.len(),
            forall|j: int| 5 <= j < e ==> spec_is_digit(#[trigger] s@[j]),
            e == s@.len() || !spec_is_digit(s@[e]),
            forall|j: int| 5 <= j < i ==> spec_is_digit(#[trigger] s@[j]),
            i <= e,
            val as int == digits_value(s@.subrange(5, i as int)),
        decreases n - i,
    {
        let c = s.get_char(i);
        let u = c as u32;
        if u < 48 || u > 57 {
            // `i` is the end of the digit run: decide right here.
            proof {
                lemma_digit_run_end_of_run(s@, 5, i as int);
            }
            if i == 5 {
                return None;
            }
            if c != '_' {
                return None;
            }
            return Some(val);
        }
        proof {
            assert(spec_is_digit(s@[i as int]));
            assert(i < e) by {
                if i >= e {
                    assert(e < s@.len() && !spec_is_digit(s@[e]));
                    lemma_digit_run_end_of_run(s@, 5, i as int);
                }
            }
        }
        let d = (u - 48) as u64;
        let ghost longer = s@.subrange(5, i as int + 1);
        proof {
            assert(longer.drop_last() =~= s@.subrange(5, i as int));
            assert(digits_value(longer) == val as int * 10 + d as int);
        }
        let stepped = val.checked_mul(10);
        let next = match stepped {
            Some(v10) => v10.checked_add(d),
            None => None,
        };
        match next {
            Some(v) => {
                val = v;
            },
            None => {
                // The digit run denotes a number no u64 holds: the key
                // carries no usable timestamp.
                proof {
                    let run = s@.subrange(5, e as int);
                    assert(all_digits(run));
                    assert(longer =~= run.subrange(0, i as int + 1 - 5));
                    lemma_digits_value_extend(run, i as int + 1 - 5);
                    assert(digits_value(run) > u64::MAX);
                }
                return None;
            },
        }
        i += 1;
    }
    // The whole tail is digits: no `_` separator follows the run.
    proof {
        lemma_digit_run_end_of_run(s@, 5, i as int);
        assert(e == s@.len());
    }
    None
}

/// The digit character for one decimal digit value.
pub open spec fn digit_char(d: int) -> char {
    if d == 0 {
        '0'
    } else if d == 1 {
        '1'
    } else if d == 2 {
        '2'
    } else if d == 3 {
        '3'
    } else if d == 4 {
        '4'
    } else if d == 5 {
        '5'
    } else if d == 6 {
        '6'
    } else if d == 7 {
        '7'
    } else if d == 8 {
        '8'
    } else {
        '9'
    }
}

/// The decimal rendering of a nonnegative number, most significant digit
/// first, without leading zeroes (a single `0` for zero).
pub open spec fn spec_digits_of(n: int) -> Seq<char>
    decreases n,
    when n >= 0
{
    if n <= 9 {
        seq![digit_char(n)]
    } else {
        spec_digits_of(n / 10).push(digit_char(n % 10))
    }
}

proof fn lemma_digit_char_val(d: int)
    requires
        0 <= d <= 9,
    ensures
        digit_char(d) as int == 48 + d,
        spec_is_digit(digit_char(d)),
{
}

proof fn lemma_spec_digits_of_digits(n: int)
    requires
        n >= 0,
    ensures
        all_digits(spec_digits_of(n)),
        spec_digits_of(n).len() >= 1,
        digits_value(spec_digits_of(n)) == n,
    decreases n,
{
    lemma_fundamental_div_mod(n, 10);
    lemma_digit_char_val(n % 10);
    if n <= 9 {
        lemma_digit_char_val(n);
        let s = seq![digit_char(n)];
        assert(s.len() == 1);
        assert(s.last() == digit_char(n));
        assert(s.drop_last() =~= Seq::<char>::empty());
        assert(digits_value(Seq::<char>::empty()) == 0);
        assert(digits_value(s) == digits_value(s.drop_last()) * 10 + digit_val(s.last()));
    } else {
        lemma_spec_digits_of_digits(n / 10);
        let prev = spec_digits_of(n / 10);
        let s = prev.push(digit_char(n % 10));
        assert(s.drop_last() =~= prev);
        assert(s.last() == digit_char(n % 10));
        assert(digits_value(s) == digits_value(prev) * 10 + digit_val(digit_char(n % 10)));
        assert forall|i: int| 0 <= i < s.len() implies spec_is_digit(#[trigger] s[i]) by {
            if i < prev.len() {
                assert(s[i] == prev[i]);
            }
        }
    }
}

/// Appends one decimal digit character to the back of `out`.
fn append_digit(out: &mut String, d: u64)
    requires
        d <= 9,
    ensures
        final(out)@ == old(out)@ + seq![digit_char(d as int)],
{
    if d == 0 {
        proof {
            reveal_strlit("0");
            assert("0"@ =~= seq![digit_char(0)]);
        }
        out.append("0");
    } else if d == 1 {
        proof {
            reveal_strlit("1");
            assert("1"@ =~= seq![digit_char(1)]);
        }
        out.append("1");
    } else if d == 2 {
        proof {
            reveal_strlit("2");
            assert("2"@ =~= seq![digit_char(2)]);
        }
        out.append("2");
    } else if d == 3 {
        proof {
            reveal_strlit("3");
            assert("3"@ =~= seq![digit_char(3)]);
        }
        out.append("3");
    } else if d == 4 {
        proof {
            reveal_strlit("4");
            assert("4"@ =~= seq![digit_char(4)]);
        }
        out.append("4");
    } else if d == 5 {
        proof {
            reveal_strlit("5");
            assert("5"@ =~= seq![digit_char(5)]);
        }
        out.append("5");
    } else if d == 6 {
        proof {
            reveal_strlit("6");
            assert("6"@ =~= seq![digit_char(6)]);
        }
        out.append("6");
    } else if d == 7 {
        proof {
            reveal_strlit("7");
            assert("7"@ =~= seq![digit_char(7)]);
        }
        out.append("7");
    } else if d == 8 {
        proof {
            reveal_strlit("8");
            assert("8"@ =~= seq![digit_char(8)]);
        }
        out.append("8");
    } else {
        proof {
            reveal_strlit("9");
            assert("9"@ =~= seq![digit_char(9)]);
        }
        out.append("9");
    }
}

/// Appends the decimal rendering of `n` to the back of `out`.
fn push_digits(n: u64, out: &mut String)
    ensures
        final(out)@ == old(out)@ + spec_digits_of(n as int),
    decreases n,
{
    if n <= 9 {
        append_digit(out, n);
    } else {
        push_digits(n / 10, out);
        append_digit(out, n % 10);
        proof {
            assert((old(out)@ + spec_digits_of(n as int / 10)) + seq![
                digit_char(n as int % 10),
            ] =~= old(out)@ + spec_digits_of(n as int));
        }
    }
}

/// The synthetic identity key carrying `millis` and the random token.
pub open spec fn test_id_of(millis: int, token: Seq<char>) -> Seq<char> {
    test_prefix() + spec_digits_of(millis) + seq!['_'] + token
}

/// Builds the synthetic identity key `test_<millis>_<token>`.
pub fn make_test_id(millis: u64, token: &str) -> (r: String)
    ensures
        r@ == test_id_of(millis as int, token@),
{
    let mut out = String::from_str("test_");
    proof {
        reveal_strlit("test_");
        assert(out@ =~= test_prefix());
    }
    push_digits(millis, &mut out);
    proof {
        reveal_strlit("_");
        assert("_"@ =~= seq!['_']);
    }
    out.append("_");
    out.append(token);
    proof {
        assert(out@ =~= test_id_of(millis as int, token@));
    }
    out
}

/// A key built by `make_test_id` always parses back to the milliseconds it
/// was built from, whatever the random token holds.
pub proof fn lemma_test_id_parses(millis: int, token: Seq<char>)
    requires
        0 <= millis <= u64::MAX,
    ensures
        test_token_millis(test_id_of(millis, token)) == Some(millis),
{
    let s = test_id_of(millis, token);
    let d = spec_digits_of(millis);
    lemma_spec_digits_of_digits(millis);
    assert(s.len() == 5 + d.len() + 1 + token.len());
    assert(s.subrange(0, 5) =~= test_prefix());
    assert forall|j: int| 5 <= j < 5 + d.len() implies spec_is_digit(#[trigger] s[j]) by {
        assert(s[j] == d[j - 5]);
    }
    assert(s[5 + d.len() as int] == '_');
    assert(!spec_is_digit('_'));
    lemma_digit_run_end_of_run(s, 5, 5 + d.len() as int);
    assert(s.subrange(5, 5 + d.len() as int) =~= d);
}

} // verus!
