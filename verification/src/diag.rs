//! The diagnostics probe's parsing of sensor output.
//!
//! The probe runs an external sensor command and receives its output as
//! text, typically of the shape `temp=48.9'C`.  Running the command is I/O
//! and happens outside the library; what is decided here is the reading of
//! that text into a gauge value in thousandths, and the rule that any
//! failure — no output, or output that does not parse — leaves the gauge
//! untouched for that cycle.
//!
//! The accepted shape is the marker `temp=`, an integer part of one to
//! sixteen digits, and optionally a dot with one to three fractional
//! digits; anything after the number (such as a unit) is ignored.

use vstd::prelude::*;
use vstd::string::*;
use crate::decimal::{
    all_digits, is_digit, digit_val, lemma_parse_digits_bound, parse_digits, pow10,
};
use crate::store::{Metric, MetricHandle, MetricStore};

verus! {

/// Length of the longest run of digits at the head of `s`.
pub open spec fn digit_run_len(s: Seq<char>) -> nat
    decreases s.len(),
{
    if s.len() == 0 {
        0
    } else if !is_digit(s[0]) {
        0
    } else {
        1 + digit_run_len(s.subrange(1, s.len() as int))
    }
}

/// The digit run is exactly the digits up to the first non-digit.
pub proof fn lemma_digit_run_exact(s: Seq<char>, k: int)
    requires
        0 <= k <= s.len(),
        forall|i: int| 0 <= i < k ==> is_digit(#[trigger] s[i]),
        k == s.len() || !is_digit(s[k]),
    ensures
        digit_run_len(s) == k,
    decreases s.len(),
{
    if s.len() == 0 {
    } else if !is_digit(s[0]) {
        if k > 0 {
            assert(is_digit(s[0]));
        }
    } else {
        assert(k > 0) by {
            if k == 0 {
                assert(!is_digit(s[0]));
            }
        }
        let t = s.subrange(1, s.len() as int);
        assert forall|i: int| 0 <= i < k - 1 implies is_digit(#[trigger] t[i]) by {
            assert(t[i] == s[i + 1]);
        }
        assert(k - 1 == t.len() || !is_digit(t[k - 1]));
        lemma_digit_run_exact(t, k - 1);
    }
}

/// A head of `m` digits makes the digit run at least `m` long.
pub proof fn lemma_digit_run_min(s: Seq<char>, m: int)
    requires
        0 <= m <= s.len(),
        forall|i: int| 0 <= i < m ==> is_digit(#[trigger] s[i]),
    ensures
        digit_run_len(s) >= m,
    decreases s.len(),
{
    if m > 0 {
        assert(is_digit(s[0]));
        let t = s.subrange(1, s.len() as int);
        assert forall|i: int| 0 <= i < m - 1 implies is_digit(#[trigger] t[i]) by {
            assert(t[i] == s[i + 1]);
        }
        lemma_digit_run_min(t, m - 1);
        assert(digit_run_len(s) == 1 + digit_run_len(t));
    }
}

/// Powers of ten grow with the exponent.
pub proof fn lemma_pow10_mono(a: nat, b: nat)
    requires
        a <= b,
    ensures
        pow10(a) <= pow10(b),
    decreases b,
{
    if a < b {
        lemma_pow10_mono(a, (b - 1) as nat);
        assert(pow10(b) == 10 * pow10((b - 1) as nat));
    }
}

/// The marker the sensor output must start with.
pub open spec fn sensor_prefix() -> Seq<char> {
    seq!['t', 'e', 'm', 'p', '=']
}

/// Weight of a fractional part of `k` digits, bringing it to thousandths.
pub open spec fn frac_scale(k: int) -> nat {
    if k == 1 {
        100
    } else if k == 2 {
        10
    } else {
        1
    }
}

/// Read sensor output into a value in thousandths: the marker `temp=`, an
/// integer part of one to sixteen digits, and optionally a dot with one to
/// three fractional digits.  Output of any other shape has no value.
pub open spec fn parse_sensor(s: Seq<char>) -> Option<nat> {
    if s.len() < 6 {
        Option::None
    } else if s.subrange(0, 5) != sensor_prefix() {
        Option::None
    } else {
        let rest = s.subrange(5, s.len() as int);
        let k = digit_run_len(rest) as int;
        if k == 0 || k > 16 {
            Option::None
        } else {
            let ip = parse_digits(rest.subrange(0, k));
            if k < rest.len() && rest[k] == '.' {
                let fr = rest.subrange(k + 1, rest.len() as int);
                let fk = digit_run_len(fr) as int;
                if 1 <= fk <= 3 {
                    Option::Some(ip * 1000 + parse_digits(fr.subrange(0, fk)) * frac_scale(fk))
                } else {
                    Option::None
                }
            } else {
                Option::Some(ip * 1000)
            }
        }
    }
}

/// Scan the digit run of `s` that starts at `start` and read its value,
/// refusing runs longer than `limit` digits.  On success the result is the
/// index one past the run and the run's value.
#[verifier::rlimit(100)]
fn scan_digits(s: &str, start: usize, limit: usize) -> (r: Option<(usize, u64)>)
    requires
        start <= s@.len(),
        limit <= 16,
    ensures
        match r {
            Option::Some(p) => {
                &&& start <= p.0 <= s@.len()
                &&& p.0 - start <= limit
                &&& digit_run_len(s@.subrange(start as int, s@.len() as int)) == p.0 - start
                &&& forall|j: int| start <= j < p.0 ==> is_digit(#[trigger] s@[j])
                &&& p.1 == parse_digits(s@.subrange(start as int, p.0 as int))
                &&& p.1 < pow10((p.0 - start) as nat)
                &&& p.0 < s@.len() ==> !is_digit(s@[p.0 as int])
            },
            Option::None => digit_run_len(s@.subrange(start as int, s@.len() as int)) > limit,
        },
{
    let n = s.unicode_len();
    let mut i: usize = start;
    let mut acc: u64 = 0;
    let mut stop = false;
    while i < n && !stop
        invariant
            n == s@.len(),
            limit <= 16,
            start <= i <= n,
            i - start <= limit,
            forall|j: int| start <= j < i ==> is_digit(#[trigger] s@[j]),
            acc == parse_digits(s@.subrange(start as int, i as int)),
            acc < pow10((i - start) as nat),
            stop ==> i < n && !is_digit(s@[i as int]),
        decreases n - i + (if stop { 0int } else { 1int }),
    {
        let c = s.get_char(i);
        let u = c as u32;
        if 48 <= u && u <= 57 {
            proof {
                assert(is_digit(s@[i as int]));
                if i - start == limit {
                    let t = s@.subrange(start as int, s@.len() as int);
                    assert forall|j: int| 0 <= j < limit + 1 implies is_digit(
                        #[trigger] t[j],
                    ) by {
                        assert(t[j] == s@[j + start]);
                    }
                    lemma_digit_run_min(t, limit as int + 1);
                }
            }
            if i - start == limit {
                return Option::None;
            }
            proof {
                reveal_with_fuel(pow10, 18);
                lemma_pow10_mono((i - start) as nat, 15);
            }
            let d: u64 = (u - 48) as u64;
            let new_acc: u64 = acc * 10 + d;
            proof {
                let pre_digits = s@.subrange(start as int, i as int);
                let cur_digits = s@.subrange(start as int, i as int + 1);
                assert(cur_digits.drop_last() =~= pre_digits);
                assert(cur_digits.last() == s@[i as int]);
                assert(digit_val(s@[i as int]) == u - 48);
                assert(new_acc == parse_digits(cur_digits));
                assert(all_digits(cur_digits)) by {
                    assert forall|j: int| 0 <= j < cur_digits.len() implies is_digit(
                        #[trigger] cur_digits[j],
                    ) by {
                        assert(cur_digits[j] == s@[j + start]);
                    }
                }
                lemma_parse_digits_bound(cur_digits);
            }
            acc = new_acc;
            i += 1;
        } else {
            proof {
                assert(!is_digit(s@[i as int]));
            }
            stop = true;
        }
    }
    proof {
        let t = s@.subrange(start as int, s@.len() as int);
        assert forall|j: int| 0 <= j < i - start implies is_digit(#[trigger] t[j]) by {
            assert(t[j] == s@[j + start]);
        }
        if i < n {
            assert(t[i - start] == s@[i as int]);
        }
        lemma_digit_run_exact(t, i as int - start as int);
    }
    Option::Some((i, acc))
}

/// Parse sensor output into a gauge value in thousandths.
#[verifier::rlimit(100)]
pub fn parse_sensor_milli(s: &str) -> (r: Option<u64>)
    ensures
        match r {
            Option::Some(v) => parse_sensor(s@) == Option::Some(v as nat),
            Option::None => parse_sensor(s@) is None,
        },
{
    let n = s.unicode_len();
    if n < 6 {
        return Option::None;
    }
    let p0 = s.get_char(0);
    let p1 = s.get_char(1);
    let p2 = s.get_char(2);
    let p3 = s.get_char(3);
    let p4 = s.get_char(4);
    let prefix_ok = p0 as u32 == 116 && p1 as u32 == 101 && p2 as u32 == 109 && p3 as u32 == 112
        && p4 as u32 == 61;
    proof {
        let pre = s@.subrange(0, 5);
        assert(pre[0] == s@[0] && pre[1] == s@[1] && pre[2] == s@[2] && pre[3] == s@[3] && pre[4]
            == s@[4]);
        if prefix_ok {
            assert(s@[0] == 't' && s@[1] == 'e' && s@[2] == 'm' && s@[3] == 'p' && s@[4] == '=');
            assert(pre =~= sensor_prefix());
        } else {
            if pre == sensor_prefix() {
                assert(s@[0] == 't' && s@[1] == 'e' && s@[2] == 'm' && s@[3] == 'p' && s@[4]
                    == '=');
            }
        }
    }
    if !prefix_ok {
        return Option::None;
    }
    let ghost rest = s@.subrange(5, s@.len() as int);
    let scanned = scan_digits(s, 5, 16);
    let (i, acc) = match scanned {
        Option::Some(p) => p,
        Option::None => {
            proof {
                assert(digit_run_len(rest) > 16);
            }
            return Option::None;
        },
    };
    let k = i - 5;
    proof {
        assert(rest.len() == n - 5);
        assert(digit_run_len(rest) == k);
        assert(rest.subrange(0, k as int) =~= s@.subrange(5, i as int));
    }
    if k == 0 {
        return Option::None;
    }
    proof {
        reveal_with_fuel(pow10, 18);
        lemma_pow10_mono(k as nat, 16);
    }
    let base: u64 = acc * 1000;
    if i < n {
        let c = s.get_char(i);
        if c as u32 == 46 {
            proof {
                assert(s@[i as int] == '.');
                assert(rest[k as int] == s@[i as int]);
            }
            let ghost fr = rest.subrange(k as int + 1, rest.len() as int);
            let fscanned = scan_digits(s, i + 1, 3);
            proof {
                assert(fr =~= s@.subrange(i as int + 1, s@.len() as int));
            }
            let (fi, facc) = match fscanned {
                Option::Some(p) => p,
                Option::None => {
                    proof {
                        assert(digit_run_len(fr) > 3);
                    }
                    return Option::None;
                },
            };
            let fk = fi - (i + 1);
            proof {
                assert(digit_run_len(fr) == fk);
                assert(fr.subrange(0, fk as int) =~= s@.subrange(i as int + 1, fi as int));
            }
            if fk == 0 {
                return Option::None;
            }
            proof {
                reveal_with_fuel(pow10, 4);
            }
            let value: u64 = if fk == 1 {
                base + facc * 100
            } else if fk == 2 {
                base + facc * 10
            } else {
                base + facc
            };
            proof {
                assert(parse_digits(rest.subrange(0, k as int)) == acc);
                assert(parse_digits(fr.subrange(0, fk as int)) == facc);
                if fk == 1 {
                    assert(frac_scale(fk as int) == 100);
                } else if fk == 2 {
                    assert(frac_scale(fk as int) == 10);
                } else {
                    assert(frac_scale(fk as int) == 1);
                }
                assert(value as nat == parse_digits(rest.subrange(0, k as int)) * 1000
                    + parse_digits(fr.subrange(0, fk as int)) * frac_scale(fk as int));
                assert(parse_sensor(s@) == Option::Some(value as nat));
            }
            return Option::Some(value);
        }
        proof {
            assert(s@[i as int] != '.');
            assert(rest[k as int] == s@[i as int]);
        }
    }
    Option::Some(base)
}

/// Publish one diagnostics cycle into the gauge `h` indexes.  Output that
/// parses overwrites the gauge; a failed command (no output) or output of
/// the wrong shape changes nothing, so the last good reading stays
/// published.
pub fn diagnostics_cycle(store: &mut MetricStore, h: MetricHandle, output: Option<&str>) -> (updated:
    bool)
    requires
        old(store).is_gauge(h),
    ensures
        match output {
            Option::Some(t) => match parse_sensor(t@) {
                Option::Some(v) => updated && final(store).metrics@ == old(store).metrics@.update(
                    h.idx as int,
                    (Metric {
                        value_milli: Option::Some(v as u64),
                        ..old(store).metrics@[h.idx as int]
                    }),
                ),
                Option::None => !updated && *final(store) == *old(store),
            },
            Option::None => !updated && *final(store) == *old(store),
        },
        final(store).wf() <== old(store).wf(),
{
    match output {
        Option::Some(t) => {
            match parse_sensor_milli(t) {
                Option::Some(v) => {
                    store.set(h, v);
                    true
                },
                Option::None => false,
            }
        },
        Option::None => false,
    }
}

} // verus!
