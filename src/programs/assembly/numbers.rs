//! Unsigned integers written in decimal or hexadecimal.
use vstd::prelude::*;

verus! {

/// The value of `c` as a digit of base `radix` (10 or 16), if it is one.
pub open spec fn digit_value(c: char, radix: nat) -> Option<nat> {
    if '0' <= c && c <= '9' && (c as nat) - ('0' as nat) < radix {
        Some(((c as nat) - ('0' as nat)) as nat)
    } else if radix == 16 && 'a' <= c && c <= 'f' {
        Some(((c as nat) - ('a' as nat) + 10) as nat)
    } else if radix == 16 && 'A' <= c && c <= 'F' {
        Some(((c as nat) - ('A' as nat) + 10) as nat)
    } else {
        None
    }
}

/// All characters of `s` are digits of base `radix`.
pub open spec fn all_digits(s: Seq<char>, radix: nat) -> bool {
    forall|i: int| 0 <= i < s.len() ==> (#[trigger] digit_value(s[i], radix)) is Some
}

/// The number written by the digits `s`, most significant first.
pub open spec fn digits_value(s: Seq<char>, radix: nat) -> nat
    decreases s.len(),
{
    if s.len() == 0 {
        0
    } else {
        digits_value(s.drop_last(), radix) * radix + digit_value(s.last(), radix).unwrap_or(0)
    }
}

/// The unsigned number written by `s`: an optional `+`, then at least one digit of base
/// `radix`; `None` when `s` is not such a number or its value exceeds `max`.
pub open spec fn parse_uint_spec(s: Seq<char>, radix: nat, max: nat) -> Option<nat> {
    let body = if s.len() > 0 && s[0] == '+' {
        s.drop_first()
    } else {
        s
    };
    if body.len() > 0 && all_digits(body, radix) && digits_value(body, radix) <= max {
        Some(digits_value(body, radix))
    } else {
        None
    }
}

proof fn lemma_value_grows(s: Seq<char>, i: int, radix: nat)
    requires
        0 <= i <= s.len(),
        radix >= 1,
    ensures
        digits_value(s.subrange(0, i), radix) <= digits_value(s, radix),
    decreases s.len() - i,
{
    if i < s.len() {
        lemma_value_grows(s, i + 1, radix);
        let p = s.subrange(0, i + 1);
        assert(p.drop_last() =~= s.subrange(0, i));
        let v = digits_value(s.subrange(0, i), radix);
        assert(v * radix >= v) by (nonlinear_arith)
            requires
                radix >= 1,
                v >= 0,
        ;
    } else {
        assert(s.subrange(0, i) =~= s);
    }
}

fn char_digit(c: char, radix: u32) -> (r: Option<u32>)
    requires
        radix == 10 || radix == 16,
    ensures
        r is Some <==> digit_value(c, radix as nat) is Some,
        r is Some ==> r->0 as nat == digit_value(c, radix as nat)->0,
        r is Some ==> r->0 < radix,
{
    if '0' <= c && c <= '9' {
        Some((c as u32) - ('0' as u32))
    } else if radix == 16 && 'a' <= c && c <= 'f' {
        Some((c as u32) - ('a' as u32) + 10)
    } else if radix == 16 && 'A' <= c && c <= 'F' {
        Some((c as u32) - ('A' as u32) + 10)
    } else {
        None
    }
}

/// Reads the unsigned number in `s`, in base `radix`, that does not exceed `max`.
pub fn parse_uint(s: &str, radix: u32, max: u128) -> (r: Option<u128>)
    requires
        radix == 10 || radix == 16,
    ensures
        r is Some <==> parse_uint_spec(s@, radix as nat, max as nat) is Some,
        r is Some ==> r->0 as nat == parse_uint_spec(s@, radix as nat, max as nat)->0,
{
    let n = s.unicode_len();
    let mut start: usize = 0;
    if n > 0 && s.get_char(0) == '+' {
        start = 1;
    }
    let ghost body = if s@.len() > 0 && s@[0] == '+' {
        s@.drop_first()
    } else {
        s@
    };
    assert(body =~= s@.subrange(start as int, n as int));
    if start >= n {
        return None;
    }
    let mut value: u128 = 0;
    let mut i: usize = start;
    while i < n
        invariant
            start <= i <= n,
            n == s@.len(),
            radix == 10 || radix == 16,
            body =~= s@.subrange(start as int, n as int),
            body == if s@.len() > 0 && s@[0] == '+' {
                s@.drop_first()
            } else {
                s@
            },
            all_digits(body.subrange(0, i - start), radix as nat),
            value as nat == digits_value(body.subrange(0, i - start), radix as nat),
            value <= max,
        decreases n - i,
    {
        let c = s.get_char(i);
        let d = char_digit(c, radix);
        let ghost prefix = body.subrange(0, i - start + 1);
        assert(prefix.drop_last() =~= body.subrange(0, i - start));
        assert(prefix.last() == c);
        match d {
            None => {
                assert(!all_digits(body, radix as nat)) by {
                    assert(body[i - start] == c);
                }
                return None;
            },
            Some(dv) => {
                let dv = dv as u128;
                if dv > max || value > (max - dv) / (radix as u128) {
                    proof {
                        let v = value as int;
                        let m = max as int;
                        let dd = dv as int;
                        let rr = radix as int;
                        assert(v * rr + dd > m) by (nonlinear_arith)
                            requires
                                dd > m || v > (m - dd) / rr,
                                rr >= 10,
                                v >= 0,
                                dd >= 0,
                        ;
                        lemma_value_grows(body, i - start + 1, radix as nat);
                    }
                    return None;
                }
                proof {
                    let v = value as int;
                    let m = max as int;
                    let dd = dv as int;
                    let rr = radix as int;
                    assert(v * rr + dd <= m) by (nonlinear_arith)
                        requires
                            v <= (m - dd) / rr,
                            dd <= m,
                            rr >= 10,
                    ;
                    assert(all_digits(prefix, radix as nat)) by {
                        assert forall|k: int| 0 <= k < prefix.len() implies (#[trigger] digit_value(prefix[k], radix as nat)) is Some by {
                            if k < i - start {
                                assert(prefix[k] == body.subrange(0, i - start)[k]);
                            }
                        }
                    }
                }
                value = value * (radix as u128) + dv;
                i += 1;
            },
        }
    }
    assert(body.subrange(0, n - start) =~= body);
    Some(value)
}

/// Returns true when `a` and `b` hold the same characters.
pub fn str_eq(a: &str, b: &str) -> (r: bool)
    ensures
        r == (a@ == b@),
{
    let n = a.unicode_len();
    if n != b.unicode_len() {
        return false;
    }
    let mut i: usize = 0;
    while i < n
        invariant
            i <= n,
            n == a@.len(),
            n == b@.len(),
            forall|k: int| 0 <= k < i ==> a@[k] == b@[k],
        decreases n - i,
    {
        if a.get_char(i) != b.get_char(i) {
            return false;
        }
        i += 1;
    }
    assert(a@ =~= b@);
    true
}

/// Returns true when `s` begins with `prefix`.
pub fn str_starts_with(s: &str, prefix: &str) -> (r: bool)
    ensures
        r == (prefix@.len() <= s@.len() && s@.subrange(0, prefix@.len() as int) == prefix@),
{
    let n = prefix.unicode_len();
    if n > s.unicode_len() {
        return false;
    }
    let mut i: usize = 0;
    while i < n
        invariant
            i <= n,
            n == prefix@.len(),
            n <= s@.len(),
            forall|k: int| 0 <= k < i ==> s@[k] == prefix@[k],
        decreases n - i,
    {
        if s.get_char(i) != prefix.get_char(i) {
            assert(s@.subrange(0, n as int)[i as int] != prefix@[i as int]);
            return false;
        }
        i += 1;
    }
    assert(s@.subrange(0, n as int) =~= prefix@);
    true
}

} // verus!
