use vstd::prelude::*;
use vstd::string::{StrSliceExecFns, StringExecFns};

verus! {

/// The character of the decimal digit `d`.
pub open spec fn digit_char(d: int) -> char {
    (('0' as int) + d) as char
}

/// Whether `c` is an ASCII decimal digit.
pub open spec fn is_digit(c: char) -> bool {
    '0' <= c && c <= '9'
}

/// The decimal digits of `m`, most significant first, without leading zeros.
pub open spec fn digits(m: nat) -> Seq<char>
    decreases m,
{
    if m < 10 {
        seq![digit_char(m as int)]
    } else {
        digits(m / 10).push(digit_char((m % 10) as int))
    }
}

/// The decimal numeral of `n`, as `i32::to_string` writes it.
pub open spec fn decimal(n: int) -> Seq<char> {
    if n < 0 {
        seq!['-'] + digits((-n) as nat)
    } else {
        digits(n as nat)
    }
}

/// The value of a string of decimal digits.
pub open spec fn digits_value(s: Seq<char>) -> int
    decreases s.len(),
{
    if s.len() == 0 {
        0
    } else {
        digits_value(s.drop_last()) * 10 + (s.last() as int - '0' as int)
    }
}

/// Whether every character of `s` is an ASCII decimal digit.
pub open spec fn all_digits(s: Seq<char>) -> bool {
    forall|i: int| 0 <= i < s.len() ==> is_digit(#[trigger] s[i])
}

/// `s` without its leading sign character, if it has one.
pub open spec fn unsigned_part(s: Seq<char>) -> Seq<char> {
    if s.len() > 0 && (s[0] == '-' || s[0] == '+') {
        s.subrange(1, s.len() as int)
    } else {
        s
    }
}

/// What `i32::from_str` gives for `s`: an optional sign followed by one or more
/// ASCII digits, whose value fits in an `i32`; `None` for every other string.
pub open spec fn parse_i32(s: Seq<char>) -> Option<i32> {
    let body = unsigned_part(s);
    let v = if s.len() > 0 && s[0] == '-' {
        -digits_value(body)
    } else {
        digits_value(body)
    };
    if body.len() > 0 && all_digits(body) && i32::MIN <= v <= i32::MAX {
        Some(v as i32)
    } else {
        None
    }
}

fn digit_text(d: u8) -> (r: &'static str)
    requires
        d < 10,
    ensures
        r@ == seq![digit_char(d as int)],
{
    proof {
        reveal_strlit("0");
        reveal_strlit("1");
        reveal_strlit("2");
        reveal_strlit("3");
        reveal_strlit("4");
        reveal_strlit("5");
        reveal_strlit("6");
        reveal_strlit("7");
        reveal_strlit("8");
        reveal_strlit("9");
    }
    let r = if d == 0 {
        "0"
    } else if d == 1 {
        "1"
    } else if d == 2 {
        "2"
    } else if d == 3 {
        "3"
    } else if d == 4 {
        "4"
    } else if d == 5 {
        "5"
    } else if d == 6 {
        "6"
    } else if d == 7 {
        "7"
    } else if d == 8 {
        "8"
    } else {
        "9"
    };
    assert(r@ =~= seq![digit_char(d as int)]);
    r
}

/// The decimal numeral of `n`.
pub fn decimal_text(n: i32) -> (r: String)
    ensures
        r@ == decimal(n as int),
{
    let m: u64 = if n < 0 {
        (0i64 - (n as i64)) as u64
    } else {
        n as u64
    };
    // the digits of `m`, least significant first
    let mut ds: Vec<u8> = Vec::new();
    let mut q: u64 = m;
    let ghost mut tail: Seq<char> = Seq::empty();
    while q >= 10
        invariant
            digits(m as nat) == digits(q as nat) + tail,
            tail.len() == ds.len(),
            forall|j: int| 0 <= j < ds.len() ==> ds@[j] < 10,
            forall|j: int|
                0 <= j < ds.len() ==> #[trigger] tail[j] == digit_char(ds@[ds.len() - 1 - j] as int),
        decreases q,
    {
        let d = (q % 10) as u8;
        proof {
            let t2 = seq![digit_char(d as int)] + tail;
            assert(digits(q as nat) == digits((q / 10) as nat).push(digit_char(d as int)));
            assert(digits((q / 10) as nat) + t2 =~= digits((q / 10) as nat).push(digit_char(d as int)) + tail);
            tail = t2;
        }
        ds.push(d);
        q = q / 10;
        assert forall|j: int| 0 <= j < ds.len() implies #[trigger] tail[j] == digit_char(ds@[ds.len() - 1 - j] as int) by {
            if j > 0 {
                assert(tail[j] == tail.subrange(1, tail.len() as int)[j - 1]);
            }
        }
    }
    ds.push(q as u8);
    let ghost all = digits(m as nat);
    assert(all == seq![digit_char(q as int)] + tail);
    let mut r = String::new();
    if n < 0 {
        r.append("-");
        proof { reveal_strlit("-"); }
    }
    let ghost start = r@;
    assert(start == (if n < 0 { seq!['-'] } else { Seq::<char>::empty() }));
    let mut k: usize = ds.len();
    while k > 0
        invariant
            0 <= k <= ds.len(),
            ds.len() == all.len(),
            forall|j: int| 0 <= j < ds.len() ==> ds@[j] < 10,
            forall|j: int| 0 <= j < ds.len() ==> #[trigger] all[j] == digit_char(ds@[ds.len() - 1 - j] as int),
            r@ == start + all.subrange(0, (ds.len() - k) as int),
        decreases k,
    {
        k = k - 1;
        let t = digit_text(ds[k]);
        r.append(t);
        assert(all.subrange(0, (ds.len() - k) as int) =~= all.subrange(0, (ds.len() - k - 1) as int).push(all[(ds.len() - k - 1) as int]));
    }
    assert(all.subrange(0, all.len() as int) =~= all);
    proof {
        if n < 0 {
            assert((-(n as int)) as nat == m as nat);
        }
    }
    r
}

proof fn lemma_digits_value_prefix(s: Seq<char>, i: int)
    requires
        0 <= i <= s.len(),
        forall|j: int| 0 <= j < s.len() ==> is_digit(#[trigger] s[j]),
    ensures
        digits_value(s.subrange(0, i)) <= digits_value(s),
        0 <= digits_value(s.subrange(0, i)),
    decreases s.len() - i,
{
    if i < s.len() {
        lemma_digits_value_prefix(s, i + 1);
        let p = s.subrange(0, i + 1);
        assert(p.drop_last() =~= s.subrange(0, i));
        assert(is_digit(p.last()));
    } else {
        assert(s.subrange(0, i) =~= s);
        lemma_digits_value_nonneg(s);
    }
}

proof fn lemma_digits_value_nonneg(s: Seq<char>)
    requires
        forall|j: int| 0 <= j < s.len() ==> is_digit(#[trigger] s[j]),
    ensures
        0 <= digits_value(s),
    decreases s.len(),
{
    if s.len() > 0 {
        let t = s.drop_last();
        assert forall|j: int| 0 <= j < t.len() implies is_digit(#[trigger] t[j]) by {
            assert(t[j] == s[j]);
        }
        lemma_digits_value_nonneg(t);
        assert(is_digit(s[s.len() - 1]));
    }
}

/// The value of `s` as `i32::from_str` reads it; `None` where it reports an error.
pub fn parse_i32_text(s: &str) -> (r: Option<i32>)
    ensures
        r == parse_i32(s@),
{
    let n = s.unicode_len();
    let mut start: usize = 0;
    let mut neg = false;
    if n > 0 {
        let c = s.get_char(0);
        if c == '-' {
            neg = true;
            start = 1;
        } else if c == '+' {
            start = 1;
        }
    }
    let ghost body = s@.subrange(start as int, n as int);
    assert(body =~= unsigned_part(s@));
    if start == n {
        return None;
    }
    let mut acc: i64 = 0;
    let mut i: usize = start;
    while i < n
        invariant
            n == s@.len(),
            start <= i <= n,
            body == s@.subrange(start as int, n as int),
            body == unsigned_part(s@),
            neg == (s@.len() > 0 && s@[0] == '-'),
            forall|j: int| start <= j < i ==> is_digit(#[trigger] s@[j]),
            acc == digits_value(body.subrange(0, i - start)),
            0 <= acc <= 2147483648,
        decreases n - i,
    {
        let c = s.get_char(i);
        if !('0' <= c && c <= '9') {
            assert(body[i - start] == c);
            assert(!is_digit(body[i - start]));
            return None;
        }
        let d = (c as u32 - '0' as u32) as i64;
        proof {
            let p = body.subrange(0, i - start + 1);
            assert(p.drop_last() =~= body.subrange(0, i - start));
            assert(p.last() == c);
        }
        acc = acc * 10 + d;
        i = i + 1;
        assert(acc == digits_value(body.subrange(0, i - start)));
        if acc > 2147483648 {
            proof {
                if all_digits(body) {
                    lemma_digits_value_prefix(body, i - start);
                    assert(digits_value(body) > 2147483648);
                }
            }
            return None;
        }
    }
    assert(body.subrange(0, body.len() as int) =~= body);
    assert forall|j: int| 0 <= j < body.len() implies is_digit(#[trigger] body[j]) by {
        assert(body[j] == s@[j + start]);
    }
    assert(all_digits(body));
    if neg {
        Some((0 - acc) as i32)
    } else if acc <= 2147483647 {
        Some(acc as i32)
    } else {
        None
    }
}

} // verus!
