//! Pieces of claim payloads: decimal integers and token identifiers, how they
//! are written and how they are read back.
use vstd::prelude::*;
use vstd::string::{StrSliceExecFns, StringExecFns};

verus! {

/// The character for a decimal digit.
pub open spec fn digit_char(d: nat) -> char {
    if d == 0 { '0' }
    else if d == 1 { '1' }
    else if d == 2 { '2' }
    else if d == 3 { '3' }
    else if d == 4 { '4' }
    else if d == 5 { '5' }
    else if d == 6 { '6' }
    else if d == 7 { '7' }
    else if d == 8 { '8' }
    else { '9' }
}

/// The value of a decimal digit character, if it is one.
pub open spec fn digit_of(c: char) -> Option<nat> {
    if c == '0' { Some(0) }
    else if c == '1' { Some(1) }
    else if c == '2' { Some(2) }
    else if c == '3' { Some(3) }
    else if c == '4' { Some(4) }
    else if c == '5' { Some(5) }
    else if c == '6' { Some(6) }
    else if c == '7' { Some(7) }
    else if c == '8' { Some(8) }
    else if c == '9' { Some(9) }
    else { None }
}

/// Decimal text of a natural number, without leading zeros.
pub open spec fn nat_text(m: nat) -> Seq<char>
    decreases m,
{
    if m < 10 {
        seq![digit_char(m)]
    } else {
        nat_text(m / 10).push(digit_char(m % 10))
    }
}

/// Decimal text of an integer, with a leading '-' when it is negative.
pub open spec fn int_text(n: int) -> Seq<char> {
    if n < 0 {
        seq!['-'] + nat_text((-n) as nat)
    } else {
        nat_text(n as nat)
    }
}

/// The value of a run of digits.
pub open spec fn digits_value(s: Seq<char>) -> nat
    decreases s.len(),
{
    if s.len() == 0 {
        0
    } else {
        let d = match digit_of(s.last()) {
            Some(d) => d,
            None => 0,
        };
        digits_value(s.drop_last()) * 10 + d
    }
}

/// The index just past the run of digits that starts at `i`.
pub open spec fn digit_run_end(s: Seq<char>, i: int) -> int
    decreases s.len() - i,
{
    if 0 <= i < s.len() && digit_of(s[i]) is Some {
        digit_run_end(s, i + 1)
    } else {
        i
    }
}

pub open spec fn pow10(k: nat) -> nat
    decreases k,
{
    if k == 0 { 1 } else { 10 * pow10((k - 1) as nat) }
}

/// The integer written at `pos`: an optional '-', then at most nineteen digits,
/// with the value in range of `i64`; also where it ends.
pub open spec fn int_at(s: Seq<char>, pos: int) -> Option<(int, int)> {
    let neg = 0 <= pos < s.len() && s[pos] == '-';
    let start = if neg { pos + 1 } else { pos };
    let end = digit_run_end(s, start);
    if end == start || end - start > 19 {
        None
    } else {
        let v = digits_value(s.subrange(start, end));
        if neg {
            if v <= 0x8000_0000_0000_0000 { Some((-v, end)) } else { None }
        } else {
            if v <= 0x7fff_ffff_ffff_ffff { Some((v as int, end)) } else { None }
        }
    }
}

pub proof fn lemma_digit_roundtrip(d: nat)
    requires
        d < 10,
    ensures
        digit_of(digit_char(d)) == Some(d),
{
}

pub proof fn lemma_nat_text(m: nat)
    ensures
        nat_text(m).len() >= 1,
        digits_value(nat_text(m)) == m,
        forall|i: int| 0 <= i < nat_text(m).len() ==> (#[trigger] digit_of(nat_text(m)[i])) is Some,
    decreases m,
{
    lemma_digit_roundtrip(m % 10);
    if m < 10 {
        let t = nat_text(m);
        assert(t.drop_last() =~= Seq::<char>::empty());
        assert(t.last() == digit_char(m));
        assert(m % 10 == m);
        assert(digits_value(t) == digits_value(t.drop_last()) * 10 + m);
    } else {
        lemma_nat_text(m / 10);
        let t = nat_text(m);
        assert(t.drop_last() =~= nat_text(m / 10));
        assert(t.last() == digit_char(m % 10));
        assert(digits_value(t) == digits_value(t.drop_last()) * 10 + m % 10);
        assert(m == (m / 10) * 10 + m % 10);
    }
}

pub proof fn lemma_nat_text_len(m: nat, k: nat)
    requires
        k >= 1,
        m < pow10(k),
    ensures
        nat_text(m).len() <= k,
    decreases m,
{
    if m >= 10 {
        assert(k >= 2) by {
            if k == 1 {
                assert(pow10(1) == 10 * pow10(0));
            }
        }
        let k1 = (k - 1) as nat;
        assert(pow10(k) == 10 * pow10(k1));
        assert(m / 10 < pow10(k1)) by (nonlinear_arith)
            requires m < 10 * pow10(k1);
        lemma_nat_text_len(m / 10, k1);
    }
}

/// Every position inside a run of digits reaches the same end.
pub proof fn lemma_run_end(s: Seq<char>, i: int, end: int)
    requires
        0 <= i <= end <= s.len(),
        forall|j: int| i <= j < end ==> (#[trigger] digit_of(s[j])) is Some,
        end == s.len() || digit_of(s[end]) is None,
    ensures
        digit_run_end(s, i) == end,
    decreases end - i,
{
    if i < end {
        lemma_run_end(s, i + 1, end);
    }
}

/// Reading back an integer written at `pos`, followed by anything but a digit.
pub proof fn lemma_int_at_text(s: Seq<char>, pos: int, n: int)
    requires
        -0x8000_0000_0000_0000 <= n <= 0x7fff_ffff_ffff_ffff,
        0 <= pos,
        pos + int_text(n).len() <= s.len(),
        s.subrange(pos, pos + int_text(n).len()) == int_text(n),
        pos + int_text(n).len() == s.len() || digit_of(s[pos + int_text(n).len()]) is None,
    ensures
        int_at(s, pos) == Some((n, pos + int_text(n).len())),
{
    let m: nat = if n < 0 { (-n) as nat } else { n as nat };
    let t = nat_text(m);
    let start = if n < 0 { pos + 1 } else { pos };
    let end = pos + int_text(n).len();
    lemma_nat_text(m);
    reveal_with_fuel(pow10, 20);
    assert(pow10(19) == 10_000_000_000_000_000_000);
    lemma_nat_text_len(m, 19);
    assert(end == start + t.len());
    assert forall|j: int| start <= j < end implies (#[trigger] digit_of(s[j])) is Some by {
        if n < 0 {
            assert(s[j] == int_text(n)[j - pos]);
            assert(int_text(n)[j - pos] == t[j - pos - 1]);
        } else {
            assert(s[j] == t[j - pos]);
        }
    }
    lemma_run_end(s, start, end);
    assert(s.subrange(start, end) =~= t) by {
        if n < 0 {
            assert forall|j: int| 0 <= j < t.len() implies s.subrange(start, end)[j] == t[j] by {
                assert(s[start + j] == int_text(n)[j + 1]);
            }
        }
    }
    if n < 0 {
        assert(s[pos] == int_text(n)[0]);
    } else {
        assert(s[pos] == t[0]);
        assert(digit_of(t[0]) is Some);
    }
}

pub proof fn lemma_pow10_mono(a: nat, b: nat)
    requires
        a <= b,
    ensures
        pow10(a) <= pow10(b),
    decreases b,
{
    if a < b {
        lemma_pow10_mono(a, (b - 1) as nat);
    }
}

pub proof fn lemma_run_end_ge(s: Seq<char>, i: int)
    ensures
        digit_run_end(s, i) >= i,
    decreases s.len() - i,
{
    if 0 <= i < s.len() && digit_of(s[i]) is Some {
        lemma_run_end_ge(s, i + 1);
    }
}

/// The value of a digit character.
pub fn digit_value(c: char) -> (r: Option<u64>)
    ensures
        match digit_of(c) {
            Some(d) => r == Some(d as u64),
            None => r is None,
        },
{
    match c {
        '0' => Some(0),
        '1' => Some(1),
        '2' => Some(2),
        '3' => Some(3),
        '4' => Some(4),
        '5' => Some(5),
        '6' => Some(6),
        '7' => Some(7),
        '8' => Some(8),
        '9' => Some(9),
        _ => None,
    }
}

/// The characters of a string, one by one.
pub fn chars_of(s: &str) -> (r: Vec<char>)
    ensures
        r@ == s@,
{
    let n = s.unicode_len();
    let mut r: Vec<char> = Vec::new();
    let mut i: usize = 0;
    while i < n
        invariant
            n == s@.len(),
            i <= n,
            r@ == s@.subrange(0, i as int),
        decreases n - i,
    {
        r.push(s.get_char(i));
        i = i + 1;
    }
    assert(r@ =~= s@);
    r
}

/// Reads the integer written at `pos` (see `int_at`).
pub fn read_int(s: &Vec<char>, pos: usize) -> (r: Option<(i64, usize)>)
    requires
        pos <= s.len(),
    ensures
        match r {
            Some((v, e)) => int_at(s@, pos as int) == Some((v as int, e as int)) && pos < e <= s.len(),
            None => int_at(s@, pos as int) is None,
        },
{
    let neg = pos < s.len() && s[pos] == '-';
    let start: usize = if neg { pos + 1 } else { pos };
    let mut i: usize = start;
    let mut acc: u64 = 0;
    proof {
        assert(s@.subrange(start as int, start as int) =~= Seq::<char>::empty());
    }
    while i < s.len() && digit_value(s[i]).is_some()
        invariant
            neg == (pos < s.len() && s@[pos as int] == '-'),
            start == (if neg { pos + 1 } else { pos as int }),
            start <= i <= s.len(),
            i - start <= 19,
            acc == digits_value(s@.subrange(start as int, i as int)),
            acc < pow10((i - start) as nat),
            digit_run_end(s@, start as int) == digit_run_end(s@, i as int),
        decreases s.len() - i,
    {
        let d = match digit_value(s[i]) {
            Some(d) => d,
            None => 0,
        };
        if i - start == 19 {
            proof {
                assert(digit_of(s@[i as int]) is Some);
                assert(digit_run_end(s@, i as int) == digit_run_end(s@, i + 1));
                lemma_run_end_ge(s@, i + 1);
            }
            return None;
        }
        proof {
            let k = (i - start) as nat;
            let sub = s@.subrange(start as int, i + 1);
            assert(sub.drop_last() =~= s@.subrange(start as int, i as int));
            assert(sub.last() == s@[i as int]);
            assert(pow10(k + 1) == 10 * pow10(k));
            lemma_pow10_mono(k + 1, 19);
            reveal_with_fuel(pow10, 20);
            assert(acc * 10 + d < 10 * pow10(k)) by (nonlinear_arith)
                requires acc < pow10(k), d < 10;
        }
        acc = acc * 10 + d;
        i = i + 1;
    }
    if i == start {
        return None;
    }
    proof {
        assert(digit_run_end(s@, i as int) == i);
    }
    if neg {
        if acc < 0x8000_0000_0000_0000 {
            Some((-(acc as i64), i))
        } else if acc == 0x8000_0000_0000_0000 {
            Some((i64::MIN, i))
        } else {
            None
        }
    } else {
        if acc <= 0x7fff_ffff_ffff_ffff {
            Some((acc as i64, i))
        } else {
            None
        }
    }
}

/// Whether `lit` is written at `pos`; if so, where it ends.
pub fn expect_lit(s: &Vec<char>, pos: usize, lit: &str) -> (r: Option<usize>)
    requires
        pos <= s.len(),
    ensures
        match r {
            Some(e) => e == pos + lit@.len() && e <= s.len() && s@.subrange(pos as int, e as int) == lit@,
            None => !(pos + lit@.len() <= s.len() && s@.subrange(pos as int, pos + lit@.len()) == lit@),
        },
{
    let n = lit.unicode_len();
    if n > s.len() - pos {
        return None;
    }
    let mut j: usize = 0;
    while j < n
        invariant
            n == lit@.len(),
            pos + n <= s.len(),
            j <= n,
            s@.subrange(pos as int, pos + j) == lit@.subrange(0, j as int),
        decreases n - j,
    {
        if s[pos + j] != lit.get_char(j) {
            proof {
                assert(s@.subrange(pos as int, pos + n)[j as int] == s@[pos + j]);
            }
            return None;
        }
        proof {
            assert(s@.subrange(pos as int, pos + j + 1) =~= lit@.subrange(0, j + 1));
        }
        j = j + 1;
    }
    proof {
        assert(lit@.subrange(0, n as int) =~= lit@);
    }
    Some(pos + n)
}

/// The text of one decimal digit.
fn digit_str(d: u64) -> (r: &'static str)
    requires
        d < 10,
    ensures
        r@ == seq![digit_char(d as nat)],
{
    match d {
        0 => { proof { reveal_strlit("0"); } "0" },
        1 => { proof { reveal_strlit("1"); } "1" },
        2 => { proof { reveal_strlit("2"); } "2" },
        3 => { proof { reveal_strlit("3"); } "3" },
        4 => { proof { reveal_strlit("4"); } "4" },
        5 => { proof { reveal_strlit("5"); } "5" },
        6 => { proof { reveal_strlit("6"); } "6" },
        7 => { proof { reveal_strlit("7"); } "7" },
        8 => { proof { reveal_strlit("8"); } "8" },
        _ => { proof { reveal_strlit("9"); } "9" },
    }
}

/// Appends the decimal text of `m` to `out`.
fn push_nat(m: u64, out: &mut String)
    ensures
        final(out)@ == old(out)@ + nat_text(m as nat),
    decreases m,
{
    if m >= 10 {
        push_nat(m / 10, out);
    }
    out.append(digit_str(m % 10));
    proof {
        assert(out@ =~= old(out)@ + nat_text(m as nat));
    }
}

/// The decimal text of `n`.
pub fn int_string(n: i64) -> (r: String)
    ensures
        r@ == int_text(n as int),
{
    let mut r = String::new();
    if n < 0 {
        r.append("-");
        proof {
            reveal_strlit("-");
        }
        push_nat((0 - (n as i128)) as u64, &mut r);
        proof {
            assert(r@ =~= int_text(n as int));
        }
    } else {
        push_nat(n as u64, &mut r);
        proof {
            assert(r@ =~= int_text(n as int));
        }
    }
    r
}

/// Characters allowed in a token identifier: ASCII letters, digits and '-'.
pub open spec fn is_id_char(c: char) -> bool {
    ('0' <= c && c <= '9') || ('a' <= c && c <= 'z') || ('A' <= c && c <= 'Z') || c == '-'
}

pub open spec fn is_id(s: Seq<char>) -> bool {
    forall|i: int| 0 <= i < s.len() ==> is_id_char(#[trigger] s[i])
}

/// The index just past the run of identifier characters that starts at `i`.
pub open spec fn id_run_end(s: Seq<char>, i: int) -> int
    decreases s.len() - i,
{
    if 0 <= i < s.len() && is_id_char(s[i]) {
        id_run_end(s, i + 1)
    } else {
        i
    }
}

pub proof fn lemma_id_run_end(s: Seq<char>, i: int, end: int)
    requires
        0 <= i <= end <= s.len(),
        forall|j: int| i <= j < end ==> is_id_char(#[trigger] s[j]),
        end == s.len() || !is_id_char(s[end]),
    ensures
        id_run_end(s, i) == end,
    decreases end - i,
{
    if i < end {
        lemma_id_run_end(s, i + 1, end);
    }
}

/// Whether `c` is an identifier character.
pub fn id_char(c: char) -> (r: bool)
    ensures
        r == is_id_char(c),
{
    ('0' <= c && c <= '9') || ('a' <= c && c <= 'z') || ('A' <= c && c <= 'Z') || c == '-'
}

/// The end of the run of identifier characters that starts at `pos`.
pub fn read_id(s: &Vec<char>, pos: usize) -> (r: usize)
    requires
        pos <= s.len(),
    ensures
        r == id_run_end(s@, pos as int),
        pos <= r <= s.len(),
{
    let mut i: usize = pos;
    while i < s.len() && id_char(s[i])
        invariant
            pos <= i <= s.len(),
            id_run_end(s@, pos as int) == id_run_end(s@, i as int),
        decreases s.len() - i,
    {
        i = i + 1;
    }
    i
}

/// Whether every character of `s` is an identifier character.
pub fn is_id_str(s: &str) -> (r: bool)
    ensures
        r == is_id(s@),
{
    let n = s.unicode_len();
    let mut i: usize = 0;
    while i < n
        invariant
            n == s@.len(),
            i <= n,
            forall|j: int| 0 <= j < i ==> is_id_char(#[trigger] s@[j]),
        decreases n - i,
    {
        if !id_char(s.get_char(i)) {
            return false;
        }
        i = i + 1;
    }
    true
}

} // verus!
