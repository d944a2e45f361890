use crate::text::chars_of;
use vstd::prelude::*;

verus! {

/// The decimal digits of `n`, most significant first, without leading zeros.
pub open spec fn decimal(n: nat) -> Seq<char>
    decreases n,
{
    if n < 10 {
        seq![digit_char(n)]
    } else {
        decimal(n / 10).push(digit_char(n % 10))
    }
}

/// The character of the digit `d` (0 to 9).
pub open spec fn digit_char(d: nat) -> char {
    seq!['0', '1', '2', '3', '4', '5', '6', '7', '8', '9'][d as int]
}

/// `n` written with at least two digits.
pub open spec fn two_digits(n: nat) -> Seq<char> {
    if n < 10 {
        seq!['0'] + decimal(n)
    } else {
        decimal(n)
    }
}

/// The level of sample line `i`.
pub open spec fn sample_level(i: nat) -> Seq<char> {
    if i % 3 == 0 {
        "INFO"@
    } else if i % 3 == 1 {
        "WARN"@
    } else {
        "ERROR"@
    }
}

/// The service of sample line `i`.
pub open spec fn sample_service(i: nat) -> Seq<char> {
    if i % 5 == 0 {
        "auth"@
    } else if i % 5 == 1 {
        "billing"@
    } else if i % 5 == 2 {
        "inventory"@
    } else if i % 5 == 3 {
        "shipping"@
    } else {
        "frontend"@
    }
}

/// The user of sample line `i`.
pub open spec fn sample_user(i: nat) -> Seq<char> {
    if i % 5 == 0 {
        "alice"@
    } else if i % 5 == 1 {
        "bob"@
    } else if i % 5 == 2 {
        "charlie"@
    } else if i % 5 == 3 {
        "delta"@
    } else {
        "echo"@
    }
}

/// The path of sample line `i`.
pub open spec fn sample_path(i: nat) -> Seq<char> {
    if i % 5 == 0 {
        "/login"@
    } else if i % 5 == 1 {
        "/checkout"@
    } else if i % 5 == 2 {
        "/items"@
    } else if i % 5 == 3 {
        "/profile"@
    } else {
        "/api/v1/status"@
    }
}

/// The status of sample line `i`: 500 for every tenth line, else 404 for
/// every seventh, else 200.
pub open spec fn sample_status(i: nat) -> nat {
    if i % 10 == 0 {
        500
    } else if i % 7 == 0 {
        404
    } else {
        200
    }
}

/// The timestamp and level of sample line `i`.
pub open spec fn sample_head(i: nat) -> Seq<char> {
    "2026-03-28T12:00:"@ + two_digits(i % 60) + "Z "@ + sample_level(i)
}

/// The key=value fields of sample line `i`.
pub open spec fn sample_fields(i: nat) -> Seq<char> {
    " service="@ + sample_service(i) + " user="@ + sample_user(i) + " latency="@ + decimal((10 + i % 100) as nat)
        + " status="@ + decimal(sample_status(i)) + " path="@ + sample_path(i)
}

/// Sample line `i` of a generated log: every fiftieth line is malformed, the
/// others are `timestamp level key=value ...` records whose fields cycle
/// through fixed values.
pub open spec fn sample_line_text(i: nat) -> Seq<char> {
    if i % 50 == 0 {
        "MALFORMED LINE WITHOUT PROPER FORMATTING"@
    } else {
        sample_head(i) + sample_fields(i)
    }
}

/// A string holding the characters of `v`, in order (`String::from_iter`).
#[verifier::external_body]
fn string_from_chars(v: Vec<char>) -> (s: String)
    ensures
        s@ == v@,
{
    String::from_iter(v)
}

/// Appends the characters of `s` to `v`.
fn push_text(v: &mut Vec<char>, s: &str)
    ensures
        final(v)@ == old(v)@ + s@,
{
    let cs = chars_of(s);
    let mut i: usize = 0;
    while i < cs.len()
        invariant
            i <= cs@.len(),
            cs@ == s@,
            v@ == old(v)@ + cs@.take(i as int),
        decreases cs@.len() - i,
    {
        v.push(cs[i]);
        i = i + 1;
        assert(cs@.take(i as int) =~= cs@.take(i - 1).push(cs@[i - 1]));
    }
    assert(cs@.take(cs@.len() as int) =~= cs@);
}

/// Appends the decimal digits of `n` to `v`.
fn push_decimal(v: &mut Vec<char>, n: u64)
    ensures
        final(v)@ == old(v)@ + decimal(n as nat),
    decreases n,
{
    let digits: [char; 10] = ['0', '1', '2', '3', '4', '5', '6', '7', '8', '9'];
    assert(digits@ =~= seq!['0', '1', '2', '3', '4', '5', '6', '7', '8', '9']);
    if n >= 10 {
        push_decimal(v, n / 10);
    }
    let d = digits[(n % 10) as usize];
    v.push(d);
    if n < 10 {
        assert(v@ =~= old(v)@ + decimal(n as nat));
    } else {
        assert(v@ =~= old(v)@ + decimal(n as nat));
    }
}

/// The level of sample line `i`.
fn level_of(i: usize) -> (s: &'static str)
    ensures
        s@ == sample_level(i as nat),
{
    if i % 3 == 0 {
        "INFO"
    } else if i % 3 == 1 {
        "WARN"
    } else {
        "ERROR"
    }
}

/// The service of sample line `i`.
fn service_of(i: usize) -> (s: &'static str)
    ensures
        s@ == sample_service(i as nat),
{
    let k = i % 5;
    if k == 0 {
        "auth"
    } else if k == 1 {
        "billing"
    } else if k == 2 {
        "inventory"
    } else if k == 3 {
        "shipping"
    } else {
        "frontend"
    }
}

/// The user of sample line `i`.
fn user_of(i: usize) -> (s: &'static str)
    ensures
        s@ == sample_user(i as nat),
{
    let k = i % 5;
    if k == 0 {
        "alice"
    } else if k == 1 {
        "bob"
    } else if k == 2 {
        "charlie"
    } else if k == 3 {
        "delta"
    } else {
        "echo"
    }
}

/// The path of sample line `i`.
fn path_of(i: usize) -> (s: &'static str)
    ensures
        s@ == sample_path(i as nat),
{
    let k = i % 5;
    if k == 0 {
        "/login"
    } else if k == 1 {
        "/checkout"
    } else if k == 2 {
        "/items"
    } else if k == 3 {
        "/profile"
    } else {
        "/api/v1/status"
    }
}

/// Appends the timestamp and level of sample line `i`.
fn push_head(v: &mut Vec<char>, i: usize)
    ensures
        final(v)@ == old(v)@ + sample_head(i as nat),
{
    let second = (i % 60) as u64;
    push_text(v, "2026-03-28T12:00:");
    let ghost a = v@;
    if second < 10 {
        v.push('0');
    }
    push_decimal(v, second);
    assert(v@ =~= a + two_digits(i as nat % 60));
    push_text(v, "Z ");
    push_text(v, level_of(i));
    assert(v@ =~= old(v)@ + sample_head(i as nat));
}

/// Appends the key=value fields of sample line `i`.
fn push_fields(v: &mut Vec<char>, i: usize)
    ensures
        final(v)@ == old(v)@ + sample_fields(i as nat),
{
    let status: u64 = if i % 10 == 0 {
        500
    } else if i % 7 == 0 {
        404
    } else {
        200
    };
    push_text(v, " service=");
    push_text(v, service_of(i));
    push_text(v, " user=");
    push_text(v, user_of(i));
    push_text(v, " latency=");
    push_decimal(v, (10 + i % 100) as u64);
    push_text(v, " status=");
    push_decimal(v, status);
    push_text(v, " path=");
    push_text(v, path_of(i));
    assert(v@ =~= old(v)@ + sample_fields(i as nat));
}

/// Sample line `i` of a generated log.
pub fn sample_log_line(i: usize) -> (line: String)
    ensures
        line@ == sample_line_text(i as nat),
{
    let mut v: Vec<char> = Vec::new();
    if i % 50 == 0 {
        push_text(&mut v, "MALFORMED LINE WITHOUT PROPER FORMATTING");
    } else {
        push_head(&mut v, i);
        push_fields(&mut v, i);
    }
    assert(v@ =~= sample_line_text(i as nat));
    string_from_chars(v)
}

} // verus!
