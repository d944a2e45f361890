use vstd::prelude::*;

verus! {

/// Whether `c` has the Unicode White_Space property (`char::is_whitespace`).
pub open spec fn is_ws(c: char) -> bool {
    let u = c as u32;
    ||| 0x09 <= u <= 0x0d
    ||| u == 0x20
    ||| u == 0x85
    ||| u == 0xa0
    ||| u == 0x1680
    ||| 0x2000 <= u <= 0x200a
    ||| u == 0x2028
    ||| u == 0x2029
    ||| u == 0x202f
    ||| u == 0x205f
    ||| u == 0x3000
}

/// The words of `s` (its maximal runs of non-whitespace characters), given
/// that `cur` is the part of a word already read before `s`.
pub open spec fn words_after(s: Seq<char>, cur: Seq<char>) -> Seq<Seq<char>>
    decreases s.len(),
{
    if s.len() == 0 {
        if cur.len() > 0 {
            seq![cur]
        } else {
            Seq::empty()
        }
    } else if is_ws(s[0]) {
        (if cur.len() > 0 {
            seq![cur]
        } else {
            Seq::empty()
        }) + words_after(s.drop_first(), Seq::empty())
    } else {
        words_after(s.drop_first(), cur.push(s[0]))
    }
}

/// The words of `s`, in order, as `str::split_whitespace` yields them.
pub open spec fn words(s: Seq<char>) -> Seq<Seq<char>> {
    words_after(s, Seq::empty())
}

/// The parts of `w` before and after its first `=`, as `str::split_once('=')`
/// gives them, or `None` when `w` holds no `=`.
pub open spec fn split_at_eq(w: Seq<char>) -> Option<(Seq<char>, Seq<char>)>
    decreases w.len(),
{
    if w.len() == 0 {
        None
    } else if w[0] == '=' {
        Some((Seq::empty(), w.drop_first()))
    } else {
        match split_at_eq(w.drop_first()) {
            Some((k, v)) => Some((seq![w[0]] + k, v)),
            None => None,
        }
    }
}

/// Whether every character of `d` is an ASCII decimal digit.
pub open spec fn all_digits(d: Seq<char>) -> bool {
    forall|i: int| 0 <= i < d.len() ==> '0' <= #[trigger] d[i] <= '9'
}

/// The number that the decimal digits `d` write.
pub open spec fn digits_value(d: Seq<char>) -> int
    decreases d.len(),
{
    if d.len() == 0 {
        0
    } else {
        digits_value(d.drop_last()) * 10 + (d.last() as int - '0' as int)
    }
}

/// What parsing `s` as an unsigned integer no greater than `max` gives (the
/// `FromStr` of Rust's unsigned integer types): an optional `+`, then one or
/// more decimal digits, whose value must not exceed `max`.
pub open spec fn parse_unsigned(s: Seq<char>, max: int) -> Option<int> {
    let d = if s.len() > 0 && s[0] == '+' {
        s.drop_first()
    } else {
        s
    };
    if d.len() > 0 && all_digits(d) && digits_value(d) <= max {
        Some(digits_value(d))
    } else {
        None
    }
}

/// The characters of `s`, in order.
pub fn chars_of(s: &str) -> (v: Vec<char>)
    ensures
        v@ == s@,
{
    let mut v: Vec<char> = Vec::new();
    for c in it: s.chars()
        invariant
            v@ == it.seq().take(it.index() as int),
            it.seq() == s@,
    {
        v.push(c);
    }
    v
}

/// Whether `c` is whitespace (`char::is_whitespace`).
pub fn is_whitespace(c: char) -> (r: bool)
    ensures
        r == is_ws(c),
{
    let u = c as u32;
    (0x09 <= u && u <= 0x0d) || u == 0x20 || u == 0x85 || u == 0xa0 || u == 0x1680 || (0x2000 <= u && u
        <= 0x200a) || u == 0x2028 || u == 0x2029 || u == 0x202f || u == 0x205f || u == 0x3000
}

/// The character spans `(start, end)` of the words of `s`, in order.
pub fn word_spans(s: &Vec<char>) -> (spans: Vec<(usize, usize)>)
    ensures
        spans@.len() == words(s@).len(),
        forall|k: int|
            0 <= k < spans@.len() ==> {
                let (a, b) = #[trigger] spans@[k];
                &&& a < b <= s@.len()
                &&& s@.subrange(a as int, b as int) == words(s@)[k]
            },
{
    let mut spans: Vec<(usize, usize)> = Vec::new();
    let mut start: usize = 0;
    let mut in_word = false;
    let mut i: usize = 0;
    let n = s.len();
    proof {
        assert(s@.skip(0) =~= s@);
        assert(s@.subrange(0, 0) =~= Seq::<char>::empty());
        assert(spans@.map_values(|p: (usize, usize)| s@.subrange(p.0 as int, p.1 as int)) =~= Seq::<Seq<char>>::empty());
    }
    while i < n
        invariant
            n == s@.len(),
            i <= n,
            in_word ==> start < i,
            !in_word ==> start == i,
            forall|k: int|
                0 <= k < spans@.len() ==> {
                    let (a, b) = #[trigger] spans@[k];
                    &&& a < b <= i
                    &&& (a <= start)
                },
            words(s@) == spans@.map_values(|p: (usize, usize)| s@.subrange(p.0 as int, p.1 as int))
                + words_after(s@.skip(i as int), s@.subrange(start as int, i as int)),
        decreases n - i,
    {
        let c = s[i];
        proof {
            assert(s@.skip(i as int)[0] == c);
            assert(s@.skip(i as int).drop_first() =~= s@.skip(i + 1));
        }
        if is_whitespace(c) {
            if in_word {
                let ghost prev = spans@;
                spans.push((start, i));
                proof {
                    assert(spans@.map_values(|p: (usize, usize)| s@.subrange(p.0 as int, p.1 as int))
                        =~= prev.map_values(|p: (usize, usize)| s@.subrange(p.0 as int, p.1 as int)).push(
                        s@.subrange(start as int, i as int)));
                }
            }
            proof {
                assert(s@.subrange((i + 1) as int, (i + 1) as int) =~= Seq::<char>::empty());
                assert(in_word <==> s@.subrange(start as int, i as int).len() > 0);
            }
            start = i + 1;
            in_word = false;
        } else {
            proof {
                assert(s@.subrange(start as int, i as int).push(c) =~= s@.subrange(start as int, i + 1));
            }
            in_word = true;
        }
        i = i + 1;
    }
    proof {
        assert(s@.skip(n as int) =~= Seq::<char>::empty());
    }
    if in_word {
        let ghost prev = spans@;
        spans.push((start, n));
        proof {
            assert(spans@.map_values(|p: (usize, usize)| s@.subrange(p.0 as int, p.1 as int)) =~= prev.map_values(
                |p: (usize, usize)| s@.subrange(p.0 as int, p.1 as int),
            ).push(s@.subrange(start as int, n as int)));
        }
    } else {
        proof {
            assert(s@.subrange(start as int, n as int) =~= Seq::<char>::empty());
        }
    }
    proof {
        let m = spans@.map_values(|p: (usize, usize)| s@.subrange(p.0 as int, p.1 as int));
        assert(words(s@) =~= m);
        assert forall|k: int| 0 <= k < spans@.len() implies ({
            let (a, b) = #[trigger] spans@[k];
            &&& a < b <= s@.len()
            &&& s@.subrange(a as int, b as int) == words(s@)[k]
        }) by {
            assert(m[k] == s@.subrange(spans@[k].0 as int, spans@[k].1 as int));
        }
    }
    spans
}

/// `split_at_eq` splits at the first `=`.
proof fn lemma_split_at_eq(w: Seq<char>, e: int)
    requires
        0 <= e <= w.len(),
        forall|j: int| 0 <= j < e ==> w[j] != '=',
    ensures
        e < w.len() && w[e] == '=' ==> split_at_eq(w) == Some((w.take(e), w.skip(e + 1))),
        e == w.len() ==> split_at_eq(w) is None,
    decreases e,
{
    if e > 0 {
        lemma_split_at_eq(w.drop_first(), e - 1);
        if e < w.len() && w[e] == '=' {
            assert(seq![w[0]] + w.drop_first().take(e - 1) =~= w.take(e));
            assert(w.drop_first().skip(e) =~= w.skip(e + 1));
        }
    } else if w.len() > 0 {
        assert(w.take(0) =~= Seq::<char>::empty());
        assert(w.skip(1) =~= w.drop_first());
    }
}

/// The position of the first `=` among `s[a..b]`.
pub fn find_eq(s: &Vec<char>, a: usize, b: usize) -> (r: Option<usize>)
    requires
        a <= b <= s@.len(),
    ensures
        match split_at_eq(s@.subrange(a as int, b as int)) {
            None => r is None,
            Some((k, v)) => r matches Some(e) && a <= e < b && k == s@.subrange(a as int, e as int) && v
                == s@.subrange(e + 1, b as int),
        },
{
    let ghost w = s@.subrange(a as int, b as int);
    let mut i = a;
    while i < b
        invariant
            a <= i <= b,
            b <= s@.len(),
            w == s@.subrange(a as int, b as int),
            forall|j: int| 0 <= j < i - a ==> w[j] != '=',
        decreases b - i,
    {
        if s[i] == '=' {
            proof {
                lemma_split_at_eq(w, i - a);
                assert(w.take(i - a) =~= s@.subrange(a as int, i as int));
                assert(w.skip(i - a + 1) =~= s@.subrange(i + 1, b as int));
            }
            return Some(i);
        }
        i = i + 1;
    }
    proof {
        lemma_split_at_eq(w, b - a);
    }
    None
}

/// Whether `s[a..b]` is the word `lit`.
pub fn span_equals(s: &Vec<char>, a: usize, b: usize, lit: &[char]) -> (r: bool)
    requires
        a <= b <= s@.len(),
    ensures
        r == (s@.subrange(a as int, b as int) == lit@),
{
    if b - a != lit.len() {
        return false;
    }
    let mut i: usize = 0;
    while i < lit.len()
        invariant
            b - a == lit@.len(),
            a <= b <= s@.len(),
            i <= lit@.len(),
            forall|j: int| 0 <= j < i ==> s@[a + j] == lit@[j],
        decreases lit@.len() - i,
    {
        if s[a + i] != lit[i] {
            assert(s@.subrange(a as int, b as int)[i as int] != lit@[i as int]);
            return false;
        }
        i = i + 1;
    }
    assert(s@.subrange(a as int, b as int) =~= lit@);
    true
}

/// The text of the characters `a..b` of `line`.
pub fn span_string(line: &str, a: usize, b: usize) -> (r: String)
    requires
        a <= b <= line@.len(),
    ensures
        r@ == line@.subrange(a as int, b as int),
{
    let sub = line.substring_char(a, b);
    String::from_str(sub)
}

proof fn lemma_digits_push(d: Seq<char>, c: char)
    ensures
        digits_value(d.push(c)) == digits_value(d) * 10 + (c as int - '0' as int),
        all_digits(d) && '0' <= c <= '9' ==> all_digits(d.push(c)),
{
    assert(d.push(c).drop_last() =~= d);
    if all_digits(d) && '0' <= c <= '9' {
        assert forall|i: int| 0 <= i < d.push(c).len() implies '0' <= #[trigger] d.push(c)[i] <= '9' by {
            if i < d.len() {
                assert(d.push(c)[i] == d[i]);
            }
        }
    }
}

pub(crate) proof fn lemma_digits_nonneg(d: Seq<char>)
    requires
        all_digits(d),
    ensures
        digits_value(d) >= 0,
    decreases d.len(),
{
    if d.len() > 0 {
        assert(all_digits(d.drop_last())) by {
            assert forall|i: int| 0 <= i < d.drop_last().len() implies '0' <= #[trigger] d.drop_last()[i] <= '9' by {
                assert(d.drop_last()[i] == d[i]);
            }
        }
        lemma_digits_nonneg(d.drop_last());
        assert('0' <= d[d.len() - 1] <= '9');
    }
}

/// Parses `s[a..b]` as an unsigned integer no greater than `max`, as the
/// `FromStr` of Rust's unsigned integer types does.
pub fn parse_unsigned_span(s: &Vec<char>, a: usize, b: usize, max: u64) -> (r: Option<u64>)
    requires
        a <= b <= s@.len(),
    ensures
        match parse_unsigned(s@.subrange(a as int, b as int), max as int) {
            Some(x) => r == Some(x as u64),
            None => r is None,
        },
{
    let ghost w = s@.subrange(a as int, b as int);
    let mut start = a;
    if a < b && s[a] == '+' {
        assert(w[0] == s@[a as int]);
        start = a + 1;
        assert(w.drop_first() =~= s@.subrange(start as int, b as int));
    } else {
        assert(a < b ==> w[0] == s@[a as int]);
        assert(w =~= s@.subrange(start as int, b as int));
    }
    let ghost d = s@.subrange(start as int, b as int);
    if start == b {
        return None;
    }
    let mut value: u64 = 0;
    let mut over = false;
    let mut i = start;
    assert(s@.subrange(start as int, start as int) =~= Seq::<char>::empty());
    while i < b
        invariant
            start <= i <= b,
            b <= s@.len(),
            d == s@.subrange(start as int, b as int),
            w == s@.subrange(a as int, b as int),
            d == (if w.len() > 0 && w[0] == '+' {
                w.drop_first()
            } else {
                w
            }),
            all_digits(s@.subrange(start as int, i as int)),
            !over ==> value == digits_value(s@.subrange(start as int, i as int)) && value <= max,
            over ==> digits_value(s@.subrange(start as int, i as int)) > max,
        decreases b - i,
    {
        let c = s[i];
        let ghost p = s@.subrange(start as int, i as int);
        proof {
            assert(p.push(c) =~= s@.subrange(start as int, i + 1));
            lemma_digits_push(p, c);
            lemma_digits_nonneg(p);
        }
        if c < '0' || c > '9' {
            assert(d[i - start] == c);
            return None;
        }
        assert('0' <= c <= '9');
        let digit = (c as u32 - 48) as u64;
        assert(digit == c as int - '0' as int);
        if !over {
            if digit > max || value > (max - digit) / 10 {
                assert(value * 10 + digit > max) by (nonlinear_arith)
                    requires
                        digit > max || value > (max - digit) / 10,
                        digit <= max ==> max - digit >= 0,
                        value >= 0,
                ;
                over = true;
            } else {
                assert(value * 10 + digit <= max) by (nonlinear_arith)
                    requires
                        value <= (max - digit) / 10,
                        digit <= 9,
                        value <= max,
                ;
                value = value * 10 + digit;
            }
        }
        i = i + 1;
    }
    assert(s@.subrange(start as int, b as int) == d);
    if over {
        None
    } else {
        Some(value)
    }
}

} // verus!
