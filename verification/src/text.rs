//! Reading and composing the text that the pucks and the host exchange.
//!
//! Shell replies are read by searching, splitting and trimming; everything the
//! library says about a text is said over its sequence of characters.

use vstd::prelude::*;

verus! {

/// The characters with Unicode's `White_Space` property.
pub open spec fn is_space(c: char) -> bool {
    ||| '\u{9}' <= c <= '\u{d}'
    ||| c == ' '
    ||| c == '\u{85}'
    ||| c == '\u{a0}'
    ||| c == '\u{1680}'
    ||| '\u{2000}' <= c <= '\u{200a}'
    ||| c == '\u{2028}'
    ||| c == '\u{2029}'
    ||| c == '\u{202f}'
    ||| c == '\u{205f}'
    ||| c == '\u{3000}'
}

/// `part` stands in `s` at position `i`.
pub open spec fn stands_at(s: Seq<char>, part: Seq<char>, i: int) -> bool {
    0 <= i && i + part.len() <= s.len() && s.subrange(i, i + part.len()) == part
}

/// The first position, from `from` on, at which `part` stands in `s`.
pub open spec fn first_at(s: Seq<char>, part: Seq<char>, from: int) -> Option<int>
    decreases s.len() + 1 - from,
{
    if from + part.len() > s.len() {
        None
    } else if stands_at(s, part, from) {
        Some(from)
    } else {
        first_at(s, part, from + 1)
    }
}

/// The last position, up to `upto`, at which `part` stands in `s`.
pub open spec fn last_at(s: Seq<char>, part: Seq<char>, upto: int) -> Option<int>
    decreases upto + 1,
{
    if upto < 0 {
        None
    } else if stands_at(s, part, upto) {
        Some(upto)
    } else {
        last_at(s, part, upto - 1)
    }
}

/// `part` stands somewhere in `s`.
pub open spec fn holds(s: Seq<char>, part: Seq<char>) -> bool {
    first_at(s, part, 0) is Some
}

/// `s` without the white space at its two ends.
pub open spec fn trimmed(s: Seq<char>) -> Seq<char>
    decreases s.len(),
{
    if s.len() == 0 {
        s
    } else if is_space(s.first()) {
        trimmed(s.drop_first())
    } else if is_space(s.last()) {
        trimmed(s.drop_last())
    } else {
        s
    }
}

/// How many characters of `s`, from `from` on, come before the next white
/// space.
pub open spec fn word_end(s: Seq<char>, from: int) -> int
    decreases s.len() - from,
{
    if from >= s.len() || is_space(s[from]) {
        from
    } else {
        word_end(s, from + 1)
    }
}

/// The first run of characters of `s` that holds no white space; empty where
/// `s` is blank.
pub open spec fn first_word_of(s: Seq<char>) -> Seq<char> {
    trimmed(s).take(word_end(trimmed(s), 0))
}

/// What lies between the occurrences of `sep` in `s`, from left to right.
pub open spec fn pieces(s: Seq<char>, sep: Seq<char>) -> Seq<Seq<char>>
    decreases s.len(),
{
    match first_at(s, sep, 0) {
        Some(i) => if sep.len() > 0 && 0 <= i && i + sep.len() <= s.len() {
            seq![s.take(i)] + pieces(s.skip((i + sep.len()) as int), sep)
        } else {
            seq![s]
        },
        None => seq![s],
    }
}

pub open spec fn is_digit(c: char) -> bool {
    '0' <= c <= '9'
}

/// Every character of `s` is a decimal digit.
pub open spec fn all_digits(s: Seq<char>) -> bool {
    forall|i: int| 0 <= i < s.len() ==> is_digit(#[trigger] s[i])
}

/// The number that a run of decimal digits writes.
pub open spec fn digits_value(s: Seq<char>) -> nat
    decreases s.len(),
{
    if s.len() == 0 {
        0
    } else {
        10 * digits_value(s.drop_last()) + (s.last() as nat - '0' as nat) as nat
    }
}

/// The number that `s` writes in decimal, with or without a leading plus sign,
/// provided that it does not exceed `max`.
pub open spec fn unsigned_in(s: Seq<char>, max: nat) -> Option<nat> {
    let body = if s.len() > 0 && s[0] == '+' {
        s.drop_first()
    } else {
        s
    };
    if body.len() > 0 && all_digits(body) && digits_value(body) <= max {
        Some(digits_value(body))
    } else {
        None
    }
}

/// The number that `s` writes in decimal, with or without a leading sign,
/// provided that it lies between `-max - 1` and `max`.
pub open spec fn signed_in(s: Seq<char>, max: nat) -> Option<int> {
    if s.len() > 0 && s[0] == '-' {
        let body = s.drop_first();
        if body.len() > 0 && all_digits(body) && digits_value(body) <= max + 1 {
            Some(-(digits_value(body) as int))
        } else {
            None
        }
    } else {
        match unsigned_in(s, max) {
            Some(n) => Some(n as int),
            None => None,
        }
    }
}

/// How `n` is written in decimal.
pub open spec fn decimal_of(n: nat) -> Seq<char>
    decreases n,
{
    if n < 10 {
        seq![digit_of(n)]
    } else {
        decimal_of(n / 10).push(digit_of(n % 10))
    }
}

/// The character of one decimal digit.
pub open spec fn digit_of(n: nat) -> char {
    "0123456789"@[n as int]
}

/// How `n` is written in decimal, with a minus sign where it is negative.
pub open spec fn signed_decimal_of(n: int) -> Seq<char> {
    if n < 0 {
        "-"@ + decimal_of((-n) as nat)
    } else {
        decimal_of(n as nat)
    }
}

/// The characters of `s`.
pub fn chars_of(s: &str) -> (r: Vec<char>)
    ensures
        r@ == s@,
{
    let mut out: Vec<char> = Vec::new();
    for c in it: s.chars()
        invariant
            it.seq() == s@,
            out@ == s@.take(it.index() as int),
    {
        proof {
            assert(s@.take(it.index() + 1) =~= s@.take(it.index() as int).push(c));
        }
        out.push(c);
    }
    proof {
        assert(s@.take(s@.len() as int) =~= s@);
    }
    out
}

/// Whether two texts hold the same characters.
pub fn same(a: &str, b: &str) -> (r: bool)
    ensures
        r == (a@ == b@),
{
    let x = chars_of(a);
    let y = chars_of(b);
    if x.len() != y.len() {
        return false;
    }
    let mut i: usize = 0;
    while i < x.len()
        invariant
            i <= x.len(),
            x@ == a@,
            y@ == b@,
            x.len() == y.len(),
            forall|k: int| 0 <= k < i ==> x@[k] == y@[k],
        decreases x.len() - i,
    {
        if x[i] != y[i] {
            return false;
        }
        i = i + 1;
    }
    proof {
        assert(a@ =~= b@);
    }
    true
}

/// Whether the characters `p` stand in `v` at `i`.
fn stands_here(v: &Vec<char>, p: &Vec<char>, i: usize) -> (r: bool)
    requires
        i + p.len() <= v.len(),
    ensures
        r == stands_at(v@, p@, i as int),
{
    let mut k: usize = 0;
    while k < p.len()
        invariant
            k <= p.len(),
            i + p.len() <= v.len(),
            forall|j: int| 0 <= j < k ==> v@[i + j] == p@[j],
        decreases p.len() - k,
    {
        if v[i + k] != p[k] {
            proof {
                assert(v@.subrange(i as int, i + p.len())[k as int] != p@[k as int]);
            }
            return false;
        }
        k = k + 1;
    }
    proof {
        assert(v@.subrange(i as int, i + p.len()) =~= p@);
    }
    true
}

/// The position of the first `part` in `s`.
pub fn find(s: &str, part: &str) -> (r: Option<usize>)
    ensures
        match r {
            Some(i) => first_at(s@, part@, 0) == Some(i as int) && stands_at(s@, part@, i as int),
            None => first_at(s@, part@, 0) is None,
        },
{
    let v = chars_of(s);
    let p = chars_of(part);
    if p.len() > v.len() {
        return None;
    }
    let mut i: usize = 0;
    while i <= v.len() - p.len()
        invariant
            v@ == s@,
            p@ == part@,
            p.len() <= v.len(),
            i <= v.len() - p.len() + 1,
            first_at(s@, part@, 0) == first_at(s@, part@, i as int),
        decreases v.len() - i,
    {
        if stands_here(&v, &p, i) {
            return Some(i);
        }
        if i == v.len() - p.len() {
            proof {
                assert(first_at(s@, part@, i + 1) is None);
            }
            return None;
        }
        i = i + 1;
    }
    None
}

/// The position of the last `part` in `s`.
pub fn rfind(s: &str, part: &str) -> (r: Option<usize>)
    ensures
        match r {
            Some(i) => last_at(s@, part@, s@.len() - part@.len()) == Some(i as int) && stands_at(
                s@,
                part@,
                i as int,
            ),
            None => last_at(s@, part@, s@.len() - part@.len()) is None,
        },
{
    let v = chars_of(s);
    let p = chars_of(part);
    if p.len() > v.len() {
        return None;
    }
    let mut i: usize = v.len() - p.len();
    loop
        invariant
            v@ == s@,
            p@ == part@,
            p.len() <= v.len(),
            i <= v.len() - p.len(),
            last_at(s@, part@, s@.len() - part@.len()) == last_at(s@, part@, i as int),
        decreases i,
    {
        if stands_here(&v, &p, i) {
            return Some(i);
        }
        if i == 0 {
            proof {
                assert(last_at(s@, part@, -1) is None);
            }
            return None;
        }
        i = i - 1;
    }
}

/// Whether `part` stands in `s`.
pub fn contains(s: &str, part: &str) -> (r: bool)
    ensures
        r == holds(s@, part@),
{
    find(s, part).is_some()
}

/// Whether `c` is white space.
pub fn space(c: char) -> (r: bool)
    ensures
        r == is_space(c),
{
    ('\u{9}' <= c && c <= '\u{d}') || c == ' ' || c == '\u{85}' || c == '\u{a0}' || c == '\u{1680}'
        || ('\u{2000}' <= c && c <= '\u{200a}') || c == '\u{2028}' || c == '\u{2029}' || c
        == '\u{202f}' || c == '\u{205f}' || c == '\u{3000}'
}

/// `s` without the white space at its two ends.
pub fn trim<'a>(s: &'a str) -> (r: &'a str)
    ensures
        r@ == trimmed(s@),
{
    let v = chars_of(s);
    let mut i: usize = 0;
    let mut j: usize = v.len();
    proof {
        assert(s@.subrange(0, j as int) =~= s@);
    }
    while i < j && space(v[i])
        invariant
            v@ == s@,
            i <= j <= v.len(),
            j == v.len(),
            trimmed(s@) == trimmed(s@.subrange(i as int, j as int)),
        decreases j - i,
    {
        proof {
            let t = s@.subrange(i as int, j as int);
            assert(t.drop_first() =~= s@.subrange(i + 1, j as int));
        }
        i = i + 1;
    }
    while i < j && space(v[j - 1])
        invariant
            v@ == s@,
            i <= j <= v.len(),
            i < j ==> !is_space(s@[i as int]),
            trimmed(s@) == trimmed(s@.subrange(i as int, j as int)),
        decreases j - i,
    {
        proof {
            let t = s@.subrange(i as int, j as int);
            assert(t.drop_last() =~= s@.subrange(i as int, j - 1));
            assert(t.first() == s@[i as int]);
            assert(t.last() == s@[j - 1]);
        }
        j = j - 1;
    }
    s.substring_char(i, j)
}

/// The part of `s` before position `n`.
pub fn before<'a>(s: &'a str, n: usize) -> (r: &'a str)
    requires
        n <= s@.len(),
    ensures
        r@ == s@.take(n as int),
{
    s.substring_char(0, n)
}

/// The part of `s` from position `n` on.
pub fn from<'a>(s: &'a str, n: usize) -> (r: &'a str)
    requires
        n <= s@.len(),
    ensures
        r@ == s@.skip(n as int),
{
    let len: usize = s.unicode_len();
    s.substring_char(n, len)
}

/// The first word of `s`.
pub fn first_word<'a>(s: &'a str) -> (r: &'a str)
    ensures
        r@ == first_word_of(s@),
{
    let t = trim(s);
    let v = chars_of(t);
    let mut i: usize = 0;
    while i < v.len() && !space(v[i])
        invariant
            v@ == t@,
            i <= v.len(),
            word_end(t@, 0) == word_end(t@, i as int),
        decreases v.len() - i,
    {
        i = i + 1;
    }
    before(t, i)
}

/// What lies between the occurrences of `sep` in `s`.
pub fn split<'a>(s: &'a str, sep: &str) -> (r: Vec<&'a str>)
    requires
        sep@.len() > 0,
    ensures
        r@.len() > 0,
        r@.map_values(|x: &str| x@) == pieces(s@, sep@),
{
    let mut out: Vec<&'a str> = Vec::new();
    let mut rest: &'a str = s;
    let width: usize = sep.unicode_len();
    loop
        invariant
            sep@.len() > 0,
            width == sep@.len(),
            pieces(s@, sep@) == out@.map_values(|x: &str| x@) + pieces(rest@, sep@),
        decreases rest@.len(),
    {
        match find(rest, sep) {
            Some(i) => {
                let _len: usize = rest.unicode_len();
                let head = before(rest, i);
                let tail = from(rest, i + width);
                let ghost done = out@;
                out.push(head);
                proof {
                    assert(out@.map_values(|x: &str| x@) =~= done.map_values(|x: &str| x@).push(
                        head@,
                    ));
                    assert(pieces(rest@, sep@) =~= seq![head@] + pieces(tail@, sep@));
                    assert(pieces(s@, sep@) =~= out@.map_values(|x: &str| x@) + pieces(
                        tail@,
                        sep@,
                    ));
                }
                rest = tail;
            },
            None => {
                let ghost done = out@;
                out.push(rest);
                proof {
                    assert(out@.map_values(|x: &str| x@) =~= done.map_values(|x: &str| x@).push(
                        rest@,
                    ));
                    assert(pieces(s@, sep@) =~= out@.map_values(|x: &str| x@));
                }
                return out;
            },
        }
    }
}

/// Prefixes of a run of digits write smaller numbers.
proof fn lemma_digits_prefix(s: Seq<char>, n: int)
    requires
        all_digits(s),
        0 <= n <= s.len(),
    ensures
        digits_value(s.take(n)) <= digits_value(s),
    decreases s.len() - n,
{
    if n < s.len() {
        lemma_digits_prefix(s, n + 1);
        assert(s.take(n + 1).drop_last() =~= s.take(n));
        assert(is_digit(s[n]));
    } else {
        assert(s.take(n) =~= s);
    }
}

/// The value of the digits `v[from..]`, if they are all digits, at least one,
/// and the value does not exceed `max`.
fn read_digits(v: &Vec<char>, from: usize, max: u64) -> (r: Option<u64>)
    requires
        from <= v.len(),
    ensures
        ({
            let body = v@.skip(from as int);
            match r {
                Some(n) => body.len() > 0 && all_digits(body) && digits_value(body) == n && n <= max,
                None => !(body.len() > 0 && all_digits(body) && digits_value(body) <= max),
            }
        }),
{
    if from == v.len() {
        return None;
    }
    let ghost body = v@.skip(from as int);
    let mut n: u64 = 0;
    let mut i: usize = from;
    proof {
        assert(body.take(0) =~= Seq::<char>::empty());
    }
    while i < v.len()
        invariant
            from <= i <= v.len(),
            from < v.len(),
            body == v@.skip(from as int),
            forall|k: int| 0 <= k < i - from ==> is_digit(#[trigger] body[k]),
            n == digits_value(body.take(i - from)),
            n <= max,
        decreases v.len() - i,
    {
        let c = v[i];
        proof {
            assert(body[i - from] == c);
        }
        if !('0' <= c && c <= '9') {
            return None;
        }
        let d: u64 = (c as u64) - ('0' as u64);
        proof {
            let pre = body.take(i - from + 1);
            assert(pre.drop_last() =~= body.take(i - from));
            assert(pre.last() == c);
            if all_digits(body) {
                lemma_digits_prefix(body, i - from + 1);
            }
        }
        if n > (max / 10) || d > max || 10 * n > max - d {
            return None;
        }
        n = 10 * n + d;
        i = i + 1;
    }
    proof {
        assert(body.take(body.len() as int) =~= body);
    }
    Some(n)
}

/// The unsigned number that `s` writes, up to `max`.
pub fn parse_unsigned(s: &str, max: u64) -> (r: Option<u64>)
    ensures
        match r {
            Some(n) => unsigned_in(s@, max as nat) == Some(n as nat),
            None => unsigned_in(s@, max as nat) is None,
        },
{
    let v = chars_of(s);
    proof {
        assert(s@.skip(0) =~= s@);
        assert(s@.len() > 0 ==> s@.skip(1) =~= s@.drop_first());
    }
    if v.len() > 0 && v[0] == '+' {
        read_digits(&v, 1, max)
    } else {
        read_digits(&v, 0, max)
    }
}

/// The signed number that `s` writes, between `-max - 1` and `max`.
pub fn parse_signed(s: &str, max: i64) -> (r: Option<i64>)
    requires
        max >= 0,
    ensures
        match r {
            Some(n) => signed_in(s@, max as nat) == Some(n as int),
            None => signed_in(s@, max as nat) is None,
        },
{
    let v = chars_of(s);
    if v.len() > 0 && v[0] == '-' {
        proof {
            assert(s@.skip(1) =~= s@.drop_first());
        }
        match read_digits(&v, 1, max as u64 + 1) {
            Some(n) => if n == 0x8000_0000_0000_0000 {
                Some(i64::MIN)
            } else {
                Some(-(n as i64))
            },
            None => None,
        }
    } else {
        match parse_unsigned(s, max as u64) {
            Some(n) => Some(n as i64),
            None => None,
        }
    }
}

/// `n` in decimal.
pub fn decimal(n: u64) -> (r: String)
    ensures
        r@ == decimal_of(n as nat),
    decreases n,
{
    let digits = "0123456789";
    let d: usize = (n % 10) as usize;
    proof {
        reveal_strlit("0123456789");
    }
    let last = digits.substring_char(d, d + 1);
    proof {
        assert(last@ =~= seq![digit_of((n % 10) as nat)]);
    }
    if n < 10 {
        last.to_string()
    } else {
        let mut s = decimal(n / 10);
        s.append(last);
        proof {
            assert(s@ =~= decimal_of((n / 10) as nat).push(digit_of((n % 10) as nat)));
        }
        s
    }
}

/// `n` in decimal, with a minus sign where it is negative.
pub fn signed_decimal(n: i64) -> (r: String)
    ensures
        r@ == signed_decimal_of(n as int),
{
    if n < 0 {
        let mut s = "-".to_string();
        let size: u64 = if n == i64::MIN {
            0x8000_0000_0000_0000
        } else {
            (-n) as u64
        };
        let body = decimal(size);
        s.append(body.as_str());
        s
    } else {
        decimal(n as u64)
    }
}

/// The last `width` hexadecimal digits of `n`, in upper case.
pub open spec fn hex_of(n: nat, width: nat) -> Seq<char>
    decreases width,
{
    if width == 0 {
        Seq::empty()
    } else {
        hex_of(n / 16, (width - 1) as nat).push("0123456789ABCDEF"@[(n % 16) as int])
    }
}

/// The last `width` hexadecimal digits of `n`, in upper case.
pub fn hex(n: u64, width: usize) -> (r: String)
    ensures
        r@ == hex_of(n as nat, width as nat),
    decreases width,
{
    if width == 0 {
        let s = String::new();
        proof {
            assert(s@ =~= Seq::<char>::empty());
        }
        s
    } else {
        let digits = "0123456789ABCDEF";
        let d: usize = (n % 16) as usize;
        proof {
            reveal_strlit("0123456789ABCDEF");
        }
        let mut s = hex(n / 16, width - 1);
        let ghost head = s@;
        s.append(digits.substring_char(d, d + 1));
        proof {
            assert(s@ =~= head.push(digits@[d as int]));
        }
        s
    }
}

/// Two texts, one after the other.
pub fn glue(a: &str, b: &str) -> (r: String)
    ensures
        r@ == a@ + b@,
{
    let mut s = a.to_string();
    s.append(b);
    s
}

/// Three texts, one after the other.
pub fn glue3(a: &str, b: &str, c: &str) -> (r: String)
    ensures
        r@ == a@ + b@ + c@,
{
    let mut s = glue(a, b);
    s.append(c);
    s
}

/// Five texts, one after the other.
pub fn glue5(a: &str, b: &str, c: &str, d: &str, e: &str) -> (r: String)
    ensures
        r@ == a@ + b@ + c@ + d@ + e@,
{
    let mut s = glue3(a, b, c);
    s.append(d);
    s.append(e);
    s
}

/// `a` comes after `b` in the order of their characters.
pub open spec fn comes_after(a: Seq<char>, b: Seq<char>) -> bool
    decreases a.len(),
{
    if a.len() == 0 {
        false
    } else if b.len() == 0 {
        true
    } else if a[0] == b[0] {
        comes_after(a.drop_first(), b.drop_first())
    } else {
        a[0] > b[0]
    }
}

/// Of two texts exactly one holds: they are equal, or one comes after the other.
pub proof fn lemma_order(a: Seq<char>, b: Seq<char>)
    ensures
        comes_after(a, b) ==> a != b && !comes_after(b, a),
        !comes_after(a, b) && !comes_after(b, a) ==> a == b,
    decreases a.len(),
{
    if a.len() > 0 && b.len() > 0 && a[0] == b[0] {
        lemma_order(a.drop_first(), b.drop_first());
        assert(a =~= seq![a[0]] + a.drop_first());
        assert(b =~= seq![b[0]] + b.drop_first());
    } else if a.len() == 0 && b.len() == 0 {
        assert(a =~= b);
    }
}

/// The order carries over.
pub proof fn lemma_order_chain(a: Seq<char>, b: Seq<char>, c: Seq<char>)
    requires
        comes_after(a, b),
        comes_after(b, c),
    ensures
        comes_after(a, c),
    decreases a.len(),
{
    if c.len() > 0 && a[0] == b[0] && b[0] == c[0] {
        lemma_order_chain(a.drop_first(), b.drop_first(), c.drop_first());
    }
}

/// Whether `a` comes after `b` in the order of their characters.
pub fn after(a: &str, b: &str) -> (r: bool)
    ensures
        r == comes_after(a@, b@),
{
    let x = chars_of(a);
    let y = chars_of(b);
    let mut i: usize = 0;
    proof {
        assert(a@.skip(0) =~= a@);
        assert(b@.skip(0) =~= b@);
    }
    while i < x.len() && i < y.len()
        invariant
            x@ == a@,
            y@ == b@,
            i <= x.len(),
            i <= y.len(),
            comes_after(a@, b@) == comes_after(a@.skip(i as int), b@.skip(i as int)),
        decreases x.len() - i,
    {
        if x[i] != y[i] {
            return x[i] > y[i];
        }
        proof {
            assert(a@.skip(i as int).drop_first() =~= a@.skip(i + 1));
            assert(b@.skip(i as int).drop_first() =~= b@.skip(i + 1));
        }
        i = i + 1;
    }
    i < x.len()
}

/// What follows the first `tag` in `s`.
pub open spec fn rest_after(s: Seq<char>, tag: Seq<char>) -> Option<Seq<char>> {
    match first_at(s, tag, 0) {
        Some(i) => Some(s.skip(i + tag.len())),
        None => None,
    }
}

/// What follows the first `tag` in `s`.
pub fn after_first<'a>(s: &'a str, tag: &str) -> (r: Option<&'a str>)
    ensures
        match r {
            Some(t) => rest_after(s@, tag@) == Some(t@),
            None => rest_after(s@, tag@) is None,
        },
{
    match find(s, tag) {
        Some(i) => {
            let _len: usize = s.unicode_len();
            Some(from(s, i + tag.unicode_len()))
        },
        None => None,
    }
}

/// How many decimal digits `s` starts with, counted on from `from`.
pub open spec fn digits_end(s: Seq<char>, from: int) -> int
    decreases s.len() - from,
{
    if from >= s.len() || !is_digit(s[from]) {
        from
    } else {
        digits_end(s, from + 1)
    }
}

/// The decimal digits that `s` starts with.
pub open spec fn leading_digits(s: Seq<char>) -> Seq<char> {
    s.take(digits_end(s, 0))
}

/// The decimal digits that `s` starts with.
pub fn digits<'a>(s: &'a str) -> (r: &'a str)
    ensures
        r@ == leading_digits(s@),
{
    let v = chars_of(s);
    let mut i: usize = 0;
    while i < v.len() && '0' <= v[i] && v[i] <= '9'
        invariant
            v@ == s@,
            i <= v.len(),
            digits_end(s@, 0) == digits_end(s@, i as int),
        decreases v.len() - i,
    {
        i = i + 1;
    }
    before(s, i)
}

/// Where the first comma or white space of `s` stands, from `from` on.
pub open spec fn field_end(s: Seq<char>, from: int) -> int
    decreases s.len() - from,
{
    if from >= s.len() || s[from] == ',' || is_space(s[from]) {
        from
    } else {
        field_end(s, from + 1)
    }
}

/// What `s` starts with, up to a comma or white space.
pub open spec fn first_field(s: Seq<char>) -> Seq<char> {
    s.take(field_end(s, 0))
}

/// What `s` starts with, up to a comma or white space.
pub fn field<'a>(s: &'a str) -> (r: &'a str)
    ensures
        r@ == first_field(s@),
{
    let v = chars_of(s);
    let mut i: usize = 0;
    while i < v.len() && !(v[i] == ',') && !space(v[i])
        invariant
            v@ == s@,
            i <= v.len(),
            field_end(s@, 0) == field_end(s@, i as int),
        decreases v.len() - i,
    {
        i = i + 1;
    }
    before(s, i)
}

/// `s` without the white space at its start.
pub open spec fn front_trimmed(s: Seq<char>) -> Seq<char>
    decreases s.len(),
{
    if s.len() > 0 && is_space(s[0]) {
        front_trimmed(s.drop_first())
    } else {
        s
    }
}

/// `s` without the white space at its start.
pub fn trim_start<'a>(s: &'a str) -> (r: &'a str)
    ensures
        r@ == front_trimmed(s@),
{
    let v = chars_of(s);
    let mut i: usize = 0;
    proof {
        assert(s@.skip(0) =~= s@);
    }
    while i < v.len() && space(v[i])
        invariant
            v@ == s@,
            i <= v.len(),
            front_trimmed(s@) == front_trimmed(s@.skip(i as int)),
        decreases v.len() - i,
    {
        proof {
            assert(s@.skip(i as int).drop_first() =~= s@.skip(i + 1));
        }
        i = i + 1;
    }
    from(s, i)
}

/// The first `n` characters of `s`, or all of it where it is shorter.
pub open spec fn shortened(s: Seq<char>, n: nat) -> Seq<char> {
    if s.len() > n {
        s.take(n as int)
    } else {
        s
    }
}

/// The first `n` characters of `s`, or all of it where it is shorter.
pub fn shorten(s: &str, n: usize) -> (r: String)
    ensures
        r@ == shortened(s@, n as nat),
{
    let len: usize = s.unicode_len();
    if len > n {
        before(s, n).to_string()
    } else {
        s.to_string()
    }
}

/// That many spaces.
pub open spec fn spaces(n: nat) -> Seq<char> {
    Seq::new(n, |i: int| ' ')
}

/// `s` filled up with spaces behind it to `width` characters.
pub open spec fn filled_behind(s: Seq<char>, width: nat) -> Seq<char> {
    if s.len() < width {
        s + spaces((width - s.len()) as nat)
    } else {
        s
    }
}

/// `s` filled up with spaces before it to `width` characters.
pub open spec fn filled_before(s: Seq<char>, width: nat) -> Seq<char> {
    if s.len() < width {
        spaces((width - s.len()) as nat) + s
    } else {
        s
    }
}

/// That many spaces.
pub fn blank(n: usize) -> (r: String)
    ensures
        r@ == spaces(n as nat),
{
    let mut out = String::new();
    let mut i: usize = 0;
    proof {
        reveal_strlit(" ");
        assert(out@ =~= spaces(0));
    }
    while i < n
        invariant
            i <= n,
            " "@ == seq![' '],
            out@ == spaces(i as nat),
        decreases n - i,
    {
        out.append(" ");
        proof {
            assert(out@ =~= spaces((i + 1) as nat));
        }
        i = i + 1;
    }
    out
}

/// `s` filled up with spaces behind it to `width` characters.
pub fn fill_behind(s: &str, width: usize) -> (r: String)
    ensures
        r@ == filled_behind(s@, width as nat),
{
    let len: usize = s.unicode_len();
    if len < width {
        glue(s, blank(width - len).as_str())
    } else {
        s.to_string()
    }
}

/// `s` filled up with spaces before it to `width` characters.
pub fn fill_before(s: &str, width: usize) -> (r: String)
    ensures
        r@ == filled_before(s@, width as nat),
{
    let len: usize = s.unicode_len();
    if len < width {
        glue(blank(width - len).as_str(), s)
    } else {
        s.to_string()
    }
}

/// The numbers written in decimal, with a comma and a space between them.
pub open spec fn listed(s: Seq<u8>) -> Seq<char>
    decreases s.len(),
{
    if s.len() == 0 {
        Seq::empty()
    } else if s.len() == 1 {
        decimal_of(s[0] as nat)
    } else {
        listed(s.drop_last()) + ", "@ + decimal_of(s.last() as nat)
    }
}

/// The numbers written in decimal, with a comma and a space between them.
pub fn list(s: &Vec<u8>) -> (r: String)
    ensures
        r@ == listed(s@),
{
    let mut out = String::new();
    let mut i: usize = 0;
    proof {
        assert(out@ =~= listed(s@.take(0)));
    }
    while i < s.len()
        invariant
            i <= s.len(),
            out@ == listed(s@.take(i as int)),
        decreases s.len() - i,
    {
        proof {
            assert(s@.take(i + 1).drop_last() =~= s@.take(i as int));
        }
        let n = decimal(s[i] as u64);
        if i == 0 {
            out = n;
        } else {
            out.append(", ");
            out.append(n.as_str());
        }
        i = i + 1;
    }
    proof {
        assert(s@.take(s@.len() as int) =~= s@);
    }
    out
}

/// Where a text is found first, it stands, and nowhere before; where it is not found,
/// it stands nowhere.
pub proof fn the_first_place_is_found(s: Seq<char>, part: Seq<char>, from: int)
    requires
        0 <= from,
    ensures
        match first_at(s, part, from) {
            Some(i) => from <= i && stands_at(s, part, i) && forall|k: int|
                from <= k < i ==> !#[trigger] stands_at(s, part, k),
            None => forall|k: int| from <= k ==> !#[trigger] stands_at(s, part, k),
        },
    decreases s.len() + 1 - from,
{
    if from + part.len() <= s.len() && !stands_at(s, part, from) {
        the_first_place_is_found(s, part, from + 1);
    }
}

/// Where a text is found last, it stands, and nowhere after; where it is not found,
/// it stands nowhere.
pub proof fn the_last_place_is_found(s: Seq<char>, part: Seq<char>, upto: int)
    ensures
        match last_at(s, part, upto) {
            Some(i) => 0 <= i <= upto && stands_at(s, part, i) && forall|k: int|
                i < k <= upto ==> !#[trigger] stands_at(s, part, k),
            None => forall|k: int| k <= upto ==> !#[trigger] stands_at(s, part, k),
        },
    decreases upto + 1,
{
    if upto >= 0 && !stands_at(s, part, upto) {
        the_last_place_is_found(s, part, upto - 1);
    }
}

/// Every character is white space.
pub open spec fn all_space(s: Seq<char>) -> bool {
    forall|i: int| 0 <= i < s.len() ==> is_space(#[trigger] s[i])
}

/// Trimming takes the white space at the two ends, all of it and nothing else.
pub proof fn trimming_takes_the_ends(front: Seq<char>, mid: Seq<char>, back: Seq<char>)
    requires
        all_space(front),
        all_space(back),
        mid.len() > 0 ==> !is_space(mid.first()) && !is_space(mid.last()),
    ensures
        trimmed(front + mid + back) == mid,
    decreases front.len() + back.len(),
{
    let s = front + mid + back;
    if front.len() > 0 {
        assert(s.first() == front[0]);
        assert(s.drop_first() =~= front.drop_first() + mid + back);
        trimming_takes_the_ends(front.drop_first(), mid, back);
    } else if back.len() > 0 {
        assert(s.last() == back[back.len() - 1]);
        assert(s.drop_last() =~= front + mid + back.drop_last());
        if mid.len() > 0 {
            assert(s.first() == mid.first());
            trimming_takes_the_ends(front, mid, back.drop_last());
        } else {
            assert(s.first() == back[0]);
            assert(s =~= back);
            assert(s.drop_first() =~= front + mid + back.drop_first());
            trimming_takes_the_ends(front, mid, back.drop_first());
        }
    } else {
        assert(s =~= mid);
    }
}

/// The parts with `sep` between them.
pub open spec fn joined(parts: Seq<Seq<char>>, sep: Seq<char>) -> Seq<char>
    decreases parts.len(),
{
    if parts.len() == 0 {
        Seq::empty()
    } else if parts.len() == 1 {
        parts[0]
    } else {
        parts[0] + sep + joined(parts.drop_first(), sep)
    }
}

/// A text that is split can be put together again: its pieces with the separator
/// between them are the text, and no piece holds the separator.
pub proof fn the_pieces_make_the_text(s: Seq<char>, sep: Seq<char>)
    requires
        sep.len() > 0,
    ensures
        pieces(s, sep).len() > 0,
        joined(pieces(s, sep), sep) == s,
        forall|k: int| 0 <= k < pieces(s, sep).len() ==> !holds(#[trigger] pieces(s, sep)[k], sep),
    decreases s.len(),
{
    the_first_place_is_found(s, sep, 0);
    match first_at(s, sep, 0) {
        Some(i) => {
            let rest = s.skip((i + sep.len()) as int);
            let head = s.take(i);
            the_pieces_make_the_text(rest, sep);
            let all = pieces(s, sep);
            assert(all =~= seq![head] + pieces(rest, sep));
            assert(all.drop_first() =~= pieces(rest, sep));
            assert(head + sep + rest =~= s);
            the_first_place_is_found(head, sep, 0);
            if let Some(k) = first_at(head, sep, 0) {
                assert(s.subrange(k, k + sep.len()) =~= head.subrange(k, k + sep.len()));
                assert(stands_at(s, sep, k));
            }
            assert forall|k: int| 0 <= k < all.len() implies !holds(#[trigger] all[k], sep) by {
                if k > 0 {
                    assert(all[k] == pieces(rest, sep)[k - 1]);
                }
            }
        },
        None => {
            assert(pieces(s, sep) =~= seq![s]);
        },
    }
}

proof fn lemma_decimal(n: nat)
    ensures
        decimal_of(n).len() > 0,
        all_digits(decimal_of(n)),
        digits_value(decimal_of(n)) == n,
    decreases n,
{
    reveal_strlit("0123456789");
    if n < 10 {
        let s = seq![digit_of(n)];
        assert(decimal_of(n) =~= s);
        assert(s.drop_last() =~= Seq::<char>::empty());
        assert(digits_value(s.drop_last()) == 0);
    } else {
        lemma_decimal(n / 10);
        let s = decimal_of(n);
        assert(s.drop_last() =~= decimal_of(n / 10));
        assert(s.last() == digit_of(n % 10));
        assert forall|i: int| 0 <= i < s.len() implies is_digit(#[trigger] s[i]) by {
            if i < s.len() - 1 {
                assert(s[i] == decimal_of(n / 10)[i]);
            }
        }
    }
}

/// A number that is written in decimal is read back, with a sign and without, as long
/// as it lies within what is asked for; one beyond is not read.
pub proof fn a_written_number_reads_back(n: nat, z: int, max: nat)
    ensures
        unsigned_in(decimal_of(n), max) == if n <= max {
            Some(n)
        } else {
            None
        },
        signed_in(signed_decimal_of(z), max) == if -max - 1 <= z <= max {
            Some(z)
        } else {
            None
        },
        all_digits(decimal_of(n)),
        decimal_of(n).len() > 0,
{
    reveal_strlit("-");
    lemma_decimal(n);
    assert(is_digit(decimal_of(n)[0]));
    if z < 0 {
        lemma_decimal((-z) as nat);
        let s = signed_decimal_of(z);
        assert(s[0] == '-');
        assert(s.drop_first() =~= decimal_of((-z) as nat));
    } else {
        lemma_decimal(z as nat);
        assert(is_digit(decimal_of(z as nat)[0]));
    }
}

/// What is shortened keeps its first characters, as many as are asked for, and is left
/// as it is where it has no more.
pub proof fn the_front_is_kept(s: Seq<char>, n: nat, i: int)
    ensures
        shortened(s, n).len() == if s.len() < n {
            s.len()
        } else {
            n
        },
        0 <= i < shortened(s, n).len() ==> shortened(s, n)[i] == s[i],
{
}

} // verus!
