//! Character-level text: decimal and hexadecimal numbers, trimming, splitting.
//!
//! Text is modelled as `Seq<char>`. The executable functions work on a `Vec`
//! of characters, so a position is an index and slicing never falls inside a
//! multi-byte character.

use vstd::prelude::*;
use vstd::string::*;

verus! {

/// `String::push` appends one character.
pub assume_specification[ String::push ](s: &mut String, c: char)
    ensures
        final(s)@ == old(s)@.push(c),
;

// ---------------------------------------------------------------------------
// Numbers
// ---------------------------------------------------------------------------

/// The lower-case digit for a value below sixteen.
pub open spec fn digit_char(d: nat) -> char {
    if d < 10 {
        (48 + d) as char
    } else {
        (87 + d) as char
    }
}

/// `n` in decimal, most significant digit first, without leading zeros.
pub open spec fn dec(n: nat) -> Seq<char>
    decreases n,
{
    if n < 10 {
        seq![digit_char(n)]
    } else {
        dec(n / 10).push(digit_char(n % 10))
    }
}

/// `n` in lower-case hexadecimal, most significant digit first, without
/// leading zeros.
pub open spec fn hex_digits(n: nat) -> Seq<char>
    decreases n,
{
    if n < 16 {
        seq![digit_char(n)]
    } else {
        hex_digits(n / 16).push(digit_char(n % 16))
    }
}

/// `n` in hexadecimal with a leading `0x`.
pub open spec fn hex_prefixed(n: nat) -> Seq<char> {
    "0x"@ + hex_digits(n)
}

fn digit_to_char(d: u64) -> (c: char)
    requires
        d < 16,
    ensures
        c == digit_char(d as nat),
{
    if d < 10 {
        (48u8 + d as u8) as char
    } else {
        (87u8 + d as u8) as char
    }
}

/// Append `n` in decimal.
pub fn push_dec(out: &mut String, n: u64)
    ensures
        final(out)@ == old(out)@ + dec(n as nat),
    decreases n,
{
    let ghost before = out@;
    if n >= 10 {
        push_dec(out, n / 10);
    }
    out.push(digit_to_char(n % 10));
    assert(out@ =~= before + dec(n as nat));
}

/// Append `n` in lower-case hexadecimal.
pub fn push_hex_digits(out: &mut String, n: u64)
    ensures
        final(out)@ == old(out)@ + hex_digits(n as nat),
    decreases n,
{
    let ghost before = out@;
    if n >= 16 {
        push_hex_digits(out, n / 16);
    }
    out.push(digit_to_char(n % 16));
    assert(out@ =~= before + hex_digits(n as nat));
}

/// Append `n` in hexadecimal with a leading `0x`.
pub fn push_hex_prefixed(out: &mut String, n: u64)
    ensures
        final(out)@ == old(out)@ + hex_prefixed(n as nat),
{
    let ghost before = out@;
    out.append("0x");
    push_hex_digits(out, n);
    assert(out@ =~= before + hex_prefixed(n as nat));
}

/// `n` in decimal.
pub fn dec_text(n: u64) -> (out: String)
    ensures
        out@ == dec(n as nat),
{
    let mut out = String::new();
    push_dec(&mut out, n);
    assert(out@ =~= dec(n as nat));
    out
}

/// `n` in octal, most significant digit first, without leading zeros.
pub open spec fn octal(n: nat) -> Seq<char>
    decreases n,
{
    if n < 8 {
        seq![digit_char(n)]
    } else {
        octal(n / 8).push(digit_char(n % 8))
    }
}

/// Append `n` in octal.
pub fn push_octal(out: &mut String, n: u64)
    ensures
        final(out)@ == old(out)@ + octal(n as nat),
    decreases n,
{
    let ghost before = out@;
    if n >= 8 {
        push_octal(out, n / 8);
    }
    out.push(digit_to_char(n % 8));
    assert(out@ =~= before + octal(n as nat));
}

// ---------------------------------------------------------------------------
// Characters
// ---------------------------------------------------------------------------

/// The characters with the Unicode `White_Space` property.
pub open spec fn is_space(c: char) -> bool {
    let n = c as u32;
    ||| 9 <= n <= 13
    ||| n == 0x20
    ||| n == 0x85
    ||| n == 0xa0
    ||| n == 0x1680
    ||| 0x2000 <= n <= 0x200a
    ||| n == 0x2028
    ||| n == 0x2029
    ||| n == 0x202f
    ||| n == 0x205f
    ||| n == 0x3000
}

/// Whether `c` is white space.
pub fn char_is_space(c: char) -> (b: bool)
    ensures
        b == is_space(c),
{
    let n: u32 = c as u32;
    (9 <= n && n <= 13) || n == 0x20 || n == 0x85 || n == 0xa0 || n == 0x1680 || (0x2000 <= n && n
        <= 0x200a) || n == 0x2028 || n == 0x2029 || n == 0x202f || n == 0x205f || n == 0x3000
}

/// The value of a hexadecimal digit in either case, or nothing.
pub open spec fn hex_value(c: char) -> Option<u8> {
    let n = c as u32;
    if 48 <= n <= 57 {
        Some((n - 48) as u8)
    } else if 97 <= n <= 102 {
        Some((n - 87) as u8)
    } else if 65 <= n <= 70 {
        Some((n - 55) as u8)
    } else {
        None
    }
}

/// The value of a hexadecimal digit in either case, or nothing.
pub fn char_hex_value(c: char) -> (v: Option<u8>)
    ensures
        v == hex_value(c),
{
    let n: u32 = c as u32;
    if 48 <= n && n <= 57 {
        Some((n - 48) as u8)
    } else if 97 <= n && n <= 102 {
        Some((n - 87) as u8)
    } else if 65 <= n && n <= 70 {
        Some((n - 55) as u8)
    } else {
        None
    }
}

/// Every character is a hexadecimal digit.
pub open spec fn all_hex(s: Seq<char>) -> bool {
    forall|i: int| 0 <= i < s.len() ==> hex_value(#[trigger] s[i]) is Some
}

/// The value of a decimal digit, or nothing.
pub open spec fn dec_value(c: char) -> Option<u8> {
    let n = c as u32;
    if 48 <= n <= 57 {
        Some((n - 48) as u8)
    } else {
        None
    }
}

// ---------------------------------------------------------------------------
// Between text and characters
// ---------------------------------------------------------------------------

/// The characters of a text.
pub fn chars_of(s: &str) -> (v: Vec<char>)
    ensures
        v@ == s@,
{
    let mut v: Vec<char> = Vec::new();
    for c in it: s.chars()
        invariant
            v@ == it.seq().take(it.index()),
            it.seq() == s@,
    {
        proof {
            assert(it.seq().take(it.index() + 1) =~= it.seq().take(it.index()).push(c));
        }
        v.push(c);
    }
    proof {
        assert(v@ =~= s@);
    }
    v
}

/// The text made of the characters from `lo` up to `hi`.
pub fn text_between(v: &[char], lo: usize, hi: usize) -> (out: String)
    requires
        lo <= hi <= v@.len(),
    ensures
        out@ == v@.subrange(lo as int, hi as int),
{
    let mut out = String::new();
    let mut i: usize = lo;
    while i < hi
        invariant
            lo <= i <= hi <= v@.len(),
            out@ == v@.subrange(lo as int, i as int),
        decreases hi - i,
    {
        out.push(v[i]);
        i += 1;
        assert(out@ =~= v@.subrange(lo as int, i as int));
    }
    out
}

/// Whether two texts are the same.
pub fn same_text(a: &str, b: &str) -> (r: bool)
    ensures
        r == (a@ == b@),
{
    let x = String::from_str(a);
    let y = String::from_str(b);
    x == y
}

/// The views of a sequence of texts.
pub open spec fn texts(v: Seq<String>) -> Seq<Seq<char>> {
    Seq::new(v.len(), |i: int| v[i]@)
}

// ---------------------------------------------------------------------------
// Trimming
// ---------------------------------------------------------------------------

/// `s` without its leading white space.
pub open spec fn trim_start(s: Seq<char>) -> Seq<char>
    decreases s.len(),
{
    if s.len() > 0 && is_space(s[0]) {
        trim_start(s.subrange(1, s.len() as int))
    } else {
        s
    }
}

/// `s` without its trailing white space.
pub open spec fn trim_end(s: Seq<char>) -> Seq<char>
    decreases s.len(),
{
    if s.len() > 0 && is_space(s.last()) {
        trim_end(s.drop_last())
    } else {
        s
    }
}

/// `s` without white space at either end.
pub open spec fn trim(s: Seq<char>) -> Seq<char> {
    trim_end(trim_start(s))
}

/// `s` without white space at either end.
pub fn trimmed(s: &str) -> (out: String)
    ensures
        out@ == trim(s@),
{
    let v = chars_of(s);
    let n: usize = v.len();
    let mut lo: usize = 0;
    proof {
        assert(s@ =~= v@.subrange(0, n as int));
    }
    while lo < n && char_is_space(v[lo])
        invariant
            lo <= n == v@.len(),
            trim_start(s@) == trim_start(v@.subrange(lo as int, n as int)),
        decreases n - lo,
    {
        proof {
            let t = v@.subrange(lo as int, n as int);
            assert(t.subrange(1, t.len() as int) =~= v@.subrange(lo + 1, n as int));
        }
        lo += 1;
    }
    let mut hi: usize = n;
    while lo < hi && char_is_space(v[hi - 1])
        invariant
            lo <= hi <= n == v@.len(),
            trim(s@) == trim_end(v@.subrange(lo as int, hi as int)),
        decreases hi,
    {
        proof {
            let t = v@.subrange(lo as int, hi as int);
            assert(t.drop_last() =~= v@.subrange(lo as int, hi - 1));
        }
        hi -= 1;
    }
    text_between(&v, lo, hi)
}

/// Trimming leaves a text alone when neither end of it is white space.
pub proof fn trim_of_tight(s: Seq<char>)
    requires
        s.len() > 0 ==> !is_space(s[0]) && !is_space(s.last()),
    ensures
        trim(s) == s,
{
}

// ---------------------------------------------------------------------------
// Searching and splitting
// ---------------------------------------------------------------------------

/// The first position of `c` in `s`, or the length of `s`.
pub open spec fn find(s: Seq<char>, c: char) -> nat
    decreases s.len(),
{
    if s.len() == 0 || s[0] == c {
        0
    } else {
        1 + find(s.subrange(1, s.len() as int), c)
    }
}

/// `find` gives the first position of the character.
pub proof fn find_is_first(s: Seq<char>, c: char)
    ensures
        find(s, c) <= s.len(),
        forall|i: int| 0 <= i < find(s, c) ==> s[i] != c,
        find(s, c) < s.len() ==> s[find(s, c) as int] == c,
    decreases s.len(),
{
    if s.len() > 0 && s[0] != c {
        let t = s.subrange(1, s.len() as int);
        find_is_first(t, c);
        assert forall|i: int| 0 <= i < find(s, c) implies s[i] != c by {
            if i > 0 {
                assert(s[i] == t[i - 1]);
            }
        }
    }
}

/// A position with nothing equal to `c` before it and `c` at it is the first.
pub proof fn first_is_find(s: Seq<char>, c: char, k: int)
    requires
        0 <= k <= s.len(),
        forall|i: int| 0 <= i < k ==> s[i] != c,
        k < s.len() ==> s[k] == c,
    ensures
        find(s, c) == k,
{
    find_is_first(s, c);
    let f = find(s, c) as int;
    if f < k {
        assert(s[f] == c);
    }
    if k < f {
        assert(s[k] != c);
    }
}

/// The first position of `c` at or after `from`, or the length.
pub fn find_from(v: &[char], from: usize, c: char) -> (k: usize)
    requires
        from <= v@.len(),
    ensures
        from <= k <= v@.len(),
        k - from == find(v@.subrange(from as int, v@.len() as int), c),
{
    let ghost t = v@.subrange(from as int, v@.len() as int);
    let mut k: usize = from;
    while k < v.len() && v[k] != c
        invariant
            from <= k <= v@.len(),
            t == v@.subrange(from as int, v@.len() as int),
            forall|i: int| 0 <= i < k - from ==> t[i] != c,
        decreases v@.len() - k,
    {
        k += 1;
    }
    proof {
        first_is_find(t, c, k - from);
    }
    k
}

/// What stands before and after the first `c`, if there is one.
pub open spec fn split_once(s: Seq<char>, c: char) -> Option<(Seq<char>, Seq<char>)> {
    let k = find(s, c) as int;
    if k < s.len() {
        Some((s.subrange(0, k), s.subrange(k + 1, s.len() as int)))
    } else {
        None
    }
}

/// What stands before and after the first `c`, if there is one.
pub fn split_at_first(s: &str, c: char) -> (r: Option<(String, String)>)
    ensures
        match r {
            Some((a, b)) => split_once(s@, c) == Some((a@, b@)),
            None => split_once(s@, c) is None,
        },
{
    let v = chars_of(s);
    proof {
        assert(v@.subrange(0, v@.len() as int) =~= s@);
    }
    let k: usize = find_from(&v, 0, c);
    if k < v.len() {
        Some((text_between(&v, 0, k), text_between(&v, k + 1, v.len())))
    } else {
        None
    }
}

/// The pieces of `s` between the occurrences of `c`.
pub open spec fn split(s: Seq<char>, c: char) -> Seq<Seq<char>>
    decreases s.len(),
{
    let k = find(s, c) as int;
    if 0 <= k < s.len() {
        seq![s.subrange(0, k)] + split(s.subrange(k + 1, s.len() as int), c)
    } else {
        seq![s]
    }
}

/// The pieces of `s` between the occurrences of `c`.
pub fn split_all(s: &str, c: char) -> (out: Vec<String>)
    ensures
        texts(out@) == split(s@, c),
        out@.len() >= 1,
{
    let v = chars_of(s);
    let mut out: Vec<String> = Vec::new();
    let mut lo: usize = 0;
    proof {
        assert(v@.subrange(0, v@.len() as int) =~= s@);
        assert(split(s@, c) =~= texts(out@) + split(v@.subrange(0, v@.len() as int), c));
    }
    loop
        invariant
            lo <= v@.len(),
            split(s@, c) == texts(out@) + split(v@.subrange(lo as int, v@.len() as int), c),
        decreases v@.len() - lo,
    {
        let ghost t = v@.subrange(lo as int, v@.len() as int);
        let ghost before = texts(out@);
        let k: usize = find_from(&v, lo, c);
        let piece = text_between(&v, lo, k);
        proof {
            assert(piece@ =~= t.subrange(0, k - lo));
        }
        out.push(piece);
        proof {
            assert(texts(out@) =~= before.push(piece@));
        }
        if k == v.len() {
            proof {
                assert(split(t, c) =~= seq![t]);
                assert(piece@ =~= t);
                assert(split(s@, c) =~= texts(out@));
            }
            return out;
        }
        proof {
            assert(t.subrange(k - lo + 1, t.len() as int) =~= v@.subrange(k + 1, v@.len() as int));
            assert(split(s@, c) =~= texts(out@) + split(v@.subrange(k + 1, v@.len() as int), c));
        }
        lo = k + 1;
    }
}

/// What follows `prefix` in `s`, if `s` starts with it.
pub open spec fn after_prefix(s: Seq<char>, prefix: Seq<char>) -> Option<Seq<char>> {
    if prefix.len() <= s.len() && s.subrange(0, prefix.len() as int) == prefix {
        Some(s.subrange(prefix.len() as int, s.len() as int))
    } else {
        None
    }
}

/// What follows `prefix` in `s`, if `s` starts with it.
pub fn strip_start(s: &str, prefix: &str) -> (r: Option<String>)
    ensures
        match r {
            Some(t) => after_prefix(s@, prefix@) == Some(t@),
            None => after_prefix(s@, prefix@) is None,
        },
{
    let v = chars_of(s);
    let p = chars_of(prefix);
    if v.len() < p.len() {
        return None;
    }
    let mut i: usize = 0;
    while i < p.len()
        invariant
            i <= p@.len() <= v@.len(),
            v@ == s@,
            p@ == prefix@,
            forall|j: int| 0 <= j < i ==> v@[j] == p@[j],
        decreases p@.len() - i,
    {
        if v[i] != p[i] {
            proof {
                assert(s@.subrange(0, p@.len() as int)[i as int] != prefix@[i as int]);
            }
            return None;
        }
        i += 1;
    }
    proof {
        assert(s@.subrange(0, p@.len() as int) =~= prefix@);
    }
    Some(text_between(&v, p.len(), v.len()))
}

// ---------------------------------------------------------------------------
// Reading numbers
// ---------------------------------------------------------------------------

/// Every character is a decimal digit.
pub open spec fn all_dec(s: Seq<char>) -> bool {
    forall|i: int| 0 <= i < s.len() ==> dec_value(#[trigger] s[i]) is Some
}

/// The number that decimal digits stand for.
pub open spec fn dec_number(s: Seq<char>) -> nat
    decreases s.len(),
{
    if s.len() == 0 {
        0
    } else {
        (dec_number(s.drop_last()) * 10 + dec_value(s.last()).unwrap_or(0)) as nat
    }
}

/// A `u64` as text: an optional `+`, then at least one digit and nothing
/// else, up to `max`.
pub open spec fn parse_number(s: Seq<char>, max: nat) -> Option<nat> {
    let d = if s.len() > 0 && s[0] == '+' {
        s.subrange(1, s.len() as int)
    } else {
        s
    };
    if d.len() > 0 && all_dec(d) && dec_number(d) <= max {
        Some(dec_number(d))
    } else {
        None
    }
}

/// Longer runs of digits stand for numbers at least as large.
proof fn dec_number_grows(s: Seq<char>, k: int)
    requires
        0 <= k <= s.len(),
    ensures
        dec_number(s.subrange(0, k)) <= dec_number(s),
    decreases s.len() - k,
{
    if k < s.len() {
        dec_number_grows(s, k + 1);
        assert(s.subrange(0, k + 1).drop_last() =~= s.subrange(0, k));
    } else {
        assert(s.subrange(0, k) =~= s);
    }
}

/// Read a number of at most `max`.
pub fn read_number(s: &str, max: u64) -> (r: Option<u64>)
    ensures
        match r {
            Some(n) => parse_number(s@, max as nat) == Some(n as nat),
            None => parse_number(s@, max as nat) is None,
        },
{
    let v = chars_of(s);
    let lo: usize = if v.len() > 0 && v[0] == '+' {
        1
    } else {
        0
    };
    let n: usize = v.len();
    let ghost d = v@.subrange(lo as int, n as int);
    proof {
        assert(v@.subrange(0, n as int) =~= v@);
    }
    if lo == n {
        return None;
    }
    let mut total: u64 = 0;
    let mut i: usize = lo;
    while i < n
        invariant
            lo <= i <= n == v@.len(),
            d == v@.subrange(lo as int, n as int),
            v@ == s@,
            d == (if s@.len() > 0 && s@[0] == '+' {
                s@.subrange(1, s@.len() as int)
            } else {
                s@
            }),
            total == dec_number(d.subrange(0, i - lo)),
            total <= max,
            forall|j: int| 0 <= j < i - lo ==> dec_value(#[trigger] d[j]) is Some,
        decreases n - i,
    {
        let c: u32 = v[i] as u32;
        proof {
            assert(d[i - lo] == v@[i as int]);
            let pre = d.subrange(0, i - lo + 1);
            assert(pre.drop_last() =~= d.subrange(0, i - lo));
            assert(pre.last() == v@[i as int]);
            dec_number_grows(d, i - lo + 1);
        }
        if c < 48 || c > 57 {
            return None;
        }
        let digit: u64 = (c - 48) as u64;
        if digit > max || total > max / 10 || total * 10 > max - digit {
            return None;
        }
        total = total * 10 + digit;
        i += 1;
    }
    proof {
        assert(d.subrange(0, n - lo) =~= d);
    }
    Some(total)
}

/// A number written in decimal reads back as itself.
pub proof fn dec_reads_back(n: nat)
    ensures
        dec(n).len() > 0,
        all_dec(dec(n)),
        dec_number(dec(n)) == n,
        parse_number(dec(n), n) == Some(n),
    decreases n,
{
    let s = dec(n);
    if n < 10 {
        assert(s.drop_last() =~= seq![]);
        assert(dec_number(s.drop_last()) == 0);
        assert(dec_value(s.last()) == Some(n as u8));
    } else {
        dec_reads_back(n / 10);
        assert(s.drop_last() =~= dec(n / 10));
        assert(dec_value(s.last()) == Some((n % 10) as u8));
    }
    assert(dec_number(s) == n);
    assert forall|i: int| 0 <= i < s.len() implies dec_value(#[trigger] s[i]) is Some by {
        if n >= 10 && i < s.len() - 1 {
            assert(s[i] == dec(n / 10)[i]);
        }
    }
    assert(dec_value(s[0]) is Some);
}

/// Texts one after another, with `sep` between them.
pub open spec fn joined(v: Seq<Seq<char>>, sep: Seq<char>) -> Seq<char>
    decreases v.len(),
{
    if v.len() == 0 {
        seq![]
    } else if v.len() == 1 {
        v[0]
    } else {
        joined(v.drop_last(), sep) + sep + v.last()
    }
}

/// Texts one after another, with `sep` between them.
pub fn join_all(v: &[String], sep: &str) -> (out: String)
    ensures
        out@ == joined(texts(v@), sep@),
{
    let mut out = String::new();
    let mut i: usize = 0;
    let ghost all = texts(v@);
    proof {
        assert(all.subrange(0, 0) =~= seq![]);
    }
    while i < v.len()
        invariant
            i <= v@.len(),
            all == texts(v@),
            out@ == joined(all.subrange(0, i as int), sep@),
        decreases v@.len() - i,
    {
        if i > 0 {
            out.append(sep);
        }
        out.append(v[i].as_str());
        proof {
            let done = all.subrange(0, i + 1);
            assert(done.drop_last() =~= all.subrange(0, i as int));
            assert(done.last() == v@[i as int]@);
            if i == 0 {
                assert(out@ =~= done[0]);
            }
        }
        i += 1;
    }
    proof {
        assert(all.subrange(0, i as int) =~= all);
    }
    out
}

} // verus!
