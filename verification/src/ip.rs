//! Textual IP addresses.
//!
//! IPv4 is four decimal numbers without leading zeros. IPv6 is eight groups of
//! up to four hexadecimal digits, of which one run of zero groups may be left
//! out as `::`, and of which the last two may be written as an IPv4 address.

use vstd::prelude::*;
use vstd::string::*;

use crate::error::{join2, join3};
use crate::text::{
    all_dec, all_hex, char_hex_value, chars_of, dec, dec_number, dec_value, hex_digits, hex_value,
    push_dec, push_hex_digits, read_number, split, split_all, text_between, texts,
};

verus! {

/// An IP address.
#[derive(Debug, Clone, Copy, PartialEq, Eq, Hash)]
pub enum IpAddr {
    V4([u8; 4]),
    V6([u8; 16]),
}

// ---------------------------------------------------------------------------
// IPv4
// ---------------------------------------------------------------------------

/// One of the four numbers: one to three digits, no leading zero, at most 255.
pub open spec fn parse_octet(s: Seq<char>) -> Option<u8> {
    if 1 <= s.len() <= 3 && all_dec(s) && (s.len() == 1 || s[0] != '0') && dec_number(s) <= 255 {
        Some(dec_number(s) as u8)
    } else {
        None
    }
}

/// An IPv4 address out of its text.
pub open spec fn parse_ipv4(s: Seq<char>) -> Option<Seq<u8>> {
    let p = split(s, '.');
    if p.len() == 4 && parse_octet(p[0]) is Some && parse_octet(p[1]) is Some && parse_octet(
        p[2],
    ) is Some && parse_octet(p[3]) is Some {
        Some(
            seq![
                parse_octet(p[0])->0,
                parse_octet(p[1])->0,
                parse_octet(p[2])->0,
                parse_octet(p[3])->0,
            ],
        )
    } else {
        None
    }
}

/// The text of an IPv4 address.
pub open spec fn ipv4_text(a: Seq<u8>) -> Seq<char> {
    dec(a[0] as nat) + "."@ + dec(a[1] as nat) + "."@ + dec(a[2] as nat) + "."@ + dec(a[3] as nat)
}

fn read_octet(s: &str) -> (r: Option<u8>)
    ensures
        r == parse_octet(s@),
{
    let v = chars_of(s);
    if v.len() == 0 || v.len() > 3 {
        return None;
    }
    if v.len() > 1 && v[0] == '0' {
        return None;
    }
    proof {
        assert(v@.len() > 0 && v@[0] == '+' ==> dec_value(v@[0]) is None);
        assert(all_dec(v@) ==> v@[0] != '+');
    }
    if v[0] == '+' {
        return None;
    }
    match read_number(s, 255) {
        Some(n) => Some(n as u8),
        None => None,
    }
}

/// Read an IPv4 address.
pub fn read_ipv4(s: &str) -> (r: Option<[u8; 4]>)
    ensures
        match r {
            Some(a) => parse_ipv4(s@) == Some(a@),
            None => parse_ipv4(s@) is None,
        },
{
    let p = split_all(s, '.');
    proof {
        assert(texts(p@) == split(s@, '.'));
    }
    if p.len() != 4 {
        return None;
    }
    proof {
        assert(split(s@, '.')[0] == p@[0]@);
        assert(split(s@, '.')[1] == p@[1]@);
        assert(split(s@, '.')[2] == p@[2]@);
        assert(split(s@, '.')[3] == p@[3]@);
    }
    match (
        read_octet(p[0].as_str()),
        read_octet(p[1].as_str()),
        read_octet(p[2].as_str()),
        read_octet(p[3].as_str()),
    ) {
        (Some(a), Some(b), Some(c), Some(d)) => {
            let out: [u8; 4] = [a, b, c, d];
            assert(out@ =~= parse_ipv4(s@)->0);
            Some(out)
        },
        _ => None,
    }
}

/// Write an IPv4 address.
pub fn write_ipv4(a: &[u8]) -> (out: String)
    requires
        a@.len() == 4,
    ensures
        out@ == ipv4_text(a@),
{
    let mut out = String::new();
    push_dec(&mut out, a[0] as u64);
    assert(out@ =~= dec(a@[0] as nat));
    out.append(".");
    push_dec(&mut out, a[1] as u64);
    out.append(".");
    push_dec(&mut out, a[2] as u64);
    out.append(".");
    push_dec(&mut out, a[3] as u64);
    out
}

// ---------------------------------------------------------------------------
// IPv6
// ---------------------------------------------------------------------------

/// The number that hexadecimal digits stand for.
pub open spec fn hex_number(s: Seq<char>) -> nat
    decreases s.len(),
{
    if s.len() == 0 {
        0
    } else {
        (hex_number(s.drop_last()) * 16 + hex_value(s.last()).unwrap_or(0)) as nat
    }
}

/// A group: one to four hexadecimal digits.
pub open spec fn parse_group(s: Seq<char>) -> Option<u16> {
    if 1 <= s.len() <= 4 && all_hex(s) {
        Some(hex_number(s) as u16)
    } else {
        None
    }
}

/// Groups out of their texts, if all of them are groups.
pub open spec fn parse_groups(p: Seq<Seq<char>>) -> Option<Seq<u16>>
    decreases p.len(),
{
    if p.len() == 0 {
        Some(seq![])
    } else {
        match (parse_groups(p.drop_last()), parse_group(p.last())) {
            (Some(v), Some(g)) => Some(v.push(g)),
            _ => None,
        }
    }
}

/// The two groups that an IPv4 address fills.
pub open spec fn ipv4_groups(a: Seq<u8>) -> Seq<u16> {
    seq![(a[0] * 0x100 + a[1]) as u16, (a[2] * 0x100 + a[3]) as u16]
}

/// The groups between colons; the last two may be written as an IPv4 address
/// where `v4` allows it. Nothing at all is no groups.
pub open spec fn parse_section(s: Seq<char>, v4: bool) -> Option<Seq<u16>> {
    let p = split(s, ':');
    if s.len() == 0 {
        Some(seq![])
    } else if v4 && parse_ipv4(p.last()) is Some {
        match parse_groups(p.drop_last()) {
            Some(v) => Some(v + ipv4_groups(parse_ipv4(p.last())->0)),
            None => None,
        }
    } else {
        parse_groups(p)
    }
}

/// The first position of two colons in a row, or the length.
pub open spec fn find_gap(s: Seq<char>) -> nat
    decreases s.len(),
{
    if s.len() == 0 || (s.len() > 1 && s[0] == ':' && s[1] == ':') {
        0
    } else {
        1 + find_gap(s.subrange(1, s.len() as int))
    }
}

/// Groups with as many zero groups between them as make eight.
pub open spec fn around_gap(a: Seq<u16>, b: Seq<u16>) -> Seq<u16> {
    a + Seq::new((8 - a.len() - b.len()) as nat, |i: int| 0u16) + b
}

/// The eight groups of an IPv6 address out of its text.
pub open spec fn parse_ipv6_groups(s: Seq<char>) -> Option<Seq<u16>> {
    let k = find_gap(s) as int;
    if k < s.len() {
        match (
            parse_section(s.subrange(0, k), false),
            parse_section(s.subrange(k + 2, s.len() as int), true),
        ) {
            (Some(a), Some(b)) => if a.len() + b.len() <= 7 {
                Some(around_gap(a, b))
            } else {
                None
            },
            _ => None,
        }
    } else {
        match parse_section(s, true) {
            Some(g) => if g.len() == 8 {
                Some(g)
            } else {
                None
            },
            None => None,
        }
    }
}

/// The bytes of eight groups.
pub open spec fn group_bytes(g: Seq<u16>) -> Seq<u8> {
    Seq::new(
        16,
        |i: int|
            if i % 2 == 0 {
                (g[i / 2] / 0x100) as u8
            } else {
                (g[i / 2] % 0x100) as u8
            },
    )
}

/// An IPv6 address out of its text.
pub open spec fn parse_ipv6(s: Seq<char>) -> Option<Seq<u8>> {
    match parse_ipv6_groups(s) {
        Some(g) => Some(group_bytes(g)),
        None => None,
    }
}

proof fn hex_number_bound(s: Seq<char>)
    requires
        s.len() <= 4,
        all_hex(s),
    ensures
        s.len() == 0 ==> hex_number(s) == 0,
        s.len() == 1 ==> hex_number(s) <= 0xf,
        s.len() == 2 ==> hex_number(s) <= 0xff,
        s.len() == 3 ==> hex_number(s) <= 0xfff,
        s.len() == 4 ==> hex_number(s) <= 0xffff,
    decreases s.len(),
{
    if s.len() > 0 {
        assert(hex_value(s[s.len() - 1]) is Some);
        assert forall|i: int| 0 <= i < s.len() - 1 implies hex_value(
            #[trigger] s.drop_last()[i],
        ) is Some by {
            assert(s.drop_last()[i] == s[i]);
        }
        hex_number_bound(s.drop_last());
    }
}

fn read_group(s: &str) -> (r: Option<u16>)
    ensures
        r == parse_group(s@),
{
    let v = chars_of(s);
    if v.len() == 0 || v.len() > 4 {
        return None;
    }
    let mut total: u16 = 0;
    let mut i: usize = 0;
    proof {
        assert(v@.subrange(0, 0) =~= seq![]);
    }
    while i < v.len()
        invariant
            i <= v@.len() <= 4,
            v@ == s@,
            forall|j: int| 0 <= j < i ==> hex_value(#[trigger] v@[j]) is Some,
            total == hex_number(v@.subrange(0, i as int)),
        decreases v@.len() - i,
    {
        match char_hex_value(v[i]) {
            Some(d) => {
                proof {
                    let done = v@.subrange(0, i as int);
                    let next = v@.subrange(0, i + 1);
                    assert(all_hex(done));
                    hex_number_bound(done);
                    assert(next.drop_last() =~= done);
                    assert(next.last() == v@[i as int]);
                }
                total = total * 16 + d as u16;
            },
            None => {
                return None;
            },
        }
        i += 1;
    }
    proof {
        assert(v@.subrange(0, i as int) =~= v@);
    }
    Some(total)
}

fn read_groups(p: &Vec<String>, n: usize) -> (r: Option<Vec<u16>>)
    requires
        n <= p@.len(),
    ensures
        match r {
            Some(g) => parse_groups(texts(p@).subrange(0, n as int)) == Some(g@),
            None => parse_groups(texts(p@).subrange(0, n as int)) is None,
        },
    decreases n,
{
    if n == 0 {
        let out: Vec<u16> = Vec::new();
        assert(out@ =~= seq![]);
        return Some(out);
    }
    proof {
        let t = texts(p@).subrange(0, n as int);
        assert(t.drop_last() =~= texts(p@).subrange(0, n - 1));
        assert(t.last() == p@[n - 1]@);
    }
    match (read_groups(p, n - 1), read_group(p[n - 1].as_str())) {
        (Some(v), Some(g)) => {
            let mut v = v;
            v.push(g);
            Some(v)
        },
        _ => None,
    }
}

fn read_section(s: &str, v4: bool) -> (r: Option<Vec<u16>>)
    ensures
        match r {
            Some(g) => parse_section(s@, v4) == Some(g@),
            None => parse_section(s@, v4) is None,
        },
{
    if s.is_empty() {
        let out: Vec<u16> = Vec::new();
        assert(out@ =~= seq![]);
        return Some(out);
    }
    let p = split_all(s, ':');
    let n: usize = p.len();
    proof {
        assert(texts(p@).last() == p@[n - 1]@);
        assert(texts(p@).drop_last() =~= texts(p@).subrange(0, n - 1));
        assert(texts(p@) =~= texts(p@).subrange(0, n as int));
    }
    if v4 {
        if let Some(a) = read_ipv4(p[n - 1].as_str()) {
            return match read_groups(&p, n - 1) {
                Some(v) => {
                    let ghost before = v@;
                    let mut v = v;
                    v.push(a[0] as u16 * 0x100 + a[1] as u16);
                    v.push(a[2] as u16 * 0x100 + a[3] as u16);
                    assert(v@ =~= before + ipv4_groups(a@));
                    Some(v)
                },
                None => None,
            };
        }
    }
    read_groups(&p, n)
}

fn gap_of(v: &Vec<char>) -> (k: usize)
    ensures
        k == find_gap(v@),
        k <= v@.len(),
        k < v@.len() ==> k + 2 <= v@.len(),
{
    let mut k: usize = 0;
    let n: usize = v.len();
    proof {
        assert(v@.subrange(0, n as int) =~= v@);
    }
    while k < n && !(n - k > 1 && v[k] == ':' && v[k + 1] == ':')
        invariant
            k <= n == v@.len(),
            find_gap(v@) == k + find_gap(v@.subrange(k as int, n as int)),
        decreases n - k,
    {
        proof {
            let t = v@.subrange(k as int, n as int);
            assert(t.subrange(1, t.len() as int) =~= v@.subrange(k + 1, n as int));
        }
        k += 1;
    }
    k
}

fn bytes_of_groups(g: &[u16]) -> (out: [u8; 16])
    requires
        g@.len() == 8,
    ensures
        out@ == group_bytes(g@),
{
    let mut out = [0u8;16];
    let mut i: usize = 0;
    while i < 8
        invariant
            i <= 8,
            g@.len() == 8,
            forall|j: int| 0 <= j < 2 * i ==> out@[j] == group_bytes(g@)[j],
        decreases 8 - i,
    {
        out[2 * i] = (g[i] / 0x100) as u8;
        out[2 * i + 1] = (g[i] % 0x100) as u8;
        i += 1;
    }
    assert(out@ =~= group_bytes(g@));
    out
}

/// Read an IPv6 address.
pub fn read_ipv6(s: &str) -> (r: Option<[u8; 16]>)
    ensures
        match r {
            Some(a) => parse_ipv6(s@) == Some(a@),
            None => parse_ipv6(s@) is None,
        },
{
    let v = chars_of(s);
    let k: usize = gap_of(&v);
    if k < v.len() {
        let head = text_between(&v, 0, k);
        let tail = text_between(&v, k + 2, v.len());
        match (read_section(head.as_str(), false), read_section(tail.as_str(), true)) {
            (Some(a), Some(b)) => {
                if a.len() > 7 || b.len() > 7 - a.len() {
                    return None;
                }
                let mut g: Vec<u16> = Vec::new();
                let mut i: usize = 0;
                while i < 8
                    invariant
                        i <= 8,
                        g@.len() == i,
                        a@.len() + b@.len() <= 7,
                        forall|j: int| 0 <= j < i ==> #[trigger] g@[j] == around_gap(a@, b@)[j],
                    decreases 8 - i,
                {
                    if i < a.len() {
                        g.push(a[i]);
                    } else if i < 8 - b.len() {
                        g.push(0);
                    } else {
                        g.push(b[i - (8 - b.len())]);
                    }
                    i += 1;
                }
                assert(g@ =~= around_gap(a@, b@));
                Some(bytes_of_groups(&g))
            },
            _ => None,
        }
    } else {
        match read_section(s, true) {
            Some(g) => if g.len() == 8 {
                Some(bytes_of_groups(&g))
            } else {
                None
            },
            None => None,
        }
    }
}

/// Group `i` of an IPv6 address.
pub open spec fn group_at(a: Seq<u8>, i: int) -> u16 {
    (a[2 * i] * 0x100 + a[2 * i + 1]) as u16
}

/// How many groups from `i` on are zero.
pub open spec fn zero_run(a: Seq<u8>, i: int) -> nat
    decreases 8 - i,
{
    if i >= 8 || group_at(a, i) != 0 {
        0
    } else {
        1 + zero_run(a, i + 1)
    }
}

/// The first longest run of zero groups that starts before group `n`: where it
/// starts and how long it is.
pub open spec fn longest_run(a: Seq<u8>, n: nat) -> (nat, nat)
    decreases n,
{
    if n == 0 {
        (0, 0)
    } else {
        let best = longest_run(a, (n - 1) as nat);
        let here = zero_run(a, n - 1);
        if here > best.1 {
            ((n - 1) as nat, here)
        } else {
            best
        }
    }
}

/// The groups from `lo` up to `hi`, with colons between them.
pub open spec fn groups_text(a: Seq<u8>, lo: int, hi: int) -> Seq<char>
    decreases hi - lo,
{
    if lo >= hi {
        seq![]
    } else if lo + 1 == hi {
        hex_digits(group_at(a, lo) as nat)
    } else {
        groups_text(a, lo, hi - 1) + ":"@ + hex_digits(group_at(a, hi - 1) as nat)
    }
}

/// An IPv4 address carried in an IPv6 one: `::ffff:a.b.c.d`.
pub open spec fn is_mapped(a: Seq<u8>) -> bool {
    zero_run(a, 0) == 5 && group_at(a, 5) == 0xffff
}

/// The text of an IPv6 address: the first longest run of two or more zero
/// groups is left out, and a carried IPv4 address is written as one.
pub open spec fn ipv6_text(a: Seq<u8>) -> Seq<char> {
    let (start, len) = longest_run(a, 8);
    if is_mapped(a) {
        "::ffff:"@ + ipv4_text(a.subrange(12, 16))
    } else if len > 1 {
        groups_text(a, 0, start as int) + "::"@ + groups_text(a, (start + len) as int, 8)
    } else {
        groups_text(a, 0, 8)
    }
}

fn run_from(a: &[u8; 16], i: usize) -> (n: usize)
    requires
        i <= 8,
    ensures
        n == zero_run(a@, i as int),
        n <= 8 - i,
    decreases 8 - i,
{
    if i == 8 {
        return 0;
    }
    let g: u16 = a[2 * i] as u16 * 0x100 + a[2 * i + 1] as u16;
    if g != 0 {
        0
    } else {
        1 + run_from(a, i + 1)
    }
}

fn write_groups(a: &[u8; 16], lo: usize, hi: usize) -> (out: String)
    requires
        lo <= hi <= 8,
    ensures
        out@ == groups_text(a@, lo as int, hi as int),
    decreases hi - lo,
{
    let mut out = String::new();
    if lo < hi {
        let g: u16 = a[2 * (hi - 1)] as u16 * 0x100 + a[2 * (hi - 1) + 1] as u16;
        if lo + 1 < hi {
            out = write_groups(a, lo, hi - 1);
            out.append(":");
            push_hex_digits(&mut out, g as u64);
        } else {
            push_hex_digits(&mut out, g as u64);
            assert(out@ =~= hex_digits(g as nat));
        }
    }
    out
}

/// Write an IPv6 address.
pub fn write_ipv6(a: &[u8; 16]) -> (out: String)
    ensures
        out@ == ipv6_text(a@),
{
    let mut start: usize = 0;
    let mut len: usize = 0;
    let mut i: usize = 0;
    while i < 8
        invariant
            i <= 8,
            (start as nat, len as nat) == longest_run(a@, i as nat),
            start + len <= 8,
        decreases 8 - i,
    {
        let here: usize = run_from(a, i);
        if here > len {
            start = i;
            len = here;
        }
        i += 1;
    }
    let g: u16 = a[10] as u16 * 0x100 + a[11] as u16;
    if run_from(a, 0) == 5 && g == 0xffff {
        let tail = vstd::slice::slice_subrange(a, 12, 16);
        return join2("::ffff:", write_ipv4(tail).as_str());
    }
    if len > 1 {
        let head = write_groups(a, 0, start);
        let tail = write_groups(a, start + len, 8);
        join3(head.as_str(), "::", tail.as_str())
    } else {
        write_groups(a, 0, 8)
    }
}

} // verus!
