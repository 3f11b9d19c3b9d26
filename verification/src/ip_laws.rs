//! Laws of textual addresses: what is written reads back.

use vstd::prelude::*;
use vstd::string::*;

use crate::ip::{
    around_gap, find_gap, group_at, group_bytes, groups_text, hex_number, ipv4_groups, ipv4_text,
    ipv6_text, is_mapped, longest_run, parse_group, parse_groups, parse_ipv4, parse_ipv6,
    parse_ipv6_groups, parse_octet, parse_section, zero_run,
};
use crate::text::{
    all_dec, all_hex, dec, dec_number, dec_reads_back, dec_value, digit_char, find, find_is_first,
    first_is_find, hex_digits, hex_value, joined, split,
};

verus! {

// ---------------------------------------------------------------------------
// Digits
// ---------------------------------------------------------------------------

/// A decimal number is as long as it must be, and starts with a zero only if
/// it is zero.
proof fn dec_is_short(n: nat)
    requires
        n < 1000,
    ensures
        dec(n).len() == (if n < 10 {
            1nat
        } else if n < 100 {
            2
        } else {
            3
        }),
        n > 0 ==> dec(n)[0] != '0',
    decreases n,
{
    if n >= 10 {
        dec_is_short(n / 10);
        assert(dec(n)[0] == dec(n / 10)[0]);
    }
}

proof fn octet_reads_back(b: u8)
    ensures
        parse_octet(dec(b as nat)) == Some(b),
{
    dec_reads_back(b as nat);
    dec_is_short(b as nat);
}

/// A number written in hexadecimal reads back as itself.
pub proof fn hex_reads_back(n: nat)
    ensures
        hex_digits(n).len() > 0,
        all_hex(hex_digits(n)),
        hex_number(hex_digits(n)) == n,
    decreases n,
{
    let s = hex_digits(n);
    if n < 16 {
        assert(s.drop_last() =~= seq![]);
        assert(hex_number(s.drop_last()) == 0);
        assert(hex_value(s.last()) == Some(n as u8));
    } else {
        hex_reads_back(n / 16);
        assert(s.drop_last() =~= hex_digits(n / 16));
        assert(hex_value(s.last()) == Some((n % 16) as u8));
    }
    assert(hex_number(s) == n);
    assert forall|i: int| 0 <= i < s.len() implies hex_value(#[trigger] s[i]) is Some by {
        if n >= 16 && i < s.len() - 1 {
            assert(s[i] == hex_digits(n / 16)[i]);
        }
    }
}

proof fn hex_is_short(n: nat)
    requires
        n < 0x10000,
    ensures
        n < 0x10 ==> hex_digits(n).len() == 1,
        n < 0x100 ==> hex_digits(n).len() <= 2,
        n < 0x1000 ==> hex_digits(n).len() <= 3,
        hex_digits(n).len() <= 4,
    decreases n,
{
    if n >= 16 {
        hex_is_short(n / 16);
    }
}

proof fn group_reads_back(g: u16)
    ensures
        parse_group(hex_digits(g as nat)) == Some(g),
{
    hex_reads_back(g as nat);
    hex_is_short(g as nat);
}

// ---------------------------------------------------------------------------
// Splitting
// ---------------------------------------------------------------------------

/// `c` does not occur in `s`.
pub open spec fn lacks(s: Seq<char>, c: char) -> bool {
    forall|i: int| 0 <= i < s.len() ==> #[trigger] s[i] != c
}

/// Pieces of a text joined by the separator are the pieces of its parts.
pub proof fn split_of_joined(s: Seq<char>, c: char, t: Seq<char>)
    ensures
        split(s + seq![c] + t, c) == split(s, c) + split(t, c),
    decreases s.len(),
{
    let w = s + seq![c] + t;
    find_is_first(s, c);
    let k = find(s, c) as int;
    if k < s.len() {
        let rest = s.subrange(k + 1, s.len() as int);
        split_of_joined(rest, c, t);
        first_is_find(w, c, k);
        assert(w.subrange(0, k) =~= s.subrange(0, k));
        assert(w.subrange(k + 1, w.len() as int) =~= rest + seq![c] + t);
        assert(split(w, c) =~= split(s, c) + split(t, c));
    } else {
        first_is_find(w, c, s.len() as int);
        assert(w.subrange(0, s.len() as int) =~= s);
        assert(w.subrange(s.len() as int + 1, w.len() as int) =~= t);
        assert(split(w, c) =~= split(s, c) + split(t, c));
    }
}

/// A text without the separator is its only piece.
pub proof fn split_of_whole(s: Seq<char>, c: char)
    requires
        lacks(s, c),
    ensures
        split(s, c) == seq![s],
{
    first_is_find(s, c, s.len() as int);
}

/// Every character is the separator or stands in a piece.
proof fn split_keeps_characters(s: Seq<char>, c: char, i: int)
    requires
        0 <= i < s.len(),
        s[i] != c,
    ensures
        exists|j: int| 0 <= j < split(s, c).len() && (#[trigger] split(s, c)[j]).contains(s[i]),
    decreases s.len(),
{
    find_is_first(s, c);
    let k = find(s, c) as int;
    if k < s.len() {
        let head = s.subrange(0, k);
        let rest = s.subrange(k + 1, s.len() as int);
        if i < k {
            assert(head[i] == s[i]);
            assert(split(s, c)[0] == head);
        } else {
            assert(rest[i - k - 1] == s[i]);
            split_keeps_characters(rest, c, i - k - 1);
            let j = choose|j: int|
                0 <= j < split(rest, c).len() && (#[trigger] split(rest, c)[j]).contains(s[i]);
            assert(split(s, c)[j + 1] == split(rest, c)[j]);
        }
    } else {
        assert(split(s, c)[0] == s);
    }
}

// ---------------------------------------------------------------------------
// IPv4
// ---------------------------------------------------------------------------

/// A character of an IPv4 address.
pub open spec fn is_ipv4_char(c: char) -> bool {
    c == '.' || dec_value(c) is Some
}

/// An IPv4 address written is digits and dots, and reads back as itself.
pub proof fn ipv4_reads_back(a: Seq<u8>)
    requires
        a.len() == 4,
    ensures
        parse_ipv4(ipv4_text(a)) == Some(a),
        ipv4_text(a).len() > 0,
        forall|i: int| 0 <= i < ipv4_text(a).len() ==> is_ipv4_char(#[trigger] ipv4_text(a)[i]),
{
    let (p, q, r, s) = (dec(a[0] as nat), dec(a[1] as nat), dec(a[2] as nat), dec(a[3] as nat));
    reveal_strlit(".");
    dec_reads_back(a[0] as nat);
    dec_reads_back(a[1] as nat);
    dec_reads_back(a[2] as nat);
    dec_reads_back(a[3] as nat);
    octet_reads_back(a[0]);
    octet_reads_back(a[1]);
    octet_reads_back(a[2]);
    octet_reads_back(a[3]);
    assert("."@ =~= seq!['.']);
    split_of_whole(p, '.');
    split_of_whole(q, '.');
    split_of_whole(r, '.');
    split_of_whole(s, '.');
    split_of_joined(p, '.', q);
    split_of_joined(p + "."@ + q, '.', r);
    split_of_joined(p + "."@ + q + "."@ + r, '.', s);
    assert(split(ipv4_text(a), '.') =~= seq![p, q, r, s]);
    assert(parse_ipv4(ipv4_text(a))->0 =~= a);
}

/// What holds anything but digits and dots is no IPv4 address.
pub proof fn ipv4_is_digits_and_dots(s: Seq<char>, i: int)
    requires
        0 <= i < s.len(),
        !is_ipv4_char(s[i]),
    ensures
        parse_ipv4(s) is None,
{
    split_keeps_characters(s, '.', i);
    let p = split(s, '.');
    let j = choose|j: int| 0 <= j < p.len() && (#[trigger] p[j]).contains(s[i]);
    let k = choose|k: int| 0 <= k < p[j].len() && p[j][k] == s[i];
    assert(dec_value(p[j][k]) is None);
    assert(parse_octet(p[j]) is None);
}

// ---------------------------------------------------------------------------
// IPv6
// ---------------------------------------------------------------------------

/// Two colons in a row at `i`.
pub open spec fn gap_at(s: Seq<char>, i: int) -> bool {
    0 <= i && i + 1 < s.len() && s[i] == ':' && s[i + 1] == ':'
}

/// The first gap is the one before which there is none.
proof fn first_gap(s: Seq<char>, k: int)
    requires
        0 <= k <= s.len(),
        forall|i: int| 0 <= i < k ==> !#[trigger] gap_at(s, i),
        k < s.len() ==> gap_at(s, k),
    ensures
        find_gap(s) == k,
    decreases s.len(),
{
    if k > 0 {
        assert(!gap_at(s, 0));
        let t = s.subrange(1, s.len() as int);
        assert forall|i: int| 0 <= i < k - 1 implies !#[trigger] gap_at(t, i) by {
            assert(!gap_at(s, i + 1));
        }
        if k < s.len() {
            assert(gap_at(t, k - 1));
        }
        first_gap(t, k - 1);
    }
}

/// The groups of an address from `lo` up to `hi`.
pub open spec fn groups_between(a: Seq<u8>, lo: int, hi: int) -> Seq<u16> {
    Seq::new((hi - lo) as nat, |i: int| group_at(a, lo + i))
}

/// A character of written groups.
pub open spec fn is_group_char(c: char) -> bool {
    c == ':' || hex_value(c) is Some
}

/// What written groups look like, and that they read back.
proof fn groups_read_back(a: Seq<u8>, lo: int, hi: int)
    requires
        lo < hi,
    ensures
        ({
            let s = groups_text(a, lo, hi);
            &&& s.len() > 0
            &&& s[0] != ':'
            &&& s.last() != ':'
            &&& forall|i: int| !#[trigger] gap_at(s, i)
            &&& forall|i: int| 0 <= i < s.len() ==> is_group_char(#[trigger] s[i])
            &&& split(s, ':').len() == hi - lo
            &&& split(s, ':').last() == hex_digits(group_at(a, hi - 1) as nat)
            &&& parse_groups(split(s, ':')) == Some(groups_between(a, lo, hi))
            &&& hi - lo > 1 ==> exists|i: int| 0 <= i < s.len() && #[trigger] s[i] == ':'
        }),
    decreases hi - lo,
{
    let s = groups_text(a, lo, hi);
    let g = group_at(a, hi - 1);
    let d = hex_digits(g as nat);
    hex_reads_back(g as nat);
    group_reads_back(g);
    assert(hex_value(d[0]) is Some && hex_value(d.last()) is Some);
    assert(lacks(d, ':')) by {
        assert forall|i: int| 0 <= i < d.len() implies #[trigger] d[i] != ':' by {
            assert(hex_value(d[i]) is Some);
        }
    }
    split_of_whole(d, ':');
    if lo + 1 == hi {
        assert(split(s, ':').drop_last() =~= seq![]);
        assert(parse_groups(split(s, ':').drop_last()) == Some(Seq::<u16>::empty()));
        assert(Seq::<u16>::empty().push(g) =~= groups_between(a, lo, hi));
        assert forall|i: int| !#[trigger] gap_at(s, i) by {
            if 0 <= i && i + 1 < s.len() {
                assert(s[i] != ':');
            }
        }
    } else {
        let t = groups_text(a, lo, hi - 1);
        groups_read_back(a, lo, hi - 1);
        reveal_strlit(":");
        assert(":"@ =~= seq![':']);
        split_of_joined(t, ':', d);
        let p = split(s, ':');
        assert(p =~= split(t, ':') + seq![d]);
        assert(p.drop_last() =~= split(t, ':'));
        assert(groups_between(a, lo, hi - 1).push(g) =~= groups_between(a, lo, hi));
        assert(s[t.len() as int] == ':');
        assert forall|i: int| !#[trigger] gap_at(s, i) by {
            if 0 <= i && i + 1 < t.len() {
                assert(!gap_at(t, i));
            }
        }
        assert forall|i: int| 0 <= i < s.len() implies is_group_char(#[trigger] s[i]) by {
            if i < t.len() {
                assert(s[i] == t[i]);
            } else if i > t.len() {
                assert(s[i] == d[i - t.len() - 1]);
            }
        }
    }
}

/// Written groups read back as a section of an address.
proof fn section_reads_back(a: Seq<u8>, lo: int, hi: int, v4: bool)
    requires
        lo <= hi,
    ensures
        parse_section(groups_text(a, lo, hi), v4) == Some(groups_between(a, lo, hi)),
{
    let s = groups_text(a, lo, hi);
    if lo == hi {
        assert(groups_between(a, lo, hi) =~= seq![]);
    } else {
        groups_read_back(a, lo, hi);
        let d = hex_digits(group_at(a, hi - 1) as nat);
        hex_reads_back(group_at(a, hi - 1) as nat);
        assert(lacks(d, '.')) by {
            assert forall|i: int| 0 <= i < d.len() implies #[trigger] d[i] != '.' by {
                assert(hex_value(d[i]) is Some);
            }
        }
        split_of_whole(d, '.');
        assert(parse_ipv4(d) is None);
    }
}

/// A run of zero groups is one.
proof fn zero_run_is_zeros(a: Seq<u8>, i: int)
    requires
        0 <= i <= 8,
    ensures
        i + zero_run(a, i) <= 8,
        forall|j: int| i <= j < i + zero_run(a, i) ==> #[trigger] group_at(a, j) == 0,
    decreases 8 - i,
{
    if i < 8 && group_at(a, i) == 0 {
        zero_run_is_zeros(a, i + 1);
    }
}

proof fn longest_run_is_zeros(a: Seq<u8>, n: nat)
    requires
        n <= 8,
    ensures
        ({
            let (start, len) = longest_run(a, n);
            &&& start + len <= 8
            &&& forall|j: int| start <= j < start + len ==> #[trigger] group_at(a, j) == 0
        }),
    decreases n,
{
    if n > 0 {
        longest_run_is_zeros(a, (n - 1) as nat);
        zero_run_is_zeros(a, n - 1);
    }
}

/// The bytes of an address are those of its groups.
proof fn groups_carry_bytes(a: Seq<u8>)
    requires
        a.len() == 16,
    ensures
        group_bytes(groups_between(a, 0, 8)) == a,
{
    let g = groups_between(a, 0, 8);
    assert forall|i: int| 0 <= i < 16 implies group_bytes(g)[i] == a[i] by {
        assert(g[i / 2] == group_at(a, i / 2));
        assert(group_at(a, i / 2) == a[2 * (i / 2)] * 0x100 + a[2 * (i / 2) + 1]);
    }
    assert(group_bytes(g) =~= a);
}

/// A character of an IPv6 address.
pub open spec fn is_ipv6_char(c: char) -> bool {
    c == '.' || c == ':' || hex_value(c) is Some
}

/// `s` is made of characters of an IPv6 address, with a colon among them.
pub open spec fn looks_like_ipv6(s: Seq<char>) -> bool {
    &&& forall|i: int| 0 <= i < s.len() ==> is_ipv6_char(#[trigger] s[i])
    &&& exists|i: int| 0 <= i < s.len() && #[trigger] s[i] == ':'
}

/// An IPv6 address written is digits, colons and dots, with a colon among
/// them, and reads back as itself.
pub proof fn ipv6_reads_back(a: Seq<u8>)
    requires
        a.len() == 16,
    ensures
        parse_ipv6(ipv6_text(a)) == Some(a),
        looks_like_ipv6(ipv6_text(a)),
{
    groups_carry_bytes(a);
    if is_mapped(a) {
        mapped_reads_back(a);
        assert(ipv6_text(a)[0] == ':');
    } else if longest_run(a, 8).1 > 1 {
        shortened_reads_back(a);
    } else {
        unshortened_reads_back(a);
    }
}

/// Written groups are made of characters of an IPv6 address.
proof fn group_chars_fit(s: Seq<char>)
    requires
        forall|i: int| 0 <= i < s.len() ==> is_group_char(#[trigger] s[i]),
    ensures
        forall|i: int| 0 <= i < s.len() ==> is_ipv6_char(#[trigger] s[i]),
{
    assert forall|i: int| 0 <= i < s.len() implies is_ipv6_char(#[trigger] s[i]) by {
        assert(is_group_char(s[i]));
    }
}

proof fn unshortened_reads_back(a: Seq<u8>)
    requires
        a.len() == 16,
    ensures
        parse_ipv6_groups(groups_text(a, 0, 8)) == Some(groups_between(a, 0, 8)),
        looks_like_ipv6(groups_text(a, 0, 8)),
{
    let s = groups_text(a, 0, 8);
    groups_read_back(a, 0, 8);
    first_gap(s, s.len() as int);
    section_reads_back(a, 0, 8, true);
    group_chars_fit(s);
}

/// What stands before and after a gap is read apart.
proof fn gap_is_found(head: Seq<char>, tail: Seq<char>)
    requires
        head.len() > 0 ==> head.last() != ':',
        forall|i: int| !#[trigger] gap_at(head, i),
    ensures
        ({
            let s = head + "::"@ + tail;
            &&& find_gap(s) == head.len()
            &&& s.len() == head.len() + 2 + tail.len()
            &&& s[head.len() as int] == ':'
            &&& s.subrange(0, head.len() as int) == head
            &&& s.subrange(head.len() as int + 2, s.len() as int) == tail
        }),
{
    let s = head + "::"@ + tail;
    reveal_strlit("::");
    assert forall|i: int| 0 <= i < head.len() implies !#[trigger] gap_at(s, i) by {
        if i + 1 < head.len() {
            assert(!gap_at(head, i));
        } else {
            assert(s[i] == head.last());
        }
    }
    assert(gap_at(s, head.len() as int));
    first_gap(s, head.len() as int);
    assert(s.subrange(0, head.len() as int) =~= head);
    assert(s.subrange(head.len() as int + 2, s.len() as int) =~= tail);
}

/// What written groups look like, none included.
proof fn groups_look_right(a: Seq<u8>, lo: int, hi: int)
    requires
        lo <= hi,
    ensures
        ({
            let s = groups_text(a, lo, hi);
            &&& s.len() > 0 ==> s.last() != ':'
            &&& forall|i: int| !#[trigger] gap_at(s, i)
            &&& forall|i: int| 0 <= i < s.len() ==> is_ipv6_char(#[trigger] s[i])
        }),
{
    if lo < hi {
        groups_read_back(a, lo, hi);
        group_chars_fit(groups_text(a, lo, hi));
    }
}

#[verifier::rlimit(30)]
proof fn shortened_reads_back(a: Seq<u8>)
    requires
        a.len() == 16,
        !is_mapped(a),
        longest_run(a, 8).1 > 1,
    ensures
        parse_ipv6_groups(ipv6_text(a)) == Some(groups_between(a, 0, 8)),
        looks_like_ipv6(ipv6_text(a)),
{
    let s = ipv6_text(a);
    let (start, len) = longest_run(a, 8);
    longest_run_is_zeros(a, 8);
    let (lo, hi) = (start as int, (start + len) as int);
    let head = groups_text(a, 0, lo);
    let tail = groups_text(a, hi, 8);
    groups_look_right(a, 0, lo);
    groups_look_right(a, hi, 8);
    gap_is_found(head, tail);
    section_reads_back(a, 0, lo, false);
    section_reads_back(a, hi, 8, true);
    assert(around_gap(groups_between(a, 0, lo), groups_between(a, hi, 8)) =~= groups_between(
        a,
        0,
        8,
    ));
    assert(s[head.len() as int] == ':');
    assert forall|i: int| 0 <= i < s.len() implies is_ipv6_char(#[trigger] s[i]) by {
        reveal_strlit("::");
        if i < head.len() {
            assert(s[i] == head[i]);
        } else if i >= head.len() + 2 {
            assert(s[i] == tail[i - head.len() - 2]);
        }
    }
}

#[verifier::rlimit(30)]
proof fn mapped_reads_back(a: Seq<u8>)
    requires
        a.len() == 16,
        is_mapped(a),
    ensures
        parse_ipv6_groups(ipv6_text(a)) == Some(groups_between(a, 0, 8)),
        forall|i: int| 0 <= i < ipv6_text(a).len() ==> is_ipv6_char(#[trigger] ipv6_text(a)[i]),
        ipv6_text(a)[0] == ':',
        ipv6_text(a).len() > 0,
{
    let s = ipv6_text(a);
    let v4 = a.subrange(12, 16);
    let t = ipv4_text(v4);
    ipv4_reads_back(v4);
    zero_run_is_zeros(a, 0);
    reveal_strlit("::ffff:");
    let ffff = seq!['f', 'f', 'f', 'f'];
    let tail = ffff + seq![':'] + t;
    assert(s.subrange(2, s.len() as int) =~= tail);
    assert(gap_at(s, 0));
    first_gap(s, 0);
    assert(s.subrange(0, 0) =~= seq![]);
    assert(lacks(ffff, ':'));
    assert(lacks(t, ':')) by {
        assert forall|i: int| 0 <= i < t.len() implies #[trigger] t[i] != ':' by {
            assert(is_ipv4_char(t[i]));
        }
    }
    split_of_whole(ffff, ':');
    split_of_whole(t, ':');
    split_of_joined(ffff, ':', t);
    let p = split(tail, ':');
    assert(p =~= seq![ffff, t]);
    assert(p.drop_last() =~= seq![ffff]);
    assert(hex_number(ffff) == 0xffff) by {
        reveal_with_fuel(hex_number, 5);
        let f3 = seq!['f', 'f', 'f'];
        let f2 = seq!['f', 'f'];
        let f1 = seq!['f'];
        assert(ffff.drop_last() =~= f3);
        assert(f3.drop_last() =~= f2);
        assert(f2.drop_last() =~= f1);
        assert(f1.drop_last() =~= seq![]);
    }
    let one = seq![ffff];
    assert(one.drop_last() =~= seq![]);
    assert(parse_groups(one.drop_last()) == Some(Seq::<u16>::empty()));
    assert(parse_group(ffff) == Some(0xffffu16));
    assert(parse_groups(one) == Some(Seq::<u16>::empty().push(0xffff)));
    let b = Seq::<u16>::empty().push(0xffff) + ipv4_groups(v4);
    assert(parse_section(tail, true) == Some(b));
    assert(around_gap(Seq::<u16>::empty(), b) =~= groups_between(a, 0, 8)) by {
        let all = groups_between(a, 0, 8);
        assert(all[5] == group_at(a, 5));
        assert(all[6] == group_at(a, 6));
        assert(all[7] == group_at(a, 7));
    }
    assert forall|i: int| 0 <= i < s.len() implies is_ipv6_char(#[trigger] s[i]) by {
        if i >= 7 {
            assert(s[i] == t[i - 7]);
            assert(is_ipv4_char(t[i - 7]));
        }
    }
}

// ---------------------------------------------------------------------------
// What is read
// ---------------------------------------------------------------------------

/// A decimal digit is its value, written.
proof fn a_digit_is_its_value(c: char)
    requires
        dec_value(c) is Some,
    ensures
        digit_char(dec_value(c)->0 as nat) == c,
{
}

/// Digits without a leading zero are the number they stand for, written.
proof fn plain_digits_are_written_so(s: Seq<char>)
    requires
        s.len() > 0,
        all_dec(s),
        s.len() == 1 || s[0] != '0',
    ensures
        dec(dec_number(s)) == s,
        s[0] != '0' ==> dec_number(s) > 0,
    decreases s.len(),
{
    let t = s.drop_last();
    let d = dec_value(s.last())->0;
    assert(dec_value(s[s.len() - 1]) is Some);
    a_digit_is_its_value(s.last());
    if t.len() == 0 {
        assert(dec_number(t) == 0);
        assert(dec_number(s) == d);
        assert(dec_value(s[0]) is Some);
        assert(dec(d as nat) == seq![digit_char(d as nat)]);
        assert(dec(d as nat) =~= s);
    } else {
        assert forall|i: int| 0 <= i < t.len() implies dec_value(#[trigger] t[i]) is Some by {
            assert(t[i] == s[i]);
        }
        assert(t[0] == s[0]);
        plain_digits_are_written_so(t);
        let n = dec_number(t);
        assert(n > 0);
        assert(dec_number(s) == n * 10 + d);
        assert((n * 10 + d) / 10 == n);
        assert((n * 10 + d) % 10 == d);
        assert(dec(dec_number(s)) == dec(n).push(digit_char(d as nat)));
        assert(dec(dec_number(s)) =~= s);
    }
}

/// An IPv4 address has one text, and nothing else is read as it.
pub proof fn ipv4_is_canonical(s: Seq<char>)
    ensures
        parse_ipv4(s) matches Some(a) ==> a.len() == 4 && s == ipv4_text(a),
{
    if let Some(a) = parse_ipv4(s) {
        let p = split(s, '.');
        plain_digits_are_written_so(p[0]);
        plain_digits_are_written_so(p[1]);
        plain_digits_are_written_so(p[2]);
        plain_digits_are_written_so(p[3]);
        reveal_strlit(".");
        assert("."@ =~= seq!['.']);
        split_joins_back(s, '.');
        reveal_with_fuel(joined, 5);
        assert(p.drop_last().drop_last().drop_last() =~= seq![p[0]]);
        assert(joined(p, seq!['.']) =~= ipv4_text(a));
    }
}

/// The pieces of a split with the separator between them are the text.
proof fn split_joins_back(s: Seq<char>, c: char)
    ensures
        joined(split(s, c), seq![c]) == s,
        split(s, c).len() > 0,
    decreases s.len(),
{
    find_is_first(s, c);
    let k = find(s, c) as int;
    if k < s.len() {
        let rest = s.subrange(k + 1, s.len() as int);
        split_joins_back(rest, c);
        joined_in_front(s.subrange(0, k), split(rest, c), seq![c]);
        assert(s.subrange(0, k) + seq![c] + rest =~= s);
    }
}

proof fn joined_in_front(a: Seq<char>, v: Seq<Seq<char>>, sep: Seq<char>)
    requires
        v.len() > 0,
    ensures
        joined(seq![a] + v, sep) == a + sep + joined(v, sep),
    decreases v.len(),
{
    let w = seq![a] + v;
    if v.len() == 1 {
        assert(w.drop_last() =~= seq![a]);
        assert(joined(w.drop_last(), sep) == a);
    } else {
        joined_in_front(a, v.drop_last(), sep);
        assert(w.drop_last() =~= seq![a] + v.drop_last());
        assert(joined(w, sep) =~= a + sep + joined(v, sep));
    }
}

/// Texts of one to four hexadecimal digits, of either case.
pub open spec fn are_groups(p: Seq<Seq<char>>) -> bool {
    forall|i: int| 0 <= i < p.len() ==> 1 <= (#[trigger] p[i]).len() <= 4 && all_hex(p[i])
}

/// The groups with colons between them.
pub open spec fn with_colons(p: Seq<Seq<char>>) -> Seq<char> {
    joined(p, seq![':'])
}

proof fn groups_stand_apart(p: Seq<Seq<char>>)
    requires
        are_groups(p),
    ensures
        ({
            let s = with_colons(p);
            &&& p.len() > 0 ==> split(s, ':') == p && s.len() > 0 && s[0] != ':'
            &&& s.len() > 0 ==> s.last() != ':'
            &&& forall|i: int| !#[trigger] gap_at(s, i)
            &&& parse_groups(p) == Some(Seq::new(p.len(), |i: int| hex_number(p[i]) as u16))
        }),
    decreases p.len(),
{
    let s = with_colons(p);
    let v = Seq::new(p.len(), |i: int| hex_number(p[i]) as u16);
    if p.len() == 0 {
        assert(v =~= seq![]);
    } else {
        let q = p.drop_last();
        let last = p.last();
        assert(p[p.len() - 1] == last);
        assert forall|i: int| 0 <= i < q.len() implies 1 <= (#[trigger] q[i]).len() <= 4 && all_hex(
            q[i],
        ) by {
            assert(q[i] == p[i]);
        }
        groups_stand_apart(q);
        assert forall|i: int| 0 <= i < last.len() implies #[trigger] last[i] != ':' by {
            assert(hex_value(last[i]) is Some);
        }
        split_of_whole(last, ':');
        let w = Seq::new(q.len(), |i: int| hex_number(q[i]) as u16);
        assert(w.push(hex_number(last) as u16) =~= v);
        if q.len() == 0 {
            assert(s == last);
            assert(seq![last] =~= p);
            assert forall|i: int| !#[trigger] gap_at(s, i) by {
                if gap_at(s, i) {
                    assert(last[i] != ':');
                }
            }
        } else {
            let t = with_colons(q);
            assert(s == t + seq![':'] + last);
            split_of_joined(t, ':', last);
            assert(q + seq![last] =~= p);
            assert(s[0] == t[0]);
            assert(s.last() == last[last.len() - 1]);
            assert forall|i: int| !#[trigger] gap_at(s, i) by {
                if gap_at(s, i) {
                    if i + 1 < t.len() {
                        assert(gap_at(t, i));
                    } else if i + 1 == t.len() {
                        assert(s[i] == t.last());
                    } else {
                        assert(s[i + 1] == last[i + 1 - t.len() - 1]);
                    }
                }
            }
        }
    }
}

proof fn groups_are_read(p: Seq<Seq<char>>, v4: bool)
    requires
        are_groups(p),
    ensures
        parse_section(with_colons(p), v4) == Some(
            Seq::new(p.len(), |i: int| hex_number(p[i]) as u16),
        ),
{
    groups_stand_apart(p);
    if p.len() == 0 {
        assert(Seq::new(p.len(), |i: int| hex_number(p[i]) as u16) =~= seq![]);
    } else {
        let last = p.last();
        assert(p[p.len() - 1] == last);
        assert forall|i: int| 0 <= i < last.len() implies #[trigger] last[i] != '.' by {
            assert(hex_value(last[i]) is Some);
        }
        split_of_whole(last, '.');
        assert(parse_ipv4(last) is None);
    }
}

proof fn four_digits_fit(s: Seq<char>)
    requires
        s.len() <= 4,
        all_hex(s),
    ensures
        hex_number(s) <= 0xffff,
{
    reveal_with_fuel(hex_number, 5);
    if s.len() > 0 {
        assert(hex_value(s[s.len() - 1]) is Some);
        let t = s.drop_last();
        if t.len() > 0 {
            assert(t.last() == s[t.len() - 1]);
            assert(hex_value(s[t.len() - 1]) is Some);
            let u = t.drop_last();
            if u.len() > 0 {
                assert(u.last() == s[u.len() - 1]);
                assert(hex_value(s[u.len() - 1]) is Some);
                let v = u.drop_last();
                if v.len() > 0 {
                    assert(v.last() == s[v.len() - 1]);
                    assert(hex_value(s[v.len() - 1]) is Some);
                    assert(v.drop_last().len() == 0);
                }
            }
        }
    }
}

/// Eight groups are an IPv6 address: two bytes for each, its number with the
/// higher byte first.
pub proof fn eight_groups_are_an_address(p: Seq<Seq<char>>)
    requires
        p.len() == 8,
        are_groups(p),
    ensures
        parse_ipv6(with_colons(p)) matches Some(a) && a.len() == 16 && forall|i: int|
            0 <= i < 8 ==> a[2 * i] * 256 + a[2 * i + 1] == #[trigger] hex_number(p[i]),
{
    let s = with_colons(p);
    groups_stand_apart(p);
    groups_are_read(p, true);
    first_gap(s, s.len() as int);
    let g = parse_ipv6_groups(s)->0;
    let a = group_bytes(g);
    assert forall|i: int| 0 <= i < 8 implies a[2 * i] * 256 + a[2 * i + 1] == #[trigger] hex_number(
        p[i],
    ) by {
        four_digits_fit(p[i]);
        assert((2 * i) / 2 == i && (2 * i + 1) / 2 == i);
        assert((2 * i) % 2 == 0 && (2 * i + 1) % 2 == 1);
        assert(g[i] == hex_number(p[i]));
    }
}

/// Two colons stand for as many zero groups as are missing, one at least.
pub proof fn two_colons_stand_for_zeros(p: Seq<Seq<char>>, q: Seq<Seq<char>>)
    requires
        p.len() + q.len() <= 7,
        are_groups(p),
        are_groups(q),
    ensures
        parse_ipv6(with_colons(p) + "::"@ + with_colons(q)) matches Some(a) && a.len() == 16 && (
        forall|i: int|
            0 <= i < p.len() ==> a[2 * i] * 256 + a[2 * i + 1] == #[trigger] hex_number(p[i])) && (
        forall|i: int|
            #![trigger a[2 * i]]
            p.len() <= i < 8 - q.len() ==> a[2 * i] == 0 && a[2 * i + 1] == 0) && (forall|i: int|
            0 <= i < q.len() ==> a[2 * (8 - q.len() + i)] * 256 + a[2 * (8 - q.len() + i) + 1]
                == #[trigger] hex_number(q[i])),
{
    let (head, tail) = (with_colons(p), with_colons(q));
    let s = head + "::"@ + tail;
    groups_stand_apart(p);
    groups_stand_apart(q);
    gap_is_found(head, tail);
    groups_are_read(p, false);
    groups_are_read(q, true);
    let g = parse_ipv6_groups(s)->0;
    let a = group_bytes(g);
    assert(g.len() == 8);
    assert forall|i: int| 0 <= i < p.len() implies a[2 * i] * 256 + a[2 * i + 1]
        == #[trigger] hex_number(p[i]) by {
        four_digits_fit(p[i]);
        assert((2 * i) / 2 == i && (2 * i + 1) / 2 == i);
        assert((2 * i) % 2 == 0 && (2 * i + 1) % 2 == 1);
        assert(g[i] == hex_number(p[i]));
    }
    assert forall|i: int| #![trigger a[2 * i]] p.len() <= i < 8 - q.len() implies a[2 * i] == 0
        && a[2 * i + 1] == 0 by {
        assert((2 * i) / 2 == i && (2 * i + 1) / 2 == i);
        assert((2 * i) % 2 == 0 && (2 * i + 1) % 2 == 1);
        assert(g[i] == 0);
    }
    assert forall|i: int| 0 <= i < q.len() implies a[2 * (8 - q.len() + i)] * 256 + a[2 * (8
        - q.len() + i) + 1] == #[trigger] hex_number(q[i]) by {
        four_digits_fit(q[i]);
        let k = 8 - q.len() + i;
        assert((2 * k) / 2 == k && (2 * k + 1) / 2 == k);
        assert((2 * k) % 2 == 0 && (2 * k + 1) % 2 == 1);
        assert(g[k] == hex_number(q[i]));
    }
}

/// Groups `i` up to `j` are zero.
pub open spec fn zeros_between(a: Seq<u8>, i: int, j: int) -> bool {
    forall|k: int|
        #![trigger a[2 * k]]
        i <= k < j ==> a[2 * k] == 0 && a[2 * k + 1] == 0
}

proof fn a_zero_run_is_whole(a: Seq<u8>, i: int, j: int)
    requires
        0 <= i <= j <= 8,
        zeros_between(a, i, j),
    ensures
        zero_run(a, i) >= j - i,
    decreases j - i,
{
    if i < j {
        assert(a[2 * i] == 0);
        assert(group_at(a, i) == 0);
        a_zero_run_is_whole(a, i + 1, j);
    }
}

proof fn the_longest_is_longest(a: Seq<u8>, n: nat, i: int)
    requires
        0 <= i < n <= 8,
    ensures
        zero_run(a, i) <= longest_run(a, n).1,
        zero_run(a, i) == longest_run(a, n).1 && longest_run(a, n).1 > 0 ==> longest_run(a, n).0
            <= i,
    decreases n,
{
    let best = longest_run(a, (n - 1) as nat);
    let here = zero_run(a, n - 1);
    assert(longest_run(a, n) == (if here > best.1 {
        ((n - 1) as nat, here)
    } else {
        best
    }));
    if i < n - 1 {
        the_longest_is_longest(a, (n - 1) as nat, i);
    } else {
        starts_are_below(a, (n - 1) as nat);
    }
}

proof fn starts_are_below(a: Seq<u8>, n: nat)
    ensures
        longest_run(a, n).1 > 0 ==> longest_run(a, n).0 < n,
    decreases n,
{
    if n > 0 {
        starts_are_below(a, (n - 1) as nat);
    }
}

/// The groups that an address leaves out are zero, no run of zero groups is
/// longer, and none as long starts before it.
pub proof fn the_longest_zeros_are_left_out(a: Seq<u8>, i: int, j: int)
    requires
        0 <= i < j <= 8,
        zeros_between(a, i, j),
    ensures
        ({
            let (start, len) = longest_run(a, 8);
            &&& start + len <= 8
            &&& zeros_between(a, start as int, (start + len) as int)
            &&& j - i <= len
            &&& j - i == len ==> start <= i
        }),
{
    a_zero_run_is_whole(a, i, j);
    the_longest_is_longest(a, 8, i);
    longest_run_is_zeros(a, 8);
    let (start, len) = longest_run(a, 8);
    assert forall|k: int| #![trigger a[2 * k]] start <= k < start + len implies a[2 * k] == 0
        && a[2 * k + 1] == 0 by {
        assert(group_at(a, k) == 0);
    }
}

} // verus!
