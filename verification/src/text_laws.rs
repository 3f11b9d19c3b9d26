//! Laws of text: what trimming, splitting and reading numbers make of it, and
//! how keys and addresses are read.

use vstd::prelude::*;
use vstd::string::*;

use crate::addr::{Scheme, addr_parsed, authority_parsed, scheme_parsed};
use crate::error::ErrorModel;
use crate::key::{
    base58, bytes_before, hex_text, is_hex, joined_path, key_len, parse_key, parse_secret,
    secret_in_file, short_key, unbase58, unhex,
};
use crate::text::{
    after_prefix, all_dec, all_hex, dec, dec_number, dec_reads_back, dec_value, find, find_is_first,
    first_is_find, hex_value, is_space, joined, parse_number, split, split_once, trim, trim_end,
    trim_of_tight, trim_start,
};

verus! {

broadcast use key_len;

// ---------------------------------------------------------------------------
// Trimming and splitting
// ---------------------------------------------------------------------------

/// Blanks, tabs and line ends are white space; no visible character of ASCII
/// is.
pub proof fn what_white_space_is(c: char)
    ensures
        c == ' ' || c == '\t' || c == '\n' || c == '\r' ==> is_space(c),
        33 <= c as u32 <= 126 ==> !is_space(c),
{
}

/// Trimming takes white space from both ends, all of it and nothing else.
pub proof fn trimming_takes_white_space_only(s: Seq<char>)
    ensures
        exists|a: int, b: int|
            #![trigger s.subrange(a, b)]
            0 <= a <= b <= s.len() && trim(s) == s.subrange(a, b) && (forall|i: int|
                0 <= i < a || b <= i < s.len() ==> is_space(#[trigger] s[i])),
        trim(s).len() > 0 ==> !is_space(trim(s)[0]) && !is_space(trim(s).last()),
        trim(trim(s)) == trim(s),
{
    let t = trim_start(s);
    front_is_trimmed(s);
    back_is_trimmed(t);
    let a = choose|a: int|
        0 <= a <= s.len() && t == #[trigger] s.subrange(a, s.len() as int) && (forall|i: int|
            0 <= i < a ==> is_space(#[trigger] s[i]));
    let n = trim(s).len() as int;
    let b = a + n;
    assert(trim(s) =~= s.subrange(a, b)) by {
        assert(trim(s) == t.subrange(0, n));
    }
    assert forall|i: int| 0 <= i < a || b <= i < s.len() implies is_space(#[trigger] s[i]) by {
        if i >= b {
            assert(t[i - a] == s[i]);
        }
    }
    if n > 0 {
        assert(trim(s)[0] == t[0]);
    }
    trim_of_tight(trim(s));
}

proof fn front_is_trimmed(s: Seq<char>)
    ensures
        exists|a: int|
            0 <= a <= s.len() && trim_start(s) == #[trigger] s.subrange(a, s.len() as int) && (
            forall|i: int| 0 <= i < a ==> is_space(#[trigger] s[i])),
        trim_start(s).len() > 0 ==> !is_space(trim_start(s)[0]),
    decreases s.len(),
{
    if s.len() > 0 && is_space(s[0]) {
        let t = s.subrange(1, s.len() as int);
        front_is_trimmed(t);
        let a = choose|a: int|
            0 <= a <= t.len() && trim_start(t) == #[trigger] t.subrange(a, t.len() as int) && (
            forall|i: int| 0 <= i < a ==> is_space(#[trigger] t[i]));
        assert(t.subrange(a, t.len() as int) =~= s.subrange(a + 1, s.len() as int));
        assert forall|i: int| 0 <= i < a + 1 implies is_space(#[trigger] s[i]) by {
            if i > 0 {
                assert(t[i - 1] == s[i]);
            }
        }
    } else {
        assert(s.subrange(0, s.len() as int) =~= s);
    }
}

proof fn back_is_trimmed(s: Seq<char>)
    ensures
        trim_end(s).len() <= s.len(),
        trim_end(s) == s.subrange(0, trim_end(s).len() as int),
        forall|i: int| trim_end(s).len() <= i < s.len() ==> is_space(#[trigger] s[i]),
        trim_end(s).len() > 0 ==> !is_space(trim_end(s).last()),
    decreases s.len(),
{
    if s.len() > 0 && is_space(s.last()) {
        let t = s.drop_last();
        back_is_trimmed(t);
        assert(t.subrange(0, trim_end(t).len() as int) =~= s.subrange(0, trim_end(s).len() as int));
        assert forall|i: int| trim_end(s).len() <= i < s.len() implies is_space(#[trigger] s[i]) by {
            if i < t.len() {
                assert(t[i] == s[i]);
            }
        }
    } else {
        assert(s.subrange(0, s.len() as int) =~= s);
    }
}

/// Splitting at the first occurrence of a character: what stands before it
/// does not hold it, and the parts with it between them are the text.
pub proof fn what_a_split_gives(s: Seq<char>, c: char)
    ensures
        split_once(s, c) is Some <==> s.contains(c),
        split_once(s, c) matches Some((a, b)) ==> !a.contains(c) && a + seq![c] + b == s,
{
    find_is_first(s, c);
    let k = find(s, c) as int;
    if s.contains(c) {
        let i = choose|i: int| 0 <= i < s.len() && s[i] == c;
        assert(k <= i);
    }
    if k < s.len() {
        assert(s.subrange(0, k) + seq![c] + s.subrange(k + 1, s.len() as int) =~= s);
        assert(s.contains(c));
        let a = s.subrange(0, k);
        if a.contains(c) {
            let i = choose|i: int| 0 <= i < a.len() && a[i] == c;
            assert(s[i] == c);
        }
    }
}

/// The pieces of a split hold no separator, there is one more of them than
/// there are separators, and with the separator between them they are the
/// text.
pub proof fn pieces_join_back(s: Seq<char>, c: char)
    ensures
        split(s, c).len() > 0,
        forall|i: int| 0 <= i < split(s, c).len() ==> !(#[trigger] split(s, c)[i]).contains(c),
        joined(split(s, c), seq![c]) == s,
        split(s, c).len() == 1 <==> !s.contains(c),
    decreases s.len(),
{
    what_a_split_gives(s, c);
    find_is_first(s, c);
    let k = find(s, c) as int;
    if k < s.len() {
        let a = s.subrange(0, k);
        let rest = s.subrange(k + 1, s.len() as int);
        pieces_join_back(rest, c);
        assert(split_once(s, c) == Some((a, rest)));
        joined_behind(a, split(rest, c), seq![c]);
        assert(a + seq![c] + rest =~= s);
    } else {
        assert(!s.contains(c));
    }
}

/// Texts joined behind another one.
proof fn joined_behind(a: Seq<char>, v: Seq<Seq<char>>, sep: Seq<char>)
    requires
        v.len() > 0,
    ensures
        joined(seq![a] + v, sep) == a + sep + joined(v, sep),
    decreases v.len(),
{
    let w = seq![a] + v;
    if v.len() == 1 {
        assert(w.drop_last() =~= seq![a]);
        assert(joined(w.drop_last(), sep) == a);
    } else {
        joined_behind(a, v.drop_last(), sep);
        assert(w.drop_last() =~= seq![a] + v.drop_last());
        assert(joined(w, sep) =~= a + sep + joined(v, sep));
    }
}

/// What follows a prefix is what makes the text again when it is put behind
/// it.
pub proof fn what_follows_a_prefix(s: Seq<char>, prefix: Seq<char>, rest: Seq<char>)
    ensures
        after_prefix(s, prefix) == Some(rest) <==> s == prefix + rest,
{
    if s == prefix + rest {
        assert(s.subrange(0, prefix.len() as int) =~= prefix);
        assert(s.subrange(prefix.len() as int, s.len() as int) =~= rest);
    }
    if after_prefix(s, prefix) == Some(rest) {
        assert(s =~= prefix + rest);
    }
}

// ---------------------------------------------------------------------------
// Numbers
// ---------------------------------------------------------------------------

/// A digit more is ten times the number and the digit.
pub proof fn decimal_digits_count_by_tens(s: Seq<char>, c: char)
    requires
        48 <= c as u32 <= 57,
    ensures
        dec_number(s.push(c)) == dec_number(s) * 10 + (c as u32 - 48),
        dec_number(seq![]) == 0,
{
    assert(s.push(c).drop_last() =~= s);
}

/// A number is written in decimal without leading zeros.
pub proof fn how_numbers_are_written(n: nat)
    ensures
        forall|i: int| 0 <= i < dec(n).len() ==> 48 <= (#[trigger] dec(n)[i]) as u32 <= 57,
        dec_number(dec(n)) == n,
        n > 0 ==> dec(n)[0] != '0',
        n == 0 ==> dec(n) == seq!['0'],
    decreases n,
{
    dec_reads_back(n);
    if n >= 10 {
        how_numbers_are_written(n / 10);
        assert(dec(n).drop_last() =~= dec(n / 10));
        assert(dec(n)[0] == dec(n / 10)[0]);
    }
    assert forall|i: int| 0 <= i < dec(n).len() implies 48 <= (#[trigger] dec(n)[i]) as u32 <= 57 by {
        assert(dec_value(dec(n)[i]) is Some);
    }
}

/// A number is read when it is made of digits, at least one, behind a plus sign
/// or not, and is not too large; and then it is the number the digits stand
/// for.
pub proof fn which_numbers_are_read(s: Seq<char>, max: nat)
    requires
        s.len() > 0 && s[0] != '+',
    ensures
        parse_number(s, max) is Some <==> (forall|i: int|
            0 <= i < s.len() ==> 48 <= (#[trigger] s[i]) as u32 <= 57) && dec_number(s) <= max,
        parse_number(s, max) matches Some(n) ==> n == dec_number(s),
        parse_number(seq!['+'] + s, max) == parse_number(s, max),
        parse_number(seq![], max) is None,
        parse_number(seq!['+'], max) is None,
{
    let p = seq!['+'] + s;
    assert(p.subrange(1, p.len() as int) =~= s);
    assert(seq!['+'].subrange(1, 1) =~= seq![]);
    if forall|i: int| 0 <= i < s.len() ==> 48 <= (#[trigger] s[i]) as u32 <= 57 {
        assert(all_dec(s));
    }
    if all_dec(s) {
        assert forall|i: int| 0 <= i < s.len() implies 48 <= (#[trigger] s[i]) as u32 <= 57 by {
            assert(dec_value(s[i]) is Some);
        }
    }
}

/// A number reads back from how it is written, as long as it is not too large.
pub proof fn written_numbers_read_back(n: nat, max: nat)
    ensures
        n <= max ==> parse_number(dec(n), max) == Some(n),
        n > max ==> parse_number(dec(n), max) is None,
{
    how_numbers_are_written(n);
    dec_reads_back(n);
}

/// A byte is two lower-case digits: its sixteens and its ones.
pub proof fn how_bytes_are_written(b: Seq<u8>, i: int)
    requires
        0 <= i < b.len(),
    ensures
        hex_text(b).len() == 2 * b.len(),
        ({
            let (high, low) = (hex_text(b)[2 * i] as u32, hex_text(b)[2 * i + 1] as u32);
            &&& high == if b[i] / 16 < 10 {
                48 + b[i] / 16
            } else {
                87 + b[i] / 16
            }
            &&& low == if b[i] % 16 < 10 {
                48 + b[i] % 16
            } else {
                87 + b[i] % 16
            }
        }),
{
    assert((2 * i) / 2 == i);
    assert((2 * i + 1) / 2 == i);
}

/// Hexadecimal digits of either case stand for their values.
pub proof fn what_hexadecimal_digits_stand_for(c: char)
    ensures
        hex_value(c) == if '0' <= c && c <= '9' {
            Some((c as u32 - 48) as u8)
        } else if 'a' <= c && c <= 'f' {
            Some((c as u32 - 97 + 10) as u8)
        } else if 'A' <= c && c <= 'F' {
            Some((c as u32 - 65 + 10) as u8)
        } else {
            None
        },
{
}

/// Bytes are read from pairs of digits.
pub proof fn how_bytes_are_read(t: Seq<char>, i: int)
    requires
        is_hex(t),
        0 <= i < t.len() / 2,
    ensures
        unhex(t).len() == t.len() / 2,
        unhex(t)[i] == hex_value(t[2 * i])->0 * 16 + hex_value(t[2 * i + 1])->0,
{
    assert(hex_value(t[2 * i]) is Some);
    assert(hex_value(t[2 * i + 1]) is Some);
}

// ---------------------------------------------------------------------------
// Keys
// ---------------------------------------------------------------------------

/// Keys are in the order of the first byte in which they differ.
pub proof fn the_first_different_byte_decides(a: Seq<u8>, b: Seq<u8>, k: int)
    requires
        a.len() == b.len(),
        0 <= k < a.len(),
        a.take(k) == b.take(k),
        a[k] != b[k],
    ensures
        bytes_before(a, b) <==> a[k] < b[k],
    decreases k,
{
    if k > 0 {
        let (s, t) = (a.subrange(1, a.len() as int), b.subrange(1, b.len() as int));
        assert(a[0] == a.take(k)[0] && b[0] == b.take(k)[0]);
        assert forall|i: int| 0 <= i < k - 1 implies s[i] == t[i] by {
            assert(s[i] == a.take(k)[i + 1]);
            assert(t[i] == b.take(k)[i + 1]);
        }
        assert(s.take(k - 1) =~= t.take(k - 1));
        the_first_different_byte_decides(s, t, k - 1);
    }
}

/// No key comes before itself.
pub proof fn no_key_comes_before_itself(a: Seq<u8>)
    ensures
        !bytes_before(a, a),
    decreases a.len(),
{
    if a.len() > 0 {
        no_key_comes_before_itself(a.subrange(1, a.len() as int));
    }
}

/// A key is read from 64 hexadecimal digits as those bytes, and from anything
/// else as base58 of 32 bytes; white space around it does not matter.
pub proof fn how_a_key_is_read(s: Seq<char>)
    ensures
        parse_key(s) == parse_key(trim(s)),
        parse_key(s) matches Ok(k) ==> k.len() == 32,
        trim(s).len() == 64 && all_hex(trim(s)) ==> parse_key(s) == Ok::<Seq<u8>, ErrorModel>(
            unhex(trim(s)),
        ),
        !(trim(s).len() == 64 && all_hex(trim(s))) ==> (forall|k: Seq<u8>|
            #![trigger unbase58(trim(s)), k.len()]
            parse_key(s) == Ok::<Seq<u8>, ErrorModel>(k) <==> unbase58(trim(s)) == Ok::<
                Seq<u8>,
                Seq<char>,
            >(k) && k.len() == 32),
{
    trimming_takes_white_space_only(s);
}

/// A seed is read from 64 hexadecimal digits, and from nothing else; white
/// space around it does not matter.
pub proof fn how_a_seed_is_read(s: Seq<char>)
    ensures
        parse_secret(s) is Ok <==> trim(s).len() == 64 && all_hex(trim(s)),
        parse_secret(s) matches Ok(seed) ==> seed.len() == 32 && seed == unhex(trim(s)),
{
}

/// A key file is read only when nobody but its owner may do anything with it:
/// when none of the six bits for the group and for others is set.
pub proof fn a_key_file_is_private(path: Seq<char>, mode: u32, text: Seq<char>)
    ensures
        mode & 0o077 != 0 ==> secret_in_file(path, mode, text) is Err,
        mode & 0o077 == 0 ==> secret_in_file(path, mode, text) == parse_secret(text),
{
    assert(mode & 0o077 == mode % 0o100) by (bit_vector);
}

/// The short form of a key is the first eight characters of its base58 form.
pub proof fn what_a_short_key_is(key: Seq<u8>)
    requires
        base58(key).len() >= 8,
    ensures
        short_key(key).len() == 8,
        short_key(key) == base58(key).take(8),
{
    assert(short_key(key) =~= base58(key).take(8));
}

/// A name below a directory: the directory, one slash, the name; a name that
/// is absolute stands by itself, and so does one below nothing.
pub proof fn where_a_name_stands(base: Seq<u8>, name: Seq<u8>)
    ensures
        name.len() > 0 && name[0] == 47 ==> joined_path(base, name) == name,
        base.len() == 0 ==> joined_path(base, name) == name,
        base.len() > 0 && !(name.len() > 0 && name[0] == 47) ==> {
            let p = joined_path(base, name);
            &&& p.take(base.len() as int) == base
            &&& p.skip(p.len() - name.len()) == name
            &&& p[p.len() - name.len() - 1] == 47
            &&& p.len() == base.len() + name.len() + if base.last() == 47 {
                0int
            } else {
                1
            }
        },
{
    if base.len() > 0 && !(name.len() > 0 && name[0] == 47) {
        let p = joined_path(base, name);
        assert(p.take(base.len() as int) =~= base);
        assert(p.skip(p.len() - name.len()) =~= name);
    }
}

// ---------------------------------------------------------------------------
// Addresses
// ---------------------------------------------------------------------------

/// An authority without a port has port 5300; one with a port has that one.
pub proof fn which_port_is_meant(host: Seq<char>, port: u16)
    requires
        host.len() > 0,
        host[0] != '[',
        !host.contains(':'),
    ensures
        authority_parsed(host) == Ok::<(Seq<char>, u16), ErrorModel>((host, 5300)),
        authority_parsed(host + ":"@ + dec(port as nat)) == Ok::<(Seq<char>, u16), ErrorModel>(
            (host, port),
        ),
{
    what_a_split_gives(host, ':');
    reveal_strlit(":");
    assert(":"@ =~= seq![':']);
    let d = dec(port as nat);
    let s = host + ":"@ + d;
    assert(s[0] == host[0]);
    assert(s[host.len() as int] == ':');
    assert forall|i: int| 0 <= i < host.len() implies s[i] != ':' by {
        assert(host.contains(host[i]));
    }
    first_is_find(s, ':', host.len() as int);
    assert(s.subrange(0, host.len() as int) =~= host);
    assert(s.subrange(host.len() as int + 1, s.len() as int) =~= d);
    how_numbers_are_written(port as nat);
    assert(!d.contains(':')) by {
        if d.contains(':') {
            let i = choose|i: int| 0 <= i < d.len() && d[i] == ':';
            assert(48 <= d[i] as u32 <= 57);
        }
    }
    written_numbers_read_back(port as nat, 65535);
}

/// The scheme of an address is what it starts with; one without is generic.
pub proof fn which_scheme_is_meant(rest: Seq<char>)
    ensures
        scheme_parsed("sqns://"@ + rest) == (Scheme::Sqns, rest),
        scheme_parsed("sqc://"@ + rest) == (Scheme::Sqc, rest),
        after_prefix(rest, "sqns://"@) is None && after_prefix(rest, "sqc://"@) is None
            ==> scheme_parsed(rest) == (Scheme::Sqc, rest),
{
    what_follows_a_prefix("sqns://"@ + rest, "sqns://"@, rest);
    what_follows_a_prefix("sqc://"@ + rest, "sqc://"@, rest);
    reveal_strlit("sqns://");
    reveal_strlit("sqc://");
    let s = "sqc://"@ + rest;
    assert(s[2] == 'c');
    if after_prefix(s, "sqns://"@) is Some {
        assert(s.subrange(0, 7)[2] == "sqns://"@[2]);
    }
}

/// An address is read as its scheme, its authority and its key: the authority
/// is what stands before the first slash, the key what stands after it.
pub proof fn how_an_address_is_read(s: Seq<char>, authority: Seq<char>, key_text: Seq<char>)
    requires
        trim(s) == "sqns://"@ + authority + seq!['/'] + key_text,
        !authority.contains('/'),
        key_text.len() > 0,
        parse_key(key_text) is Ok,
        authority_parsed(authority) is Ok,
    ensures
        addr_parsed(s) matches Ok(a) && a.scheme is Sqns && a.key == parse_key(key_text)->Ok_0
            && (a.host, a.port) == authority_parsed(authority)->Ok_0,
{
    let rest = authority + seq!['/'] + key_text;
    assert("sqns://"@ + authority + seq!['/'] + key_text =~= "sqns://"@ + rest);
    which_scheme_is_meant(rest);
    assert forall|i: int| 0 <= i < authority.len() implies rest[i] != '/' by {
        assert(authority.contains(authority[i]));
    }
    first_is_find(rest, '/', authority.len() as int);
    assert(rest.subrange(0, authority.len() as int) =~= authority);
    assert(rest.subrange(authority.len() as int + 1, rest.len() as int) =~= key_text);
}

} // verus!
