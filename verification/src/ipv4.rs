//! IPv4 addresses in dotted-decimal form: parsing with the rules of the
//! standard library's `Ipv4Addr` parser, and rendering.
use vstd::prelude::*;

use crate::text::{
    all_digits, dec, digits_value, find_char_from, index_of, is_digit, join_with,
    lemma_dec_digits, lemma_digits_dec, lemma_split_step, lemma_trim_no_ws_ends, push_char,
    push_decimal, split_on, trim, trim_str,
};

verus! {

/// An IPv4 address, as its four octets in network order.
#[derive(Clone, Copy, Debug, PartialEq, Eq, Structural)]
pub struct Ipv4Address {
    pub a: u8,
    pub b: u8,
    pub c: u8,
    pub d: u8,
}

/// The value of one dotted-decimal group: one to three ASCII digits, without a
/// leading zero unless the group is exactly `0`, and at most 255.
pub open spec fn octet_of(t: Seq<char>) -> Option<u8> {
    if 1 <= t.len() <= 3 && all_digits(t) && !(t.len() > 1 && t[0] == '0') && digits_value(t)
        <= 255 {
        Some(digits_value(t) as u8)
    } else {
        None
    }
}

/// The address that `s` denotes in dotted-decimal form: exactly four groups
/// separated by `.`, each a valid octet, and nothing else.
pub open spec fn parse_ipv4(s: Seq<char>) -> Option<Ipv4Address> {
    let p = split_on(s, '.');
    if p.len() == 4 && octet_of(p[0]) is Some && octet_of(p[1]) is Some && octet_of(p[2]) is Some
        && octet_of(p[3]) is Some {
        Some(
            Ipv4Address {
                a: octet_of(p[0])->0,
                b: octet_of(p[1])->0,
                c: octet_of(p[2])->0,
                d: octet_of(p[3])->0,
            },
        )
    } else {
        None
    }
}

/// The dotted-decimal rendering of an address (what `Ipv4Addr`'s `Display` writes).
pub open spec fn format_ipv4(a: Ipv4Address) -> Seq<char> {
    dec(a.a as nat) + seq!['.'] + dec(a.b as nat) + seq!['.'] + dec(
        a.c as nat,
    ) + seq!['.'] + dec(a.d as nat)
}

/// The address that `s` denotes once surrounding whitespace is removed.
pub open spec fn parse_ipv4_trimmed(s: Seq<char>) -> Option<Ipv4Address> {
    parse_ipv4(trim(s))
}

// ---------------------------------------------------------------------------
// Lemmas about splitting
// ---------------------------------------------------------------------------

/// `index_of` finds the first occurrence, if any.
pub proof fn lemma_index_of(s: Seq<char>, c: char)
    ensures
        index_of(s, c) <= s.len(),
        index_of(s, c) < s.len() ==> s[index_of(s, c) as int] == c,
        forall|j: int| 0 <= j < index_of(s, c) ==> s[j] != c,
    decreases s.len(),
{
    if s.len() > 0 && s[0] != c {
        lemma_index_of(s.drop_first(), c);
        assert forall|j: int| 0 <= j < index_of(s, c) implies s[j] != c by {
            if j > 0 {
                assert(s[j] == s.drop_first()[j - 1]);
            }
        }
    }
}

/// A piece without `c` followed by `c` is the first piece of the split.
pub proof fn lemma_index_of_prefix(t: Seq<char>, r: Seq<char>, c: char)
    requires
        forall|j: int| 0 <= j < t.len() ==> t[j] != c,
    ensures
        index_of(t + seq![c] + r, c) == t.len(),
        index_of(t, c) == t.len(),
    decreases t.len(),
{
    if t.len() > 0 {
        let u = t + seq![c] + r;
        assert(u.drop_first() =~= t.drop_first() + seq![c] + r);
        lemma_index_of_prefix(t.drop_first(), r, c);
        assert(u[0] == t[0]);
    }
}

/// Splitting `t + [c] + r` where `t` has no `c`.
pub proof fn lemma_split_prefix(t: Seq<char>, r: Seq<char>, c: char)
    requires
        forall|j: int| 0 <= j < t.len() ==> t[j] != c,
    ensures
        split_on(t + seq![c] + r, c) == seq![t] + split_on(r, c),
        split_on(t, c) == seq![t],
{
    lemma_index_of_prefix(t, r, c);
    let u = t + seq![c] + r;
    assert(u.take(t.len() as int) =~= t);
    assert(u.skip(t.len() as int + 1) =~= r);
}

/// Joining the pieces of a split with the separator gives back the text.
pub proof fn lemma_split_join(s: Seq<char>, c: char)
    ensures
        join_with(split_on(s, c), c) == s,
        split_on(s, c).len() >= 1,
        forall|k: int|
            0 <= k < split_on(s, c).len() ==> forall|j: int|
                0 <= j < (#[trigger] split_on(s, c)[k]).len() ==> split_on(s, c)[k][j] != c,
    decreases s.len(),
{
    lemma_index_of(s, c);
    let i = index_of(s, c);
    if i < s.len() {
        let rest = s.skip(i as int + 1);
        lemma_split_join(rest, c);
        let p = split_on(s, c);
        let q = split_on(rest, c);
        assert(p == seq![s.take(i as int)] + q);
        assert(p.drop_first() =~= q);
        assert(join_with(p, c) == s.take(i as int) + seq![c] + join_with(q, c));
        assert(s =~= s.take(i as int) + seq![c] + rest);
        assert forall|k: int| 0 <= k < p.len() implies forall|j: int|
            0 <= j < (#[trigger] p[k]).len() ==> p[k][j] != c by {
            if k > 0 {
                assert(p[k] == q[k - 1]);
            }
        }
    } else {
        assert(split_on(s, c) == seq![s]);
    }
}

/// A digit sequence contains no `.`.
proof fn lemma_digits_no_dot(t: Seq<char>)
    requires
        all_digits(t),
    ensures
        forall|j: int| 0 <= j < t.len() ==> t[j] != '.',
{
    assert forall|j: int| 0 <= j < t.len() implies t[j] != '.' by {
        assert(is_digit(t[j]));
    }
}

/// The rendering of a byte is a valid octet group denoting that byte.
pub proof fn lemma_octet_of_dec(n: u8)
    ensures
        octet_of(dec(n as nat)) == Some(n),
{
    lemma_dec_digits(n as nat);
}

/// A valid octet group is the rendering of its value.
pub proof fn lemma_dec_of_octet(t: Seq<char>)
    requires
        octet_of(t) is Some,
    ensures
        dec((octet_of(t)->0) as nat) == t,
{
    lemma_digits_dec(t);
}

// ---------------------------------------------------------------------------
// Laws
// ---------------------------------------------------------------------------

/// Rendering an address and parsing the text gives back the same address.
pub proof fn lemma_parse_format(a: Ipv4Address)
    ensures
        parse_ipv4(format_ipv4(a)) == Some(a),
{
    let (x0, x1, x2, x3) = (a.a, a.b, a.c, a.d);
    let d0 = dec(x0 as nat);
    let d1 = dec(x1 as nat);
    let d2 = dec(x2 as nat);
    let d3 = dec(x3 as nat);
    lemma_dec_digits(x0 as nat);
    lemma_dec_digits(x1 as nat);
    lemma_dec_digits(x2 as nat);
    lemma_dec_digits(x3 as nat);
    lemma_digits_no_dot(d0);
    lemma_digits_no_dot(d1);
    lemma_digits_no_dot(d2);
    lemma_digits_no_dot(d3);
    let r2 = d3;
    let r1 = d2 + seq!['.'] + r2;
    let r0 = d1 + seq!['.'] + r1;
    let s = d0 + seq!['.'] + r0;
    assert(s =~= format_ipv4(a));
    lemma_split_prefix(d3, Seq::empty(), '.');
    lemma_split_prefix(d2, r2, '.');
    lemma_split_prefix(d1, r1, '.');
    lemma_split_prefix(d0, r0, '.');
    let p = split_on(s, '.');
    assert(p =~= seq![d0, d1, d2, d3]);
    lemma_octet_of_dec(x0);
    lemma_octet_of_dec(x1);
    lemma_octet_of_dec(x2);
    lemma_octet_of_dec(x3);
}

/// Text that parses as an address is exactly the rendering of that address:
/// the dotted-decimal form of an address is unique.
pub proof fn lemma_format_parse(s: Seq<char>)
    requires
        parse_ipv4(s) is Some,
    ensures
        format_ipv4(parse_ipv4(s)->0) == s,
{
    let p = split_on(s, '.');
    lemma_split_join(s, '.');
    lemma_dec_of_octet(p[0]);
    lemma_dec_of_octet(p[1]);
    lemma_dec_of_octet(p[2]);
    lemma_dec_of_octet(p[3]);
    let q1 = p.drop_first();
    let q2 = q1.drop_first();
    let q3 = q2.drop_first();
    assert(q3 =~= seq![p[3]]);
    assert(join_with(q3, '.') == p[3]);
    assert(join_with(q2, '.') == p[2] + seq!['.'] + join_with(q3, '.'));
    assert(join_with(q1, '.') == p[1] + seq!['.'] + join_with(q2, '.'));
    assert(join_with(p, '.') == p[0] + seq!['.'] + join_with(q1, '.'));
    assert(join_with(p, '.') =~= p[0] + seq!['.'] + p[1] + seq!['.'] + p[2] + seq!['.'] + p[3]);
    assert(format_ipv4(parse_ipv4(s)->0) =~= p[0] + seq!['.'] + p[1] + seq!['.'] + p[2] + seq![
        '.',
    ] + p[3]);
}

/// What is written to the cache file is read back as the same address:
/// the rendering has no surrounding whitespace to trim.
pub proof fn lemma_cache_roundtrip(a: Ipv4Address)
    ensures
        parse_ipv4_trimmed(format_ipv4(a)) == Some(a),
{
    let s = format_ipv4(a);
    lemma_dec_digits(a.a as nat);
    lemma_dec_digits(a.d as nat);
    let d0 = dec(a.a as nat);
    let d3 = dec(a.d as nat);
    assert(s[0] == d0[0]);
    assert(s.last() == d3.last());
    assert(is_digit(d0[0]));
    assert(is_digit(d3[d3.len() - 1]));
    lemma_trim_no_ws_ends(s);
    lemma_parse_format(a);
}

// ---------------------------------------------------------------------------
// Executable operations
// ---------------------------------------------------------------------------

/// The octet that the characters `s[from..to]` denote, if they form a valid group.
fn octet_in(s: &str, from: usize, to: usize) -> (r: Option<u8>)
    requires
        from <= to <= s@.len(),
    ensures
        r == octet_of(s@.subrange(from as int, to as int)),
{
    let ghost t = s@.subrange(from as int, to as int);
    let len = to - from;
    if len == 0 || len > 3 {
        return None;
    }
    let mut value: u32 = 0;
    let mut k = from;
    assert(s@.subrange(from as int, from as int) =~= Seq::<char>::empty());
    while k < to
        invariant
            from <= k <= to,
            to - from <= 3,
            to <= s@.len(),
            t == s@.subrange(from as int, to as int),
            all_digits(s@.subrange(from as int, k as int)),
            value == digits_value(s@.subrange(from as int, k as int)),
            k - from == 0 ==> value == 0,
            k - from == 1 ==> value <= 9,
            k - from == 2 ==> value <= 99,
            k - from == 3 ==> value <= 999,
        decreases to - k,
    {
        let c = s.get_char(k);
        if !('0' <= c && c <= '9') {
            proof {
                assert(t[k - from] == c);
                assert(!is_digit(t[k - from]));
            }
            return None;
        }
        let d = (c as u32) - 48;
        proof {
            let u = s@.subrange(from as int, k + 1);
            assert(u.drop_last() =~= s@.subrange(from as int, k as int));
            assert(u.last() == c);
            assert forall|j: int| 0 <= j < u.len() implies #[trigger] is_digit(u[j]) by {
                if j < u.len() - 1 {
                    assert(u[j] == s@.subrange(from as int, k as int)[j]);
                }
            }
        }
        value = value * 10 + d;
        k = k + 1;
    }
    if len > 1 && s.get_char(from) == '0' {
        return None;
    }
    if value > 255 {
        return None;
    }
    Some(value as u8)
}

/// Parses an address in dotted-decimal form, with the rules of the standard
/// library's `Ipv4Addr` parser.
pub fn parse_ipv4_str(s: &str) -> (r: Option<Ipv4Address>)
    ensures
        r == parse_ipv4(s@),
{
    let n = s.unicode_len();
    let mut pos: usize = 0;
    let mut vals: Vec<u8> = Vec::new();
    let ghost mut done: Seq<Seq<char>> = Seq::empty();
    assert(s@.subrange(0, n as int) =~= s@);
    loop
        invariant_except_break
            pos <= n,
            n == s@.len(),
            vals.len() == done.len(),
            vals.len() < 4,
            split_on(s@, '.') == done + split_on(s@.subrange(pos as int, n as int), '.'),
            forall|k: int| 0 <= k < vals.len() ==> octet_of(#[trigger] done[k]) == Some(vals[k]),
        ensures
            n == s@.len(),
            vals.len() == done.len(),
            vals.len() <= 4,
            split_on(s@, '.') == done,
            forall|k: int| 0 <= k < vals.len() ==> octet_of(#[trigger] done[k]) == Some(vals[k]),
        decreases n - pos,
    {
        let i = find_char_from(s, pos, '.');
        proof {
            lemma_split_step(s@, pos as int, i as int, '.');
        }
        let ghost part = s@.subrange(pos as int, i as int);
        match octet_in(s, pos, i) {
            None => {
                proof {
                    let p = split_on(s@, '.');
                    let rest = split_on(s@.subrange(pos as int, n as int), '.');
                    assert(p[done.len() as int] == rest[0]);
                    assert(rest[0] == part);
                }
                return None;
            },
            Some(v) => {
                vals.push(v);
                proof {
                    done = done.push(part);
                }
                if i == n {
                    proof {
                        assert(split_on(s@, '.') =~= done);
                    }
                    break ;
                }
                if vals.len() == 4 {
                    proof {
                        let rest = split_on(s@.subrange(i + 1, n as int), '.');
                        lemma_split_join(s@.subrange(i + 1, n as int), '.');
                        assert(split_on(s@, '.') =~= done + rest);
                    }
                    return None;
                }
                proof {
                    let rest = split_on(s@.subrange(i + 1, n as int), '.');
                    assert(split_on(s@, '.') =~= done + rest);
                }
                pos = i + 1;
            },
        }
    }
    if vals.len() == 4 {
        Some(Ipv4Address { a: vals[0], b: vals[1], c: vals[2], d: vals[3] })
    } else {
        None
    }
}

/// Parses an address after removing surrounding whitespace, as is done with
/// the text of an IP endpoint's reply and with the cache file.
pub fn parse_ipv4_trimmed_str(s: &str) -> (r: Option<Ipv4Address>)
    ensures
        r == parse_ipv4_trimmed(s@),
{
    parse_ipv4_str(trim_str(s))
}

/// The dotted-decimal rendering of an address.
pub fn format_ipv4_string(a: Ipv4Address) -> (s: String)
    ensures
        s@ == format_ipv4(a),
{
    let mut s = String::new();
    push_decimal(&mut s, a.a as u64);
    push_char(&mut s, '.');
    push_decimal(&mut s, a.b as u64);
    push_char(&mut s, '.');
    push_decimal(&mut s, a.c as u64);
    push_char(&mut s, '.');
    push_decimal(&mut s, a.d as u64);
    assert(s@ =~= format_ipv4(a));
    s
}

/// The unspecified address `0.0.0.0`.
pub fn unspecified_ipv4() -> (a: Ipv4Address)
    ensures
        a == (Ipv4Address { a: 0, b: 0, c: 0, d: 0 }),
{
    Ipv4Address { a: 0, b: 0, c: 0, d: 0 }
}

} // verus!
