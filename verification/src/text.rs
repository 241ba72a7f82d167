//! Character-level text operations: whitespace trimming, splitting on a
//! separator, decimal rendering of integers and string building.
use vstd::prelude::*;

verus! {

/// The Unicode `White_Space` property, which `char::is_whitespace` tests.
pub open spec fn is_ws(c: char) -> bool {
    let u = c as u32;
    ||| (0x09 <= u && u <= 0x0d)
    ||| u == 0x20
    ||| u == 0x85
    ||| u == 0xa0
    ||| u == 0x1680
    ||| (0x2000 <= u && u <= 0x200a)
    ||| u == 0x2028
    ||| u == 0x2029
    ||| u == 0x202f
    ||| u == 0x205f
    ||| u == 0x3000
}

/// `s` with its leading whitespace removed.
pub open spec fn trim_start(s: Seq<char>) -> Seq<char>
    decreases s.len(),
{
    if s.len() > 0 && is_ws(s[0]) {
        trim_start(s.drop_first())
    } else {
        s
    }
}

/// `s` with its trailing whitespace removed.
pub open spec fn trim_end(s: Seq<char>) -> Seq<char>
    decreases s.len(),
{
    if s.len() > 0 && is_ws(s.last()) {
        trim_end(s.drop_last())
    } else {
        s
    }
}

/// `s` with leading and trailing whitespace removed (what `str::trim` does).
pub open spec fn trim(s: Seq<char>) -> Seq<char> {
    trim_end(trim_start(s))
}

/// `s` with every leading occurrence of `c` removed.
pub open spec fn strip_start_char(s: Seq<char>, c: char) -> Seq<char>
    decreases s.len(),
{
    if s.len() > 0 && s[0] == c {
        strip_start_char(s.drop_first(), c)
    } else {
        s
    }
}

/// `s` with every trailing occurrence of `c` removed.
pub open spec fn strip_end_char(s: Seq<char>, c: char) -> Seq<char>
    decreases s.len(),
{
    if s.len() > 0 && s.last() == c {
        strip_end_char(s.drop_last(), c)
    } else {
        s
    }
}

/// `s` with every leading and trailing occurrence of `c` removed
/// (what `str::trim_matches` does with a single character).
pub open spec fn trim_matches(s: Seq<char>, c: char) -> Seq<char> {
    strip_end_char(strip_start_char(s, c), c)
}

/// The index of the first occurrence of `c` in `s`, or `s.len()` if there is none.
pub open spec fn index_of(s: Seq<char>, c: char) -> nat
    decreases s.len(),
{
    if s.len() == 0 {
        0
    } else if s[0] == c {
        0
    } else {
        1 + index_of(s.drop_first(), c)
    }
}

/// The pieces of `s` between occurrences of `c` (what `str::split` with a
/// single character yields); always at least one piece.
pub open spec fn split_on(s: Seq<char>, c: char) -> Seq<Seq<char>>
    decreases s.len(),
{
    let i = index_of(s, c);
    if i < s.len() {
        seq![s.take(i as int)] + split_on(s.skip(i as int + 1), c)
    } else {
        seq![s]
    }
}

/// The pieces joined back together with `c` between consecutive pieces.
pub open spec fn join_with(parts: Seq<Seq<char>>, c: char) -> Seq<char>
    decreases parts.len(),
{
    if parts.len() == 0 {
        Seq::empty()
    } else if parts.len() == 1 {
        parts[0]
    } else {
        parts[0] + seq![c] + join_with(parts.drop_first(), c)
    }
}

/// The pieces joined together with the separator `sep` between consecutive pieces.
pub open spec fn join_seq(parts: Seq<Seq<char>>, sep: Seq<char>) -> Seq<char>
    decreases parts.len(),
{
    if parts.len() == 0 {
        Seq::empty()
    } else if parts.len() == 1 {
        parts[0]
    } else {
        parts[0] + sep + join_seq(parts.drop_first(), sep)
    }
}

/// The ASCII decimal digit for `d` (for `d < 10`).
pub open spec fn digit_char(d: nat) -> char {
    (d + 48) as char
}

/// Whether `c` is an ASCII decimal digit.
pub open spec fn is_digit(c: char) -> bool {
    '0' <= c && c <= '9'
}

/// The value of an ASCII decimal digit.
pub open spec fn digit_value(c: char) -> nat {
    (c as u32 - 48) as nat
}

/// The decimal rendering of `n`, without leading zeros.
pub open spec fn dec(n: nat) -> Seq<char>
    decreases n,
{
    if n < 10 {
        seq![digit_char(n)]
    } else {
        dec(n / 10).push(digit_char(n % 10))
    }
}

/// The decimal rendering of a signed integer, with a leading `-` when negative.
pub open spec fn int_text(n: int) -> Seq<char> {
    if n < 0 {
        seq!['-'] + dec((-n) as nat)
    } else {
        dec(n as nat)
    }
}

/// Whether every character of `s` is an ASCII decimal digit.
pub open spec fn all_digits(s: Seq<char>) -> bool {
    forall|i: int| 0 <= i < s.len() ==> #[trigger] is_digit(s[i])
}

/// The number that a sequence of decimal digits denotes.
pub open spec fn digits_value(s: Seq<char>) -> nat
    decreases s.len(),
{
    if s.len() == 0 {
        0
    } else {
        digits_value(s.drop_last()) * 10 + digit_value(s.last())
    }
}

// ---------------------------------------------------------------------------
// Lemmas
// ---------------------------------------------------------------------------

/// Trimming leaves a sequence unchanged when its first and last characters
/// are not whitespace.
pub proof fn lemma_trim_no_ws_ends(s: Seq<char>)
    requires
        s.len() > 0 ==> !is_ws(s[0]) && !is_ws(s.last()),
    ensures
        trim(s) == s,
{
}

/// Removing leading whitespace from whitespace followed by `x`.
proof fn lemma_trim_start_skips_ws(w: Seq<char>, x: Seq<char>)
    requires
        forall|i: int| 0 <= i < w.len() ==> is_ws(#[trigger] w[i]),
    ensures
        trim_start(w + x) == trim_start(x),
    decreases w.len(),
{
    if w.len() > 0 {
        assert((w + x).drop_first() =~= w.drop_first() + x);
        assert((w + x)[0] == w[0]);
        assert forall|i: int| 0 <= i < w.drop_first().len() implies is_ws(
            #[trigger] w.drop_first()[i],
        ) by {
            assert(w.drop_first()[i] == w[i + 1]);
        }
        lemma_trim_start_skips_ws(w.drop_first(), x);
    } else {
        assert(w + x =~= x);
    }
}

/// Removing trailing whitespace from `x` followed by whitespace.
proof fn lemma_trim_end_skips_ws(x: Seq<char>, w: Seq<char>)
    requires
        forall|i: int| 0 <= i < w.len() ==> is_ws(#[trigger] w[i]),
    ensures
        trim_end(x + w) == trim_end(x),
    decreases w.len(),
{
    if w.len() > 0 {
        assert((x + w).drop_last() =~= x + w.drop_last());
        assert((x + w).last() == w[w.len() - 1]);
        assert forall|i: int| 0 <= i < w.drop_last().len() implies is_ws(
            #[trigger] w.drop_last()[i],
        ) by {
            assert(w.drop_last()[i] == w[i]);
        }
        lemma_trim_end_skips_ws(x, w.drop_last());
    } else {
        assert(x + w =~= x);
    }
}

/// Text that neither starts nor ends with whitespace is exactly what trimming
/// leaves of it when it is surrounded by any amount of whitespace.
pub proof fn lemma_trim_padded(w1: Seq<char>, s: Seq<char>, w2: Seq<char>)
    requires
        forall|i: int| 0 <= i < w1.len() ==> is_ws(#[trigger] w1[i]),
        forall|i: int| 0 <= i < w2.len() ==> is_ws(#[trigger] w2[i]),
        s.len() > 0,
        !is_ws(s[0]),
        !is_ws(s.last()),
    ensures
        trim(w1 + s + w2) == s,
{
    assert(w1 + s + w2 =~= w1 + (s + w2));
    lemma_trim_start_skips_ws(w1, s + w2);
    assert((s + w2)[0] == s[0]);
    assert(trim_start(s + w2) == s + w2);
    lemma_trim_end_skips_ws(s, w2);
    assert(trim_end(s) == s);
}

proof fn lemma_trim_end_keeps_non_ws_start(t: Seq<char>)
    requires
        t.len() > 0,
        !is_ws(t[0]),
    ensures
        trim_end(t).len() > 0,
    decreases t.len(),
{
    if is_ws(t.last()) {
        assert(t.len() > 1);
        assert(t.drop_last()[0] == t[0]);
        lemma_trim_end_keeps_non_ws_start(t.drop_last());
    }
}

proof fn lemma_trim_start_empty(s: Seq<char>)
    ensures
        (trim_start(s).len() == 0) <==> (forall|i: int| 0 <= i < s.len() ==> is_ws(#[trigger] s[i])),
        trim_start(s).len() > 0 ==> !is_ws(trim_start(s)[0]),
    decreases s.len(),
{
    if s.len() > 0 && is_ws(s[0]) {
        lemma_trim_start_empty(s.drop_first());
        assert forall|i: int| 1 <= i < s.len() implies s[i] == s.drop_first()[i - 1] by {}
        if forall|i: int| 0 <= i < s.drop_first().len() ==> is_ws(#[trigger] s.drop_first()[i]) {
            assert forall|i: int| 0 <= i < s.len() implies is_ws(#[trigger] s[i]) by {
                if i > 0 {
                    assert(s[i] == s.drop_first()[i - 1]);
                }
            }
        } else {
            let j = choose|j: int| 0 <= j < s.drop_first().len() && !is_ws(s.drop_first()[j]);
            assert(!is_ws(s[j + 1]));
        }
    } else if s.len() > 0 {
        assert(!is_ws(s[0]));
    }
}

/// Trimming leaves nothing exactly when the text is all whitespace (or empty).
pub proof fn lemma_trim_empty_iff_blank(s: Seq<char>)
    ensures
        (trim(s).len() == 0) <==> (forall|i: int| 0 <= i < s.len() ==> is_ws(#[trigger] s[i])),
{
    lemma_trim_start_empty(s);
    let t = trim_start(s);
    if t.len() > 0 {
        lemma_trim_end_keeps_non_ws_start(t);
    } else {
        assert(trim_end(t) == t);
    }
}

/// Trimming text that starts, after whitespace, with a non-whitespace
/// character leaves text that starts with that character.
pub proof fn lemma_trim_first_after_ws(w: Seq<char>, x: Seq<char>)
    requires
        forall|i: int| 0 <= i < w.len() ==> is_ws(#[trigger] w[i]),
        x.len() > 0,
        !is_ws(x[0]),
    ensures
        trim(w + x).len() > 0,
        trim(w + x)[0] == x[0],
{
    lemma_trim_start_skips_ws(w, x);
    assert(trim_start(x) == x);
    lemma_trim_end_keeps_non_ws_start(x);
    lemma_trim_end_prefix(x);
}

proof fn lemma_trim_end_prefix(x: Seq<char>)
    ensures
        trim_end(x).len() <= x.len(),
        forall|i: int| 0 <= i < trim_end(x).len() ==> trim_end(x)[i] == x[i],
    decreases x.len(),
{
    if x.len() > 0 && is_ws(x.last()) {
        lemma_trim_end_prefix(x.drop_last());
        assert forall|i: int| 0 <= i < trim_end(x).len() implies trim_end(x)[i] == x[i] by {
            assert(trim_end(x)[i] == x.drop_last()[i]);
        }
    }
}

proof fn lemma_trim_start_suffix(x: Seq<char>)
    ensures
        exists|k: int| 0 <= k <= x.len() && trim_start(x) =~= x.subrange(k, x.len() as int),
    decreases x.len(),
{
    if x.len() > 0 && is_ws(x[0]) {
        lemma_trim_start_suffix(x.drop_first());
        let k = choose|k: int|
            0 <= k <= x.drop_first().len() && trim_start(x.drop_first()) =~= x.drop_first().subrange(
                k,
                x.drop_first().len() as int,
            );
        assert(trim_start(x) =~= x.subrange(k + 1, x.len() as int));
    } else {
        assert(trim_start(x) =~= x.subrange(0, x.len() as int));
    }
}

/// Trimmed text is a contiguous part of the original.
pub proof fn lemma_trim_is_slice(x: Seq<char>)
    ensures
        exists|k: int| 0 <= k <= x.len() - trim(x).len() && trim(x) =~= #[trigger] x.subrange(k, k + trim(x).len()),
{
    lemma_trim_start_suffix(x);
    let k = choose|k: int| 0 <= k <= x.len() && trim_start(x) =~= x.subrange(k, x.len() as int);
    lemma_trim_end_prefix(trim_start(x));
    assert(trim(x) =~= x.subrange(k, k + trim(x).len()));
}

/// Every character of `dec(n)` is a digit, the first is `0` only for `n == 0`,
/// and the digits denote `n`.
pub proof fn lemma_dec_digits(n: nat)
    ensures
        dec(n).len() >= 1,
        all_digits(dec(n)),
        digits_value(dec(n)) == n,
        (dec(n)[0] == '0') <==> n == 0,
        n < 10 ==> dec(n).len() == 1,
        10 <= n < 100 ==> dec(n).len() == 2,
        100 <= n < 1000 ==> dec(n).len() == 3,
    decreases n,
{
    if n < 10 {
        assert(digit_value(digit_char(n)) == n);
        assert(dec(n).drop_last() =~= Seq::<char>::empty());
        assert(digits_value(Seq::<char>::empty()) == 0);
    } else {
        lemma_dec_digits(n / 10);
        let d = dec(n / 10);
        assert(dec(n) == d.push(digit_char(n % 10)));
        assert(dec(n).drop_last() =~= d);
        assert(digit_value(digit_char(n % 10)) == n % 10);
        assert(digits_value(dec(n)) == digits_value(d) * 10 + n % 10);
        assert forall|i: int| 0 <= i < dec(n).len() implies #[trigger] is_digit(dec(n)[i]) by {
            if i < d.len() {
                assert(dec(n)[i] == d[i]);
            }
        }
    }
}

/// A digit sequence without a leading zero (other than the single digit `0`)
/// is the decimal rendering of its value.
pub proof fn lemma_digits_dec(s: Seq<char>)
    requires
        s.len() >= 1,
        all_digits(s),
        s.len() > 1 ==> s[0] != '0',
    ensures
        dec(digits_value(s)) == s,
        s.len() > 1 ==> digits_value(s) >= 10,
        s[0] != '0' ==> digits_value(s) >= 1,
    decreases s.len(),
{
    let v = digits_value(s);
    let last = s.last();
    assert(is_digit(s[s.len() - 1]));
    if s.len() == 1 {
        assert(s.drop_last() =~= Seq::<char>::empty());
        assert(digits_value(Seq::<char>::empty()) == 0);
        assert(v == digits_value(s.drop_last()) * 10 + digit_value(last));
        assert(v == digit_value(last));
        assert(digit_char(digit_value(last)) == last);
        assert(dec(v) =~= s);
    } else {
        let p = s.drop_last();
        assert(p[0] == s[0]);
        assert forall|i: int| 0 <= i < p.len() implies #[trigger] is_digit(p[i]) by {
            assert(p[i] == s[i]);
        }
        lemma_digits_dec(p);
        let pv = digits_value(p);
        assert(pv >= 1);
        assert(v == pv * 10 + digit_value(last));
        assert(v / 10 == pv && v % 10 == digit_value(last));
        assert(digit_char(digit_value(last)) == last);
        assert(dec(v) == dec(pv).push(digit_char(v % 10)));
        assert(dec(v) =~= s);
    }
}

/// Joining one more piece onto a joined sequence.
pub proof fn lemma_join_seq_push(parts: Seq<Seq<char>>, x: Seq<char>, sep: Seq<char>)
    ensures
        parts.len() == 0 ==> join_seq(parts.push(x), sep) == x,
        parts.len() > 0 ==> join_seq(parts.push(x), sep) == join_seq(parts, sep) + sep + x,
    decreases parts.len(),
{
    if parts.len() == 0 {
        assert(parts.push(x) =~= seq![x]);
    } else if parts.len() == 1 {
        let q = parts.push(x);
        assert(q.drop_first() =~= seq![x]);
        assert(join_seq(q.drop_first(), sep) == x);
    } else {
        let q = parts.push(x);
        assert(q.drop_first() =~= parts.drop_first().push(x));
        lemma_join_seq_push(parts.drop_first(), x, sep);
        assert(join_seq(q, sep) == parts[0] + sep + join_seq(q.drop_first(), sep));
        assert(join_seq(q, sep) =~= join_seq(parts, sep) + sep + x);
    }
}

// ---------------------------------------------------------------------------
// Executable operations
// ---------------------------------------------------------------------------

/// Appends one character to a string.
#[verifier::external_body]
pub(crate) fn push_char(s: &mut String, c: char)
    ensures
        final(s)@ == old(s)@.push(c),
{
    s.push(c);
}

/// Whether `c` has the Unicode `White_Space` property.
pub fn char_is_whitespace(c: char) -> (r: bool)
    ensures
        r == is_ws(c),
{
    let u = c as u32;
    (0x09 <= u && u <= 0x0d) || u == 0x20 || u == 0x85 || u == 0xa0 || u == 0x1680 || (0x2000
        <= u && u <= 0x200a) || u == 0x2028 || u == 0x2029 || u == 0x202f || u == 0x205f || u
        == 0x3000
}

proof fn lemma_trim_start_step(s: Seq<char>, i: int)
    requires
        0 <= i < s.len(),
        is_ws(s[i]),
    ensures
        trim_start(s.subrange(i, s.len() as int)) == trim_start(s.subrange(i + 1, s.len() as int)),
{
    let t = s.subrange(i, s.len() as int);
    assert(t.drop_first() =~= s.subrange(i + 1, s.len() as int));
}

proof fn lemma_trim_end_step(s: Seq<char>, i: int, j: int)
    requires
        0 <= i < j <= s.len(),
        is_ws(s[j - 1]),
    ensures
        trim_end(s.subrange(i, j)) == trim_end(s.subrange(i, j - 1)),
{
    let t = s.subrange(i, j);
    assert(t.drop_last() =~= s.subrange(i, j - 1));
}

/// The bounds `(start, end)` of `trim(s@)` within `s`, as character indices.
pub fn trim_bounds(s: &str) -> (r: (usize, usize))
    ensures
        r.0 <= r.1 <= s@.len(),
        s@.subrange(r.0 as int, r.1 as int) == trim(s@),
{
    let n = s.unicode_len();
    let mut i: usize = 0;
    assert(s@.subrange(0, n as int) =~= s@);
    while i < n && char_is_whitespace(s.get_char(i))
        invariant
            i <= n,
            n == s@.len(),
            trim_start(s@) == trim_start(s@.subrange(i as int, n as int)),
        decreases n - i,
    {
        proof {
            lemma_trim_start_step(s@, i as int);
        }
        i = i + 1;
    }
    assert(trim_start(s@) == s@.subrange(i as int, n as int));
    let mut j: usize = n;
    while j > i && char_is_whitespace(s.get_char(j - 1))
        invariant
            i <= j <= n,
            n == s@.len(),
            trim_start(s@) == s@.subrange(i as int, n as int),
            trim(s@) == trim_end(s@.subrange(i as int, j as int)),
        decreases j,
    {
        proof {
            lemma_trim_end_step(s@, i as int, j as int);
        }
        j = j - 1;
    }
    let ghost t = s@.subrange(i as int, j as int);
    assert(t.len() > 0 ==> t.last() == s@[j - 1]);
    (i, j)
}

/// `s` with leading and trailing whitespace removed.
pub fn trim_str(s: &str) -> (r: &str)
    ensures
        r@ == trim(s@),
{
    let (i, j) = trim_bounds(s);
    s.substring_char(i, j)
}

proof fn lemma_strip_start_step(s: Seq<char>, i: int, c: char)
    requires
        0 <= i < s.len(),
        s[i] == c,
    ensures
        strip_start_char(s.subrange(i, s.len() as int), c) == strip_start_char(
            s.subrange(i + 1, s.len() as int),
            c,
        ),
{
    let t = s.subrange(i, s.len() as int);
    assert(t.drop_first() =~= s.subrange(i + 1, s.len() as int));
}

proof fn lemma_strip_end_step(s: Seq<char>, i: int, j: int, c: char)
    requires
        0 <= i < j <= s.len(),
        s[j - 1] == c,
    ensures
        strip_end_char(s.subrange(i, j), c) == strip_end_char(s.subrange(i, j - 1), c),
{
    let t = s.subrange(i, j);
    assert(t.drop_last() =~= s.subrange(i, j - 1));
}

/// `s` with every leading and trailing occurrence of `c` removed.
pub fn trim_matches_str(s: &str, c: char) -> (r: &str)
    ensures
        r@ == trim_matches(s@, c),
{
    let n = s.unicode_len();
    let mut i: usize = 0;
    assert(s@.subrange(0, n as int) =~= s@);
    while i < n && s.get_char(i) == c
        invariant
            i <= n,
            n == s@.len(),
            strip_start_char(s@, c) == strip_start_char(s@.subrange(i as int, n as int), c),
        decreases n - i,
    {
        proof {
            lemma_strip_start_step(s@, i as int, c);
        }
        i = i + 1;
    }
    assert(strip_start_char(s@, c) == s@.subrange(i as int, n as int));
    let mut j: usize = n;
    while j > i && s.get_char(j - 1) == c
        invariant
            i <= j <= n,
            n == s@.len(),
            strip_start_char(s@, c) == s@.subrange(i as int, n as int),
            trim_matches(s@, c) == strip_end_char(s@.subrange(i as int, j as int), c),
        decreases j,
    {
        proof {
            lemma_strip_end_step(s@, i as int, j as int, c);
        }
        j = j - 1;
    }
    let ghost t = s@.subrange(i as int, j as int);
    assert(t.len() > 0 ==> t.last() == s@[j - 1]);
    s.substring_char(i, j)
}

proof fn lemma_index_of_step(s: Seq<char>, from: int, i: int, c: char)
    requires
        0 <= from <= i < s.len(),
        s[i] != c,
        index_of(s.subrange(from, s.len() as int), c) == (i - from) + index_of(
            s.subrange(i, s.len() as int),
            c,
        ),
    ensures
        index_of(s.subrange(from, s.len() as int), c) == (i + 1 - from) + index_of(
            s.subrange(i + 1, s.len() as int),
            c,
        ),
{
    let t = s.subrange(i, s.len() as int);
    assert(t.drop_first() =~= s.subrange(i + 1, s.len() as int));
}

/// The position of the first `c` in `s` at or after `from`, or the length of
/// `s` if there is none.
pub fn find_char_from(s: &str, from: usize, c: char) -> (r: usize)
    requires
        from <= s@.len(),
    ensures
        from <= r <= s@.len(),
        r == from + index_of(s@.subrange(from as int, s@.len() as int), c),
{
    let n = s.unicode_len();
    let mut i = from;
    while i < n && s.get_char(i) != c
        invariant
            from <= i <= n,
            n == s@.len(),
            index_of(s@.subrange(from as int, n as int), c) == (i - from) + index_of(
                s@.subrange(i as int, n as int),
                c,
            ),
        decreases n - i,
    {
        proof {
            lemma_index_of_step(s@, from as int, i as int, c);
        }
        i = i + 1;
    }
    proof {
        let t = s@.subrange(i as int, n as int);
        if i < n {
            assert(t[0] == s@[i as int]);
        }
    }
    i
}

/// The facts about one step of `split_on` that a scanning loop needs: the
/// piece that starts at `from` ends at `i`, the next `c` (or the end).
pub proof fn lemma_split_step(s: Seq<char>, from: int, i: int, c: char)
    requires
        0 <= from <= i <= s.len(),
        i == from + index_of(s.subrange(from, s.len() as int), c),
    ensures
        i < s.len() ==> split_on(s.subrange(from, s.len() as int), c) == seq![
            s.subrange(from, i),
        ] + split_on(s.subrange(i + 1, s.len() as int), c),
        i == s.len() ==> split_on(s.subrange(from, s.len() as int), c) == seq![
            s.subrange(from, i),
        ],
{
    let t = s.subrange(from, s.len() as int);
    assert(t.take(i - from) =~= s.subrange(from, i));
    if i < s.len() {
        assert(t.skip(i - from + 1) =~= s.subrange(i + 1, s.len() as int));
    }
}

/// Whether two strings hold the same characters.
pub fn str_equal(a: &str, b: &str) -> (r: bool)
    ensures
        r == (a@ == b@),
{
    let n = a.unicode_len();
    let m = b.unicode_len();
    if n != m {
        return false;
    }
    let mut i: usize = 0;
    while i < n
        invariant
            i <= n,
            n == a@.len(),
            m == b@.len(),
            n == m,
            forall|k: int| 0 <= k < i ==> a@[k] == b@[k],
        decreases n - i,
    {
        if a.get_char(i) != b.get_char(i) {
            return false;
        }
        i = i + 1;
    }
    assert(a@ =~= b@);
    true
}

/// Appends the decimal rendering of `n` to `out`.
pub fn push_decimal(out: &mut String, n: u64)
    ensures
        final(out)@ == old(out)@ + dec(n as nat),
    decreases n,
{
    if n >= 10 {
        push_decimal(out, n / 10);
    }
    let d = (n % 10) as u8;
    let c = (d + 48) as char;
    assert(c == digit_char((n % 10) as nat));
    push_char(out, c);
    assert(dec(n as nat) == if n < 10 {
        seq![digit_char(n as nat)]
    } else {
        dec((n / 10) as nat).push(digit_char((n % 10) as nat))
    });
}

/// Appends the decimal rendering of a signed integer to `out`.
pub fn push_int(out: &mut String, n: i64)
    ensures
        final(out)@ == old(out)@ + int_text(n as int),
{
    if n < 0 {
        push_char(out, '-');
        let m: u64 = if n == i64::MIN {
            0x8000_0000_0000_0000u64
        } else {
            (-n) as u64
        };
        push_decimal(out, m);
        assert(out@ =~= old(out)@ + int_text(n as int));
    } else {
        push_decimal(out, n as u64);
    }
}

/// The decimal rendering of `n` as a new string.
pub fn decimal_string(n: u64) -> (s: String)
    ensures
        s@ == dec(n as nat),
{
    let mut s = String::new();
    push_decimal(&mut s, n);
    assert(s@ =~= dec(n as nat));
    s
}

} // verus!
