//! Query strings: `application/x-www-form-urlencoded` values, `&`-separated
//! pairs and decimal numbers.
use vstd::prelude::*;
use vstd::string::*;
use vstd::utf8::*;
use crate::text::push_char;

verus! {

/// Bytes that stand for themselves in an encoded value.
pub open spec fn is_unreserved(b: u8) -> bool {
    (0x30 <= b && b <= 0x39) || (0x41 <= b && b <= 0x5a) || (0x61 <= b && b <= 0x7a) || b == 0x2d
        || b == 0x2e || b == 0x5f || b == 0x2a
}

/// Upper-case hexadecimal digit of `n < 16`.
pub open spec fn hex_char(n: u8) -> char {
    if n < 10 {
        (0x30 + n) as char
    } else {
        (0x37 + n) as char
    }
}

/// How one byte is written: itself, `+` for a space, else `%` and two digits.
pub open spec fn encode_byte(b: u8) -> Seq<char> {
    if is_unreserved(b) {
        seq![b as char]
    } else if b == 0x20 {
        seq!['+']
    } else {
        seq!['%', hex_char(b / 16), hex_char(b % 16)]
    }
}

/// The encoding of a byte string, byte by byte.
pub open spec fn form_encode(b: Seq<u8>) -> Seq<char>
    decreases b.len(),
{
    if b.len() == 0 {
        Seq::empty()
    } else {
        form_encode(b.drop_last()) + encode_byte(b.last())
    }
}

/// Value of a hexadecimal digit of either case.
pub open spec fn hex_value(c: char) -> Option<u8> {
    if '0' <= c && c <= '9' {
        Some((c as u32 - 0x30) as u8)
    } else if 'A' <= c && c <= 'F' {
        Some((c as u32 - 0x37) as u8)
    } else if 'a' <= c && c <= 'f' {
        Some((c as u32 - 0x57) as u8)
    } else {
        None
    }
}

pub open spec fn prepend(p: Seq<u8>, o: Option<Seq<u8>>) -> Option<Seq<u8>> {
    match o {
        Some(t) => Some(p + t),
        None => None,
    }
}

/// Decoding of an encoded value: `%` and two digits give a byte, `+` a space,
/// any other ASCII character its own byte; `None` on a bad escape or on a
/// character outside ASCII.
pub open spec fn form_decode(s: Seq<char>) -> Option<Seq<u8>>
    decreases s.len(),
{
    if s.len() == 0 {
        Some(Seq::empty())
    } else if s[0] == '%' {
        if s.len() >= 3 && hex_value(s[1]) is Some && hex_value(s[2]) is Some {
            prepend(
                seq![(hex_value(s[1])->0 * 16 + hex_value(s[2])->0) as u8],
                form_decode(s.skip(3)),
            )
        } else {
            None
        }
    } else if s[0] == '+' {
        prepend(seq![0x20u8], form_decode(s.skip(1)))
    } else if (s[0] as u32) < 0x80 {
        prepend(seq![s[0] as u8], form_decode(s.skip(1)))
    } else {
        None
    }
}

fn hex_digit(n: u8) -> (c: char)
    requires
        n < 16,
    ensures
        c == hex_char(n),
{
    if n < 10 {
        (0x30 + n) as char
    } else {
        (0x37 + n) as char
    }
}

/// Appends the encoding of the UTF-8 bytes of `s`.
pub fn form_encode_into(out: &mut String, s: &str)
    ensures
        final(out)@ == old(out)@ + form_encode(s.spec_bytes()),
{
    let bytes = s.as_bytes();
    let ghost b = bytes@;
    let mut i: usize = 0;
    while i < bytes.len()
        invariant
            b == bytes@,
            i <= b.len(),
            out@ == old(out)@ + form_encode(b.take(i as int)),
        decreases b.len() - i,
    {
        let x = bytes[i];
        if (0x30 <= x && x <= 0x39) || (0x41 <= x && x <= 0x5a) || (0x61 <= x && x <= 0x7a) || x
            == 0x2d || x == 0x2e || x == 0x5f || x == 0x2a {
            push_char(out, x as char);
        } else if x == 0x20 {
            push_char(out, '+');
        } else {
            push_char(out, '%');
            push_char(out, hex_digit(x / 16));
            push_char(out, hex_digit(x % 16));
        }
        proof {
            assert(b.take(i + 1).drop_last() =~= b.take(i as int));
            assert(out@ =~= old(out)@ + form_encode(b.take(i + 1)));
        }
        i = i + 1;
    }
    proof {
        assert(b.take(i as int) =~= b);
    }
}

fn hex_digit_value(c: char) -> (r: Option<u8>)
    ensures
        r == hex_value(c),
{
    if '0' <= c && c <= '9' {
        Some((c as u32 - 0x30) as u8)
    } else if 'A' <= c && c <= 'F' {
        Some((c as u32 - 0x37) as u8)
    } else if 'a' <= c && c <= 'f' {
        Some((c as u32 - 0x57) as u8)
    } else {
        None
    }
}

/// Decodes an encoded value into bytes; `None` where `form_decode` is `None`.
pub fn form_decode_bytes(s: &str) -> (r: Option<Vec<u8>>)
    ensures
        r matches Some(v) ==> form_decode(s@) == Some(v@),
        form_decode(s@) is None <==> r is None,
{
    let ghost t = s@;
    let n = s.unicode_len();
    let mut out: Vec<u8> = Vec::new();
    let mut i: usize = 0;
    proof {
        assert(t.skip(0) =~= t);
        match form_decode(t) {
            Some(u) => {
                assert(Seq::<u8>::empty() + u =~= u);
            },
            None => {},
        }
    }
    while i < n
        invariant
            t == s@,
            n == t.len(),
            i <= n,
            form_decode(t) == prepend(out@, form_decode(t.skip(i as int))),
        decreases n - i,
    {
        let ghost rest = t.skip(i as int);
        let c = s.get_char(i);
        assert(rest[0] == c);
        if c == '%' {
            if n - i < 3 {
                return None;
            }
            let h = hex_digit_value(s.get_char(i + 1));
            let l = hex_digit_value(s.get_char(i + 2));
            assert(rest[1] == t[i + 1] && rest[2] == t[i + 2]);
            match (h, l) {
                (Some(h), Some(l)) => {
                    proof {
                        assert(rest.skip(3) =~= t.skip(i + 3));
                    }
                    out.push(h * 16 + l);
                    i = i + 3;
                },
                _ => {
                    return None;
                },
            }
        } else if c == '+' {
            proof {
                assert(rest.skip(1) =~= t.skip(i + 1));
            }
            out.push(0x20);
            i = i + 1;
        } else if (c as u32) < 0x80 {
            proof {
                assert(rest.skip(1) =~= t.skip(i + 1));
            }
            out.push(c as u8);
            i = i + 1;
        } else {
            return None;
        }
        proof {
            let prev = out@.drop_last();
            assert(prev + seq![out@.last()] =~= out@);
            match form_decode(t.skip(i as int)) {
                Some(u) => {
                    assert(prev + (seq![out@.last()] + u) =~= out@ + u);
                },
                None => {},
            }
        }
    }
    proof {
        assert(t.skip(i as int) =~= Seq::<char>::empty());
        assert(out@ + Seq::<u8>::empty() =~= out@);
    }
    Some(out)
}

/// The pieces of `s` between `sep` separators, in order; at least one.
pub open spec fn split_on(s: Seq<char>, sep: char) -> Seq<Seq<char>>
    decreases s.len(),
{
    if s.len() == 0 {
        seq![Seq::empty()]
    } else {
        let p = split_on(s.drop_last(), sep);
        if s.last() == sep {
            p.push(Seq::empty())
        } else {
            p.update(p.len() - 1, p.last().push(s.last()))
        }
    }
}

/// The pieces of a query string between `&` separators.
pub open spec fn split_amp(s: Seq<char>) -> Seq<Seq<char>> {
    split_on(s, '&')
}

proof fn lemma_split_nonempty(s: Seq<char>, sep: char)
    ensures
        split_on(s, sep).len() >= 1,
    decreases s.len(),
{
    if s.len() > 0 {
        lemma_split_nonempty(s.drop_last(), sep);
    }
}

/// Splits a query string at each `&`.
pub fn split_pairs(q: &str) -> (r: Vec<String>)
    ensures
        r@.map_values(|x: String| x@) == split_amp(q@),
{
    split_at_char(q, '&')
}

/// Splits `q` at each `sep`.
pub fn split_at_char(q: &str, sep: char) -> (r: Vec<String>)
    ensures
        r@.map_values(|x: String| x@) == split_on(q@, sep),
{
    let ghost t = q@;
    let n = q.unicode_len();
    let mut done: Vec<String> = Vec::new();
    let mut cur = String::new();
    let mut i: usize = 0;
    proof {
        assert(t.take(0) =~= Seq::<char>::empty());
        assert(done@.map_values(|x: String| x@).push(cur@) =~= seq![Seq::<char>::empty()]);
    }
    while i < n
        invariant
            t == q@,
            n == t.len(),
            i <= n,
            done@.map_values(|x: String| x@).push(cur@) == split_on(t.take(i as int), sep),
        decreases n - i,
    {
        let c = q.get_char(i);
        proof {
            assert(t.take(i + 1).drop_last() =~= t.take(i as int));
            lemma_split_nonempty(t.take(i as int), sep);
        }
        let ghost before = done@.map_values(|x: String| x@);
        if c == sep {
            done.push(cur);
            cur = String::new();
            proof {
                assert(done@.map_values(|x: String| x@) =~= before.push(
                    done@.last()@,
                ));
                assert(done@.map_values(|x: String| x@).push(cur@) =~= split_on(
                    t.take(i + 1),
                    sep,
                ));
            }
        } else {
            push_char(&mut cur, c);
            proof {
                assert(done@.map_values(|x: String| x@).push(cur@) =~= split_on(
                    t.take(i + 1),
                    sep,
                ));
            }
        }
        i = i + 1;
    }
    proof {
        assert(t.take(i as int) =~= t);
    }
    let ghost before = done@.map_values(|x: String| x@);
    done.push(cur);
    proof {
        assert(done@.map_values(|x: String| x@) =~= before.push(cur@));
    }
    done
}

/// Position of the first `=` at or after `i`, or the length if there is none.
pub open spec fn eq_pos_from(s: Seq<char>, i: nat) -> nat
    decreases s.len() - i,
{
    if i >= s.len() {
        s.len()
    } else if s[i as int] == '=' {
        i
    } else {
        eq_pos_from(s, i + 1)
    }
}

/// The key of a `key=value` pair: all before the first `=`.
pub open spec fn pair_key(s: Seq<char>) -> Seq<char> {
    s.take(eq_pos_from(s, 0) as int)
}

/// The value of a `key=value` pair: all after the first `=`; empty if none.
pub open spec fn pair_value(s: Seq<char>) -> Seq<char> {
    if eq_pos_from(s, 0) < s.len() {
        s.skip(eq_pos_from(s, 0) as int + 1)
    } else {
        Seq::empty()
    }
}

/// The still encoded value of the first pair in `pairs` from `i` on whose
/// key is `key`.
pub open spec fn lookup_from(pairs: Seq<Seq<char>>, key: Seq<char>, i: nat) -> Option<
    Seq<char>,
>
    decreases pairs.len() - i,
{
    if i >= pairs.len() {
        None
    } else if pair_key(pairs[i as int]) == key {
        Some(pair_value(pairs[i as int]))
    } else {
        lookup_from(pairs, key, i + 1)
    }
}

/// The still encoded value of the first pair of query string `q` with key `key`.
pub open spec fn query_field(q: Seq<char>, key: Seq<char>) -> Option<Seq<char>> {
    lookup_from(split_amp(q), key, 0)
}

proof fn lemma_eq_pos_bound(s: Seq<char>, i: nat)
    requires
        i <= s.len(),
    ensures
        i <= eq_pos_from(s, i) <= s.len(),
        eq_pos_from(s, i) < s.len() ==> s[eq_pos_from(s, i) as int] == '=',
    decreases s.len() - i,
{
    if i < s.len() && s[i as int] != '=' {
        lemma_eq_pos_bound(s, i + 1);
    }
}

/// Splits one `key=value` pair at its first `=`.
fn split_pair(s: &str) -> (r: (&str, &str))
    ensures
        r.0@ == pair_key(s@),
        r.1@ == pair_value(s@),
{
    let n = s.unicode_len();
    let mut p: usize = 0;
    while p < n && s.get_char(p) != '='
        invariant
            n == s@.len(),
            p <= n,
            eq_pos_from(s@, p as nat) == eq_pos_from(s@, 0),
        decreases n - p,
    {
        p = p + 1;
    }
    proof {
        lemma_eq_pos_bound(s@, 0);
    }
    if p < n {
        (s.substring_char(0, p), s.substring_char(p + 1, n))
    } else {
        (s.substring_char(0, p), s.substring_char(n, n))
    }
}

/// The still encoded value of the first pair whose key is `key`.
pub fn find_field(pairs: &Vec<String>, key: &str) -> (r: Option<String>)
    ensures
        r matches Some(v) ==> lookup_from(pairs@.map_values(|x: String| x@), key@, 0) == Some(
            v@,
        ),
        r is None <==> lookup_from(pairs@.map_values(|x: String| x@), key@, 0) is None,
{
    let ghost ps = pairs@.map_values(|x: String| x@);
    let mut i: usize = 0;
    while i < pairs.len()
        invariant
            ps == pairs@.map_values(|x: String| x@),
            i <= pairs@.len(),
            lookup_from(ps, key@, i as nat) == lookup_from(ps, key@, 0),
        decreases pairs@.len() - i,
    {
        let (k, v) = split_pair(pairs[i].as_str());
        if crate::text::str_eq(k, key) {
            return Some(v.to_owned());
        }
        i = i + 1;
    }
    None
}

/// The largest integer that the protocol's number type holds, `2^53 - 1`.
pub const MAX_SAFE_UINT: u64 = 0x001F_FFFF_FFFF_FFFF;

/// Relies on `js_int::UInt::new`: `Some` exactly when the value is at most
/// `js_int::MAX_SAFE_UINT`, which equals `MAX_SAFE_UINT`.
#[verifier::external_body]
fn fits_js_uint(v: u64) -> (r: bool)
    ensures
        r == (v <= MAX_SAFE_UINT),
{
    js_int::UInt::new(v).is_some()
}

/// Relies on `String::from_utf8`: succeeds exactly on valid UTF-8, and then
/// the string's UTF-8 encoding is the input.
#[verifier::external_body]
fn string_from_utf8(v: Vec<u8>) -> (r: Option<String>)
    ensures
        r is Some <==> valid_utf8(v@),
        r matches Some(s) ==> encode_utf8(s@) == v@,
{
    String::from_utf8(v).ok()
}

/// Decodes an encoded value into text; `None` on a bad escape, a character
/// outside ASCII, or bytes that are not UTF-8.
pub fn decode_value(s: &str) -> (r: Option<String>)
    ensures
        r is Some <==> value_ok(s@),
        r matches Some(x) ==> x@ == value_text(s@),
{
    match form_decode_bytes(s) {
        Some(b) => {
            let r = string_from_utf8(b);
            proof {
                if r is Some {
                    encode_utf8_decode_utf8(r->0@);
                }
            }
            r
        },
        None => None,
    }
}

/// An encoded value that decodes to UTF-8 text.
pub open spec fn value_ok(raw: Seq<char>) -> bool {
    form_decode(raw) is Some && valid_utf8(form_decode(raw)->0)
}

/// The text an encoded value stands for.
pub open spec fn value_text(raw: Seq<char>) -> Seq<char> {
    decode_utf8(form_decode(raw)->0)
}

/// The decimal digits of `n`, without leading zeros.
pub open spec fn decimal(n: nat) -> Seq<char>
    decreases n,
{
    if n < 10 {
        seq![(0x30 + n) as char]
    } else {
        decimal(n / 10).push((0x30 + n % 10) as char)
    }
}

/// Appends the decimal digits of `n`.
pub fn push_decimal(out: &mut String, n: u64)
    ensures
        final(out)@ == old(out)@ + decimal(n as nat),
    decreases n,
{
    if n >= 10 {
        push_decimal(out, n / 10);
    }
    let d: u8 = (n % 10) as u8;
    push_char(out, (0x30 + d) as char);
    proof {
        if n >= 10 {
            assert(old(out)@ + decimal(n as nat) =~= old(out)@ + decimal((n / 10) as nat) + seq![
                (0x30 + n % 10) as char,
            ]);
        }
    }
}

pub open spec fn is_digit(c: char) -> bool {
    '0' <= c && c <= '9'
}

/// The number that a string of decimal digits writes.
pub open spec fn digits_value(s: Seq<char>) -> nat
    decreases s.len(),
{
    if s.len() == 0 {
        0
    } else {
        10 * digits_value(s.drop_last()) + (s.last() as nat - 0x30) as nat
    }
}

/// `s` is a non-empty string of decimal digits whose number fits the
/// protocol's number type.
pub open spec fn is_uint_text(s: Seq<char>) -> bool {
    &&& s.len() > 0
    &&& forall|i: int| 0 <= i < s.len() ==> is_digit(#[trigger] s[i])
    &&& digits_value(s) <= MAX_SAFE_UINT
}

proof fn lemma_digits_mono(s: Seq<char>, i: int)
    requires
        0 <= i <= s.len(),
        forall|j: int| 0 <= j < s.len() ==> is_digit(#[trigger] s[j]),
    ensures
        digits_value(s.take(i)) <= digits_value(s),
    decreases s.len() - i,
{
    if i < s.len() {
        lemma_digits_mono(s, i + 1);
        assert(s.take(i + 1).drop_last() =~= s.take(i));
        assert(is_digit(s[i]));
    } else {
        assert(s.take(i) =~= s);
    }
}

/// Reads a number of the protocol's number type written in decimal.
pub fn parse_uint(s: &str) -> (r: Option<u64>)
    ensures
        r matches Some(v) ==> v == digits_value(s@),
        r is Some <==> is_uint_text(s@),
{
    let ghost t = s@;
    let n = s.unicode_len();
    if n == 0 {
        return None;
    }
    let mut v: u64 = 0;
    let mut i: usize = 0;
    proof {
        assert(t.take(0) =~= Seq::<char>::empty());
    }
    while i < n
        invariant
            t == s@,
            n == t.len(),
            i <= n,
            v <= MAX_SAFE_UINT,
            v == digits_value(t.take(i as int)),
            forall|j: int| 0 <= j < i ==> is_digit(#[trigger] t[j]),
        decreases n - i,
    {
        let c = s.get_char(i);
        if !('0' <= c && c <= '9') {
            return None;
        }
        let next = v * 10 + (c as u32 - 0x30) as u64;
        proof {
            assert(t.take(i + 1).drop_last() =~= t.take(i as int));
        }
        if !fits_js_uint(next) {
            proof {
                if is_uint_text(t) {
                    lemma_digits_mono(t, i + 1);
                }
            }
            return None;
        }
        v = next;
        i = i + 1;
    }
    proof {
        assert(t.take(i as int) =~= t);
    }
    Some(v)
}

/// `s` holds no `c`.
pub open spec fn no_char(s: Seq<char>, c: char) -> bool {
    forall|i: int| 0 <= i < s.len() ==> #[trigger] s[i] != c
}

/// `s` holds no `&`.
pub open spec fn no_amp(s: Seq<char>) -> bool {
    no_char(s, '&')
}

/// Splitting text joined by `sep` gives the pieces of each side.
pub proof fn lemma_split_concat(x: Seq<char>, y: Seq<char>, sep: char)
    ensures
        split_on(x + seq![sep] + y, sep) == split_on(x, sep) + split_on(y, sep),
    decreases y.len(),
{
    let z = x + seq![sep] + y;
    if y.len() == 0 {
        assert(z.drop_last() =~= x);
        assert(split_on(x, sep).push(Seq::empty()) =~= split_on(x, sep) + split_on(y, sep));
    } else {
        lemma_split_concat(x, y.drop_last(), sep);
        lemma_split_nonempty(y.drop_last(), sep);
        assert(z.drop_last() =~= x + seq![sep] + y.drop_last());
        let p = split_on(x + seq![sep] + y.drop_last(), sep);
        let q = split_on(y.drop_last(), sep);
        if y.last() == sep {
            assert(p.push(Seq::empty()) =~= split_on(x, sep) + q.push(Seq::empty()));
        } else {
            assert(p.update(p.len() - 1, p.last().push(y.last())) =~= split_on(x, sep) + q.update(
                q.len() - 1,
                q.last().push(y.last()),
            ));
        }
    }
}

/// Text without `sep` is one piece.
pub proof fn lemma_split_single(x: Seq<char>, sep: char)
    requires
        no_char(x, sep),
    ensures
        split_on(x, sep) == seq![x],
    decreases x.len(),
{
    if x.len() == 0 {
        assert(x =~= Seq::<char>::empty());
    } else {
        let y = x.drop_last();
        assert(no_char(y, sep)) by {
            assert forall|i: int| 0 <= i < y.len() implies y[i] != sep by {
                assert(y[i] == x[i]);
            }
        }
        lemma_split_single(y, sep);
        assert(x.last() == x[x.len() - 1]);
        assert(y.push(x.last()) =~= x);
        assert(x.last() != sep);
        assert(split_on(y, sep).last() == y);
        assert(seq![y].update(0, y.push(x.last())) =~= seq![x]);
    }
}

proof fn lemma_eq_pos_at(s: Seq<char>, i: nat, k: nat)
    requires
        i <= k < s.len(),
        s[k as int] == '=',
        forall|j: int| i <= j < k ==> s[j] != '=',
    ensures
        eq_pos_from(s, i) == k,
    decreases k - i,
{
    if i < k {
        lemma_eq_pos_at(s, i + 1, k);
    }
}

/// `key=value` with no `=` in the key splits back into key and value.
pub proof fn lemma_pair(key: Seq<char>, value: Seq<char>)
    requires
        forall|i: int| 0 <= i < key.len() ==> #[trigger] key[i] != '=',
    ensures
        pair_key(key + seq!['='] + value) == key,
        pair_value(key + seq!['='] + value) == value,
{
    let s = key + seq!['='] + value;
    assert forall|j: int| 0 <= j < key.len() implies s[j] != '=' by {
        assert(s[j] == key[j]);
    }
    lemma_eq_pos_at(s, 0, key.len());
    assert(s.take(key.len() as int) =~= key);
    assert(s.skip(key.len() as int + 1) =~= value);
}

/// The digits of a number are digits, at least one, and write that number.
pub proof fn lemma_decimal(n: nat)
    ensures
        decimal(n).len() > 0,
        forall|i: int| 0 <= i < decimal(n).len() ==> is_digit(#[trigger] decimal(n)[i]),
        digits_value(decimal(n)) == n,
    decreases n,
{
    let c = (0x30 + n % 10) as char;
    assert((c as nat) == 0x30 + n % 10);
    if n < 10 {
        assert(decimal(n).drop_last() =~= Seq::<char>::empty());
        assert(decimal(n).last() == c);
        assert(digits_value(decimal(n)) == 10 * digits_value(decimal(n).drop_last()) + (
        decimal(n).last() as nat - 0x30) as nat);
        assert(digits_value(Seq::<char>::empty()) == 0);
    } else {
        lemma_decimal(n / 10);
        let d = decimal(n / 10);
        assert(decimal(n).drop_last() =~= d);
        assert(decimal(n).last() == c);
        assert(10 * (n / 10) + n % 10 == n);
        assert(digits_value(decimal(n)) == 10 * digits_value(decimal(n).drop_last()) + (
        decimal(n).last() as nat - 0x30) as nat);
        assert forall|i: int| 0 <= i < decimal(n).len() implies is_digit(#[trigger] decimal(n)[i]) by {
            if i < d.len() {
                assert(decimal(n)[i] == d[i]);
            }
        }
    }
}

/// Encoding a concatenation encodes each part.
pub proof fn lemma_form_encode_concat(a: Seq<u8>, b: Seq<u8>)
    ensures
        form_encode(a + b) == form_encode(a) + form_encode(b),
    decreases b.len(),
{
    if b.len() == 0 {
        assert(a + b =~= a);
        assert(form_encode(a) + form_encode(b) =~= form_encode(a));
    } else {
        lemma_form_encode_concat(a, b.drop_last());
        assert((a + b).drop_last() =~= a + b.drop_last());
        assert((a + b).last() == b.last());
        assert(form_encode(a) + form_encode(b) =~= form_encode(a) + form_encode(b.drop_last())
            + encode_byte(b.last()));
    }
}

proof fn lemma_hex(n: u8)
    requires
        n < 16,
    ensures
        hex_value(hex_char(n)) == Some(n),
        hex_char(n) != '&',
{
    if n < 10 {
        assert(((0x30 + n) as char) as u32 == 0x30 + n);
    } else {
        assert(((0x37 + n) as char) as u32 == 0x37 + n);
    }
}

proof fn lemma_encode_byte(x: u8, s: Seq<char>)
    ensures
        form_decode(encode_byte(x) + s) == prepend(seq![x], form_decode(s)),
        no_amp(encode_byte(x)),
{
    let e = encode_byte(x);
    let t = e + s;
    if is_unreserved(x) {
        let c = x as char;
        assert((c as u32) == x as u32);
        assert(t[0] == c);
        assert(t.skip(1) =~= s);
    } else if x == 0x20 {
        assert(t[0] == '+');
        assert(t.skip(1) =~= s);
    } else {
        lemma_hex(x / 16);
        lemma_hex(x % 16);
        assert(t[0] == '%' && t[1] == hex_char(x / 16) && t[2] == hex_char(x % 16));
        assert(t.skip(3) =~= s);
        assert((x / 16) * 16 + x % 16 == x);
    }
}

/// The encoding of bytes holds no `&`.
pub proof fn lemma_form_encode_no_amp(b: Seq<u8>)
    ensures
        no_amp(form_encode(b)),
    decreases b.len(),
{
    if b.len() > 0 {
        lemma_form_encode_no_amp(b.drop_last());
        lemma_encode_byte(b.last(), Seq::empty());
        let p = form_encode(b.drop_last());
        let e = encode_byte(b.last());
        assert forall|i: int| 0 <= i < form_encode(b).len() implies #[trigger] form_encode(b)[i]
            != '&' by {
            if i < p.len() {
                assert(form_encode(b)[i] == p[i]);
            } else {
                assert(form_encode(b)[i] == e[i - p.len()]);
            }
        }
    }
}

/// Decoding the encoding of bytes, followed by more text, gives those bytes
/// followed by the decoding of the rest.
pub proof fn lemma_decode_encode(b: Seq<u8>, s: Seq<char>)
    ensures
        form_decode(form_encode(b) + s) == prepend(b, form_decode(s)),
    decreases b.len(),
{
    if b.len() == 0 {
        assert(form_encode(b) + s =~= s);
        match form_decode(s) {
            Some(u) => {
                assert(b + u =~= u);
            },
            None => {},
        }
    } else {
        let rest = b.drop_first();
        lemma_form_encode_concat(seq![b[0]], rest);
        assert(seq![b[0]] + rest =~= b);
        assert(seq![b[0]].drop_last() =~= Seq::<u8>::empty());
        assert(seq![b[0]].last() == b[0]);
        assert(form_encode(Seq::<u8>::empty()) == Seq::<char>::empty());
        assert(Seq::<char>::empty() + encode_byte(b[0]) =~= encode_byte(b[0]));
        assert(form_encode(seq![b[0]]) =~= encode_byte(b[0]));
        lemma_decode_encode(rest, s);
        assert(form_encode(b) + s =~= encode_byte(b[0]) + (form_encode(rest) + s));
        lemma_encode_byte(b[0], form_encode(rest) + s);
        match form_decode(s) {
            Some(u) => {
                assert(seq![b[0]] + (rest + u) =~= b + u);
            },
            None => {},
        }
    }
}

/// Letters and digits that stand for themselves in a query.
pub open spec fn is_plain(c: char) -> bool {
    ('0' <= c && c <= '9') || ('a' <= c && c <= 'z')
}

/// Text of plain characters is its own encoding: it decodes to its UTF-8
/// bytes, and reads back as itself.
pub proof fn lemma_decode_plain(s: Seq<char>)
    requires
        forall|i: int| 0 <= i < s.len() ==> is_plain(#[trigger] s[i]),
    ensures
        form_decode(s) == Some(encode_utf8(s)),
        value_ok(s),
        value_text(s) == s,
    decreases s.len(),
{
    broadcast use encode_utf8_valid_utf8, encode_utf8_decode_utf8;

    if s.len() > 0 {
        let r = s.skip(1);
        assert forall|i: int| 0 <= i < r.len() implies is_plain(#[trigger] r[i]) by {
            assert(r[i] == s[i + 1]);
        }
        lemma_decode_plain(r);
        assert(is_plain(s[0]));
        assert(is_ascii_chars(s)) by {
            assert forall|i: int| 0 <= i < s.len() implies '\0' <= #[trigger] s[i] <= '\u{7f}' by {
                assert(is_plain(s[i]));
            }
        }
        assert(is_ascii_chars(r));
        is_ascii_chars_encode_utf8(s);
        is_ascii_chars_encode_utf8(r);
        assert(r =~= s.drop_first());
        assert(encode_utf8(s) =~= seq![s[0] as u8] + encode_utf8(r));
    } else {
        assert(encode_utf8(s) =~= Seq::<u8>::empty());
    }
}

} // verus!
