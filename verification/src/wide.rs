//! UTF-16 text codec for the fixed-width buffers of the shared struct.
//!
//! Text is carried in the segment as zero-terminated UTF-16 code units.
//! `copy` encodes into a fixed buffer, truncating silently and always
//! leaving a terminator; `read` scans to the first terminator and decodes
//! lossily, mapping unpaired surrogates to the replacement character.

use vstd::prelude::*;
use vstd::string::*;

verus! {

/// The UTF-16 code units that encode one character.
pub open spec fn utf16_units_of(c: char) -> Seq<u16> {
    let v = c as u32;
    if v < 0x10000 {
        seq![v as u16]
    } else {
        seq![
            (0xD800 + (v - 0x10000) / 0x400) as u16,
            (0xDC00 + (v - 0x10000) % 0x400) as u16,
        ]
    }
}

/// The UTF-16 encoding of a character sequence.
pub open spec fn utf16_of(s: Seq<char>) -> Seq<u16>
    decreases s.len(),
{
    if s.len() == 0 {
        Seq::empty()
    } else {
        utf16_units_of(s[0]) + utf16_of(s.drop_first())
    }
}

pub open spec fn is_high_surrogate(u: u16) -> bool {
    0xD800 <= u < 0xDC00
}

pub open spec fn is_low_surrogate(u: u16) -> bool {
    0xDC00 <= u < 0xE000
}

/// The Unicode scalar value encoded by a surrogate pair.
pub open spec fn combined_scalar(hi: u16, lo: u16) -> u32 {
    (0x10000 + (hi - 0xD800) * 0x400 + (lo - 0xDC00)) as u32
}

/// Lossy UTF-16 decoding: well-formed surrogate pairs combine, unpaired
/// surrogates become the replacement character.
pub open spec fn decode_utf16(s: Seq<u16>) -> Seq<char>
    decreases s.len(),
{
    if s.len() == 0 {
        Seq::empty()
    } else if is_high_surrogate(s[0]) && s.len() >= 2 && is_low_surrogate(s[1]) {
        seq![combined_scalar(s[0], s[1]) as char] + decode_utf16(s.skip(2))
    } else if is_high_surrogate(s[0]) || is_low_surrogate(s[0]) {
        seq!['\u{FFFD}'] + decode_utf16(s.drop_first())
    } else {
        seq![(s[0] as u32) as char] + decode_utf16(s.drop_first())
    }
}

/// Index of the first zero unit, or the length if none occurs.
pub open spec fn first_zero(s: Seq<u16>) -> int
    decreases s.len(),
{
    if s.len() == 0 {
        0
    } else if s[0] == 0 {
        0
    } else {
        1 + first_zero(s.drop_first())
    }
}

/// The units before the first zero terminator.
pub open spec fn zero_prefix(s: Seq<u16>) -> Seq<u16> {
    s.take(first_zero(s))
}

/// How many units `copy` writes before the terminator into a buffer of
/// `cap > 0` units: the whole encoding, or `cap - 1` when it is longer.
pub open spec fn copied_len(s: Seq<char>, cap: int) -> int {
    if utf16_of(s).len() <= cap - 1 {
        utf16_of(s).len() as int
    } else {
        cap - 1
    }
}

/// A fixed buffer of `cap` units holding the encoding of `s`: the copied
/// units, a terminator, and zeroes for the rest.
pub open spec fn encoded_buffer(s: Seq<char>, cap: int) -> Seq<u16> {
    utf16_of(s).take(copied_len(s, cap)) + Seq::new((cap - copied_len(s, cap)) as nat, |i: int| 0u16)
}

proof fn lemma_utf16_of_push(a: Seq<char>, x: char)
    ensures
        utf16_of(a.push(x)) == utf16_of(a) + utf16_units_of(x),
    decreases a.len(),
{
    if a.len() == 0 {
        assert(a.push(x)[0] == x);
        assert(a.push(x).drop_first() =~= Seq::<char>::empty());
        assert(utf16_of(a.push(x)) == utf16_units_of(x) + utf16_of(Seq::<char>::empty()));
        assert(utf16_units_of(x) + Seq::<u16>::empty() =~= utf16_units_of(x));
        assert(utf16_of(a) + utf16_units_of(x) =~= utf16_units_of(x));
    } else {
        assert(a.push(x)[0] == a[0]);
        assert(a.push(x).drop_first() =~= a.drop_first().push(x));
        lemma_utf16_of_push(a.drop_first(), x);
        assert(utf16_of(a.push(x)) == utf16_units_of(a[0]) + (utf16_of(a.drop_first())
            + utf16_units_of(x)));
        assert(utf16_units_of(a[0]) + (utf16_of(a.drop_first()) + utf16_units_of(x)) =~= (
        utf16_units_of(a[0]) + utf16_of(a.drop_first())) + utf16_units_of(x));
    }
}

proof fn lemma_utf16_of_take_succ(s: Seq<char>, i: int)
    requires
        0 <= i < s.len(),
    ensures
        utf16_of(s.take(i + 1)) == utf16_of(s.take(i)) + utf16_units_of(s[i]),
{
    assert(s.take(i + 1) =~= s.take(i).push(s[i]));
    lemma_utf16_of_push(s.take(i), s[i]);
}

/// The full UTF-16 encoding of a string, one unit per vector element.
pub fn utf16_units(s: &str) -> (units: Vec<u16>)
    ensures
        units@ == utf16_of(s@),
{
    let n = s.unicode_len();
    let mut units: Vec<u16> = Vec::new();
    let mut i: usize = 0;
    while i < n
        invariant
            n == s@.len(),
            i <= n,
            units@ == utf16_of(s@.take(i as int)),
        decreases n - i,
    {
        let c = s.get_char(i);
        proof {
            vstd::utf8::char_is_scalar(c);
            lemma_utf16_of_take_succ(s@, i as int);
        }
        let v = c as u32;
        if v < 0x10000 {
            units.push(v as u16);
        } else {
            units.push((0xD800 + (v - 0x10000) / 0x400) as u16);
            units.push((0xDC00 + (v - 0x10000) % 0x400) as u16);
        }
        i = i + 1;
        proof {
            assert(units@ =~= utf16_of(s@.take(i as int)));
        }
    }
    proof {
        assert(s@.take(n as int) =~= s@);
    }
    units
}

/// Encode `src` into the fixed buffer `dest`: up to `dest.len() - 1` code
/// units, then one zero terminator. Truncation is silent; units past the
/// terminator keep their old values. An empty buffer is left untouched.
pub fn copy(dest: &mut Vec<u16>, src: &str)
    ensures
        final(dest).len() == old(dest).len(),
        old(dest).len() == 0 ==> final(dest)@ == old(dest)@,
        old(dest).len() > 0 ==> final(dest)@ == utf16_of(src@).take(copied_len(src@, old(dest).len() as int))
            + seq![0u16] + old(dest)@.skip(copied_len(src@, old(dest).len() as int) + 1),
{
    if dest.len() == 0 {
        return ;
    }
    let units = utf16_units(src);
    let n: usize = if units.len() <= dest.len() - 1 {
        units.len()
    } else {
        dest.len() - 1
    };
    assert(n == copied_len(src@, old(dest).len() as int));
    let mut i: usize = 0;
    while i < n
        invariant
            i <= n,
            n < dest.len(),
            dest.len() == old(dest).len(),
            units@ == utf16_of(src@),
            n == copied_len(src@, old(dest).len() as int),
            dest@ == units@.take(i as int) + old(dest)@.skip(i as int),
        decreases n - i,
    {
        dest[i] = units[i];
        i = i + 1;
        proof {
            assert(dest@ =~= units@.take(i as int) + old(dest)@.skip(i as int));
        }
    }
    dest[n] = 0;
    proof {
        assert(dest@ =~= units@.take(n as int) + seq![0u16] + old(dest)@.skip(n as int + 1));
    }
}

/// Relies on char::from_u32: `Some` exactly for Unicode scalar values,
/// returning the character with that value.
pub assume_specification[ char::from_u32 ](v: u32) -> (r: Option<char>)
    ensures
        r is Some <==> vstd::utf8::is_scalar(v),
        r matches Some(c) ==> c as u32 == v,
;

/// Relies on String::push: appends one character at the end.
pub assume_specification[ String::push ](s: &mut String, c: char)
    ensures
        final(s)@ == old(s)@.push(c),
;

proof fn lemma_first_zero_at(s: Seq<u16>, i: int)
    requires
        0 <= i <= s.len(),
        forall|j: int| 0 <= j < i ==> s[j] != 0,
        i < s.len() ==> s[i] == 0,
    ensures
        first_zero(s) == i,
    decreases s.len(),
{
    if s.len() == 0 {
    } else if s[0] == 0 {
        assert(i == 0);
    } else {
        assert(forall|j: int| 0 <= j < i - 1 ==> s.drop_first()[j] == s[j + 1] && s[j + 1] != 0);
        lemma_first_zero_at(s.drop_first(), i - 1);
    }
}

/// Decode the zero-terminated UTF-16 buffer into a string: units before
/// the first zero (or the whole buffer if none) are decoded lossily.
pub fn read(src: &[u16]) -> (r: String)
    ensures
        r@ == decode_utf16(zero_prefix(src@)),
{
    let mut z: usize = 0;
    while z < src.len() && src[z] != 0
        invariant
            z <= src@.len(),
            forall|j: int| 0 <= j < z ==> src@[j] != 0,
        decreases src@.len() - z,
    {
        z = z + 1;
    }
    proof {
        lemma_first_zero_at(src@, z as int);
    }
    let ghost t = src@.take(z as int);
    let mut out = String::new();
    let mut i: usize = 0;
    proof {
        assert(t.skip(0) =~= t);
        assert(Seq::<char>::empty() + decode_utf16(t) =~= decode_utf16(t));
    }
    while i < z
        invariant
            i <= z,
            z <= src@.len(),
            t == src@.take(z as int),
            decode_utf16(t) == out@ + decode_utf16(t.skip(i as int)),
        decreases z - i,
    {
        let ghost rest = t.skip(i as int);
        proof {
            assert(rest[0] == t[i as int]);
            assert(t[i as int] == src@[i as int]);
        }
        let u = src[i];
        if 0xD800 <= u && u < 0xDC00 && i + 1 < z && 0xDC00 <= src[i + 1] && src[i + 1] < 0xE000 {
            let lo = src[i + 1];
            proof {
                assert(rest[1] == t[i + 1]);
                assert(rest.len() >= 2);
            }
            let v: u32 = 0x10000 + (u as u32 - 0xD800) * 0x400 + (lo as u32 - 0xDC00);
            assert(v == combined_scalar(u, lo));
            assert(vstd::utf8::is_scalar(v));
            match char::from_u32(v) {
                Some(c) => {
                    proof {
                        vstd::utf8::char_u32_cast(c, v);
                    }
                    out.push(c);
                },
                None => {
                    proof {
                        assert(false);
                    }
                },
            }
            i = i + 2;
            proof {
                assert(rest.skip(2) =~= t.skip(i as int));
            }
        } else if 0xD800 <= u && u < 0xE000 {
            out.push('\u{FFFD}');
            i = i + 1;
            proof {
                assert(rest.drop_first() =~= t.skip(i as int));
                assert(!(is_high_surrogate(rest[0]) && rest.len() >= 2 && is_low_surrogate(
                    rest[1],
                )));
            }
        } else {
            assert(vstd::utf8::is_scalar(u as u32));
            match char::from_u32(u as u32) {
                Some(c) => {
                    proof {
                        vstd::utf8::char_u32_cast(c, u as u32);
                    }
                    out.push(c);
                },
                None => {
                    proof {
                        assert(false);
                    }
                },
            }
            i = i + 1;
            proof {
                assert(rest.drop_first() =~= t.skip(i as int));
            }
        }
    }
    proof {
        assert(t.skip(z as int) =~= Seq::<u16>::empty());
        assert(out@ + Seq::<char>::empty() =~= out@);
    }
    out
}

proof fn lemma_utf16_of_append(a: Seq<char>, b: Seq<char>)
    ensures
        utf16_of(a + b) == utf16_of(a) + utf16_of(b),
    decreases a.len(),
{
    if a.len() == 0 {
        assert(a + b =~= b);
        assert(utf16_of(a) + utf16_of(b) =~= utf16_of(b));
    } else {
        assert((a + b)[0] == a[0]);
        assert((a + b).drop_first() =~= a.drop_first() + b);
        lemma_utf16_of_append(a.drop_first(), b);
        assert(utf16_of(a + b) == utf16_units_of(a[0]) + (utf16_of(a.drop_first()) + utf16_of(
            b,
        )));
        assert(utf16_units_of(a[0]) + (utf16_of(a.drop_first()) + utf16_of(b)) =~= (
        utf16_units_of(a[0]) + utf16_of(a.drop_first())) + utf16_of(b));
    }
}

/// Law: decoding the UTF-16 encoding of any text returns that text.
pub proof fn lemma_round_trip(s: Seq<char>)
    ensures
        decode_utf16(utf16_of(s)) == s,
    decreases s.len(),
{
    if s.len() == 0 {
    } else {
        let c = s[0];
        vstd::utf8::char_is_scalar(c);
        let v = c as u32;
        let u = utf16_of(s);
        lemma_round_trip(s.drop_first());
        if v < 0x10000 {
            assert(u[0] == (v as u16));
            assert(!is_high_surrogate(u[0]) && !is_low_surrogate(u[0]));
            assert(u.drop_first() =~= utf16_of(s.drop_first()));
            assert((u[0] as u32) == v);
            vstd::utf8::char_u32_cast(c, v);
            assert(decode_utf16(u) == seq![c] + decode_utf16(utf16_of(s.drop_first())));
            assert(seq![c] + s.drop_first() =~= s);
        } else {
            let d = (v - 0x10000) as u32;
            vstd::arithmetic::div_mod::lemma_fundamental_div_mod(d as int, 0x400);
            vstd::arithmetic::div_mod::lemma_mod_bound(d as int, 0x400);
            vstd::arithmetic::div_mod::lemma_div_pos_is_pos(d as int, 0x400);
            assert(d < 0x100000);
            assert(d / 0x400 < 0x400) by (nonlinear_arith)
                requires
                    d < 0x100000,
            ;
            let hi = u[0];
            let lo = u[1];
            assert(hi == (0xD800 + d / 0x400) as u16);
            assert(lo == (0xDC00 + d % 0x400) as u16);
            assert(is_high_surrogate(hi));
            assert(is_low_surrogate(lo));
            assert(u.len() >= 2);
            assert(combined_scalar(hi, lo) == v);
            vstd::utf8::char_u32_cast(c, v);
            assert(u.skip(2) =~= utf16_of(s.drop_first()));
            assert(decode_utf16(u) == seq![c] + decode_utf16(utf16_of(s.drop_first())));
            assert(seq![c] + s.drop_first() =~= s);
        }
    }
}

proof fn lemma_utf16_no_zero(s: Seq<char>)
    requires
        forall|i: int| 0 <= i < s.len() ==> s[i] != '\u{0}',
    ensures
        forall|k: int| 0 <= k < utf16_of(s).len() ==> utf16_of(s)[k] != 0,
    decreases s.len(),
{
    if s.len() == 0 {
    } else {
        let c = s[0];
        vstd::utf8::char_is_scalar(c);
        let v = c as u32;
        assert(c != '\u{0}');
        if v == 0 {
            vstd::utf8::char_u32_cast(c, v);
            assert('\u{0}' as u32 == 0);
            vstd::utf8::char_u32_cast('\u{0}', 0);
            assert(false);
        }
        lemma_utf16_no_zero(s.drop_first());
        assert forall|k: int| 0 <= k < utf16_of(s).len() implies utf16_of(s)[k] != 0 by {
            let n = utf16_units_of(c).len();
            if k < n {
                assert(utf16_of(s)[k] == utf16_units_of(c)[k]);
            } else {
                assert(utf16_of(s)[k] == utf16_of(s.drop_first())[k - n]);
            }
        }
    }
}

/// Law: a truncation that falls on a character boundary keeps exactly the
/// encoding of the text's prefix.
pub proof fn lemma_truncation_boundary(s: Seq<char>, cap: int, j: int)
    requires
        cap > 0,
        utf16_of(s).len() > cap - 1,
        0 <= j <= s.len(),
        utf16_of(s.take(j)).len() == cap - 1,
    ensures
        utf16_of(s).take(copied_len(s, cap)) == utf16_of(s.take(j)),
{
    assert(s.take(j) + s.skip(j) =~= s);
    lemma_utf16_of_append(s.take(j), s.skip(j));
    assert(utf16_of(s).take(cap - 1) =~= utf16_of(s.take(j)));
}

/// Law: reading back a buffer that holds the encoding of a text followed
/// by a terminator yields that text, provided the text has no NUL
/// character. Together with `copy`'s contract and
/// `lemma_truncation_boundary` this gives the encode-decode round trip,
/// exact for texts that fit and cut to `j` characters where truncation
/// struck a character boundary.
pub proof fn lemma_read_back(s: Seq<char>, tail: Seq<u16>, j: int)
    requires
        0 <= j <= s.len(),
        forall|i: int| 0 <= i < j ==> s[i] != '\u{0}',
    ensures
        decode_utf16(zero_prefix(utf16_of(s.take(j)) + seq![0u16] + tail)) == s.take(j),
{
    let u = utf16_of(s.take(j));
    let buf = u + seq![0u16] + tail;
    assert(forall|i: int| 0 <= i < j ==> s.take(j)[i] == s[i]);
    lemma_utf16_no_zero(s.take(j));
    assert(forall|k: int| 0 <= k < u.len() ==> buf[k] == u[k] && buf[k] != 0);
    assert(buf[u.len() as int] == 0);
    lemma_first_zero_at(buf, u.len() as int);
    assert(zero_prefix(buf) =~= u);
    lemma_round_trip(s.take(j));
}

/// Law: encode then decode over a buffer of `cap` units. The buffer
/// shape is exactly what `copy` leaves behind: the copied units, one
/// terminator, and whatever tail the buffer had. Whenever the copied
/// units are the encoding of the text's first `j` characters — all of the
/// text when it fits, or a truncation that fell on a character boundary —
/// and those characters hold no NUL, `read` yields that prefix exactly.
pub proof fn lemma_copy_read_round_trip(s: Seq<char>, rest: Seq<u16>, cap: int, j: int)
    requires
        cap > 0,
        0 <= j <= s.len(),
        utf16_of(s.take(j)).len() == copied_len(s, cap),
        forall|i: int| 0 <= i < j ==> s[i] != '\u{0}',
    ensures
        decode_utf16(
            zero_prefix(utf16_of(s).take(copied_len(s, cap)) + seq![0u16] + rest),
        ) == s.take(j),
{
    assert(s.take(j) + s.skip(j) =~= s);
    lemma_utf16_of_append(s.take(j), s.skip(j));
    assert(utf16_of(s).take(copied_len(s, cap)) =~= utf16_of(s.take(j)));
    lemma_read_back(s, rest, j);
}

/// Law: a fixed buffer freshly encoded from a text that fits it reads
/// back as exactly that text, provided the text has no NUL character.
pub proof fn lemma_encoded_buffer_read_back(s: Seq<char>, cap: int)
    requires
        cap > 0,
        utf16_of(s).len() <= cap - 1,
        forall|i: int| 0 <= i < s.len() ==> s[i] != '\u{0}',
    ensures
        decode_utf16(zero_prefix(encoded_buffer(s, cap))) == s,
{
    let n = copied_len(s, cap);
    assert(n == utf16_of(s).len());
    assert(s.take(s.len() as int) =~= s);
    let tail = Seq::new((cap - n - 1) as nat, |i: int| 0u16);
    assert(encoded_buffer(s, cap) =~= utf16_of(s) + seq![0u16] + tail);
    lemma_read_back(s, tail, s.len() as int);
}

} // verus!
