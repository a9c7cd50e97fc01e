//! The byte-level pieces that address literals are made of: separators,
//! fields between separators, and decimal and hexadecimal numerals.

use vstd::prelude::*;

verus! {

/// ASCII code of `.`, which separates the octets of an IPv4 literal.
pub const DOT: u8 = 46;

/// ASCII code of `:`, which separates the groups of an IPv6 literal.
pub const COLON: u8 = 58;

/// True when `c` is one of the ASCII digits `0` to `9`.
pub open spec fn is_digit(c: u8) -> bool {
    48 <= c <= 57
}

/// True when `c` is an ASCII hexadecimal digit, in either case.
pub open spec fn is_hex_digit(c: u8) -> bool {
    is_digit(c) || 97 <= c <= 102 || 65 <= c <= 70
}

/// The number that the hexadecimal (or decimal) digit `c` stands for.
pub open spec fn digit_value(c: u8) -> int {
    if is_digit(c) {
        c - 48
    } else if 97 <= c <= 102 {
        c - 87
    } else {
        c - 55
    }
}

/// The number that `s` stands for when read as a decimal numeral.
pub open spec fn decimal_value(s: Seq<u8>) -> int
    decreases s.len(),
{
    if s.len() == 0 {
        0
    } else {
        decimal_value(s.drop_last()) * 10 + digit_value(s.last())
    }
}

/// The number that `s` stands for when read as a hexadecimal numeral.
pub open spec fn hex_value(s: Seq<u8>) -> int
    decreases s.len(),
{
    if s.len() == 0 {
        0
    } else {
        hex_value(s.drop_last()) * 16 + digit_value(s.last())
    }
}

/// True when `s` is a decimal numeral for an octet as an IPv4 literal writes
/// it: one to three digits, no leading zero unless the numeral is `0`
/// itself, and a value of at most 255.
pub open spec fn is_octet_numeral(s: Seq<u8>) -> bool {
    &&& 1 <= s.len() <= 3
    &&& forall|i: int| 0 <= i < s.len() ==> is_digit(#[trigger] s[i])
    &&& (s.len() > 1 ==> s[0] != 48)
    &&& decimal_value(s) <= 255
}

/// True when `s` is a hexadecimal numeral for a 16-bit group as an IPv6
/// literal writes it: one to four hexadecimal digits.
pub open spec fn is_group_numeral(s: Seq<u8>) -> bool {
    &&& 1 <= s.len() <= 4
    &&& forall|i: int| 0 <= i < s.len() ==> is_hex_digit(#[trigger] s[i])
}

/// The position of the first `sep` in `s`, or `s.len()` when `s` holds none.
pub open spec fn first_index(s: Seq<u8>, sep: u8) -> int
    decreases s.len(),
{
    if s.len() == 0 || s[0] == sep {
        0
    } else {
        1 + first_index(s.drop_first(), sep)
    }
}

/// The fields of `s`: the stretches between one `sep` and the next. A text
/// with n separators has n + 1 fields, some of which may be empty.
pub open spec fn fields(s: Seq<u8>, sep: u8) -> Seq<Seq<u8>>
    decreases s.len(),
{
    let e = first_index(s, sep);
    if 0 <= e < s.len() {
        seq![s.take(e)] + fields(s.skip(e + 1), sep)
    } else {
        seq![s]
    }
}

/// `first_index` points at a separator, or past the end, and nothing before
/// it is a separator.
pub proof fn lemma_first_index(s: Seq<u8>, sep: u8)
    ensures
        0 <= first_index(s, sep) <= s.len(),
        first_index(s, sep) < s.len() ==> s[first_index(s, sep)] == sep,
        forall|j: int| 0 <= j < first_index(s, sep) ==> #[trigger] s[j] != sep,
    decreases s.len(),
{
    if s.len() == 0 || s[0] == sep {
    } else {
        let t = s.drop_first();
        lemma_first_index(t, sep);
        assert forall|j: int| 0 <= j < first_index(s, sep) implies #[trigger] s[j] != sep by {
            if j > 0 {
                assert(s[j] == t[j - 1]);
            }
        }
    }
}

/// A position that holds the first separator, or the end of a text without
/// one, is what `first_index` gives.
pub proof fn lemma_first_index_is(s: Seq<u8>, sep: u8, e: int)
    requires
        0 <= e <= s.len(),
        e < s.len() ==> s[e] == sep,
        forall|j: int| 0 <= j < e ==> #[trigger] s[j] != sep,
    ensures
        first_index(s, sep) == e,
{
    lemma_first_index(s, sep);
}

/// How `fields` peels the first field off a stretch of a text: the stretch
/// up to the first separator at `e`, then the fields of what follows it.
pub proof fn lemma_fields_step(s: Seq<u8>, lo: int, e: int, hi: int, sep: u8)
    requires
        0 <= lo <= e <= hi <= s.len(),
        e < hi ==> s[e] == sep,
        forall|j: int| lo <= j < e ==> #[trigger] s[j] != sep,
    ensures
        e < hi ==> fields(s.subrange(lo, hi), sep) == seq![s.subrange(lo, e)] + fields(
            s.subrange(e + 1, hi),
            sep,
        ),
        e == hi ==> fields(s.subrange(lo, hi), sep) == seq![s.subrange(lo, hi)],
{
    let t = s.subrange(lo, hi);
    lemma_first_index_is(t, sep, e - lo);
    if e < hi {
        assert(t.take(e - lo) == s.subrange(lo, e));
        assert(t.skip(e - lo + 1) == s.subrange(e + 1, hi));
    }
}

/// The fields of a separator-free text `x`, a separator and a text `y` are
/// `x` and then the fields of `y`.
pub proof fn lemma_fields_join(x: Seq<u8>, y: Seq<u8>, sep: u8)
    requires
        forall|j: int| 0 <= j < x.len() ==> #[trigger] x[j] != sep,
    ensures
        fields(x + seq![sep] + y, sep) == seq![x] + fields(y, sep),
{
    let s = x + seq![sep] + y;
    let e = x.len() as int;
    assert forall|j: int| 0 <= j < e implies #[trigger] s[j] != sep by {
        assert(s[j] == x[j]);
    }
    assert(s[e] == sep);
    lemma_fields_step(s, 0, e, s.len() as int, sep);
    assert(s.subrange(0, s.len() as int) == s);
    assert(s.subrange(0, e) == x);
    assert(s.subrange(e + 1, s.len() as int) == y);
}

/// Every text has at least one field.
pub proof fn lemma_fields_nonempty(s: Seq<u8>, sep: u8)
    ensures
        fields(s, sep).len() >= 1,
{
}

/// A text without a separator is its own single field.
pub proof fn lemma_fields_single(s: Seq<u8>, sep: u8)
    requires
        forall|j: int| 0 <= j < s.len() ==> #[trigger] s[j] != sep,
    ensures
        fields(s, sep) == seq![s],
{
    lemma_first_index_is(s, sep, s.len() as int);
}

/// A text with two or more fields holds a separator.
pub proof fn lemma_fields_many(s: Seq<u8>, sep: u8)
    requires
        fields(s, sep).len() >= 2,
    ensures
        exists|j: int| 0 <= j < s.len() && #[trigger] s[j] == sep,
{
    lemma_first_index(s, sep);
    let e = first_index(s, sep);
    assert(e < s.len());
    assert(s[e] == sep);
}

/// What holds of the separator and of every byte of every field holds of
/// every byte of the text.
pub proof fn lemma_fields_cover(s: Seq<u8>, sep: u8, p: spec_fn(u8) -> bool)
    requires
        p(sep),
        forall|k: int, j: int|
            0 <= k < fields(s, sep).len() && 0 <= j < fields(s, sep)[k].len() ==> p(
                #[trigger] fields(s, sep)[k][j],
            ),
    ensures
        forall|i: int| 0 <= i < s.len() ==> p(#[trigger] s[i]),
    decreases s.len(),
{
    lemma_first_index(s, sep);
    let e = first_index(s, sep);
    let f = fields(s, sep);
    if e < s.len() {
        let rest = s.skip(e + 1);
        let g = fields(rest, sep);
        assert(f == seq![s.take(e)] + g);
        assert forall|k: int, j: int| 0 <= k < g.len() && 0 <= j < g[k].len() implies p(
            #[trigger] g[k][j],
        ) by {
            assert(g[k] == f[k + 1]);
            assert(p(f[k + 1][j]));
        }
        lemma_fields_cover(rest, sep, p);
        assert forall|i: int| 0 <= i < s.len() implies p(#[trigger] s[i]) by {
            if i < e {
                assert(f[0] == s.take(e));
                assert(f[0][i] == s[i]);
            } else if i == e {
            } else {
                assert(rest[i - e - 1] == s[i]);
            }
        }
    } else {
        assert(f == seq![s]);
        assert forall|i: int| 0 <= i < s.len() implies p(#[trigger] s[i]) by {
            assert(f[0][i] == s[i]);
        }
    }
}

/// Finds the first `sep` in `s[lo..hi]`: returns its position, or `hi` when
/// the stretch holds none.
pub fn find_byte(s: &[u8], lo: usize, hi: usize, sep: u8) -> (e: usize)
    requires
        lo <= hi <= s.len(),
    ensures
        lo <= e <= hi,
        e < hi ==> s@[e as int] == sep,
        forall|j: int| lo <= j < e ==> #[trigger] s@[j] != sep,
        e - lo == first_index(s@.subrange(lo as int, hi as int), sep),
{
    let mut e: usize = lo;
    while e < hi && s[e] != sep
        invariant
            lo <= e <= hi <= s.len(),
            forall|j: int| lo <= j < e ==> #[trigger] s@[j] != sep,
        decreases hi - e,
    {
        e += 1;
    }
    proof {
        lemma_first_index_is(s@.subrange(lo as int, hi as int), sep, e - lo);
    }
    e
}

/// Reads `s[lo..hi]` as the decimal numeral of an octet. Returns the octet,
/// or `None` when the stretch is no such numeral.
pub fn read_octet(s: &[u8], lo: usize, hi: usize) -> (r: Option<u8>)
    requires
        lo <= hi <= s.len(),
    ensures
        match r {
            Some(v) => is_octet_numeral(s@.subrange(lo as int, hi as int)) && v == decimal_value(
                s@.subrange(lo as int, hi as int),
            ),
            None => !is_octet_numeral(s@.subrange(lo as int, hi as int)),
        },
{
    let ghost t = s@.subrange(lo as int, hi as int);
    let n = hi - lo;
    if n < 1 || n > 3 {
        return None;
    }
    if n > 1 && s[lo] == 48 {
        assert(t[0] == 48);
        return None;
    }
    let mut v: u16 = 0;
    let mut i: usize = lo;
    while i < hi
        invariant
            lo <= i <= hi <= s.len(),
            hi - lo <= 3,
            t == s@.subrange(lo as int, hi as int),
            forall|j: int| 0 <= j < i - lo ==> is_digit(#[trigger] t[j]),
            v == decimal_value(t.take(i - lo)),
            i - lo == 0 ==> v == 0,
            i - lo == 1 ==> v <= 9,
            i - lo == 2 ==> v <= 99,
            i - lo == 3 ==> v <= 999,
        decreases hi - i,
    {
        let c = s[i];
        if c < 48 || c > 57 {
            assert(t[i - lo] == c);
            return None;
        }
        proof {
            let next = t.take(i - lo + 1);
            assert(next.drop_last() == t.take(i - lo));
            assert(next.last() == c);
        }
        v = v * 10 + (c - 48) as u16;
        i += 1;
    }
    assert(t.take(hi - lo) == t);
    if v > 255 {
        None
    } else {
        Some(v as u8)
    }
}

/// Reads `s[lo..hi]` as the hexadecimal numeral of a 16-bit group. Returns
/// the group, or `None` when the stretch is no such numeral.
pub fn read_group(s: &[u8], lo: usize, hi: usize) -> (r: Option<u16>)
    requires
        lo <= hi <= s.len(),
    ensures
        match r {
            Some(v) => is_group_numeral(s@.subrange(lo as int, hi as int)) && v == hex_value(
                s@.subrange(lo as int, hi as int),
            ),
            None => !is_group_numeral(s@.subrange(lo as int, hi as int)),
        },
{
    let ghost t = s@.subrange(lo as int, hi as int);
    let n = hi - lo;
    if n < 1 || n > 4 {
        return None;
    }
    let mut v: u32 = 0;
    let mut i: usize = lo;
    while i < hi
        invariant
            lo <= i <= hi <= s.len(),
            hi - lo <= 4,
            t == s@.subrange(lo as int, hi as int),
            forall|j: int| 0 <= j < i - lo ==> is_hex_digit(#[trigger] t[j]),
            v == hex_value(t.take(i - lo)),
            i - lo == 0 ==> v == 0,
            i - lo == 1 ==> v <= 0xf,
            i - lo == 2 ==> v <= 0xff,
            i - lo == 3 ==> v <= 0xfff,
            i - lo == 4 ==> v <= 0xffff,
        decreases hi - i,
    {
        let c = s[i];
        let d: u32 = if 48 <= c && c <= 57 {
            (c - 48) as u32
        } else if 97 <= c && c <= 102 {
            (c - 87) as u32
        } else if 65 <= c && c <= 70 {
            (c - 55) as u32
        } else {
            assert(t[i - lo] == c);
            return None;
        };
        proof {
            let next = t.take(i - lo + 1);
            assert(next.drop_last() == t.take(i - lo));
            assert(next.last() == c);
        }
        v = v * 16 + d;
        i += 1;
    }
    assert(t.take(hi - lo) == t);
    Some(v as u16)
}

} // verus!
