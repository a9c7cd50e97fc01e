//! IPv6 addresses and their colon-hexadecimal literals.

use crate::ipv4::{ipv4_value, lemma_ipv4_literal_bytes, Ipv4Addr};
use crate::text::{
    fields, find_byte, first_index, hex_value, is_group_numeral, is_hex_digit,
    lemma_fields_cover, lemma_fields_join, lemma_fields_many, lemma_fields_nonempty,
    lemma_fields_single, lemma_fields_step, lemma_first_index, read_group, COLON, DOT,
};
use vstd::prelude::*;

verus! {

/// An IPv6 address: 128 bits, the first group of the written form in the
/// highest 16 bits. Two addresses are equal when their bits are.
#[derive(Clone, Copy, Debug, PartialEq, Eq, Structural)]
pub struct Ipv6Addr {
    pub bits: u128,
}

/// True when the two bytes of `s` at `p` are the gap `::`.
pub open spec fn is_gap_at(s: Seq<u8>, p: int) -> bool {
    0 <= p && p + 1 < s.len() && s[p] == COLON && s[p + 1] == COLON
}

/// The position of the first gap `::` in `s`, or `s.len()` when `s` holds
/// none.
pub open spec fn gap_index(s: Seq<u8>) -> int
    decreases s.len(),
{
    if s.len() < 2 {
        s.len() as int
    } else if s[0] == COLON && s[1] == COLON {
        0
    } else {
        1 + gap_index(s.drop_first())
    }
}

/// The groups that the numerals `f` stand for, one for one.
pub open spec fn group_values(f: Seq<Seq<u8>>) -> Seq<u16> {
    Seq::new(f.len(), |k: int| hex_value(f[k]) as u16)
}

/// The two groups that an embedded IPv4 address fills: its high and its low
/// half.
pub open spec fn quad_groups(a: Ipv4Addr) -> Seq<u16> {
    seq![(a.bits / 0x1_0000) as u16, (a.bits % 0x1_0000) as u16]
}

/// The groups that `s` stands for as a list of hexadecimal groups separated
/// by single colons. The empty text is the empty list. With `quad`, the last
/// item may be a dotted IPv4 literal instead, which stands for two groups.
/// `None` when `s` is no such list.
pub open spec fn group_list(s: Seq<u8>, quad: bool) -> Option<Seq<u16>> {
    if s.len() == 0 {
        Some(Seq::<u16>::empty())
    } else {
        let f = fields(s, COLON);
        let init = f.drop_last();
        if !(forall|k: int| 0 <= k < init.len() ==> is_group_numeral(#[trigger] init[k])) {
            None
        } else if is_group_numeral(f.last()) {
            Some(group_values(f))
        } else if quad && ipv4_value(f.last()) is Some {
            Some(group_values(init) + quad_groups(ipv4_value(f.last()).unwrap()))
        } else {
            None
        }
    }
}

/// A run of `n` zero groups.
pub open spec fn zero_groups(n: int) -> Seq<u16> {
    Seq::new(n as nat, |k: int| 0u16)
}

/// The eight groups that the text `s` stands for as an IPv6 literal. Without
/// a gap `::`, the text is a list of exactly eight groups, the last two of
/// which may be written as a dotted IPv4 literal. With a gap, a list of
/// plain groups stands before the first `::` and a list that may end in a
/// dotted IPv4 literal stands after it; the two hold at most seven groups,
/// and the gap stands for the zero groups that fill the address up.
pub open spec fn ipv6_groups(s: Seq<u8>) -> Option<Seq<u16>> {
    let p = gap_index(s);
    if p < s.len() {
        match (group_list(s.take(p), false), group_list(s.skip(p + 2), true)) {
            (Some(head), Some(tail)) => if head.len() + tail.len() <= 7 {
                Some(head + zero_groups(8 - head.len() - tail.len()) + tail)
            } else {
                None
            },
            _ => None,
        }
    } else {
        match group_list(s, true) {
            Some(g) => if g.len() == 8 {
                Some(g)
            } else {
                None
            },
            None => None,
        }
    }
}

/// The 128-bit number whose 16-bit groups, highest first, are the eight
/// groups `g`.
pub open spec fn group_bits(g: Seq<u16>) -> int {
    g[0] as int * 0x1_0000_0000_0000_0000_0000_0000_0000int + g[1] as int
        * 0x1_0000_0000_0000_0000_0000_0000int + g[2] as int * 0x1_0000_0000_0000_0000_0000int
        + g[3] as int * 0x1_0000_0000_0000_0000int + g[4] as int * 0x1_0000_0000_0000int
        + g[5] as int * 0x1_0000_0000int + g[6] as int * 0x1_0000int + g[7] as int
}

/// The address that the text `s` stands for as an IPv6 literal. `None` when
/// `s` is no such literal.
pub open spec fn ipv6_value(s: Seq<u8>) -> Option<Ipv6Addr> {
    match ipv6_groups(s) {
        Some(g) => Some(Ipv6Addr { bits: group_bits(g) as u128 }),
        None => None,
    }
}

/// `gap_index` points at a gap, or past the end, and no gap starts before
/// it.
pub proof fn lemma_gap_index(s: Seq<u8>)
    ensures
        0 <= gap_index(s) <= s.len(),
        gap_index(s) < s.len() ==> is_gap_at(s, gap_index(s)),
        forall|j: int| 0 <= j < gap_index(s) ==> !is_gap_at(s, j),
    decreases s.len(),
{
    if s.len() < 2 {
    } else if s[0] == COLON && s[1] == COLON {
    } else {
        let t = s.drop_first();
        lemma_gap_index(t);
        let g = gap_index(t);
        if g < t.len() {
            assert(is_gap_at(t, g));
            assert(s[g + 1] == t[g] && s[g + 2] == t[g + 1]);
        }
        assert forall|j: int| 0 <= j < gap_index(s) implies !is_gap_at(s, j) by {
            if j > 0 && j + 1 < s.len() {
                assert(!is_gap_at(t, j - 1));
                assert(s[j] == t[j - 1] && s[j + 1] == t[j]);
            }
        }
    }
}

/// A position that holds the first gap, or the end of a text without one,
/// is what `gap_index` gives.
pub proof fn lemma_gap_index_is(s: Seq<u8>, p: int)
    requires
        0 <= p <= s.len(),
        p < s.len() ==> is_gap_at(s, p),
        forall|j: int| 0 <= j < p ==> !is_gap_at(s, j),
    ensures
        gap_index(s) == p,
{
    lemma_gap_index(s);
    let g = gap_index(s);
    if g < p {
        assert(!is_gap_at(s, g));
    }
}

/// True when `c` can stand in an IPv6 literal: a hexadecimal digit, a colon
/// or a dot.
pub open spec fn is_literal_byte(c: u8) -> bool {
    is_hex_digit(c) || c == COLON || c == DOT
}

/// A list of groups holds nothing but hexadecimal digits, colons and dots.
pub proof fn lemma_group_list_bytes(s: Seq<u8>, quad: bool)
    requires
        group_list(s, quad) is Some,
    ensures
        forall|i: int| 0 <= i < s.len() ==> is_literal_byte(#[trigger] s[i]),
{
    if s.len() > 0 {
        let p = |c: u8| is_literal_byte(c);
        let f = fields(s, COLON);
        let init = f.drop_last();
        assert forall|k: int, j: int| 0 <= k < f.len() && 0 <= j < f[k].len() implies p(
            #[trigger] f[k][j],
        ) by {
            if k < f.len() - 1 {
                assert(is_group_numeral(init[k]));
            } else if is_group_numeral(f.last()) {
            } else {
                lemma_ipv4_literal_bytes(f.last());
            }
        }
        lemma_fields_cover(s, COLON, p);
        assert forall|i: int| 0 <= i < s.len() implies is_literal_byte(#[trigger] s[i]) by {
            assert(p(s[i]));
        }
    }
}

/// An IPv6 literal holds a colon, and nothing but hexadecimal digits, colons
/// and dots.
pub proof fn lemma_ipv6_literal_bytes(s: Seq<u8>)
    requires
        ipv6_value(s) is Some,
    ensures
        forall|i: int| 0 <= i < s.len() ==> is_literal_byte(#[trigger] s[i]),
        exists|i: int| 0 <= i < s.len() && #[trigger] s[i] == COLON,
{
    lemma_gap_index(s);
    let p = gap_index(s);
    if p < s.len() {
        let head = s.take(p);
        let tail = s.skip(p + 2);
        lemma_group_list_bytes(head, false);
        lemma_group_list_bytes(tail, true);
        assert forall|i: int| 0 <= i < s.len() implies is_literal_byte(#[trigger] s[i]) by {
            if i < p {
                assert(s[i] == head[i]);
            } else if i >= p + 2 {
                assert(s[i] == tail[i - p - 2]);
            }
        }
        assert(s[p] == COLON);
    } else {
        lemma_group_list_bytes(s, true);
        let f = fields(s, COLON);
        assert(f.len() >= 7);
        lemma_fields_many(s, COLON);
    }
}

/// A text with a gap `::` has an empty field between colons.
pub proof fn lemma_gap_leaves_empty_field(s: Seq<u8>, p: int)
    requires
        is_gap_at(s, p),
    ensures
        exists|k: int| 0 <= k < fields(s, COLON).len() && (#[trigger] fields(s, COLON)[k]).len() == 0,
    decreases s.len(),
{
    lemma_first_index(s, COLON);
    let e = first_index(s, COLON);
    let rest = s.skip(e + 1);
    let f = fields(s, COLON);
    let g = fields(rest, COLON);
    assert(f == seq![s.take(e)] + g);
    if e == p {
        assert(rest[0] == s[p + 1]);
        assert(first_index(rest, COLON) == 0);
        assert(g[0] == rest.take(0));
        assert(f[1] == g[0]);
        assert(f[1].len() == 0);
    } else {
        assert(rest[p - e - 1] == s[p]);
        assert(rest[p - e] == s[p + 1]);
        lemma_gap_leaves_empty_field(rest, p - e - 1);
        let k = choose|k: int| 0 <= k < g.len() && (#[trigger] g[k]).len() == 0;
        assert(f[k + 1] == g[k]);
        assert(f[k + 1].len() == 0);
    }
}

/// The lower-case hexadecimal digit for `n`.
pub open spec fn hex_digit(n: int) -> u8 {
    if n < 10 {
        (48 + n) as u8
    } else {
        (87 + n) as u8
    }
}

/// The four-digit hexadecimal numeral of the group `n`.
pub open spec fn group_text(n: u16) -> Seq<u8> {
    seq![
        hex_digit(n as int / 0x1000),
        hex_digit(n as int / 0x100 % 16),
        hex_digit(n as int / 0x10 % 16),
        hex_digit(n as int % 16),
    ]
}

/// The list form of groups: each written with four digits, with a colon
/// between one and the next. The empty list is the empty text.
pub open spec fn list_text(g: Seq<u16>) -> Seq<u8>
    decreases g.len(),
{
    if g.len() == 0 {
        Seq::<u8>::empty()
    } else if g.len() == 1 {
        group_text(g[0])
    } else {
        group_text(g[0]) + seq![COLON] + list_text(g.drop_first())
    }
}

/// The four-digit numerals of the groups `g`, one for one.
pub open spec fn group_texts(g: Seq<u16>) -> Seq<Seq<u8>> {
    Seq::new(g.len(), |k: int| group_text(g[k]))
}

/// The gap form of an address: the list form of the groups before the gap,
/// the gap `::`, and the list form of the groups after it.
pub open spec fn gap_text(head: Seq<u16>, tail: Seq<u16>) -> Seq<u8> {
    list_text(head) + seq![COLON, COLON] + list_text(tail)
}

/// The four-digit numeral of a group is a group numeral, and stands for that
/// group.
pub proof fn lemma_group_text(n: u16)
    ensures
        is_group_numeral(group_text(n)),
        hex_value(group_text(n)) == n,
        forall|j: int| 0 <= j < group_text(n).len() ==> #[trigger] group_text(n)[j] != COLON,
{
    let t = group_text(n);
    let d3 = hex_digit(n as int / 0x1000);
    let d2 = hex_digit(n as int / 0x100 % 16);
    let d1 = hex_digit(n as int / 0x10 % 16);
    reveal_with_fuel(hex_value, 5);
    assert(t.drop_last() == seq![d3, d2, d1]);
    assert(t.drop_last().drop_last() == seq![d3, d2]);
    assert(t.drop_last().drop_last().drop_last() == seq![d3]);
    assert(t.drop_last().drop_last().drop_last().drop_last() == Seq::<u8>::empty());
}

/// A text whose fields between colons are all non-empty holds no gap `::`.
pub proof fn lemma_no_empty_field_no_gap(s: Seq<u8>)
    requires
        forall|k: int| 0 <= k < fields(s, COLON).len() ==> (#[trigger] fields(s, COLON)[k]).len() > 0,
    ensures
        gap_index(s) == s.len(),
{
    lemma_gap_index(s);
    if gap_index(s) < s.len() {
        lemma_gap_leaves_empty_field(s, gap_index(s));
    }
}

/// The fields of the list form of groups are their four-digit numerals.
pub proof fn lemma_list_text_fields(g: Seq<u16>)
    requires
        g.len() >= 1,
    ensures
        fields(list_text(g), COLON) == group_texts(g),
    decreases g.len(),
{
    lemma_group_text(g[0]);
    if g.len() == 1 {
        lemma_fields_single(group_text(g[0]), COLON);
        assert(group_texts(g) == seq![group_text(g[0])]);
    } else {
        let r = g.drop_first();
        lemma_list_text_fields(r);
        lemma_fields_join(group_text(g[0]), list_text(r), COLON);
        assert(seq![group_text(g[0])] + group_texts(r) == group_texts(g)) by {
            assert forall|k: int| 1 <= k < g.len() implies group_texts(r)[k - 1] == group_text(
                #[trigger] g[k],
            ) by {
                assert(r[k - 1] == g[k]);
            }
        }
    }
}

/// The list form of one or more groups ends in a hexadecimal digit.
pub proof fn lemma_list_text_end(g: Seq<u16>)
    requires
        g.len() >= 1,
    ensures
        list_text(g).len() >= 4,
        is_hex_digit(list_text(g).last()),
    decreases g.len(),
{
    lemma_group_text(g[0]);
    if g.len() == 1 {
        assert(is_hex_digit(group_text(g[0])[3]));
    } else {
        let r = g.drop_first();
        lemma_list_text_end(r);
        let s = group_text(g[0]) + seq![COLON] + list_text(r);
        assert(s.last() == list_text(r).last());
    }
}

/// The list form of groups stands for those groups, and holds no gap `::`.
pub proof fn lemma_list_text_groups(g: Seq<u16>, quad: bool)
    ensures
        group_list(list_text(g), quad) == Some(g),
        gap_index(list_text(g)) == list_text(g).len(),
{
    let s = list_text(g);
    if g.len() == 0 {
        assert(s.len() == 0);
        assert(g == Seq::<u16>::empty());
    } else {
        lemma_list_text_fields(g);
        lemma_list_text_end(g);
        let f = fields(s, COLON);
        assert forall|k: int| 0 <= k < f.len() implies is_group_numeral(#[trigger] f[k])
            && hex_value(f[k]) == g[k] && f[k].len() > 0 by {
            lemma_group_text(g[k]);
            assert(f[k] == group_text(g[k]));
        }
        let init = f.drop_last();
        assert forall|k: int| 0 <= k < init.len() implies is_group_numeral(#[trigger] init[k]) by {
            assert(init[k] == f[k]);
        }
        assert(is_group_numeral(f.last())) by {
            assert(f.last() == f[f.len() - 1]);
        }
        assert(group_values(f) == g);
        lemma_no_empty_field_no_gap(s);
    }
}

/// Every IPv6 address has a literal in full form: the list form of its eight
/// groups stands for the address that holds them, highest first.
pub proof fn lemma_list_text_value(g: Seq<u16>)
    requires
        g.len() == 8,
    ensures
        ipv6_value(list_text(g)) == Some(Ipv6Addr { bits: group_bits(g) as u128 }),
{
    lemma_list_text_groups(g, true);
    lemma_list_text_end(g);
}

/// The first gap of a gap form is the one between its two lists.
pub proof fn lemma_gap_text_gap(head: Seq<u16>, tail: Seq<u16>)
    ensures
        gap_index(gap_text(head, tail)) == list_text(head).len(),
        gap_text(head, tail).take(list_text(head).len() as int) == list_text(head),
        gap_text(head, tail).skip(list_text(head).len() as int + 2) == list_text(tail),
        list_text(head).len() < gap_text(head, tail).len(),
{
    let h = list_text(head);
    let s = gap_text(head, tail);
    let p = h.len() as int;
    assert(s[p] == COLON && s[p + 1] == COLON);
    assert forall|j: int| 0 <= j < p implies !is_gap_at(s, j) by {
        lemma_list_text_groups(head, false);
        lemma_gap_index(h);
        if j + 1 < p {
            assert(s[j] == h[j] && s[j + 1] == h[j + 1]);
            assert(!is_gap_at(h, j));
        } else {
            lemma_list_text_end(head);
            assert(s[j] == h.last());
        }
    }
    lemma_gap_index_is(s, p);
}

/// The gap form of an address stands for it: the groups before the gap, as
/// many zero groups as fill the address up, and the groups after the gap.
pub proof fn lemma_gap_text_value(head: Seq<u16>, tail: Seq<u16>)
    requires
        head.len() + tail.len() <= 7,
    ensures
        ipv6_value(gap_text(head, tail)) == Some(
            Ipv6Addr {
                bits: group_bits(head + zero_groups(8 - head.len() - tail.len()) + tail) as u128,
            },
        ),
{
    lemma_gap_text_gap(head, tail);
    lemma_list_text_groups(head, false);
    lemma_list_text_groups(tail, true);
}

/// Finds the first gap `::` in `text`: returns its position, or the length
/// of `text` when it holds none.
pub fn find_gap(text: &[u8]) -> (p: usize)
    ensures
        p == gap_index(text@),
        p <= text.len(),
        p < text.len() ==> is_gap_at(text@, p as int),
{
    let n = text.len();
    if n < 2 {
        return n;
    }
    let mut i: usize = 0;
    while i + 1 < n
        invariant
            n == text.len(),
            n >= 2,
            i + 1 <= n,
            forall|j: int| 0 <= j < i ==> !is_gap_at(text@, j),
        decreases n - i,
    {
        if text[i] == COLON && text[i + 1] == COLON {
            proof {
                lemma_gap_index_is(text@, i as int);
            }
            return i;
        }
        i += 1;
    }
    proof {
        lemma_gap_index_is(text@, n as int);
    }
    n
}

/// Reads `text[lo..hi]` as a list of groups, of which the last may be a
/// dotted IPv4 literal when `quad` is set. Returns the groups, or `None`
/// when the stretch is no such list or the list holds more than `limit`
/// groups.
pub fn read_groups(text: &[u8], lo: usize, hi: usize, quad: bool, limit: usize) -> (r: Option<
    Vec<u16>,
>)
    requires
        lo <= hi <= text.len(),
    ensures
        match r {
            Some(v) => group_list(text@.subrange(lo as int, hi as int), quad) == Some(v@)
                && v.len() <= limit,
            None => match group_list(text@.subrange(lo as int, hi as int), quad) {
                Some(g) => g.len() > limit,
                None => true,
            },
        },
{
    let ghost s = text@;
    let ghost whole = s.subrange(lo as int, hi as int);
    let mut out: Vec<u16> = Vec::new();
    if lo == hi {
        assert(out@ == Seq::<u16>::empty());
        return Some(out);
    }
    let ghost f = fields(whole, COLON);
    let ghost mut done: Seq<Seq<u8>> = Seq::empty();
    let mut pos: usize = lo;
    loop
        invariant
            lo <= pos <= hi <= text.len(),
            lo < hi,
            s == text@,
            whole == s.subrange(lo as int, hi as int),
            f == fields(whole, COLON),
            f == done + fields(s.subrange(pos as int, hi as int), COLON),
            forall|k: int| 0 <= k < done.len() ==> is_group_numeral(#[trigger] done[k]),
            out@ == group_values(done),
            out.len() == done.len(),
            out.len() <= limit,
        decreases hi - pos,
    {
        let e = find_byte(text, pos, hi, COLON);
        let ghost field = s.subrange(pos as int, e as int);
        proof {
            lemma_fields_step(s, pos as int, e as int, hi as int, COLON);
        }
        if e < hi {
            proof {
                lemma_fields_nonempty(s.subrange(e + 1, hi as int), COLON);
            }
            assert(f[done.len() as int] == field);
            assert(f.len() >= done.len() + 2);
            match read_group(text, pos, e) {
                None => {
                    assert(f.drop_last()[done.len() as int] == field);
                    return None;
                },
                Some(v) => {
                    if out.len() >= limit {
                        return None;
                    }
                    out.push(v);
                    proof {
                        let rest = fields(s.subrange(e + 1, hi as int), COLON);
                        assert(done + (seq![field] + rest) == done.push(field) + rest);
                        done = done.push(field);
                        assert(out@ == group_values(done));
                    }
                    pos = e + 1;
                },
            }
        } else {
            assert(f == done.push(field));
            assert(f.drop_last() == done);
            assert(f.last() == field);
            match read_group(text, pos, hi) {
                Some(v) => {
                    if out.len() >= limit {
                        return None;
                    }
                    out.push(v);
                    assert(out@ == group_values(f));
                    return Some(out);
                },
                None => {
                    if !quad {
                        return None;
                    }
                    match Ipv4Addr::parse_range(text, pos, hi) {
                        None => {
                            return None;
                        },
                        Some(a) => {
                            if limit - out.len() < 2 {
                                return None;
                            }
                            out.push((a.bits / 0x1_0000) as u16);
                            out.push((a.bits % 0x1_0000) as u16);
                            assert(out@ == group_values(done) + quad_groups(a));
                            return Some(out);
                        },
                    }
                },
            }
        }
    }
}

impl Ipv6Addr {
    /// True for `::`, the address whose bits are all zero.
    pub open spec fn spec_is_unspecified(&self) -> bool {
        self.bits == 0
    }

    /// True for `::1`, the one IPv6 loopback address.
    pub open spec fn spec_is_loopback(&self) -> bool {
        self.bits == 1
    }

    /// True for the addresses of `ff00::/8`: those whose first byte is 0xff.
    pub open spec fn spec_is_multicast(&self) -> bool {
        self.bits >= 0xff00_0000_0000_0000_0000_0000_0000_0000
    }

    /// The address whose eight groups, first to last, are those of `g`.
    pub fn from_groups(g: [u16; 8]) -> (r: Ipv6Addr)
        ensures
            r.bits == group_bits(g@),
    {
        Ipv6Addr {
            bits: (g[0] as u128) * 0x1_0000_0000_0000_0000_0000_0000_0000 + (g[1] as u128)
                * 0x1_0000_0000_0000_0000_0000_0000 + (g[2] as u128) * 0x1_0000_0000_0000_0000_0000
                + (g[3] as u128) * 0x1_0000_0000_0000_0000 + (g[4] as u128) * 0x1_0000_0000_0000
                + (g[5] as u128) * 0x1_0000_0000 + (g[6] as u128) * 0x1_0000 + (g[7] as u128),
        }
    }

    /// The address whose eight groups, first to last, are the items of `g`.
    fn from_group_list(g: &Vec<u16>) -> (r: Ipv6Addr)
        requires
            g.len() == 8,
        ensures
            r.bits == group_bits(g@),
    {
        let groups = [g[0], g[1], g[2], g[3], g[4], g[5], g[6], g[7]];
        assert(groups@ == g@);
        Ipv6Addr::from_groups(groups)
    }

    /// Tells whether this is the unspecified address `::`.
    #[verifier::when_used_as_spec(spec_is_unspecified)]
    pub fn is_unspecified(&self) -> (r: bool)
        ensures
            r == self.spec_is_unspecified(),
    {
        self.bits == 0
    }

    /// Tells whether this is the loopback address `::1`.
    #[verifier::when_used_as_spec(spec_is_loopback)]
    pub fn is_loopback(&self) -> (r: bool)
        ensures
            r == self.spec_is_loopback(),
    {
        self.bits == 1
    }

    /// Tells whether this is a multicast address, one of `ff00::/8`.
    #[verifier::when_used_as_spec(spec_is_multicast)]
    pub fn is_multicast(&self) -> (r: bool)
        ensures
            r == self.spec_is_multicast(),
    {
        self.bits >= 0xff00_0000_0000_0000_0000_0000_0000_0000
    }

    /// Parses the whole of `text` as an IPv6 literal.
    pub fn parse(text: &[u8]) -> (r: Option<Ipv6Addr>)
        ensures
            r == ipv6_value(text@),
    {
        let n = text.len();
        let p = find_gap(text);
        if p < n {
            assert(text@.take(p as int) == text@.subrange(0, p as int));
            assert(text@.skip(p + 2) == text@.subrange(p + 2, n as int));
            let head = match read_groups(text, 0, p, false, 7) {
                Some(head) => head,
                None => {
                    return None;
                },
            };
            let tail = match read_groups(text, p + 2, n, true, 7 - head.len()) {
                Some(tail) => tail,
                None => {
                    return None;
                },
            };
            let ghost h = head@;
            let ghost zeros = 8 - head.len() - tail.len();
            let mut g: Vec<u16> = head;
            while g.len() + tail.len() < 8
                invariant
                    h.len() + tail.len() <= 7,
                    h.len() <= g.len(),
                    g.len() + tail.len() <= 8,
                    g@ == h + zero_groups(g.len() - h.len()),
                decreases 8 - g.len(),
            {
                g.push(0);
            }
            let mut j: usize = 0;
            while j < tail.len()
                invariant
                    j <= tail.len(),
                    h.len() + zeros + tail.len() == 8,
                    zeros >= 1,
                    g@ == h + zero_groups(zeros) + tail@.take(j as int),
                decreases tail.len() - j,
            {
                g.push(tail[j]);
                assert(tail@.take(j + 1) == tail@.take(j as int).push(tail@[j as int]));
                j += 1;
            }
            assert(tail@.take(tail.len() as int) == tail@);
            Some(Ipv6Addr::from_group_list(&g))
        } else {
            assert(text@.subrange(0, n as int) == text@);
            match read_groups(text, 0, n, true, 8) {
                Some(g) => {
                    if g.len() == 8 {
                        Some(Ipv6Addr::from_group_list(&g))
                    } else {
                        None
                    }
                },
                None => None,
            }
        }
    }
}

} // verus!
