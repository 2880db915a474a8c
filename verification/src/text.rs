//! Byte-exact string operations on UTF-8 text.

use vstd::prelude::*;
use vstd::utf8::*;
use vstd::string::*;

verus! {

broadcast use {encode_utf8_valid_utf8, encode_utf8_decode_utf8, is_char_boundary_start_end_of_seq};

/// The first index `i >= from` with `b[i] == x`.
pub open spec fn first_index(b: Seq<u8>, x: u8, from: int) -> Option<int>
    decreases b.len() - from,
{
    if from < 0 || from >= b.len() {
        None
    } else if b[from] == x {
        Some(from)
    } else {
        first_index(b, x, from + 1)
    }
}

/// The last index `i < end` with `b[i] == x`.
pub open spec fn last_index(b: Seq<u8>, x: u8, end: int) -> Option<int>
    decreases end,
{
    if end <= 0 || end > b.len() {
        None
    } else if b[end - 1] == x {
        Some(end - 1)
    } else {
        last_index(b, x, end - 1)
    }
}

/// The pieces of `s` between occurrences of `sep`, where the piece being read
/// started at `start` and the scan has reached `pos`.
pub open spec fn split_from(s: Seq<u8>, sep: u8, start: int, pos: int) -> Seq<Seq<u8>>
    decreases s.len() - pos,
{
    if pos >= s.len() {
        seq![s.subrange(start, s.len() as int)]
    } else if s[pos] == sep {
        seq![s.subrange(start, pos)] + split_from(s, sep, pos + 1, pos + 1)
    } else {
        split_from(s, sep, start, pos + 1)
    }
}

/// The pieces of `s` between occurrences of `sep`, empty pieces included.
pub open spec fn split(s: Seq<u8>, sep: u8) -> Seq<Seq<u8>> {
    split_from(s, sep, 0, 0)
}

/// The pieces put back together with `sep` between each two.
pub open spec fn rejoined(ps: Seq<Seq<u8>>, sep: u8) -> Seq<u8>
    decreases ps.len(),
{
    if ps.len() == 0 {
        seq![]
    } else if ps.len() == 1 {
        ps[0]
    } else {
        ps[0] + seq![sep] + rejoined(ps.drop_first(), sep)
    }
}

proof fn lemma_split_from(s: Seq<u8>, sep: u8, start: int, pos: int)
    requires
        0 <= start <= pos <= s.len(),
        forall|i: int| start <= i < pos ==> s[i] != sep,
    ensures
        split_from(s, sep, start, pos).len() >= 1,
        rejoined(split_from(s, sep, start, pos), sep) == s.subrange(start, s.len() as int),
        forall|k: int, i: int|
            0 <= k < split_from(s, sep, start, pos).len() && 0 <= i < split_from(s, sep, start, pos)[k].len()
                ==> #[trigger] split_from(s, sep, start, pos)[k][i] != sep,
    decreases s.len() - pos,
{
    if pos >= s.len() {
    } else if s[pos] == sep {
        lemma_split_from(s, sep, pos + 1, pos + 1);
        let rest = split_from(s, sep, pos + 1, pos + 1);
        let ps = split_from(s, sep, start, pos);
        assert(ps == seq![s.subrange(start, pos)] + rest);
        assert(ps.drop_first() =~= rest);
        assert(rejoined(ps, sep) == s.subrange(start, pos) + seq![sep] + rejoined(rest, sep));
        assert(s.subrange(start, pos) + seq![sep] + s.subrange(pos + 1, s.len() as int) =~= s.subrange(
            start,
            s.len() as int,
        ));
        assert forall|k: int, i: int| 0 <= k < ps.len() && 0 <= i < ps[k].len() implies #[trigger] ps[k][i]
            != sep by {
            if k > 0 {
                assert(ps[k] == rest[k - 1]);
            }
        }
    } else {
        lemma_split_from(s, sep, start, pos + 1);
    }
}

/// Splitting at `sep` cuts `s` into pieces that hold no `sep` and that give
/// `s` back when put together with `sep` between each two.
pub proof fn law_split_pieces(s: Seq<u8>, sep: u8)
    ensures
        split(s, sep).len() >= 1,
        rejoined(split(s, sep), sep) == s,
        forall|k: int, i: int|
            0 <= k < split(s, sep).len() && 0 <= i < split(s, sep)[k].len() ==> #[trigger] split(s, sep)[k][i]
                != sep,
{
    lemma_split_from(s, sep, 0, 0);
    assert(s.subrange(0, s.len() as int) =~= s);
}

/// The pieces that are not empty, in order.
pub open spec fn non_empty(ps: Seq<Seq<u8>>) -> Seq<Seq<u8>>
    decreases ps.len(),
{
    if ps.len() == 0 {
        seq![]
    } else if ps.last().len() > 0 {
        non_empty(ps.drop_last()).push(ps.last())
    } else {
        non_empty(ps.drop_last())
    }
}

/// The UTF-8 bytes of a character sequence.
pub open spec fn utf8(s: Seq<char>) -> Seq<u8> {
    encode_utf8(s)
}

/// A byte below 0x80 is one character, so both sides of it are character
/// boundaries.
pub proof fn lemma_ascii_boundaries(b: Seq<u8>, i: int)
    requires
        valid_utf8(b),
        0 <= i < b.len(),
        b[i] < 0x80,
    ensures
        is_char_boundary(b, i),
        is_char_boundary(b, i + 1),
{
    is_char_boundary_iff_not_is_continuation_byte(b, i);
    if i + 1 < b.len() {
        valid_utf8_split(b, i);
        let suffix = b.subrange(i, b.len() as int);
        assert(suffix[0] == b[i]);
        assert(pop_first_scalar(suffix) =~= b.subrange(i + 1, b.len() as int));
        let rest = b.subrange(i + 1, b.len() as int);
        assert(valid_utf8(rest));
        assert(rest[0] == b[i + 1]);
        is_char_boundary_iff_not_is_continuation_byte(b, i + 1);
    }
}

/// A boundary of `b` below `e` is a boundary of the first `e` bytes too.
proof fn lemma_prefix_boundary(b: Seq<u8>, e: int, a: int)
    requires
        valid_utf8(b),
        is_char_boundary(b, e),
        is_char_boundary(b, a),
        0 <= a <= e <= b.len(),
    ensures
        valid_utf8(b.subrange(0, e)),
        is_char_boundary(b.subrange(0, e), a),
{
    valid_utf8_split(b, e);
    let p = b.subrange(0, e);
    if a == e {
        is_char_boundary_start_end_of_seq(p);
    } else if a > 0 {
        is_char_boundary_iff_not_is_continuation_byte(b, a);
        is_char_boundary_iff_not_is_continuation_byte(p, a);
    }
}

/// The text of `s` between byte offsets `a` and `e`.
pub fn slice(s: &str, a: usize, e: usize) -> (r: &str)
    requires
        a <= e <= s.spec_bytes().len(),
        is_char_boundary(s.spec_bytes(), a as int),
        is_char_boundary(s.spec_bytes(), e as int),
    ensures
        r.spec_bytes() == s.spec_bytes().subrange(a as int, e as int),
{
    proof {
        lemma_prefix_boundary(s.spec_bytes(), e as int, a as int);
    }
    let (pre, _) = s.split_at(e);
    let (_, mid) = pre.split_at(a);
    assert(mid.spec_bytes() =~= s.spec_bytes().subrange(a as int, e as int));
    mid
}

/// The first index `i >= from` at which `b` holds three dots in a row.
pub open spec fn first_dots(b: Seq<u8>, from: int) -> Option<int>
    decreases b.len() - from,
{
    if from < 0 || from + 3 > b.len() {
        None
    } else if b[from] == 0x2e && b[from + 1] == 0x2e && b[from + 2] == 0x2e {
        Some(from)
    } else {
        first_dots(b, from + 1)
    }
}

/// `p` is a prefix of `b`.
pub open spec fn has_prefix(b: Seq<u8>, p: Seq<u8>) -> bool {
    p.len() <= b.len() && b.subrange(0, p.len() as int) == p
}

/// An optional index taken as an integer.
pub open spec fn as_int(r: Option<usize>) -> Option<int> {
    match r {
        Some(i) => Some(i as int),
        None => None,
    }
}

/// A found byte is where the search says, at or after `from`.
pub proof fn lemma_first_index(b: Seq<u8>, x: u8, from: int)
    ensures
        first_index(b, x, from) matches Some(i) ==> from <= i < b.len() && b[i] == x,
    decreases b.len() - from,
{
    if 0 <= from < b.len() && b[from] != x {
        lemma_first_index(b, x, from + 1);
    }
}

/// A byte found from the end lies before `end`.
pub proof fn lemma_last_index(b: Seq<u8>, x: u8, end: int)
    ensures
        last_index(b, x, end) matches Some(i) ==> 0 <= i < end && b[i] == x,
    decreases end,
{
    if 0 < end <= b.len() && b[end - 1] != x {
        lemma_last_index(b, x, end - 1);
    }
}

/// Found dots are three dots, at or after `from`.
pub proof fn lemma_first_dots(b: Seq<u8>, from: int)
    ensures
        first_dots(b, from) matches Some(p) ==> {
            &&& from <= p
            &&& p + 3 <= b.len()
            &&& b[p] == 0x2e && b[p + 1] == 0x2e && b[p + 2] == 0x2e
        },
    decreases b.len() - from,
{
    if 0 <= from && from + 3 <= b.len() && !(b[from] == 0x2e && b[from + 1] == 0x2e && b[from + 2]
        == 0x2e) {
        lemma_first_dots(b, from + 1);
    }
}

/// Where `x` first occurs in `b` at or after `from`.
pub fn find_byte(b: &[u8], x: u8, from: usize) -> (r: Option<usize>)
    ensures
        as_int(r) == first_index(b@, x, from as int),
        r matches Some(i) ==> from <= i < b@.len() && b@[i as int] == x,
{
    proof {
        lemma_first_index(b@, x, from as int);
    }
    let n = b.len();
    let mut i = from;
    if i >= n {
        return None;
    }
    while i < n
        invariant
            n == b@.len(),
            from <= i <= n,
            first_index(b@, x, from as int) == first_index(b@, x, i as int),
        decreases n - i,
    {
        if b[i] == x {
            return Some(i);
        }
        i += 1;
    }
    None
}

/// Where `x` last occurs in `b`.
pub fn rfind_byte(b: &[u8], x: u8) -> (r: Option<usize>)
    ensures
        as_int(r) == last_index(b@, x, b@.len() as int),
        r matches Some(i) ==> i < b@.len() && b@[i as int] == x,
{
    proof {
        lemma_last_index(b@, x, b@.len() as int);
    }
    let mut i = b.len();
    while i > 0
        invariant
            i <= b@.len(),
            last_index(b@, x, b@.len() as int) == last_index(b@, x, i as int),
        decreases i,
    {
        if b[i - 1] == x {
            return Some(i - 1);
        }
        i -= 1;
    }
    None
}

/// Where three dots in a row first occur in `b`.
pub fn find_dots(b: &[u8]) -> (r: Option<usize>)
    ensures
        as_int(r) == first_dots(b@, 0),
        r matches Some(p) ==> p + 3 <= b@.len() && b@[p as int] == 0x2e && b@[p + 1] == 0x2e
            && b@[p + 2] == 0x2e,
{
    proof {
        lemma_first_dots(b@, 0);
    }
    let n = b.len();
    let mut i: usize = 0;
    if n < 3 {
        return None;
    }
    while i <= n - 3
        invariant
            n == b@.len(),
            n >= 3,
            first_dots(b@, 0) == first_dots(b@, i as int),
        decreases n - i,
    {
        if b[i] == 0x2e && b[i + 1] == 0x2e && b[i + 2] == 0x2e {
            return Some(i);
        }
        i += 1;
    }
    None
}

/// Whether `b` begins with `p`.
pub fn starts_with(b: &[u8], p: &[u8]) -> (r: bool)
    ensures
        r == has_prefix(b@, p@),
{
    if p.len() > b.len() {
        return false;
    }
    let mut i: usize = 0;
    while i < p.len()
        invariant
            p@.len() <= b@.len(),
            i <= p@.len(),
            forall|j: int| 0 <= j < i ==> b@[j] == p@[j],
        decreases p@.len() - i,
    {
        if b[i] != p[i] {
            assert(b@.subrange(0, p@.len() as int)[i as int] != p@[i as int]);
            return false;
        }
        i += 1;
    }
    assert(b@.subrange(0, p@.len() as int) =~= p@);
    true
}

/// `s` without the leading `p`, when it begins with `p`.
pub fn strip_prefix<'a>(s: &'a str, p: &str) -> (r: Option<&'a str>)
    requires
        is_ascii(p),
    ensures
        r is Some <==> has_prefix(s.spec_bytes(), p.spec_bytes()),
        r matches Some(t) ==> t.spec_bytes() == s.spec_bytes().subrange(
            p.spec_bytes().len() as int,
            s.spec_bytes().len() as int,
        ),
{
    let b = s.as_bytes();
    let pb = p.as_bytes();
    if starts_with(b, pb) {
        proof {
            is_ascii_chars_encode_utf8(p@);
            if pb@.len() > 0 {
                let k = pb@.len() - 1;
                assert(b@[k] == pb@[k]);
                lemma_ascii_boundaries(b@, k);
            }
        }
        Some(slice(s, pb.len(), b.len()))
    } else {
        None
    }
}

/// The pieces of `s` between occurrences of the one-byte character `sep`.
pub fn split_str(s: &str, sep: u8) -> (r: Vec<&str>)
    requires
        sep < 0x80,
    ensures
        r@.map_values(|x: &str| x.spec_bytes()) == split(s.spec_bytes(), sep),
{
    let b = s.as_bytes();
    let n = b.len();
    let mut out: Vec<&str> = Vec::new();
    let mut start: usize = 0;
    let mut i: usize = 0;
    while i < n
        invariant
            n == b@.len(),
            sep < 0x80,
            b@ == s.spec_bytes(),
            start <= i <= n,
            is_char_boundary(b@, start as int),
            out@.map_values(|x: &str| x.spec_bytes()) + split_from(b@, sep, start as int, i as int)
                == split(b@, sep),
        decreases n - i,
    {
        if b[i] == sep {
            proof {
                lemma_ascii_boundaries(b@, i as int);
            }
            let piece = slice(s, start, i);
            let ghost before = out@;
            out.push(piece);
            assert(out@.map_values(|x: &str| x.spec_bytes()) =~= before.map_values(
                |x: &str| x.spec_bytes(),
            ).push(piece.spec_bytes()));
            start = i + 1;
        }
        i += 1;
    }
    let piece = slice(s, start, n);
    let ghost before = out@;
    out.push(piece);
    assert(out@.map_values(|x: &str| x.spec_bytes()) =~= before.map_values(
        |x: &str| x.spec_bytes(),
    ).push(piece.spec_bytes()));
    out
}

/// The character sequences that the strings hold.
pub open spec fn texts(v: Seq<String>) -> Seq<Seq<char>> {
    v.map_values(|s: String| s@)
}

/// The character sequences that UTF-8 byte sequences encode.
pub open spec fn decoded(ps: Seq<Seq<u8>>) -> Seq<Seq<char>> {
    ps.map_values(|p: Seq<u8>| decode_utf8(p))
}

/// Whether two byte sequences are equal.
pub fn bytes_eq(a: &[u8], b: &[u8]) -> (r: bool)
    ensures
        r == (a@ == b@),
{
    if a.len() != b.len() {
        return false;
    }
    let mut i: usize = 0;
    while i < a.len()
        invariant
            a@.len() == b@.len(),
            i <= a@.len(),
            forall|j: int| 0 <= j < i ==> a@[j] == b@[j],
        decreases a@.len() - i,
    {
        if a[i] != b[i] {
            return false;
        }
        i += 1;
    }
    assert(a@ =~= b@);
    true
}

/// The pieces that are not empty, in order.
pub fn keep_non_empty<'a>(pieces: &Vec<&'a str>) -> (r: Vec<&'a str>)
    ensures
        r@.map_values(|x: &str| x.spec_bytes()) == non_empty(
            pieces@.map_values(|x: &str| x.spec_bytes()),
        ),
{
    let ghost all = pieces@.map_values(|x: &str| x.spec_bytes());
    let mut out: Vec<&str> = Vec::new();
    let mut i: usize = 0;
    while i < pieces.len()
        invariant
            i <= pieces@.len(),
            all == pieces@.map_values(|x: &str| x.spec_bytes()),
            out@.map_values(|x: &str| x.spec_bytes()) == non_empty(all.take(i as int)),
        decreases pieces@.len() - i,
    {
        let p = pieces[i];
        assert(all.take(i + 1).drop_last() =~= all.take(i as int));
        assert(all.take(i + 1).last() == p.spec_bytes());
        assert(all.take(i + 1).len() > 0);
        if p.as_bytes().len() > 0 {
            assert(non_empty(all.take(i + 1)) == non_empty(all.take(i as int)).push(p.spec_bytes()));
            let ghost before = out@;
            out.push(p);
            assert(out@.map_values(|x: &str| x.spec_bytes()) =~= before.map_values(
                |x: &str| x.spec_bytes(),
            ).push(p.spec_bytes()));
        } else {
            assert(non_empty(all.take(i + 1)) == non_empty(all.take(i as int)));
        }
        i += 1;
    }
    assert(all.take(pieces@.len() as int) =~= all);
    out
}

/// Unicode's `White_Space` characters, those for which `char::is_whitespace`
/// holds.
pub open spec fn white_space(c: char) -> bool {
    ||| ('\u{9}' <= c && c <= '\u{d}')
    ||| c == ' '
    ||| c == '\u{85}'
    ||| c == '\u{a0}'
    ||| c == '\u{1680}'
    ||| ('\u{2000}' <= c && c <= '\u{200a}')
    ||| c == '\u{2028}'
    ||| c == '\u{2029}'
    ||| c == '\u{202f}'
    ||| c == '\u{205f}'
    ||| c == '\u{3000}'
}

/// Whether `c` is a `White_Space` character.
pub fn is_white_space(c: char) -> (r: bool)
    ensures
        r == white_space(c),
{
    ('\u{9}' <= c && c <= '\u{d}') || c == ' ' || c == '\u{85}' || c == '\u{a0}' || c == '\u{1680}'
        || ('\u{2000}' <= c && c <= '\u{200a}') || c == '\u{2028}' || c == '\u{2029}' || c
        == '\u{202f}' || c == '\u{205f}' || c == '\u{3000}'
}

/// The text holds nothing but white space, so that `str::trim` leaves it
/// empty.
pub open spec fn blank(s: Seq<char>) -> bool {
    forall|i: int| 0 <= i < s.len() ==> white_space(#[trigger] s[i])
}

/// Whether `s.trim()` is empty.
pub fn is_blank(s: &str) -> (r: bool)
    ensures
        r == blank(s@),
{
    for c in it: s.chars()
        invariant
            it.seq() == s@,
            forall|j: int| 0 <= j < it.index() ==> white_space(#[trigger] s@[j]),
    {
        if !is_white_space(c) {
            return false;
        }
    }
    true
}

} // verus!
