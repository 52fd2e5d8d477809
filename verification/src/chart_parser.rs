//! Parser for the chart-notation text grammar: a sequence of sections
//! `[Name] { key = value ... }`, interpreted into a `SongChart`.
//!
//! The grammar is specified byte by byte over the UTF-8 encoding of the
//! input: whitespace separates sections; a section name is any run of
//! bytes other than `]`; a body is any run other than `}`; a body is a
//! sequence of `key = value` lines with an alphanumeric key and a value
//! running to the end of its line, trimmed. The whole input must consist
//! of sections, else the initial parse fails.

use vstd::prelude::*;

verus! {

use crate::chart::ChartParseError;
use crate::chart::GuitarEvent;
use crate::chart::GuitarEventType;
use crate::chart::GuitarTrack;
use crate::chart::SongChart;
use crate::chart::SyncEvent;
use crate::chart::SyncEventType;
use crate::chart::SyncTrack;
use vstd::string::StringSliceAdditionalSpecFns;
use vstd::string::StrSliceExecFns;

// ---------------------------------------------------------------------
// byte classes
// ---------------------------------------------------------------------
/// Whitespace: space, tab, carriage return, line feed.
pub open spec fn is_ws(b: u8) -> bool {
    b == 32 || b == 9 || b == 13 || b == 10
}

/// Line-internal whitespace: space or tab.
pub open spec fn is_sp(b: u8) -> bool {
    b == 32 || b == 9
}

/// End-of-line bytes: carriage return or line feed.
pub open spec fn is_nl(b: u8) -> bool {
    b == 13 || b == 10
}

/// ASCII decimal digit.
pub open spec fn is_digit(b: u8) -> bool {
    48 <= b && b <= 57
}

/// ASCII letter or digit.
pub open spec fn is_alnum(b: u8) -> bool {
    is_digit(b) || (65 <= b && b <= 90) || (97 <= b && b <= 122)
}

// ---------------------------------------------------------------------
// index scanners
// ---------------------------------------------------------------------
/// First index at or after `i` that does not hold whitespace.
pub open spec fn skip_ws(s: Seq<u8>, i: int) -> int
    decreases s.len() - i,
{
    if 0 <= i < s.len() && is_ws(s[i]) {
        skip_ws(s, i + 1)
    } else {
        i
    }
}

/// First index at or after `i` that does not hold space or tab.
pub open spec fn skip_sp(s: Seq<u8>, i: int) -> int
    decreases s.len() - i,
{
    if 0 <= i < s.len() && is_sp(s[i]) {
        skip_sp(s, i + 1)
    } else {
        i
    }
}

/// First index at or after `i` holding `stop`, or the length.
pub open spec fn scan_to(s: Seq<u8>, i: int, stop: u8) -> int
    decreases s.len() - i,
{
    if 0 <= i < s.len() && s[i] != stop {
        scan_to(s, i + 1, stop)
    } else {
        i
    }
}

/// First index at or after `i` holding an end-of-line byte, or the length.
pub open spec fn scan_nl(s: Seq<u8>, i: int) -> int
    decreases s.len() - i,
{
    if 0 <= i < s.len() && !is_nl(s[i]) {
        scan_nl(s, i + 1)
    } else {
        i
    }
}

/// First index at or after `i` not holding a letter or digit.
pub open spec fn scan_alnum_end(s: Seq<u8>, i: int) -> int
    decreases s.len() - i,
{
    if 0 <= i < s.len() && is_alnum(s[i]) {
        scan_alnum_end(s, i + 1)
    } else {
        i
    }
}

/// First index at or after `i` holding whitespace, or the length.
pub open spec fn scan_tok_end(s: Seq<u8>, i: int) -> int
    decreases s.len() - i,
{
    if 0 <= i < s.len() && !is_ws(s[i]) {
        scan_tok_end(s, i + 1)
    } else {
        i
    }
}

/// `hi` moved down past trailing whitespace, not below `lo`.
pub open spec fn rtrim(s: Seq<u8>, lo: int, hi: int) -> int
    decreases hi - lo,
{
    if lo < hi && hi <= s.len() && is_ws(s[hi - 1]) {
        rtrim(s, lo, hi - 1)
    } else {
        hi
    }
}

proof fn lemma_skip_ws_ge(s: Seq<u8>, i: int)
    ensures
        skip_ws(s, i) >= i,
        i <= s.len() ==> skip_ws(s, i) <= s.len(),
    decreases s.len() - i,
{
    if 0 <= i < s.len() && is_ws(s[i]) {
        lemma_skip_ws_ge(s, i + 1);
    }
}

proof fn lemma_skip_sp_ge(s: Seq<u8>, i: int)
    ensures
        skip_sp(s, i) >= i,
        i <= s.len() ==> skip_sp(s, i) <= s.len(),
    decreases s.len() - i,
{
    if 0 <= i < s.len() && is_sp(s[i]) {
        lemma_skip_sp_ge(s, i + 1);
    }
}

proof fn lemma_scan_to_ge(s: Seq<u8>, i: int, stop: u8)
    ensures
        scan_to(s, i, stop) >= i,
        i <= s.len() ==> scan_to(s, i, stop) <= s.len(),
    decreases s.len() - i,
{
    if 0 <= i < s.len() && s[i] != stop {
        lemma_scan_to_ge(s, i + 1, stop);
    }
}

proof fn lemma_scan_nl_ge(s: Seq<u8>, i: int)
    ensures
        scan_nl(s, i) >= i,
        i <= s.len() ==> scan_nl(s, i) <= s.len(),
    decreases s.len() - i,
{
    if 0 <= i < s.len() && !is_nl(s[i]) {
        lemma_scan_nl_ge(s, i + 1);
    }
}

proof fn lemma_scan_alnum_end_ge(s: Seq<u8>, i: int)
    ensures
        scan_alnum_end(s, i) >= i,
        i <= s.len() ==> scan_alnum_end(s, i) <= s.len(),
    decreases s.len() - i,
{
    if 0 <= i < s.len() && is_alnum(s[i]) {
        lemma_scan_alnum_end_ge(s, i + 1);
    }
}

// ---------------------------------------------------------------------
// the section grammar
// ---------------------------------------------------------------------
/// The sections of the input from index `i` on, as `(name, body)` byte
/// runs, or nothing where the text does not match the grammar. Names and
/// bodies must be nonempty; the input must be consumed entirely.
pub open spec fn lex_sections_from(s: Seq<u8>, i: int) -> Option<Seq<(Seq<u8>, Seq<u8>)>>
    decreases s.len() - i,
        via lex_sections_dec
{
    let j = skip_ws(s, i);
    if j >= s.len() {
        Some(Seq::<(Seq<u8>, Seq<u8>)>::empty())
    } else if s[j] == 91 {  // '['
        let ne = scan_to(s, j + 1, 93);  // ']'
        if ne < s.len() && ne > j + 1 {
            let k = skip_ws(s, ne + 1);
            if k < s.len() && s[k] == 123 {  // '{'
                let be = scan_to(s, k + 1, 125);  // '}'
                if be < s.len() && be > k + 1 {
                    match lex_sections_from(s, be + 1) {
                        Some(rest) => Some(
                            seq![(s.subrange(j + 1, ne), s.subrange(k + 1, be))] + rest,
                        ),
                        None => None,
                    }
                } else {
                    None
                }
            } else {
                None
            }
        } else {
            None
        }
    } else {
        None
    }
}

#[via_fn]
proof fn lex_sections_dec(s: Seq<u8>, i: int) {
    lemma_skip_ws_ge(s, i);
    let j = skip_ws(s, i);
    lemma_scan_to_ge(s, j + 1, 93);
    let ne = scan_to(s, j + 1, 93);
    lemma_skip_ws_ge(s, ne + 1);
    let k = skip_ws(s, ne + 1);
    lemma_scan_to_ge(s, k + 1, 125);
}

/// The `key = value` pairs of a section body from index `i` on, as byte
/// runs (key alphanumeric and nonempty; value trimmed), or nothing where
/// the body does not match.
pub open spec fn lex_pairs_from(s: Seq<u8>, i: int) -> Option<Seq<(Seq<u8>, Seq<u8>)>>
    decreases s.len() - i,
        via lex_pairs_dec
{
    let j = skip_ws(s, i);
    if j >= s.len() {
        Some(Seq::<(Seq<u8>, Seq<u8>)>::empty())
    } else if is_alnum(s[j]) {
        let ke = scan_alnum_end(s, j + 1);
        let eq = skip_sp(s, ke);
        if eq < s.len() && s[eq] == 61 {  // '='
            let vs = skip_sp(s, eq + 1);
            let veol = scan_nl(s, vs);
            let ve = rtrim(s, vs, veol);
            match lex_pairs_from(s, veol) {
                Some(rest) => Some(seq![(s.subrange(j, ke), s.subrange(vs, ve))] + rest),
                None => None,
            }
        } else {
            None
        }
    } else {
        None
    }
}

#[via_fn]
proof fn lex_pairs_dec(s: Seq<u8>, i: int) {
    lemma_skip_ws_ge(s, i);
    let j = skip_ws(s, i);
    lemma_scan_alnum_end_ge(s, j + 1);
    let ke = scan_alnum_end(s, j + 1);
    lemma_skip_sp_ge(s, ke);
    let eq = skip_sp(s, ke);
    lemma_skip_sp_ge(s, eq + 1);
    let vs = skip_sp(s, eq + 1);
    lemma_scan_nl_ge(s, vs);
}

/// The views of owned byte-pair lists, for relating executable results
/// to the grammar.
pub open spec fn views2(v: Seq<(Vec<u8>, Vec<u8>)>) -> Seq<(Seq<u8>, Seq<u8>)> {
    v.map(|i: int, p: (Vec<u8>, Vec<u8>)| (p.0@, p.1@))
}

// ---------------------------------------------------------------------
// decimal numbers
// ---------------------------------------------------------------------
/// Every byte is a decimal digit.
pub open spec fn all_digits(t: Seq<u8>) -> bool {
    forall|i: int| 0 <= i < t.len() ==> is_digit(#[trigger] t[i])
}

/// The number the digit bytes spell out.
pub open spec fn dec_val(t: Seq<u8>) -> int
    decreases t.len(),
{
    if t.len() == 0 {
        0
    } else {
        dec_val(t.drop_last()) * 10 + (t.last() - 48)
    }
}

/// A nonempty all-digit run whose value fits, as a `u64`.
pub open spec fn parse_u64_of(t: Seq<u8>) -> Option<u64> {
    if t.len() > 0 && all_digits(t) && dec_val(t) <= u64::MAX {
        Some(dec_val(t) as u64)
    } else {
        None
    }
}

/// As `parse_u64_of`, further bounded to `u32`.
pub open spec fn parse_u32_of(t: Seq<u8>) -> Option<u32> {
    match parse_u64_of(t) {
        Some(v) => if v <= u32::MAX {
            Some(v as u32)
        } else {
            None
        },
        None => None,
    }
}

/// As `parse_u64_of`, further bounded to `u16`.
pub open spec fn parse_u16_of(t: Seq<u8>) -> Option<u16> {
    match parse_u64_of(t) {
        Some(v) => if v <= u16::MAX {
            Some(v as u16)
        } else {
            None
        },
        None => None,
    }
}

/// The value of a number, or 0 where there is none: how optional numeric
/// payloads default.
pub open spec fn or_zero(o: Option<u32>) -> u32 {
    match o {
        Some(v) => v,
        None => 0,
    }
}

proof fn lemma_dec_val_nonneg(t: Seq<u8>)
    requires
        all_digits(t),
    ensures
        dec_val(t) >= 0,
    decreases t.len(),
{
    if t.len() > 0 {
        assert(all_digits(t.drop_last())) by {
            assert(forall|i: int| 0 <= i < t.len() - 1 ==> is_digit(#[trigger] t.drop_last()[i]));
        }
        lemma_dec_val_nonneg(t.drop_last());
    }
}

/// A digit run's value only grows as more digits are taken.
proof fn lemma_dec_val_take_le(t: Seq<u8>, i: int)
    requires
        all_digits(t),
        0 <= i <= t.len(),
    ensures
        dec_val(t.take(i)) <= dec_val(t),
    decreases t.len() - i,
{
    if i < t.len() {
        lemma_dec_val_take_le(t, i + 1);
        assert(t.take(i + 1).drop_last() =~= t.take(i));
        assert(t.take(i + 1).last() == t[i]);
        assert(all_digits(t.take(i))) by {
            assert(forall|k: int| 0 <= k < i ==> is_digit(#[trigger] t.take(i)[k]));
        }
        lemma_dec_val_nonneg(t.take(i));
        assert(dec_val(t.take(i + 1)) == dec_val(t.take(i)) * 10 + (t[i] - 48));
        assert(dec_val(t.take(i)) * 10 >= dec_val(t.take(i))) by {
            assert(dec_val(t.take(i)) * 10 == dec_val(t.take(i)) * 9 + dec_val(t.take(i)));
            vstd::arithmetic::mul::lemma_mul_inequality(0, dec_val(t.take(i)), 9);
        }
    } else {
        assert(t.take(i) =~= t);
    }
}

/// Parses a nonempty decimal digit run fitting `u64`.
fn parse_u64_bytes(t: &Vec<u8>) -> (r: Option<u64>)
    ensures
        r == parse_u64_of(t@),
{
    if t.len() == 0 {
        return None;
    }
    let mut acc: u64 = 0;
    let mut i: usize = 0;
    while i < t.len()
        invariant
            0 <= i <= t@.len(),
            all_digits(t@.take(i as int)),
            acc == dec_val(t@.take(i as int)),
        decreases t@.len() - i,
    {
        let b = t[i];
        if !(48 <= b && b <= 57) {
            proof {
                assert(!is_digit(t@[i as int]));
            }
            return None;
        }
        let d = (b - 48) as u64;
        proof {
            assert(t@.take(i as int + 1).drop_last() =~= t@.take(i as int));
            assert(t@.take(i as int + 1).last() == t@[i as int]);
            assert(all_digits(t@.take(i as int + 1))) by {
                assert(forall|k: int|
                    0 <= k < i + 1 ==> is_digit(#[trigger] t@.take(i as int + 1)[k]));
            }
        }
        if acc > (u64::MAX - d) / 10 {
            proof {
                // the value so far already overflows with this digit
                vstd::arithmetic::div_mod::lemma_fundamental_div_mod(
                    (u64::MAX - d) as int,
                    10,
                );
                assert(acc as int * 10 + d > u64::MAX) by {
                    vstd::arithmetic::mul::lemma_mul_inequality(
                        (u64::MAX - d) as int / 10 + 1,
                        acc as int,
                        10,
                    );
                }
                if all_digits(t@) {
                    lemma_dec_val_take_le(t@, i as int + 1);
                    assert(dec_val(t@) > u64::MAX);
                }
            }
            return None;
        }
        proof {
            vstd::arithmetic::div_mod::lemma_fundamental_div_mod((u64::MAX - d) as int, 10);
            assert(acc as int * 10 + d <= u64::MAX) by {
                vstd::arithmetic::mul::lemma_mul_inequality(
                    acc as int,
                    (u64::MAX - d) as int / 10,
                    10,
                );
            }
        }
        acc = acc * 10 + d;
        i = i + 1;
    }
    proof {
        assert(t@.take(t@.len() as int) =~= t@);
    }
    Some(acc)
}

/// Parses a decimal digit run fitting `u32`.
fn parse_u32_bytes(t: &Vec<u8>) -> (r: Option<u32>)
    ensures
        r == parse_u32_of(t@),
{
    match parse_u64_bytes(t) {
        Some(v) => if v <= u32::MAX as u64 {
            Some(v as u32)
        } else {
            None
        },
        None => None,
    }
}

/// Parses a decimal digit run fitting `u16`.
fn parse_u16_bytes(t: &Vec<u8>) -> (r: Option<u16>)
    ensures
        r == parse_u16_of(t@),
{
    match parse_u64_bytes(t) {
        Some(v) => if v <= u16::MAX as u64 {
            Some(v as u16)
        } else {
            None
        },
        None => None,
    }
}

// ---------------------------------------------------------------------
// executable scanners
// ---------------------------------------------------------------------
fn is_ws_x(b: u8) -> (r: bool)
    ensures
        r == is_ws(b),
{
    b == 32 || b == 9 || b == 13 || b == 10
}

fn skip_ws_x(s: &[u8], i: usize) -> (r: usize)
    requires
        i <= s@.len(),
    ensures
        r == skip_ws(s@, i as int),
        i <= r <= s@.len(),
{
    let mut j = i;
    while j < s.len() && is_ws_x(s[j])
        invariant
            i <= j <= s@.len(),
            skip_ws(s@, i as int) == skip_ws(s@, j as int),
        decreases s@.len() - j,
    {
        j = j + 1;
    }
    j
}

fn skip_sp_x(s: &[u8], i: usize) -> (r: usize)
    requires
        i <= s@.len(),
    ensures
        r == skip_sp(s@, i as int),
        i <= r <= s@.len(),
{
    let mut j = i;
    while j < s.len() && (s[j] == 32 || s[j] == 9)
        invariant
            i <= j <= s@.len(),
            skip_sp(s@, i as int) == skip_sp(s@, j as int),
        decreases s@.len() - j,
    {
        j = j + 1;
    }
    j
}

fn scan_to_x(s: &[u8], i: usize, stop: u8) -> (r: usize)
    requires
        i <= s@.len(),
    ensures
        r == scan_to(s@, i as int, stop),
        i <= r <= s@.len(),
{
    let mut j = i;
    while j < s.len() && s[j] != stop
        invariant
            i <= j <= s@.len(),
            scan_to(s@, i as int, stop) == scan_to(s@, j as int, stop),
        decreases s@.len() - j,
    {
        j = j + 1;
    }
    j
}

fn scan_nl_x(s: &[u8], i: usize) -> (r: usize)
    requires
        i <= s@.len(),
    ensures
        r == scan_nl(s@, i as int),
        i <= r <= s@.len(),
{
    let mut j = i;
    while j < s.len() && !(s[j] == 13 || s[j] == 10)
        invariant
            i <= j <= s@.len(),
            scan_nl(s@, i as int) == scan_nl(s@, j as int),
        decreases s@.len() - j,
    {
        j = j + 1;
    }
    j
}

fn scan_alnum_end_x(s: &[u8], i: usize) -> (r: usize)
    requires
        i <= s@.len(),
    ensures
        r == scan_alnum_end(s@, i as int),
        i <= r <= s@.len(),
{
    let mut j = i;
    while j < s.len() && ((48 <= s[j] && s[j] <= 57) || (65 <= s[j] && s[j] <= 90) || (97 <= s[j]
        && s[j] <= 122))
        invariant
            i <= j <= s@.len(),
            scan_alnum_end(s@, i as int) == scan_alnum_end(s@, j as int),
        decreases s@.len() - j,
    {
        j = j + 1;
    }
    j
}

fn scan_tok_end_x(s: &[u8], i: usize) -> (r: usize)
    requires
        i <= s@.len(),
    ensures
        r == scan_tok_end(s@, i as int),
        i <= r <= s@.len(),
{
    let mut j = i;
    while j < s.len() && !is_ws_x(s[j])
        invariant
            i <= j <= s@.len(),
            scan_tok_end(s@, i as int) == scan_tok_end(s@, j as int),
        decreases s@.len() - j,
    {
        j = j + 1;
    }
    j
}

fn rtrim_x(s: &[u8], lo: usize, hi: usize) -> (r: usize)
    requires
        lo <= hi <= s@.len(),
    ensures
        r == rtrim(s@, lo as int, hi as int),
        lo <= r <= hi,
{
    let mut h = hi;
    while h > lo && is_ws_x(s[h - 1])
        invariant
            lo <= h <= hi <= s@.len(),
            rtrim(s@, lo as int, hi as int) == rtrim(s@, lo as int, h as int),
        decreases h,
    {
        h = h - 1;
    }
    h
}

/// A fresh copy of the byte run `s[lo..hi]`.
fn bytes_range(s: &[u8], lo: usize, hi: usize) -> (r: Vec<u8>)
    requires
        lo <= hi <= s@.len(),
    ensures
        r@ =~= s@.subrange(lo as int, hi as int),
{
    let mut r: Vec<u8> = Vec::new();
    let mut i = lo;
    while i < hi
        invariant
            lo <= i <= hi <= s@.len(),
            r@.len() == i - lo,
            forall|k: int| 0 <= k < r@.len() ==> #[trigger] r@[k] == s@[lo + k],
        decreases hi - i,
    {
        r.push(s[i]);
        i = i + 1;
    }
    r
}

/// A fresh copy of a byte vector.
fn clone_bytes(v: &Vec<u8>) -> (r: Vec<u8>)
    ensures
        r@ =~= v@,
{
    let mut r: Vec<u8> = Vec::new();
    let mut i: usize = 0;
    while i < v.len()
        invariant
            0 <= i <= v@.len(),
            r@.len() == i,
            forall|k: int| 0 <= k < r@.len() ==> #[trigger] r@[k] == v@[k],
        decreases v@.len() - i,
    {
        r.push(v[i]);
        i = i + 1;
    }
    r
}

/// A fresh copy of a whole byte slice.
pub(crate) fn slice_to_vec_u8(s: &[u8]) -> (r: Vec<u8>)
    ensures
        r@ =~= s@,
{
    let r = bytes_range(s, 0, s.len());
    proof {
        assert(s@.subrange(0, s@.len() as int) =~= s@);
    }
    r
}

/// A fresh copy of a byte vector's tail from `from` on.
pub(crate) fn bytes_suffix(v: &Vec<u8>, from: usize) -> (r: Vec<u8>)
    requires
        from <= v@.len(),
    ensures
        r@ =~= v@.subrange(from as int, v@.len() as int),
{
    bytes_range(v.as_slice(), from, v.len())
}

/// Parses a decimal digit run fitting `u32` (shared entry point).
pub(crate) fn parse_u32_bytes_pub(t: &Vec<u8>) -> (r: Option<u32>)
    ensures
        r == parse_u32_of(t@),
{
    parse_u32_bytes(t)
}

/// Whether two byte runs hold the same bytes.
pub(crate) fn bytes_eq(a: &[u8], b: &[u8]) -> (r: bool)
    ensures
        r == (a@ == b@),
{
    if a.len() != b.len() {
        proof {
            assert(a@.len() != b@.len());
        }
        return false;
    }
    let mut i: usize = 0;
    while i < a.len()
        invariant
            a@.len() == b@.len(),
            0 <= i <= a@.len(),
            forall|k: int| 0 <= k < i ==> #[trigger] a@[k] == b@[k],
        decreases a@.len() - i,
    {
        if a[i] != b[i] {
            proof {
                assert(a@[i as int] != b@[i as int]);
            }
            return false;
        }
        i = i + 1;
    }
    proof {
        assert(a@ =~= b@);
    }
    true
}

// ---------------------------------------------------------------------
// executable lexers
// ---------------------------------------------------------------------
/// Lexes the whole input into sections, or nothing where it does not
/// match the section grammar.
fn lex_sections(s: &[u8]) -> (r: Option<Vec<(Vec<u8>, Vec<u8>)>>)
    ensures
        r is Some <==> lex_sections_from(s@, 0) is Some,
        r matches Some(v) ==> views2(v@) =~= lex_sections_from(s@, 0)->Some_0,
{
    let mut acc: Vec<(Vec<u8>, Vec<u8>)> = Vec::new();
    let mut i: usize = 0;
    loop
        invariant
            0 <= i <= s@.len(),
            (lex_sections_from(s@, 0) is Some <==> lex_sections_from(s@, i as int) is Some),
            lex_sections_from(s@, i as int) matches Some(rest) ==> lex_sections_from(s@, 0)
                matches Some(whole) && whole =~= views2(acc@) + rest,
        decreases s@.len() - i,
    {
        let j = skip_ws_x(s, i);
        if j >= s.len() {
            proof {
                assert(lex_sections_from(s@, i as int) matches Some(rest) && rest =~= Seq::<
                    (Seq<u8>, Seq<u8>),
                >::empty());
                assert(views2(acc@) + Seq::<(Seq<u8>, Seq<u8>)>::empty() =~= views2(acc@));
            }
            return Some(acc);
        }
        if s[j] != 91 {
            return None;
        }
        let ne = scan_to_x(s, j + 1, 93);
        if !(ne < s.len() && ne > j + 1) {
            return None;
        }
        let k = skip_ws_x(s, ne + 1);
        if !(k < s.len() && s[k] == 123) {
            return None;
        }
        let be = scan_to_x(s, k + 1, 125);
        if !(be < s.len() && be > k + 1) {
            return None;
        }
        let name = bytes_range(s, j + 1, ne);
        let body = bytes_range(s, k + 1, be);
        let ghost pre = acc@;
        acc.push((name, body));
        proof {
            assert(views2(acc@) =~= views2(pre).push((s@.subrange(j + 1, ne as int), s@.subrange(
                k + 1,
                be as int,
            ))));
            match lex_sections_from(s@, be + 1) {
                Some(rest2) => {
                    assert(lex_sections_from(s@, i as int) matches Some(rest) && rest =~= seq![
                        (s@.subrange(j + 1, ne as int), s@.subrange(k + 1, be as int)),
                    ] + rest2);
                    assert(views2(pre) + (seq![
                        (s@.subrange(j + 1, ne as int), s@.subrange(k + 1, be as int)),
                    ] + rest2) =~= views2(acc@) + rest2);
                },
                None => {},
            }
        }
        i = be + 1;
    }
}

/// Lexes a section body into `key = value` pairs, or nothing where it
/// does not match.
fn lex_pairs(body: &Vec<u8>) -> (r: Option<Vec<(Vec<u8>, Vec<u8>)>>)
    ensures
        r is Some <==> lex_pairs_from(body@, 0) is Some,
        r matches Some(v) ==> views2(v@) =~= lex_pairs_from(body@, 0)->Some_0,
{
    let s = body.as_slice();
    let mut acc: Vec<(Vec<u8>, Vec<u8>)> = Vec::new();
    let mut i: usize = 0;
    loop
        invariant
            s@ == body@,
            0 <= i <= s@.len(),
            (lex_pairs_from(s@, 0) is Some <==> lex_pairs_from(s@, i as int) is Some),
            lex_pairs_from(s@, i as int) matches Some(rest) ==> lex_pairs_from(s@, 0)
                matches Some(whole) && whole =~= views2(acc@) + rest,
        decreases s@.len() - i,
    {
        let j = skip_ws_x(s, i);
        if j >= s.len() {
            proof {
                assert(lex_pairs_from(s@, i as int) matches Some(rest) && rest =~= Seq::<
                    (Seq<u8>, Seq<u8>),
                >::empty());
                assert(views2(acc@) + Seq::<(Seq<u8>, Seq<u8>)>::empty() =~= views2(acc@));
            }
            return Some(acc);
        }
        let b = s[j];
        if !((48 <= b && b <= 57) || (65 <= b && b <= 90) || (97 <= b && b <= 122)) {
            return None;
        }
        let ke = scan_alnum_end_x(s, j + 1);
        let eq = skip_sp_x(s, ke);
        if !(eq < s.len() && s[eq] == 61) {
            return None;
        }
        let vs = skip_sp_x(s, eq + 1);
        let veol = scan_nl_x(s, vs);
        let ve = rtrim_x(s, vs, veol);
        let key = bytes_range(s, j, ke);
        let value = bytes_range(s, vs, ve);
        let ghost pre = acc@;
        acc.push((key, value));
        proof {
            assert(views2(acc@) =~= views2(pre).push((s@.subrange(j as int, ke as int),
            s@.subrange(vs as int, ve as int))));
            match lex_pairs_from(s@, veol as int) {
                Some(rest2) => {
                    assert(lex_pairs_from(s@, i as int) matches Some(rest) && rest =~= seq![
                        (s@.subrange(j as int, ke as int), s@.subrange(vs as int, ve as int)),
                    ] + rest2);
                    assert(views2(pre) + (seq![
                        (s@.subrange(j as int, ke as int), s@.subrange(vs as int, ve as int)),
                    ] + rest2) =~= views2(acc@) + rest2);
                },
                None => {},
            }
        }
        i = veol;
    }
}

// ---------------------------------------------------------------------
// interpretation: section lookup, values, events
// ---------------------------------------------------------------------
/// The body of the last section named `name` (duplicate sections: the
/// last occurrence wins, as map semantics would give).
pub open spec fn section_body(secs: Seq<(Seq<u8>, Seq<u8>)>, name: Seq<u8>) -> Option<Seq<u8>>
    decreases secs.len(),
{
    if secs.len() == 0 {
        None
    } else if secs.last().0 == name {
        Some(secs.last().1)
    } else {
        section_body(secs.drop_last(), name)
    }
}

/// The value of the last pair keyed `key` (duplicate keys: last wins).
pub open spec fn last_value(pairs: Seq<(Seq<u8>, Seq<u8>)>, key: Seq<u8>) -> Option<Seq<u8>>
    decreases pairs.len(),
{
    if pairs.len() == 0 {
        None
    } else if pairs.last().0 == key {
        Some(pairs.last().1)
    } else {
        last_value(pairs.drop_last(), key)
    }
}

/// The resolution a song body declares: its `Resolution` value where that
/// is a usable number, the conventional 480 otherwise.
pub open spec fn resolution_from(pairs: Seq<(Seq<u8>, Seq<u8>)>) -> u16 {
    match last_value(pairs, "Resolution".spec_bytes()) {
        None => 480,
        Some(v) => match parse_u16_of(v) {
            Some(r) => if r >= 1 {
                r
            } else {
                480
            },
            None => 480,
        },
    }
}

/// The resolution of the chart, or nothing where the `Song` section is
/// missing or its body does not parse.
pub open spec fn song_resolution(secs: Seq<(Seq<u8>, Seq<u8>)>) -> Option<u16> {
    match section_body(secs, "Song".spec_bytes()) {
        None => None,
        Some(b) => match lex_pairs_from(b, 0) {
            None => None,
            Some(ps) => Some(resolution_from(ps)),
        },
    }
}

/// Index of the first pair keyed `k` at or after `i`, or -1.
pub open spec fn key_index_from(acc: Seq<(Seq<u8>, Seq<u8>)>, k: Seq<u8>, i: int) -> int
    decreases acc.len() - i,
{
    if i < 0 || i >= acc.len() {
        -1
    } else if acc[i].0 == k {
        i
    } else {
        key_index_from(acc, k, i + 1)
    }
}

/// Pairs with duplicate keys collapsed: each key keeps its first slot,
/// holding the last pair written under it. The sync track demands one
/// event per distinct tick literal, so colliding lines leave one
/// survivor.
pub open spec fn dedup_pairs(pairs: Seq<(Seq<u8>, Seq<u8>)>) -> Seq<(Seq<u8>, Seq<u8>)>
    decreases pairs.len(),
{
    if pairs.len() == 0 {
        Seq::<(Seq<u8>, Seq<u8>)>::empty()
    } else {
        let acc = dedup_pairs(pairs.drop_last());
        let ki = key_index_from(acc, pairs.last().0, 0);
        if ki < 0 {
            acc.push(pairs.last())
        } else {
            acc.update(ki, pairs.last())
        }
    }
}

/// The first whitespace-separated token of a value.
pub open spec fn token1(v: Seq<u8>) -> Seq<u8> {
    let a = skip_ws(v, 0);
    let b = scan_tok_end(v, a);
    v.subrange(a, b)
}

/// The second whitespace-separated token of a value (empty if none).
pub open spec fn token2(v: Seq<u8>) -> Seq<u8> {
    let a1 = skip_ws(v, 0);
    let b1 = scan_tok_end(v, a1);
    let a2 = skip_ws(v, b1);
    let b2 = scan_tok_end(v, a2);
    v.subrange(a2, b2)
}

/// The third whitespace-separated token of a value (empty if none).
pub open spec fn token3(v: Seq<u8>) -> Seq<u8> {
    let a1 = skip_ws(v, 0);
    let b1 = scan_tok_end(v, a1);
    let a2 = skip_ws(v, b1);
    let b2 = scan_tok_end(v, a2);
    let a3 = skip_ws(v, b2);
    let b3 = scan_tok_end(v, a3);
    v.subrange(a3, b3)
}

/// The sync events the (deduplicated) sync pairs spell out: each key is
/// the tick, each value an event-type token and a numeric payload
/// (defaulting to 0); only `B` and `TS` lines are kept. A key that is
/// not a number fails the section.
pub open spec fn sync_from_pairs(pairs: Seq<(Seq<u8>, Seq<u8>)>) -> Option<Seq<SyncEvent>>
    decreases pairs.len(),
{
    if pairs.len() == 0 {
        Some(Seq::<SyncEvent>::empty())
    } else {
        match sync_from_pairs(pairs.drop_last()) {
            None => None,
            Some(es) => {
                let kv = pairs.last();
                match parse_u64_of(kv.0) {
                    None => None,
                    Some(pos) => {
                        let t = token1(kv.1);
                        let v = or_zero(parse_u32_of(token2(kv.1)));
                        if t == "B".spec_bytes() {
                            Some(
                                es.push(
                                    SyncEvent {
                                        pos,
                                        pos_units: 0,
                                        value: SyncEventType::Beat(v),
                                    },
                                ),
                            )
                        } else if t == "TS".spec_bytes() {
                            Some(
                                es.push(
                                    SyncEvent {
                                        pos,
                                        pos_units: 0,
                                        value: SyncEventType::TimeSignature(v, None),
                                    },
                                ),
                            )
                        } else {
                            Some(es)
                        }
                    },
                }
            },
        }
    }
}

/// The sync events of the chart, or nothing where the `SyncTrack`
/// section is missing or its body cannot be interpreted.
pub open spec fn sync_events_of(secs: Seq<(Seq<u8>, Seq<u8>)>) -> Option<Seq<SyncEvent>> {
    match section_body(secs, "SyncTrack".spec_bytes()) {
        None => None,
        Some(b) => match lex_pairs_from(b, 0) {
            None => None,
            Some(ps) => sync_from_pairs(dedup_pairs(ps)),
        },
    }
}

/// The guitar events a track body's pairs spell out: each key is the
/// tick; the value holds an event-type token and up to two numeric
/// payloads (defaulting to 0). Only `N` lines with payload 0 to 7 and
/// `S` lines with payload 2 are kept; payloads 0 to 4 are fret lanes,
/// 5 the forced marker, 6 the tap marker, 7 the open-note marker.
pub open spec fn guitar_from_pairs(pairs: Seq<(Seq<u8>, Seq<u8>)>) -> Option<Seq<GuitarEvent>>
    decreases pairs.len(),
{
    if pairs.len() == 0 {
        Some(Seq::<GuitarEvent>::empty())
    } else {
        match guitar_from_pairs(pairs.drop_last()) {
            None => None,
            Some(es) => {
                let kv = pairs.last();
                match parse_u64_of(kv.0) {
                    None => None,
                    Some(pos) => {
                        let t = token1(kv.1);
                        let v1 = or_zero(parse_u32_of(token2(kv.1)));
                        let v2 = or_zero(parse_u32_of(token3(kv.1)));
                        if t == "N".spec_bytes() && v1 <= 7 {
                            let value = if v1 <= 4 {
                                GuitarEventType::Note(v1)
                            } else if v1 == 5 {
                                GuitarEventType::Forced
                            } else if v1 == 6 {
                                GuitarEventType::Tap
                            } else {
                                GuitarEventType::Open
                            };
                            Some(
                                es.push(
                                    GuitarEvent {
                                        pos,
                                        pos_units: 0,
                                        length: v2 as u64,
                                        length_units: 0,
                                        value,
                                    },
                                ),
                            )
                        } else if t == "S".spec_bytes() && v1 == 2 {
                            Some(
                                es.push(
                                    GuitarEvent {
                                        pos,
                                        pos_units: 0,
                                        length: v2 as u64,
                                        length_units: 0,
                                        value: GuitarEventType::Starpower,
                                    },
                                ),
                            )
                        } else {
                            Some(es)
                        }
                    },
                }
            },
        }
    }
}

/// What a difficulty/instrument section yields: absent entirely, present
/// but uninterpretable, or its events.
pub open spec fn guitar_section_result(secs: Seq<(Seq<u8>, Seq<u8>)>, name: Seq<u8>) -> Option<
    Option<Seq<GuitarEvent>>,
> {
    match section_body(secs, name) {
        None => None,
        Some(b) => match lex_pairs_from(b, 0) {
            None => Some(None),
            Some(ps) => match guitar_from_pairs(ps) {
                None => Some(None),
                Some(es) => Some(Some(es)),
            },
        },
    }
}

/// The difficulty/instrument section names, in the order they are
/// looked up: four difficulties of the standard guitar slot, then of the
/// bass slot, then of the rhythm-guitar fallback slot.
pub open spec fn track_name_chars(i: int) -> Seq<char> {
    if i == 0 {
        "EasySingle"@
    } else if i == 1 {
        "MediumSingle"@
    } else if i == 2 {
        "HardSingle"@
    } else if i == 3 {
        "ExpertSingle"@
    } else if i == 4 {
        "EasyDoubleBass"@
    } else if i == 5 {
        "MediumDoubleBass"@
    } else if i == 6 {
        "HardDoubleBass"@
    } else if i == 7 {
        "ExpertDoubleBass"@
    } else if i == 8 {
        "EasyDoubleRhythm"@
    } else if i == 9 {
        "MediumDoubleRhythm"@
    } else if i == 10 {
        "HardDoubleRhythm"@
    } else {
        "ExpertDoubleRhythm"@
    }
}

/// The byte runs of the section names above.
pub open spec fn track_name_bytes(i: int) -> Seq<u8> {
    if i == 0 {
        "EasySingle".spec_bytes()
    } else if i == 1 {
        "MediumSingle".spec_bytes()
    } else if i == 2 {
        "HardSingle".spec_bytes()
    } else if i == 3 {
        "ExpertSingle".spec_bytes()
    } else if i == 4 {
        "EasyDoubleBass".spec_bytes()
    } else if i == 5 {
        "MediumDoubleBass".spec_bytes()
    } else if i == 6 {
        "HardDoubleBass".spec_bytes()
    } else if i == 7 {
        "ExpertDoubleBass".spec_bytes()
    } else if i == 8 {
        "EasyDoubleRhythm".spec_bytes()
    } else if i == 9 {
        "MediumDoubleRhythm".spec_bytes()
    } else if i == 10 {
        "HardDoubleRhythm".spec_bytes()
    } else {
        "ExpertDoubleRhythm".spec_bytes()
    }
}

/// The indices below `upto` whose sections are present, in lookup order.
pub open spec fn present_tracks(secs: Seq<(Seq<u8>, Seq<u8>)>, upto: int) -> Seq<int>
    decreases upto,
{
    if upto <= 0 {
        Seq::<int>::empty()
    } else {
        present_tracks(secs, upto - 1) + (if section_body(secs, track_name_bytes(upto - 1))
            is Some {
            seq![upto - 1]
        } else {
            Seq::<int>::empty()
        })
    }
}

/// The first index at or after `i` whose section is present but cannot
/// be interpreted, or -1.
pub open spec fn first_bad_track(secs: Seq<(Seq<u8>, Seq<u8>)>, i: int) -> int
    decreases 12 - i,
{
    if i < 0 || i >= 12 {
        -1
    } else {
        match guitar_section_result(secs, track_name_bytes(i)) {
            Some(None) => i,
            _ => first_bad_track(secs, i + 1),
        }
    }
}

// ---------------------------------------------------------------------
// executable interpretation
// ---------------------------------------------------------------------
/// Index of the last section with the given name.
fn find_section(secs: &Vec<(Vec<u8>, Vec<u8>)>, name: &Vec<u8>) -> (r: Option<usize>)
    ensures
        match section_body(views2(secs@), name@) {
            None => r is None,
            Some(b) => r matches Some(ix) && ix < secs@.len() && secs@[ix as int].1@ == b,
        },
{
    let ghost vs = views2(secs@);
    let mut best: Option<usize> = None;
    let mut i: usize = 0;
    while i < secs.len()
        invariant
            vs == views2(secs@),
            vs.len() == secs@.len(),
            0 <= i <= secs@.len(),
            forall|k: int|
                0 <= k < vs.len() ==> #[trigger] vs[k] == (secs@[k].0@, secs@[k].1@),
            match section_body(vs.take(i as int), name@) {
                None => best is None,
                Some(b) => best matches Some(ix) && ix < i && secs@[ix as int].1@ == b,
            },
        decreases secs@.len() - i,
    {
        proof {
            assert(vs.take(i as int + 1).drop_last() =~= vs.take(i as int));
            assert(vs.take(i as int + 1).last() == vs[i as int]);
        }
        if bytes_eq(secs[i].0.as_slice(), name.as_slice()) {
            best = Some(i);
        }
        i = i + 1;
    }
    proof {
        assert(vs.take(vs.len() as int) =~= vs);
    }
    best
}

/// Index of the last pair with the given key.
fn find_last_key(pairs: &Vec<(Vec<u8>, Vec<u8>)>, key: &[u8]) -> (r: Option<usize>)
    ensures
        match last_value(views2(pairs@), key@) {
            None => r is None,
            Some(v) => r matches Some(ix) && ix < pairs@.len() && pairs@[ix as int].1@ == v,
        },
{
    let ghost vs = views2(pairs@);
    let mut best: Option<usize> = None;
    let mut i: usize = 0;
    while i < pairs.len()
        invariant
            vs == views2(pairs@),
            vs.len() == pairs@.len(),
            0 <= i <= pairs@.len(),
            forall|k: int|
                0 <= k < vs.len() ==> #[trigger] vs[k] == (pairs@[k].0@, pairs@[k].1@),
            match last_value(vs.take(i as int), key@) {
                None => best is None,
                Some(v) => best matches Some(ix) && ix < i && pairs@[ix as int].1@ == v,
            },
        decreases pairs@.len() - i,
    {
        proof {
            assert(vs.take(i as int + 1).drop_last() =~= vs.take(i as int));
            assert(vs.take(i as int + 1).last() == vs[i as int]);
        }
        if bytes_eq(pairs[i].0.as_slice(), key) {
            best = Some(i);
        }
        i = i + 1;
    }
    proof {
        assert(vs.take(vs.len() as int) =~= vs);
    }
    best
}

/// The resolution a song body's pairs declare.
fn resolution_from_pairs(pairs: &Vec<(Vec<u8>, Vec<u8>)>) -> (r: u16)
    ensures
        r == resolution_from(views2(pairs@)),
{
    match find_last_key(pairs, "Resolution".as_bytes()) {
        None => 480,
        Some(ix) => {
            match parse_u16_bytes(&pairs[ix].1) {
                Some(v) => if v >= 1 {
                    v
                } else {
                    480
                },
                None => 480,
            }
        },
    }
}

/// Collapses duplicate keys, last value winning, first slot kept.
fn dedup_pairs_x(pairs: &Vec<(Vec<u8>, Vec<u8>)>) -> (r: Vec<(Vec<u8>, Vec<u8>)>)
    ensures
        views2(r@) =~= dedup_pairs(views2(pairs@)),
{
    let ghost vs = views2(pairs@);
    let mut acc: Vec<(Vec<u8>, Vec<u8>)> = Vec::new();
    let mut i: usize = 0;
    while i < pairs.len()
        invariant
            vs == views2(pairs@),
            vs.len() == pairs@.len(),
            0 <= i <= pairs@.len(),
            forall|k: int|
                0 <= k < vs.len() ==> #[trigger] vs[k] == (pairs@[k].0@, pairs@[k].1@),
            views2(acc@) =~= dedup_pairs(vs.take(i as int)),
        decreases pairs@.len() - i,
    {
        proof {
            assert(vs.take(i as int + 1).drop_last() =~= vs.take(i as int));
            assert(vs.take(i as int + 1).last() == vs[i as int]);
        }
        let kv = (clone_bytes(&pairs[i].0), clone_bytes(&pairs[i].1));
        let ghost pre = acc@;
        // find the first slot already keyed like this pair
        let mut found: Option<usize> = None;
        let mut j: usize = 0;
        while j < acc.len() && found.is_none()
            invariant
                0 <= j <= acc@.len(),
                found is None ==> key_index_from(views2(acc@), kv.0@, 0) == key_index_from(
                    views2(acc@),
                    kv.0@,
                    j as int,
                ),
                found matches Some(jj) ==> jj < acc@.len() && key_index_from(
                    views2(acc@),
                    kv.0@,
                    0,
                ) == jj as int,
                kv.0@ == vs[i as int].0,
                acc@.len() == views2(acc@).len(),
                forall|k: int|
                    0 <= k < acc@.len() ==> #[trigger] views2(acc@)[k] == (acc@[k].0@,
                    acc@[k].1@),
            decreases acc@.len() - j,
        {
            if bytes_eq(acc[j].0.as_slice(), kv.0.as_slice()) {
                found = Some(j);
            }
            j = j + 1;
        }
        match found {
            None => {
                acc.push(kv);
                proof {
                    assert(key_index_from(views2(pre), vs[i as int].0, 0) < 0);
                    assert(views2(acc@) =~= views2(pre).push(vs[i as int]));
                    assert(views2(acc@) =~= dedup_pairs(vs.take(i as int + 1)));
                }
            },
            Some(jj) => {
                acc.set(jj, kv);
                proof {
                    assert(views2(acc@) =~= views2(pre).update(jj as int, vs[i as int]));
                    assert(views2(acc@) =~= dedup_pairs(vs.take(i as int + 1)));
                }
            },
        }
        i = i + 1;
    }
    proof {
        assert(vs.take(vs.len() as int) =~= vs);
    }
    acc
}

/// The first three whitespace-separated tokens of a value.
fn tokens3(v: &Vec<u8>) -> (r: (Vec<u8>, Vec<u8>, Vec<u8>))
    ensures
        r.0@ =~= token1(v@),
        r.1@ =~= token2(v@),
        r.2@ =~= token3(v@),
{
    let s = v.as_slice();
    let a1 = skip_ws_x(s, 0);
    let b1 = scan_tok_end_x(s, a1);
    let a2 = skip_ws_x(s, b1);
    let b2 = scan_tok_end_x(s, a2);
    let a3 = skip_ws_x(s, b2);
    let b3 = scan_tok_end_x(s, a3);
    (bytes_range(s, a1, b1), bytes_range(s, a2, b2), bytes_range(s, a3, b3))
}

/// If a prefix of the sync pairs fails, the whole list fails.
proof fn lemma_sync_prefix_none(pairs: Seq<(Seq<u8>, Seq<u8>)>, m: int)
    requires
        0 <= m <= pairs.len(),
        sync_from_pairs(pairs.take(m)) is None,
    ensures
        sync_from_pairs(pairs) is None,
    decreases pairs.len() - m,
{
    if m < pairs.len() {
        assert(pairs.take(m + 1).drop_last() =~= pairs.take(m));
        lemma_sync_prefix_none(pairs, m + 1);
    } else {
        assert(pairs.take(m) =~= pairs);
    }
}

/// If a prefix of a guitar track's pairs fails, the whole list fails.
proof fn lemma_guitar_prefix_none(pairs: Seq<(Seq<u8>, Seq<u8>)>, m: int)
    requires
        0 <= m <= pairs.len(),
        guitar_from_pairs(pairs.take(m)) is None,
    ensures
        guitar_from_pairs(pairs) is None,
    decreases pairs.len() - m,
{
    if m < pairs.len() {
        assert(pairs.take(m + 1).drop_last() =~= pairs.take(m));
        lemma_guitar_prefix_none(pairs, m + 1);
    } else {
        assert(pairs.take(m) =~= pairs);
    }
}

/// Interprets (deduplicated) sync pairs into sync events.
fn sync_events_from_pairs(pairs: &Vec<(Vec<u8>, Vec<u8>)>) -> (r: Option<Vec<SyncEvent>>)
    ensures
        match sync_from_pairs(views2(pairs@)) {
            None => r is None,
            Some(es) => r matches Some(v) && v@ =~= es,
        },
{
    let ghost vs = views2(pairs@);
    let mut out: Vec<SyncEvent> = Vec::new();
    let mut i: usize = 0;
    while i < pairs.len()
        invariant
            vs == views2(pairs@),
            vs.len() == pairs@.len(),
            0 <= i <= pairs@.len(),
            forall|k: int|
                0 <= k < vs.len() ==> #[trigger] vs[k] == (pairs@[k].0@, pairs@[k].1@),
            sync_from_pairs(vs.take(i as int)) matches Some(es) && out@ =~= es,
        decreases pairs@.len() - i,
    {
        proof {
            assert(vs.take(i as int + 1).drop_last() =~= vs.take(i as int));
            assert(vs.take(i as int + 1).last() == vs[i as int]);
        }
        let pos = match parse_u64_bytes(&pairs[i].0) {
            Some(p) => p,
            None => {
                proof {
                    assert(sync_from_pairs(vs.take(i as int + 1)) is None);
                    lemma_sync_prefix_none(vs, i as int + 1);
                }
                return None;
            },
        };
        let (t1, t2, _t3) = tokens3(&pairs[i].1);
        let v = match parse_u32_bytes(&t2) {
            Some(x) => x,
            None => 0,
        };
        if bytes_eq(t1.as_slice(), "B".as_bytes()) {
            out.push(SyncEvent { pos, pos_units: 0, value: SyncEventType::Beat(v) });
        } else if bytes_eq(t1.as_slice(), "TS".as_bytes()) {
            out.push(
                SyncEvent { pos, pos_units: 0, value: SyncEventType::TimeSignature(v, None) },
            );
        }
        i = i + 1;
    }
    proof {
        assert(vs.take(vs.len() as int) =~= vs);
    }
    Some(out)
}

/// Interprets a guitar section's pairs into guitar events.
fn guitar_events_from_pairs(pairs: &Vec<(Vec<u8>, Vec<u8>)>) -> (r: Option<Vec<GuitarEvent>>)
    ensures
        match guitar_from_pairs(views2(pairs@)) {
            None => r is None,
            Some(es) => r matches Some(v) && v@ =~= es,
        },
{
    let ghost vs = views2(pairs@);
    let mut out: Vec<GuitarEvent> = Vec::new();
    let mut i: usize = 0;
    while i < pairs.len()
        invariant
            vs == views2(pairs@),
            vs.len() == pairs@.len(),
            0 <= i <= pairs@.len(),
            forall|k: int|
                0 <= k < vs.len() ==> #[trigger] vs[k] == (pairs@[k].0@, pairs@[k].1@),
            guitar_from_pairs(vs.take(i as int)) matches Some(es) && out@ =~= es,
        decreases pairs@.len() - i,
    {
        proof {
            assert(vs.take(i as int + 1).drop_last() =~= vs.take(i as int));
            assert(vs.take(i as int + 1).last() == vs[i as int]);
        }
        let pos = match parse_u64_bytes(&pairs[i].0) {
            Some(p) => p,
            None => {
                proof {
                    assert(guitar_from_pairs(vs.take(i as int + 1)) is None);
                    lemma_guitar_prefix_none(vs, i as int + 1);
                }
                return None;
            },
        };
        let (t1, t2, t3) = tokens3(&pairs[i].1);
        let v1 = match parse_u32_bytes(&t2) {
            Some(x) => x,
            None => 0,
        };
        let v2 = match parse_u32_bytes(&t3) {
            Some(x) => x,
            None => 0,
        };
        if bytes_eq(t1.as_slice(), "N".as_bytes()) && v1 <= 7 {
            let value = if v1 <= 4 {
                GuitarEventType::Note(v1)
            } else if v1 == 5 {
                GuitarEventType::Forced
            } else if v1 == 6 {
                GuitarEventType::Tap
            } else {
                GuitarEventType::Open
            };
            out.push(
                GuitarEvent { pos, pos_units: 0, length: v2 as u64, length_units: 0, value },
            );
        } else if bytes_eq(t1.as_slice(), "S".as_bytes()) && v1 == 2 {
            out.push(
                GuitarEvent {
                    pos,
                    pos_units: 0,
                    length: v2 as u64,
                    length_units: 0,
                    value: GuitarEventType::Starpower,
                },
            );
        }
        i = i + 1;
    }
    proof {
        assert(vs.take(vs.len() as int) =~= vs);
    }
    Some(out)
}

/// The section name of track slot `i`, as a string and as bytes.
pub(crate) fn track_name_x(i: usize) -> (r: (String, Vec<u8>))
    requires
        i < 12,
    ensures
        r.0@ == track_name_chars(i as int),
        r.1@ == track_name_bytes(i as int),
{
    if i == 0 {
        ("EasySingle".to_owned(), "EasySingle".as_bytes_vec())
    } else if i == 1 {
        ("MediumSingle".to_owned(), "MediumSingle".as_bytes_vec())
    } else if i == 2 {
        ("HardSingle".to_owned(), "HardSingle".as_bytes_vec())
    } else if i == 3 {
        ("ExpertSingle".to_owned(), "ExpertSingle".as_bytes_vec())
    } else if i == 4 {
        ("EasyDoubleBass".to_owned(), "EasyDoubleBass".as_bytes_vec())
    } else if i == 5 {
        ("MediumDoubleBass".to_owned(), "MediumDoubleBass".as_bytes_vec())
    } else if i == 6 {
        ("HardDoubleBass".to_owned(), "HardDoubleBass".as_bytes_vec())
    } else if i == 7 {
        ("ExpertDoubleBass".to_owned(), "ExpertDoubleBass".as_bytes_vec())
    } else if i == 8 {
        ("EasyDoubleRhythm".to_owned(), "EasyDoubleRhythm".as_bytes_vec())
    } else if i == 9 {
        ("MediumDoubleRhythm".to_owned(), "MediumDoubleRhythm".as_bytes_vec())
    } else if i == 10 {
        ("HardDoubleRhythm".to_owned(), "HardDoubleRhythm".as_bytes_vec())
    } else {
        ("ExpertDoubleRhythm".to_owned(), "ExpertDoubleRhythm".as_bytes_vec())
    }
}

/// Parses a chart-notation text into a `SongChart` (positions not yet
/// annotated with real time; see `SongChart::update_realtime_positions`).
///
/// The result and each failure are fixed by the grammar: a text that is
/// not a sequence of sections fails the initial parse; a missing or
/// uninterpretable `Song` or `SyncTrack` section, and an uninterpretable
/// difficulty/instrument section, each fail with their section's error;
/// a missing difficulty/instrument section merely yields no track.
pub fn parse_chart(text: &str) -> (r: Result<SongChart, ChartParseError>)
    ensures
        ({
            let s = text.spec_bytes();
            match lex_sections_from(s, 0) {
                None => r matches Err(e) && e is InitialParseFail,
                Some(secs) => match song_resolution(secs) {
                    None => r matches Err(e) && e is CantParseSongSection,
                    Some(resol) => match sync_events_of(secs) {
                        None => r matches Err(e) && e is CantParseSyncTrackSection,
                        Some(es) => {
                            let bad = first_bad_track(secs, 0);
                            if bad >= 0 {
                                r matches Err(e) && e matches ChartParseError::CantParseGuitarBassTrackSection {
                                    track_name,
                                } && track_name@ == track_name_chars(bad)
                            } else {
                                r matches Ok(chart) && {
                                    &&& chart.resolution == resol
                                    &&& chart.resolution >= 1
                                    &&& chart.sync_track.events@ =~= es
                                    &&& chart.guitar_tracks@.len() == present_tracks(
                                        secs,
                                        12,
                                    ).len()
                                    &&& forall|k: int|
                                        0 <= k < present_tracks(secs, 12).len() ==> {
                                            let ti = present_tracks(secs, 12)[k];
                                            &&& (#[trigger] chart.guitar_tracks@[k]).name@
                                                == track_name_chars(ti)
                                            &&& guitar_section_result(secs, track_name_bytes(ti))
                                                matches Some(Some(evs))
                                                && chart.guitar_tracks@[k].events@ =~= evs
                                        }
                                }
                            }
                        },
                    },
                },
            }
        }),
{
    let sb: &[u8] = text.as_bytes();
    let secs = match lex_sections(sb) {
        Some(v) => v,
        None => {
            return Err(ChartParseError::InitialParseFail);
        },
    };
    let ghost sv = lex_sections_from(text.spec_bytes(), 0)->Some_0;

    // the [Song] section: resolution
    let song_name = "Song".as_bytes_vec();
    let resolution: u16;
    match find_section(&secs, &song_name) {
        None => {
            return Err(ChartParseError::CantParseSongSection);
        },
        Some(ix) => {
            match lex_pairs(&secs[ix].1) {
                None => {
                    return Err(ChartParseError::CantParseSongSection);
                },
                Some(ps) => {
                    resolution = resolution_from_pairs(&ps);
                },
            }
        },
    }

    proof {
        assert(song_resolution(sv) matches Some(rr) && rr == resolution);
    }

    // the [SyncTrack] section: tempo and time-signature events
    let sync_name = "SyncTrack".as_bytes_vec();
    let sync_events: Vec<SyncEvent>;
    match find_section(&secs, &sync_name) {
        None => {
            return Err(ChartParseError::CantParseSyncTrackSection);
        },
        Some(ix) => {
            match lex_pairs(&secs[ix].1) {
                None => {
                    return Err(ChartParseError::CantParseSyncTrackSection);
                },
                Some(ps) => {
                    let deduped = dedup_pairs_x(&ps);
                    match sync_events_from_pairs(&deduped) {
                        None => {
                            return Err(ChartParseError::CantParseSyncTrackSection);
                        },
                        Some(es) => {
                            sync_events = es;
                        },
                    }
                },
            }
        },
    }

    proof {
        assert(sync_events_of(sv) matches Some(ee) && ee =~= sync_events@);
    }

    // the difficulty/instrument sections
    let mut guitar_tracks: Vec<GuitarTrack> = Vec::new();
    let mut t: usize = 0;
    while t < 12
        invariant
            sv == lex_sections_from(text.spec_bytes(), 0)->Some_0,
            lex_sections_from(text.spec_bytes(), 0) is Some,
            views2(secs@) =~= sv,
            secs@.len() == sv.len(),
            song_resolution(sv) matches Some(rr) && rr == resolution,
            sync_events_of(sv) matches Some(ee) && ee =~= sync_events@,
            0 <= t <= 12,
            first_bad_track(sv, 0) == first_bad_track(sv, t as int),
            guitar_tracks@.len() == present_tracks(sv, t as int).len(),
            forall|k: int|
                0 <= k < present_tracks(sv, t as int).len() ==> {
                    let ti = present_tracks(sv, t as int)[k];
                    &&& (#[trigger] guitar_tracks@[k]).name@ == track_name_chars(ti)
                    &&& guitar_section_result(sv, track_name_bytes(ti)) matches Some(Some(evs))
                        && guitar_tracks@[k].events@ =~= evs
                },
        decreases 12 - t,
    {
        let (nm, nb) = track_name_x(t);
        let ghost pre = guitar_tracks@;
        match find_section(&secs, &nb) {
            None => {
                proof {
                    assert(present_tracks(sv, t as int + 1) =~= present_tracks(sv, t as int));
                }
            },
            Some(ix) => {
                let evs = match lex_pairs(&secs[ix].1) {
                    None => {
                        proof {
                            assert(guitar_section_result(sv, track_name_bytes(t as int))
                                matches Some(None));
                            assert(first_bad_track(sv, t as int) == t as int);
                        }
                        return Err(
                            ChartParseError::CantParseGuitarBassTrackSection { track_name: nm },
                        );
                    },
                    Some(ps) => {
                        match guitar_events_from_pairs(&ps) {
                            None => {
                                proof {
                                    assert(guitar_section_result(sv, track_name_bytes(t as int))
                                        matches Some(None));
                                    assert(first_bad_track(sv, t as int) == t as int);
                                }
                                return Err(
                                    ChartParseError::CantParseGuitarBassTrackSection {
                                        track_name: nm,
                                    },
                                );
                            },
                            Some(es) => es,
                        }
                    },
                };
                guitar_tracks.push(GuitarTrack { name: nm, events: evs });
                proof {
                    assert(present_tracks(sv, t as int + 1) =~= present_tracks(
                        sv,
                        t as int,
                    ).push(t as int));
                }
            },
        }
        t = t + 1;
    }

    Ok(SongChart { resolution, sync_track: SyncTrack { events: sync_events }, guitar_tracks })
}

} // verus!
