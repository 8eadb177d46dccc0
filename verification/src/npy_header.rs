//! Reading the header of a `.npy` file: the grammar of its dictionary text and the checks that
//! tie the preamble, the text and the expected record fields together.
//!
//! The dictionary is a Python literal with the keys `descr` (a list of `(name, type)` string
//! pairs), `fortran_order` (`True` or `False`) and `shape` (a tuple of integers), in any order,
//! each at most once in effect (a later entry overrides an earlier one); a missing key keeps its
//! default (no fields, C order, no dimensions). Strings are single-quoted without escapes;
//! whitespace may stand around every token, and a trailing comma may end each list, tuple and
//! the dictionary.
use vstd::prelude::*;
use vstd::utf8::{decode_utf8, valid_utf8};
use vstd::string::StringSliceAdditionalSpecFns;

use crate::npy::{
    npy_header_end, spec_header_end, types_agree, validate_npy_header, Field, NpyError, NpyHeader,
    CACHE_LINE_SIZE,
};
use crate::text::{chars_equal, chars_of};

verus! {

pub open spec fn is_space(c: char) -> bool {
    c == ' ' || c == '\t' || c == '\n' || c == '\r'
}

pub open spec fn is_digit(c: char) -> bool {
    '0' <= c && c <= '9'
}

/// Position `i` holds the character `c`.
pub open spec fn at(s: Seq<char>, i: int, c: char) -> bool {
    0 <= i < s.len() && s[i] == c
}

/// The first position at or after `i` that is not whitespace.
pub open spec fn ws_end(s: Seq<char>, i: int) -> int
    decreases s.len() - i,
{
    if 0 <= i < s.len() && is_space(s[i]) {
        ws_end(s, i + 1)
    } else {
        i
    }
}

/// The first position at or after `i` that holds a quote.
pub open spec fn quote_end(s: Seq<char>, i: int) -> int
    decreases s.len() - i,
{
    if 0 <= i < s.len() && s[i] != '\'' {
        quote_end(s, i + 1)
    } else {
        i
    }
}

/// The first position at or after `i` that is not a digit.
pub open spec fn digits_end(s: Seq<char>, i: int) -> int
    decreases s.len() - i,
{
    if 0 <= i < s.len() && is_digit(s[i]) {
        digits_end(s, i + 1)
    } else {
        i
    }
}

/// The value of the decimal digits at `[a, b)`.
pub open spec fn digits_value(s: Seq<char>, a: int, b: int) -> nat
    decreases b - a,
{
    if b <= a {
        0
    } else {
        digits_value(s, a, b - 1) * 10 + ((s[b - 1] as u32) - 48) as nat
    }
}

/// A single-quoted string at `i`: its text and the position after it.
pub open spec fn quoted(s: Seq<char>, i: int) -> Option<(Seq<char>, int)> {
    if at(s, i, '\'') {
        let q = quote_end(s, i + 1);
        if q < s.len() {
            Some((s.subrange(i + 1, q), q + 1))
        } else {
            None
        }
    } else {
        None
    }
}

/// An integer at `i` that fits a `usize`, and the position after it.
pub open spec fn number(s: Seq<char>, i: int) -> Option<(usize, int)> {
    let e = digits_end(s, i);
    if e > i && digits_value(s, i, e) <= usize::MAX {
        Some((digits_value(s, i, e) as usize, e))
    } else {
        None
    }
}

/// A record field `(name, type)` at `i`, a comma allowed before the closing parenthesis.
pub open spec fn field(s: Seq<char>, i: int) -> Option<((Seq<char>, Seq<char>), int)> {
    if !at(s, i, '(') {
        None
    } else {
        match quoted(s, ws_end(s, i + 1)) {
            None => None,
            Some((name, j)) => {
                let k = ws_end(s, j);
                if !at(s, k, ',') {
                    None
                } else {
                    match quoted(s, ws_end(s, k + 1)) {
                        None => None,
                        Some((ty, m)) => {
                            let n = ws_end(s, m);
                            let p = if at(s, n, ',') { ws_end(s, n + 1) } else { n };
                            if at(s, p, ')') {
                                Some(((name, ty), p + 1))
                            } else {
                                None
                            }
                        },
                    }
                }
            },
        }
    }
}

/// The fields of a list from `i` (past its bracket and whitespace) to its closing bracket,
/// after `acc`, and the position after the bracket.
pub open spec fn fields_after(s: Seq<char>, i: int, acc: Seq<(Seq<char>, Seq<char>)>) -> Option<(Seq<(Seq<char>, Seq<char>)>, int)>
    decreases s.len() - i,
{
    if at(s, i, ']') {
        Some((acc, i + 1))
    } else {
        match field(s, i) {
            None => None,
            Some((f, j)) => {
                let k = ws_end(s, j);
                if at(s, k, ']') {
                    Some((acc.push(f), k + 1))
                } else if at(s, k, ',') {
                    let m = ws_end(s, k + 1);
                    if i < m <= s.len() {
                        fields_after(s, m, acc.push(f))
                    } else {
                        None
                    }
                } else {
                    None
                }
            },
        }
    }
}

/// The integers of a tuple from `i` (past its parenthesis and whitespace) to its closing
/// parenthesis, after `acc`, and the position after the parenthesis.
pub open spec fn dims_after(s: Seq<char>, i: int, acc: Seq<usize>) -> Option<(Seq<usize>, int)>
    decreases s.len() - i,
{
    if at(s, i, ')') {
        Some((acc, i + 1))
    } else {
        match number(s, i) {
            None => None,
            Some((n, j)) => {
                let k = ws_end(s, j);
                if at(s, k, ')') {
                    Some((acc.push(n), k + 1))
                } else if at(s, k, ',') {
                    let m = ws_end(s, k + 1);
                    if i < m <= s.len() {
                        dims_after(s, m, acc.push(n))
                    } else {
                        None
                    }
                } else {
                    None
                }
            },
        }
    }
}

/// What a header dictionary holds.
pub struct HeaderView {
    pub descr: Seq<(Seq<char>, Seq<char>)>,
    pub fortran_order: bool,
    pub shape: Seq<usize>,
}

pub open spec fn default_view() -> HeaderView {
    HeaderView { descr: Seq::empty(), fortran_order: false, shape: Seq::empty() }
}

pub open spec fn fields_view(fields: Seq<Field>) -> Seq<(Seq<char>, Seq<char>)> {
    fields.map_values(|f: Field| (f.name@, f.ty@))
}

pub open spec fn header_view(h: NpyHeader) -> HeaderView {
    HeaderView { descr: fields_view(h.descr@), fortran_order: h.fortran_order, shape: h.shape@ }
}

pub open spec fn descr_key() -> Seq<char> {
    seq!['d', 'e', 's', 'c', 'r']
}

pub open spec fn fortran_key() -> Seq<char> {
    seq!['f', 'o', 'r', 't', 'r', 'a', 'n', '_', 'o', 'r', 'd', 'e', 'r']
}

pub open spec fn shape_key() -> Seq<char> {
    seq!['s', 'h', 'a', 'p', 'e']
}

pub open spec fn true_text() -> Seq<char> {
    seq!['T', 'r', 'u', 'e']
}

pub open spec fn false_text() -> Seq<char> {
    seq!['F', 'a', 'l', 's', 'e']
}

/// The text `t` stands at position `i`.
pub open spec fn lit(s: Seq<char>, i: int, t: Seq<char>) -> bool {
    0 <= i && i + t.len() <= s.len() && s.subrange(i, i + t.len()) == t
}

/// The value of `key` at `i`, written into `acc`, and the position after it.
pub open spec fn value(s: Seq<char>, i: int, key: Seq<char>, acc: HeaderView) -> Option<(HeaderView, int)> {
    if key == descr_key() {
        if at(s, i, '[') {
            match fields_after(s, ws_end(s, i + 1), Seq::empty()) {
                Some((fs, j)) => Some((HeaderView { descr: fs, fortran_order: acc.fortran_order, shape: acc.shape }, j)),
                None => None,
            }
        } else {
            None
        }
    } else if key == fortran_key() {
        if lit(s, i, true_text()) {
            Some((HeaderView { descr: acc.descr, fortran_order: true, shape: acc.shape }, i + 4))
        } else if lit(s, i, false_text()) {
            Some((HeaderView { descr: acc.descr, fortran_order: false, shape: acc.shape }, i + 5))
        } else {
            None
        }
    } else if key == shape_key() {
        if at(s, i, '(') {
            match dims_after(s, ws_end(s, i + 1), Seq::empty()) {
                Some((d, j)) => Some((HeaderView { descr: acc.descr, fortran_order: acc.fortran_order, shape: d }, j)),
                None => None,
            }
        } else {
            None
        }
    } else {
        None
    }
}

/// The entries of the dictionary from `i` (at a key) to its closing brace, written into `acc`
/// in order, and the position after the brace.
pub open spec fn entries_after(s: Seq<char>, i: int, acc: HeaderView) -> Option<(HeaderView, int)>
    decreases s.len() - i,
{
    match quoted(s, i) {
        None => None,
        Some((key, j)) => {
            let k = ws_end(s, j);
            if !at(s, k, ':') {
                None
            } else {
                match value(s, ws_end(s, k + 1), key, acc) {
                    None => None,
                    Some((v, m)) => {
                        let n = ws_end(s, m);
                        if at(s, n, '}') {
                            Some((v, n + 1))
                        } else if at(s, n, ',') {
                            let p = ws_end(s, n + 1);
                            if at(s, p, '}') {
                                Some((v, p + 1))
                            } else if i < p <= s.len() {
                                entries_after(s, p, v)
                            } else {
                                None
                            }
                        } else {
                            None
                        }
                    },
                }
            }
        },
    }
}

/// What a header text holds, if it is a header dictionary with nothing but whitespace around it.
pub open spec fn parse_header_chars(s: Seq<char>) -> Option<HeaderView> {
    let i = ws_end(s, 0);
    if !at(s, i, '{') {
        None
    } else {
        let j = ws_end(s, i + 1);
        let r = if at(s, j, '}') {
            Some((default_view(), j + 1))
        } else {
            entries_after(s, j, default_view())
        };
        match r {
            Some((v, e)) => if ws_end(s, e) == s.len() {
                Some(v)
            } else {
                None
            },
            None => None,
        }
    }
}

/// What the header bytes hold: they must be UTF-8 and a header dictionary.
pub open spec fn spec_parse_header(bytes: Seq<u8>) -> Result<HeaderView, NpyError> {
    if !valid_utf8(bytes) {
        Err(NpyError::InvalidHeader)
    } else {
        match parse_header_chars(decode_utf8(bytes)) {
            Some(v) => Ok(v),
            None => Err(NpyError::InvalidHeader),
        }
    }
}


fn at_char(s: &Vec<char>, i: usize, c: char) -> (r: bool)
    ensures
        r == at(s@, i as int, c),
{
    i < s.len() && s[i] == c
}

fn skip_ws(s: &Vec<char>, i: usize) -> (r: usize)
    requires
        i <= s.len(),
    ensures
        r == ws_end(s@, i as int),
        i <= r <= s.len(),
{
    let mut k = i;
    while k < s.len() && (s[k] == ' ' || s[k] == '\t' || s[k] == '\n' || s[k] == '\r')
        invariant
            i <= k <= s.len(),
            ws_end(s@, k as int) == ws_end(s@, i as int),
        decreases s.len() - k,
    {
        k = k + 1;
    }
    k
}

fn chars_between(s: &Vec<char>, a: usize, b: usize) -> (r: String)
    requires
        a <= b <= s.len(),
    ensures
        r@ == s@.subrange(a as int, b as int),
{
    let mut out = String::new();
    let mut k = a;
    while k < b
        invariant
            a <= k <= b,
            b <= s.len(),
            out@ == s@.subrange(a as int, k as int),
        decreases b - k,
    {
        out.push(s[k]);
        k = k + 1;
        assert(out@ =~= s@.subrange(a as int, k as int));
    }
    out
}

fn quoted_at(s: &Vec<char>, i: usize) -> (r: Option<(String, usize)>)
    requires
        i <= s.len(),
    ensures
        match quoted(s@, i as int) {
            None => r is None,
            Some((t, j)) => r matches Some((st, k)) && st@ == t && k == j && k <= s.len(),
        },
{
    if !at_char(s, i, '\'') {
        return None;
    }
    let mut q = i + 1;
    while q < s.len() && s[q] != '\''
        invariant
            i + 1 <= q <= s.len(),
            quote_end(s@, q as int) == quote_end(s@, i + 1),
        decreases s.len() - q,
    {
        q = q + 1;
    }
    if q >= s.len() {
        return None;
    }
    let t = chars_between(s, i + 1, q);
    Some((t, q + 1))
}

fn number_at(s: &Vec<char>, i: usize) -> (r: Option<(usize, usize)>)
    requires
        i <= s.len(),
    ensures
        match number(s@, i as int) {
            None => r is None,
            Some((n, j)) => r == Some((n, j as usize)) && j <= s.len(),
        },
{
    let mut k = i;
    let mut value: usize = 0;
    let mut over = false;
    while k < s.len() && '0' <= s[k] && s[k] <= '9'
        invariant
            i <= k <= s.len(),
            digits_end(s@, k as int) == digits_end(s@, i as int),
            !over ==> value == digits_value(s@, i as int, k as int),
            over ==> digits_value(s@, i as int, k as int) > usize::MAX,
        decreases s.len() - k,
    {
        let d = (s[k] as u32 - 48) as usize;
        assert(digits_value(s@, i as int, k + 1) == digits_value(s@, i as int, k as int) * 10 + d);
        if !over {
            match value.checked_mul(10) {
                Some(t) => match t.checked_add(d) {
                    Some(u) => {
                        value = u;
                    },
                    None => {
                        over = true;
                    },
                },
                None => {
                    over = true;
                },
            }
        }
        k = k + 1;
    }
    if k == i || over {
        return None;
    }
    Some((value, k))
}


fn field_at(s: &Vec<char>, i: usize) -> (r: Option<(Field, usize)>)
    requires
        i <= s.len(),
    ensures
        match field(s@, i as int) {
            None => r is None,
            Some((f, j)) => r matches Some((fd, k)) && (fd.name@, fd.ty@) == f && k == j && k <= s.len(),
        },
{
    if !at_char(s, i, '(') {
        return None;
    }
    let (name, j) = match quoted_at(s, skip_ws(s, i + 1)) {
        None => return None,
        Some(p) => p,
    };
    let k = skip_ws(s, j);
    if !at_char(s, k, ',') {
        return None;
    }
    let (ty, m) = match quoted_at(s, skip_ws(s, k + 1)) {
        None => return None,
        Some(p) => p,
    };
    let n = skip_ws(s, m);
    let p = if at_char(s, n, ',') { skip_ws(s, n + 1) } else { n };
    if at_char(s, p, ')') {
        Some((Field { name, ty }, p + 1))
    } else {
        None
    }
}

fn fields_from(s: &Vec<char>, i: usize, acc: &mut Vec<Field>) -> (r: Option<usize>)
    requires
        i <= s.len(),
    ensures
        match fields_after(s@, i as int, fields_view(old(acc)@)) {
            None => r is None,
            Some((fs, e)) => r matches Some(x) && x == e && fields_view(final(acc)@) == fs,
        },
        r matches Some(x) ==> x <= s.len(),
    decreases s.len() - i,
{
    if at_char(s, i, ']') {
        return Some(i + 1);
    }
    let (f, j) = match field_at(s, i) {
        None => return None,
        Some(p) => p,
    };
    let ghost before = fields_view(acc@);
    acc.push(f);
    proof {
        assert(fields_view(acc@) =~= before.push((f.name@, f.ty@)));
    }
    let k = skip_ws(s, j);
    if at_char(s, k, ']') {
        return Some(k + 1);
    }
    if !at_char(s, k, ',') {
        return None;
    }
    let m = skip_ws(s, k + 1);
    if i < m {
        fields_from(s, m, acc)
    } else {
        None
    }
}

fn dims_from(s: &Vec<char>, i: usize, acc: &mut Vec<usize>) -> (r: Option<usize>)
    requires
        i <= s.len(),
    ensures
        match dims_after(s@, i as int, old(acc)@) {
            None => r is None,
            Some((d, e)) => r matches Some(x) && x == e && final(acc)@ == d,
        },
        r matches Some(x) ==> x <= s.len(),
    decreases s.len() - i,
{
    if at_char(s, i, ')') {
        return Some(i + 1);
    }
    let (n, j) = match number_at(s, i) {
        None => return None,
        Some(p) => p,
    };
    acc.push(n);
    let k = skip_ws(s, j);
    if at_char(s, k, ')') {
        return Some(k + 1);
    }
    if !at_char(s, k, ',') {
        return None;
    }
    let m = skip_ws(s, k + 1);
    if i < m {
        dims_from(s, m, acc)
    } else {
        None
    }
}

fn literal_at(s: &Vec<char>, i: usize, t: &Vec<char>) -> (r: bool)
    requires
        i <= s.len(),
    ensures
        r == lit(s@, i as int, t@),
{
    if t.len() > s.len() - i {
        return false;
    }
    let mut k: usize = 0;
    while k < t.len()
        invariant
            k <= t.len(),
            i + t.len() <= s.len(),
            forall|x: int| 0 <= x < k ==> s@[i + x] == t@[x],
        decreases t.len() - k,
    {
        if s[i + k] != t[k] {
            proof {
                if lit(s@, i as int, t@) {
                    assert(s@.subrange(i as int, i + t.len())[k as int] == s@[i + k]);
                }
            }
            return false;
        }
        k = k + 1;
    }
    assert(s@.subrange(i as int, i + t.len()) =~= t@);
    true
}

fn value_at(s: &Vec<char>, i: usize, key: &Vec<char>, acc: &mut NpyHeader) -> (r: Option<usize>)
    requires
        i <= s.len(),
    ensures
        match value(s@, i as int, key@, header_view(*old(acc))) {
            None => r is None,
            Some((v, e)) => r matches Some(x) && x == e && header_view(*final(acc)) == v,
        },
        r matches Some(x) ==> x <= s.len(),
{
    let descr: Vec<char> = vec!['d', 'e', 's', 'c', 'r'];
    let fortran: Vec<char> = vec!['f', 'o', 'r', 't', 'r', 'a', 'n', '_', 'o', 'r', 'd', 'e', 'r'];
    let shape: Vec<char> = vec!['s', 'h', 'a', 'p', 'e'];
    if chars_equal(key, &descr) {
        if !at_char(s, i, '[') {
            return None;
        }
        let mut fields: Vec<Field> = Vec::new();
        assert(fields_view(fields@) =~= Seq::<(Seq<char>, Seq<char>)>::empty());
        match fields_from(s, skip_ws(s, i + 1), &mut fields) {
            None => None,
            Some(j) => {
                acc.descr = fields;
                Some(j)
            },
        }
    } else if chars_equal(key, &fortran) {
        let t: Vec<char> = vec!['T', 'r', 'u', 'e'];
        let f: Vec<char> = vec!['F', 'a', 'l', 's', 'e'];
        if literal_at(s, i, &t) {
            acc.fortran_order = true;
            Some(i + 4)
        } else if literal_at(s, i, &f) {
            acc.fortran_order = false;
            Some(i + 5)
        } else {
            None
        }
    } else if chars_equal(key, &shape) {
        if !at_char(s, i, '(') {
            return None;
        }
        let mut dims: Vec<usize> = Vec::new();
        match dims_from(s, skip_ws(s, i + 1), &mut dims) {
            None => None,
            Some(j) => {
                acc.shape = dims;
                Some(j)
            },
        }
    } else {
        None
    }
}

fn entries_from(s: &Vec<char>, i: usize, acc: &mut NpyHeader) -> (r: Option<usize>)
    requires
        i <= s.len(),
    ensures
        match entries_after(s@, i as int, header_view(*old(acc))) {
            None => r is None,
            Some((v, e)) => r matches Some(x) && x == e && header_view(*final(acc)) == v,
        },
        r matches Some(x) ==> x <= s.len(),
    decreases s.len() - i,
{
    let (key, j) = match quoted_at(s, i) {
        None => return None,
        Some(p) => p,
    };
    let k = skip_ws(s, j);
    if !at_char(s, k, ':') {
        return None;
    }
    let key_chars = chars_of(key.as_str());
    let m = match value_at(s, skip_ws(s, k + 1), &key_chars, acc) {
        None => return None,
        Some(m) => m,
    };
    let n = skip_ws(s, m);
    if at_char(s, n, '}') {
        return Some(n + 1);
    }
    if !at_char(s, n, ',') {
        return None;
    }
    let p = skip_ws(s, n + 1);
    if at_char(s, p, '}') {
        return Some(p + 1);
    }
    if i < p {
        entries_from(s, p, acc)
    } else {
        None
    }
}

/// Reads a header dictionary: the bytes must be UTF-8 text that the header grammar accepts
/// (see the module's description), and the header holds what the dictionary says.
pub fn parse_npy_header(text: &[u8]) -> (r: Result<NpyHeader, NpyError>)
    ensures
        match spec_parse_header(text@) {
            Ok(v) => r matches Ok(h) && header_view(h) == v,
            Err(e) => r == Err::<NpyHeader, NpyError>(e),
        },
{
    let st = match crate::proxy::utf8_text(text) {
        None => return Err(NpyError::InvalidHeader),
        Some(st) => st,
    };
    proof {
        vstd::utf8::encode_utf8_decode_utf8(st@);
    }
    let s = chars_of(st);
    assert(s@ == decode_utf8(text@));
    let i = skip_ws(&s, 0);
    if !at_char(&s, i, '{') {
        return Err(NpyError::InvalidHeader);
    }
    let mut header = NpyHeader { descr: Vec::new(), fortran_order: false, shape: Vec::new() };
    assert(header_view(header) == default_view()) by {
        assert(fields_view(header.descr@) =~= Seq::<(Seq<char>, Seq<char>)>::empty());
        assert(header.shape@ =~= Seq::<usize>::empty());
    }
    let j = skip_ws(&s, i + 1);
    let e = if at_char(&s, j, '}') {
        j + 1
    } else {
        match entries_from(&s, j, &mut header) {
            None => return Err(NpyError::InvalidHeader),
            Some(e) => e,
        }
    };
    if skip_ws(&s, e) != s.len() {
        return Err(NpyError::InvalidHeader);
    }
    Ok(header)
}

/// The record fields `descr` (names and types) agree in number and, position by position, in
/// type with the expected fields.
pub open spec fn descr_agrees(expected: Seq<Field>, descr: Seq<(Seq<char>, Seq<char>)>) -> bool {
    &&& expected.len() == descr.len()
    &&& forall|i: int| 0 <= i < expected.len() ==> (#[trigger] expected[i]).ty@ == descr[i].1
}

/// A header that a reader of records with the expected fields accepts: C order, agreeing
/// fields, one dimension, and records that start on a cache line.
pub open spec fn header_accepted(expected: Seq<Field>, v: HeaderView, header_end: int) -> bool {
    &&& !v.fortran_order
    &&& descr_agrees(expected, v.descr)
    &&& v.shape.len() == 1
    &&& header_end % (CACHE_LINE_SIZE as int) == 0
}

/// Reads the header of a whole `.npy` file for records with the `expected` fields: checks the
/// preamble, decodes and parses the header text that it delimits, checks the header against the
/// fields, and returns where the record data starts together with the header.
pub fn read_npy_header(buf: &[u8], expected: &Vec<Field>) -> (r: Result<(usize, NpyHeader), NpyError>)
    ensures
        spec_header_end(buf@) matches Err(e) ==> r == Err::<(usize, NpyHeader), NpyError>(e),
        spec_header_end(buf@) matches Ok(end) ==> match spec_parse_header(
            buf@.subrange(10, end as int),
        ) {
            Err(e) => r == Err::<(usize, NpyHeader), NpyError>(e),
            Ok(v) => {
                &&& (r is Ok <==> header_accepted(expected@, v, end as int))
                &&& r matches Ok((n, h)) ==> n == end && header_view(h) == v
                &&& v.fortran_order ==> r == Err::<(usize, NpyHeader), NpyError>(NpyError::FortranOrder)
                &&& !v.fortran_order && expected.len() != v.descr.len() ==> r == Err::<
                    (usize, NpyHeader),
                    NpyError,
                >(NpyError::FieldCountMismatch)
                &&& (!v.fortran_order && expected.len() == v.descr.len() && !descr_agrees(
                    expected@,
                    v.descr,
                ) ==> r matches Err(NpyError::DtypeMismatch { .. }))
                &&& !v.fortran_order && descr_agrees(expected@, v.descr) && v.shape.len() != 1
                    ==> r == Err::<(usize, NpyHeader), NpyError>(NpyError::NotOneDimensional)
                &&& !v.fortran_order && descr_agrees(expected@, v.descr) && v.shape.len() == 1 && end
                    % CACHE_LINE_SIZE != 0 ==> r == Err::<(usize, NpyHeader), NpyError>(
                    NpyError::Misaligned,
                )
            },
        },
{
    let end = npy_header_end(buf)?;
    let text = vstd::slice::slice_subrange(buf, 10, end);
    let header = parse_npy_header(text)?;
    proof {
        let fv = fields_view(header.descr@);
        assert(forall|i: int| 0 <= i < fv.len() ==> #[trigger] fv[i] == (header.descr@[i].name@, header.descr@[i].ty@));
        if expected.len() == header.descr.len() {
            if types_agree(expected@, header.descr@, expected.len() as int) {
                assert forall|i: int| 0 <= i < expected.len() implies (#[trigger] expected@[i]).ty@ == fv[i].1 by {
                    assert(fv[i] == (header.descr@[i].name@, header.descr@[i].ty@));
                }
            }
            if descr_agrees(expected@, fv) {
                assert forall|i: int| 0 <= i < expected.len() implies (#[trigger] expected@[i]).ty@ == header.descr@[i].ty@ by {
                    assert(fv[i] == (header.descr@[i].name@, header.descr@[i].ty@));
                }
            }
        }
        assert(types_agree(expected@, header.descr@, expected.len() as int) && expected.len() == header.descr.len() <==> descr_agrees(expected@, fv));
    }
    validate_npy_header(expected, &header, end)?;
    Ok((end, header))
}

} // verus!
