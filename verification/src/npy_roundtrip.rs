//! What the reader makes of what the writer produces: the padded dictionary of a header reads
//! back as that header, and a whole written file reads back as its header and data, provided no
//! field name or type holds a quote.
use vstd::prelude::*;
use vstd::utf8::encode_utf8;

use crate::binance::decimal_digits;
use crate::npy::{
    bool_text, dict_text, dims_text, fields_text, padded_header_text, padded_text,
    padded_text_is_aligned, padded_text_is_longer, padding_for, spaces, le16, magic, npy_bytes,
    spec_header_end, Field, NpyError, NpyHeader,
};
use crate::npy_header::{
    at, descr_key, digits_end, digits_value, dims_after, entries_after, false_text, field,
    fields_after, fields_view, fortran_key, header_view, is_digit, is_space, lit, number,
    parse_header_chars, quote_end, quoted, shape_key, spec_parse_header, true_text, value, ws_end,
    HeaderView,
};

verus! {

/// The text holds no single quote.
pub open spec fn quote_free(t: Seq<char>) -> bool {
    forall|k: int| 0 <= k < t.len() ==> t[k] != '\''
}

/// No field name or type of the header holds a single quote.
pub open spec fn header_quote_free(h: NpyHeader) -> bool {
    forall|k: int|
        0 <= k < h.descr.len() ==> quote_free((#[trigger] h.descr@[k]).name@) && quote_free(
            h.descr@[k].ty@,
        )
}

proof fn lemma_lit_char(s: Seq<char>, i: int, t: Seq<char>, k: int)
    requires
        lit(s, i, t),
        0 <= k < t.len(),
    ensures
        s[i + k] == t[k],
{
    assert(s.subrange(i, i + t.len())[k] == s[i + k]);
}

proof fn lemma_lit_split(s: Seq<char>, i: int, a: Seq<char>, b: Seq<char>)
    requires
        lit(s, i, a + b),
    ensures
        lit(s, i, a),
        lit(s, i + a.len(), b),
{
    assert forall|k: int| 0 <= k < a.len() implies s.subrange(i, i + a.len())[k] == a[k] by {
        lemma_lit_char(s, i, a + b, k);
    }
    assert(s.subrange(i, i + a.len()) =~= a);
    assert forall|k: int| 0 <= k < b.len() implies s.subrange(i + a.len(), i + a.len() + b.len())[k]
        == b[k] by {
        lemma_lit_char(s, i, a + b, a.len() + k);
    }
    assert(s.subrange(i + a.len(), i + a.len() + b.len()) =~= b);
}

proof fn lemma_lit_concat(s: Seq<char>, i: int, a: Seq<char>, b: Seq<char>)
    requires
        lit(s, i, a),
        lit(s, i + a.len(), b),
    ensures
        lit(s, i, a + b),
{
    assert forall|k: int| 0 <= k < a.len() + b.len() implies s.subrange(i, i + a.len() + b.len())[k]
        == (a + b)[k] by {
        if k < a.len() {
            lemma_lit_char(s, i, a, k);
        } else {
            lemma_lit_char(s, i + a.len(), b, k - a.len());
        }
    }
    assert(s.subrange(i, i + a.len() + b.len()) =~= a + b);
}

proof fn lemma_quote_end(s: Seq<char>, a: int, b: int)
    requires
        0 <= a <= b < s.len(),
        s[b] == '\'',
        forall|k: int| a <= k < b ==> s[k] != '\'',
    ensures
        quote_end(s, a) == b,
    decreases b - a,
{
    if a < b {
        lemma_quote_end(s, a + 1, b);
    }
}

/// A quoted text without quotes reads back as that text.
proof fn lemma_quoted(s: Seq<char>, i: int, x: Seq<char>)
    requires
        lit(s, i, seq!['\''] + x + seq!['\'']),
        quote_free(x),
    ensures
        quoted(s, i) == Some((x, i + x.len() + 2)),
{
    lemma_lit_split(s, i, seq!['\''] + x, seq!['\'']);
    lemma_lit_split(s, i, seq!['\''], x);
    lemma_lit_char(s, i, seq!['\''], 0);
    lemma_lit_char(s, i + 1 + x.len(), seq!['\''], 0);
    assert forall|k: int| i + 1 <= k < i + 1 + x.len() implies s[k] != '\'' by {
        lemma_lit_char(s, i + 1, x, k - i - 1);
    }
    lemma_quote_end(s, i + 1, i + 1 + x.len());
    assert(s.subrange(i + 1, i + 1 + x.len()) == x);
}

proof fn lemma_digit_char(d: nat)
    requires
        d < 10,
    ensures
        is_digit(((48 + d) as nat) as char),
        !is_space(((48 + d) as nat) as char),
        ((((48 + d) as nat) as char) as u32) - 48 == d,
{
}

/// The decimal digits of `n` at `i`: all digits, of value `n`.
proof fn lemma_digits(s: Seq<char>, i: int, n: nat)
    requires
        lit(s, i, decimal_digits(n)),
    ensures
        decimal_digits(n).len() >= 1,
        forall|k: int| i <= k < i + decimal_digits(n).len() ==> is_digit(#[trigger] s[k]),
        digits_value(s, i, i + decimal_digits(n).len()) == n,
    decreases n,
{
    let d = decimal_digits(n);
    if n < 10 {
        lemma_digit_char(n);
        lemma_lit_char(s, i, d, 0);
        assert(digits_value(s, i, i) == 0);
    } else {
        let p = decimal_digits(n / 10);
        let c = ((48 + n % 10) as nat) as char;
        assert(d == p + seq![c]);
        lemma_lit_split(s, i, p, seq![c]);
        lemma_digits(s, i, n / 10);
        lemma_lit_char(s, i + p.len(), seq![c], 0);
        lemma_digit_char(n % 10);
        assert(digits_value(s, i, i + p.len() + 1) == digits_value(s, i, i + p.len()) * 10 + n % 10);
    }
}

proof fn lemma_digits_end(s: Seq<char>, a: int, b: int)
    requires
        0 <= a <= b < s.len(),
        forall|k: int| a <= k < b ==> is_digit(#[trigger] s[k]),
        !is_digit(s[b]),
    ensures
        digits_end(s, a) == b,
    decreases b - a,
{
    if a < b {
        lemma_digits_end(s, a + 1, b);
    }
}

/// A length written in decimal and followed by a comma reads back as that length.
proof fn lemma_number(s: Seq<char>, i: int, n: usize)
    requires
        lit(s, i, decimal_digits(n as nat) + seq![',']),
    ensures
        number(s, i) == Some((n, i + decimal_digits(n as nat).len())),
{
    let d = decimal_digits(n as nat);
    lemma_lit_split(s, i, d, seq![',']);
    lemma_digits(s, i, n as nat);
    lemma_lit_char(s, i + d.len(), seq![','], 0);
    lemma_digits_end(s, i, i + d.len());
}

/// The text that the writer gives one record field.
pub open spec fn field_item(f: Field) -> Seq<char> {
    "('"@ + f.name@ + "', '"@ + f.ty@ + "'), "@
}

proof fn lemma_field_item_chars(f: Field)
    ensures
        field_item(f) == seq!['('] + (seq!['\''] + f.name@ + seq!['\'']) + seq![',', ' '] + (
        seq!['\''] + f.ty@ + seq!['\'']) + seq![')', ',', ' '],
{
    reveal_strlit("('");
    reveal_strlit("', '");
    reveal_strlit("'), ");
    assert(field_item(f) =~= seq!['('] + (seq!['\''] + f.name@ + seq!['\'']) + seq![',', ' '] + (
    seq!['\''] + f.ty@ + seq!['\'']) + seq![')', ',', ' ']);
}

/// The field list text, read from the front.
proof fn lemma_fields_text_front(fs: Seq<Field>)
    requires
        fs.len() > 0,
    ensures
        fields_text(fs) == field_item(fs[0]) + fields_text(fs.drop_first()),
    decreases fs.len(),
{
    let l = fs.last();
    assert(fields_text(fs) =~= fields_text(fs.drop_last()) + field_item(l));
    if fs.len() == 1 {
        assert(fs.drop_last() =~= Seq::<Field>::empty());
        assert(fs.drop_first() =~= Seq::<Field>::empty());
        assert(fields_text(fs) =~= field_item(fs[0]) + fields_text(fs.drop_first()));
    } else {
        lemma_fields_text_front(fs.drop_last());
        assert(fs.drop_last().drop_first() =~= fs.drop_first().drop_last());
        assert(fs.drop_first().last() == l);
        assert(fields_text(fs.drop_first()) =~= fields_text(fs.drop_first().drop_last())
            + field_item(l));
        assert(fields_text(fs) =~= field_item(fs[0]) + fields_text(fs.drop_first()));
    }
}

proof fn lemma_ws_one(s: Seq<char>, k: int)
    requires
        0 <= k,
        k + 1 < s.len(),
        s[k] == ' ',
        !is_space(s[k + 1]),
    ensures
        ws_end(s, k) == k + 1,
{
    assert(ws_end(s, k + 1) == k + 1);
}

/// A record field as the writer gives it reads back as its name and type; the comma and the
/// space the writer puts after it follow the position returned.
proof fn lemma_field(s: Seq<char>, i: int, f: Field)
    requires
        lit(s, i, field_item(f)),
        quote_free(f.name@),
        quote_free(f.ty@),
    ensures
        field_item(f).len() == f.name@.len() + f.ty@.len() + 10,
        field(s, i) == Some(((f.name@, f.ty@), i + field_item(f).len() - 2)),
        s[i + field_item(f).len() - 2] == ',',
        s[i + field_item(f).len() - 1] == ' ',
{
    lemma_field_item_chars(f);
    let q1 = seq!['\''] + f.name@ + seq!['\''];
    let q2 = seq!['\''] + f.ty@ + seq!['\''];
    let x1 = seq!['('];
    let x2 = x1 + q1;
    let x3 = x2 + seq![',', ' '];
    let x4 = x3 + q2;
    lemma_lit_split(s, i, x4, seq![')', ',', ' ']);
    lemma_lit_split(s, i, x3, q2);
    lemma_lit_split(s, i, x2, seq![',', ' ']);
    lemma_lit_split(s, i, x1, q1);
    let n = f.name@.len();
    let t = f.ty@.len();
    let j = i + n + 3;
    let m = j + 2 + t + 2;
    lemma_lit_char(s, i, x1, 0);
    lemma_lit_char(s, i + 1, q1, 0);
    lemma_lit_char(s, j, seq![',', ' '], 0);
    lemma_lit_char(s, j, seq![',', ' '], 1);
    lemma_lit_char(s, j + 2, q2, 0);
    lemma_lit_char(s, m, seq![')', ',', ' '], 0);
    lemma_lit_char(s, m, seq![')', ',', ' '], 1);
    lemma_lit_char(s, m, seq![')', ',', ' '], 2);
    lemma_quoted(s, i + 1, f.name@);
    lemma_quoted(s, j + 2, f.ty@);
    assert(ws_end(s, i + 1) == i + 1);
    assert(ws_end(s, j) == j);
    lemma_ws_one(s, j + 1);
    assert(ws_end(s, m) == m);
}

pub open spec fn fields_quote_free(fs: Seq<Field>) -> bool {
    forall|k: int|
        0 <= k < fs.len() ==> quote_free((#[trigger] fs[k]).name@) && quote_free(fs[k].ty@)
}

/// The field list text starts with a parenthesis, or is empty.
proof fn lemma_fields_text_first(fs: Seq<Field>)
    ensures
        (fields_text(fs) + seq![']'])[0] == '(' || (fields_text(fs) + seq![']'])[0] == ']',
{
    if fs.len() > 0 {
        lemma_fields_text_front(fs);
        lemma_field_item_chars(fs[0]);
        assert((fields_text(fs) + seq![']'])[0] == field_item(fs[0])[0]);
    } else {
        assert(fields_text(fs) + seq![']'] =~= seq![']']);
    }
}

/// The fields as the writer lists them, up to the closing bracket, read back as those fields.
proof fn lemma_fields_after(
    s: Seq<char>,
    i: int,
    fs: Seq<Field>,
    acc: Seq<(Seq<char>, Seq<char>)>,
)
    requires
        lit(s, i, fields_text(fs) + seq![']']),
        fields_quote_free(fs),
    ensures
        fields_after(s, i, acc) == Some((acc + fields_view(fs), i + fields_text(fs).len() + 1)),
    decreases fs.len(),
{
    if fs.len() == 0 {
        assert(fields_text(fs) =~= Seq::<char>::empty());
        lemma_lit_char(s, i, fields_text(fs) + seq![']'], 0);
        assert(acc + fields_view(fs) =~= acc);
    } else {
        lemma_fields_text_front(fs);
        let f = fs[0];
        let tail = fs.drop_first();
        let it = field_item(f);
        let rest = fields_text(tail) + seq![']'];
        assert(fields_text(fs) + seq![']'] =~= it + rest);
        lemma_lit_split(s, i, it, rest);
        assert(quote_free(fs[0].name@) && quote_free(fs[0].ty@));
        lemma_field(s, i, f);
        let j = i + it.len() - 2;
        assert(ws_end(s, j) == j);
        lemma_fields_text_first(tail);
        lemma_lit_char(s, i + it.len(), rest, 0);
        lemma_ws_one(s, j + 1);
        assert(fields_quote_free(tail)) by {
            assert forall|k: int| 0 <= k < tail.len() implies quote_free((#[trigger] tail[k]).name@)
                && quote_free(tail[k].ty@) by {
                assert(tail[k] == fs[k + 1]);
            }
        }
        lemma_fields_after(s, i + it.len(), tail, acc.push((f.name@, f.ty@)));
        assert(acc.push((f.name@, f.ty@)) + fields_view(tail) =~= acc + fields_view(fs));
    }
}

/// The text that the writer gives one length of the shape.
pub open spec fn dim_item(n: usize) -> Seq<char> {
    decimal_digits(n as nat) + ", "@
}

proof fn lemma_dim_item_chars(n: usize)
    ensures
        dim_item(n) == decimal_digits(n as nat) + seq![','] + seq![' '],
{
    reveal_strlit(", ");
    assert(dim_item(n) =~= decimal_digits(n as nat) + seq![','] + seq![' ']);
}

proof fn lemma_dims_text_front(d: Seq<usize>)
    requires
        d.len() > 0,
    ensures
        dims_text(d) == dim_item(d[0]) + dims_text(d.drop_first()),
    decreases d.len(),
{
    let l = d.last();
    assert(dims_text(d) =~= dims_text(d.drop_last()) + dim_item(l));
    if d.len() == 1 {
        assert(d.drop_last() =~= Seq::<usize>::empty());
        assert(d.drop_first() =~= Seq::<usize>::empty());
        assert(dims_text(d) =~= dim_item(d[0]) + dims_text(d.drop_first()));
    } else {
        lemma_dims_text_front(d.drop_last());
        assert(d.drop_last().drop_first() =~= d.drop_first().drop_last());
        assert(d.drop_first().last() == l);
        assert(dims_text(d.drop_first()) =~= dims_text(d.drop_first().drop_last()) + dim_item(l));
        assert(dims_text(d) =~= dim_item(d[0]) + dims_text(d.drop_first()));
    }
}

/// The shape text starts with a digit, or is empty.
proof fn lemma_dims_text_first(d: Seq<usize>)
    ensures
        !is_space((dims_text(d) + seq![')'])[0]),
        (dims_text(d) + seq![')'])[0] != '}',
{
    if d.len() > 0 {
        lemma_dims_text_front(d);
        lemma_dim_item_chars(d[0]);
        let t = dims_text(d) + seq![')'];
        let digits = decimal_digits(d[0] as nat);
        let after = t.subrange(digits.len() as int, t.len() as int);
        assert(t.subrange(0, t.len() as int) =~= digits + after);
        lemma_lit_split(t, 0, digits, after);
        lemma_digits(t, 0, d[0] as nat);
        assert(is_digit(t[0]));
    } else {
        assert(dims_text(d) + seq![')'] =~= seq![')']);
    }
}

/// The lengths as the writer lists them, up to the closing parenthesis, read back as those
/// lengths.
proof fn lemma_dims_after(s: Seq<char>, i: int, d: Seq<usize>, acc: Seq<usize>)
    requires
        lit(s, i, dims_text(d) + seq![')']),
    ensures
        dims_after(s, i, acc) == Some((acc + d, i + dims_text(d).len() + 1)),
    decreases d.len(),
{
    if d.len() == 0 {
        assert(dims_text(d) =~= Seq::<char>::empty());
        lemma_lit_char(s, i, dims_text(d) + seq![')'], 0);
        assert(acc + d =~= acc);
    } else {
        lemma_dims_text_front(d);
        let n = d[0];
        let tail = d.drop_first();
        let it = dim_item(n);
        let digits = decimal_digits(n as nat);
        let rest = dims_text(tail) + seq![')'];
        assert(dims_text(d) + seq![')'] =~= it + rest);
        lemma_lit_split(s, i, it, rest);
        lemma_dim_item_chars(n);
        lemma_lit_split(s, i, digits + seq![','], seq![' ']);
        lemma_lit_split(s, i, digits, seq![',']);
        lemma_number(s, i, n);
        lemma_digits(s, i, n as nat);
        let j = i + digits.len();
        lemma_lit_char(s, j, seq![','], 0);
        lemma_lit_char(s, j + 1, seq![' '], 0);
        assert(ws_end(s, j) == j);
        lemma_dims_text_first(tail);
        lemma_lit_char(s, i + it.len(), rest, 0);
        lemma_ws_one(s, j + 1);
        assert(!at(s, i, ')')) by {
            assert(is_digit(s[i]));
        }
        lemma_dims_after(s, i + it.len(), tail, acc.push(n));
        assert(acc.push(n) + tail =~= acc + d);
    }
}

proof fn lemma_ws_to_end(s: Seq<char>, a: int)
    requires
        0 <= a <= s.len(),
        forall|k: int| a <= k < s.len() ==> is_space(#[trigger] s[k]),
    ensures
        ws_end(s, a) == s.len(),
    decreases s.len() - a,
{
    if a < s.len() {
        lemma_ws_to_end(s, a + 1);
    }
}

/// `'key': ` between a comma and its value.
pub open spec fn key_part(key: Seq<char>) -> Seq<char> {
    seq![',', ' '] + (seq!['\''] + key + seq!['\'']) + seq![':', ' ']
}

/// The dictionary up to the closing bracket of its field list.
pub open spec fn head_pieces(fs: Seq<Field>) -> Seq<char> {
    seq!['{'] + (seq!['\''] + descr_key() + seq!['\'']) + seq![':', ' '] + seq!['['] + (
    fields_text(fs) + seq![']'])
}

/// The dictionary from its `shape` key on.
pub open spec fn shape_pieces(sh: Seq<usize>) -> Seq<char> {
    key_part(shape_key()) + seq!['('] + (dims_text(sh) + seq![')']) + seq!['}']
}

/// What a dictionary of the given fields, order and shape holds.
pub open spec fn view_of(fs: Seq<Field>, fo: bool, sh: Seq<usize>) -> HeaderView {
    HeaderView { descr: fields_view(fs), fortran_order: fo, shape: sh }
}

/// The padded dictionary, piece by piece.
pub open spec fn dict_pieces(fs: Seq<Field>, fo: bool, sh: Seq<usize>) -> Seq<char> {
    head_pieces(fs) + (key_part(fortran_key()) + bool_text(fo) + shape_pieces(sh))
}

proof fn lemma_padded_pieces(fs: Seq<Field>, fo: bool, sh: Seq<usize>)
    ensures
        exists|n: nat| padded_text(dict_text(fs, fo, sh)) == dict_pieces(fs, fo, sh) + spaces(n) + seq!['\n'],
{
    reveal_strlit("{'descr': ");
    reveal_strlit("[");
    reveal_strlit("]");
    reveal_strlit(", 'fortran_order': ");
    reveal_strlit(", 'shape': ");
    reveal_strlit("(");
    reveal_strlit(")");
    reveal_strlit("}");
    reveal_strlit("\n");
    let t = dict_text(fs, fo, sh);
    let n = padding_for((encode_utf8(t).len() as usize) as int) as nat;
    assert(padded_text(dict_text(fs, fo, sh)) =~= dict_pieces(fs, fo, sh) + spaces(n) + seq!['\n']);
}

proof fn lemma_key_part(s: Seq<char>, i: int, key: Seq<char>)
    requires
        lit(s, i, key_part(key)),
        quote_free(key),
    ensures
        s[i] == ',',
        s[i + 1] == ' ',
        quoted(s, i + 2) == Some((key, i + 2 + key.len() + 2)),
        s[i + 4 + key.len()] == ':',
        s[i + 5 + key.len()] == ' ',
        key_part(key).len() == key.len() + 6,
{
    let q = seq!['\''] + key + seq!['\''];
    lemma_lit_split(s, i, seq![',', ' '] + q, seq![':', ' ']);
    lemma_lit_split(s, i, seq![',', ' '], q);
    lemma_lit_char(s, i, seq![',', ' '], 0);
    lemma_lit_char(s, i, seq![',', ' '], 1);
    lemma_lit_char(s, i + 4 + key.len(), seq![':', ' '], 0);
    lemma_lit_char(s, i + 4 + key.len(), seq![':', ' '], 1);
    lemma_quoted(s, i + 2, key);
}

/// The last entry, `'shape': (...)`, and the closing brace.
proof fn lemma_shape_entry(s: Seq<char>, i: int, sh: Seq<usize>, v: HeaderView)
    requires
        0 <= i,
        lit(s, i, key_part(shape_key()) + seq!['('] + (dims_text(sh) + seq![')']) + seq!['}']),
    ensures
        entries_after(s, i + 2, v) == Some(
            (
                HeaderView { descr: v.descr, fortran_order: v.fortran_order, shape: sh },
                i + 12 + dims_text(sh).len() + 2,
            ),
        ),
{
    let dt = dims_text(sh) + seq![')'];
    let kp = key_part(shape_key());
    lemma_lit_split(s, i, kp + seq!['('] + dt, seq!['}']);
    lemma_lit_split(s, i, kp + seq!['('], dt);
    lemma_lit_split(s, i, kp, seq!['(']);
    lemma_key_part(s, i, shape_key());
    lemma_lit_char(s, i + 11, seq!['('], 0);
    lemma_dims_text_first(sh);
    lemma_lit_char(s, i + 12, dt, 0);
    lemma_dims_after(s, i + 12, sh, Seq::empty());
    assert(Seq::<usize>::empty() + sh =~= sh);
    let e3 = i + 12 + dims_text(sh).len() + 1;
    lemma_lit_char(s, e3, seq!['}'], 0);
    assert(ws_end(s, i + 9) == i + 9);
    lemma_ws_one(s, i + 10);
    assert(ws_end(s, i + 12) == i + 12);
    assert(ws_end(s, e3) == e3);
    assert(shape_key() != fortran_key());
    assert(shape_key() != descr_key()) by {
        assert(shape_key()[0] != descr_key()[0]);
    }
    let v3 = HeaderView { descr: v.descr, fortran_order: v.fortran_order, shape: sh };
    assert(value(s, i + 11, shape_key(), v) == Some((v3, e3)));
}

/// The middle entry, `'fortran_order': True` or `False`, followed by the rest.
proof fn lemma_fortran_entry(s: Seq<char>, i: int, fo: bool, v: HeaderView, r: (HeaderView, int))
    requires
        0 <= i,
        lit(s, i, key_part(fortran_key()) + bool_text(fo) + key_part(shape_key())),
        entries_after(
            s,
            i + 19 + bool_text(fo).len() + 2,
            HeaderView { descr: v.descr, fortran_order: fo, shape: v.shape },
        ) == Some(r),
    ensures
        entries_after(s, i + 2, v) == Some(r),
{
    let b = bool_text(fo);
    let kp = key_part(fortran_key());
    lemma_lit_split(s, i, kp + b, key_part(shape_key()));
    lemma_lit_split(s, i, kp, b);
    lemma_key_part(s, i, fortran_key());
    let e2 = i + 19 + b.len();
    lemma_key_part(s, e2, shape_key());
    lemma_lit_split(s, e2, seq![',', ' '] + (seq!['\''] + shape_key() + seq!['\'']), seq![':', ' ']);
    lemma_lit_split(s, e2, seq![',', ' '], seq!['\''] + shape_key() + seq!['\'']);
    lemma_lit_char(s, e2 + 2, seq!['\''] + shape_key() + seq!['\''], 0);
    reveal_strlit("True");
    reveal_strlit("False");
    if fo {
        assert(b =~= true_text());
    } else {
        assert(b =~= false_text());
        lemma_lit_char(s, i + 19, b, 0);
        if lit(s, i + 19, true_text()) {
            lemma_lit_char(s, i + 19, true_text(), 0);
        }
    }
    assert(ws_end(s, i + 17) == i + 17);
    lemma_ws_one(s, i + 18);
    assert(ws_end(s, e2) == e2);
    lemma_ws_one(s, e2 + 1);
    assert(descr_key() != fortran_key());
    let v2 = HeaderView { descr: v.descr, fortran_order: fo, shape: v.shape };
    assert(value(s, i + 19, fortran_key(), v) == Some((v2, e2)));
}

/// The first entry, `'descr': [...]`, after the opening brace, followed by the rest.
proof fn lemma_descr_entry(s: Seq<char>, fs: Seq<Field>, r: (HeaderView, int))
    requires
        fields_quote_free(fs),
        lit(
            s,
            0,
            seq!['{'] + (seq!['\''] + descr_key() + seq!['\'']) + seq![':', ' '] + seq!['['] + (
            fields_text(fs) + seq![']']) + key_part(fortran_key()),
        ),
        entries_after(
            s,
            (11 + fields_text(fs).len() + 1 + 2) as int,
            HeaderView { descr: fields_view(fs), fortran_order: false, shape: Seq::empty() },
        ) == Some(r),
    ensures
        entries_after(s, 1, crate::npy_header::default_view()) == Some(r),
{
    let qd = seq!['\''] + descr_key() + seq!['\''];
    let ft = fields_text(fs) + seq![']'];
    let a1 = seq!['{'] + qd + seq![':', ' '];
    let a2 = a1 + seq!['['];
    let a3 = a2 + ft;
    lemma_lit_split(s, 0, a3, key_part(fortran_key()));
    lemma_lit_split(s, 0, a2, ft);
    lemma_lit_split(s, 0, a1, seq!['[']);
    lemma_lit_split(s, 0, seq!['{'] + qd, seq![':', ' ']);
    lemma_lit_split(s, 0, seq!['{'], qd);
    lemma_quoted(s, 1, descr_key());
    lemma_lit_char(s, 8, seq![':', ' '], 0);
    lemma_lit_char(s, 8, seq![':', ' '], 1);
    lemma_lit_char(s, 10, seq!['['], 0);
    lemma_fields_text_first(fs);
    lemma_lit_char(s, 11, ft, 0);
    lemma_fields_after(s, 11, fs, Seq::empty());
    assert(Seq::<(Seq<char>, Seq<char>)>::empty() + fields_view(fs) =~= fields_view(fs));
    let e1 = a3.len() as int;
    lemma_key_part(s, e1, fortran_key());
    lemma_lit_split(s, e1, seq![',', ' '] + (seq!['\''] + fortran_key() + seq!['\'']), seq![':', ' ']);
    lemma_lit_split(s, e1, seq![',', ' '], seq!['\''] + fortran_key() + seq!['\'']);
    lemma_lit_char(s, e1 + 2, seq!['\''] + fortran_key() + seq!['\''], 0);
    assert(ws_end(s, 8) == 8);
    lemma_ws_one(s, 9);
    assert(ws_end(s, 11) == 11);
    assert(ws_end(s, e1) == e1);
    lemma_ws_one(s, e1 + 1);
    let v1 = HeaderView { descr: fields_view(fs), fortran_order: false, shape: Seq::empty() };
    assert(value(s, 10, descr_key(), crate::npy_header::default_view()) == Some((v1, e1)));
}

proof fn lemma_parse_top(s: Seq<char>, v: HeaderView, e: int)
    requires
        2 <= s.len(),
        s[0] == '{',
        s[1] == '\'',
        entries_after(s, 1, crate::npy_header::default_view()) == Some((v, e)),
        ws_end(s, e) == s.len(),
    ensures
        parse_header_chars(s) == Some(v),
{
    assert(ws_end(s, 0) == 0);
    assert(ws_end(s, 1) == 1);
}

/// Where the pieces of the padded dictionary stand.
proof fn lemma_pieces_lits(fs: Seq<Field>, fo: bool, sh: Seq<usize>, n: nat)
    ensures
        ({
            let s = dict_pieces(fs, fo, sh) + spaces(n) + seq!['\n'];
            let head = head_pieces(fs);
            let kf = key_part(fortran_key());
            let b = bool_text(fo);
            let e1 = head.len() as int;
            let e2 = e1 + 19 + b.len();
            &&& lit(s, 0, head + kf)
            &&& lit(s, e1, kf + b + key_part(shape_key()))
            &&& lit(s, e2, shape_pieces(sh))
            &&& lit(s, dict_pieces(fs, fo, sh).len() as int, spaces(n) + seq!['\n'])
            &&& dict_pieces(fs, fo, sh).len() == e2 + 12 + dims_text(sh).len() + 2
        }),
{
    let head = head_pieces(fs);
    let kf = key_part(fortran_key());
    let ks = key_part(shape_key());
    let b = bool_text(fo);
    let dt = dims_text(sh) + seq![')'];
    let t = shape_pieces(sh);
    let d = dict_pieces(fs, fo, sh);
    let s = d + spaces(n) + seq!['\n'];
    let e1 = head.len() as int;
    let e2 = e1 + 19 + b.len();
    assert(s.subrange(0, s.len() as int) =~= s);
    assert(s =~= d + (spaces(n) + seq!['\n']));
    lemma_lit_split(s, 0, d, spaces(n) + seq!['\n']);
    lemma_lit_split(s, 0, head, kf + b + t);
    lemma_lit_split(s, e1, kf + b, t);
    lemma_lit_split(s, e1, kf, b);
    lemma_lit_split(s, e2, ks + seq!['('] + dt, seq!['}']);
    lemma_lit_split(s, e2, ks + seq!['('], dt);
    lemma_lit_split(s, e2, ks, seq!['(']);
    lemma_lit_concat(s, e1, kf + b, ks);
    lemma_lit_concat(s, 0, head, kf);
}

proof fn lemma_pieces_start(fs: Seq<Field>, s: Seq<char>)
    requires
        lit(s, 0, head_pieces(fs) + key_part(fortran_key())),
    ensures
        s[0] == '{',
        s[1] == '\'',
{
    let qd = seq!['\''] + descr_key() + seq!['\''];
    lemma_lit_split(s, 0, head_pieces(fs), key_part(fortran_key()));
    lemma_lit_split(s, 0, seq!['{'] + qd + seq![':', ' '] + seq!['['], fields_text(fs) + seq![']']);
    lemma_lit_split(s, 0, seq!['{'] + qd + seq![':', ' '], seq!['[']);
    lemma_lit_split(s, 0, seq!['{'] + qd, seq![':', ' ']);
    lemma_lit_split(s, 0, seq!['{'], qd);
    lemma_lit_char(s, 0, seq!['{'], 0);
    lemma_lit_char(s, 1, qd, 0);
}

/// A text that holds the pieces of a header's dictionary, then only whitespace, reads back as
/// that header.
proof fn lemma_parse_from_pieces(s: Seq<char>, fs: Seq<Field>, fo: bool, sh: Seq<usize>)
    requires
        fields_quote_free(fs),
        ({
            let e1 = head_pieces(fs).len() as int;
            let e2 = e1 + 19 + bool_text(fo).len();
            let e3 = e2 + 12 + dims_text(sh).len() + 1;
            &&& lit(s, 0, head_pieces(fs) + key_part(fortran_key()))
            &&& lit(s, e1, key_part(fortran_key()) + bool_text(fo) + key_part(shape_key()))
            &&& lit(s, e2, shape_pieces(sh))
            &&& e3 + 1 <= s.len()
            &&& forall|k: int| e3 + 1 <= k < s.len() ==> is_space(#[trigger] s[k])
        }),
    ensures
        parse_header_chars(s) == Some(view_of(fs, fo, sh)),
{
    let e1 = head_pieces(fs).len() as int;
    let e2 = e1 + 19 + bool_text(fo).len();
    let e3 = e2 + 12 + dims_text(sh).len() + 1;
    let v3 = HeaderView { descr: fields_view(fs), fortran_order: fo, shape: sh };
    lemma_shape_entry(s, e2, sh, HeaderView { descr: fields_view(fs), fortran_order: fo, shape: Seq::empty() });
    lemma_fortran_entry(s, e1, fo, HeaderView { descr: fields_view(fs), fortran_order: false, shape: Seq::empty() }, (v3, e3 + 1));
    lemma_descr_entry(s, fs, (v3, e3 + 1));
    lemma_ws_to_end(s, e3 + 1);
    lemma_pieces_start(fs, s);
    lemma_parse_top(s, v3, e3 + 1);
}

proof fn lemma_trailing_space(s: Seq<char>, i: int, n: nat)
    requires
        0 <= i,
        lit(s, i, spaces(n) + seq!['\n']),
        s.len() == i + n + 1,
    ensures
        forall|k: int| i <= k < s.len() ==> is_space(#[trigger] s[k]),
{
    assert forall|k: int| i <= k < s.len() implies is_space(#[trigger] s[k]) by {
        lemma_lit_char(s, i, spaces(n) + seq!['\n'], k - i);
    }
}

/// The padded dictionary of a header reads back as that header.
proof fn lemma_parse_pieces(fs: Seq<Field>, fo: bool, sh: Seq<usize>, n: nat)
    requires
        fields_quote_free(fs),
    ensures
        parse_header_chars(dict_pieces(fs, fo, sh) + spaces(n) + seq!['\n']) == Some(view_of(fs, fo, sh)),
{
    let s = dict_pieces(fs, fo, sh) + spaces(n) + seq!['\n'];
    lemma_pieces_lits(fs, fo, sh, n);
    lemma_trailing_space(s, dict_pieces(fs, fo, sh).len() as int, n);
    lemma_parse_from_pieces(s, fs, fo, sh);
}

/// The padded dictionary that the writer makes of the given fields, order and shape reads back
/// as them, whenever no field name or type holds a single quote.
pub proof fn padded_dict_reads_back(fs: Seq<Field>, fo: bool, sh: Seq<usize>)
    requires
        fields_quote_free(fs),
    ensures
        spec_parse_header(encode_utf8(padded_text(dict_text(fs, fo, sh)))) == Ok::<HeaderView, NpyError>(
            view_of(fs, fo, sh),
        ),
{
    lemma_padded_pieces(fs, fo, sh);
    let n = choose|n: nat| padded_text(dict_text(fs, fo, sh)) == dict_pieces(fs, fo, sh) + spaces(n) + seq!['\n'];
    lemma_parse_pieces(fs, fo, sh, n);
    vstd::utf8::encode_utf8_valid_utf8(padded_text(dict_text(fs, fo, sh)));
    vstd::utf8::encode_utf8_decode_utf8(padded_text(dict_text(fs, fo, sh)));
}

/// What the writer puts in a `.npy` header reads back as the header it was made from: parsing
/// the bytes of the padded dictionary gives the header's fields, order and shape, whenever no
/// field name or type holds a single quote (the one character that the writer does not escape).
pub proof fn padded_header_reads_back(h: NpyHeader)
    requires
        header_quote_free(h),
    ensures
        spec_parse_header(encode_utf8(padded_header_text(h))) == Ok::<HeaderView, NpyError>(
            header_view(h),
        ),
{
    assert(fields_quote_free(h.descr@));
    padded_dict_reads_back(h.descr@, h.fortran_order, h.shape@);
}

/// A file that the writer produces reads back: its preamble delimits the padded header, which
/// parses as the fields written, C order and the record count as its one dimension; the data
/// after the header starts on a cache line and is the data written. This holds whenever no
/// field name or type holds a single quote and the padded header fits the 16-bit length field
/// (a longer one has its length truncated by the writer).
pub proof fn written_file_reads_back(descr: Seq<Field>, records: usize, data: Seq<u8>)
    requires
        fields_quote_free(descr),
        encode_utf8(padded_text(dict_text(descr, false, seq![records]))).len() < 65536,
    ensures
        ({
            let header = encode_utf8(padded_text(dict_text(descr, false, seq![records])));
            let buf = npy_bytes(descr, records, data);
            let end = (10 + header.len()) as int;
            &&& spec_header_end(buf) == Ok::<usize, NpyError>(end as usize)
            &&& spec_parse_header(buf.subrange(10, end)) == Ok::<HeaderView, NpyError>(
                view_of(descr, false, seq![records]),
            )
            &&& end % 64 == 0
            &&& buf.subrange(end, buf.len() as int) == data
        }),
{
    let dict = dict_text(descr, false, seq![records]);
    let header = encode_utf8(padded_text(dict));
    let n = header.len() as int;
    let buf = npy_bytes(descr, records, data);
    let pre = magic() + seq![1u8, 0u8] + le16(n);
    assert(buf == pre + header + data);
    assert(pre.len() == 10);
    assert(buf.subrange(0, 6) =~= magic());
    assert(buf[6] == 1u8 && buf[7] == 0u8);
    assert(n % 65536 == n);
    assert(buf[8] == (n % 256) as u8 && buf[9] == (n / 256) as u8);
    assert(buf[8] + 256 * buf[9] == n);
    assert(buf.subrange(10, 10 + n) =~= header);
    assert(buf.subrange(10 + n, buf.len() as int) =~= data);
    padded_dict_reads_back(descr, false, seq![records]);
    padded_text_is_longer(dict);
    padded_text_is_aligned(dict);
}

} // verus!
