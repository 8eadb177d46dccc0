//! The NumPy `.npy` format (version 1.0) for one-dimensional arrays of records: the header that
//! describes the record fields, its padding to a cache line, and the checks made on a file
//! before its records are used.
use vstd::prelude::*;
use vstd::utf8::encode_utf8;
use vstd::string::StringSliceAdditionalSpecFns;

use crate::binance::{decimal_digits, push_decimal_digits};
use crate::text::{chars_of, chars_equal, push_all};

verus! {

/// The fixed part before the header text: magic, version, header length.
pub const PREAMBLE_LEN: usize = 10;

/// Record data starts on a multiple of this many bytes.
pub const CACHE_LINE_SIZE: usize = 64;

/// One field of a record type: its name and NumPy type code.
#[derive(Clone, Debug, PartialEq, Eq)]
pub struct Field {
    pub name: String,
    pub ty: String,
}

/// A record type that can be stored in a `.npy` file.
pub trait NpyDTyped {
    fn descr() -> Vec<Field>;
}

/// The header of a `.npy` file.
#[derive(Clone, Debug, PartialEq, Eq)]
pub struct NpyHeader {
    pub descr: Vec<Field>,
    pub fortran_order: bool,
    pub shape: Vec<usize>,
}

pub open spec fn fields_text(fields: Seq<Field>) -> Seq<char>
    decreases fields.len(),
{
    if fields.len() == 0 {
        Seq::empty()
    } else {
        fields_text(fields.drop_last()) + "('"@ + fields.last().name@ + "', '"@ + fields.last().ty@
            + "'), "@
    }
}

/// `[('name', 'type'), ...]`.
pub open spec fn descr_text(fields: Seq<Field>) -> Seq<char> {
    "["@ + fields_text(fields) + "]"@
}

pub open spec fn dims_text(shape: Seq<usize>) -> Seq<char>
    decreases shape.len(),
{
    if shape.len() == 0 {
        Seq::empty()
    } else {
        dims_text(shape.drop_last()) + decimal_digits(shape.last() as nat) + ", "@
    }
}

/// `(n, ...)`, each length followed by a comma.
pub open spec fn shape_text(shape: Seq<usize>) -> Seq<char> {
    "("@ + dims_text(shape) + ")"@
}

pub open spec fn bool_text(b: bool) -> Seq<char> {
    if b {
        "True"@
    } else {
        "False"@
    }
}

/// The header dictionary of records with the given fields, order and shape.
pub open spec fn dict_text(descr: Seq<Field>, fortran_order: bool, shape: Seq<usize>) -> Seq<char> {
    "{'descr': "@ + descr_text(descr) + ", 'fortran_order': "@ + bool_text(fortran_order)
        + ", 'shape': "@ + shape_text(shape) + "}"@
}

/// The header dictionary.
pub open spec fn header_text(h: NpyHeader) -> Seq<char> {
    dict_text(h.descr@, h.fortran_order, h.shape@)
}

/// The spaces that make the preamble, the header and its newline end on a cache line.
pub open spec fn padding_for(header_bytes: int) -> int {
    (64 - (PREAMBLE_LEN + header_bytes + 1) % 64) % 64
}

pub open spec fn spaces(n: nat) -> Seq<char> {
    Seq::new(n, |i: int| ' ')
}

/// The padded dictionary: the dictionary, spaces, and a newline.
pub open spec fn padded_text(dict: Seq<char>) -> Seq<char> {
    dict + spaces(padding_for((encode_utf8(dict).len() as usize) as int) as nat) + "\n"@
}

/// The padded header: the dictionary, spaces, and a newline.
pub open spec fn padded_header_text(h: NpyHeader) -> Seq<char> {
    padded_text(header_text(h))
}

proof fn lemma_encode_utf8_concat(a: Seq<char>, b: Seq<char>)
    ensures
        encode_utf8(a + b) == encode_utf8(a) + encode_utf8(b),
    decreases a.len(),
{
    if a.len() > 0 {
        assert((a + b).drop_first() =~= a.drop_first() + b);
        assert((a + b)[0] == a[0]);
        lemma_encode_utf8_concat(a.drop_first(), b);
        assert(encode_utf8(a + b) =~= encode_utf8(a) + encode_utf8(b));
    } else {
        assert(a + b =~= b);
    }
}

proof fn lemma_encode_spaces(n: nat)
    ensures
        encode_utf8(spaces(n)).len() == n,
    decreases n,
{
    if n > 0 {
        let s = spaces(n);
        assert(s.drop_first() =~= spaces((n - 1) as nat));
        lemma_encode_spaces((n - 1) as nat);
        assert(s[0] == ' ');
        vstd::utf8::is_ascii_chars_encode_utf8(seq![' ']);
    } else {
        assert(spaces(0) =~= Seq::<char>::empty());
    }
}

/// A padded dictionary always ends on a cache line, so the records that follow are aligned.
pub proof fn padded_text_is_aligned(dict: Seq<char>)
    requires
        encode_utf8(dict).len() <= usize::MAX,
    ensures
        (PREAMBLE_LEN + encode_utf8(padded_text(dict)).len()) % (CACHE_LINE_SIZE as int) == 0,
{
    let l = encode_utf8(dict).len() as int;
    let p = padding_for(l);
    lemma_encode_utf8_concat(dict, spaces(p as nat));
    lemma_encode_utf8_concat(dict + spaces(p as nat), "\n"@);
    lemma_encode_spaces(p as nat);
    assert(encode_utf8("\n"@).len() == 1) by {
        reveal_strlit("\n");
        vstd::utf8::is_ascii_chars_encode_utf8("\n"@);
    }
    assert((10 + l + 1 + p) % 64 == 0) by (nonlinear_arith)
        requires
            p == (64 - (10 + l + 1) % 64) % 64,
            l >= 0;
}

/// `k` spaces after the dictionary end the preamble, the dictionary and its newline on a cache
/// line.
pub open spec fn ends_on_line(header_bytes: nat, k: int) -> bool {
    (PREAMBLE_LEN + header_bytes + k + 1) % 64 == 0
}

/// The spaces that pad a dictionary are the fewest, below a cache line, that end the preamble,
/// the dictionary and its newline on a cache line.
pub proof fn padding_is_the_least(header_bytes: nat)
    ensures
        0 <= padding_for(header_bytes as int) < 64,
        ends_on_line(header_bytes, padding_for(header_bytes as int)),
        forall|k: int| 0 <= k < padding_for(header_bytes as int) ==> !#[trigger] ends_on_line(header_bytes, k),
{
    let r = (PREAMBLE_LEN + header_bytes + 1) % 64;
    assert forall|k: int| 0 <= k < padding_for(header_bytes as int) implies !#[trigger] ends_on_line(header_bytes, k) by {
        assert(r > 0);
        assert((PREAMBLE_LEN + header_bytes + k + 1) % 64 == r + k) by (nonlinear_arith)
            requires
                r == (10 + header_bytes + 1) % 64,
                0 <= k < 64 - r,
                r > 0;
    }
    assert((PREAMBLE_LEN + header_bytes + padding_for(header_bytes as int) + 1) % 64 == 0) by (nonlinear_arith)
        requires
            r == (10 + header_bytes + 1) % 64,
            padding_for(header_bytes as int) == (64 - r) % 64;
}

/// The padded dictionary is at least as long as the dictionary.
pub proof fn padded_text_is_longer(dict: Seq<char>)
    ensures
        encode_utf8(dict).len() <= encode_utf8(padded_text(dict)).len(),
{
    let p = padding_for((encode_utf8(dict).len() as usize) as int);
    lemma_encode_utf8_concat(dict, spaces(p as nat));
    lemma_encode_utf8_concat(dict + spaces(p as nat), "\n"@);
}

/// The padded header always ends on a cache line, so the records that follow are aligned.
pub proof fn padded_header_is_aligned(h: NpyHeader)
    requires
        encode_utf8(header_text(h)).len() <= usize::MAX,
    ensures
        (PREAMBLE_LEN + encode_utf8(padded_header_text(h)).len()) % (CACHE_LINE_SIZE as int) == 0,
{
    padded_text_is_aligned(header_text(h));
}

fn push_str(out: &mut String, s: &str)
    ensures
        final(out)@ == old(out)@ + s@,
{
    let v = chars_of(s);
    push_all(out, &v);
}

impl NpyHeader {
    /// The record fields as a Python list of `(name, type)` pairs.
    pub fn descr(&self) -> (r: String)
        ensures
            r@ == descr_text(self.descr@),
    {
        let mut out = String::new();
        push_str(&mut out, "[");
        let mut i: usize = 0;
        while i < self.descr.len()
            invariant
                i <= self.descr.len(),
                out@ == "["@ + fields_text(self.descr@.take(i as int)),
            decreases self.descr.len() - i,
        {
            let ghost before = out@;
            push_str(&mut out, "('");
            push_str(&mut out, self.descr[i].name.as_str());
            push_str(&mut out, "', '");
            push_str(&mut out, self.descr[i].ty.as_str());
            push_str(&mut out, "'), ");
            proof {
                let next = self.descr@.take(i + 1);
                assert(next.drop_last() =~= self.descr@.take(i as int));
                assert(next.last() == self.descr@[i as int]);
                assert(out@ =~= "["@ + fields_text(next));
            }
            i = i + 1;
        }
        push_str(&mut out, "]");
        assert(self.descr@.take(self.descr.len() as int) =~= self.descr@);
        out
    }

    /// `True` or `False`.
    pub fn fortran_order(&self) -> (r: String)
        ensures
            r@ == bool_text(self.fortran_order),
    {
        if self.fortran_order {
            "True".to_owned()
        } else {
            "False".to_owned()
        }
    }

    /// The array shape as a Python tuple.
    pub fn shape(&self) -> (r: String)
        ensures
            r@ == shape_text(self.shape@),
    {
        let mut out = String::new();
        push_str(&mut out, "(");
        let mut i: usize = 0;
        while i < self.shape.len()
            invariant
                i <= self.shape.len(),
                out@ == "("@ + dims_text(self.shape@.take(i as int)),
            decreases self.shape.len() - i,
        {
            push_decimal_digits(&mut out, self.shape[i] as u64);
            push_str(&mut out, ", ");
            proof {
                let next = self.shape@.take(i + 1);
                assert(next.drop_last() =~= self.shape@.take(i as int));
                assert(next.last() == self.shape@[i as int]);
                assert(out@ =~= "("@ + dims_text(next));
            }
            i = i + 1;
        }
        push_str(&mut out, ")");
        assert(self.shape@.take(self.shape.len() as int) =~= self.shape@);
        out
    }

    /// The header dictionary padded with spaces and a newline so that the record data starts on
    /// a cache line.
    pub fn to_string_padding(&self) -> (r: String)
        ensures
            r@ == padded_header_text(*self),
    {
        let mut header = String::new();
        push_str(&mut header, "{'descr': ");
        let d = self.descr();
        push_str(&mut header, d.as_str());
        push_str(&mut header, ", 'fortran_order': ");
        let f = self.fortran_order();
        push_str(&mut header, f.as_str());
        push_str(&mut header, ", 'shape': ");
        let s = self.shape();
        push_str(&mut header, s.as_str());
        push_str(&mut header, "}");
        assert(header@ =~= header_text(*self));
        let hs = header.as_str();
        let header_len = hs.len();
        assert(hs@ == header_text(*self));
        assert(header_len == (encode_utf8(header_text(*self)).len() as usize));
        let pad: usize = (64 - (header_len % 64 + PREAMBLE_LEN + 1) % 64) % 64;
        assert(pad == padding_for(header_len as int)) by (nonlinear_arith)
            requires
                pad == (64 - (header_len % 64 + 10 + 1) % 64) % 64,
                header_len >= 0;
        let ghost text = header@;
        let mut k: usize = 0;
        while k < pad
            invariant
                k <= pad,
                header@ == text + spaces(k as nat),
            decreases pad - k,
        {
            header.push(' ');
            k = k + 1;
            assert(header@ =~= text + spaces(k as nat));
        }
        header.push('\n');
        assert(header@ =~= padded_header_text(*self)) by {
            reveal_strlit("\n");
            assert("\n"@ =~= seq!['\n']);
        }
        header
    }
}

/// Why a `.npy` file cannot be used.
#[derive(Clone, Debug, PartialEq, Eq)]
pub enum NpyError {
    /// The file is shorter than its preamble.
    ShortPreamble,
    BadMagic,
    UnsupportedVersion,
    /// The header length points past the end of the file.
    HeaderPastEnd,
    FortranOrder,
    FieldCountMismatch,
    /// A field's type differs from the expected record field at the same position.
    DtypeMismatch { expected: Field, found: Field },
    NotOneDimensional,
    Misaligned,
    /// The header text is not UTF-8, or not a header dictionary.
    InvalidHeader,
}

impl NpyError {
    /// Whether the file ended too early (an unexpected end of file), rather than holding
    /// invalid data.
    pub fn is_unexpected_eof(&self) -> (r: bool)
        ensures
            r == (*self matches NpyError::ShortPreamble || *self matches NpyError::HeaderPastEnd),
    {
        match self {
            NpyError::ShortPreamble | NpyError::HeaderPastEnd => true,
            _ => false,
        }
    }
}

/// `\x93NUMPY`.
pub open spec fn magic() -> Seq<u8> {
    seq![0x93u8, 78u8, 85u8, 77u8, 80u8, 89u8]
}

/// The header length field, little-endian and truncated to 16 bits.
pub open spec fn le16(n: int) -> Seq<u8> {
    seq![(n % 65536 % 256) as u8, (n % 65536 / 256) as u8]
}

/// The bytes of a `.npy` file holding `records` records of `data` with the given fields.
pub open spec fn npy_bytes(descr: Seq<Field>, records: usize, data: Seq<u8>) -> Seq<u8> {
    let header = encode_utf8(padded_text(dict_text(descr, false, seq![records])));
    magic() + seq![1u8, 0u8] + le16(header.len() as int) + header + data
}

/// Where the header of a file ends, after checking the preamble.
pub open spec fn spec_header_end(buf: Seq<u8>) -> Result<usize, NpyError> {
    if buf.len() < PREAMBLE_LEN {
        Err(NpyError::ShortPreamble)
    } else if buf.subrange(0, 6) != magic() {
        Err(NpyError::BadMagic)
    } else if buf[6] != 1u8 || buf[7] != 0u8 {
        Err(NpyError::UnsupportedVersion)
    } else if PREAMBLE_LEN + buf[8] + 256 * buf[9] > buf.len() {
        Err(NpyError::HeaderPastEnd)
    } else {
        Ok((PREAMBLE_LEN + buf[8] + 256 * buf[9]) as usize)
    }
}

/// Checks the preamble of a whole `.npy` file and returns where its header ends.
pub fn npy_header_end(buf: &[u8]) -> (r: Result<usize, NpyError>)
    ensures
        r == spec_header_end(buf@),
{
    if buf.len() < PREAMBLE_LEN {
        return Err(NpyError::ShortPreamble);
    }
    if !(buf[0] == 0x93 && buf[1] == 78 && buf[2] == 85 && buf[3] == 77 && buf[4] == 80 && buf[5]
        == 89) {
        proof {
            if buf@.subrange(0, 6) == magic() {
                assert(buf@.subrange(0, 6)[0] == buf@[0]);
                assert(buf@.subrange(0, 6)[1] == buf@[1]);
                assert(buf@.subrange(0, 6)[2] == buf@[2]);
                assert(buf@.subrange(0, 6)[3] == buf@[3]);
                assert(buf@.subrange(0, 6)[4] == buf@[4]);
                assert(buf@.subrange(0, 6)[5] == buf@[5]);
            }
        }
        return Err(NpyError::BadMagic);
    }
    assert(buf@.subrange(0, 6) =~= magic());
    if buf[6] != 1 || buf[7] != 0 {
        return Err(NpyError::UnsupportedVersion);
    }
    let header_len: usize = buf[8] as usize + 256 * (buf[9] as usize);
    let header_end = PREAMBLE_LEN + header_len;
    if header_end > buf.len() {
        return Err(NpyError::HeaderPastEnd);
    }
    Ok(header_end)
}

/// The first field position whose type differs, when the counts agree.
pub open spec fn types_agree(expected: Seq<Field>, found: Seq<Field>, upto: int) -> bool {
    forall|i: int| 0 <= i < upto ==> (#[trigger] expected[i]).ty@ == found[i].ty@
}

/// Record fields are compatible when they agree in number and, position by position, in type;
/// names may differ.
pub fn check_field_consistency(expected: &Vec<Field>, found: &Vec<Field>) -> (r: Result<(), NpyError>)
    ensures
        expected.len() != found.len() ==> r == Err::<(), NpyError>(NpyError::FieldCountMismatch),
        expected.len() == found.len() && types_agree(expected@, found@, expected.len() as int) ==> r is Ok,
        expected.len() == found.len() && !types_agree(expected@, found@, expected.len() as int) ==> (r matches Err(
            NpyError::DtypeMismatch { expected: e, found: f },
        ) && exists|i: int| 0 <= i < expected.len() && types_agree(expected@, found@, i) && e
            == expected@[i] && f == found@[i] && e.ty@ != f.ty@),
{
    if expected.len() != found.len() {
        return Err(NpyError::FieldCountMismatch);
    }
    let mut i: usize = 0;
    while i < expected.len()
        invariant
            expected.len() == found.len(),
            i <= expected.len(),
            types_agree(expected@, found@, i as int),
        decreases expected.len() - i,
    {
        let a = chars_of(expected[i].ty.as_str());
        let b = chars_of(found[i].ty.as_str());
        if !chars_equal(&a, &b) {
            let e = Field { name: expected[i].name.clone(), ty: expected[i].ty.clone() };
            let f = Field { name: found[i].name.clone(), ty: found[i].ty.clone() };
            assert(e == expected@[i as int]);
            assert(f == found@[i as int]);
            return Err(NpyError::DtypeMismatch { expected: e, found: f });
        }
        i = i + 1;
    }
    Ok(())
}

/// The checks made once the header is parsed: C order, compatible record fields, one dimension,
/// and record data that starts on a cache line.
pub fn validate_npy_header(expected: &Vec<Field>, header: &NpyHeader, header_end: usize) -> (r: Result<(), NpyError>)
    ensures
        header.fortran_order ==> r == Err::<(), NpyError>(NpyError::FortranOrder),
        !header.fortran_order && expected.len() != header.descr.len() ==> r == Err::<(), NpyError>(
            NpyError::FieldCountMismatch,
        ),
        !header.fortran_order && expected.len() == header.descr.len() && !types_agree(
            expected@,
            header.descr@,
            expected.len() as int,
        ) ==> r matches Err(NpyError::DtypeMismatch { .. }),
        r is Ok <==> (!header.fortran_order && expected.len() == header.descr.len() && types_agree(
            expected@,
            header.descr@,
            expected.len() as int,
        ) && header.shape.len() == 1 && header_end % CACHE_LINE_SIZE == 0),
        !header.fortran_order && expected.len() == header.descr.len() && types_agree(
            expected@,
            header.descr@,
            expected.len() as int,
        ) && header.shape.len() != 1 ==> r == Err::<(), NpyError>(NpyError::NotOneDimensional),
        !header.fortran_order && expected.len() == header.descr.len() && types_agree(
            expected@,
            header.descr@,
            expected.len() as int,
        ) && header.shape.len() == 1 && header_end % CACHE_LINE_SIZE != 0 ==> r == Err::<(), NpyError>(
            NpyError::Misaligned,
        ),
{
    if header.fortran_order {
        return Err(NpyError::FortranOrder);
    }
    check_field_consistency(expected, &header.descr)?;
    if header.shape.len() != 1 {
        return Err(NpyError::NotOneDimensional);
    }
    if header_end % CACHE_LINE_SIZE != 0 {
        return Err(NpyError::Misaligned);
    }
    Ok(())
}

fn push_bytes(out: &mut Vec<u8>, bytes: &[u8])
    ensures
        final(out)@ == old(out)@ + bytes@,
{
    let ghost start = out@;
    let mut i: usize = 0;
    while i < bytes.len()
        invariant
            i <= bytes.len(),
            out@ == start + bytes@.take(i as int),
        decreases bytes.len() - i,
    {
        out.push(bytes[i]);
        i = i + 1;
        assert(out@ =~= start + bytes@.take(i as int));
    }
    assert(bytes@.take(bytes.len() as int) =~= bytes@);
}

/// Appends a `.npy` file to `out`: the preamble (magic, version 1.0, header length), the padded
/// header for `records` records of the given fields in C order, and the record bytes.
pub fn write_npy(out: &mut Vec<u8>, descr: Vec<Field>, records: usize, data: &[u8])
    ensures
        final(out)@ == old(out)@ + npy_bytes(descr@, records, data@),
{
    let mut shape: Vec<usize> = Vec::new();
    shape.push(records);
    let header = NpyHeader { descr, fortran_order: false, shape };
    let text = header.to_string_padding();
    let ghost start = out@;
    out.push(0x93);
    out.push(78);
    out.push(85);
    out.push(77);
    out.push(80);
    out.push(89);
    out.push(1);
    out.push(0);
    let bytes = text.as_str().as_bytes();
    let n = bytes.len();
    out.push((n % 65536 % 256) as u8);
    out.push((n % 65536 / 256) as u8);
    push_bytes(out, bytes);
    push_bytes(out, data);
    proof {
        assert(header.shape@ =~= seq![records]);
        assert(out@ =~= start + npy_bytes(header.descr@, records, data@));
    }
}

} // verus!
