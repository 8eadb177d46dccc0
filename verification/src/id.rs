//! Client order identifiers: a strategy prefix, a format version, the local order id in base 36
//! and a random nonce, joined by dashes.
use vstd::prelude::*;
use rand::Rng;

use crate::text::{
    all_alphanumeric, char_is_ascii_alphanumeric, chars_of, is_ascii_alphanumeric, starts_with,
    string_of,
};

verus! {

/// The longest client order id that Binance accepts.
pub const CLIENT_ORDER_ID_MAX_LEN: usize = 36;

/// The length of the random nonce that ends every client order id.
pub const CLIENT_ORDER_ID_NONCE_LEN: usize = 6;

/// The base in which the local order id is written.
pub const ORDER_ID_BASE: u64 = 36;

/// The longest accepted strategy prefix.
pub const MAX_PREFIX_LEN: usize = 12;

pub type OrderId = u64;

#[derive(Clone, Copy, Debug, Eq, PartialEq)]
pub enum ClientOrderIdError {
    InvalidPrefix,
    Malformed,
}

/// A character Binance accepts in a client order id.
pub open spec fn is_allowed_char(c: char) -> bool {
    is_ascii_alphanumeric(c) || c == '-' || c == '_' || c == '.' || c == ':' || c == '/'
}

pub open spec fn all_allowed(s: Seq<char>) -> bool {
    forall|i: int| 0 <= i < s.len() ==> is_allowed_char(#[trigger] s[i])
}

/// A prefix that a codec accepts: 1 to 12 Binance-safe characters.
pub open spec fn valid_prefix(prefix: Seq<char>) -> bool {
    &&& 1 <= prefix.len() <= MAX_PREFIX_LEN
    &&& all_allowed(prefix)
}

/// A nonce: six ASCII letters or digits.
pub open spec fn is_nonce(nonce: Seq<char>) -> bool {
    nonce.len() == CLIENT_ORDER_ID_NONCE_LEN && all_alphanumeric(nonce)
}

/// The part every identifier owned by `prefix` starts with: the prefix, then `-v1-`.
pub open spec fn owned_marker(prefix: Seq<char>) -> Seq<char> {
    prefix + seq!['-', 'v', '1', '-']
}

/// The lower-case base-36 digit of a value below 36.
pub open spec fn base36_digit(d: nat) -> char {
    if d < 10 {
        (('0' as nat) + d) as char
    } else {
        (('a' as nat) + (d - 10)) as char
    }
}

/// The base-36 text of a value, most significant digit first, without leading zeros.
pub open spec fn base36_digits(v: nat) -> Seq<char>
    decreases v,
{
    if v < 36 {
        seq![base36_digit(v)]
    } else {
        base36_digits(v / 36).push(base36_digit(v % 36))
    }
}

/// The value of a base-36 digit, in either case.
pub open spec fn digit_value(c: char) -> Option<nat> {
    if '0' <= c && c <= '9' {
        Some((c as nat - '0' as nat) as nat)
    } else if 'a' <= c && c <= 'z' {
        Some((c as nat - 'a' as nat + 10) as nat)
    } else if 'A' <= c && c <= 'Z' {
        Some((c as nat - 'A' as nat + 10) as nat)
    } else {
        None
    }
}

/// The value of a text of base-36 digits, or `None` when a character is not a digit.
pub open spec fn base36_value(s: Seq<char>) -> Option<nat>
    decreases s.len(),
{
    if s.len() == 0 {
        Some(0)
    } else {
        match (base36_value(s.drop_last()), digit_value(s.last())) {
            (Some(v), Some(d)) => Some(v * 36 + d),
            _ => None,
        }
    }
}

/// The position of the first dash of `s`, if any.
pub open spec fn first_dash(s: Seq<char>) -> Option<int> {
    if exists|k: int| is_first_dash(s, k) {
        Some(choose|k: int| is_first_dash(s, k))
    } else {
        None
    }
}

pub open spec fn is_first_dash(s: Seq<char>, k: int) -> bool {
    &&& 0 <= k < s.len()
    &&& s[k] == '-'
    &&& forall|j: int| 0 <= j < k ==> s[j] != '-'
}

/// The identifier that `prefix` gives to `order_id` with the given nonce.
pub open spec fn spec_encode(prefix: Seq<char>, order_id: u64, nonce: Seq<char>) -> Seq<char> {
    owned_marker(prefix) + base36_digits(order_id as nat) + seq!['-'] + nonce
}

/// The nonce that ends an identifier.
pub open spec fn nonce_of(id: Seq<char>) -> Seq<char> {
    id.skip(id.len() - CLIENT_ORDER_ID_NONCE_LEN)
}

/// `id` is the identifier that `prefix` gives to `order_id` with some nonce.
pub open spec fn is_encoding_of(prefix: Seq<char>, order_id: u64, id: Seq<char>) -> bool {
    &&& id.len() >= CLIENT_ORDER_ID_NONCE_LEN
    &&& is_nonce(nonce_of(id))
    &&& id == spec_encode(prefix, order_id, nonce_of(id))
}

/// What decoding `id` gives for the codec with `prefix`: `Ok(None)` for another strategy's
/// identifier, `Malformed` for one that starts with this prefix but cannot be recovered.
pub open spec fn spec_decode(prefix: Seq<char>, id: Seq<char>) -> Result<Option<u64>, ClientOrderIdError> {
    let marker = owned_marker(prefix);
    if !marker.is_prefix_of(id) {
        if prefix.is_prefix_of(id) {
            Err(ClientOrderIdError::Malformed)
        } else {
            Ok(None)
        }
    } else if id.len() > CLIENT_ORDER_ID_MAX_LEN || !all_allowed(id) {
        Err(ClientOrderIdError::Malformed)
    } else {
        let payload = id.skip(marker.len() as int);
        match first_dash(payload) {
            None => Err(ClientOrderIdError::Malformed),
            Some(k) => {
                let encoded = payload.take(k);
                let nonce = payload.skip(k + 1);
                if encoded.len() == 0 || !is_nonce(nonce) {
                    Err(ClientOrderIdError::Malformed)
                } else {
                    match base36_value(encoded) {
                        Some(v) => if v <= u64::MAX {
                            Ok(Some(v as u64))
                        } else {
                            Err(ClientOrderIdError::Malformed)
                        },
                        None => Err(ClientOrderIdError::Malformed),
                    }
                }
            },
        }
    }
}

/// Encodes local order ids into Binance client order ids under one strategy prefix, and
/// recognises the identifiers it produced.
#[derive(Debug, Eq, PartialEq)]
pub struct ClientOrderIdCodec {
    prefix: Vec<char>,
}

impl View for ClientOrderIdCodec {
    type V = Seq<char>;

    closed spec fn view(&self) -> Seq<char> {
        self.prefix@
    }
}

impl Clone for ClientOrderIdCodec {
    fn clone(&self) -> (r: Self)
        ensures
            r@ == self@,
    {
        proof {
            use_type_invariant(self);
        }
        ClientOrderIdCodec { prefix: self.prefix.clone() }
    }
}

impl ClientOrderIdCodec {
    #[verifier::type_invariant]
    closed spec fn inv(self) -> bool {
        valid_prefix(self.prefix@)
    }

    pub fn new(prefix: &str) -> (r: Result<Self, ClientOrderIdError>)
        ensures
            r is Ok <==> valid_prefix(prefix@),
            r matches Ok(codec) ==> codec@ == prefix@,
            r matches Err(e) ==> e == ClientOrderIdError::InvalidPrefix,
    {
        let chars = chars_of(prefix);
        if chars.len() == 0 || chars.len() > MAX_PREFIX_LEN || !all_allowed_chars(&chars) {
            return Err(ClientOrderIdError::InvalidPrefix);
        }
        Ok(ClientOrderIdCodec { prefix: chars })
    }

    /// The codec's prefix.
    pub fn prefix(&self) -> (r: String)
        ensures
            r@ == self@,
            valid_prefix(self@),
    {
        proof {
            use_type_invariant(self);
        }
        string_of(&self.prefix)
    }

    /// Builds a fresh client order id for `order_id`; only the nonce is random.
    pub fn encode(&self, order_id: OrderId) -> (r: String)
        ensures
            valid_prefix(self@),
            is_encoding_of(self@, order_id, r@),
            r@.len() <= CLIENT_ORDER_ID_MAX_LEN,
            all_allowed(r@),
    {
        proof {
            use_type_invariant(self);
        }
        let mut out = string_of(&self.prefix);
        out.push('-');
        out.push('v');
        out.push('1');
        out.push('-');
        push_base36(&mut out, order_id);
        out.push('-');
        let nonce = random_alphanumeric(CLIENT_ORDER_ID_NONCE_LEN);
        let ghost before_nonce = out@;
        let nonce_chars = chars_of(nonce.as_str());
        crate::text::push_all(&mut out, &nonce_chars);
        proof {
            let p = self.prefix@;
            let d = base36_digits(order_id as nat);
            assert(before_nonce =~= owned_marker(p) + d + seq!['-']);
            assert(out@ =~= spec_encode(p, order_id, nonce@));
            assert(nonce_of(out@) =~= nonce@);
            lemma_base36_digits_len(order_id as nat);
            lemma_encoding_allowed(p, order_id, nonce@);
        }
        out
    }

    /// Recovers the local order id from a client order id: `Ok(None)` for an identifier of
    /// another namespace, `Malformed` for one that carries this prefix but cannot be trusted.
    pub fn decode(&self, client_order_id: &str) -> (r: Result<Option<OrderId>, ClientOrderIdError>)
        ensures
            r == spec_decode(self@, client_order_id@),
    {
        let id = chars_of(client_order_id);
        let mut marker = self.prefix.clone();
        marker.push('-');
        marker.push('v');
        marker.push('1');
        marker.push('-');
        assert(marker@ =~= owned_marker(self.prefix@));
        if !starts_with(&id, &marker) {
            if starts_with(&id, &self.prefix) {
                return Err(ClientOrderIdError::Malformed);
            }
            return Ok(None);
        }
        if id.len() > CLIENT_ORDER_ID_MAX_LEN || !all_allowed_chars(&id) {
            return Err(ClientOrderIdError::Malformed);
        }
        let start = marker.len();
        let ghost payload = id@.skip(start as int);
        let mut k: usize = start;
        while k < id.len() && id[k] != '-'
            invariant
                start <= k <= id.len(),
                payload == id@.skip(start as int),
                forall|j: int| start <= j < k ==> id@[j] != '-',
            decreases id.len() - k,
        {
            k = k + 1;
        }
        if k == id.len() {
            proof {
                assert forall|m: int| !is_first_dash(payload, m) by {
                    if 0 <= m < payload.len() {
                        assert(payload[m] == id@[start + m]);
                    }
                }
            }
            return Err(ClientOrderIdError::Malformed);
        }
        proof {
            let kk = (k - start) as int;
            assert(payload[kk] == id@[k as int]);
            assert forall|j: int| 0 <= j < kk implies payload[j] != '-' by {
                assert(payload[j] == id@[start + j]);
            }
            assert(is_first_dash(payload, kk));
            let c = choose|m: int| is_first_dash(payload, m);
            assert(is_first_dash(payload, c));
            if c < kk {
                assert(payload[c] == '-');
            } else if c > kk {
                assert(payload[kk] != '-');
            }
            assert(first_dash(payload) == Some(kk));
        }
        let nonce_len = id.len() - k - 1;
        if k == start || nonce_len != CLIENT_ORDER_ID_NONCE_LEN || !all_alphanumeric_from(&id, k + 1) {
            proof {
                let kk = (k - start) as int;
                assert(payload.take(kk).len() == k - start);
                assert(payload.skip(kk + 1) =~= id@.skip(k + 1));
            }
            return Err(ClientOrderIdError::Malformed);
        }
        proof {
            let kk = (k - start) as int;
            assert(payload.skip(kk + 1) =~= id@.skip(k + 1));
            assert(payload.take(kk) =~= id@.subrange(start as int, k as int));
        }
        parse_base36(&id, start, k)
    }
}

/// Whether every character is accepted in a client order id.
fn all_allowed_chars(s: &Vec<char>) -> (r: bool)
    ensures
        r == all_allowed(s@),
{
    let mut i: usize = 0;
    while i < s.len()
        invariant
            i <= s.len(),
            forall|j: int| 0 <= j < i ==> is_allowed_char(#[trigger] s@[j]),
        decreases s.len() - i,
    {
        if !is_allowed_client_order_id_char(s[i]) {
            return false;
        }
        i = i + 1;
    }
    true
}

/// Whether every character of `s` from `from` on is an ASCII letter or digit.
fn all_alphanumeric_from(s: &Vec<char>, from: usize) -> (r: bool)
    requires
        from <= s.len(),
    ensures
        r == all_alphanumeric(s@.skip(from as int)),
{
    let mut i: usize = from;
    while i < s.len()
        invariant
            from <= i <= s.len(),
            forall|j: int| from <= j < i ==> is_ascii_alphanumeric(#[trigger] s@[j]),
        decreases s.len() - i,
    {
        if !char_is_ascii_alphanumeric(s[i]) {
            assert(s@.skip(from as int)[i - from] == s@[i as int]);
            return false;
        }
        i = i + 1;
    }
    assert forall|j: int| 0 <= j < s@.skip(from as int).len() implies is_ascii_alphanumeric(
        #[trigger] s@.skip(from as int)[j],
    ) by {
        assert(s@.skip(from as int)[j] == s@[from + j]);
    }
    true
}

/// Whether Binance accepts the character in a client order id.
pub fn is_allowed_client_order_id_char(c: char) -> (r: bool)
    ensures
        r == is_allowed_char(c),
{
    char_is_ascii_alphanumeric(c) || c == '-' || c == '_' || c == '.' || c == ':' || c == '/'
}

fn digit_of(d: u64) -> (c: char)
    requires
        d < 36,
    ensures
        c == base36_digit(d as nat),
{
    if d < 10 {
        let b: u8 = 48u8 + (d as u8);
        crate::text::ascii_char(b)
    } else {
        let b: u8 = 97u8 + ((d - 10) as u8);
        crate::text::ascii_char(b)
    }
}

/// Appends the base-36 digits of `value`.
fn push_base36(out: &mut String, value: u64)
    ensures
        final(out)@ == old(out)@ + base36_digits(value as nat),
    decreases value,
{
    if value >= 36 {
        push_base36(out, value / 36);
    }
    out.push(digit_of(value % 36));
    proof {
        if value >= 36 {
            assert(base36_digits(value as nat) == base36_digits((value / 36) as nat).push(
                base36_digit((value % 36) as nat),
            ));
        }
    }
}

/// The base-36 text of a value.
pub fn encode_base36(value: OrderId) -> (r: String)
    ensures
        r@ == base36_digits(value as nat),
{
    let mut out = String::new();
    push_base36(&mut out, value);
    assert(out@ =~= base36_digits(value as nat));
    out
}

fn value_of_digit(c: char) -> (r: Option<u64>)
    ensures
        match digit_value(c) {
            Some(d) => r == Some(d as u64),
            None => r is None,
        },
{
    if '0' <= c && c <= '9' {
        Some((c as u32 - '0' as u32) as u64)
    } else if 'a' <= c && c <= 'z' {
        Some((c as u32 - 'a' as u32 + 10) as u64)
    } else if 'A' <= c && c <= 'Z' {
        Some((c as u32 - 'A' as u32 + 10) as u64)
    } else {
        None
    }
}

/// Parses `s[from..to]` as a base-36 number that fits in 64 bits.
fn parse_base36(s: &Vec<char>, from: usize, to: usize) -> (r: Result<Option<OrderId>, ClientOrderIdError>)
    requires
        from < to <= s.len(),
    ensures
        r == (match base36_value(s@.subrange(from as int, to as int)) {
            Some(v) => if v <= u64::MAX {
                Ok(Some(v as u64))
            } else {
                Err(ClientOrderIdError::Malformed)
            },
            None => Err(ClientOrderIdError::Malformed),
        }),
{
    let mut acc: u64 = 0;
    let mut i: usize = from;
    let mut overflow = false;
    assert(s@.subrange(from as int, from as int) =~= Seq::<char>::empty());
    while i < to
        invariant
            from <= i <= to <= s.len(),
            overflow ==> (base36_value(s@.subrange(from as int, i as int)) matches Some(v) ==> v > u64::MAX),
            !overflow ==> base36_value(s@.subrange(from as int, i as int)) == Some(acc as nat),
        decreases to - i,
    {
        let ghost prev = s@.subrange(from as int, i as int);
        let ghost next = s@.subrange(from as int, i + 1);
        assert(next.drop_last() =~= prev);
        assert(next.last() == s@[i as int]);
        match value_of_digit(s[i]) {
            None => {
                proof {
                    lemma_base36_value_invalid_extends(s@.subrange(from as int, to as int), (i - from) as int);
                    assert(s@.subrange(from as int, to as int).take(i + 1 - from) =~= next);
                }
                return Err(ClientOrderIdError::Malformed);
            },
            Some(d) => {
                if !overflow {
                    match acc.checked_mul(ORDER_ID_BASE) {
                        Some(m) => match m.checked_add(d) {
                            Some(n) => {
                                acc = n;
                            },
                            None => {
                                overflow = true;
                            },
                        },
                        None => {
                            overflow = true;
                            assert(acc * 36 + d > u64::MAX) by (nonlinear_arith)
                                requires acc * 36 > u64::MAX, d >= 0;
                        },
                    }
                } else {
                    proof {
                        if let Some(v) = base36_value(prev) {
                            assert(v * 36 + d >= v) by (nonlinear_arith)
                                requires v >= 0, d >= 0;
                        }
                    }
                }
            },
        }
        i = i + 1;
    }
    if overflow {
        Err(ClientOrderIdError::Malformed)
    } else {
        Ok(Some(acc))
    }
}

/// Once a character that is not a digit occurs, no longer text has a value.
proof fn lemma_base36_value_invalid_extends(s: Seq<char>, i: int)
    requires
        0 <= i < s.len(),
        base36_value(s.take(i + 1)) is None,
    ensures
        base36_value(s) is None,
    decreases s.len() - i,
{
    if i + 1 == s.len() {
        assert(s.take(i + 1) =~= s);
    } else {
        let t = s.take(i + 2);
        assert(t.drop_last() =~= s.take(i + 1));
        assert(base36_value(t) is None);
        assert(s.take(i + 2) =~= s.take(i + 2));
        lemma_base36_value_invalid_prefix(s, i + 1);
    }
}

proof fn lemma_base36_value_invalid_prefix(s: Seq<char>, n: int)
    requires
        0 < n <= s.len(),
        base36_value(s.take(n)) is None,
    ensures
        base36_value(s) is None,
    decreases s.len() - n,
{
    if n == s.len() {
        assert(s.take(n) =~= s);
    } else {
        let t = s.take(n + 1);
        assert(t.drop_last() =~= s.take(n));
        lemma_base36_value_invalid_prefix(s, n + 1);
    }
}

/// A fresh random text of ASCII letters and digits.
pub fn random_alphanumeric(length: usize) -> (r: String)
    ensures
        r@.len() == length,
        all_alphanumeric(r@),
{
    let mut out = String::new();
    let mut i: usize = 0;
    while i < length
        invariant
            i <= length,
            out@.len() == i,
            all_alphanumeric(out@),
        decreases length - i,
    {
        let k = random_below(62);
        let c = charset_char(k);
        out.push(c);
        i = i + 1;
    }
    out
}

/// A random identifier of `length` characters drawn from the ASCII letters and digits.
pub fn generate_random_id(length: usize) -> (r: String)
    ensures
        r@.len() == length,
        all_alphanumeric(r@),
{
    random_alphanumeric(length)
}

/// The `k`-th character of `A..Z`, `a..z`, `0..9`.
fn charset_char(k: usize) -> (c: char)
    requires
        k < 62,
    ensures
        is_ascii_alphanumeric(c),
{
    if k < 26 {
        crate::text::ascii_char(65u8 + k as u8)
    } else if k < 52 {
        crate::text::ascii_char(97u8 + (k - 26) as u8)
    } else {
        crate::text::ascii_char(48u8 + (k - 52) as u8)
    }
}

/// `rand::rng().random_range(0..bound)`: a uniformly drawn index below `bound`.
/// Only the range is promised; the value itself is random.
#[verifier::external_body]
fn random_below(bound: usize) -> (r: usize)
    requires
        bound > 0,
    ensures
        r < bound,
{
    rand::rng().random_range(0..bound)
}

/// A base-36 text of a 64-bit value has at most 13 digits.
pub proof fn lemma_base36_digits_len(v: nat)
    requires
        v <= u64::MAX,
    ensures
        1 <= base36_digits(v).len() <= 13,
{
    assert(pow36(13) > u64::MAX) by {
        reveal_with_fuel(pow36, 14);
    }
    lemma_base36_digits_len_below(v, 13);
}

proof fn lemma_base36_digits_len_below(v: nat, k: nat)
    requires
        k >= 1,
        v < pow36(k),
    ensures
        1 <= base36_digits(v).len() <= k,
    decreases k,
{
    if v >= 36 {
        assert(k > 1) by {
            if k == 1 {
                assert(pow36(1) == 36) by {
                    assert(pow36(0) == 1);
                }
            }
        }
        let k1 = (k - 1) as nat;
        assert(pow36(k) == 36 * pow36(k1));
        assert(v / 36 < pow36(k1)) by (nonlinear_arith)
            requires v < 36 * pow36(k1);
        lemma_base36_digits_len_below(v / 36, k1);
    }
}

pub open spec fn pow36(k: nat) -> nat
    decreases k,
{
    if k == 0 {
        1
    } else {
        36 * pow36((k - 1) as nat)
    }
}

proof fn lemma_digit(d: nat)
    requires
        d < 36,
    ensures
        digit_value(base36_digit(d)) == Some(d),
        is_ascii_alphanumeric(base36_digit(d)),
        base36_digit(d) != '-',
{
    let c = base36_digit(d);
    if d < 10 {
        assert(c as nat == 48 + d);
    } else {
        assert(c as nat == 87 + d);
    }
}

/// Every digit of a base-36 text is a letter or digit, and its value is the number written.
proof fn lemma_base36_digits_value(v: nat)
    ensures
        base36_value(base36_digits(v)) == Some(v),
        all_alphanumeric(base36_digits(v)),
        forall|i: int| 0 <= i < base36_digits(v).len() ==> #[trigger] base36_digits(v)[i] != '-',
    decreases v,
{
    if v < 36 {
        let s = base36_digits(v);
        lemma_digit(v);
        assert(s.drop_last() =~= Seq::<char>::empty());
    } else {
        lemma_digit(v % 36);
        lemma_base36_digits_value(v / 36);
        let s = base36_digits(v);
        assert(s.drop_last() =~= base36_digits(v / 36));
        assert(v == (v / 36) * 36 + v % 36);
    }
}

/// Every identifier a codec produces is a Binance-safe text of at most 36 characters.
proof fn lemma_encoding_allowed(prefix: Seq<char>, order_id: u64, nonce: Seq<char>)
    requires
        valid_prefix(prefix),
        is_nonce(nonce),
    ensures
        spec_encode(prefix, order_id, nonce).len() <= CLIENT_ORDER_ID_MAX_LEN,
        all_allowed(spec_encode(prefix, order_id, nonce)),
{
    let d = base36_digits(order_id as nat);
    lemma_base36_digits_len(order_id as nat);
    lemma_base36_digits_value(order_id as nat);
    let s = spec_encode(prefix, order_id, nonce);
    let m = owned_marker(prefix);
    assert forall|i: int| 0 <= i < s.len() implies is_allowed_char(#[trigger] s[i]) by {
        if i < prefix.len() {
            assert(s[i] == prefix[i]);
        } else if i < m.len() {
        } else if i < m.len() + d.len() {
            assert(s[i] == d[i - m.len()]);
        } else if i == m.len() + d.len() {
        } else {
            assert(s[i] == nonce[i - m.len() - d.len() - 1]);
        }
    }
}

/// Decoding gives back the order id of every identifier the codec produces.
pub proof fn decode_inverts_encode(prefix: Seq<char>, order_id: u64, nonce: Seq<char>)
    requires
        valid_prefix(prefix),
        is_nonce(nonce),
    ensures
        spec_decode(prefix, spec_encode(prefix, order_id, nonce)) == Ok::<Option<u64>, ClientOrderIdError>(Some(order_id)),
{
    let d = base36_digits(order_id as nat);
    lemma_base36_digits_len(order_id as nat);
    lemma_base36_digits_value(order_id as nat);
    lemma_encoding_allowed(prefix, order_id, nonce);
    let s = spec_encode(prefix, order_id, nonce);
    let m = owned_marker(prefix);
    assert(m.is_prefix_of(s)) by {
        assert(m =~= s.subrange(0, m.len() as int));
    }
    let payload = s.skip(m.len() as int);
    assert(payload =~= d + seq!['-'] + nonce);
    let k = d.len() as int;
    assert(is_first_dash(payload, k)) by {
        assert forall|j: int| 0 <= j < k implies payload[j] != '-' by {
            assert(payload[j] == d[j]);
        }
    }
    let c = choose|j: int| is_first_dash(payload, j);
    assert(c == k) by {
        if c < k {
            assert(payload[c] == d[c]);
        } else if c > k {
            assert(payload[k] == '-');
        }
    }
    assert(payload.take(k) =~= d);
    assert(payload.skip(k + 1) =~= nonce);
}

/// Every identifier the codec produces decodes to the order id it encodes.
pub proof fn decode_of_encoding(prefix: Seq<char>, order_id: u64, id: Seq<char>)
    requires
        valid_prefix(prefix),
        is_encoding_of(prefix, order_id, id),
    ensures
        spec_decode(prefix, id) == Ok::<Option<u64>, ClientOrderIdError>(Some(order_id)),
{
    decode_inverts_encode(prefix, order_id, nonce_of(id));
}

/// A text that does not start with the codec's prefix belongs to another namespace.
pub proof fn foreign_ids_are_ignored(prefix: Seq<char>, id: Seq<char>)
    requires
        !prefix.is_prefix_of(id),
    ensures
        spec_decode(prefix, id) == Ok::<Option<u64>, ClientOrderIdError>(None),
{
    let m = owned_marker(prefix);
    if m.is_prefix_of(id) {
        assert(prefix =~= id.subrange(0, prefix.len() as int)) by {
            assert forall|i: int| 0 <= i < prefix.len() implies prefix[i] == id[i] by {
                assert(m[i] == prefix[i]);
                assert(m[i] == id.subrange(0, m.len() as int)[i]);
            }
        }
    }
}

/// Decoding sorts every text into three cases: `Ok(None)` exactly for a text that does not start
/// with the prefix (another strategy's namespace); `Ok(Some(n))` only for the marker followed by
/// a non-empty base-36 numeral of `n`, a dash and a six-character nonce, within the length limit
/// and made of allowed characters; `Malformed` in every other case.
pub proof fn decode_outcomes(prefix: Seq<char>, id: Seq<char>)
    ensures
        (spec_decode(prefix, id) == Ok::<Option<u64>, ClientOrderIdError>(None))
            <==> !prefix.is_prefix_of(id),
        spec_decode(prefix, id) is Ok || spec_decode(prefix, id) == Err::<
            Option<u64>,
            ClientOrderIdError,
        >(ClientOrderIdError::Malformed),
        spec_decode(prefix, id) matches Ok(Some(n)) ==> {
            &&& id.len() <= CLIENT_ORDER_ID_MAX_LEN
            &&& all_allowed(id)
            &&& exists|digits: Seq<char>, nonce: Seq<char>|
                {
                    &&& id == owned_marker(prefix) + digits + seq!['-'] + nonce
                    &&& digits.len() > 0
                    &&& base36_value(digits) == Some(n as nat)
                    &&& is_nonce(nonce)
                }
        },
{
    let m = owned_marker(prefix);
    if !prefix.is_prefix_of(id) {
        foreign_ids_are_ignored(prefix, id);
    } else if m.is_prefix_of(id) && id.len() <= CLIENT_ORDER_ID_MAX_LEN && all_allowed(id) {
        let payload = id.skip(m.len() as int);
        if let Some(k) = first_dash(payload) {
            let digits = payload.take(k);
            let nonce = payload.skip(k + 1);
            assert(is_first_dash(payload, k));
            assert(id =~= m + digits + seq!['-'] + nonce) by {
                assert(id =~= id.subrange(0, m.len() as int) + payload);
                assert(payload =~= digits + seq!['-'] + nonce);
            }
        }
    }
}

/// The pair of symbol and local order id by which an order is found again.
#[derive(Clone, Debug, Eq, PartialEq, Hash)]
pub struct SymbolOrderId {
    pub symbol: String,
    pub order_id: OrderId,
}

impl SymbolOrderId {
    pub fn new(symbol: String, order_id: OrderId) -> (r: Self)
        ensures
            r.symbol == symbol,
            r.order_id == order_id,
    {
        SymbolOrderId { symbol, order_id }
    }
}

/// A borrowed symbol and order id, used to look up a `SymbolOrderId`.
#[derive(Debug, Eq, PartialEq, Hash)]
pub struct RefSymbolOrderId<'a> {
    pub symbol: &'a str,
    pub order_id: OrderId,
}

impl<'a> RefSymbolOrderId<'a> {
    pub fn new(symbol: &'a str, order_id: OrderId) -> (r: Self)
        ensures
            r.symbol == symbol,
            r.order_id == order_id,
    {
        RefSymbolOrderId { symbol, order_id }
    }

    /// Whether this borrowed key names the same order as `key`.
    pub fn equivalent(&self, key: &SymbolOrderId) -> (r: bool)
        ensures
            r == (key.symbol@ == self.symbol@ && key.order_id == self.order_id),
    {
        crate::text::str_equal(key.symbol.as_str(), self.symbol) && key.order_id == self.order_id
    }
}

} // verus!
