//! Byte- and character-level text utilities: decimal and hexadecimal
//! parsing and rendering, byte search, and ASCII case mapping.

use vstd::prelude::*;

verus! {

// ---------------------------------------------------------------------------
// Byte-domain decimal parsing (the shape `u64::from_str` accepts: an
// optional leading `+`, then one or more ASCII digits, value in range).
// ---------------------------------------------------------------------------

pub open spec fn is_digit_byte(b: u8) -> bool {
    48 <= b <= 57
}

pub open spec fn digit_byte_val(b: u8) -> nat {
    (b - 48) as nat
}

pub open spec fn all_digit_bytes(s: Seq<u8>) -> bool {
    forall|i: int| 0 <= i < s.len() ==> is_digit_byte(#[trigger] s[i])
}

/// Numeric value of a sequence of ASCII digits, most significant first.
pub open spec fn dec_bytes_val(s: Seq<u8>) -> nat
    decreases s.len(),
{
    if s.len() == 0 {
        0
    } else {
        dec_bytes_val(s.drop_last()) * 10 + digit_byte_val(s.last())
    }
}

/// The digit body of a decimal token: a single leading `+` is allowed.
pub open spec fn dec_body(s: Seq<u8>) -> Seq<u8> {
    if s.len() > 0 && s[0] == 43u8 {
        s.skip(1)
    } else {
        s
    }
}

/// A token parses as an unsigned decimal when its body is one or more digits.
pub open spec fn dec_token_ok(s: Seq<u8>) -> bool {
    &&& dec_body(s).len() > 0
    &&& all_digit_bytes(dec_body(s))
}

/// Extending a digit string on the right never decreases its value.
proof fn lemma_dec_prefix_le(s: Seq<u8>, i: int)
    requires
        0 <= i <= s.len(),
    ensures
        dec_bytes_val(s.subrange(0, i)) <= dec_bytes_val(s),
    decreases s.len() - i,
{
    if i == s.len() {
        assert(s.subrange(0, i) =~= s);
    } else {
        let p = s.subrange(0, i);
        let q = s.subrange(0, i + 1);
        assert(q.drop_last() =~= p);
        assert(dec_bytes_val(q) == dec_bytes_val(p) * 10 + digit_byte_val(q.last()));
        assert(dec_bytes_val(p) * 10 >= dec_bytes_val(p)) by (nonlinear_arith)
            requires dec_bytes_val(p) >= 0;
        lemma_dec_prefix_le(s, i + 1);
    }
}

/// Parse an unsigned decimal from bytes, as `str::parse::<u64>` does.
pub fn parse_u64_dec(s: &[u8]) -> (r: Option<u64>)
    ensures
        r is Some <==> dec_token_ok(s@) && dec_bytes_val(dec_body(s@)) <= u64::MAX,
        r is Some ==> r->0 == dec_bytes_val(dec_body(s@)),
{
    let start: usize = if s.len() > 0 && s[0] == 43u8 {
        1
    } else {
        0
    };
    assert(dec_body(s@) =~= s@.skip(start as int));
    let ghost body: Seq<u8> = s@.skip(start as int);
    if s.len() == start {
        return None;
    }
    let mut val: u64 = 0;
    let mut i: usize = start;
    while i < s.len()
        invariant
            start <= i <= s.len(),
            start < s@.len(),
            body == s@.skip(start as int),
            dec_body(s@) == body,
            all_digit_bytes(body.subrange(0, i - start)),
            val == dec_bytes_val(body.subrange(0, i - start)),
        decreases s.len() - i,
    {
        let b = s[i];
        if b < 48 || b > 57 {
            assert(!is_digit_byte(body[i - start]));
            return None;
        }
        let d: u64 = (b - 48) as u64;
        if val > (u64::MAX - d) / 10 {
            proof {
                let p = body.subrange(0, i + 1 - start);
                assert(p.drop_last() =~= body.subrange(0, i - start));
                assert(p.last() == body[i - start]);
                assert(dec_bytes_val(p) == val * 10 + d);
                assert(val * 10 + d > u64::MAX) by (nonlinear_arith)
                    requires val > ((u64::MAX - d) / 10) as int, 0 <= d <= 9, val <= u64::MAX;
                lemma_dec_prefix_le(body, i + 1 - start);
            }
            return None;
        }
        proof {
            let p = body.subrange(0, i + 1 - start);
            assert(p.drop_last() =~= body.subrange(0, i - start));
            assert(p.last() == body[i - start]);
        }
        val = val * 10 + d;
        i = i + 1;
    }
    assert(body.subrange(0, i - start) =~= body);
    Some(val)
}

/// Parse an unsigned decimal that must fit in `u16`.
pub fn parse_u16_dec(s: &[u8]) -> (r: Option<u16>)
    ensures
        r is Some <==> dec_token_ok(s@) && dec_bytes_val(dec_body(s@)) <= u16::MAX,
        r is Some ==> r->0 == dec_bytes_val(dec_body(s@)),
{
    match parse_u64_dec(s) {
        Some(v) => {
            if v <= u16::MAX as u64 {
                Some(v as u16)
            } else {
                None
            }
        },
        None => {
            proof {
                if dec_token_ok(s@) && dec_bytes_val(dec_body(s@)) <= u16::MAX {
                    assert(dec_bytes_val(dec_body(s@)) <= u64::MAX);
                }
            }
            None
        },
    }
}

/// Parse an unsigned decimal that must fit in `usize`.
pub fn parse_usize_dec(s: &[u8]) -> (r: Option<usize>)
    ensures
        r is Some <==> dec_token_ok(s@) && dec_bytes_val(dec_body(s@)) <= usize::MAX,
        r is Some ==> r->0 == dec_bytes_val(dec_body(s@)),
{
    match parse_u64_dec(s) {
        Some(v) => {
            if v <= usize::MAX as u64 {
                Some(v as usize)
            } else {
                None
            }
        },
        None => {
            proof {
                if dec_token_ok(s@) && dec_bytes_val(dec_body(s@)) <= usize::MAX {
                    assert(dec_bytes_val(dec_body(s@)) <= u64::MAX);
                }
            }
            None
        },
    }
}

// ---------------------------------------------------------------------------
// Byte-domain hexadecimal parsing (the shape `u64::from_str_radix(_, 16)`
// accepts: an optional leading `+`, then one or more hex digits, any case).
// ---------------------------------------------------------------------------

pub open spec fn is_hex_byte(b: u8) -> bool {
    (48 <= b <= 57) || (97 <= b <= 102) || (65 <= b <= 70)
}

pub open spec fn hex_byte_val(b: u8) -> nat {
    if 48 <= b <= 57 {
        (b - 48) as nat
    } else if 97 <= b <= 102 {
        (b - 87) as nat
    } else {
        (b - 55) as nat
    }
}

pub open spec fn all_hex_bytes(s: Seq<u8>) -> bool {
    forall|i: int| 0 <= i < s.len() ==> is_hex_byte(#[trigger] s[i])
}

pub open spec fn hex_bytes_val(s: Seq<u8>) -> nat
    decreases s.len(),
{
    if s.len() == 0 {
        0
    } else {
        hex_bytes_val(s.drop_last()) * 16 + hex_byte_val(s.last())
    }
}

pub open spec fn hex_token_ok(s: Seq<u8>) -> bool {
    &&& dec_body(s).len() > 0
    &&& all_hex_bytes(dec_body(s))
}

proof fn lemma_hex_prefix_le(s: Seq<u8>, i: int)
    requires
        0 <= i <= s.len(),
    ensures
        hex_bytes_val(s.subrange(0, i)) <= hex_bytes_val(s),
    decreases s.len() - i,
{
    if i == s.len() {
        assert(s.subrange(0, i) =~= s);
    } else {
        let p = s.subrange(0, i);
        let q = s.subrange(0, i + 1);
        assert(q.drop_last() =~= p);
        assert(hex_bytes_val(p) * 16 >= hex_bytes_val(p)) by (nonlinear_arith)
            requires hex_bytes_val(p) >= 0;
        lemma_hex_prefix_le(s, i + 1);
    }
}

/// Parse an unsigned hexadecimal token from bytes.
pub fn parse_u64_hex(s: &[u8]) -> (r: Option<u64>)
    ensures
        r is Some <==> hex_token_ok(s@) && hex_bytes_val(dec_body(s@)) <= u64::MAX,
        r is Some ==> r->0 == hex_bytes_val(dec_body(s@)),
{
    let start: usize = if s.len() > 0 && s[0] == 43u8 {
        1
    } else {
        0
    };
    assert(dec_body(s@) =~= s@.skip(start as int));
    let ghost body: Seq<u8> = s@.skip(start as int);
    if s.len() == start {
        return None;
    }
    let mut val: u64 = 0;
    let mut i: usize = start;
    while i < s.len()
        invariant
            start <= i <= s.len(),
            start < s@.len(),
            body == s@.skip(start as int),
            dec_body(s@) == body,
            all_hex_bytes(body.subrange(0, i - start)),
            val == hex_bytes_val(body.subrange(0, i - start)),
        decreases s.len() - i,
    {
        let b = s[i];
        let d: u64 = if 48 <= b && b <= 57 {
            (b - 48) as u64
        } else if 97 <= b && b <= 102 {
            (b - 87) as u64
        } else if 65 <= b && b <= 70 {
            (b - 55) as u64
        } else {
            assert(!is_hex_byte(body[i - start]));
            assert(!all_hex_bytes(body));
            return None;
        };
        assert(is_hex_byte(body[i - start]) && d == hex_byte_val(body[i - start]));
        if val > (u64::MAX - d) / 16 {
            proof {
                let p = body.subrange(0, i + 1 - start);
                assert(p.drop_last() =~= body.subrange(0, i - start));
                assert(p.last() == body[i - start]);
                assert(hex_bytes_val(p) == val * 16 + d);
                assert(val * 16 + d > u64::MAX) by (nonlinear_arith)
                    requires val > ((u64::MAX - d) / 16) as int, 0 <= d <= 15, val <= u64::MAX;
                lemma_hex_prefix_le(body, i + 1 - start);
                assert(hex_bytes_val(body) > u64::MAX);
            }
            return None;
        }
        proof {
            let p = body.subrange(0, i + 1 - start);
            assert(p.drop_last() =~= body.subrange(0, i - start));
            assert(p.last() == body[i - start]);
        }
        val = val * 16 + d;
        i = i + 1;
    }
    assert(body.subrange(0, i - start) =~= body);
    Some(val)
}

// ---------------------------------------------------------------------------
// Byte search, comparison and ASCII case mapping.
// ---------------------------------------------------------------------------

/// First index at which `b` occurs in `s`, if any.
pub open spec fn spec_find_byte(s: Seq<u8>, b: u8) -> Option<int>
    decreases s.len(),
{
    if s.len() == 0 {
        None
    } else if s[0] == b {
        Some(0)
    } else {
        match spec_find_byte(s.skip(1), b) {
            Some(i) => Some(i + 1),
            None => None,
        }
    }
}

/// `spec_find_byte` returns exactly the first occurrence.
pub proof fn lemma_find_byte(s: Seq<u8>, b: u8)
    ensures
        match spec_find_byte(s, b) {
            Some(i) => 0 <= i < s.len() && s[i] == b && (forall|j: int|
                0 <= j < i ==> s[j] != b),
            None => forall|j: int| 0 <= j < s.len() ==> s[j] != b,
        },
    decreases s.len(),
{
    if s.len() > 0 && s[0] != b {
        lemma_find_byte(s.skip(1), b);
        assert(forall|j: int| 1 <= j < s.len() ==> s[j] == #[trigger] s.skip(1)[j - 1]);
        match spec_find_byte(s.skip(1), b) {
            Some(i) => {
                assert(s[i + 1] == s.skip(1)[i]);
                assert(forall|j: int| 0 <= j < i + 1 ==> s[j] != b) by {
                    assert(forall|j: int| 1 <= j < i + 1 ==> #[trigger] s[j] == s.skip(1)[j - 1]
                        && s.skip(1)[j - 1] != b);
                }
            },
            None => {
                assert(forall|j: int| 0 <= j < s.len() ==> s[j] != b) by {
                    assert(forall|j: int| 1 <= j < s.len() ==> #[trigger] s[j] == s.skip(1)[j - 1]
                        && s.skip(1)[j - 1] != b);
                }
            },
        }
    }
}

/// Find the first occurrence of `b` in `s` at or after `from`.
pub fn find_byte_from(s: &[u8], b: u8, from: usize) -> (r: Option<usize>)
    requires
        from <= s@.len(),
    ensures
        r matches Some(i) ==> from <= i < s@.len() && s@[i as int] == b && (forall|j: int|
            from <= j < i ==> s@[j] != b),
        r is None ==> forall|j: int| from <= j < s@.len() ==> s@[j] != b,
{
    let mut i: usize = from;
    while i < s.len()
        invariant
            from <= i <= s@.len(),
            forall|j: int| from <= j < i ==> s@[j] != b,
        decreases s.len() - i,
    {
        if s[i] == b {
            return Some(i);
        }
        i = i + 1;
    }
    None
}

/// Exact comparison of two byte strings.
pub fn bytes_eq(a: &[u8], b: &[u8]) -> (r: bool)
    ensures
        r <==> a@ == b@,
{
    if a.len() != b.len() {
        return false;
    }
    let mut i: usize = 0;
    while i < a.len()
        invariant
            0 <= i <= a@.len(),
            a@.len() == b@.len(),
            forall|j: int| 0 <= j < i ==> a@[j] == b@[j],
        decreases a.len() - i,
    {
        if a[i] != b[i] {
            return false;
        }
        i = i + 1;
    }
    assert(a@ =~= b@);
    true
}

pub open spec fn upper_byte(b: u8) -> u8 {
    if 97 <= b <= 122 {
        (b - 32) as u8
    } else {
        b
    }
}

pub open spec fn spec_upper_bytes(s: Seq<u8>) -> Seq<u8> {
    Seq::new(s.len(), |i: int| upper_byte(s[i]))
}

/// ASCII upper-casing of a byte string; other bytes pass through.
pub fn ascii_upper(s: &[u8]) -> (r: Vec<u8>)
    ensures
        r@ == spec_upper_bytes(s@),
{
    let mut out: Vec<u8> = Vec::new();
    let mut i: usize = 0;
    while i < s.len()
        invariant
            0 <= i <= s@.len(),
            out@.len() == i,
            forall|j: int| 0 <= j < i ==> out@[j] == upper_byte(s@[j]),
        decreases s.len() - i,
    {
        let b = s[i];
        if 97 <= b && b <= 122 {
            out.push(b - 32);
        } else {
            out.push(b);
        }
        i = i + 1;
    }
    assert(out@ =~= spec_upper_bytes(s@));
    out
}

// ---------------------------------------------------------------------------
// Rendering: decimal and hexadecimal, into `String`.
// ---------------------------------------------------------------------------

pub open spec fn digit_char(d: nat) -> char {
    if d == 0 { '0' }
    else if d == 1 { '1' }
    else if d == 2 { '2' }
    else if d == 3 { '3' }
    else if d == 4 { '4' }
    else if d == 5 { '5' }
    else if d == 6 { '6' }
    else if d == 7 { '7' }
    else if d == 8 { '8' }
    else { '9' }
}

pub open spec fn hex_char(d: nat) -> char {
    if d < 10 { digit_char(d) }
    else if d == 10 { 'a' }
    else if d == 11 { 'b' }
    else if d == 12 { 'c' }
    else if d == 13 { 'd' }
    else if d == 14 { 'e' }
    else { 'f' }
}

/// Decimal rendering of `n`, most significant digit first, no sign,
/// no leading zeros (a single `0` for zero).
pub open spec fn spec_dec_u64(n: nat) -> Seq<char>
    decreases n,
{
    if n < 10 {
        seq![digit_char(n)]
    } else {
        spec_dec_u64(n / 10) + seq![digit_char(n % 10)]
    }
}

fn digit_str(d: u64) -> (r: &'static str)
    requires
        d < 10,
    ensures
        r@ == seq![digit_char(d as nat)],
{
    let r: &'static str = if d == 0 { "0" }
    else if d == 1 { "1" }
    else if d == 2 { "2" }
    else if d == 3 { "3" }
    else if d == 4 { "4" }
    else if d == 5 { "5" }
    else if d == 6 { "6" }
    else if d == 7 { "7" }
    else if d == 8 { "8" }
    else { "9" };
    proof {
        reveal_strlit("0");
        reveal_strlit("1");
        reveal_strlit("2");
        reveal_strlit("3");
        reveal_strlit("4");
        reveal_strlit("5");
        reveal_strlit("6");
        reveal_strlit("7");
        reveal_strlit("8");
        reveal_strlit("9");
        assert(r@ =~= seq![digit_char(d as nat)]);
    }
    r
}

fn hex_digit_str(d: u64) -> (r: &'static str)
    requires
        d < 16,
    ensures
        r@ == seq![hex_char(d as nat)],
{
    if d < 10 {
        digit_str(d)
    } else {
        let r: &'static str = if d == 10 { "a" }
        else if d == 11 { "b" }
        else if d == 12 { "c" }
        else if d == 13 { "d" }
        else if d == 14 { "e" }
        else { "f" };
        proof {
            reveal_strlit("a");
            reveal_strlit("b");
            reveal_strlit("c");
            reveal_strlit("d");
            reveal_strlit("e");
            reveal_strlit("f");
            assert(r@ =~= seq![hex_char(d as nat)]);
        }
        r
    }
}

/// Render `n` in decimal.
pub fn u64_to_string(n: u64) -> (r: String)
    ensures
        r@ == spec_dec_u64(n as nat),
    decreases n,
{
    if n < 10 {
        String::from_str(digit_str(n))
    } else {
        let prefix = u64_to_string(n / 10);
        prefix.concat(digit_str(n % 10))
    }
}

/// Fixed-width hexadecimal rendering of `n`, zero-padded on the left.
pub open spec fn spec_hex_width(n: nat, w: nat) -> Seq<char>
    decreases w,
{
    if w == 0 {
        Seq::empty()
    } else {
        spec_hex_width(n / 16, (w - 1) as nat) + seq![hex_char(n % 16)]
    }
}

fn hex_width(n: u64, w: u64) -> (r: String)
    ensures
        r@ == spec_hex_width(n as nat, w as nat),
    decreases w,
{
    if w == 0 {
        let r = String::new();
        assert(r@ =~= spec_hex_width(n as nat, 0));
        r
    } else {
        let prefix = hex_width(n / 16, w - 1);
        prefix.concat(hex_digit_str(n % 16))
    }
}

/// The forty-hex-character rendering of a 64-bit node id, as `{:040x}`
/// formats it: twenty-four zeros, then sixteen zero-padded hex digits.
pub open spec fn spec_hex40(n: nat) -> Seq<char> {
    spec_hex_width(n, 40)
}

pub fn u64_to_hex40(n: u64) -> (r: String)
    ensures
        r@ == spec_hex40(n as nat),
{
    hex_width(n, 40)
}

/// Lowercase hex rendering of a byte string, two digits per byte.
pub open spec fn spec_hex_bytes(s: Seq<u8>) -> Seq<char>
    decreases s.len(),
{
    if s.len() == 0 {
        Seq::empty()
    } else {
        spec_hex_bytes(s.drop_last()) + seq![
            hex_char((s.last() / 16) as nat),
            hex_char((s.last() % 16) as nat),
        ]
    }
}

pub fn bytes_to_hex(s: &[u8]) -> (r: String)
    ensures
        r@ == spec_hex_bytes(s@),
{
    let mut out = String::new();
    let mut i: usize = 0;
    assert(out@ =~= spec_hex_bytes(s@.subrange(0, 0)));
    while i < s.len()
        invariant
            0 <= i <= s@.len(),
            out@ == spec_hex_bytes(s@.subrange(0, i as int)),
        decreases s.len() - i,
    {
        let b = s[i];
        out.append(hex_digit_str((b / 16) as u64));
        out.append(hex_digit_str((b % 16) as u64));
        proof {
            let p = s@.subrange(0, i + 1);
            assert(p.drop_last() =~= s@.subrange(0, i as int));
            assert(p.last() == s@[i as int]);
        }
        i = i + 1;
    }
    assert(s@.subrange(0, i as int) =~= s@);
    out
}

/// Signed decimal rendering.
pub open spec fn spec_dec_i64(i: int) -> Seq<char> {
    if i < 0 {
        seq!['-'] + spec_dec_u64((-i) as nat)
    } else {
        spec_dec_u64(i as nat)
    }
}

/// Render a signed integer in decimal.
pub fn i64_to_string(n: i64) -> (r: String)
    ensures
        r@ == spec_dec_i64(n as int),
{
    if n >= 0 {
        u64_to_string(n as u64)
    } else {
        let mag: u64 = if n == i64::MIN {
            9223372036854775808u64
        } else {
            (-n) as u64
        };
        let mut s = String::from_str("-");
        s.append(u64_to_string(mag).as_str());
        proof {
            reveal_strlit("-");
            assert(s@ =~= spec_dec_i64(n as int));
        }
        s
    }
}

// ---------------------------------------------------------------------------
// Lossy UTF-8 decoding (trusted).
// ---------------------------------------------------------------------------

/// The characters a byte string with at least one non-ASCII byte
/// decodes to under lossy UTF-8 decoding.
pub uninterp spec fn lossy_utf8(b: Seq<u8>) -> Seq<char>;

pub open spec fn all_ascii_bytes(b: Seq<u8>) -> bool {
    forall|i: int| 0 <= i < b.len() ==> #[trigger] b[i] < 128
}

pub open spec fn ascii_chars_of(b: Seq<u8>) -> Seq<char> {
    Seq::new(b.len(), |i: int| b[i] as char)
}

/// The text a byte string decodes to: ASCII bytes decode to themselves,
/// anything else decodes lossily.
pub open spec fn decoded_text(b: Seq<u8>) -> Seq<char> {
    if all_ascii_bytes(b) {
        ascii_chars_of(b)
    } else {
        lossy_utf8(b)
    }
}

/// Relies on `String::from_utf8_lossy`: invalid sequences are replaced
/// with the replacement character; ASCII bytes decode to themselves.
#[verifier::external_body]
pub(crate) fn lossy_string(b: &[u8]) -> (r: String)
    ensures
        r@ == decoded_text(b@),
        !all_ascii_bytes(b@) ==> r@ == lossy_utf8(b@),
{
    String::from_utf8_lossy(b).into_owned()
}

// ---------------------------------------------------------------------------
// Character-domain decimal parsing, for text already decoded to `String`.
// ---------------------------------------------------------------------------

pub open spec fn is_digit_char(c: char) -> bool {
    48 <= c as u32 <= 57
}

pub open spec fn digit_char_val(c: char) -> nat {
    (c as u32 - 48) as nat
}

pub open spec fn all_digit_chars(s: Seq<char>) -> bool {
    forall|i: int| 0 <= i < s.len() ==> is_digit_char(#[trigger] s[i])
}

pub open spec fn dec_chars_val(s: Seq<char>) -> nat
    decreases s.len(),
{
    if s.len() == 0 {
        0
    } else {
        dec_chars_val(s.drop_last()) * 10 + digit_char_val(s.last())
    }
}

/// The digit body after an optional sign; `allow_minus` admits `-`.
pub open spec fn sign_body_chars(s: Seq<char>, allow_minus: bool) -> Seq<char> {
    if s.len() > 0 && (s[0] == '+' || (allow_minus && s[0] == '-')) {
        s.skip(1)
    } else {
        s
    }
}

pub open spec fn chars_negative(s: Seq<char>) -> bool {
    s.len() > 0 && s[0] == '-'
}

proof fn lemma_dec_chars_prefix_le(s: Seq<char>, i: int)
    requires
        0 <= i <= s.len(),
    ensures
        dec_chars_val(s.subrange(0, i)) <= dec_chars_val(s),
    decreases s.len() - i,
{
    if i == s.len() {
        assert(s.subrange(0, i) =~= s);
    } else {
        let p = s.subrange(0, i);
        let q = s.subrange(0, i + 1);
        assert(q.drop_last() =~= p);
        assert(dec_chars_val(p) * 10 >= dec_chars_val(p)) by (nonlinear_arith)
            requires dec_chars_val(p) >= 0;
        lemma_dec_chars_prefix_le(s, i + 1);
    }
}

/// Parse the decimal digits of `s` after an optional sign into a `u64`.
/// Reports the digits' value; the caller interprets the sign.
fn parse_chars_digits(s: &str, allow_minus: bool) -> (r: Option<u64>)
    ensures
        ({
            let body = sign_body_chars(s@, allow_minus);
            &&& r is Some <==> body.len() > 0 && all_digit_chars(body) && dec_chars_val(body)
                <= u64::MAX
            &&& r is Some ==> r->0 == dec_chars_val(body)
        }),
{
    let n = s.unicode_len();
    let start: usize = if n > 0 && (s.get_char(0) == '+' || (allow_minus && s.get_char(0)
        == '-')) {
        1
    } else {
        0
    };
    let ghost body: Seq<char> = s@.skip(start as int);
    assert(sign_body_chars(s@, allow_minus) =~= body);
    if n == start {
        return None;
    }
    let mut val: u64 = 0;
    let mut i: usize = start;
    while i < n
        invariant
            start <= i <= n,
            start < s@.len(),
            n == s@.len(),
            body == s@.skip(start as int),
            sign_body_chars(s@, allow_minus) == body,
            all_digit_chars(body.subrange(0, i - start)),
            val == dec_chars_val(body.subrange(0, i - start)),
        decreases n - i,
    {
        let c = s.get_char(i);
        let u = c as u32;
        if u < 48 || u > 57 {
            assert(!is_digit_char(body[i - start]));
            return None;
        }
        let d: u64 = (u - 48) as u64;
        if val > (u64::MAX - d) / 10 {
            proof {
                let p = body.subrange(0, i + 1 - start);
                assert(p.drop_last() =~= body.subrange(0, i - start));
                assert(p.last() == body[i - start]);
                assert(dec_chars_val(p) == val * 10 + d);
                assert(val * 10 + d > u64::MAX) by (nonlinear_arith)
                    requires val > ((u64::MAX - d) / 10) as int, 0 <= d <= 9, val <= u64::MAX;
                lemma_dec_chars_prefix_le(body, i + 1 - start);
            }
            return None;
        }
        proof {
            let p = body.subrange(0, i + 1 - start);
            assert(p.drop_last() =~= body.subrange(0, i - start));
            assert(p.last() == body[i - start]);
        }
        val = val * 10 + d;
        i = i + 1;
    }
    assert(body.subrange(0, i - start) =~= body);
    Some(val)
}

/// Whether text parses as a `u16`, as `str::parse::<u16>` decides it.
pub open spec fn u16_chars_ok(s: Seq<char>) -> bool {
    let body = sign_body_chars(s, false);
    body.len() > 0 && all_digit_chars(body) && dec_chars_val(body) <= u16::MAX
}

pub open spec fn u16_chars_val(s: Seq<char>) -> nat {
    dec_chars_val(sign_body_chars(s, false))
}

/// Parse text as `str::parse::<u16>` does.
pub fn parse_u16_chars(s: &str) -> (r: Option<u16>)
    ensures
        r is Some <==> u16_chars_ok(s@),
        r is Some ==> r->0 == u16_chars_val(s@),
{
    match parse_chars_digits(s, false) {
        Some(v) => if v <= u16::MAX as u64 {
            Some(v as u16)
        } else {
            None
        },
        None => {
            proof {
                if u16_chars_ok(s@) {
                    assert(dec_chars_val(sign_body_chars(s@, false)) <= u64::MAX);
                }
            }
            None
        },
    }
}

/// Whether text parses as an `i64`, as `str::parse::<i64>` decides it.
pub open spec fn i64_chars_ok(s: Seq<char>) -> bool {
    let body = sign_body_chars(s, true);
    &&& body.len() > 0
    &&& all_digit_chars(body)
    &&& if chars_negative(s) {
        dec_chars_val(body) <= 0x8000000000000000
    } else {
        dec_chars_val(body) <= 0x7fffffffffffffff
    }
}

pub open spec fn i64_chars_val(s: Seq<char>) -> int {
    if chars_negative(s) {
        -(dec_chars_val(sign_body_chars(s, true)) as int)
    } else {
        dec_chars_val(sign_body_chars(s, true)) as int
    }
}

/// Parse text as `str::parse::<i64>` does.
pub fn parse_i64_chars(s: &str) -> (r: Option<i64>)
    ensures
        r is Some <==> i64_chars_ok(s@),
        r is Some ==> r->0 == i64_chars_val(s@),
{
    let neg = s.unicode_len() > 0 && s.get_char(0) == '-';
    match parse_chars_digits(s, true) {
        Some(v) => {
            if neg {
                if v <= 0x8000000000000000u64 {
                    if v == 0x8000000000000000u64 {
                        Some(i64::MIN)
                    } else {
                        Some(-(v as i64))
                    }
                } else {
                    None
                }
            } else {
                if v <= 0x7fffffffffffffffu64 {
                    Some(v as i64)
                } else {
                    None
                }
            }
        },
        None => {
            proof {
                if i64_chars_ok(s@) {
                    assert(dec_chars_val(sign_body_chars(s@, true)) <= u64::MAX);
                }
            }
            None
        },
    }
}

// ---------------------------------------------------------------------------
// Character search in text.
// ---------------------------------------------------------------------------

/// First index at which `c` occurs.
pub open spec fn spec_find_char(s: Seq<char>, c: char) -> Option<int>
    decreases s.len(),
{
    if s.len() == 0 {
        None
    } else if s[0] == c {
        Some(0)
    } else {
        match spec_find_char(s.skip(1), c) {
            Some(i) => Some(i + 1),
            None => None,
        }
    }
}

/// Last index at which `c` occurs.
pub open spec fn spec_rfind_char(s: Seq<char>, c: char) -> Option<int>
    decreases s.len(),
{
    if s.len() == 0 {
        None
    } else if s.last() == c {
        Some(s.len() - 1)
    } else {
        spec_rfind_char(s.drop_last(), c)
    }
}

pub proof fn lemma_find_char(s: Seq<char>, c: char)
    ensures
        match spec_find_char(s, c) {
            Some(i) => 0 <= i < s.len() && s[i] == c && (forall|j: int|
                0 <= j < i ==> s[j] != c),
            None => forall|j: int| 0 <= j < s.len() ==> s[j] != c,
        },
    decreases s.len(),
{
    if s.len() > 0 && s[0] != c {
        lemma_find_char(s.skip(1), c);
        assert(forall|j: int| 1 <= j < s.len() ==> s[j] == #[trigger] s.skip(1)[j - 1]);
        match spec_find_char(s.skip(1), c) {
            Some(i) => {
                assert(s[i + 1] == s.skip(1)[i]);
                assert(forall|j: int| 0 <= j < i + 1 ==> s[j] != c) by {
                    assert(forall|j: int| 1 <= j < i + 1 ==> #[trigger] s[j] == s.skip(1)[j - 1]
                        && s.skip(1)[j - 1] != c);
                }
            },
            None => {
                assert(forall|j: int| 0 <= j < s.len() ==> s[j] != c) by {
                    assert(forall|j: int| 1 <= j < s.len() ==> #[trigger] s[j] == s.skip(1)[j - 1]
                        && s.skip(1)[j - 1] != c);
                }
            },
        }
    }
}

pub proof fn lemma_rfind_char(s: Seq<char>, c: char)
    ensures
        match spec_rfind_char(s, c) {
            Some(i) => 0 <= i < s.len() && s[i] == c && (forall|j: int|
                i < j < s.len() ==> s[j] != c),
            None => forall|j: int| 0 <= j < s.len() ==> s[j] != c,
        },
    decreases s.len(),
{
    if s.len() > 0 && s.last() != c {
        lemma_rfind_char(s.drop_last(), c);
        assert(forall|j: int| 0 <= j < s.len() - 1 ==> s[j] == #[trigger] s.drop_last()[j]);
        match spec_rfind_char(s.drop_last(), c) {
            Some(i) => {
                assert(s[i] == s.drop_last()[i]);
                assert(forall|j: int| i < j < s.len() ==> s[j] != c) by {
                    assert(forall|j: int| i < j < s.len() - 1 ==> #[trigger] s[j]
                        == s.drop_last()[j] && s.drop_last()[j] != c);
                    assert(s[s.len() - 1] != c);
                }
            },
            None => {
                assert(forall|j: int| 0 <= j < s.len() ==> s[j] != c) by {
                    assert(forall|j: int| 0 <= j < s.len() - 1 ==> #[trigger] s[j]
                        == s.drop_last()[j] && s.drop_last()[j] != c);
                    assert(s[s.len() - 1] != c);
                }
            },
        }
    }
}

/// Find the first occurrence of `c` in the text of `s`.
pub fn find_char(s: &str, c: char) -> (r: Option<usize>)
    ensures
        r matches Some(i) ==> spec_find_char(s@, c) == Some(i as int),
        r is None ==> spec_find_char(s@, c) is None,
{
    proof {
        lemma_find_char(s@, c);
    }
    let n = s.unicode_len();
    let mut i: usize = 0;
    while i < n
        invariant
            0 <= i <= n,
            n == s@.len(),
            forall|j: int| 0 <= j < i ==> s@[j] != c,
        decreases n - i,
    {
        if s.get_char(i) == c {
            proof {
                lemma_find_char(s@, c);
                match spec_find_char(s@, c) {
                    Some(k) => {
                        if k < i {
                            assert(s@[k] != c);
                        } else if i < k {
                            assert(s@[i as int] != c);
                        }
                    },
                    None => {
                        assert(s@[i as int] != c);
                    },
                }
            }
            return Some(i);
        }
        i = i + 1;
    }
    proof {
        lemma_find_char(s@, c);
        if let Some(k) = spec_find_char(s@, c) {
            assert(s@[k] != c);
        }
    }
    None
}

/// Find the last occurrence of `c` in the text of `s`.
pub fn rfind_char(s: &str, c: char) -> (r: Option<usize>)
    ensures
        r matches Some(i) ==> spec_rfind_char(s@, c) == Some(i as int),
        r is None ==> spec_rfind_char(s@, c) is None,
{
    proof {
        lemma_rfind_char(s@, c);
    }
    let n = s.unicode_len();
    let mut i: usize = n;
    while i > 0
        invariant
            0 <= i <= n,
            n == s@.len(),
            forall|j: int| i <= j < n ==> s@[j] != c,
        decreases i,
    {
        i = i - 1;
        if s.get_char(i) == c {
            proof {
                lemma_rfind_char(s@, c);
                match spec_rfind_char(s@, c) {
                    Some(k) => {
                        if k > i {
                            assert(s@[k] != c);
                        } else if k < i {
                            assert(s@[i as int] != c);
                        }
                    },
                    None => {
                        assert(s@[i as int] != c);
                    },
                }
            }
            return Some(i);
        }
    }
    proof {
        lemma_rfind_char(s@, c);
        if let Some(k) = spec_rfind_char(s@, c) {
            assert(s@[k] != c);
        }
    }
    None
}

// ---------------------------------------------------------------------------
// A stable 64-bit hash of a byte string (FNV-1a).
// ---------------------------------------------------------------------------

pub open spec fn fnv_step(h: u64, b: u8) -> u64 {
    ((((h ^ (b as u64)) as nat) * 0x100000001b3) % 0x10000000000000000) as u64
}

pub open spec fn spec_fnv64_from(h: u64, s: Seq<u8>) -> u64
    decreases s.len(),
{
    if s.len() == 0 {
        h
    } else {
        spec_fnv64_from(fnv_step(h, s[0]), s.skip(1))
    }
}

/// FNV-1a over a byte string: deterministic on every machine.
pub open spec fn spec_fnv64(s: Seq<u8>) -> u64 {
    spec_fnv64_from(0xcbf29ce484222325, s)
}

pub fn fnv64(s: &[u8]) -> (r: u64)
    ensures
        r == spec_fnv64(s@),
{
    let mut h: u64 = 0xcbf29ce484222325;
    let mut i: usize = 0;
    assert(s@.skip(0) =~= s@);
    while i < s.len()
        invariant
            0 <= i <= s@.len(),
            spec_fnv64_from(h, s@.skip(i as int)) == spec_fnv64(s@),
        decreases s.len() - i,
    {
        let b = s[i];
        proof {
            assert(s@.skip(i as int)[0] == s@[i as int]);
            assert(s@.skip(i as int).skip(1) =~= s@.skip(i + 1));
        }
        h = (h ^ (b as u64)).wrapping_mul(0x100000001b3);
        i = i + 1;
    }
    assert(s@.skip(i as int) =~= Seq::<u8>::empty());
    h
}


} // verus!
