//! Base64 text of captured bytes and decimal text of counts.
use vstd::prelude::*;

verus! {

/// The symbol of the standard base64 alphabet (RFC 4648, section 4) for a
/// six-bit value.
pub open spec fn base64_symbol(v: int) -> char {
    if v < 26 {
        (65 + v) as char
    } else if v < 52 {
        (97 + v - 26) as char
    } else if v < 62 {
        (48 + v - 52) as char
    } else if v == 62 {
        '+'
    } else {
        '/'
    }
}

/// The four symbols for a group of three bytes read as the 24-bit number `n`.
pub open spec fn base64_quad(n: int) -> Seq<char> {
    seq![
        base64_symbol(n / 262144),
        base64_symbol((n / 4096) % 64),
        base64_symbol((n / 64) % 64),
        base64_symbol(n % 64),
    ]
}

/// Standard base64 with padding (RFC 4648, section 4): each group of three
/// bytes gives four symbols; a final group of one or two bytes is completed
/// with zero bits and its missing symbols are written as `=`.
pub open spec fn base64_encode(data: Seq<u8>) -> Seq<char>
    decreases data.len(),
{
    if data.len() == 0 {
        seq![]
    } else if data.len() == 1 {
        let q = base64_quad(data[0] * 65536);
        seq![q[0], q[1], '=', '=']
    } else if data.len() == 2 {
        let q = base64_quad(data[0] * 65536 + data[1] * 256);
        seq![q[0], q[1], q[2], '=']
    } else {
        base64_quad(data[0] * 65536 + data[1] * 256 + data[2]) + base64_encode(data.skip(3))
    }
}

/// Whether the base64 text of `len` bytes has a length that `usize` can hold,
/// as the encoder computes it.
pub open spec fn base64_len_fits(len: nat) -> bool {
    if len % 3 == 0 {
        len / 3 * 4 <= usize::MAX
    } else {
        len / 3 * 4 + 4 <= usize::MAX
    }
}

/// The base64 text of `data` with the standard alphabet and padding:
/// `base64::engine::general_purpose::STANDARD.encode`, whose documentation
/// refers to RFC 4648. The encoder panics when the length of its output
/// overflows `usize`, which `requires` leaves out.
#[verifier::external_body]
pub(crate) fn encode_base64(data: &[u8]) -> (encoded: String)
    requires
        base64_len_fits(data@.len()),
    ensures
        encoded@ == base64_encode(data@),
{
    base64::Engine::encode(&base64::engine::general_purpose::STANDARD, data)
}

/// The base64 text of `n` bytes has four symbols for every three bytes
/// begun.
pub proof fn lemma_base64_len(data: Seq<u8>)
    ensures
        base64_encode(data).len() == 4 * ((data.len() + 2) / 3),
    decreases data.len(),
{
    if data.len() >= 3 {
        lemma_base64_len(data.skip(3));
    }
}

/// The decimal digit for `d`.
pub open spec fn digit_char(d: int) -> char {
    (48 + d) as char
}

/// The decimal numeral of `n`, without leading zeros.
pub open spec fn decimal(n: nat) -> Seq<char>
    decreases n,
{
    if n < 10 {
        seq![digit_char(n as int)]
    } else {
        decimal(n / 10).push(digit_char((n % 10) as int))
    }
}

/// The decimal numeral of `n`.
pub fn decimal_string(n: u128) -> (s: String)
    ensures
        s@ == decimal(n as nat),
    decreases n,
{
    if n < 10 {
        let mut s = String::new();
        crate::text::push_char(&mut s, digit(n));
        assert(s@ =~= decimal(n as nat));
        s
    } else {
        let mut s = decimal_string(n / 10);
        crate::text::push_char(&mut s, digit(n % 10));
        s
    }
}

fn digit(d: u128) -> (c: char)
    requires
        d < 10,
    ensures
        c == digit_char(d as int),
{
    if d == 0 {
        '0'
    } else if d == 1 {
        '1'
    } else if d == 2 {
        '2'
    } else if d == 3 {
        '3'
    } else if d == 4 {
        '4'
    } else if d == 5 {
        '5'
    } else if d == 6 {
        '6'
    } else if d == 7 {
        '7'
    } else if d == 8 {
        '8'
    } else {
        '9'
    }
}

proof fn lemma_symbol_code(v: int)
    requires
        0 <= v < 64,
    ensures
        v < 26 ==> base64_symbol(v) as int == 65 + v,
        26 <= v < 52 ==> base64_symbol(v) as int == 97 + v - 26,
        52 <= v < 62 ==> base64_symbol(v) as int == 48 + v - 52,
        v == 62 ==> base64_symbol(v) as int == 43,
        v == 63 ==> base64_symbol(v) as int == 47,
{
    if v < 26 {
        assert(((65 + v) as char) as int == 65 + v);
    } else if v < 52 {
        assert(((97 + v - 26) as char) as int == 97 + v - 26);
    } else if v < 62 {
        assert(((48 + v - 52) as char) as int == 48 + v - 52);
    }
}

proof fn lemma_symbol_facts(v: int, w: int)
    requires
        0 <= v < 64,
        0 <= w < 64,
    ensures
        base64_symbol(v) != '=',
        base64_symbol(v) == base64_symbol(w) ==> v == w,
{
    lemma_symbol_code(v);
    lemma_symbol_code(w);
}

/// The four symbols of a group stand for its number: `n` is
/// `262144 * s0 + 4096 * s1 + 64 * s2 + s3` for the six-bit values `s0..s3`.
proof fn lemma_quad_parts(n: int)
    requires
        0 <= n < 16777216,
    ensures
        0 <= n / 262144 < 64,
        0 <= (n / 4096) % 64 < 64,
        0 <= (n / 64) % 64 < 64,
        0 <= n % 64 < 64,
        n == 262144 * (n / 262144) + 4096 * ((n / 4096) % 64) + 64 * ((n / 64) % 64) + n % 64,
{
    vstd::arithmetic::div_mod::lemma_fundamental_div_mod(n, 64);
    vstd::arithmetic::div_mod::lemma_fundamental_div_mod(n / 64, 64);
    vstd::arithmetic::div_mod::lemma_fundamental_div_mod(n / 4096, 64);
    vstd::arithmetic::div_mod::lemma_div_denominator(n, 64, 64);
    vstd::arithmetic::div_mod::lemma_div_denominator(n, 4096, 64);
    assert(n / 262144 < 64) by (nonlinear_arith)
        requires
            0 <= n < 16777216,
    ;
    assert(n / 262144 >= 0) by (nonlinear_arith)
        requires
            0 <= n,
    ;
    assert(n / 4096 >= 0) by (nonlinear_arith)
        requires
            0 <= n,
    ;
    assert(n / 64 >= 0) by (nonlinear_arith)
        requires
            0 <= n,
    ;
}

/// Equal symbols at the places where two groups are not padded mean equal
/// groups, when the padded places stand for zero bits.
proof fn lemma_quad_injective(n: int, m: int, k: int)
    requires
        0 <= n < 16777216,
        0 <= m < 16777216,
        2 <= k <= 4,
        k <= 3 ==> n % 64 == 0 && m % 64 == 0,
        k == 2 ==> (n / 64) % 64 == 0 && (m / 64) % 64 == 0,
        base64_quad(n).take(k) == base64_quad(m).take(k),
    ensures
        n == m,
{
    lemma_quad_parts(n);
    lemma_quad_parts(m);
    let qn = base64_quad(n);
    let qm = base64_quad(m);
    assert(qn[0] == qm[0] && qn[1] == qm[1]) by {
        assert(qn[0] == qn.take(k)[0] && qn[1] == qn.take(k)[1]);
        assert(qm[0] == qm.take(k)[0] && qm[1] == qm.take(k)[1]);
    }
    lemma_symbol_facts(n / 262144, m / 262144);
    lemma_symbol_facts((n / 4096) % 64, (m / 4096) % 64);
    if k >= 3 {
        assert(qn[2] == qn.take(k)[2] && qm[2] == qm.take(k)[2]);
        lemma_symbol_facts((n / 64) % 64, (m / 64) % 64);
    }
    if k == 4 {
        assert(qn[3] == qn.take(k)[3] && qm[3] == qm.take(k)[3]);
        lemma_symbol_facts(n % 64, m % 64);
    }
}

proof fn lemma_group_bytes(a: int, b: int, c: int, x: int, y: int, z: int)
    requires
        0 <= a < 256,
        0 <= b < 256,
        0 <= c < 256,
        0 <= x < 256,
        0 <= y < 256,
        0 <= z < 256,
        a * 65536 + b * 256 + c == x * 65536 + y * 256 + z,
    ensures
        a == x,
        b == y,
        c == z,
{
    vstd::arithmetic::div_mod::lemma_fundamental_div_mod_converse(
        a * 65536 + b * 256 + c,
        256,
        a * 256 + b,
        c,
    );
    vstd::arithmetic::div_mod::lemma_fundamental_div_mod_converse(
        x * 65536 + y * 256 + z,
        256,
        x * 256 + y,
        z,
    );
    vstd::arithmetic::div_mod::lemma_fundamental_div_mod_converse(a * 256 + b, 256, a, b);
    vstd::arithmetic::div_mod::lemma_fundamental_div_mod_converse(x * 256 + y, 256, x, y);
}

proof fn lemma_padding_zero(a: int, b: int)
    requires
        0 <= a < 256,
        0 <= b < 256,
    ensures
        (a * 65536 + b * 256) % 64 == 0,
        (a * 65536) % 64 == 0,
        ((a * 65536) / 64) % 64 == 0,
{
    vstd::arithmetic::div_mod::lemma_fundamental_div_mod_converse(
        a * 65536 + b * 256,
        64,
        a * 1024 + b * 4,
        0,
    );
    vstd::arithmetic::div_mod::lemma_fundamental_div_mod_converse(a * 65536, 64, a * 1024, 0);
    vstd::arithmetic::div_mod::lemma_fundamental_div_mod_converse(a * 1024, 64, a * 16, 0);
}

/// Where a group of symbols stands in a base64 text: the padding `=` shows
/// how many bytes the last group holds.
proof fn lemma_base64_shape(data: Seq<u8>)
    requires
        data.len() > 0,
    ensures
        base64_encode(data).len() >= 4,
        data.len() == 1 <==> base64_encode(data)[2] == '=',
        data.len() <= 2 <==> base64_encode(data)[3] == '=',
{
    lemma_base64_len(data);
    if data.len() == 1 {
        let n = data[0] * 65536;
        lemma_quad_parts(n);
    } else if data.len() == 2 {
        let n = data[0] * 65536 + data[1] * 256;
        lemma_quad_parts(n);
        lemma_symbol_facts((n / 64) % 64, 0);
    } else {
        let n = data[0] * 65536 + data[1] * 256 + data[2];
        lemma_quad_parts(n);
        lemma_symbol_facts((n / 64) % 64, 0);
        lemma_symbol_facts(n % 64, 0);
        let q = base64_quad(n);
        assert(base64_encode(data)[2] == q[2]);
        assert(base64_encode(data)[3] == q[3]);
    }
}

/// The base64 text determines the bytes: different bytes never give the
/// same text.
pub proof fn lemma_base64_injective(a: Seq<u8>, b: Seq<u8>)
    requires
        base64_encode(a) == base64_encode(b),
    ensures
        a == b,
    decreases a.len(),
{
    lemma_base64_len(a);
    lemma_base64_len(b);
    if a.len() == 0 || b.len() == 0 {
        assert(a.len() == 0 && b.len() == 0);
        assert(a =~= b);
    } else {
        lemma_base64_shape(a);
        lemma_base64_shape(b);
        let e = base64_encode(a);
        if a.len() == 1 {
            assert(b.len() == 1);
            let n = a[0] * 65536;
            let m = b[0] * 65536;
            lemma_padding_zero(a[0] as int, 0);
            lemma_padding_zero(b[0] as int, 0);
            assert(base64_quad(n).take(2) =~= e.take(2));
            assert(base64_quad(m).take(2) =~= base64_encode(b).take(2));
            lemma_quad_injective(n, m, 2);
            lemma_group_bytes(a[0] as int, 0, 0, b[0] as int, 0, 0);
            assert(a =~= b);
        } else if a.len() == 2 {
            assert(b.len() == 2);
            let n = a[0] * 65536 + a[1] * 256;
            let m = b[0] * 65536 + b[1] * 256;
            lemma_padding_zero(a[0] as int, a[1] as int);
            lemma_padding_zero(b[0] as int, b[1] as int);
            assert(base64_quad(n).take(3) =~= e.take(3));
            assert(base64_quad(m).take(3) =~= base64_encode(b).take(3));
            lemma_quad_injective(n, m, 3);
            lemma_group_bytes(a[0] as int, a[1] as int, 0, b[0] as int, b[1] as int, 0);
            assert(a =~= b);
        } else {
            assert(b.len() >= 3);
            let n = a[0] * 65536 + a[1] * 256 + a[2];
            let m = b[0] * 65536 + b[1] * 256 + b[2];
            let ra = base64_encode(a.skip(3));
            let rb = base64_encode(b.skip(3));
            assert(e == base64_quad(n) + ra);
            assert(base64_encode(b) == base64_quad(m) + rb);
            assert(base64_quad(n).take(4) =~= e.take(4));
            assert(base64_quad(m).take(4) =~= base64_encode(b).take(4));
            lemma_quad_injective(n, m, 4);
            lemma_group_bytes(a[0] as int, a[1] as int, a[2] as int, b[0] as int, b[1] as int, b[2] as int);
            assert(ra =~= e.skip(4));
            assert(rb =~= base64_encode(b).skip(4));
            lemma_base64_injective(a.skip(3), b.skip(3));
            assert(a =~= a.take(3) + a.skip(3));
            assert(b =~= b.take(3) + b.skip(3));
            assert(a.take(3) =~= b.take(3));
        }
    }
}

/// The six-bit value of a symbol of the standard base64 alphabet, and zero
/// for the padding `=`.
pub open spec fn base64_value(c: char) -> int {
    let n = c as int;
    if 65 <= n <= 90 {
        n - 65
    } else if 97 <= n <= 122 {
        n - 71
    } else if 48 <= n <= 57 {
        n + 4
    } else if c == '+' {
        62
    } else if c == '/' {
        63
    } else {
        0
    }
}

/// The bytes of a group of four symbols: three, or one or two where the
/// group ends in padding.
pub open spec fn base64_group_bytes(g: Seq<char>) -> Seq<u8> {
    let n = 262144 * base64_value(g[0]) + 4096 * base64_value(g[1]) + 64 * base64_value(g[2])
        + base64_value(g[3]);
    if g[2] == '=' {
        seq![(n / 65536) as u8]
    } else if g[3] == '=' {
        seq![(n / 65536) as u8, ((n / 256) % 256) as u8]
    } else {
        seq![(n / 65536) as u8, ((n / 256) % 256) as u8, (n % 256) as u8]
    }
}

/// Standard base64 decoding (RFC 4648, section 4) of a text made of groups
/// of four symbols.
pub open spec fn base64_decode(text: Seq<char>) -> Seq<u8>
    decreases text.len(),
{
    if text.len() < 4 {
        seq![]
    } else {
        base64_group_bytes(text.take(4)) + base64_decode(text.skip(4))
    }
}

proof fn lemma_value_of_symbol(v: int)
    requires
        0 <= v < 64,
    ensures
        base64_value(base64_symbol(v)) == v,
{
    lemma_symbol_code(v);
}

proof fn lemma_group_decodes(a: int, b: int, c: int, k: int)
    requires
        0 <= a < 256,
        0 <= b < 256,
        0 <= c < 256,
        1 <= k <= 3,
        k <= 2 ==> c == 0,
        k == 1 ==> b == 0,
    ensures
        ({
            let n = a * 65536 + b * 256 + c;
            let q = base64_quad(n);
            let g = if k == 1 {
                seq![q[0], q[1], '=', '=']
            } else if k == 2 {
                seq![q[0], q[1], q[2], '=']
            } else {
                q
            };
            base64_group_bytes(g) == if k == 1 {
                seq![a as u8]
            } else if k == 2 {
                seq![a as u8, b as u8]
            } else {
                seq![a as u8, b as u8, c as u8]
            }
        }),
{
    let n = a * 65536 + b * 256 + c;
    lemma_quad_parts(n);
    lemma_value_of_symbol(n / 262144);
    lemma_value_of_symbol((n / 4096) % 64);
    lemma_value_of_symbol((n / 64) % 64);
    lemma_value_of_symbol(n % 64);
    lemma_symbol_facts((n / 64) % 64, 0);
    lemma_symbol_facts(n % 64, 0);
    lemma_padding_zero(a, b);
    vstd::arithmetic::div_mod::lemma_fundamental_div_mod_converse(n, 65536, a, b * 256 + c);
    vstd::arithmetic::div_mod::lemma_fundamental_div_mod_converse(n, 256, a * 256 + b, c);
    vstd::arithmetic::div_mod::lemma_fundamental_div_mod_converse(a * 256 + b, 256, a, b);
    let q = base64_quad(n);
    if k == 1 {
        let g = seq![q[0], q[1], '=', '='];
        assert(base64_value('=') == 0);
        let m = 262144 * base64_value(g[0]) + 4096 * base64_value(g[1]) + 64 * base64_value(g[2])
            + base64_value(g[3]);
        assert(m == n);
        assert(base64_group_bytes(g) =~= seq![a as u8]);
    } else if k == 2 {
        let g = seq![q[0], q[1], q[2], '='];
        let m = 262144 * base64_value(g[0]) + 4096 * base64_value(g[1]) + 64 * base64_value(g[2])
            + base64_value(g[3]);
        assert(m == n);
        assert(base64_group_bytes(g) =~= seq![a as u8, b as u8]);
    } else {
        let m = 262144 * base64_value(q[0]) + 4096 * base64_value(q[1]) + 64 * base64_value(q[2])
            + base64_value(q[3]);
        assert(m == n);
        assert(base64_group_bytes(q) =~= seq![a as u8, b as u8, c as u8]);
    }
}

/// Decoding the base64 text of some bytes gives the bytes back.
pub proof fn lemma_base64_round_trip(data: Seq<u8>)
    ensures
        base64_decode(base64_encode(data)) == data,
    decreases data.len(),
{
    let e = base64_encode(data);
    lemma_base64_len(data);
    if data.len() == 0 {
        assert(base64_decode(e) =~= data);
    } else if data.len() == 1 {
        lemma_group_decodes(data[0] as int, 0, 0, 1);
        assert(e.take(4) =~= e);
        assert(base64_decode(e.skip(4)) =~= Seq::<u8>::empty());
        assert(base64_decode(e) =~= data);
    } else if data.len() == 2 {
        lemma_group_decodes(data[0] as int, data[1] as int, 0, 2);
        assert(e.take(4) =~= e);
        assert(base64_decode(e.skip(4)) =~= Seq::<u8>::empty());
        assert(base64_decode(e) =~= data);
    } else {
        let n = data[0] * 65536 + data[1] * 256 + data[2];
        let rest = base64_encode(data.skip(3));
        lemma_group_decodes(data[0] as int, data[1] as int, data[2] as int, 3);
        assert(e == base64_quad(n) + rest);
        assert(e.take(4) =~= base64_quad(n));
        assert(e.skip(4) =~= rest);
        lemma_base64_round_trip(data.skip(3));
        assert(base64_decode(e) =~= data.take(3) + data.skip(3));
        assert(data.take(3) + data.skip(3) =~= data);
    }
}

} // verus!
