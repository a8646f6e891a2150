//! Byte encodings: little-endian integers and lowercase hexadecimal text.

use vstd::prelude::*;
use vstd::string::StringSliceAdditionalSpecFns;

verus! {

/// The natural number whose little-endian base-256 digits are `b`.
pub open spec fn le_nat(b: Seq<u8>) -> nat
    decreases b.len(),
{
    if b.len() == 0 {
        0
    } else {
        b[0] as nat + 256 * le_nat(b.drop_first())
    }
}

/// The `n` little-endian base-256 digits of `v` (the low `n` digits when `v` is larger).
pub open spec fn le_bytes(v: nat, n: nat) -> Seq<u8>
    decreases n,
{
    if n == 0 {
        Seq::empty()
    } else {
        seq![(v % 256) as u8] + le_bytes(v / 256, (n - 1) as nat)
    }
}

/// Digits are determined by their value and their number.
pub proof fn lemma_le_bytes_of_le_nat(b: Seq<u8>)
    ensures
        le_bytes(le_nat(b), b.len()) == b,
    decreases b.len(),
{
    if b.len() > 0 {
        let t = b.drop_first();
        lemma_le_bytes_of_le_nat(t);
        let v = le_nat(b);
        assert(v % 256 == b[0] && v / 256 == le_nat(t)) by (nonlinear_arith)
            requires
                v == b[0] + 256 * le_nat(t),
                b[0] < 256,
        ;
        assert(le_bytes(v, b.len()) =~= seq![b[0]] + t);
        assert(seq![b[0]] + t =~= b);
    }
}

/// `256^n`.
pub open spec fn pow256(n: nat) -> nat
    decreases n,
{
    if n == 0 {
        1
    } else {
        256 * pow256((n - 1) as nat)
    }
}

/// The value of the `n` digits of a value below `256^n` is that value.
pub proof fn lemma_le_nat_of_le_bytes(v: nat, n: nat)
    requires
        v < pow256(n),
    ensures
        le_nat(le_bytes(v, n)) == v,
        le_bytes(v, n).len() == n,
    decreases n,
{
    if n > 0 {
        let p = pow256((n - 1) as nat);
        assert(v / 256 < p) by (nonlinear_arith)
            requires
                v < 256 * p,
        ;
        lemma_le_nat_of_le_bytes(v / 256, (n - 1) as nat);
        let b = le_bytes(v, n);
        assert(b.drop_first() =~= le_bytes(v / 256, (n - 1) as nat));
        assert(v == v % 256 + 256 * (v / 256)) by (nonlinear_arith);
    }
}

/// Bytes with a given little-endian value and length are the digits of that value.
pub proof fn lemma_le_nat_determines(b: Seq<u8>, v: nat)
    requires
        le_nat(b) == v,
    ensures
        b == le_bytes(v, b.len()),
{
    lemma_le_bytes_of_le_nat(b);
}

/// The lowercase hexadecimal digit of a value in `0..16`.
pub open spec fn hex_digit(v: int) -> char {
    if v < 10 {
        (48 + v) as char
    } else {
        (87 + v) as char
    }
}

/// Lowercase hexadecimal text of `b`: two digits per byte, high nibble first.
pub open spec fn hex_encoding(b: Seq<u8>) -> Seq<char>
    decreases b.len(),
{
    if b.len() == 0 {
        Seq::empty()
    } else {
        seq![hex_digit(b[0] as int / 16), hex_digit(b[0] as int % 16)] + hex_encoding(
            b.drop_first(),
        )
    }
}

/// The value of one hexadecimal digit byte (either case), if it is one.
pub open spec fn hex_value(c: u8) -> Option<int> {
    if 48 <= c <= 57 {
        Some(c - 48)
    } else if 97 <= c <= 102 {
        Some(c - 87)
    } else if 65 <= c <= 70 {
        Some(c - 55)
    } else {
        None
    }
}

/// `t` is hexadecimal text: an even number of hexadecimal digit bytes.
pub open spec fn is_hex_text(t: Seq<u8>) -> bool {
    &&& t.len() % 2 == 0
    &&& forall|i: int| 0 <= i < t.len() ==> (#[trigger] hex_value(t[i])) is Some
}

/// The bytes that hexadecimal text `t` stands for.
pub open spec fn hex_decoding(t: Seq<u8>) -> Seq<u8> {
    Seq::new(
        t.len() / 2,
        |i: int| (hex_value(t[2 * i]).unwrap() * 16 + hex_value(t[2 * i + 1]).unwrap()) as u8,
    )
}

/// The bytes of text made of ASCII characters only.
pub open spec fn ascii_bytes(t: Seq<char>) -> Seq<u8> {
    Seq::new(t.len(), |i: int| t[i] as u8)
}

/// `hex::encode`: the lowercase hexadecimal text of `data`, two digits per
/// byte, high nibble first.
#[verifier::external_body]
pub(crate) fn hex_encode(data: &[u8]) -> (res: String)
    ensures
        res@ == hex_encoding(data@),
{
    hex::encode(data)
}

/// `hex::decode` on the bytes of `text`: `Ok` exactly when they are an even
/// number of hexadecimal digits of either case, and then the bytes they spell.
#[verifier::external_body]
pub(crate) fn hex_decode(text: &str) -> (res: Result<Vec<u8>, hex::FromHexError>)
    ensures
        res is Ok <==> is_hex_text(text.spec_bytes()),
        res matches Ok(v) ==> v@ == hex_decoding(text.spec_bytes()),
{
    hex::decode(text)
}

#[verifier::external_type_specification]
#[verifier::external_body]
pub struct ExFromHexError(hex::FromHexError);

/// The hexadecimal text of `b` has two characters per byte, and they are the
/// high and the low nibble of that byte.
pub proof fn lemma_hex_encoding_index(b: Seq<u8>, i: int)
    requires
        0 <= i < b.len(),
    ensures
        hex_encoding(b).len() == 2 * b.len(),
        hex_encoding(b)[2 * i] == hex_digit(b[i] as int / 16),
        hex_encoding(b)[2 * i + 1] == hex_digit(b[i] as int % 16),
    decreases b.len(),
{
    if i > 0 {
        lemma_hex_encoding_index(b.drop_first(), i - 1);
    } else if b.len() > 1 {
        lemma_hex_encoding_index(b.drop_first(), 0);
    } else {
        assert(hex_encoding(b.drop_first()) == Seq::<char>::empty());
    }
}

/// The length of hexadecimal text is twice the number of bytes.
pub proof fn lemma_hex_encoding_len(b: Seq<u8>)
    ensures
        hex_encoding(b).len() == 2 * b.len(),
    decreases b.len(),
{
    if b.len() > 0 {
        lemma_hex_encoding_len(b.drop_first());
    }
}

/// Hexadecimal text is ASCII, and decoding its bytes gives back what was
/// encoded.
pub proof fn lemma_hex_round_trip(b: Seq<u8>)
    ensures
        vstd::utf8::is_ascii_chars(hex_encoding(b)),
        is_hex_text(ascii_bytes(hex_encoding(b))),
        hex_decoding(ascii_bytes(hex_encoding(b))) == b,
{
    let t = hex_encoding(b);
    lemma_hex_encoding_len(b);
    let a = ascii_bytes(t);
    assert forall|j: int| 0 <= j < t.len() implies (t[j] as int) < 128 && #[trigger] hex_value(
        a[j],
    ) == Some(
        if j % 2 == 0 {
            b[j / 2] as int / 16
        } else {
            b[j / 2] as int % 16
        },
    ) by {
        lemma_hex_encoding_index(b, j / 2);
        assert(j == 2 * (j / 2) || j == 2 * (j / 2) + 1);
    }
    assert(vstd::utf8::is_ascii_chars(t)) by {
        assert forall|j: int| 0 <= j < t.len() implies '\0' <= #[trigger] t[j] <= '\u{7f}' by {
            lemma_hex_encoding_index(b, j / 2);
            assert(j == 2 * (j / 2) || j == 2 * (j / 2) + 1);
        }
    }
    assert(hex_decoding(a) =~= b) by {
        assert forall|i: int| 0 <= i < b.len() implies hex_decoding(a)[i] == b[i] by {
            assert(hex_value(a[2 * i]) == Some(b[i] as int / 16));
            assert(hex_value(a[2 * i + 1]) == Some(b[i] as int % 16));
        }
    }
}

/// The uppercase hexadecimal digit of a value in `0..16`.
pub open spec fn hex_digit_upper(v: int) -> char {
    if v < 10 {
        (48 + v) as char
    } else {
        (55 + v) as char
    }
}

/// Uppercase hexadecimal text of `b`: two digits per byte, high nibble first.
pub open spec fn hex_encoding_upper(b: Seq<u8>) -> Seq<char> {
    Seq::new(
        2 * b.len(),
        |j: int|
            if j % 2 == 0 {
                hex_digit_upper(b[j / 2] as int / 16)
            } else {
                hex_digit_upper(b[j / 2] as int % 16)
            },
    )
}

/// Uppercase hexadecimal text is hexadecimal text too, and decoding its bytes
/// gives back what was encoded.
pub proof fn lemma_hex_upper_round_trip(b: Seq<u8>)
    ensures
        is_hex_text(ascii_bytes(hex_encoding_upper(b))),
        hex_decoding(ascii_bytes(hex_encoding_upper(b))) == b,
{
    let t = hex_encoding_upper(b);
    let a = ascii_bytes(t);
    assert forall|j: int| 0 <= j < t.len() implies #[trigger] hex_value(a[j]) == Some(
        if j % 2 == 0 {
            b[j / 2] as int / 16
        } else {
            b[j / 2] as int % 16
        },
    ) by {
        assert(j == 2 * (j / 2) || j == 2 * (j / 2) + 1);
    }
    assert(t.len() % 2 == 0);
    assert(hex_decoding(a) =~= b) by {
        assert forall|i: int| 0 <= i < b.len() implies hex_decoding(a)[i] == b[i] by {
            assert(hex_value(a[2 * i]) == Some(b[i] as int / 16));
            assert(hex_value(a[2 * i + 1]) == Some(b[i] as int % 16));
        }
    }
}

} // verus!
