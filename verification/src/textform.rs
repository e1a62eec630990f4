//! Verified decimal and hexadecimal text rendering.
//!
//! Decimal strings name generated identifiers; their injectivity is what
//! keeps identifiers drawn from a counter distinct. Hexadecimal strings
//! render digests for content-hash records.

use vstd::prelude::*;
use vstd::string::StringExecFns;

verus! {

/// The character for a single decimal digit.
pub open spec fn digit_char(d: nat) -> char {
    if d == 0 { '0' }
    else if d == 1 { '1' }
    else if d == 2 { '2' }
    else if d == 3 { '3' }
    else if d == 4 { '4' }
    else if d == 5 { '5' }
    else if d == 6 { '6' }
    else if d == 7 { '7' }
    else if d == 8 { '8' }
    else { '9' }
}

/// The decimal rendering of `n`, most significant digit first.
pub open spec fn dec_str(n: nat) -> Seq<char>
    decreases n,
{
    if n < 10 {
        seq![digit_char(n)]
    } else {
        dec_str(n / 10) + seq![digit_char(n % 10)]
    }
}

pub proof fn lemma_dec_str_len(n: nat)
    ensures
        dec_str(n).len() >= 1,
        n < 10 ==> dec_str(n).len() == 1,
        n >= 10 ==> dec_str(n).len() >= 2,
    decreases n,
{
    if n >= 10 {
        lemma_dec_str_len(n / 10);
    }
}

/// Distinct numbers render to distinct decimal strings.
pub proof fn lemma_dec_str_injective(a: nat, b: nat)
    requires
        dec_str(a) == dec_str(b),
    ensures
        a == b,
    decreases a,
{
    lemma_dec_str_len(a);
    lemma_dec_str_len(b);
    if a < 10 && b < 10 {
        assert(dec_str(a)[0] == digit_char(a));
        assert(dec_str(b)[0] == digit_char(b));
    } else if a < 10 {
        assert(dec_str(a).len() == 1 && dec_str(b).len() >= 2);
    } else if b < 10 {
        assert(dec_str(a).len() >= 2 && dec_str(b).len() == 1);
    } else {
        let la = dec_str(a).len();
        assert(dec_str(a).last() == digit_char(a % 10));
        assert(dec_str(b).last() == digit_char(b % 10));
        assert(a % 10 == b % 10);
        assert(dec_str(a).drop_last() =~= dec_str(a / 10));
        assert(dec_str(b).drop_last() =~= dec_str(b / 10));
        lemma_dec_str_injective(a / 10, b / 10);
        assert(a == 10 * (a / 10) + a % 10);
        assert(b == 10 * (b / 10) + b % 10);
    }
}

/// A one-character string for a single decimal digit.
fn digit_str(d: u64) -> (r: &'static str)
    requires
        d < 10,
    ensures
        r@ == seq![digit_char(d as nat)],
{
    if d == 0 { let s = "0"; proof { reveal_strlit("0"); } s }
    else if d == 1 { let s = "1"; proof { reveal_strlit("1"); } s }
    else if d == 2 { let s = "2"; proof { reveal_strlit("2"); } s }
    else if d == 3 { let s = "3"; proof { reveal_strlit("3"); } s }
    else if d == 4 { let s = "4"; proof { reveal_strlit("4"); } s }
    else if d == 5 { let s = "5"; proof { reveal_strlit("5"); } s }
    else if d == 6 { let s = "6"; proof { reveal_strlit("6"); } s }
    else if d == 7 { let s = "7"; proof { reveal_strlit("7"); } s }
    else if d == 8 { let s = "8"; proof { reveal_strlit("8"); } s }
    else { let s = "9"; proof { reveal_strlit("9"); } s }
}

/// Renders `n` in decimal.
pub fn u64_to_dec(n: u64) -> (r: String)
    ensures
        r@ == dec_str(n as nat),
    decreases n,
{
    if n < 10 {
        String::from_str(digit_str(n))
    } else {
        let mut s = u64_to_dec(n / 10);
        s.append(digit_str(n % 10));
        s
    }
}

/// Character-exact comparison of two string slices.
pub fn str_equal(a: &str, b: &str) -> (r: bool)
    ensures
        r <==> a@ == b@,
{
    let owned_a = a.to_owned();
    let owned_b = b.to_owned();
    owned_a == owned_b
}

/// The character for a single hexadecimal digit.
pub open spec fn hex_digit(d: nat) -> char {
    if d < 10 {
        digit_char(d)
    } else if d == 10 { 'a' }
    else if d == 11 { 'b' }
    else if d == 12 { 'c' }
    else if d == 13 { 'd' }
    else if d == 14 { 'e' }
    else { 'f' }
}

/// Lowercase hexadecimal rendering of a byte string, two digits per byte.
pub open spec fn hex_of(s: Seq<u8>) -> Seq<char>
    decreases s.len(),
{
    if s.len() == 0 {
        Seq::empty()
    } else {
        seq![hex_digit(s[0] as nat / 16), hex_digit(s[0] as nat % 16)] + hex_of(s.drop_first())
    }
}

pub proof fn lemma_hex_of_push(s: Seq<u8>, b: u8)
    ensures
        hex_of(s.push(b)) == hex_of(s) + seq![hex_digit(b as nat / 16), hex_digit(b as nat % 16)],
    decreases s.len(),
{
    if s.len() == 0 {
        assert(s.push(b)[0] == b);
        assert(s.push(b).drop_first() =~= Seq::<u8>::empty());
        assert(hex_of(Seq::<u8>::empty()) =~= Seq::<char>::empty());
        assert(hex_of(s.push(b)) =~= seq![
            hex_digit(b as nat / 16),
            hex_digit(b as nat % 16),
        ] + hex_of(Seq::<u8>::empty()));
        assert(hex_of(s) =~= Seq::<char>::empty());
        assert(hex_of(s.push(b)) =~= hex_of(s) + seq![
            hex_digit(b as nat / 16),
            hex_digit(b as nat % 16),
        ]);
    } else {
        assert(s.push(b)[0] == s[0]);
        assert(s.push(b).drop_first() =~= s.drop_first().push(b));
        lemma_hex_of_push(s.drop_first(), b);
        assert(hex_of(s.push(b)) =~= hex_of(s) + seq![
            hex_digit(b as nat / 16),
            hex_digit(b as nat % 16),
        ]);
    }
}

/// A one-character string for a single hexadecimal digit.
fn hex_digit_str(d: u64) -> (r: &'static str)
    requires
        d < 16,
    ensures
        r@ == seq![hex_digit(d as nat)],
{
    if d < 10 {
        digit_str(d)
    } else if d == 10 { let s = "a"; proof { reveal_strlit("a"); } s }
    else if d == 11 { let s = "b"; proof { reveal_strlit("b"); } s }
    else if d == 12 { let s = "c"; proof { reveal_strlit("c"); } s }
    else if d == 13 { let s = "d"; proof { reveal_strlit("d"); } s }
    else if d == 14 { let s = "e"; proof { reveal_strlit("e"); } s }
    else { let s = "f"; proof { reveal_strlit("f"); } s }
}

/// Renders a byte string as lowercase hexadecimal.
pub fn bytes_to_hex(data: &Vec<u8>) -> (r: String)
    ensures
        r@ == hex_of(data@),
{
    let mut out = String::new();
    let mut i: usize = 0;
    while i < data.len()
        invariant
            i <= data@.len(),
            out@ == hex_of(data@.take(i as int)),
        decreases data@.len() - i,
    {
        let b = data[i] as u64;
        out.append(hex_digit_str(b / 16));
        out.append(hex_digit_str(b % 16));
        proof {
            lemma_hex_of_push(data@.take(i as int), data@[i as int]);
            assert(data@.take(i as int).push(data@[i as int]) =~= data@.take(i as int + 1));
        }
        i = i + 1;
    }
    proof {
        assert(data@.take(data@.len() as int) =~= data@);
    }
    out
}

} // verus!
