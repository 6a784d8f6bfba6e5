//! Building the short ASCII strings shown in the table and on chart labels,
//! and the few string primitives the state machine needs.

use vstd::prelude::*;

use vstd::arithmetic::div_mod::{lemma_fundamental_div_mod, lemma_hoist_over_denominator};

verus! {

/// The character for one decimal digit.
pub open spec fn digit_char(d: nat) -> char {
    ((48 + d % 10) as u8) as char
}

/// The decimal representation of `n`, most significant digit first, no
/// leading zeros (a single `'0'` for zero).
pub open spec fn dec_rep(n: nat) -> Seq<char>
    decreases n,
{
    if n < 10 {
        seq![digit_char(n)]
    } else {
        dec_rep(n / 10).push(digit_char(n % 10))
    }
}

/// A byte sequence read as the characters it encodes in ASCII.
pub open spec fn chars_of(bytes: Seq<u8>) -> Seq<char> {
    bytes.map_values(|b: u8| b as char)
}

/// `m` milli-units rounded to the nearest tenth of a unit, as a count of
/// tenths.
pub open spec fn milli_tenths(m: nat) -> nat {
    (m + 50) / 100
}

/// What `str::to_lowercase` returns, as UTF-8 bytes; a function of the
/// characters alone.
pub uninterp spec fn lower_of(s: Seq<char>) -> Seq<u8>;

/// Relies on `str::to_lowercase` (and `String::into_bytes`): the result
/// depends on the characters of `s` alone.
#[verifier::external_body]
pub fn lower_bytes(s: &str) -> (r: Vec<u8>)
    ensures
        r@ == lower_of(s@),
        s@.len() == 0 ==> r@.len() == 0,
{
    s.to_lowercase().into_bytes()
}

/// Relies on `String::from_utf8`: a sequence of ASCII bytes decodes to
/// exactly those characters.
#[verifier::external_body]
pub fn ascii_string(bytes: Vec<u8>) -> (r: String)
    requires
        forall|i: int| 0 <= i < bytes@.len() ==> bytes@[i] < 0x80,
    ensures
        r@ == chars_of(bytes@),
{
    match String::from_utf8(bytes) {
        Ok(s) => s,
        Err(_) => String::new(),
    }
}

/// Relies on `String::push`: appends one character at the end.
#[verifier::external_body]
pub fn push_char(s: &mut String, c: char)
    ensures
        final(s)@ == old(s)@.push(c),
{
    s.push(c)
}

/// Relies on `String::pop`: removes and returns the last character, if any.
#[verifier::external_body]
pub fn pop_char(s: &mut String) -> (r: Option<char>)
    ensures
        old(s)@.len() == 0 ==> final(s)@ == old(s)@ && r is None,
        old(s)@.len() > 0 ==> final(s)@ == old(s)@.drop_last() && r == Some(old(s)@.last()),
{
    s.pop()
}

/// The decimal representation of `n`.
pub fn fmt_u64(n: u64) -> (r: String)
    ensures
        r@ == dec_rep(n as nat),
{
    let mut buf: Vec<u8> = Vec::new();
    buf.push(48 + (n % 10) as u8);
    proof {
        assert(chars_of(buf@) =~= seq![digit_char(n as nat % 10)]);
        if n < 10 {
            assert(n as nat % 10 == n as nat);
        }
    }
    let mut m: u64 = n / 10;
    while m > 0
        invariant
            forall|i: int| 0 <= i < buf@.len() ==> 48 <= #[trigger] buf@[i] < 58,
            buf@.len() >= 1,
            if m == 0 {
                dec_rep(n as nat) == chars_of(buf@)
            } else {
                dec_rep(n as nat) == dec_rep(m as nat) + chars_of(buf@)
            },
        decreases m,
    {
        let ghost old_buf = buf@;
        let ghost old_m = m as nat;
        buf.insert(0, 48 + (m % 10) as u8);
        m = m / 10;
        proof {
            assert(chars_of(buf@) =~= seq![digit_char(old_m % 10)] + chars_of(old_buf));
            if old_m < 10 {
                assert(old_m % 10 == old_m);
                assert(dec_rep(old_m) + chars_of(old_buf) =~= chars_of(buf@));
            } else {
                assert(dec_rep(old_m) == dec_rep(old_m / 10).push(digit_char(old_m % 10)));
                assert(dec_rep(old_m) + chars_of(old_buf) =~= dec_rep(old_m / 10) + chars_of(
                    buf@,
                ));
            }
        }
    }
    ascii_string(buf)
}

/// `m` milli-units rendered with one decimal place, rounded: `1536`
/// becomes `1.5`.
pub fn fmt_milli(m: u64) -> (r: String)
    ensures
        r@ == dec_rep(milli_tenths(m as nat) / 10) + seq!['.'] + seq![
            digit_char(milli_tenths(m as nat) % 10),
        ],
{
    let tenths: u64 = m / 100 + if m % 100 >= 50 {
        1
    } else {
        0
    };
    proof {
        lemma_fundamental_div_mod(m as int, 100);
        lemma_hoist_over_denominator(m as int % 100 + 50, m as int / 100, 100);
        assert((m as int % 100 + 50) + (m as int / 100) * 100 == m + 50);
        assert(tenths == milli_tenths(m as nat));
    }
    let mut r = fmt_u64(tenths / 10);
    push_char(&mut r, '.');
    push_char(&mut r, (48 + (tenths % 10) as u8) as char);
    proof {
        assert(r@ =~= dec_rep(milli_tenths(m as nat) / 10) + seq!['.'] + seq![
            digit_char(milli_tenths(m as nat) % 10),
        ]);
    }
    r
}

} // verus!
