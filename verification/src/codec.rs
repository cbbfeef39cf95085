//! Codec for persisted session records.
//!
//! A record is stored as text: the four string fields each as a
//! twenty-digit decimal character count followed by the characters, then
//! the creation time as twenty decimal digits.  Twenty digits cover every
//! possible length and every `u64`, so the layout is self-delimiting.

use vstd::prelude::*;
use crate::errors::ConveyError;
use crate::session::{SessionInfos, SessionInfosView};

verus! {

/// Width of every decimal number in the encoding, in characters.
pub const LEN_WIDTH: usize = 20;

/// Whether `c` is a decimal digit.
pub open spec fn is_digit(c: char) -> bool {
    48 <= c as int <= 57
}

/// The numeric value of a digit character.
pub open spec fn digit_val(c: char) -> nat {
    (c as int - 48) as nat
}

/// The digit character for a value below ten.
pub open spec fn digit_char(d: nat) -> char {
    ((48 + d) as u8) as char
}

/// The decimal digits of `n`, zero-padded to exactly `width` characters;
/// only the low digits are kept if `n` does not fit.
pub open spec fn dec_fixed(n: nat, width: nat) -> Seq<char>
    decreases width,
{
    if width == 0 {
        Seq::empty()
    } else {
        dec_fixed(n / 10, (width - 1) as nat).push(digit_char(n % 10))
    }
}

/// Whether every character of `s` is a decimal digit.
pub open spec fn all_digits(s: Seq<char>) -> bool {
    forall|i: int| 0 <= i < s.len() ==> is_digit(#[trigger] s[i])
}

/// The numeric value of a digit string.
pub open spec fn dec_val(s: Seq<char>) -> nat
    decreases s.len(),
{
    if s.len() == 0 {
        0
    } else {
        dec_val(s.drop_last()) * 10 + digit_val(s.last())
    }
}

/// Ten to the power `e`.
pub open spec fn pow10(e: nat) -> nat
    decreases e,
{
    if e == 0 {
        1
    } else {
        10 * pow10((e - 1) as nat)
    }
}

proof fn lemma_pow10_mono(a: nat, b: nat)
    requires
        a <= b,
    ensures
        pow10(a) <= pow10(b),
        pow10(a) > 0,
    decreases b,
{
    if b > 0 {
        if a == b {
            lemma_pow10_mono((a - 1) as nat, (b - 1) as nat);
        } else {
            lemma_pow10_mono(a, (b - 1) as nat);
        }
    }
}

proof fn lemma_pow10_20()
    ensures
        pow10(20) == 100_000_000_000_000_000_000,
{
    reveal_with_fuel(pow10, 21);
}

proof fn lemma_dec_fixed_shape(n: nat, w: nat)
    ensures
        dec_fixed(n, w).len() == w,
        all_digits(dec_fixed(n, w)),
    decreases w,
{
    if w > 0 {
        lemma_dec_fixed_shape(n / 10, (w - 1) as nat);
        assert(is_digit(digit_char(n % 10)));
    }
}

proof fn lemma_dec_val_fixed(n: nat, w: nat)
    requires
        n < pow10(w),
    ensures
        dec_val(dec_fixed(n, w)) == n,
    decreases w,
{
    if w == 0 {
        assert(n == 0);
    } else {
        assert(pow10(w) == 10 * pow10((w - 1) as nat));
        lemma_dec_val_fixed(n / 10, (w - 1) as nat);
        let prefix = dec_fixed(n / 10, (w - 1) as nat);
        let c = digit_char(n % 10);
        assert(prefix.push(c).drop_last() =~= prefix);
        assert(prefix.push(c).last() == c);
        assert(digit_val(c) == n % 10);
    }
}

/// Reads a twenty-digit number from the front of `s`: its value and the
/// remainder, or nothing if `s` is too short or holds a non-digit there.
pub open spec fn parse_len(s: Seq<char>) -> Option<(nat, Seq<char>)> {
    if s.len() < LEN_WIDTH {
        None
    } else if !all_digits(s.take(LEN_WIDTH as int)) {
        None
    } else {
        Some((dec_val(s.take(LEN_WIDTH as int)), s.skip(LEN_WIDTH as int)))
    }
}

/// Reads one length-prefixed field from the front of `s`: the field's
/// characters and the remainder, or nothing if the prefix is malformed or
/// announces more characters than follow.
pub open spec fn parse_field(s: Seq<char>) -> Option<(Seq<char>, Seq<char>)> {
    match parse_len(s) {
        None => None,
        Some((n, rest)) => if rest.len() < n {
            None
        } else {
            Some((rest.take(n as int), rest.skip(n as int)))
        },
    }
}

/// One encoded field: the character count, then the characters.
pub open spec fn enc_field(s: Seq<char>) -> Seq<char> {
    dec_fixed(s.len(), LEN_WIDTH as nat) + s
}

/// The encoded form of a record: its four string fields, then the creation
/// time.
pub open spec fn spec_encode(v: SessionInfosView) -> Seq<char> {
    enc_field(v.key) + enc_field(v.host_id) + enc_field(v.magnet_link) + enc_field(
        v.revocation_token,
    ) + dec_fixed(v.opened_at as nat, LEN_WIDTH as nat)
}

/// The record a stored text stands for, if any: four length-prefixed fields
/// followed by exactly twenty digits of creation time.  A text that this
/// function rejects is corrupt.
pub open spec fn spec_decode(s: Seq<char>) -> Option<SessionInfosView> {
    match parse_field(s) {
        None => None,
        Some((key, r1)) => match parse_field(r1) {
            None => None,
            Some((host_id, r2)) => match parse_field(r2) {
                None => None,
                Some((magnet_link, r3)) => match parse_field(r3) {
                    None => None,
                    Some((revocation_token, r4)) => {
                        if r4.len() == LEN_WIDTH && all_digits(r4) && dec_val(r4) <= u64::MAX {
                            Some(
                                SessionInfosView {
                                    key,
                                    host_id,
                                    magnet_link,
                                    opened_at: dec_val(r4) as u64,
                                    revocation_token,
                                },
                            )
                        } else {
                            None
                        }
                    },
                },
            },
        },
    }
}

proof fn lemma_parse_enc_field(s: Seq<char>, rest: Seq<char>)
    requires
        s.len() < pow10(LEN_WIDTH as nat),
    ensures
        parse_field(enc_field(s) + rest) == Some((s, rest)),
{
    let e = enc_field(s) + rest;
    lemma_dec_fixed_shape(s.len(), LEN_WIDTH as nat);
    lemma_dec_val_fixed(s.len(), LEN_WIDTH as nat);
    assert(e.take(LEN_WIDTH as int) =~= dec_fixed(s.len(), LEN_WIDTH as nat));
    assert(e.skip(LEN_WIDTH as int) =~= s + rest);
    let tail = s + rest;
    assert(tail.take(s.len() as int) =~= s);
    assert(tail.skip(s.len() as int) =~= rest);
}

/// Decoding inverts encoding: a record whose field lengths fit the
/// twenty-digit counts (every real string does) comes back unchanged.
pub proof fn lemma_decode_encode(v: SessionInfosView)
    requires
        v.key.len() < pow10(LEN_WIDTH as nat),
        v.host_id.len() < pow10(LEN_WIDTH as nat),
        v.magnet_link.len() < pow10(LEN_WIDTH as nat),
        v.revocation_token.len() < pow10(LEN_WIDTH as nat),
    ensures
        spec_decode(spec_encode(v)) == Some(v),
{
    let num = dec_fixed(v.opened_at as nat, LEN_WIDTH as nat);
    let e = spec_encode(v);
    let r1 = enc_field(v.host_id) + enc_field(v.magnet_link) + enc_field(v.revocation_token) + num;
    let r2 = enc_field(v.magnet_link) + enc_field(v.revocation_token) + num;
    let r3 = enc_field(v.revocation_token) + num;
    assert(e =~= enc_field(v.key) + r1);
    assert(r1 =~= enc_field(v.host_id) + r2);
    assert(r2 =~= enc_field(v.magnet_link) + r3);
    lemma_parse_enc_field(v.key, r1);
    lemma_parse_enc_field(v.host_id, r2);
    lemma_parse_enc_field(v.magnet_link, r3);
    lemma_parse_enc_field(v.revocation_token, num);
    lemma_dec_fixed_shape(v.opened_at as nat, LEN_WIDTH as nat);
    lemma_pow10_20();
    lemma_dec_val_fixed(v.opened_at as nat, LEN_WIDTH as nat);
}

fn append_digit(out: &mut String, d: u64)
    requires
        d < 10,
    ensures
        final(out)@ == old(out)@.push(digit_char(d as nat)),
{
    match d {
        0 => {
            proof { reveal_strlit("0"); }
            out.append("0");
        },
        1 => {
            proof { reveal_strlit("1"); }
            out.append("1");
        },
        2 => {
            proof { reveal_strlit("2"); }
            out.append("2");
        },
        3 => {
            proof { reveal_strlit("3"); }
            out.append("3");
        },
        4 => {
            proof { reveal_strlit("4"); }
            out.append("4");
        },
        5 => {
            proof { reveal_strlit("5"); }
            out.append("5");
        },
        6 => {
            proof { reveal_strlit("6"); }
            out.append("6");
        },
        7 => {
            proof { reveal_strlit("7"); }
            out.append("7");
        },
        8 => {
            proof { reveal_strlit("8"); }
            out.append("8");
        },
        _ => {
            proof { reveal_strlit("9"); }
            out.append("9");
        },
    }
    proof {
        assert(out@ =~= old(out)@.push(digit_char(d as nat)));
    }
}

fn append_fixed(out: &mut String, n: u64, w: usize)
    requires
        (n as nat) < pow10(w as nat),
    ensures
        final(out)@ == old(out)@ + dec_fixed(n as nat, w as nat),
    decreases w,
{
    if w == 0 {
        proof {
            assert(out@ =~= old(out)@ + dec_fixed(n as nat, 0));
        }
        return;
    }
    proof {
        assert(pow10(w as nat) == 10 * pow10((w - 1) as nat));
    }
    append_fixed(out, n / 10, w - 1);
    append_digit(out, n % 10);
    proof {
        assert(out@ =~= old(out)@ + dec_fixed(n as nat, w as nat));
    }
}

fn append_field(out: &mut String, f: &String)
    ensures
        final(out)@ == old(out)@ + enc_field(f@),
        f@.len() < pow10(LEN_WIDTH as nat),
{
    let n = f.as_str().unicode_len();
    proof {
        lemma_pow10_20();
    }
    append_fixed(out, n as u64, LEN_WIDTH);
    out.append(f.as_str());
    proof {
        assert(out@ =~= old(out)@ + enc_field(f@));
    }
}

/// Serializes a record to its stored text form.  The text decodes back to
/// exactly this record.
pub fn encode_session(s: &SessionInfos) -> (out: String)
    ensures
        out@ == spec_encode(s@),
        spec_decode(out@) == Some(s@),
{
    let mut out = String::new();
    append_field(&mut out, &s.key);
    append_field(&mut out, &s.host_id);
    append_field(&mut out, &s.magnet_link);
    append_field(&mut out, &s.revocation_token);
    proof {
        lemma_pow10_20();
    }
    append_fixed(&mut out, s.opened_at, LEN_WIDTH);
    proof {
        assert(out@ =~= spec_encode(s@));
        lemma_decode_encode(s@);
    }
    out
}

fn parse_len_at(s: &str, pos: usize) -> (r: Option<(u128, usize)>)
    requires
        pos <= s@.len(),
    ensures
        match r {
            Some((n, np)) => {
                &&& parse_len(s@.skip(pos as int)) == Some(((n as nat), s@.skip(np as int)))
                &&& np == pos + LEN_WIDTH
                &&& np <= s@.len()
            },
            None => parse_len(s@.skip(pos as int)) is None,
        },
{
    let total = s.unicode_len();
    if total - pos < LEN_WIDTH {
        return None;
    }
    let ghost t = s@.skip(pos as int);
    let mut i: usize = 0;
    let mut val: u128 = 0;
    proof {
        lemma_pow10_20();
        assert(t.take(0int) =~= Seq::<char>::empty());
    }
    while i < LEN_WIDTH
        invariant
            pos + LEN_WIDTH <= s@.len(),
            pos + LEN_WIDTH <= usize::MAX,
            0 <= i <= LEN_WIDTH,
            t == s@.skip(pos as int),
            all_digits(t.take(i as int)),
            val == dec_val(t.take(i as int)),
            (val as nat) < pow10(i as nat),
            pow10(20) == 100_000_000_000_000_000_000,
        decreases LEN_WIDTH - i,
    {
        let c = s.get_char(pos + i);
        let cv = c as u32;
        if cv < 48 || cv > 57 {
            proof {
                assert(t.take(LEN_WIDTH as int)[i as int] == c);
                assert(!is_digit(c));
                assert(!all_digits(t.take(LEN_WIDTH as int)));
            }
            return None;
        }
        proof {
            lemma_pow10_mono(i as nat, 19);
            assert(pow10((i + 1) as nat) == 10 * pow10(i as nat));
        }
        val = val * 10 + ((cv - 48) as u128);
        proof {
            let prev = t.take(i as int);
            let cur = t.take(i + 1int);
            assert(cur.drop_last() =~= prev);
            assert(cur.last() == c);
            assert(is_digit(c) && digit_val(c) == (cv - 48) as nat);
        }
        i += 1;
    }
    proof {
        assert(t.take(LEN_WIDTH as int) == t.take(i as int));
        assert(t.len() >= LEN_WIDTH);
        assert(t.skip(LEN_WIDTH as int) =~= s@.skip((pos + LEN_WIDTH) as int));
    }
    Some((val, pos + LEN_WIDTH))
}

fn parse_field_at(s: &str, pos: usize) -> (r: Option<(String, usize)>)
    requires
        pos <= s@.len(),
    ensures
        match r {
            Some((f, np)) => {
                &&& parse_field(s@.skip(pos as int)) == Some((f@, s@.skip(np as int)))
                &&& pos <= np <= s@.len()
            },
            None => parse_field(s@.skip(pos as int)) is None,
        },
{
    match parse_len_at(s, pos) {
        None => None,
        Some((n, np)) => {
            let total = s.unicode_len();
            let rem = total - np;
            let ghost rest = s@.skip(np as int);
            proof {
                assert(rest.len() == s@.len() - np);
            }
            if (rem as u128) < n {
                return None;
            }
            let n_us = n as usize;
            proof {
                assert(n_us as nat == n as nat);
            }
            let f = s.substring_char(np, np + n_us);
            proof {
                assert(rest.take(n as int) =~= s@.subrange(np as int, np + n_us));
                assert(rest.skip(n as int) =~= s@.skip((np + n_us) as int));
            }
            Some((String::from_str(f), np + n_us))
        },
    }
}

/// Deserializes a stored text.  It returns the record the text encodes, and
/// reports a corrupt text — one that no record encodes to — as a
/// serialization error.
pub fn decode_session(s: &str) -> (r: Result<SessionInfos, ConveyError>)
    ensures
        match spec_decode(s@) {
            Some(v) => r matches Ok(rec) && rec@ == v,
            None => r matches Err(e) && e matches ConveyError::SerializationError,
        },
{
    proof {
        assert(s@.skip(0int) =~= s@);
    }
    let (key, p1) = match parse_field_at(s, 0) {
        None => {
            return Err(ConveyError::SerializationError);
        },
        Some(x) => x,
    };
    let (host_id, p2) = match parse_field_at(s, p1) {
        None => {
            return Err(ConveyError::SerializationError);
        },
        Some(x) => x,
    };
    let (magnet_link, p3) = match parse_field_at(s, p2) {
        None => {
            return Err(ConveyError::SerializationError);
        },
        Some(x) => x,
    };
    let (revocation_token, p4) = match parse_field_at(s, p3) {
        None => {
            return Err(ConveyError::SerializationError);
        },
        Some(x) => x,
    };
    let ghost r4 = s@.skip(p4 as int);
    let (n, p5) = match parse_len_at(s, p4) {
        None => {
            proof {
                assert(!(r4.len() == LEN_WIDTH && all_digits(r4) && dec_val(r4) <= u64::MAX));
            }
            return Err(ConveyError::SerializationError);
        },
        Some(x) => x,
    };
    let total = s.unicode_len();
    if p5 != total {
        proof {
            assert(r4.len() != LEN_WIDTH);
        }
        return Err(ConveyError::SerializationError);
    }
    if n > u64::MAX as u128 {
        proof {
            assert(r4.take(LEN_WIDTH as int) =~= r4);
        }
        return Err(ConveyError::SerializationError);
    }
    proof {
        assert(r4.take(LEN_WIDTH as int) =~= r4);
    }
    Ok(SessionInfos { key, host_id, magnet_link, opened_at: n as u64, revocation_token })
}

} // verus!
