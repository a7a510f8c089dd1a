//! The wire encoding of a string payload: a 32-bit big-endian character
//! count, then each character's Unicode scalar value as four big-endian
//! bytes. Decoding accepts exactly the encodings: a wrong length or a group
//! that is no scalar value is rejected.

use vstd::prelude::*;

use crate::be::{
    lemma_u32_be_round_trip, lemma_u32_of_be_inverse, push_u32_be, read_u32_be, u32_be_bytes,
    u32_of_be,
};
use crate::msg::Error;
use vstd::string::StrSliceExecFns;

verus! {

/// A character's Unicode scalar value.
pub open spec fn char_value(c: char) -> u32 {
    c as u32
}

/// Two characters with the same scalar value are the same character.
pub proof fn lemma_char_value_injective(a: char, b: char)
    requires
        a as u32 == b as u32,
    ensures
        a == b,
{
}

/// Relies on `String::push`: appends exactly the given character.
pub assume_specification[ String::push ](s: &mut String, c: char)
    ensures
        final(s)@ == old(s)@.push(c),
;

/// Relies on `char::from_u32`: returns the character with the given Unicode
/// scalar value, and `None` exactly when no character has that value.
pub assume_specification[ char::from_u32 ](u: u32) -> (r: Option<char>)
    ensures
        r matches Some(c) ==> c as u32 == u,
        r is None ==> forall|c: char| char_value(c) != u,
;

/// The byte encoding of a character sequence: each character's scalar value
/// as four big-endian bytes, in order.
pub open spec fn chars_bytes(s: Seq<char>) -> Seq<u8>
    decreases s.len(),
{
    if s.len() == 0 {
        seq![]
    } else {
        u32_be_bytes(s[0] as u32) + chars_bytes(s.drop_first())
    }
}

/// The byte encoding of a string payload: character count, then the
/// characters.
pub open spec fn str_bytes(s: Seq<char>) -> Seq<u8> {
    u32_be_bytes(s.len() as u32) + chars_bytes(s)
}

/// The character sequence of length `n` a byte sequence denotes, if any.
/// Every byte must belong to the encoding.
pub open spec fn parse_chars(b: Seq<u8>, n: nat) -> Option<Seq<char>>
    decreases n,
{
    if n == 0 {
        if b.len() == 0 {
            Some(Seq::empty())
        } else {
            None
        }
    } else if b.len() < 4 {
        None
    } else {
        let u = u32_of_be(b[0], b[1], b[2], b[3]);
        if exists|c: char| char_value(c) == u {
            let c = choose|c: char| char_value(c) == u;
            match parse_chars(b.skip(4), (n - 1) as nat) {
                Some(s) => Some(seq![c] + s),
                None => None,
            }
        } else {
            None
        }
    }
}

/// A character sequence encodes to four bytes per character.
pub proof fn lemma_chars_bytes_len(s: Seq<char>)
    ensures
        chars_bytes(s).len() == 4 * s.len(),
    decreases s.len(),
{
    if s.len() > 0 {
        lemma_chars_bytes_len(s.drop_first());
    }
}

/// The `i`-th four-byte group of an encoded character sequence is the
/// encoding of its `i`-th character.
pub proof fn lemma_chars_bytes_group(s: Seq<char>, i: int)
    requires
        0 <= i < s.len(),
    ensures
        chars_bytes(s).subrange(4 * i, 4 * i + 4) == u32_be_bytes(s[i] as u32),
    decreases i,
{
    lemma_chars_bytes_len(s);
    lemma_chars_bytes_len(s.drop_first());
    if i == 0 {
        assert(chars_bytes(s).subrange(0, 4) =~= u32_be_bytes(s[0] as u32));
    } else {
        lemma_chars_bytes_group(s.drop_first(), i - 1);
        assert(chars_bytes(s).subrange(4 * i, 4 * i + 4) =~= chars_bytes(
            s.drop_first(),
        ).subrange(4 * (i - 1), 4 * (i - 1) + 4));
    }
}

/// Appending one character appends its four-byte group.
pub proof fn lemma_chars_bytes_snoc(s: Seq<char>, c: char)
    ensures
        chars_bytes(s.push(c)) == chars_bytes(s) + u32_be_bytes(c as u32),
    decreases s.len(),
{
    if s.len() == 0 {
        assert(s.push(c)[0] == c);
        assert(s.push(c).drop_first() =~= s);
        assert(chars_bytes(s.push(c)) =~= chars_bytes(s) + u32_be_bytes(c as u32));
    } else {
        assert(s.push(c)[0] == s[0]);
        assert(s.push(c).drop_first() =~= s.drop_first().push(c));
        lemma_chars_bytes_snoc(s.drop_first(), c);
        assert(chars_bytes(s.push(c)) =~= chars_bytes(s) + u32_be_bytes(c as u32));
    }
}

/// Round trip: a character sequence parses back from its own encoding.
pub proof fn lemma_parse_chars_round_trip(s: Seq<char>)
    ensures
        parse_chars(chars_bytes(s), s.len()) == Some(s),
    decreases s.len(),
{
    lemma_chars_bytes_len(s);
    if s.len() == 0 {
        assert(parse_chars(chars_bytes(s), s.len()) == Some(Seq::<char>::empty()));
        assert(s =~= Seq::<char>::empty());
    } else {
        let b = chars_bytes(s);
        let u0 = s[0] as u32;
        lemma_u32_be_round_trip(u0);
        assert(b[0] == u32_be_bytes(u0)[0]);
        assert(b[1] == u32_be_bytes(u0)[1]);
        assert(b[2] == u32_be_bytes(u0)[2]);
        assert(b[3] == u32_be_bytes(u0)[3]);
        let u = u32_of_be(b[0], b[1], b[2], b[3]);
        assert(u == u0);
        assert(char_value(s[0]) == u);
        let c = choose|c: char| char_value(c) == u;
        assert(c as u32 == s[0] as u32);
        lemma_char_value_injective(c, s[0]);
        assert(c == s[0]);
        lemma_chars_bytes_len(s.drop_first());
        assert(b.skip(4) =~= chars_bytes(s.drop_first()));
        lemma_parse_chars_round_trip(s.drop_first());
        assert(seq![c] + s.drop_first() =~= s);
    }
}

/// Exactness: a byte sequence that parses as `n` characters is the encoding
/// of those characters, and there are `n` of them.
pub proof fn lemma_parse_chars_exact(b: Seq<u8>, n: nat, s: Seq<char>)
    requires
        parse_chars(b, n) == Some(s),
    ensures
        s.len() == n,
        chars_bytes(s) == b,
    decreases n,
{
    if n == 0 {
        assert(s =~= Seq::<char>::empty());
        assert(chars_bytes(s) =~= b);
    } else {
        let u = u32_of_be(b[0], b[1], b[2], b[3]);
        let c = choose|c: char| char_value(c) == u;
        let rest = parse_chars(b.skip(4), (n - 1) as nat);
        let tail = rest->0;
        lemma_parse_chars_exact(b.skip(4), (n - 1) as nat, tail);
        assert(s == seq![c] + tail);
        assert(s[0] == c);
        assert(s.drop_first() =~= tail);
        lemma_u32_of_be_inverse(b[0], b[1], b[2], b[3]);
        assert(u32_be_bytes(s[0] as u32) =~= seq![b[0], b[1], b[2], b[3]]);
        assert(chars_bytes(s) =~= b);
    }
}

/// Appends the wire encoding of a string payload to `out`.
pub fn push_string(out: &mut Vec<u8>, s: &String)
    requires
        s@.len() <= u32::MAX,
    ensures
        final(out)@ == old(out)@ + str_bytes(s@),
{
    let n = s.as_str().unicode_len();
    push_u32_be(out, n as u32);
    let mut i: usize = 0;
    while i < n
        invariant
            i <= n,
            n == s@.len(),
            n <= u32::MAX,
            out@ == old(out)@ + u32_be_bytes(n as u32) + chars_bytes(s@.take(i as int)),
        decreases n - i,
    {
        let c = s.as_str().get_char(i);
        push_u32_be(out, c as u32);
        proof {
            lemma_chars_bytes_snoc(s@.take(i as int), s@[i as int]);
            assert(s@.take(i + 1) =~= s@.take(i as int).push(s@[i as int]));
            assert(out@ =~= old(out)@ + u32_be_bytes(n as u32) + chars_bytes(s@.take(i + 1)));
        }
        i += 1;
    }
    proof {
        assert(s@.take(n as int) =~= s@);
    }
}

/// Reads the `n`-character string payload occupying all of `b` from `off`
/// on: `Ok` exactly when those bytes are the encoding of `n` characters.
pub fn read_chars(b: &[u8], off: usize, n: u32) -> (r: Result<String, Error>)
    requires
        off <= b@.len(),
    ensures
        match r {
            Ok(s) => parse_chars(b@.skip(off as int), n as nat) == Some(s@),
            Err(e) => parse_chars(b@.skip(off as int), n as nat) is None && e == Error::Decode,
        },
{
    let ghost rem = b@.skip(off as int);
    let rem_len: usize = b.len() - off;
    if rem_len % 4 != 0 || rem_len / 4 != n as usize {
        proof {
            if parse_chars(rem, n as nat) is Some {
                lemma_parse_chars_exact(rem, n as nat, parse_chars(rem, n as nat)->0);
                lemma_chars_bytes_len(parse_chars(rem, n as nat)->0);
            }
        }
        return Err(Error::Decode);
    }
    assert(rem.len() == 4 * (n as nat));
    let mut s = String::new();
    let mut i: usize = 0;
    while i < n as usize
        invariant
            i <= n,
            off + 4 * (n as int) <= b@.len(),
            b@.len() <= usize::MAX,
            rem == b@.skip(off as int),
            rem.len() == 4 * (n as nat),
            s@.len() == i,
            chars_bytes(s@) == rem.take(4 * (i as int)),
        decreases n - i,
    {
        proof {
            lemma_chars_bytes_len(s@);
        }
        let u = read_u32_be(b, off + 4 * i);
        match char::from_u32(u) {
            Some(c) => {
                let ghost s_before = s@;
                s.push(c);
                proof {
                    lemma_chars_bytes_snoc(s_before, c);
                    assert(rem[4 * (i as int)] == b@[off + 4 * (i as int)]);
                    assert(rem.take(4 * (i as int) + 4) =~= rem.take(4 * (i as int)) + seq![
                        rem[4 * (i as int)],
                        rem[4 * (i as int) + 1],
                        rem[4 * (i as int) + 2],
                        rem[4 * (i as int) + 3],
                    ]);
                    lemma_u32_of_be_inverse(
                        rem[4 * (i as int)],
                        rem[4 * (i as int) + 1],
                        rem[4 * (i as int) + 2],
                        rem[4 * (i as int) + 3],
                    );
                }
                i += 1;
            },
            None => {
                proof {
                    if parse_chars(rem, n as nat) is Some {
                        let whole = parse_chars(rem, n as nat)->0;
                        lemma_parse_chars_exact(rem, n as nat, whole);
                        lemma_chars_bytes_group(whole, i as int);
                        lemma_u32_be_round_trip(whole[i as int] as u32);
                        assert(rem[4 * (i as int)] == u32_be_bytes(whole[i as int] as u32)[0]);
                        assert(rem[4 * (i as int) + 1] == u32_be_bytes(whole[i as int] as u32)[1]);
                        assert(rem[4 * (i as int) + 2] == u32_be_bytes(whole[i as int] as u32)[2]);
                        assert(rem[4 * (i as int) + 3] == u32_be_bytes(whole[i as int] as u32)[3]);
                        assert(char_value(whole[i as int]) == u);
                        assert(false);
                    }
                }
                return Err(Error::Decode);
            },
        }
    }
    proof {
        assert(rem.take(4 * (i as int)) =~= rem);
        lemma_parse_chars_round_trip(s@);
    }
    Ok(s)
}

} // verus!
