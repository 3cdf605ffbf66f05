//! The DNA alphabet and the reverse complement, as bio provides them.

use bio::alphabets::Alphabet;
use vstd::prelude::*;
use vstd::string::StringSliceAdditionalSpecFns;
use vstd::utf8::{
    decode_utf8, encode_utf8, encode_utf8_decode_utf8, encode_utf8_valid_utf8,
    is_ascii_chars, is_ascii_chars_encode_utf8, valid_utf8,
};

use crate::errors::RuntimeError;

verus! {

#[verifier::external_type_specification]
#[verifier::external_body]
pub struct ExAlphabet(Alphabet);

#[verifier::external_type_specification]
#[verifier::external_body]
pub struct ExUtf8Error(core::str::Utf8Error);

/// The symbols of an alphabet.
pub uninterp spec fn alphabet_symbols(a: Alphabet) -> Set<u8>;

/// Whether a byte is one of `ACGTacgt`.
pub open spec fn is_dna_byte(b: u8) -> bool {
    b == 65u8 || b == 67u8 || b == 71u8 || b == 84u8 || b == 97u8 || b == 99u8 || b == 103u8 || b == 116u8
}

/// Whether a character is one of the four bases, in either case.
pub open spec fn is_dna_char(c: char) -> bool {
    c == 'A' || c == 'C' || c == 'G' || c == 'T' || c == 'a' || c == 'c' || c == 'g' || c == 't'
}

/// Whether a text is made of bases only.
pub open spec fn is_dna(s: Seq<char>) -> bool {
    forall|i: int| 0 <= i < s.len() ==> is_dna_char(#[trigger] s[i])
}

/// The paired base of a base byte (A-T, C-G), in the same case.
pub open spec fn complement_byte(b: u8) -> u8 {
    if b == 65u8 {
        84u8
    } else if b == 84u8 {
        65u8
    } else if b == 67u8 {
        71u8
    } else if b == 71u8 {
        67u8
    } else if b == 97u8 {
        116u8
    } else if b == 116u8 {
        97u8
    } else if b == 99u8 {
        103u8
    } else if b == 103u8 {
        99u8
    } else {
        b
    }
}

/// The paired base of a base (A-T, C-G), in the same case.
pub open spec fn complement_char(c: char) -> char {
    if c == 'A' {
        'T'
    } else if c == 'T' {
        'A'
    } else if c == 'C' {
        'G'
    } else if c == 'G' {
        'C'
    } else if c == 'a' {
        't'
    } else if c == 't' {
        'a'
    } else if c == 'c' {
        'g'
    } else if c == 'g' {
        'c'
    } else {
        c
    }
}

/// The reverse complement of a strand: read backwards, each base paired.
pub open spec fn reverse_complement(s: Seq<char>) -> Seq<char> {
    Seq::new(s.len(), |i: int| complement_char(s[s.len() - 1 - i]))
}

/// Relies on bio's `alphabets::dna::alphabet`: the alphabet of the symbols
/// `ACGTacgt`.
pub assume_specification[ bio::alphabets::dna::alphabet ]() -> (r: Alphabet)
    ensures
        alphabet_symbols(r) == Set::new(|b: u8| is_dna_byte(b)),
;

/// Relies on bio's `Alphabet::is_word`: whether every byte of the text is a
/// symbol of the alphabet.
#[verifier::external_body]
fn alphabet_is_word(a: &Alphabet, text: &[u8]) -> (r: bool)
    ensures
        r == forall|i: int| 0 <= i < text@.len() ==> alphabet_symbols(*a).contains(#[trigger] text@[i]),
{
    a.is_word(text)
}

/// Relies on bio's `alphabets::dna::revcomp`: the text read backwards, each
/// byte replaced by its complement, which pairs A with T and C with G and
/// keeps the case.
#[verifier::external_body]
fn revcomp_bytes(text: &[u8]) -> (r: Vec<u8>)
    ensures
        r@.len() == text@.len(),
        forall|i: int|
            0 <= i < text@.len() && is_dna_byte(#[trigger] text@[text@.len() - 1 - i]) ==> r@[i]
                == complement_byte(text@[text@.len() - 1 - i]),
{
    bio::alphabets::dna::revcomp(text)
}

/// Relies on `std::str::from_utf8`: it succeeds exactly on valid UTF-8, and
/// the text it gives is made of those same bytes.
#[verifier::external_body]
fn str_from_utf8(v: &[u8]) -> (r: Result<&str, core::str::Utf8Error>)
    ensures
        r is Ok <==> valid_utf8(v@),
        r matches Ok(t) ==> t.spec_bytes() == v@,
{
    std::str::from_utf8(v)
}

/// Bytes below 128 read as text one character each.
proof fn lemma_ascii_bytes(v: Seq<u8>)
    requires
        forall|i: int| 0 <= i < v.len() ==> v[i] < 128,
    ensures
        valid_utf8(v),
        decode_utf8(v) == Seq::new(v.len(), |i: int| v[i] as char),
{
    let cs = Seq::new(v.len(), |i: int| v[i] as char);
    assert(is_ascii_chars(cs));
    is_ascii_chars_encode_utf8(cs);
    assert(encode_utf8(cs) =~= v);
    encode_utf8_valid_utf8(cs);
    encode_utf8_decode_utf8(cs);
}

/// Whether the text is made of bases only, in either case.
pub fn is_dna_text(s: &str) -> (r: bool)
    ensures
        r == is_dna(s@),
{
    if !s.is_ascii() {
        assert(!is_dna(s@)) by {
            let i = choose|i: int| 0 <= i < s@.len() && !('\0' <= #[trigger] s@[i] <= '\u{7f}');
            assert(!is_dna_char(s@[i]));
        }
        return false;
    }
    proof {
        vstd::string::is_ascii_spec_bytes(s);
    }
    let bytes = s.as_bytes();
    let alphabet = bio::alphabets::dna::alphabet();
    let r = alphabet_is_word(&alphabet, bytes);
    assert(bytes@.len() == s@.len());
    assert(forall|i: int| 0 <= i < s@.len() ==> (alphabet_symbols(alphabet).contains(#[trigger] bytes@[i]) <==> is_dna_char(s@[i])));
    if r {
        assert forall|i: int| 0 <= i < s@.len() implies is_dna_char(#[trigger] s@[i]) by {
            assert(alphabet_symbols(alphabet).contains(bytes@[i]));
        }
    } else {
        proof {
            let i = choose|i: int| 0 <= i < bytes@.len() && !alphabet_symbols(alphabet).contains(#[trigger] bytes@[i]);
            assert(!is_dna_char(s@[i]));
        }
    }
    r
}

/// The reverse complement of a strand given as bytes, as text.
pub fn get_revcomp(s: &[u8]) -> (r: Result<String, RuntimeError>)
    ensures
        (forall|i: int| 0 <= i < s@.len() ==> is_dna_byte(#[trigger] s@[i])) ==> (r matches Ok(t) && t@
            == Seq::new(s@.len(), |i: int| complement_byte(s@[s@.len() - 1 - i]) as char)),
        r matches Err(e) ==> e == RuntimeError::IncorrectDNASequence,
{
    let seq = revcomp_bytes(s);
    match str_from_utf8(seq.as_slice()) {
        Ok(n) => {
            let t = n.to_owned();
            proof {
                if forall|i: int| 0 <= i < s@.len() ==> is_dna_byte(#[trigger] s@[i]) {
                    let n_bytes = s@.len();
                    assert forall|i: int| 0 <= i < n_bytes implies seq@[i] < 128 && seq@[i]
                        == complement_byte(s@[n_bytes - 1 - i]) by {
                        assert(is_dna_byte(s@[n_bytes - 1 - i]));
                    }
                    lemma_ascii_bytes(seq@);
                    encode_utf8_decode_utf8(n@);
                    assert(t@ =~= Seq::new(s@.len(), |i: int| complement_byte(s@[s@.len() - 1 - i]) as char));
                }
            }
            Ok(t)
        },
        Err(_) => {
            proof {
                if forall|i: int| 0 <= i < s@.len() ==> is_dna_byte(#[trigger] s@[i]) {
                    let n_bytes = s@.len();
                    assert forall|i: int| 0 <= i < n_bytes implies seq@[i] < 128 by {
                        assert(is_dna_byte(s@[n_bytes - 1 - i]));
                    }
                    lemma_ascii_bytes(seq@);
                }
            }
            Err(RuntimeError::IncorrectDNASequence)
        },
    }
}

} // verus!
