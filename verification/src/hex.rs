use vstd::prelude::*;

verus! {

/// Errors from loading a persisted proof: the file was absent, or its
/// content was not a well-formed hex string.
#[derive(Debug, Clone, Copy, PartialEq, Eq, Structural)]
pub enum ProofError {
    NotFound,
    Decode,
}

/// An ASCII byte that is a hex digit, in either case.
pub open spec fn is_hex_digit(b: u8) -> bool {
    (48 <= b <= 57) || (97 <= b <= 102) || (65 <= b <= 70)
}

/// The numeric value of a hex digit.
pub open spec fn hex_digit_value(b: u8) -> u8 {
    if 48 <= b <= 57 {
        (b - 48) as u8
    } else if 97 <= b {
        (b - 97 + 10) as u8
    } else {
        (b - 65 + 10) as u8
    }
}

/// A hex text: an even number of hex digits.
pub open spec fn well_formed_hex(s: Seq<u8>) -> bool {
    s.len() % 2 == 0 && (forall|i: int| 0 <= i < s.len() ==> is_hex_digit(s[i]))
}

/// The byte that digits `2i` and `2i + 1` of a hex text stand for.
pub open spec fn decoded_byte(s: Seq<u8>, i: int) -> u8 {
    (hex_digit_value(s[2 * i]) * 16 + hex_digit_value(s[2 * i + 1])) as u8
}

/// The raw bytes that a well-formed hex text stands for.
pub open spec fn decoded_bytes(s: Seq<u8>) -> Seq<u8> {
    Seq::new((s.len() / 2) as nat, |i: int| decoded_byte(s, i))
}

fn hex_val(b: u8) -> (r: Option<u8>)
    ensures
        is_hex_digit(b) ==> r == Some(hex_digit_value(b)),
        !is_hex_digit(b) ==> r is None,
{
    if 48 <= b && b <= 57 {
        Some(b - 48)
    } else if 97 <= b && b <= 102 {
        Some(b - 97 + 10)
    } else if 65 <= b && b <= 70 {
        Some(b - 65 + 10)
    } else {
        None
    }
}

/// Decodes the hex text of a persisted proof into raw bytes.  The
/// content is treated as opaque: no interpretation of the decoded
/// bytes happens here.  A text of odd length, or one holding a byte
/// that is no hex digit, is rejected.
pub fn decode_proof_hex(text: &[u8]) -> (r: Result<Vec<u8>, ProofError>)
    ensures
        well_formed_hex(text@) ==> (r matches Ok(b) && b@ == decoded_bytes(text@)),
        !well_formed_hex(text@) ==> r == Err::<Vec<u8>, ProofError>(ProofError::Decode),
{
    if text.len() % 2 != 0 {
        return Err(ProofError::Decode);
    }
    let mut out: Vec<u8> = Vec::new();
    let mut i: usize = 0;
    while i < text.len()
        invariant
            text@.len() % 2 == 0,
            i % 2 == 0,
            i <= text@.len(),
            forall|j: int| 0 <= j < i ==> is_hex_digit(text@[j]),
            out@.len() == i / 2,
            forall|k: int| 0 <= k < out@.len() ==> out@[k] == decoded_byte(text@, k),
        decreases text@.len() - i,
    {
        let hi = match hex_val(text[i]) {
            Some(v) => v,
            None => {
                return Err(ProofError::Decode);
            },
        };
        let lo = match hex_val(text[i + 1]) {
            Some(v) => v,
            None => {
                return Err(ProofError::Decode);
            },
        };
        out.push(hi * 16 + lo);
        i = i + 2;
    }
    assert(out@ =~= decoded_bytes(text@));
    Ok(out)
}

} // verus!
