//! Hashes, difficulties and targets as they are shown to people.
use crate::text::{decimal, decimal_text, hex_encode, hex_text};
use vstd::prelude::*;
use vstd::string::*;

verus! {

/// A hash in hexadecimal, or a word for none.
pub open spec fn hash_text(hash: Option<[u8; 32]>) -> Seq<char> {
    match hash {
        Some(bytes) => hex_text(bytes@),
        None => "none"@,
    }
}

/// A hash in hexadecimal, or a word for none.
pub fn format_hash(hash: Option<[u8; 32]>) -> (r: String)
    ensures
        r@ == hash_text(hash),
{
    match hash {
        Some(bytes) => hex_encode(bytes.as_slice()),
        None => String::from_str("none"),
    }
}

/// The ends of a text that is longer than sixteen characters.
pub open spec fn abbreviated(text: Seq<char>) -> Seq<char> {
    if text.len() <= 16 {
        text
    } else {
        text.take(8) + ".."@ + text.skip(text.len() - 8)
    }
}

/// The ends of a hash in hexadecimal, or a word for none.
pub fn short_hash(hash: Option<[u8; 32]>) -> (r: String)
    ensures
        r@ == abbreviated(hash_text(hash)),
        hash is Some ==> r@.len() == 18,
{
    let text = format_hash(hash);
    proof {
        reveal_strlit("none");
        reveal_strlit("..");
    }
    let n: usize = text.as_str().unicode_len();
    if n <= 16 {
        return text;
    }
    let mut short = String::from_str(text.as_str().substring_char(0, 8));
    short.append("..");
    short.append(text.as_str().substring_char(n - 8, n));
    assert(short@ =~= abbreviated(text@));
    short
}

/// A difficulty in decimal, or what stands in its way.
pub fn format_difficulty(difficulty: Result<u32, String>) -> (r: String)
    ensures
        r@ == (match difficulty {
            Ok(bits) => decimal_text(bits as nat),
            Err(error) => "error:"@ + error@,
        }),
{
    match difficulty {
        Ok(bits) => decimal(bits as u64),
        Err(error) => {
            let mut text = String::from_str("error:");
            text.append(error.as_str());
            text
        },
    }
}

/// The byte whose highest `bits` bits are set, in hexadecimal.
pub open spec fn mask_text(bits: int) -> Seq<char> {
    if bits == 1 {
        "80"@
    } else if bits == 2 {
        "c0"@
    } else if bits == 3 {
        "e0"@
    } else if bits == 4 {
        "f0"@
    } else if bits == 5 {
        "f8"@
    } else if bits == 6 {
        "fc"@
    } else {
        "fe"@
    }
}

/// What a hash must look like to meet a difficulty.
pub open spec fn target_text(difficulty: u32) -> Seq<char> {
    if difficulty == 0 {
        "disabled_for_test"@
    } else if difficulty % 8 == 0 {
        "hash_prefix_zero_bytes>="@ + decimal_text((difficulty / 8) as nat)
    } else {
        "hash_prefix_zero_bytes>="@ + decimal_text((difficulty / 8) as nat) + ",next_byte_mask=0x"@
            + mask_text((difficulty % 8) as int) + ",leading_zero_bits>="@ + decimal_text(
            difficulty as nat,
        )
    }
}

/// What a hash must look like to meet a difficulty.
pub fn pow_target_description(difficulty: u32) -> (r: String)
    ensures
        r@ == target_text(difficulty),
{
    if difficulty == 0 {
        return String::from_str("disabled_for_test");
    }
    let zero_bytes: u32 = difficulty / 8;
    let zero_bits: u32 = difficulty % 8;
    let mut text = String::from_str("hash_prefix_zero_bytes>=");
    text.append(decimal(zero_bytes as u64).as_str());
    if zero_bits == 0 {
        return text;
    }
    let mask = match zero_bits {
        1 => "80",
        2 => "c0",
        3 => "e0",
        4 => "f0",
        5 => "f8",
        6 => "fc",
        _ => "fe",
    };
    text.append(",next_byte_mask=0x");
    text.append(mask);
    text.append(",leading_zero_bits>=");
    text.append(decimal(difficulty as u64).as_str());
    text
}

} // verus!
