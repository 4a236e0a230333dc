//! SHA-256 digests and their lowercase hexadecimal text.

use vstd::prelude::*;
use vstd::string::StringExecFns;

verus! {

/// The number of bytes of a SHA-256 digest.
pub const DIGEST_BYTES: usize = 32;

/// The longest message that can be hashed: its length in bits is to fit in 64 bits.
pub const MAX_MESSAGE_BYTES: u64 = 0x1fff_ffff_ffff_ffff;

/// The SHA-256 digest of a message.
pub uninterp spec fn sha256(message: Seq<u8>) -> Seq<u8>;

/// The bytes that a hasher has taken in so far.
pub uninterp spec fn hashed_bytes(hasher: Hasher) -> Seq<u8>;

/// A SHA-256 hasher that takes its message in piece by piece: a `sha2::Sha256`.
#[verifier::external_body]
pub struct Hasher {
    inner: sha2::Sha256,
}

/// A hasher that has taken in nothing: `sha2::Digest::new`.
#[verifier::external_body]
pub(crate) fn hasher_new() -> (hasher: Hasher)
    ensures
        hashed_bytes(hasher) == Seq::<u8>::empty(),
{
    Hasher { inner: <sha2::Sha256 as sha2::Digest>::new() }
}

/// Takes in more bytes, after those that the hasher has already: `sha2::Digest::update`.
#[verifier::external_body]
pub(crate) fn hasher_update(hasher: &mut Hasher, data: &[u8])
    requires
        hashed_bytes(*old(hasher)).len() + data@.len() <= MAX_MESSAGE_BYTES,
    ensures
        hashed_bytes(*final(hasher)) == hashed_bytes(*old(hasher)) + data@,
{
    sha2::Digest::update(&mut hasher.inner, data)
}

/// The digest of everything taken in: `sha2::Digest::finalize`. It is the SHA-256 digest
/// of those bytes, whatever pieces they came in.
#[verifier::external_body]
pub(crate) fn hasher_finalize(hasher: Hasher) -> (digest: Vec<u8>)
    requires
        hashed_bytes(hasher).len() <= MAX_MESSAGE_BYTES,
    ensures
        digest@ == sha256(hashed_bytes(hasher)),
        digest@.len() == DIGEST_BYTES,
{
    sha2::Digest::finalize(hasher.inner).to_vec()
}

/// The lowercase hexadecimal digit for a value below 16.
pub open spec fn hex_digit(value: int) -> char {
    if value < 10 {
        (0x30 + value) as char
    } else {
        (0x61 + value - 10) as char
    }
}

/// The lowercase hexadecimal text of some bytes: two digits for each, the upper half first.
pub open spec fn lower_hex(bytes: Seq<u8>) -> Seq<char> {
    Seq::new(
        2 * bytes.len(),
        |i: int|
            if i % 2 == 0 {
                hex_digit(bytes[i / 2] as int / 16)
            } else {
                hex_digit(bytes[i / 2] as int % 16)
            },
    )
}

/// The text of a hexadecimal digit.
fn hex_digit_text(value: u8) -> (text: &'static str)
    requires
        value < 16,
    ensures
        text@ == seq![hex_digit(value as int)],
{
    proof {
        reveal_strlit("0");
        reveal_strlit("1");
        reveal_strlit("2");
        reveal_strlit("3");
        reveal_strlit("4");
        reveal_strlit("5");
        reveal_strlit("6");
        reveal_strlit("7");
        reveal_strlit("8");
        reveal_strlit("9");
        reveal_strlit("a");
        reveal_strlit("b");
        reveal_strlit("c");
        reveal_strlit("d");
        reveal_strlit("e");
        reveal_strlit("f");
    }
    let text = match value {
        0 => "0",
        1 => "1",
        2 => "2",
        3 => "3",
        4 => "4",
        5 => "5",
        6 => "6",
        7 => "7",
        8 => "8",
        9 => "9",
        10 => "a",
        11 => "b",
        12 => "c",
        13 => "d",
        14 => "e",
        _ => "f",
    };
    assert(text@ =~= seq![hex_digit(value as int)]);
    text
}

/// Writes bytes as lowercase hexadecimal text.
pub fn to_lower_hex(bytes: &[u8]) -> (text: String)
    ensures
        text@ == lower_hex(bytes@),
{
    let mut text = String::new();
    let mut i: usize = 0;
    assert(text@ =~= lower_hex(bytes@.take(0)));
    while i < bytes.len()
        invariant
            i <= bytes.len(),
            text@ == lower_hex(bytes@.take(i as int)),
        decreases bytes.len() - i,
    {
        let byte = bytes[i];
        text.append(hex_digit_text(byte / 16));
        text.append(hex_digit_text(byte % 16));
        proof {
            let (now, next) = (bytes@.take(i as int), bytes@.take(i + 1));
            assert(next =~= now.push(byte));
            assert forall|k: int| 0 <= k < 2 * now.len() implies lower_hex(next)[k] == lower_hex(
                now,
            )[k] by {
                assert(next[k / 2] == now[k / 2]);
            }
            assert(text@ =~= lower_hex(next));
        }
        i = i + 1;
    }
    assert(bytes@.take(bytes@.len() as int) =~= bytes@);
    text
}

/// Different bytes have different texts.
pub proof fn law_lower_hex_is_injective(left: Seq<u8>, right: Seq<u8>)
    requires
        lower_hex(left) == lower_hex(right),
    ensures
        left == right,
{
    assert(lower_hex(left).len() == 2 * left.len());
    assert(lower_hex(right).len() == 2 * right.len());
    assert forall|i: int| 0 <= i < left.len() implies left[i] == right[i] by {
        assert(lower_hex(left)[2 * i] == hex_digit(left[i] as int / 16));
        assert(lower_hex(right)[2 * i] == hex_digit(right[i] as int / 16));
        assert(lower_hex(left)[2 * i + 1] == hex_digit(left[i] as int % 16));
        assert(lower_hex(right)[2 * i + 1] == hex_digit(right[i] as int % 16));
        lemma_hex_digit_is_injective(left[i] as int / 16, right[i] as int / 16);
        lemma_hex_digit_is_injective(left[i] as int % 16, right[i] as int % 16);
    }
    assert(left =~= right);
}

/// Different values have different digits.
proof fn lemma_hex_digit_is_injective(left: int, right: int)
    requires
        0 <= left < 16,
        0 <= right < 16,
        hex_digit(left) == hex_digit(right),
    ensures
        left == right,
{
    assert(hex_digit(left) as int == if left < 10 {
        0x30 + left
    } else {
        0x61 + left - 10
    });
    assert(hex_digit(right) as int == if right < 10 {
        0x30 + right
    } else {
        0x61 + right - 10
    });
}

/// What a hexadecimal digit is worth, if it is one: `0` to `9`, or `a` to `f`.
pub open spec fn digit_value(digit: char) -> Option<int> {
    if 48 <= digit as int <= 57 {
        Some(digit as int - 48)
    } else if 97 <= digit as int <= 102 {
        Some(digit as int - 87)
    } else {
        None
    }
}

/// The text of some bytes can be read back: there are two digits for every byte, each of
/// them lowercase, and the first is worth sixteen times the second.
pub proof fn law_lower_hex_reads_back(bytes: Seq<u8>)
    ensures
        lower_hex(bytes).len() == 2 * bytes.len(),
        forall|i: int|
            #![trigger bytes[i]]
            0 <= i < bytes.len() ==> {
                &&& digit_value(lower_hex(bytes)[2 * i]) matches Some(upper)
                &&& digit_value(lower_hex(bytes)[2 * i + 1]) matches Some(lower)
                &&& upper * 16 + lower == bytes[i]
            },
{
    assert forall|i: int| #![trigger bytes[i]] 0 <= i < bytes.len() implies {
        &&& digit_value(lower_hex(bytes)[2 * i]) matches Some(upper)
        &&& digit_value(lower_hex(bytes)[2 * i + 1]) matches Some(lower)
        &&& upper * 16 + lower == bytes[i]
    } by {
        assert(lower_hex(bytes)[2 * i] == hex_digit(bytes[i] as int / 16));
        assert(lower_hex(bytes)[2 * i + 1] == hex_digit(bytes[i] as int % 16));
        lemma_digit_value(bytes[i] as int / 16);
        lemma_digit_value(bytes[i] as int % 16);
    }
}

/// A digit is worth the value that it stands for.
proof fn lemma_digit_value(value: int)
    requires
        0 <= value < 16,
    ensures
        digit_value(hex_digit(value)) == Some(value),
{
    assert(hex_digit(value) as int == if value < 10 {
        0x30 + value
    } else {
        0x61 + value - 10
    });
}

} // verus!
