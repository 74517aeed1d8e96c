//! Digests by which a transfer is checked.

use sha2::Digest;

use vstd::prelude::*;

verus! {

/// The SHA-256 digest of some bytes.
pub uninterp spec fn sha256(data: Seq<u8>) -> Seq<u8>;

/// Calls `sha2::Sha256::digest`: 32 bytes that are a function of the data alone.
#[verifier::external_body]
fn sha256_digest(data: &[u8]) -> (r: Vec<u8>)
    ensures
        r@ == sha256(data@),
        r@.len() == 32,
{
    sha2::Sha256::digest(data).to_vec()
}

/// The lower-case hexadecimal digit for a value below sixteen.
pub open spec fn hex_lower_digit(d: nat) -> Seq<char> {
    if d < 10 {
        crate::text::digit_text(d)
    } else if d == 10 {
        "a"@
    } else if d == 11 {
        "b"@
    } else if d == 12 {
        "c"@
    } else if d == 13 {
        "d"@
    } else if d == 14 {
        "e"@
    } else {
        "f"@
    }
}

/// Bytes as lower-case hexadecimal digits, two per byte.
pub open spec fn hex_lower(bytes: Seq<u8>) -> Seq<char>
    decreases bytes.len(),
{
    if bytes.len() == 0 {
        Seq::empty()
    } else {
        hex_lower(bytes.drop_last()) + hex_lower_digit((bytes.last() / 16) as nat)
            + hex_lower_digit((bytes.last() % 16) as nat)
    }
}

fn hex_lower_str(d: u8) -> (r: &'static str)
    requires
        d < 16,
    ensures
        r@ == hex_lower_digit(d as nat),
{
    match d {
        0 => "0",
        1 => "1",
        2 => "2",
        3 => "3",
        4 => "4",
        5 => "5",
        6 => "6",
        7 => "7",
        8 => "8",
        9 => "9",
        10 => "a",
        11 => "b",
        12 => "c",
        13 => "d",
        14 => "e",
        _ => "f",
    }
}

/// Bytes as lower-case hexadecimal digits.
pub fn to_hex(bytes: &Vec<u8>) -> (r: String)
    ensures
        r@ == hex_lower(bytes@),
{
    let mut s: String = String::new();
    let mut i: usize = 0;
    assert(bytes@.take(0) =~= Seq::<u8>::empty());
    while i < bytes.len()
        invariant
            i <= bytes@.len(),
            s@ == hex_lower(bytes@.take(i as int)),
        decreases bytes@.len() - i,
    {
        proof {
            assert(bytes@.take(i + 1).drop_last() =~= bytes@.take(i as int));
            assert(bytes@.take(i + 1).last() == bytes@[i as int]);
        }
        s.append(hex_lower_str(bytes[i] / 16));
        s.append(hex_lower_str(bytes[i] % 16));
        i = i + 1;
    }
    assert(bytes@.take(i as int) =~= bytes@);
    s
}

/// The SHA-256 digest in hexadecimal digits.
pub fn sha256_hex(data: &[u8]) -> (r: String)
    ensures
        r@ == hex_lower(sha256(data@)),
{
    to_hex(&sha256_digest(data))
}

/// Whether what was received has the digest of what was sent.
pub fn digests_match(sent: &[u8], received: &[u8]) -> (r: bool)
    ensures
        r == (hex_lower(sha256(sent@)) == hex_lower(sha256(received@))),
        r == (sha256(sent@) == sha256(received@)),
        sent@ == received@ ==> r,
{
    proof {
        law_hex_tells_digests_apart(sha256(sent@), sha256(received@));
    }
    let a: String = sha256_hex(sent);
    let b: String = sha256_hex(received);
    a == b
}

/// The value of a lower-case hexadecimal digit.
pub open spec fn hex_lower_value(c: char) -> int {
    if '0' <= c <= '9' {
        c as int - '0' as int
    } else {
        c as int - 'a' as int + 10
    }
}

proof fn lemma_hex_lower_digit(d: nat)
    requires
        d < 16,
    ensures
        hex_lower_digit(d).len() == 1,
        '0' <= hex_lower_digit(d)[0] <= '9' || 'a' <= hex_lower_digit(d)[0] <= 'f',
        hex_lower_value(hex_lower_digit(d)[0]) == d,
{
    reveal_strlit("0");
    reveal_strlit("1");
    reveal_strlit("2");
    reveal_strlit("3");
    reveal_strlit("4");
    reveal_strlit("5");
    reveal_strlit("6");
    reveal_strlit("7");
    reveal_strlit("8");
    reveal_strlit("9");
    reveal_strlit("a");
    reveal_strlit("b");
    reveal_strlit("c");
    reveal_strlit("d");
    reveal_strlit("e");
    reveal_strlit("f");
}

/// Bytes are written in two lower-case hexadecimal digits each, in order, that stand for
/// them.
pub proof fn law_hex_stands_for_the_bytes(bytes: Seq<u8>, i: int)
    requires
        0 <= i < bytes.len(),
    ensures
        hex_lower(bytes).len() == 2 * bytes.len(),
        hex_lower_value(hex_lower(bytes)[2 * i]) * 16 + hex_lower_value(
            hex_lower(bytes)[2 * i + 1],
        ) == bytes[i],
        '0' <= hex_lower(bytes)[2 * i] <= '9' || 'a' <= hex_lower(bytes)[2 * i] <= 'f',
        '0' <= hex_lower(bytes)[2 * i + 1] <= '9' || 'a' <= hex_lower(bytes)[2 * i + 1] <= 'f',
    decreases bytes.len(),
{
    let front = bytes.drop_last();
    let b = bytes.last();
    lemma_hex_lower_digit((b / 16) as nat);
    lemma_hex_lower_digit((b % 16) as nat);
    if front.len() > 0 {
        let j = if i < front.len() { i } else { 0 };
        law_hex_stands_for_the_bytes(front, j);
    }
    assert(hex_lower(front).len() == 2 * front.len());
    if i < front.len() {
        assert(hex_lower(bytes)[2 * i] == hex_lower(front)[2 * i]);
        assert(hex_lower(bytes)[2 * i + 1] == hex_lower(front)[2 * i + 1]);
    }
}

/// Two digests are written alike exactly when they are the same: a transfer passes its
/// check exactly when both sides have the same digest.
pub proof fn law_hex_tells_digests_apart(a: Seq<u8>, b: Seq<u8>)
    ensures
        hex_lower(a) == hex_lower(b) <==> a == b,
{
    if hex_lower(a) == hex_lower(b) {
        if a.len() > 0 {
            law_hex_stands_for_the_bytes(a, 0);
        }
        if b.len() > 0 {
            law_hex_stands_for_the_bytes(b, 0);
        }
        assert forall|i: int| 0 <= i < a.len() implies a[i] == b[i] by {
            law_hex_stands_for_the_bytes(a, i);
            law_hex_stands_for_the_bytes(b, i);
        }
        assert(a =~= b);
    }
}

} // verus!
