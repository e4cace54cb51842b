use vstd::prelude::*;
use vstd::string::StringExecFns;

verus! {

/// The SHA-256 digest of a byte sequence, named but not defined here:
/// the computation is done by the sha2 crate.
pub uninterp spec fn sha256_of(data: Seq<u8>) -> Seq<u8>;

/// The RIPEMD-160 digest of a byte sequence, named but not defined here:
/// the computation is done by the ripemd crate.
pub uninterp spec fn ripemd160_of(data: Seq<u8>) -> Seq<u8>;

/// Relies on sha2::Sha256: a deterministic 32-byte digest of the input bytes.
#[verifier::external_body]
pub fn sha256(data: &[u8]) -> (r: Vec<u8>)
    ensures
        r@ == sha256_of(data@),
        r@.len() == 32,
{
    <sha2::Sha256 as sha2::Digest>::digest(data).to_vec()
}

/// Relies on ripemd::Ripemd160: a deterministic 20-byte digest of the input bytes.
#[verifier::external_body]
pub fn ripemd160(data: &[u8]) -> (r: Vec<u8>)
    ensures
        r@ == ripemd160_of(data@),
        r@.len() == 20,
{
    <ripemd::Ripemd160 as sha2::digest::Digest>::digest(data).to_vec()
}

/// The upper-case hex character for a value below 16.
pub open spec fn hex_digit(n: u8) -> char {
    if n == 0 {
        '0'
    } else if n == 1 {
        '1'
    } else if n == 2 {
        '2'
    } else if n == 3 {
        '3'
    } else if n == 4 {
        '4'
    } else if n == 5 {
        '5'
    } else if n == 6 {
        '6'
    } else if n == 7 {
        '7'
    } else if n == 8 {
        '8'
    } else if n == 9 {
        '9'
    } else if n == 10 {
        'A'
    } else if n == 11 {
        'B'
    } else if n == 12 {
        'C'
    } else if n == 13 {
        'D'
    } else if n == 14 {
        'E'
    } else {
        'F'
    }
}

/// The upper-case hex rendering of a byte sequence, two characters per byte.
pub open spec fn hex_of(bs: Seq<u8>) -> Seq<char>
    decreases bs.len(),
{
    if bs.len() == 0 {
        Seq::empty()
    } else {
        seq![hex_digit(bs.first() / 16), hex_digit(bs.first() % 16)] + hex_of(bs.drop_first())
    }
}

pub proof fn lemma_hex_of_len(bs: Seq<u8>)
    ensures
        hex_of(bs).len() == 2 * bs.len(),
    decreases bs.len(),
{
    if bs.len() > 0 {
        lemma_hex_of_len(bs.drop_first());
    }
}

/// The first four hex characters are all '0' exactly when the first two bytes are zero.
pub proof fn lemma_hex_zero_prefix(bs: Seq<u8>)
    requires
        bs.len() >= 2,
    ensures
        hex_of(bs).subrange(0, 4) == seq!['0', '0', '0', '0'] <==> bs[0] == 0 && bs[1] == 0,
{
    lemma_hex_of_len(bs);
    let h = hex_of(bs);
    let t = bs.drop_first();
    assert(h == seq![hex_digit(bs[0] / 16), hex_digit(bs[0] % 16)] + hex_of(t));
    assert(t.first() == bs[1]);
    assert(hex_of(t) == seq![hex_digit(bs[1] / 16), hex_digit(bs[1] % 16)] + hex_of(
        t.drop_first(),
    ));
    lemma_hex_of_len(t.drop_first());
    assert(h[0] == hex_digit(bs[0] / 16));
    assert(h[1] == hex_digit(bs[0] % 16));
    assert(h[2] == hex_of(t)[0] && hex_of(t)[0] == hex_digit(bs[1] / 16));
    assert(h[3] == hex_of(t)[1] && hex_of(t)[1] == hex_digit(bs[1] % 16));
    if bs[0] == 0 && bs[1] == 0 {
        assert(h.subrange(0, 4) =~= seq!['0', '0', '0', '0']);
    }
    if h.subrange(0, 4) =~= seq!['0', '0', '0', '0'] {
        assert(h[0] == hex_digit(bs[0] / 16) && h[1] == hex_digit(bs[0] % 16) && h[2] == hex_digit(
            bs[1] / 16,
        ) && h[3] == hex_digit(bs[1] % 16));
        assert(hex_digit(bs[0] / 16) == '0' ==> bs[0] / 16 == 0);
        assert(hex_digit(bs[0] % 16) == '0' ==> bs[0] % 16 == 0);
        assert(hex_digit(bs[1] / 16) == '0' ==> bs[1] / 16 == 0);
        assert(hex_digit(bs[1] % 16) == '0' ==> bs[1] % 16 == 0);
    }
}

fn hex_digit_str(n: u8) -> (r: &'static str)
    requires
        n < 16,
    ensures
        r@ =~= seq![hex_digit(n)],
{
    proof {
        reveal_strlit("0");
        reveal_strlit("1");
        reveal_strlit("2");
        reveal_strlit("3");
        reveal_strlit("4");
        reveal_strlit("5");
        reveal_strlit("6");
        reveal_strlit("7");
        reveal_strlit("8");
        reveal_strlit("9");
        reveal_strlit("A");
        reveal_strlit("B");
        reveal_strlit("C");
        reveal_strlit("D");
        reveal_strlit("E");
        reveal_strlit("F");
    }
    if n == 0 {
        "0"
    } else if n == 1 {
        "1"
    } else if n == 2 {
        "2"
    } else if n == 3 {
        "3"
    } else if n == 4 {
        "4"
    } else if n == 5 {
        "5"
    } else if n == 6 {
        "6"
    } else if n == 7 {
        "7"
    } else if n == 8 {
        "8"
    } else if n == 9 {
        "9"
    } else if n == 10 {
        "A"
    } else if n == 11 {
        "B"
    } else if n == 12 {
        "C"
    } else if n == 13 {
        "D"
    } else if n == 14 {
        "E"
    } else {
        "F"
    }
}

/// Renders bytes as upper-case hex, two characters per byte.
pub fn to_hex(bytes: &[u8]) -> (r: String)
    ensures
        r@ == hex_of(bytes@),
{
    let mut out = String::new();
    let mut i: usize = 0;
    proof {
        assert(bytes@.skip(0) =~= bytes@);
        assert(Seq::<char>::empty() + hex_of(bytes@) =~= hex_of(bytes@));
    }
    while i < bytes.len()
        invariant
            i <= bytes@.len(),
            hex_of(bytes@) == out@ + hex_of(bytes@.skip(i as int)),
        decreases bytes@.len() - i,
    {
        let b = bytes[i];
        let hs = hex_digit_str(b / 16);
        let ls = hex_digit_str(b % 16);
        out.append(hs);
        out.append(ls);
        proof {
            let tail = bytes@.skip(i as int);
            assert(tail.first() == bytes@[i as int]);
            assert(tail.drop_first() =~= bytes@.skip(i as int + 1));
            assert(hex_of(tail) == seq![hex_digit(b / 16), hex_digit(b % 16)] + hex_of(
                bytes@.skip(i as int + 1),
            ));
            assert(hex_of(bytes@) =~= out@ + hex_of(bytes@.skip(i as int + 1)));
        }
        i = i + 1;
    }
    proof {
        assert(bytes@.skip(bytes@.len() as int) =~= Seq::<u8>::empty());
        assert(hex_of(bytes@) =~= out@);
    }
    out
}

/// The 20-byte spending lock derived from a raw public key:
/// SHA-256 followed by RIPEMD-160.
pub open spec fn pub_key_hash_of(pub_key: Seq<u8>) -> Seq<u8> {
    ripemd160_of(sha256_of(pub_key))
}

/// Replaces a raw public key by its 20-byte spending lock.
pub fn hash_pub_key(pub_key: &mut Vec<u8>)
    ensures
        final(pub_key)@ == pub_key_hash_of(old(pub_key)@),
        final(pub_key)@.len() == 20,
{
    let first = sha256(pub_key.as_slice());
    let second = ripemd160(first.as_slice());
    *pub_key = second;
}

} // verus!
