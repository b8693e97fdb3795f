//! The game version and the fingerprint of the configuration it runs with.
use sha2::{Digest, Sha256};
use vstd::prelude::*;

verus! {

/// The game version and a fingerprint of its configuration.
#[derive(Debug)]
pub struct VersionInfo {
    /// Game version, a hyphen and the configuration hash (e.g. "0.0.1-a1b2c3d4").
    pub version: String,
    /// Base game version (e.g. "0.0.1").
    pub game_version: String,
    /// The first 8 lowercase hex digits of the SHA-256 of the configuration texts.
    pub config_hash: String,
}

/// The SHA-256 digest of a byte sequence.
pub uninterp spec fn sha256_digest(data: Seq<u8>) -> Seq<u8>;

/// `Sha256::digest` of sha2: the 32-byte SHA-256 digest of `data`. Its
/// value is named, not stated; that it has 32 bytes is the array's type.
#[verifier::external_body]
fn sha256(data: &[u8]) -> (r: [u8; 32])
    ensures
        r@ == sha256_digest(data@),
{
    Sha256::digest(data).into()
}

/// The configuration texts, one after another.
pub open spec fn concat_bytes(texts: Seq<Vec<u8>>) -> Seq<u8>
    decreases texts.len(),
{
    if texts.len() == 0 {
        Seq::empty()
    } else {
        concat_bytes(texts.drop_last()) + texts.last()@
    }
}

/// The lowercase hex digit of `n`.
pub open spec fn hex_char(n: int) -> char {
    if n < 10 {
        (('0' as int) + n) as char
    } else {
        (('a' as int) + n - 10) as char
    }
}

/// The lowercase hex digits of the first four bytes of `d`.
pub open spec fn hex8(d: Seq<u8>) -> Seq<char> {
    seq![
        hex_char(d[0] as int / 16), hex_char(d[0] as int % 16),
        hex_char(d[1] as int / 16), hex_char(d[1] as int % 16),
        hex_char(d[2] as int / 16), hex_char(d[2] as int % 16),
        hex_char(d[3] as int / 16), hex_char(d[3] as int % 16),
    ]
}

fn hex_digit(n: u8) -> (r: &'static str)
    requires
        n < 16,
    ensures
        r@ == seq![hex_char(n as int)],
{
    proof {
        reveal_strlit("0");
        reveal_strlit("1");
        reveal_strlit("2");
        reveal_strlit("3");
        reveal_strlit("4");
        reveal_strlit("5");
        reveal_strlit("6");
        reveal_strlit("7");
        reveal_strlit("8");
        reveal_strlit("9");
        reveal_strlit("a");
        reveal_strlit("b");
        reveal_strlit("c");
        reveal_strlit("d");
        reveal_strlit("e");
        reveal_strlit("f");
    }
    match n {
        0 => "0",
        1 => "1",
        2 => "2",
        3 => "3",
        4 => "4",
        5 => "5",
        6 => "6",
        7 => "7",
        8 => "8",
        9 => "9",
        10 => "a",
        11 => "b",
        12 => "c",
        13 => "d",
        14 => "e",
        _ => "f",
    }
}

/// The short configuration hash: the first 8 lowercase hex digits of the
/// SHA-256 of all configuration texts, one after another.
pub fn config_hash(texts: &Vec<Vec<u8>>) -> (r: String)
    ensures
        r@ == hex8(sha256_digest(concat_bytes(texts@))),
{
    let mut all: Vec<u8> = Vec::new();
    let mut i: usize = 0;
    while i < texts.len()
        invariant
            i <= texts@.len(),
            all@ == concat_bytes(texts@.take(i as int)),
        decreases texts@.len() - i,
    {
        proof {
            assert(texts@.take(i + 1).drop_last() =~= texts@.take(i as int));
        }
        let t = &texts[i];
        let mut j: usize = 0;
        let ghost before = all@;
        while j < t.len()
            invariant
                j <= t@.len(),
                all@ == before + t@.take(j as int),
            decreases t@.len() - j,
        {
            all.push(t[j]);
            proof {
                assert(t@.take(j + 1) =~= t@.take(j as int).push(t@[j as int]));
            }
            j += 1;
        }
        proof {
            assert(t@.take(t@.len() as int) =~= t@);
        }
        i += 1;
    }
    proof {
        assert(texts@.take(texts@.len() as int) =~= texts@);
    }
    let d = sha256(all.as_slice());
    let mut s = String::new();
    let mut k: usize = 0;
    while k < 4
        invariant
            k <= 4,
            d@ == sha256_digest(concat_bytes(texts@)),
            d@.len() == 32,
            s@ == hex8(d@).take(2 * k as int),
        decreases 4 - k,
    {
        let b = d[k];
        s = s.concat(hex_digit(b / 16));
        s = s.concat(hex_digit(b % 16));
        proof {
            assert(s@ =~= hex8(d@).take(2 * k + 2));
        }
        k += 1;
    }
    proof {
        assert(hex8(d@).take(8) =~= hex8(d@));
    }
    s
}

/// The base game version.
pub fn game_version() -> (r: String)
    ensures
        r@ == seq!['0', '.', '0', '.', '1'],
{
    proof {
        reveal_strlit("0.0.1");
    }
    String::from_str("0.0.1")
}

/// The version of this game running with these configuration texts.
pub fn version_info(texts: &Vec<Vec<u8>>) -> (r: VersionInfo)
    ensures
        r.game_version@ == seq!['0', '.', '0', '.', '1'],
        r.config_hash@ == hex8(sha256_digest(concat_bytes(texts@))),
        r.version@ == r.game_version@ + seq!['-'] + r.config_hash@,
{
    let game_version = game_version();
    let config_hash = config_hash(texts);
    proof {
        reveal_strlit("-");
    }
    let version = game_version.clone().concat("-").concat(config_hash.as_str());
    VersionInfo { version, game_version, config_hash }
}

} // verus!
