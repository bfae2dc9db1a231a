//! Content digests of packaged archives, in lowercase hexadecimal.
use vstd::prelude::*;
use vstd::string::StringExecFns;
use crate::strmap::StrMap;
use sha2::Digest;

verus! {

/// The SHA-256 digest of `data`.
pub uninterp spec fn sha256_of(data: Seq<u8>) -> Seq<u8>;

/// Relies on sha2::Sha256::digest (through digest::Digest): the digest
/// depends on the bytes alone and is 32 bytes long.
#[verifier::external_body]
fn sha256(data: &Vec<u8>) -> (r: Vec<u8>)
    ensures
        r@ == sha256_of(data@),
        r@.len() == 32,
{
    sha2::Sha256::digest(data.as_slice()).to_vec()
}

/// The lowercase hexadecimal digit of `n` (below 16).
pub open spec fn hex_char(n: u8) -> char {
    if n == 0 { '0' } else if n == 1 { '1' } else if n == 2 { '2' } else if n == 3 { '3' }
    else if n == 4 { '4' } else if n == 5 { '5' } else if n == 6 { '6' } else if n == 7 { '7' }
    else if n == 8 { '8' } else if n == 9 { '9' } else if n == 10 { 'a' } else if n == 11 { 'b' }
    else if n == 12 { 'c' } else if n == 13 { 'd' } else if n == 14 { 'e' } else { 'f' }
}

/// Whether `c` is a lowercase hexadecimal digit.
pub open spec fn is_lower_hex_char(c: char) -> bool {
    ('0' <= c && c <= '9') || ('a' <= c && c <= 'f')
}

/// Two lowercase hexadecimal digits for each byte, high nibble first.
pub open spec fn hex_of(bytes: Seq<u8>) -> Seq<char>
    decreases bytes.len(),
{
    if bytes.len() == 0 {
        Seq::empty()
    } else {
        let b = bytes.last();
        hex_of(bytes.drop_last()).push(hex_char(b / 16)).push(hex_char(b % 16))
    }
}

/// The lowercase hex form of a digest: what a registry records as `shasum`.
pub open spec fn digest_hex(data: Seq<u8>) -> Seq<char> {
    hex_of(sha256_of(data))
}

fn hex_digit(n: u8) -> (r: &'static str)
    requires
        n < 16,
    ensures
        r@ == seq![hex_char(n)],
{
    if n == 0 {
        proof {
            reveal_strlit("0");
        }
        "0"
    } else if n == 1 {
        proof {
            reveal_strlit("1");
        }
        "1"
    } else if n == 2 {
        proof {
            reveal_strlit("2");
        }
        "2"
    } else if n == 3 {
        proof {
            reveal_strlit("3");
        }
        "3"
    } else if n == 4 {
        proof {
            reveal_strlit("4");
        }
        "4"
    } else if n == 5 {
        proof {
            reveal_strlit("5");
        }
        "5"
    } else if n == 6 {
        proof {
            reveal_strlit("6");
        }
        "6"
    } else if n == 7 {
        proof {
            reveal_strlit("7");
        }
        "7"
    } else if n == 8 {
        proof {
            reveal_strlit("8");
        }
        "8"
    } else if n == 9 {
        proof {
            reveal_strlit("9");
        }
        "9"
    } else if n == 10 {
        proof {
            reveal_strlit("a");
        }
        "a"
    } else if n == 11 {
        proof {
            reveal_strlit("b");
        }
        "b"
    } else if n == 12 {
        proof {
            reveal_strlit("c");
        }
        "c"
    } else if n == 13 {
        proof {
            reveal_strlit("d");
        }
        "d"
    } else if n == 14 {
        proof {
            reveal_strlit("e");
        }
        "e"
    } else {
        proof {
            reveal_strlit("f");
        }
        "f"
    }
}

/// The hex form has two characters per byte, all of them lowercase hex digits.
pub proof fn lemma_hex_of_shape(bytes: Seq<u8>)
    ensures
        hex_of(bytes).len() == 2 * bytes.len(),
        forall|i: int| 0 <= i < hex_of(bytes).len() ==> is_lower_hex_char(#[trigger] hex_of(bytes)[i]),
    decreases bytes.len(),
{
    if bytes.len() > 0 {
        lemma_hex_of_shape(bytes.drop_last());
        let b = bytes.last();
        assert(b / 16 < 16);
        assert(is_lower_hex_char(hex_char(b / 16)));
        assert(is_lower_hex_char(hex_char(b % 16)));
    }
}

/// Lowercase hexadecimal encoding of `bytes`.
pub fn hex_encode(bytes: &Vec<u8>) -> (r: String)
    ensures
        r@ == hex_of(bytes@),
{
    let mut r = String::new();
    let mut i: usize = 0;
    while i < bytes.len()
        invariant
            i <= bytes@.len(),
            r@ == hex_of(bytes@.subrange(0, i as int)),
        decreases bytes@.len() - i,
    {
        let b = bytes[i];
        let ghost before = r@;
        r.append(hex_digit(b / 16));
        r.append(hex_digit(b % 16));
        assert(r@ =~= before.push(hex_char(b / 16)).push(hex_char(b % 16)));
        assert(bytes@.subrange(0, i + 1).drop_last() =~= bytes@.subrange(0, i as int));
        i = i + 1;
    }
    assert(bytes@.subrange(0, bytes@.len() as int) =~= bytes@);
    r
}

/// The content digest of an archive: SHA-256 in lowercase hex, 64 characters.
pub fn content_digest(data: &Vec<u8>) -> (r: String)
    ensures
        r@ == digest_hex(data@),
        r@.len() == 64,
        forall|i: int| 0 <= i < r@.len() ==> is_lower_hex_char(#[trigger] r@[i]),
{
    let d = sha256(data);
    proof {
        lemma_hex_of_shape(d@);
    }
    hex_encode(&d)
}

/// The digest table of a batch of archives, each named and given with its
/// bytes, or `None` where it could not be read: a readable archive records
/// its digest under its name (a later one of the same name wins), an
/// unreadable one records nothing.
pub open spec fn digest_table_of(archives: Seq<(String, Option<Vec<u8>>)>) -> Map<Seq<char>, Seq<char>>
    decreases archives.len(),
{
    if archives.len() == 0 {
        Map::empty()
    } else {
        let t = digest_table_of(archives.drop_last());
        match archives.last().1 {
            Some(b) => t.insert(archives.last().0@, digest_hex(b@)),
            None => t,
        }
    }
}

/// Digests the archives of a batch; those that could not be read are left
/// out, and do not hold up the rest.
pub fn digest_table(archives: &Vec<(String, Option<Vec<u8>>)>) -> (r: StrMap)
    ensures
        r.wf(),
        r@ == digest_table_of(archives@),
{
    let mut r = StrMap::new();
    let mut i: usize = 0;
    while i < archives.len()
        invariant
            i <= archives@.len(),
            r.wf(),
            r@ == digest_table_of(archives@.subrange(0, i as int)),
        decreases archives@.len() - i,
    {
        assert(archives@.subrange(0, i + 1).drop_last() =~= archives@.subrange(0, i as int));
        match &archives[i].1 {
            Some(b) => {
                let d = content_digest(b);
                r.insert(archives[i].0.clone(), d);
            },
            None => {},
        }
        i = i + 1;
    }
    assert(archives@.subrange(0, archives@.len() as int) =~= archives@);
    r
}

/// In a batch of distinct names, the table holds exactly the readable
/// archives, each under its name with the digest of its bytes.
pub proof fn lemma_digest_table(archives: Seq<(String, Option<Vec<u8>>)>, i: int)
    requires
        forall|a: int, b: int| 0 <= a < b < archives.len() ==> archives[a].0@ != archives[b].0@,
        0 <= i < archives.len(),
    ensures
        digest_table_of(archives).contains_key(archives[i].0@) <==> archives[i].1 is Some,
        archives[i].1 is Some ==> digest_table_of(archives)[archives[i].0@] == digest_hex(
            archives[i].1->0@,
        ),
    decreases archives.len(),
{
    let t = archives.drop_last();
    if i < archives.len() - 1 {
        lemma_digest_table(t, i);
        assert(archives[i].0@ != archives[archives.len() - 1].0@);
    } else {
        lemma_digest_table_absent(t, archives[i].0@);
    }
}

/// A name that no archive of the batch carries has no digest.
pub proof fn lemma_digest_table_absent(archives: Seq<(String, Option<Vec<u8>>)>, name: Seq<char>)
    requires
        forall|a: int| 0 <= a < archives.len() ==> archives[a].0@ != name,
    ensures
        !digest_table_of(archives).contains_key(name),
    decreases archives.len(),
{
    if archives.len() > 0 {
        lemma_digest_table_absent(archives.drop_last(), name);
        assert(archives[archives.len() - 1].0@ != name);
    }
}

} // verus!
