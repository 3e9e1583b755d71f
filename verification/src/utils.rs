use bitcoin_hashes::sha256;
use rand::Rng;
use std::time::{Duration, SystemTime, SystemTimeError};
use vstd::prelude::*;

verus! {

/// A point in time as the system clock tells it.
#[verifier::external_type_specification]
#[verifier::external_body]
pub struct ExSystemTime(SystemTime);

/// What `duration_since` fails with when the clock stands before the
/// point it is measured from.
#[verifier::external_type_specification]
#[verifier::external_body]
pub struct ExSystemTimeError(SystemTimeError);

/// `SystemTime::now` reads the system clock. Nothing is claimed of what it
/// reads.
pub assume_specification[ SystemTime::now ]() -> (now: SystemTime)
;

/// `SystemTime::duration_since` measures the time from `earlier` to `time`,
/// and fails where `earlier` is the later of the two. Nothing is claimed of
/// the measure.
pub assume_specification[ SystemTime::duration_since ](time: &SystemTime, earlier: SystemTime) -> (r:
    Result<Duration, SystemTimeError>)
;

/// `Duration::as_secs` gives the whole seconds of a duration. Nothing is
/// claimed of their number.
pub assume_specification[ Duration::as_secs ](duration: &Duration) -> (secs: u64)
;

/// `SystemTime::UNIX_EPOCH`, the start of 1970 in UTC.
#[verifier::external_body]
fn unix_epoch() -> (epoch: SystemTime) {
    SystemTime::UNIX_EPOCH
}

/// The seconds since the start of 1970, or zero where the clock stands
/// before that.
pub fn unix_time() -> (now: u64) {
    match SystemTime::now().duration_since(unix_epoch()) {
        Ok(elapsed) => elapsed.as_secs(),
        Err(_) => 0,
    }
}

/// The SHA-256 digest of `data`.
pub uninterp spec fn sha256_digest(data: Seq<u8>) -> Seq<u8>;

/// `bitcoin_hashes::sha256::Hash::hash` computes the SHA-256 digest of
/// `data`, which `to_byte_array` hands out as its 32 bytes.
#[verifier::external_body]
fn sha256_bytes(data: &Vec<u8>) -> (digest: Vec<u8>)
    ensures
        digest@ == sha256_digest(data@),
        digest.len() == 32,
{
    let digest = <sha256::Hash as bitcoin_hashes::Hash>::hash(data.as_slice());
    <sha256::Hash as bitcoin_hashes::Hash>::to_byte_array(digest).to_vec()
}

/// `rand::Rng::gen` on the thread's generator draws 32 bytes at random.
/// Nothing is claimed of the bytes but their number.
#[verifier::external_body]
fn random_seed() -> (seed: Vec<u8>)
    ensures
        seed.len() == 32,
{
    let bytes: [u8; 32] = rand::thread_rng().gen();
    bytes.to_vec()
}

/// The hex digit for a value below sixteen.
pub open spec fn hex_char(n: u8) -> char {
    match n {
        0 => '0',
        1 => '1',
        2 => '2',
        3 => '3',
        4 => '4',
        5 => '5',
        6 => '6',
        7 => '7',
        8 => '8',
        9 => '9',
        10 => 'a',
        11 => 'b',
        12 => 'c',
        13 => 'd',
        14 => 'e',
        _ => 'f',
    }
}

/// `bytes` in lower-case hex, two digits to the byte, first byte first.
pub open spec fn hex(bytes: Seq<u8>) -> Seq<char>
    decreases bytes.len(),
{
    if bytes.len() == 0 {
        Seq::empty()
    } else {
        hex(bytes.drop_last()).push(hex_char(bytes.last() / 16)).push(hex_char(bytes.last() % 16))
    }
}

/// The hex digit for `n`, as text.
fn hex_digit(n: u8) -> (digit: &'static str)
    requires
        n < 16,
    ensures
        digit@ == seq![hex_char(n)],
{
    proof {
        reveal_strlit("0");
        reveal_strlit("1");
        reveal_strlit("2");
        reveal_strlit("3");
        reveal_strlit("4");
        reveal_strlit("5");
        reveal_strlit("6");
        reveal_strlit("7");
        reveal_strlit("8");
        reveal_strlit("9");
        reveal_strlit("a");
        reveal_strlit("b");
        reveal_strlit("c");
        reveal_strlit("d");
        reveal_strlit("e");
        reveal_strlit("f");
    }
    let digit = match n {
        0 => "0",
        1 => "1",
        2 => "2",
        3 => "3",
        4 => "4",
        5 => "5",
        6 => "6",
        7 => "7",
        8 => "8",
        9 => "9",
        10 => "a",
        11 => "b",
        12 => "c",
        13 => "d",
        14 => "e",
        _ => "f",
    };
    assert(digit@ =~= seq![hex_char(n)]);
    digit
}

/// `bytes` in lower-case hex.
pub fn hex_encode(bytes: &Vec<u8>) -> (text: String)
    ensures
        text@ == hex(bytes@),
{
    let mut text = String::new();
    let mut i: usize = 0;
    while i < bytes.len()
        invariant
            i <= bytes.len(),
            text@ == hex(bytes@.take(i as int)),
        decreases bytes.len() - i,
    {
        let byte = bytes[i];
        text.append(hex_digit(byte / 16));
        text.append(hex_digit(byte % 16));
        proof {
            let front = bytes@.take(i as int);
            let more = bytes@.take(i + 1);
            assert(more.drop_last() =~= front);
            assert(more.last() == byte);
            assert(text@ =~= hex(front).push(hex_char(byte / 16)).push(hex_char(byte % 16)));
        }
        i += 1;
    }
    assert(bytes@.take(bytes.len() as int) =~= bytes@);
    text
}

/// The hash under which a quote is known to the client: the SHA-256
/// digest of `seed`, in hex.
pub fn quote_hash(seed: &Vec<u8>) -> (hash: String)
    ensures
        hash@ == hex(sha256_digest(seed@)),
        hash@.len() == 64,
{
    let digest = sha256_bytes(seed);
    proof {
        lemma_hex_len(digest@);
    }
    hex_encode(&digest)
}

/// A hash for a new quote, from 32 bytes drawn at random.
pub fn fresh_quote_hash() -> (hash: String)
    ensures
        exists|seed: Seq<u8>| seed.len() == 32 && hash@ == hex(#[trigger] sha256_digest(seed)),
        hash@.len() == 64,
{
    let seed = random_seed();
    quote_hash(&seed)
}

/// Hex text is twice as long as the bytes.
pub proof fn lemma_hex_len(bytes: Seq<u8>)
    ensures
        hex(bytes).len() == 2 * bytes.len(),
    decreases bytes.len(),
{
    if bytes.len() > 0 {
        lemma_hex_len(bytes.drop_last());
    }
}

} // verus!
