//! Random sources: their names and descriptions, the pseudo-random byte
//! source, and the reading of raw bytes as uniform 32-bit draws.
use vstd::arithmetic::div_mod::lemma_fundamental_div_mod;
use crate::text::same_text;
use vstd::prelude::*;

verus! {

/// Which service tier the ANU quantum source uses.
#[derive(Clone, Copy, Debug, PartialEq, Eq, Structural)]
pub enum AnuTier {
    /// The free endpoint, without an API key.
    Free,
    /// The paid endpoint, with an API key.
    Paid,
}

/// The ANU quantum random number service, with an optional API key.
#[derive(Clone, Debug)]
pub struct AnuBackend {
    pub api_key: Option<String>,
}

impl AnuBackend {
    /// A backend without an API key.
    pub fn new() -> (b: AnuBackend)
        ensures
            b.api_key is None,
    {
        AnuBackend { api_key: None }
    }

    /// A backend with the given API key.
    pub fn with_api_key(api_key: &str) -> (b: AnuBackend)
        ensures
            b.api_key matches Some(k) && k@ == api_key@,
    {
        AnuBackend { api_key: Some(String::from_str(api_key)) }
    }

    /// The paid tier where there is a non-empty key, the free tier otherwise.
    pub fn tier(&self) -> (t: AnuTier)
        ensures
            t == (if self.api_key matches Some(k) && k@.len() > 0 {
                AnuTier::Paid
            } else {
                AnuTier::Free
            }),
    {
        match &self.api_key {
            Some(key) => {
                if key.as_str().is_empty() {
                    AnuTier::Free
                } else {
                    AnuTier::Paid
                }
            },
            None => AnuTier::Free,
        }
    }

    /// The backend's name.
    pub fn name(&self) -> (s: &'static str)
        ensures
            s@ == "anu"@,
    {
        "anu"
    }

    /// A description for people.
    pub fn description(&self) -> (s: &'static str)
        ensures
            s@ == "Australian National University Quantum Random Number Generator"@,
    {
        "Australian National University Quantum Random Number Generator"
    }
}

/// Random bytes from the operating system's generator; for testing.
#[derive(Clone, Copy, Debug)]
pub struct PseudoBackend {}

/// Relies on rand's `OsRng` and `RngCore::try_fill_bytes`: `n` random bytes,
/// or none where the operating system's generator fails.
#[verifier::external_body]
fn random_bytes(n: usize) -> (v: Option<Vec<u8>>)
    ensures
        v matches Some(b) ==> b@.len() == n,
{
    let mut bytes = vec![0u8; n];
    match rand::RngCore::try_fill_bytes(&mut rand::rngs::OsRng, &mut bytes) {
        Ok(()) => Some(bytes),
        Err(_) => None,
    }
}

impl PseudoBackend {
    /// The pseudo-random source.
    pub fn new() -> (b: PseudoBackend) {
        PseudoBackend {  }
    }

    /// The backend's name.
    pub fn name(&self) -> (s: &'static str)
        ensures
            s@ == "pseudo"@,
    {
        "pseudo"
    }

    /// A description for people.
    pub fn description(&self) -> (s: &'static str)
        ensures
            s@ == "Pseudo-random number generator (for testing)"@,
    {
        "Pseudo-random number generator (for testing)"
    }

    /// `n` random bytes; a `Qrng` error where the generator fails.
    pub fn bytes(&self, n: usize) -> (r: Result<Vec<u8>, crate::error::Error>)
        ensures
            r matches Ok(v) ==> v@.len() == n,
            r matches Err(e) ==> e is Qrng,
    {
        match random_bytes(n) {
            Some(v) => Ok(v),
            None => Err(crate::error::Error::Qrng(String::from_str("the operating system's random source failed"))),
        }
    }
}

/// The big-endian value of four bytes.
pub open spec fn be_u32(b0: u8, b1: u8, b2: u8, b3: u8) -> int {
    b0 * 0x100_0000 + b1 * 0x1_0000 + b2 * 0x100 + b3
}

/// Reads consecutive groups of four bytes as big-endian 32-bit values; each,
/// divided by 2³², is a uniform draw in [0, 1). Trailing bytes that do not fill
/// a group are ignored.
pub fn draws_from_bytes(bytes: &[u8]) -> (v: Vec<u32>)
    ensures
        v@.len() == bytes@.len() / 4,
        forall|i: int|
            0 <= i < v@.len() ==> #[trigger] v@[i] == be_u32(
                bytes@[4 * i],
                bytes@[4 * i + 1],
                bytes@[4 * i + 2],
                bytes@[4 * i + 3],
            ),
{
    let len = bytes.len();
    let n = len / 4;
    let mut v: Vec<u32> = Vec::new();
    let mut i: usize = 0;
    while i < n
        invariant
            len == bytes@.len(),
            n == len / 4,
            0 <= i <= n,
            v@.len() == i,
            forall|j: int|
                0 <= j < i ==> #[trigger] v@[j] == be_u32(
                    bytes@[4 * j],
                    bytes@[4 * j + 1],
                    bytes@[4 * j + 2],
                    bytes@[4 * j + 3],
                ),
        decreases n - i,
    {
        proof {
            let l = len as int;
            lemma_fundamental_div_mod(l, 4);
            assert(0 <= l % 4 < 4);
            assert(4 * (i as int) + 3 < l) by (nonlinear_arith)
                requires
                    l == 4 * (l / 4) + l % 4,
                    l % 4 >= 0,
                    i < l / 4,
            ;
        }
        let o = 4 * i;
        let x = (bytes[o] as u32) * 0x100_0000 + (bytes[o + 1] as u32) * 0x1_0000 + (bytes[o + 2]
            as u32) * 0x100 + (bytes[o + 3] as u32);
        v.push(x);
        i = i + 1;
    }
    v
}

/// The little-endian value of the eight bytes of `b` from `o`.
pub open spec fn le_u64(b: Seq<u8>, o: int) -> int {
    b[o] + b[o + 1] * 0x100 + b[o + 2] * 0x1_0000 + b[o + 3] * 0x100_0000 + b[o + 4]
        * 0x1_0000_0000 + b[o + 5] * 0x100_0000_0000 + b[o + 6] * 0x1_0000_0000_0000 + b[o + 7]
        * 0x100_0000_0000_0000
}

/// Reads consecutive groups of eight bytes as little-endian 64-bit values;
/// the top 53 bits of each, divided by 2⁵³, give a draw in [0, 1). Trailing
/// bytes that do not fill a group are ignored.
pub fn words_from_le_bytes(bytes: &[u8]) -> (v: Vec<u64>)
    ensures
        v@.len() == bytes@.len() / 8,
        forall|i: int| 0 <= i < v@.len() ==> #[trigger] v@[i] == le_u64(bytes@, 8 * i),
{
    let len = bytes.len();
    let n = len / 8;
    let mut v: Vec<u64> = Vec::new();
    let mut i: usize = 0;
    while i < n
        invariant
            len == bytes@.len(),
            n == len / 8,
            0 <= i <= n,
            v@.len() == i,
            forall|j: int| 0 <= j < i ==> #[trigger] v@[j] == le_u64(bytes@, 8 * j),
        decreases n - i,
    {
        proof {
            let l = len as int;
            lemma_fundamental_div_mod(l, 8);
            assert(0 <= l % 8 < 8);
            assert(8 * (i as int) + 7 < l) by (nonlinear_arith)
                requires
                    l == 8 * (l / 8) + l % 8,
                    l % 8 >= 0,
                    i < l / 8,
            ;
        }
        let o = 8 * i;
        let x = (bytes[o] as u64) + (bytes[o + 1] as u64) * 0x100 + (bytes[o + 2] as u64) * 0x1_0000
            + (bytes[o + 3] as u64) * 0x100_0000 + (bytes[o + 4] as u64) * 0x1_0000_0000 + (bytes[o
            + 5] as u64) * 0x100_0000_0000 + (bytes[o + 6] as u64) * 0x1_0000_0000_0000 + (bytes[o
            + 7] as u64) * 0x100_0000_0000_0000;
        v.push(x);
        i = i + 1;
    }
    v
}

/// A random source's name and description.
#[derive(Clone, Debug)]
pub struct BackendInfo {
    pub name: String,
    pub description: String,
}

/// The random sources there are.
pub fn available_backends() -> (v: Vec<BackendInfo>)
    ensures
        v@.len() == 2,
        v@[0].name@ == "pseudo"@,
        v@[0].description@ == "Pseudo-random number generator (for testing)"@,
        v@[1].name@ == "anu"@,
        v@[1].description@ == "Australian National University Quantum Random Number Generator"@,
{
    let mut v: Vec<BackendInfo> = Vec::new();
    v.push(
        BackendInfo {
            name: String::from_str("pseudo"),
            description: String::from_str("Pseudo-random number generator (for testing)"),
        },
    );
    v.push(
        BackendInfo {
            name: String::from_str("anu"),
            description: String::from_str(
                "Australian National University Quantum Random Number Generator",
            ),
        },
    );
    v
}

/// A random source chosen by name.
#[derive(Clone, Debug)]
pub enum Backend {
    Pseudo(PseudoBackend),
    Anu(AnuBackend),
}

/// The source a name selects: `"anu"` gives the ANU service, with the key
/// where one is given; any other name gives the pseudo-random source.
pub open spec fn selects(name: Seq<char>, api_key: Option<Seq<char>>, b: Backend) -> bool {
    if name == "anu"@ {
        b matches Backend::Anu(a) && match api_key {
            Some(k) => a.api_key matches Some(s) && s@ == k,
            None => a.api_key is None,
        }
    } else {
        b is Pseudo
    }
}

/// The source named `name`; unknown names fall back to the pseudo-random one.
pub fn get_backend(name: &str) -> (b: Backend)
    ensures
        selects(name@, None, b),
{
    get_backend_with_key(name, None)
}

/// The source named `name`, with an API key for the ANU service where given.
pub fn get_backend_with_key(name: &str, api_key: Option<&str>) -> (b: Backend)
    ensures
        selects(
            name@,
            match api_key {
                Some(k) => Some(k@),
                None => None,
            },
            b,
        ),
{
    if same_text(name, "anu") {
        match api_key {
            Some(key) => Backend::Anu(AnuBackend::with_api_key(key)),
            None => Backend::Anu(AnuBackend::new()),
        }
    } else {
        Backend::Pseudo(PseudoBackend::new())
    }
}

/// Largest number of hex16 elements the ANU service returns per request.
pub const ANU_MAX_ARRAY_LENGTH: usize = 1024;

/// Bytes in one hex16 element of ten blocks of four hex digits.
pub const ANU_BYTES_PER_ELEMENT: usize = 20;

/// Bytes one request to the ANU service can return.
pub const ANU_BYTES_PER_REQUEST: usize = 20_480;

impl AnuBackend {
    /// Elements to ask for to get `count` bytes from one request: enough to
    /// cover them, at most the service's limit.
    pub fn element_count(count: usize) -> (n: usize)
        ensures
            n == if count / 20 + (if count % 20 == 0 { 0int } else { 1int }) <= 1024 {
                count / 20 + (if count % 20 == 0 { 0int } else { 1int })
            } else {
                1024
            },
    {
        let n = count / ANU_BYTES_PER_ELEMENT + if count % ANU_BYTES_PER_ELEMENT == 0 {
            0
        } else {
            1
        };
        if n <= ANU_MAX_ARRAY_LENGTH {
            n
        } else {
            ANU_MAX_ARRAY_LENGTH
        }
    }
}

/// The value of a hexadecimal digit of either case.
pub open spec fn hex_value(c: char) -> Option<u8> {
    if '0' <= c <= '9' {
        Some((c as u32 - '0' as u32) as u8)
    } else if 'a' <= c <= 'f' {
        Some((c as u32 - 'a' as u32 + 10) as u8)
    } else if 'A' <= c <= 'F' {
        Some((c as u32 - 'A' as u32 + 10) as u8)
    } else {
        None
    }
}

fn hex_digit(c: char) -> (v: Option<u8>)
    ensures
        v == hex_value(c),
{
    if '0' <= c && c <= '9' {
        Some((c as u32 - '0' as u32) as u8)
    } else if 'a' <= c && c <= 'f' {
        Some((c as u32 - 'a' as u32 + 10) as u8)
    } else if 'A' <= c && c <= 'F' {
        Some((c as u32 - 'A' as u32 + 10) as u8)
    } else {
        None
    }
}

/// Every character that forms a pair is a hex digit; a trailing odd one is
/// ignored.
pub open spec fn hex_pairs_valid(s: Seq<char>) -> bool {
    forall|p: int| 0 <= p < 2 * (s.len() / 2) ==> (#[trigger] hex_value(s[p])) is Some
}

/// The bytes that consecutive pairs of hex digits of `s` spell.
pub open spec fn hex_pairs(s: Seq<char>) -> Seq<u8> {
    Seq::new(
        s.len() / 2,
        |j: int| (hex_value(s[2 * j])->0 * 16 + hex_value(s[2 * j + 1])->0) as u8,
    )
}

/// The bytes spelled by all of `ss`, in order.
pub open spec fn hex_pairs_all(ss: Seq<Seq<char>>) -> Seq<u8>
    decreases ss.len(),
{
    if ss.len() == 0 {
        Seq::empty()
    } else {
        hex_pairs_all(ss.drop_last()) + hex_pairs(ss.last())
    }
}

/// Decodes the hex strings that the ANU service returns into bytes; fails if
/// any pair is not two hex digits.
pub fn decode_hex_data(data: &Vec<String>) -> (r: Result<Vec<u8>, crate::error::Error>)
    ensures
        r is Ok <==> forall|k: int| 0 <= k < data@.len() ==> hex_pairs_valid(#[trigger] data@[k]@),
        r matches Ok(v) ==> v@ == hex_pairs_all(data@.map_values(|s: String| s@)),
        r matches Err(e) ==> e is Qrng,
{
    let ghost views = data@.map_values(|s: String| s@);
    let mut out: Vec<u8> = Vec::new();
    let mut k: usize = 0;
    while k < data.len()
        invariant
            0 <= k <= data@.len(),
            views == data@.map_values(|s: String| s@),
            forall|q: int| 0 <= q < k ==> hex_pairs_valid(#[trigger] data@[q]@),
            out@ == hex_pairs_all(views.take(k as int)),
        decreases data.len() - k,
    {
        let s = data[k].as_str();
        let n = s.unicode_len();
        let pairs = n / 2;
        let ghost before = out@;
        let mut j: usize = 0;
        while j < pairs
            invariant
                n == s@.len(),
                k < data@.len(),
                s@ == data@[k as int]@,
                pairs == n / 2,
                0 <= j <= pairs,
                forall|p: int| 0 <= p < 2 * j ==> (#[trigger] hex_value(s@[p])) is Some,
                out@ == before + hex_pairs(s@).take(j as int),
            decreases pairs - j,
        {
            let hi = hex_digit(s.get_char(2 * j));
            let lo = hex_digit(s.get_char(2 * j + 1));
            match (hi, lo) {
                (Some(h), Some(l)) => {
                    out.push(h * 16 + l);
                    assert(hex_pairs(s@).take(j + 1) =~= hex_pairs(s@).take(j as int).push(
                        (h * 16 + l) as u8,
                    ));
                    assert forall|p: int| 0 <= p < 2 * (j + 1) implies (#[trigger] hex_value(
                        s@[p],
                    )) is Some by {
                        if p >= 2 * j {
                            assert(p == 2 * j || p == 2 * j + 1);
                        }
                    }
                },
                _ => {
                    proof {
                        let bad = if hi is None {
                            2 * j as int
                        } else {
                            2 * j + 1
                        };
                        assert(0 <= bad < 2 * (s@.len() / 2));
                        assert(hex_value(s@[bad]) is None);
                        assert(!hex_pairs_valid(data@[k as int]@));
                    }
                    return Err(crate::error::Error::Qrng(String::from_str("malformed hex in response")));
                },
            }
            j = j + 1;
        }
        assert(hex_pairs(s@).take(pairs as int) =~= hex_pairs(s@));
        assert(views.take(k + 1).drop_last() =~= views.take(k as int));
        k = k + 1;
    }
    assert(views.take(k as int) =~= views);
    Ok(out)
}

} // verus!
