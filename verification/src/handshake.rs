//! The one-shot canvas-size handshake.  The host writes `SIZE\n`, reads
//! until a newline (giving up past a length bound), and hands the
//! accumulated bytes here; the response parsing — strip newlines, split on
//! spaces, find the `SIZE` token, read the two numerals after it — is
//! decided and verified here.

use vstd::prelude::*;

verus! {

use crate::text::{parse_u16, spec_all_digits, spec_dec_val, spec_split, split_bytes};

/// The longest size response the client accepts, in bytes.
pub const MAX_SIZE_RESPONSE_LENGTH: usize = 32;

/// Why a size response was rejected.
#[derive(Debug, Copy, Clone, PartialEq, Eq, Structural)]
pub enum HandshakeError {
    /// No `SIZE` token followed by two fields.
    Invalid,
    /// A field after `SIZE` is not a `u16` numeral.
    BadNumber,
}

/// The query the client sends: `SIZE` and a newline.
pub fn size_query() -> (r: Vec<u8>)
    ensures
        r@ == seq![83u8, 73u8, 90u8, 69u8, 10u8],
{
    let mut v: Vec<u8> = Vec::new();
    v.push(83u8);
    v.push(73u8);
    v.push(90u8);
    v.push(69u8);
    v.push(10u8);
    assert(v@ =~= seq![83u8, 73u8, 90u8, 69u8, 10u8]);
    v
}

/// `s` with every newline byte removed.
pub open spec fn spec_strip_newlines(s: Seq<u8>) -> Seq<u8> {
    s.filter(|c: u8| c != 10)
}

/// The first position of the token `SIZE` among `parts`, if any.
pub open spec fn spec_find_size(parts: Seq<Seq<u8>>) -> Option<int> {
    if exists|i: int| 0 <= i < parts.len() && #[trigger] parts[i] == seq![83u8, 73u8, 90u8, 69u8] {
        Some(
            choose|i: int|
                {
                    &&& 0 <= i < parts.len()
                    &&& #[trigger] parts[i] == seq![83u8, 73u8, 90u8, 69u8]
                    &&& forall|j: int|
                        0 <= j < i ==> #[trigger] parts[j] != seq![83u8, 73u8, 90u8, 69u8]
                },
        )
    } else {
        None
    }
}

/// Whether `s` is a numeral that fits `u16`.
pub open spec fn spec_size_field(s: Seq<u8>) -> bool {
    s.len() > 0 && spec_all_digits(s) && spec_dec_val(s) <= u16::MAX
}

/// Parses an accumulated size response: newlines are dropped, the rest is
/// split on spaces, and the two fields after the first `SIZE` token are
/// the canvas width and height.
#[verifier::rlimit(80)]
pub fn parse_size_response(res: &[u8]) -> (r: Result<(u16, u16), HandshakeError>)
    ensures
        ({
            let parts = spec_split(spec_strip_newlines(res@), 32);
            match r {
                Ok((w, h)) => {
                    &&& spec_find_size(parts) matches Some(i)
                    &&& i + 2 < parts.len()
                    &&& spec_size_field(parts[i + 1])
                    &&& spec_size_field(parts[i + 2])
                    &&& w == spec_dec_val(parts[i + 1])
                    &&& h == spec_dec_val(parts[i + 2])
                },
                Err(HandshakeError::Invalid) => spec_find_size(parts) is None || (
                spec_find_size(parts) matches Some(i) && i + 2 >= parts.len()),
                Err(HandshakeError::BadNumber) => spec_find_size(parts) matches Some(i) && i + 2
                    < parts.len() && (!spec_size_field(parts[i + 1]) || !spec_size_field(
                    parts[i + 2],
                )),
            }
        }),
{
    let mut line: Vec<u8> = Vec::new();
    let mut k: usize = 0;
    while k < res.len()
        invariant
            0 <= k <= res@.len(),
            line@ =~= res@.take(k as int).filter(|c: u8| c != 10),
        decreases res@.len() - k,
    {
        let c = res[k];
        proof {
            reveal_with_fuel(Seq::<u8>::filter, 2);
            assert(res@.take(k + 1).drop_last() =~= res@.take(k as int));
            assert(res@.take(k + 1).last() == res@[k as int]);
        }
        if c != 10 {
            line.push(c);
        }
        assert(line@ =~= res@.take(k + 1).filter(|c: u8| c != 10));
        k += 1;
    }
    assert(res@.take(res@.len() as int) =~= res@);
    let parts = split_bytes(line.as_slice(), 32);
    let ghost sparts = spec_split(spec_strip_newlines(res@), 32);
    let token = size_token();
    let mut i: usize = 0;
    let n = parts.len();
    while i < n
        invariant
            0 <= i <= n,
            n == parts@.len(),
            sparts == spec_split(spec_strip_newlines(res@), 32),
            token@ == seq![83u8, 73u8, 90u8, 69u8],
            parts@.map_values(|p: Vec<u8>| p@) == sparts,
            forall|j: int| 0 <= j < i ==> #[trigger] sparts[j] != seq![83u8, 73u8, 90u8, 69u8],
        decreases n - i,
    {
        assert(sparts[i as int] == parts@[i as int]@);
        if crate::text::bytes_eq(parts[i].as_slice(), token.as_slice()) {
            proof {
                lemma_find_size_at(sparts, i as int);
                assert(sparts.len() == parts@.len());
            }
            if n - i < 3 {
                assert(spec_find_size(sparts) == Some(i as int));
                assert(i + 2 >= sparts.len());
                assert(sparts == spec_split(spec_strip_newlines(res@), 32));
                return Err(HandshakeError::Invalid);
            }
            assert(sparts[i + 1] == parts@[i + 1]@);
            assert(sparts[i + 2] == parts@[i + 2]@);
            let w = match parse_u16(parts[i + 1].as_slice()) {
                Some(w) => w,
                None => {
                    return Err(HandshakeError::BadNumber);
                },
            };
            let h = match parse_u16(parts[i + 2].as_slice()) {
                Some(h) => h,
                None => {
                    return Err(HandshakeError::BadNumber);
                },
            };
            assert(spec_find_size(sparts) == Some(i as int));
            assert(sparts == spec_split(spec_strip_newlines(res@), 32));
            assert(spec_size_field(sparts[i + 1]) && w as nat == spec_dec_val(sparts[i + 1]));
            assert(spec_size_field(sparts[i + 2]) && h as nat == spec_dec_val(sparts[i + 2]));
            return Ok((w, h));
        }
        i += 1;
    }
    proof {
        if exists|w: int|
            0 <= w < sparts.len() && #[trigger] sparts[w] == seq![83u8, 73u8, 90u8, 69u8] {
            let w = choose|w: int|
                0 <= w < sparts.len() && #[trigger] sparts[w] == seq![83u8, 73u8, 90u8, 69u8];
            assert(sparts[w] != seq![83u8, 73u8, 90u8, 69u8]);
            assert(false);
        }
        assert(spec_find_size(sparts) is None);
    }
    Err(HandshakeError::Invalid)
}

/// If `i` is the first position holding the `SIZE` token, the search
/// finds exactly `i`.
proof fn lemma_find_size_at(parts: Seq<Seq<u8>>, i: int)
    requires
        0 <= i < parts.len(),
        parts[i] == seq![83u8, 73u8, 90u8, 69u8],
        forall|j: int| 0 <= j < i ==> parts[j] != seq![83u8, 73u8, 90u8, 69u8],
    ensures
        spec_find_size(parts) == Some(i),
{
    assert(exists|w: int|
        0 <= w < parts.len() && #[trigger] parts[w] == seq![83u8, 73u8, 90u8, 69u8]);
    assert(0 <= i < parts.len() && parts[i] == seq![83u8, 73u8, 90u8, 69u8] && (forall|j: int|
        0 <= j < i ==> parts[j] != seq![83u8, 73u8, 90u8, 69u8]));
    let c = choose|w: int|
        {
            &&& 0 <= w < parts.len()
            &&& #[trigger] parts[w] == seq![83u8, 73u8, 90u8, 69u8]
            &&& forall|j: int| 0 <= j < w ==> #[trigger] parts[j] != seq![83u8, 73u8, 90u8, 69u8]
        };
    if c < i {
        assert(parts[c] != seq![83u8, 73u8, 90u8, 69u8]);
        assert(false);
    }
    if c > i {
        assert(parts[i] != seq![83u8, 73u8, 90u8, 69u8]);
        assert(false);
    }
}

/// The `SIZE` token.
fn size_token() -> (r: Vec<u8>)
    ensures
        r@ == seq![83u8, 73u8, 90u8, 69u8],
{
    let mut v: Vec<u8> = Vec::new();
    v.push(83u8);
    v.push(73u8);
    v.push(90u8);
    v.push(69u8);
    assert(v@ =~= seq![83u8, 73u8, 90u8, 69u8]);
    v
}

} // verus!
