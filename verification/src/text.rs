//! Byte-level text primitives: decimal and lowercase-hex rendering of
//! integers, decimal parsing, and splitting on a separator byte.  The wire
//! protocol is plain ASCII, so everything here works on byte sequences.

use vstd::prelude::*;

verus! {

/// The ASCII digit for `d % 10`.
pub open spec fn spec_dec_digit(d: nat) -> u8 {
    (48 + (d % 10)) as u8
}

/// The decimal rendering of `n`, most significant digit first, no sign and
/// no leading zeros (a single `0` for zero).
pub open spec fn spec_dec(n: nat) -> Seq<u8>
    decreases n,
{
    if n < 10 {
        seq![spec_dec_digit(n)]
    } else {
        spec_dec(n / 10).push(spec_dec_digit(n % 10))
    }
}

/// The lowercase ASCII hex digit for `d % 16`.
pub open spec fn spec_hex_digit(d: nat) -> u8 {
    if d % 16 < 10 {
        (48 + (d % 16)) as u8
    } else {
        (87 + (d % 16)) as u8
    }
}

/// Two lowercase hex digits rendering the byte `b`.
pub open spec fn spec_hex2(b: u8) -> Seq<u8> {
    seq![spec_hex_digit(b as nat / 16), spec_hex_digit(b as nat % 16)]
}

/// Appends the decimal rendering of `n` to `out`.
pub fn push_dec_u16(out: &mut Vec<u8>, n: u16)
    ensures
        final(out)@ == old(out)@ + spec_dec(n as nat),
    decreases n,
{
    if n >= 10 {
        push_dec_u16(out, n / 10);
        out.push(48 + (n % 10) as u8);
        assert(48 + (n % 10) as u8 == spec_dec_digit(n as nat));
        assert(out@ =~= old(out)@ + spec_dec(n as nat));
    } else {
        out.push(48 + (n % 10) as u8);
        assert(48 + (n % 10) as u8 == spec_dec_digit(n as nat));
        assert(out@ =~= old(out)@ + spec_dec(n as nat));
    }
}

/// Appends the two-hex-digit rendering of `b` to `out`.
pub fn push_hex2(out: &mut Vec<u8>, b: u8)
    ensures
        final(out)@ == old(out)@ + spec_hex2(b),
{
    let hi: u8 = b / 16;
    let lo: u8 = b % 16;
    out.push(if hi < 10 { 48 + hi } else { 87 + hi });
    out.push(if lo < 10 { 48 + lo } else { 87 + lo });
    assert(out@ =~= old(out)@ + spec_hex2(b));
}

/// The lowercase hex digit byte for a nibble.
pub fn hex_digit(d: u8) -> (r: u8)
    requires
        d < 16,
    ensures
        r == spec_hex_digit(d as nat),
{
    if d < 10 {
        48 + d
    } else {
        87 + d
    }
}

/// Whether `c` is an ASCII decimal digit.
pub open spec fn spec_is_digit(c: u8) -> bool {
    48 <= c <= 57
}

/// Whether every byte of `s` is an ASCII decimal digit.
pub open spec fn spec_all_digits(s: Seq<u8>) -> bool {
    forall|i: int| 0 <= i < s.len() ==> spec_is_digit(#[trigger] s[i])
}

/// The value of `s` read as a decimal numeral (0 for the empty sequence).
pub open spec fn spec_dec_val(s: Seq<u8>) -> nat
    decreases s.len(),
{
    if s.len() == 0 {
        0
    } else {
        (spec_dec_val(s.drop_last()) * 10 + (s.last() - 48)) as nat
    }
}

/// On an all-digit numeral, the value is at least any prefix's value.
pub proof fn lemma_dec_val_prefix(s: Seq<u8>, k: int)
    requires
        0 <= k <= s.len(),
        spec_all_digits(s),
    ensures
        spec_dec_val(s.take(k)) <= spec_dec_val(s),
    decreases s.len() - k,
{
    if k < s.len() {
        lemma_dec_val_prefix(s, k + 1);
        assert(s.take(k + 1).drop_last() =~= s.take(k));
        let v = spec_dec_val(s.take(k));
        let d = s.take(k + 1).last();
        assert(spec_is_digit(s[k]));
        assert(d == s[k]);
        assert(spec_dec_val(s.take(k + 1)) == (v * 10 + (d - 48)) as nat);
        assert(v * 10 + (d - 48) >= v) by (nonlinear_arith)
            requires
                48 <= d,
        ;
    } else {
        assert(s.take(k) =~= s);
    }
}

/// Parses `s` as a decimal `u16`.  Returns the value exactly when `s` is a
/// non-empty, all-digit numeral whose value fits in `u16`.
pub fn parse_u16(s: &[u8]) -> (r: Option<u16>)
    ensures
        r is Some <==> s@.len() > 0 && spec_all_digits(s@) && spec_dec_val(s@) <= u16::MAX,
        r matches Some(v) ==> v as nat == spec_dec_val(s@),
{
    if s.len() == 0 {
        return None;
    }
    let mut acc: u32 = 0;
    let mut i: usize = 0;
    while i < s.len()
        invariant
            0 <= i <= s@.len(),
            spec_all_digits(s@.take(i as int)),
            acc as nat == spec_dec_val(s@.take(i as int)),
            acc <= u16::MAX,
        decreases s@.len() - i,
    {
        let c = s[i];
        if c < 48 || c > 57 {
            return None;
        }
        acc = acc * 10 + (c - 48) as u32;
        assert(s@.take(i + 1).drop_last() =~= s@.take(i as int));
        assert(spec_all_digits(s@.take(i + 1)));
        assert(acc as nat == spec_dec_val(s@.take(i + 1)));
        if acc > u16::MAX as u32 {
            proof {
                if spec_all_digits(s@) {
                    lemma_dec_val_prefix(s@, i + 1);
                }
            }
            return None;
        }
        i += 1;
    }
    assert(s@.take(i as int) =~= s@);
    Some(acc as u16)
}

/// Rendering a value and reading it back returns the value, through digits
/// only.
pub proof fn lemma_dec_round_trip(n: nat)
    ensures
        spec_all_digits(spec_dec(n)),
        spec_dec_val(spec_dec(n)) == n,
        spec_dec(n).len() >= 1,
    decreases n,
{
    assert(n == (n / 10) * 10 + n % 10) by (nonlinear_arith);
    if n < 10 {
        let s = spec_dec(n);
        assert(s.len() == 1);
        assert(s.drop_last() =~= Seq::<u8>::empty());
        assert(spec_dec_val(s.drop_last()) == 0);
        assert(s.last() == spec_dec_digit(n));
        assert(spec_dec_digit(n) == 48 + n);
        assert(spec_dec_val(s) == (spec_dec_val(s.drop_last()) * 10 + (s.last() - 48)) as nat);
    } else {
        lemma_dec_round_trip(n / 10);
        let s = spec_dec(n);
        assert(s.drop_last() =~= spec_dec(n / 10));
        assert(s.last() == spec_dec_digit(n % 10));
        assert(spec_dec_val(s) == ((n / 10) * 10 + (spec_dec_digit(n % 10) - 48)) as nat);
    }
}

/// The value of a lowercase hex digit byte.
pub open spec fn spec_hex_digit_val(c: u8) -> nat {
    if 48 <= c <= 57 {
        (c - 48) as nat
    } else {
        (c - 87) as nat
    }
}

/// Whether `c` is a lowercase hex digit byte.
pub open spec fn spec_is_hex_digit(c: u8) -> bool {
    (48 <= c <= 57) || (97 <= c <= 102)
}

/// Hex digits render nibbles faithfully, and are never whitespace.
pub proof fn lemma_hex_digit_props(d: nat)
    ensures
        spec_is_hex_digit(spec_hex_digit(d)),
        spec_hex_digit_val(spec_hex_digit(d)) == d % 16,
        spec_hex_digit(d) != 32,
        spec_hex_digit(d) != 10,
{
}

/// The two hex digits of a byte read back as the byte.
pub proof fn lemma_hex2_val(b: u8)
    ensures
        spec_hex2(b).len() == 2,
        spec_is_hex_digit(spec_hex2(b)[0]),
        spec_is_hex_digit(spec_hex2(b)[1]),
        spec_hex2(b)[0] != 32 && spec_hex2(b)[0] != 10,
        spec_hex2(b)[1] != 32 && spec_hex2(b)[1] != 10,
        spec_hex_digit_val(spec_hex2(b)[0]) * 16 + spec_hex_digit_val(spec_hex2(b)[1]) == b,
{
    lemma_hex_digit_props(b as nat / 16);
    lemma_hex_digit_props(b as nat % 16);
    assert((b as nat / 16) % 16 == b as nat / 16) by (nonlinear_arith)
        requires
            b <= 255,
    ;
    assert((b as nat / 16) * 16 + b as nat % 16 == b) by (nonlinear_arith);
}

/// The parts of `s` split on every occurrence of `sep`: always at least one
/// part, the parts hold no `sep`, and joining them with `sep` gives back `s`.
pub open spec fn spec_split(s: Seq<u8>, sep: u8) -> Seq<Seq<u8>>
    decreases s.len(),
{
    if s.len() == 0 {
        seq![Seq::<u8>::empty()]
    } else if s[0] == sep {
        seq![Seq::<u8>::empty()] + spec_split(s.drop_first(), sep)
    } else {
        let rest = spec_split(s.drop_first(), sep);
        seq![seq![s[0]] + rest[0]] + rest.drop_first()
    }
}

/// `spec_split` yields at least one part.
pub proof fn lemma_split_len(s: Seq<u8>, sep: u8)
    ensures
        spec_split(s, sep).len() >= 1,
    decreases s.len(),
{
    if s.len() != 0 {
        lemma_split_len(s.drop_first(), sep);
    }
}

/// A separator-free sequence splits into itself alone.
pub proof fn lemma_split_no_sep(s: Seq<u8>, sep: u8)
    requires
        forall|i: int| 0 <= i < s.len() ==> s[i] != sep,
    ensures
        spec_split(s, sep) =~~= seq![s],
    decreases s.len(),
{
    if s.len() > 0 {
        lemma_split_no_sep(s.drop_first(), sep);
        assert(seq![s[0]] + s.drop_first() =~= s);
    }
}

/// A separator-free part followed by a separator splits off exactly.
pub proof fn lemma_split_prefix(p: Seq<u8>, rest: Seq<u8>, sep: u8)
    requires
        forall|i: int| 0 <= i < p.len() ==> p[i] != sep,
    ensures
        spec_split(p + seq![sep] + rest, sep) =~~= seq![p] + spec_split(rest, sep),
    decreases p.len(),
{
    lemma_split_len(rest, sep);
    if p.len() == 0 {
        let s = p + seq![sep] + rest;
        assert(s[0] == sep);
        assert(s.drop_first() =~= rest);
    } else {
        lemma_split_prefix(p.drop_first(), rest, sep);
        let s = p + seq![sep] + rest;
        assert(s[0] == p[0]);
        assert(s.drop_first() =~= p.drop_first() + seq![sep] + rest);
        lemma_split_len(p.drop_first() + seq![sep] + rest, sep);
        let inner = spec_split(s.drop_first(), sep);
        assert(inner =~~= seq![p.drop_first()] + spec_split(rest, sep));
        assert(inner[0] == p.drop_first());
        assert(seq![s[0]] + inner[0] =~= p);
        assert(spec_split(s, sep) =~~= seq![seq![s[0]] + inner[0]] + inner.drop_first());
        assert(inner.drop_first() =~~= spec_split(rest, sep));
    }
}

/// Prepending `prefix` to the first part of `parts`.
pub open spec fn spec_cons_first(prefix: Seq<u8>, parts: Seq<Seq<u8>>) -> Seq<Seq<u8>>
    recommends
        parts.len() >= 1,
{
    seq![prefix + parts[0]] + parts.drop_first()
}

/// Splits `s` on every occurrence of `sep`, as `spec_split` describes.
pub fn split_bytes(s: &[u8], sep: u8) -> (parts: Vec<Vec<u8>>)
    ensures
        parts@.map_values(|p: Vec<u8>| p@) == spec_split(s@, sep),
{
    let mut done: Vec<Vec<u8>> = Vec::new();
    let mut cur: Vec<u8> = Vec::new();
    let mut i: usize = 0;
    proof {
        lemma_split_len(s@, sep);
        assert(s@.skip(0) =~= s@);
        assert(done@.map_values(|p: Vec<u8>| p@) + spec_cons_first(cur@, spec_split(s@, sep))
            =~~= spec_split(s@, sep));
    }
    while i < s.len()
        invariant
            0 <= i <= s@.len(),
            spec_split(s@, sep) =~~= done@.map_values(|p: Vec<u8>| p@) + spec_cons_first(
                cur@,
                spec_split(s@.skip(i as int), sep),
            ),
        decreases s@.len() - i,
    {
        proof {
            lemma_split_len(s@.skip(i + 1), sep);
            assert(s@.skip(i as int).drop_first() =~= s@.skip(i + 1));
        }
        let ghost rest = spec_split(s@.skip(i + 1), sep);
        let ghost before = spec_split(s@.skip(i as int), sep);
        if s[i] == sep {
            assert(before =~~= seq![Seq::<u8>::empty()] + rest);
            done.push(cur);
            cur = Vec::new();
            assert(spec_cons_first(Seq::<u8>::empty(), rest) =~~= before.drop_first());
            assert(done@.map_values(|p: Vec<u8>| p@) + spec_cons_first(cur@, rest) =~~= spec_split(
                s@,
                sep,
            ));
        } else {
            assert(before =~~= spec_cons_first(seq![s@[i as int]], rest));
            let ghost cur0 = cur@;
            let c = s[i];
            cur.push(c);
            assert(cur0 + (seq![s@[i as int]] + rest[0]) =~= cur@ + rest[0]);
            assert(spec_cons_first(cur0, before) =~~= spec_cons_first(cur@, rest));
            assert(done@.map_values(|p: Vec<u8>| p@) + spec_cons_first(cur@, rest) =~~= spec_split(
                s@,
                sep,
            ));
        }
        i += 1;
    }
    assert(s@.skip(i as int) =~= Seq::<u8>::empty());
    assert(spec_cons_first(cur@, spec_split(Seq::<u8>::empty(), sep)) =~~= seq![cur@]);
    let ghost done0 = done@;
    done.push(cur);
    assert(done@.map_values(|p: Vec<u8>| p@) =~= done0.map_values(|p: Vec<u8>| p@).push(cur@));
    assert(done@.map_values(|p: Vec<u8>| p@) =~~= spec_split(s@, sep));
    done
}

/// Whether the byte sequences `a` and `b` are equal, decided by scanning.
pub fn bytes_eq(a: &[u8], b: &[u8]) -> (r: bool)
    ensures
        r <==> a@ == b@,
{
    if a.len() != b.len() {
        assert(a@ != b@) by {
            assert(a@.len() != b@.len());
        }
        return false;
    }
    let mut i: usize = 0;
    while i < a.len()
        invariant
            0 <= i <= a@.len(),
            a@.len() == b@.len(),
            forall|j: int| 0 <= j < i ==> a@[j] == b@[j],
        decreases a@.len() - i,
    {
        if a[i] != b[i] {
            return false;
        }
        i += 1;
    }
    proof {
        assert(a@ =~= b@);
    }
    true
}

} // verus!
