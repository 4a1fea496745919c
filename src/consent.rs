//! The decoded consent record and the decoder that builds it from a consent string.

use crate::base64::{sextet, DecodeError};
use crate::bits::{
    bit_at, bits_value, chars_needed, has_invalid, lemma_stream_error_monotone, stream_error,
    BitDecoder,
};
use vstd::prelude::*;

verus! {

/// An instant with a resolution of 100 ms, as deci-seconds since the Unix epoch (UTC).
#[derive(Debug, Clone, Copy, PartialEq, Eq, Structural)]
pub struct Timestamp {
    pub deciseconds: u64,
}

impl Timestamp {
    /// Whole seconds since the epoch.
    pub fn seconds(&self) -> (r: u64)
        ensures
            r == self.deciseconds / 10,
    {
        self.deciseconds / 10
    }

    /// The milliseconds past the whole second.
    pub fn subsec_millis(&self) -> (r: u32)
        ensures
            r == (self.deciseconds % 10) * 100,
    {
        ((self.deciseconds % 10) * 100) as u32
    }

    /// The nanoseconds past the whole second.
    pub fn subsec_nanos(&self) -> (r: u32)
        ensures
            r == (self.deciseconds % 10) * 100_000_000,
    {
        ((self.deciseconds % 10) * 100_000_000) as u32
    }
}

/// The five purposes that TCF v1 names.
#[derive(Debug, Clone, Copy, PartialEq, Eq, Structural)]
pub enum Purpose {
    /// Storage of information on, or access to information on, the user's device.
    StorageAndAccess,
    /// Personalisation of advertising from what is collected about the user.
    Personalization,
    /// Selection, delivery and reporting of advertisements.
    AdSelection,
    /// Selection, delivery and reporting of content.
    ContentDelivery,
    /// Measurement of how content is used.
    Measurement,
}

impl Purpose {
    /// The purpose's number, from 1 to 5.
    pub open spec fn spec_number(self) -> nat {
        match self {
            Purpose::StorageAndAccess => 1,
            Purpose::Personalization => 2,
            Purpose::AdSelection => 3,
            Purpose::ContentDelivery => 4,
            Purpose::Measurement => 5,
        }
    }

    /// The purpose's number, from 1 to 5.
    pub fn number(self) -> (r: u8)
        ensures
            r as nat == self.spec_number(),
    {
        match self {
            Purpose::StorageAndAccess => 1,
            Purpose::Personalization => 2,
            Purpose::AdSelection => 3,
            Purpose::ContentDelivery => 4,
            Purpose::Measurement => 5,
        }
    }

    /// The purpose with number `n`.
    pub fn from_number(n: u8) -> (r: Purpose)
        requires
            1 <= n <= 5,
        ensures
            r.spec_number() == n,
    {
        if n == 1 {
            Purpose::StorageAndAccess
        } else if n == 2 {
            Purpose::Personalization
        } else if n == 3 {
            Purpose::AdSelection
        } else if n == 4 {
            Purpose::ContentDelivery
        } else {
            Purpose::Measurement
        }
    }

    /// The purpose's flag in a purpose mask: bit `number - 1`.
    pub fn mask(self) -> (r: u32)
        ensures
            r == 1u32 << (self.spec_number() - 1) as u32,
    {
        1u32 << (self.number() - 1) as u32
    }
}

/// Whether bit `i` (counting from the least significant) of `m` is set.
pub open spec fn mask_bit(m: u32, i: nat) -> bool {
    i < 32 && ((m >> (i as u32)) & 1u32) == 1u32
}

/// A set of purposes, as a mask in which bit `i` stands for purpose `i + 1`.
#[derive(Debug, Clone, Copy, PartialEq, Eq, Structural)]
pub struct Purposes {
    pub mask: u32,
}

impl Purposes {
    /// The purpose numbers in the set.
    pub open spec fn view(self) -> Set<nat> {
        Set::new(|p: nat| 1 <= p <= 32 && mask_bit(self.mask, (p - 1) as nat))
    }

    /// The set whose mask is `raw`.
    pub open spec fn from_raw_spec(raw: u32) -> Purposes {
        Purposes { mask: raw }
    }

    /// The set whose mask is `raw`.
    pub fn from_raw(raw: u32) -> (r: Purposes)
        ensures
            r == Purposes::from_raw_spec(raw),
    {
        Purposes { mask: raw }
    }

    /// Whether the set holds purpose `p`.
    pub fn contains(&self, p: Purpose) -> (r: bool)
        ensures
            r == self@.contains(p.spec_number()),
    {
        let k: u8 = p.number() - 1;
        (self.mask >> k as u32) & 1 == 1
    }
}

/// Reads a 6-bit field.
pub fn take_6(it: &mut BitDecoder) -> (r: Result<u8, DecodeError>)
    requires
        old(it).wf(),
    ensures
        final(it).wf(),
        final(it).input() == old(it).input(),
        r matches Ok(v) ==> v as nat == bits_value(old(it).input(), old(it).cursor(), 6)
            && final(it).cursor() == old(it).cursor() + 6,
        r is Ok <==> stream_error(old(it).input(), old(it).cursor() + 6) is None,
        r matches Err(e) ==> stream_error(old(it).input(), old(it).cursor() + 6) == Some(e),
{
    match it.take(6) {
        Ok(v) => {
            proof {
                vstd::arithmetic::power2::lemma2_to64();
            }
            Ok(v as u8)
        },
        Err(e) => Err(e),
    }
}

/// Reads a 12-bit field.
pub fn take_12(it: &mut BitDecoder) -> (r: Result<u16, DecodeError>)
    requires
        old(it).wf(),
    ensures
        final(it).wf(),
        final(it).input() == old(it).input(),
        r matches Ok(v) ==> v as nat == bits_value(old(it).input(), old(it).cursor(), 12)
            && final(it).cursor() == old(it).cursor() + 12,
        r is Ok <==> stream_error(old(it).input(), old(it).cursor() + 12) is None,
        r matches Err(e) ==> stream_error(old(it).input(), old(it).cursor() + 12) == Some(e),
{
    match it.take(12) {
        Ok(v) => {
            proof {
                vstd::arithmetic::power2::lemma2_to64();
            }
            Ok(v as u16)
        },
        Err(e) => Err(e),
    }
}

/// Reads a 16-bit field.
pub fn take_16(it: &mut BitDecoder) -> (r: Result<u16, DecodeError>)
    requires
        old(it).wf(),
    ensures
        final(it).wf(),
        final(it).input() == old(it).input(),
        r matches Ok(v) ==> v as nat == bits_value(old(it).input(), old(it).cursor(), 16)
            && final(it).cursor() == old(it).cursor() + 16,
        r is Ok <==> stream_error(old(it).input(), old(it).cursor() + 16) is None,
        r matches Err(e) ==> stream_error(old(it).input(), old(it).cursor() + 16) == Some(e),
{
    match it.take(16) {
        Ok(v) => {
            proof {
                vstd::arithmetic::power2::lemma2_to64();
            }
            Ok(v as u16)
        },
        Err(e) => Err(e),
    }
}

/// Reads a 24-bit field, four characters' worth.
pub fn take_4(it: &mut BitDecoder) -> (r: Result<u32, DecodeError>)
    requires
        old(it).wf(),
    ensures
        final(it).wf(),
        final(it).input() == old(it).input(),
        r matches Ok(v) ==> v as nat == bits_value(old(it).input(), old(it).cursor(), 24)
            && final(it).cursor() == old(it).cursor() + 24,
        r is Ok <==> stream_error(old(it).input(), old(it).cursor() + 24) is None,
        r matches Err(e) ==> stream_error(old(it).input(), old(it).cursor() + 24) == Some(e),
{
    match it.take(24) {
        Ok(v) => {
            proof {
                vstd::arithmetic::power2::lemma2_to64();
            }
            Ok(v as u32)
        },
        Err(e) => Err(e),
    }
}

/// Reads a 36-bit field, such as a deci-second timestamp.
pub fn take_36(it: &mut BitDecoder) -> (r: Result<u64, DecodeError>)
    requires
        old(it).wf(),
    ensures
        final(it).wf(),
        final(it).input() == old(it).input(),
        r matches Ok(v) ==> v as nat == bits_value(old(it).input(), old(it).cursor(), 36)
            && final(it).cursor() == old(it).cursor() + 36,
        r is Ok <==> stream_error(old(it).input(), old(it).cursor() + 36) is None,
        r matches Err(e) ==> stream_error(old(it).input(), old(it).cursor() + 36) == Some(e),
{
    it.take(36)
}

/// The lower-case letter with index `v` (`a` for 0).
pub open spec fn letter(v: nat) -> char {
    ((97 + v) as u8) as char
}

/// The outcome of reading a language code at bit `c`: two 6-bit letter indices, each below 26.
pub open spec fn language_spec(s: Seq<char>, c: int) -> Result<Seq<char>, DecodeError> {
    if stream_error(s, c + 12) is Some {
        Err(stream_error(s, c + 12)->Some_0)
    } else if bits_value(s, c, 6) >= 26 || bits_value(s, c + 6, 6) >= 26 {
        Err(DecodeError::OutOfRange)
    } else {
        Ok(seq![letter(bits_value(s, c, 6)), letter(bits_value(s, c + 6, 6))])
    }
}

/// Reads a two-letter language code.
pub fn language_code(it: &mut BitDecoder) -> (r: Result<[char; 2], DecodeError>)
    requires
        old(it).wf(),
    ensures
        final(it).wf(),
        final(it).input() == old(it).input(),
        r is Ok ==> final(it).cursor() == old(it).cursor() + 12,
        match (r, language_spec(old(it).input(), old(it).cursor())) {
            (Ok(a), Ok(l)) => a@ == l,
            (Err(e), Err(f)) => e == f,
            _ => false,
        },
{
    let ghost s = it.input();
    let ghost c = it.cursor();
    let a = match take_6(it) {
        Ok(a) => a,
        Err(e) => {
            proof {
                lemma_stream_error_monotone(s, c + 6, c + 12);
            }
            return Err(e);
        },
    };
    let b = match take_6(it) {
        Ok(b) => b,
        Err(e) => return Err(e),
    };
    if a >= 26 || b >= 26 {
        return Err(DecodeError::OutOfRange);
    }
    let r = [(97 + a) as char, (97 + b) as char];
    proof {
        assert(r@ =~= seq![letter(a as nat), letter(b as nat)]);
    }
    Ok(r)
}

proof fn lemma_set_bit(m: u32, i: u32, j: u32)
    requires
        i < 32,
        j < 32,
    ensures
        (((m | (1u32 << i)) >> j) & 1u32) == 1u32 <==> (j == i || ((m >> j) & 1u32) == 1u32),
{
    assert((((m | (1u32 << i)) >> j) & 1u32) == 1u32 <==> (j == i || ((m >> j) & 1u32) == 1u32))
        by (bit_vector)
        requires
            i < 32,
            j < 32,
    ;
}

/// `m` holds the 24 purpose bits that start at bit `c`, the first of them as bit 0.
pub open spec fn purpose_mask_of(m: u32, s: Seq<char>, c: int) -> bool {
    &&& forall|i: nat| i < 24 ==> (#[trigger] mask_bit(m, i) <==> bit_at(s, c + i))
    &&& forall|i: nat| 24 <= i ==> !#[trigger] mask_bit(m, i)
}

/// Reads the 24-bit purpose field. The field lists purpose 1 first; in the result purpose
/// `i + 1` is bit `i`, so the field's bit order is reversed.
pub fn purpose(it: &mut BitDecoder) -> (r: Result<u32, DecodeError>)
    requires
        old(it).wf(),
    ensures
        final(it).wf(),
        final(it).input() == old(it).input(),
        r matches Ok(m) ==> purpose_mask_of(m, old(it).input(), old(it).cursor())
            && final(it).cursor() == old(it).cursor() + 24,
        r is Ok <==> stream_error(old(it).input(), old(it).cursor() + 24) is None,
        r matches Err(e) ==> stream_error(old(it).input(), old(it).cursor() + 24) == Some(e),
{
    let ghost s = it.input();
    let ghost c = it.cursor();
    let mut m: u32 = 0;
    let mut i: u32 = 0;
    assert forall|j: nat| 0 <= j implies !#[trigger] mask_bit(m, j) by {
        if j < 32 {
            let k = j as u32;
            assert((0u32 >> k) & 1u32 == 0u32) by (bit_vector);
        }
    }
    while i < 24
        invariant
            it.wf(),
            it.input() == s,
            s == old(it).input(),
            c == old(it).cursor(),
            i <= 24,
            it.cursor() == c + i,
            i > 0 ==> stream_error(s, c + i) is None,
            forall|j: nat| j < i ==> (#[trigger] mask_bit(m, j) <==> bit_at(s, c + j)),
            forall|j: nat| i <= j ==> !#[trigger] mask_bit(m, j),
        decreases 24 - i,
    {
        let b = match it.take_bool() {
            Ok(b) => b,
            Err(e) => {
                proof {
                    lemma_stream_error_monotone(s, c + i + 1, c + 24);
                }
                return Err(e);
            },
        };
        let ghost m0 = m;
        if b {
            m = m | (1u32 << i);
            proof {
                assert forall|j: nat| j < 32 implies (#[trigger] mask_bit(m, j) <==> (j == i
                    || mask_bit(m0, j))) by {
                    lemma_set_bit(m0, i, j as u32);
                }
            }
        }
        i = i + 1;
    }
    Ok(m)
}

/// A decoded consent string.
#[derive(Debug)]
pub struct ConsentString {
    pub version: u8,
    pub created: Timestamp,
    pub last_updated: Timestamp,
    pub cmp_id: u16,
    pub cmp_version: u16,
    pub consent_screen: u8,
    pub consent_language: [char; 2],
    pub vendor_list_version: u16,
    pub purposes_allowed: Purposes,
    pub max_vendor_id: u16,
    /// Consent by vendor, indexed by vendor ID; index 0 stands for no vendor.
    pub vendor_consents: Vec<bool>,
}

/// Why the header (the fields before the vendor section, up to bit 172) cannot be read, or
/// `None` where it can.
pub open spec fn header_error(s: Seq<char>) -> Option<DecodeError> {
    match language_spec(s, 108) {
        Err(e) => Some(e),
        Ok(_) => stream_error(s, 172),
    }
}

/// `v` with every index from `a` to `b` inclusive set to `x`, but for index 0, which stands
/// for no vendor.
pub open spec fn set_range(v: Seq<bool>, a: int, b: int, x: bool) -> Seq<bool> {
    Seq::new(v.len(), |i: int| if 1 <= i && a <= i <= b { x } else { v[i] })
}

/// What the range-mode entry at bit `c` does to the consents `v`: the bit after it and the
/// consents it leaves, the vendors it names being set to `!d`.
///
/// An entry is a flag bit, then one 16-bit vendor ID (flag 0) or an inclusive range of two
/// (flag 1). `v` has a slot for each vendor ID up to the largest, and slot 0, which stands for
/// no vendor and is left alone. A vendor ID past the last slot is out of range; a range whose
/// start lies past its end names no vendor.
pub open spec fn entry_step(s: Seq<char>, c: int, d: bool, v: Seq<bool>) -> Result<
    (int, Seq<bool>),
    DecodeError,
> {
    if stream_error(s, c + 1) is Some {
        Err(stream_error(s, c + 1)->Some_0)
    } else if bit_at(s, c) {
        if stream_error(s, c + 33) is Some {
            Err(stream_error(s, c + 33)->Some_0)
        } else {
            let a = bits_value(s, c + 1, 16);
            let b = bits_value(s, c + 17, 16);
            if a <= b && b >= v.len() {
                Err(DecodeError::OutOfRange)
            } else {
                Ok((c + 33, set_range(v, a as int, b as int, !d)))
            }
        }
    } else {
        if stream_error(s, c + 17) is Some {
            Err(stream_error(s, c + 17)->Some_0)
        } else {
            let a = bits_value(s, c + 1, 16);
            if a >= v.len() {
                Err(DecodeError::OutOfRange)
            } else {
                Ok((c + 17, if a == 0 { v } else { v.update(a as int, !d) }))
            }
        }
    }
}

/// The consents that `k` range-mode entries starting at bit `c` leave in `v`.
pub open spec fn apply_entries(s: Seq<char>, c: int, k: nat, d: bool, v: Seq<bool>) -> Result<
    Seq<bool>,
    DecodeError,
>
    decreases k,
{
    if k == 0 {
        Ok(v)
    } else {
        match entry_step(s, c, d, v) {
            Err(e) => Err(e),
            Ok((c2, v2)) => apply_entries(s, c2, (k - 1) as nat, d, v2),
        }
    }
}

/// The vendor consents that the vendor section at bit 172 gives for vendors 1 to `max`.
///
/// The result has a slot for each vendor ID from 1 to `max`, at that index, and slot 0, which
/// stands for no vendor and is always `false`. The section's first bit picks the encoding.
/// Bitfield mode (0): `max` bits, the `i`-th of them for vendor `i`. Range mode (1): a default
/// bit `d`, a 12-bit entry count, then the entries, over slots that start as `d`.
pub open spec fn vendor_section(s: Seq<char>, max: nat) -> Result<Seq<bool>, DecodeError> {
    if stream_error(s, 173) is Some {
        Err(stream_error(s, 173)->Some_0)
    } else if !bit_at(s, 172) {
        if stream_error(s, 173 + max as int) is Some {
            Err(stream_error(s, 173 + max as int)->Some_0)
        } else {
            Ok(Seq::new(max + 1, |i: int| i >= 1 && bit_at(s, 172 + i)))
        }
    } else {
        vendor_range_spec(s, max)
    }
}

/// The range-mode consents for vendors 1 to `max`: a default bit at 173, a 12-bit entry count,
/// then the entries, applied to slots that start as the default (slot 0 as `false`).
pub open spec fn vendor_range_spec(s: Seq<char>, max: nat) -> Result<Seq<bool>, DecodeError> {
    if stream_error(s, 186) is Some {
        Err(stream_error(s, 186)->Some_0)
    } else {
        apply_entries(
            s,
            186,
            bits_value(s, 174, 12),
            bit_at(s, 173),
            Seq::new(max + 1, |i: int| i >= 1 && bit_at(s, 173)),
        )
    }
}

/// Why `s` does not decode, or `None` where it does.
pub open spec fn decode_error(s: Seq<char>) -> Option<DecodeError> {
    match header_error(s) {
        Some(e) => Some(e),
        None => match vendor_section(s, bits_value(s, 156, 16)) {
            Err(e) => Some(e),
            Ok(_) => None,
        },
    }
}

/// `cs` holds the fields that `s` encodes.
pub open spec fn decoded_from(cs: ConsentString, s: Seq<char>) -> bool {
    &&& cs.version as nat == bits_value(s, 0, 6)
    &&& cs.created.deciseconds as nat == bits_value(s, 6, 36)
    &&& cs.last_updated.deciseconds as nat == bits_value(s, 42, 36)
    &&& cs.cmp_id as nat == bits_value(s, 78, 12)
    &&& cs.cmp_version as nat == bits_value(s, 90, 12)
    &&& cs.consent_screen as nat == bits_value(s, 102, 6)
    &&& language_spec(s, 108) == Ok::<Seq<char>, DecodeError>(cs.consent_language@)
    &&& cs.vendor_list_version as nat == bits_value(s, 120, 12)
    &&& purpose_mask_of(cs.purposes_allowed.mask, s, 132)
    &&& cs.max_vendor_id as nat == bits_value(s, 156, 16)
    &&& vendor_section(s, cs.max_vendor_id as nat) == Ok::<Seq<bool>, DecodeError>(
        cs.vendor_consents@,
    )
}

proof fn lemma_header_fails(s: Seq<char>, e: int)
    requires
        e <= 172,
        stream_error(s, e) is Some,
        e > 120 ==> language_spec(s, 108) is Ok,
    ensures
        header_error(s) == stream_error(s, e),
{
    lemma_stream_error_monotone(s, e, 172);
    if e <= 120 {
        lemma_stream_error_monotone(s, e, 120);
    }
}

/// The characters of `text`.
pub(crate) fn chars_of(text: &str) -> (r: Vec<char>)
    ensures
        r@ == text@,
{
    let mut v: Vec<char> = Vec::new();
    for c in it: text.chars()
        invariant
            v@ == it.seq().take(it.index() as int),
    {
        v.push(c);
    }
    v
}

/// Whether the range-mode entries (`k` of them, from bit `c`) name vendor `id`.
pub open spec fn entries_name(s: Seq<char>, c: int, k: nat, id: int) -> bool
    decreases k,
{
    if k == 0 {
        false
    } else if bit_at(s, c) {
        (bits_value(s, c + 1, 16) <= id <= bits_value(s, c + 17, 16)) || entries_name(
            s,
            c + 33,
            (k - 1) as nat,
            id,
        )
    } else {
        id == bits_value(s, c + 1, 16) || entries_name(s, c + 17, (k - 1) as nat, id)
    }
}

proof fn lemma_apply_entries(s: Seq<char>, c: int, k: nat, d: bool, v: Seq<bool>)
    requires
        apply_entries(s, c, k, d, v) is Ok,
    ensures
        apply_entries(s, c, k, d, v)->Ok_0.len() == v.len(),
        forall|i: int|
            0 <= i < v.len() ==> #[trigger] apply_entries(s, c, k, d, v)->Ok_0[i] == if i >= 1
                && entries_name(s, c, k, i) {
                !d
            } else {
                v[i]
            },
    decreases k,
{
    if k > 0 {
        let (c2, v2) = entry_step(s, c, d, v)->Ok_0;
        lemma_apply_entries(s, c2, (k - 1) as nat, d, v2);
    }
}

/// In range mode, a vendor has the opposite of the default consent exactly where some entry
/// names it, whatever the order or overlap of the entries.
pub proof fn lemma_range_mode_consents(s: Seq<char>, cs: ConsentString)
    requires
        decode_error(s) is None,
        decoded_from(cs, s),
        bit_at(s, 172),
    ensures
        forall|i: int|
            1 <= i <= cs.max_vendor_id ==> #[trigger] cs.vendor_consents@[i] == if entries_name(
                s,
                186,
                bits_value(s, 174, 12),
                i,
            ) {
                !bit_at(s, 173)
            } else {
                bit_at(s, 173)
            },
{
    lemma_apply_entries(
        s,
        186,
        bits_value(s, 174, 12),
        bit_at(s, 173),
        Seq::new(cs.max_vendor_id as nat + 1, |i: int| i >= 1 && bit_at(s, 173)),
    );
}

/// In bitfield mode, vendor `i` has the `i`-th bit of the section (counting from 1), and slot
/// 0 stands for no vendor.
pub proof fn lemma_bitfield_mode_consents(s: Seq<char>, cs: ConsentString)
    requires
        decode_error(s) is None,
        decoded_from(cs, s),
        !bit_at(s, 172),
    ensures
        cs.vendor_consents.len() == cs.max_vendor_id + 1,
        !cs.vendor_consents@[0],
        forall|i: int|
            1 <= i <= cs.max_vendor_id ==> #[trigger] cs.vendor_consents@[i] == bit_at(s, 172 + i),
{
}

/// An input of valid characters that ends before the header does fails as truncated, provided
/// the language letters are in range where the input holds them.
pub proof fn lemma_short_input_is_truncated(s: Seq<char>)
    requires
        forall|i: int| 0 <= i < s.len() ==> (#[trigger] sextet(s[i])) is Some,
        6 * s.len() < 172,
        6 * s.len() >= 120 ==> bits_value(s, 108, 6) < 26 && bits_value(s, 114, 6) < 26,
    ensures
        header_error(s) == Some(DecodeError::TruncatedInput),
        decode_error(s) == Some(DecodeError::TruncatedInput),
{
    assert(!has_invalid(s, chars_needed(120)));
    assert(!has_invalid(s, chars_needed(172)));
}

/// A purpose field with only the bit of purpose `p` set (the field's `p`-th bit, counting from
/// 1 at the first) decodes to the set `{p}`.
pub proof fn lemma_single_purpose(m: u32, s: Seq<char>, c: int, p: nat)
    requires
        purpose_mask_of(m, s, c),
        1 <= p <= 24,
        forall|j: nat| j < 24 ==> (#[trigger] bit_at(s, c + j) <==> j == p - 1),
    ensures
        Purposes::from_raw_spec(m)@ == set![p],
{
    assert forall|q: nat| Purposes::from_raw_spec(m)@.contains(q) <==> q == p by {
        if 1 <= q <= 32 {
            let j = (q - 1) as nat;
            if j < 24 {
                assert(mask_bit(m, j) <==> bit_at(s, c + j));
            } else {
                assert(!mask_bit(m, j));
            }
        }
    }
    assert(Purposes::from_raw_spec(m)@ =~= set![p]);
}

impl ConsentString {
    /// Decodes a consent string.
    ///
    /// Fails with the first problem that the reads meet, in field order: a character outside
    /// the alphabet, the end of the input, a language letter past `z`, or a range-mode vendor
    /// ID above `max_vendor_id`. Characters after the last field are not looked at.
    ///
    /// The vendor consents have a slot for each vendor ID from 1 to `max_vendor_id`, at that
    /// index, and slot 0, which stands for no vendor and is always `false`.
    pub fn parse(str: &str) -> (r: Result<ConsentString, DecodeError>)
        ensures
            r is Ok <==> decode_error(str@) is None,
            r matches Err(e) ==> decode_error(str@) == Some(e),
            r matches Ok(cs) ==> decoded_from(cs, str@),
            r matches Ok(cs) ==> cs.vendor_consents.len() == cs.max_vendor_id + 1,
            r matches Ok(cs) ==> !cs.vendor_consents@[0],
    {
        let ghost s = str@;
        let mut bd = BitDecoder::new(chars_of(str));
        let version = match take_6(&mut bd) {
            Ok(v) => v,
            Err(e) => {
                proof {
                    lemma_header_fails(s, 6);
                }
                return Err(e);
            },
        };
        let created = match take_36(&mut bd) {
            Ok(v) => v,
            Err(e) => {
                proof {
                    lemma_header_fails(s, 42);
                }
                return Err(e);
            },
        };
        let last_updated = match take_36(&mut bd) {
            Ok(v) => v,
            Err(e) => {
                proof {
                    lemma_header_fails(s, 78);
                }
                return Err(e);
            },
        };
        let cmp_id = match take_12(&mut bd) {
            Ok(v) => v,
            Err(e) => {
                proof {
                    lemma_header_fails(s, 90);
                }
                return Err(e);
            },
        };
        let cmp_version = match take_12(&mut bd) {
            Ok(v) => v,
            Err(e) => {
                proof {
                    lemma_header_fails(s, 102);
                }
                return Err(e);
            },
        };
        let consent_screen = match take_6(&mut bd) {
            Ok(v) => v,
            Err(e) => {
                proof {
                    lemma_header_fails(s, 108);
                }
                return Err(e);
            },
        };
        let consent_language = match language_code(&mut bd) {
            Ok(v) => v,
            Err(e) => return Err(e),
        };
        let vendor_list_version = match take_12(&mut bd) {
            Ok(v) => v,
            Err(e) => {
                proof {
                    lemma_header_fails(s, 132);
                }
                return Err(e);
            },
        };
        let purposes_allowed = match purpose(&mut bd) {
            Ok(v) => Purposes::from_raw(v),
            Err(e) => {
                proof {
                    lemma_header_fails(s, 156);
                }
                return Err(e);
            },
        };
        let max_vendor_id = match take_16(&mut bd) {
            Ok(v) => v,
            Err(e) => {
                proof {
                    lemma_header_fails(s, 172);
                }
                return Err(e);
            },
        };
        assert(header_error(s) is None);
        let vendor_consents = match vendor_consents(&mut bd, max_vendor_id) {
            Ok(v) => v,
            Err(e) => return Err(e),
        };
        Ok(ConsentString {
            version,
            created: Timestamp { deciseconds: created },
            last_updated: Timestamp { deciseconds: last_updated },
            cmp_id,
            cmp_version,
            consent_screen,
            consent_language,
            vendor_list_version,
            purposes_allowed,
            max_vendor_id,
            vendor_consents,
        })
    }
}

/// Reads one range-mode entry, setting the vendors it names to `!d`.
fn read_entry(bd: &mut BitDecoder, consents: &mut Vec<bool>, d: bool) -> (r: Result<
    (),
    DecodeError,
>)
    requires
        old(bd).wf(),
        old(consents).len() <= 65536,
    ensures
        final(bd).wf(),
        final(bd).input() == old(bd).input(),
        final(consents).len() == old(consents).len(),
        match (r, entry_step(old(bd).input(), old(bd).cursor(), d, old(consents)@)) {
            (Ok(_), Ok((c, v))) => final(bd).cursor() == c && final(consents)@ == v,
            (Err(e), Err(f)) => e == f,
            _ => false,
        },
{
    let ghost s = bd.input();
    let ghost c = bd.cursor();
    let ghost v0 = consents@;
    let is_range = match bd.take_bool() {
        Ok(b) => b,
        Err(e) => return Err(e),
    };
    if is_range {
        let start = match take_16(bd) {
            Ok(n) => n,
            Err(e) => {
                proof {
                    lemma_stream_error_monotone(s, c + 17, c + 33);
                }
                return Err(e);
            },
        };
        let end = match take_16(bd) {
            Ok(n) => n,
            Err(e) => return Err(e),
        };
        if start <= end {
            if end as usize >= consents.len() {
                return Err(DecodeError::OutOfRange);
            }
            let mut vendor_id: usize = if start == 0 {
                1
            } else {
                start as usize
            };
            while vendor_id <= end as usize
                invariant
                    start <= vendor_id <= end + 1,
                    1 <= vendor_id,
                    end < consents.len(),
                    consents.len() == v0.len(),
                    consents@ == set_range(v0, start as int, vendor_id - 1, !d),
                decreases end + 1 - vendor_id,
            {
                consents.set(vendor_id, !d);
                vendor_id = vendor_id + 1;
                proof {
                    assert(consents@ =~= set_range(v0, start as int, vendor_id - 1, !d));
                }
            }
        }
        proof {
            assert(consents@ =~= set_range(v0, start as int, end as int, !d));
        }
        Ok(())
    } else {
        let vendor_id = match take_16(bd) {
            Ok(n) => n,
            Err(e) => return Err(e),
        };
        if vendor_id as usize >= consents.len() {
            return Err(DecodeError::OutOfRange);
        }
        if vendor_id != 0 {
            consents.set(vendor_id as usize, !d);
        }
        Ok(())
    }
}

/// Reads `max` bitfield-mode consents, which start at bit 173, into slots 1 to `max`.
fn bitfield_consents(bd: &mut BitDecoder, max: u16) -> (r: Result<Vec<bool>, DecodeError>)
    requires
        old(bd).wf(),
        old(bd).cursor() == 173,
        stream_error(old(bd).input(), 173) is None,
    ensures
        r matches Ok(v) ==> stream_error(old(bd).input(), 173 + max as int) is None && v@ == Seq::new(
            max as nat + 1,
            |i: int| i >= 1 && bit_at(old(bd).input(), 172 + i),
        ),
        r matches Err(e) ==> stream_error(old(bd).input(), 173 + max as int) == Some(e),
{
    let ghost s = bd.input();
    let mut rv: Vec<bool> = Vec::with_capacity(max as usize + 1);
    rv.push(false);
    let mut i: u16 = 0;
    proof {
        assert(rv@ =~= Seq::new(1, |j: int| j >= 1 && bit_at(s, 172 + j)));
    }
    while i < max
        invariant
            bd.wf(),
            bd.input() == s,
            s == old(bd).input(),
            i <= max,
            bd.cursor() == 173 + i,
            i > 0 ==> stream_error(s, 173 + i) is None,
            rv@ == Seq::new(i as nat + 1, |j: int| j >= 1 && bit_at(s, 172 + j)),
        decreases max - i,
    {
        let b = match bd.take_bool() {
            Ok(b) => b,
            Err(e) => {
                proof {
                    lemma_stream_error_monotone(s, 173 + i + 1, 173 + max as int);
                }
                return Err(e);
            },
        };
        rv.push(b);
        i = i + 1;
        proof {
            assert(rv@ =~= Seq::new(i as nat + 1, |j: int| j >= 1 && bit_at(s, 172 + j)));
        }
    }
    proof {
        if max == 0 {
            assert(chars_needed(173) == 29);
            assert(chars_needed(173 + max as int) == 29);
        }
    }
    Ok(rv)
}

/// Reads range-mode consents for vendors 1 to `max`: the default bit at 173, the entry count,
/// then the entries.
fn range_consents(bd: &mut BitDecoder, max: u16) -> (r: Result<Vec<bool>, DecodeError>)
    requires
        old(bd).wf(),
        old(bd).cursor() == 173,
        stream_error(old(bd).input(), 173) is None,
    ensures
        match (r, vendor_range_spec(old(bd).input(), max as nat)) {
            (Ok(v), Ok(w)) => v@ == w,
            (Err(e), Err(f)) => e == f,
            _ => false,
        },
        r matches Ok(v) ==> v.len() == max + 1 && !v@[0],
{
    let ghost s = bd.input();
    let default_consent = match bd.take_bool() {
        Ok(b) => b,
        Err(e) => {
            proof {
                lemma_stream_error_monotone(s, 174, 186);
            }
            return Err(e);
        },
    };
    let num_entries = match take_12(bd) {
        Ok(n) => n,
        Err(e) => return Err(e),
    };
    let mut consents: Vec<bool> = Vec::with_capacity(max as usize + 1);
    consents.push(false);
    let mut i: u16 = 0;
    proof {
        assert(consents@ =~= Seq::new(1, |j: int| j >= 1 && default_consent));
    }
    while i < max
        invariant
            i <= max,
            consents@ == Seq::new(i as nat + 1, |j: int| j >= 1 && default_consent),
        decreases max - i,
    {
        consents.push(default_consent);
        i = i + 1;
        proof {
            assert(consents@ =~= Seq::new(i as nat + 1, |j: int| j >= 1 && default_consent));
        }
    }
    let mut k: u16 = 0;
    while k < num_entries
        invariant
            bd.wf(),
            bd.input() == s,
            s == old(bd).input(),
            k <= num_entries,
            consents.len() == max + 1,
            !consents@[0],
            vendor_range_spec(s, max as nat) == apply_entries(
                s,
                bd.cursor(),
                (num_entries - k) as nat,
                default_consent,
                consents@,
            ),
        decreases num_entries - k,
    {
        let ghost c = bd.cursor();
        let ghost v = consents@;
        match read_entry(bd, &mut consents, default_consent) {
            Ok(()) => {},
            Err(e) => {
                proof {
                    assert(entry_step(s, c, default_consent, v) == Err::<(int, Seq<bool>), DecodeError>(e));
                    assert(apply_entries(s, c, (num_entries - k) as nat, default_consent, v) == Err::<Seq<bool>, DecodeError>(e));
                }
                return Err(e);
            },
        }
        k = k + 1;
    }
    proof {
        lemma_apply_entries(s, bd.cursor(), 0, default_consent, consents@);
    }
    Ok(consents)
}

/// Reads the vendor section, which starts at the reader's position, for vendors 1 to `max`.
fn vendor_consents(bd: &mut BitDecoder, max: u16) -> (r: Result<Vec<bool>, DecodeError>)
    requires
        old(bd).wf(),
        old(bd).cursor() == 172,
    ensures
        match (r, vendor_section(old(bd).input(), max as nat)) {
            (Ok(v), Ok(w)) => v@ == w,
            (Err(e), Err(f)) => e == f,
            _ => false,
        },
        r matches Ok(v) ==> v.len() == max + 1 && !v@[0],
{
    let range = match bd.take_bool() {
        Ok(b) => b,
        Err(e) => return Err(e),
    };
    if !range {
        bitfield_consents(bd, max)
    } else {
        range_consents(bd, max)
    }
}

} // verus!