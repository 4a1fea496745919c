//! A reader of fixed-width unsigned integers from a base64 character stream.

use crate::base64::{decode, sextet, DecodeError};
use vstd::arithmetic::power2::{lemma_pow2_unfold, pow2};
use vstd::prelude::*;

verus! {

/// Bit `i` of the stream, counting from the most significant bit of the first character.
pub open spec fn bit_at(s: Seq<char>, i: int) -> bool {
    ((sextet(s[i / 6])->Some_0 >> ((5 - i % 6) as u8)) & 1u8) == 1u8
}

/// The unsigned integer formed by the `n` bits that start at bit `start`, most significant first.
pub open spec fn bits_value(s: Seq<char>, start: int, n: nat) -> nat
    decreases n,
{
    if n == 0 {
        0
    } else {
        2 * bits_value(s, start, (n - 1) as nat) + if bit_at(s, start + n - 1) {
            1nat
        } else {
            0nat
        }
    }
}

/// The number of characters that hold the bits before bit `end`.
pub open spec fn chars_needed(end: int) -> int {
    (end + 5) / 6
}

/// Whether some character among the first `k` is outside the alphabet.
pub open spec fn has_invalid(s: Seq<char>, k: int) -> bool {
    exists|i: int| 0 <= i < k && i < s.len() && (#[trigger] sextet(s[i])) is None
}

/// Why the bits before bit `end` cannot all be read, or `None` where they can.
pub open spec fn stream_error(s: Seq<char>, end: int) -> Option<DecodeError> {
    if has_invalid(s, chars_needed(end)) {
        Some(DecodeError::InvalidCharacter)
    } else if chars_needed(end) > s.len() {
        Some(DecodeError::TruncatedInput)
    } else {
        None
    }
}

/// What a read of `n` bits from bit `start` returns.
pub open spec fn read_spec(s: Seq<char>, start: int, n: nat) -> Result<u64, DecodeError> {
    match stream_error(s, start + n) {
        Some(e) => Err(e),
        None => Ok(bits_value(s, start, n) as u64),
    }
}

/// An `n`-bit read yields less than `2^n`.
pub proof fn lemma_bits_value_bound(s: Seq<char>, start: int, n: nat)
    ensures
        bits_value(s, start, n) < pow2(n),
    decreases n,
{
    if n == 0 {
        vstd::arithmetic::power2::lemma2_to64();
    } else {
        lemma_bits_value_bound(s, start, (n - 1) as nat);
        lemma_pow2_unfold(n);
    }
}

/// A read of `a + b` bits is the read of the first `a` bits followed by the read of the next `b`.
pub proof fn lemma_bits_value_split(s: Seq<char>, start: int, a: nat, b: nat)
    ensures
        bits_value(s, start, a + b) == bits_value(s, start, a) * pow2(b) + bits_value(
            s,
            start + a,
            b,
        ),
    decreases b,
{
    if b == 0 {
        vstd::arithmetic::power2::lemma2_to64();
    } else {
        lemma_bits_value_split(s, start, a, (b - 1) as nat);
        lemma_pow2_unfold(b);
        assert(bits_value(s, start, a + b) == 2 * bits_value(s, start, (a + b - 1) as nat) + (
        if bit_at(s, start + a + b - 1) {
            1nat
        } else {
            0nat
        }));
        assert(bits_value(s, start, a) * pow2(b) == 2 * (bits_value(s, start, a) * pow2(
            (b - 1) as nat,
        ))) by (nonlinear_arith)
            requires
                pow2(b) == 2 * pow2((b - 1) as nat),
        ;
    }
}

/// The sum of a sequence of read widths.
pub open spec fn total_width(ws: Seq<nat>) -> nat
    decreases ws.len(),
{
    if ws.len() == 0 {
        0
    } else {
        total_width(ws.drop_last()) + ws.last()
    }
}

/// The results of reads of widths `ws`, made one after another from bit `start`, joined with
/// the first read in the highest bits.
pub open spec fn joined_reads(s: Seq<char>, start: int, ws: Seq<nat>) -> nat
    decreases ws.len(),
{
    if ws.len() == 0 {
        0
    } else {
        joined_reads(s, start, ws.drop_last()) * pow2(ws.last()) + bits_value(
            s,
            start + total_width(ws.drop_last()),
            ws.last(),
        )
    }
}

/// Splitting a read into consecutive smaller reads and joining their results, high to low,
/// gives what the single read gives; in particular for a 64-bit read.
pub proof fn lemma_partitioned_reads(s: Seq<char>, start: int, ws: Seq<nat>)
    ensures
        joined_reads(s, start, ws) == bits_value(s, start, total_width(ws)),
    decreases ws.len(),
{
    if ws.len() == 0 {
    } else {
        lemma_partitioned_reads(s, start, ws.drop_last());
        lemma_bits_value_split(s, start, total_width(ws.drop_last()), ws.last());
    }
}

proof fn lemma_total_width_prefix(ws: Seq<nat>, j: int)
    requires
        0 < j <= ws.len(),
    ensures
        total_width(ws.take(j)) == total_width(ws.take(j - 1)) + ws[j - 1],
        total_width(ws.take(j)) <= total_width(ws),
    decreases ws.len() - j,
{
    assert(ws.take(j).drop_last() =~= ws.take(j - 1));
    if j < ws.len() {
        lemma_total_width_prefix(ws, j + 1);
    } else {
        assert(ws.take(j) =~= ws);
    }
}

/// Once a read up to some bit fails, every longer read fails the same way; once it succeeds,
/// every shorter read succeeds.
pub proof fn lemma_stream_error_monotone(s: Seq<char>, e1: int, e2: int)
    requires
        e1 <= e2,
    ensures
        stream_error(s, e1) is Some ==> stream_error(s, e2) == stream_error(s, e1),
        stream_error(s, e2) is None ==> stream_error(s, e1) is None,
{
    if has_invalid(s, chars_needed(e1)) {
        let i = choose|i: int|
            0 <= i < chars_needed(e1) && i < s.len() && (#[trigger] sextet(s[i])) is None;
        assert(0 <= i < chars_needed(e2) && i < s.len() && sextet(s[i]) is None);
    }
    if has_invalid(s, chars_needed(e2)) && chars_needed(e1) > s.len() {
        let i = choose|i: int|
            0 <= i < chars_needed(e2) && i < s.len() && (#[trigger] sextet(s[i])) is None;
        assert(0 <= i < chars_needed(e1) && i < s.len() && sextet(s[i]) is None);
    }
}

/// A reader of bits from a sequence of base64 characters.
///
/// Holds the characters, the index of the next one to decode, and the low `offset` bits of the
/// last decoded character that have not been handed out yet.
#[derive(Debug)]
pub struct BitDecoder {
    base: Vec<char>,
    pos: usize,
    offset: u8,
    leftover: u8,
}

impl BitDecoder {
    /// The characters being read.
    pub closed spec fn input(&self) -> Seq<char> {
        self.base@
    }

    /// The number of bits handed out so far.
    pub closed spec fn cursor(&self) -> int {
        6 * self.pos - self.offset
    }

    /// The reader's state agrees with its input.
    pub closed spec fn wf(&self) -> bool {
        &&& self.pos <= self.base@.len()
        &&& self.offset <= 6
        &&& forall|i: int| 0 <= i < self.pos ==> (#[trigger] sextet(self.base@[i])) is Some
        &&& self.offset > 0 ==> self.pos > 0 && sextet(self.base@[self.pos - 1]) == Some(
            self.leftover,
        )
        &&& self.offset == 0 ==> self.leftover == 0
    }

    /// A reader positioned at the first bit of `base`.
    pub fn new(base: Vec<char>) -> (r: Self)
        ensures
            r.wf(),
            r.input() == base@,
            r.cursor() == 0,
    {
        BitDecoder { base, pos: 0, offset: 0, leftover: 0 }
    }

    /// Reads the next `n` bits, most significant first.
    ///
    /// Fails with the first problem met among the characters that the read needs: a character
    /// outside the alphabet, or the end of the input.
    pub fn take(&mut self, n: u8) -> (r: Result<u64, DecodeError>)
        requires
            old(self).wf(),
            1 <= n <= 64,
        ensures
            final(self).wf(),
            final(self).input() == old(self).input(),
            r == read_spec(old(self).input(), old(self).cursor(), n as nat),
            r matches Ok(v) ==> v as nat == bits_value(old(self).input(), old(self).cursor(), n as nat)
                && (v as nat) < pow2(n as nat),
            r is Ok ==> final(self).cursor() == old(self).cursor() + n,
    {
        let ghost s = self.base@;
        let ghost c0 = self.cursor();
        let mut rv: u64 = 0;
        let mut done: u8 = 0;
        while done < n
            invariant
                self.wf(),
                self.base@ == s,
                s == old(self).input(),
                c0 == old(self).cursor(),
                0 <= done <= n <= 64,
                self.cursor() == c0 + done,
                rv as nat == bits_value(s, c0, done as nat),
                !has_invalid(s, self.pos as int),
                0 <= c0 <= 6 * s.len(),
            decreases n - done,
        {
            if self.offset == 0 {
                if self.pos >= self.base.len() {
                    proof {
                        assert(!has_invalid(s, chars_needed(c0 + n)));
                    }
                    return Err(DecodeError::TruncatedInput);
                }
                match decode(self.base[self.pos]) {
                    Some(v) => {
                        self.leftover = v;
                    },
                    None => {
                        proof {
                            assert(sextet(s[self.pos as int]) is None);
                            assert(has_invalid(s, chars_needed(c0 + n)));
                        }
                        return Err(DecodeError::InvalidCharacter);
                    },
                }
                self.pos = self.pos + 1;
                self.offset = 6;
                proof {
                    assert(!has_invalid(s, self.pos as int)) by {
                        if has_invalid(s, self.pos as int) {
                            let i = choose|i: int|
                                0 <= i < self.pos && i < s.len() && (#[trigger] sextet(
                                    s[i],
                                )) is None;
                            assert(i < self.pos - 1 || i == self.pos - 1);
                        }
                    }
                }
            }
            let lo: u8 = self.leftover;
            let sh: u8 = self.offset - 1;
            let b: u8 = (lo >> sh) & 1;
            proof {
                let cur = c0 + done;
                assert(cur / 6 == self.pos - 1);
                assert(5 - cur % 6 == self.offset - 1);
                assert(bit_at(s, cur) == (b == 1));
                lemma_bits_value_bound(s, c0, done as nat);
                lemma_pow2_unfold((done + 1) as nat);
                if done < 63 {
                    vstd::arithmetic::power2::lemma_pow2_strictly_increases(done as nat, 63);
                }
                vstd::arithmetic::power2::lemma2_to64_rest();
                assert(b <= 1) by (bit_vector)
                    requires
                        b == (lo >> sh) & 1,
                ;
            }
            rv = rv * 2 + b as u64;
            self.offset = self.offset - 1;
            if self.offset == 0 {
                self.leftover = 0;
            }
            done = done + 1;
        }
        proof {
            assert(!has_invalid(s, chars_needed(c0 + n)));
            lemma_bits_value_bound(s, c0, n as nat);
        }
        Ok(rv)
    }

    /// Reads consecutive fields of widths `widths`, in order, and joins their values with the
    /// first field in the highest bits. The result is what one read of the total width gives.
    pub fn take_fields(&mut self, widths: &Vec<u8>) -> (r: Result<u64, DecodeError>)
        requires
            old(self).wf(),
            forall|j: int| 0 <= j < widths.len() ==> 1 <= #[trigger] widths@[j] <= 64,
            1 <= total_width(widths@.map_values(|w: u8| w as nat)) <= 64,
        ensures
            final(self).wf(),
            final(self).input() == old(self).input(),
            r == read_spec(
                old(self).input(),
                old(self).cursor(),
                total_width(widths@.map_values(|w: u8| w as nat)),
            ),
            r is Ok ==> final(self).cursor() == old(self).cursor() + total_width(
                widths@.map_values(|w: u8| w as nat),
            ),
    {
        let ghost s = self.input();
        let ghost c0 = self.cursor();
        let ghost ws = widths@.map_values(|w: u8| w as nat);
        let ghost total = total_width(ws);
        let mut acc: u64 = 0;
        let mut j: usize = 0;
        proof {
            vstd::arithmetic::power2::lemma2_to64();
            vstd::arithmetic::power2::lemma2_to64_rest();
        }
        while j < widths.len()
            invariant
                self.wf(),
                self.input() == s,
                s == old(self).input(),
                c0 == old(self).cursor(),
                ws == widths@.map_values(|w: u8| w as nat),
                total == total_width(ws),
                1 <= total <= 64,
                forall|k: int| 0 <= k < widths.len() ==> 1 <= #[trigger] widths@[k] <= 64,
                j <= widths.len(),
                total_width(ws.take(j as int)) <= total,
                self.cursor() == c0 + total_width(ws.take(j as int)),
                acc as nat == joined_reads(s, c0, ws.take(j as int)),
                j > 0 ==> stream_error(s, self.cursor()) is None,
                pow2(64) == 0x1_0000_0000_0000_0000,
            decreases widths.len() - j,
        {
            let w = widths[j];
            let ghost before = ws.take(j as int);
            proof {
                assert(ws.take(j + 1).drop_last() =~= before);
                lemma_total_width_prefix(ws, j + 1);
            }
            let v = match self.take(w) {
                Ok(v) => v,
                Err(e) => {
                    proof {
                        lemma_stream_error_monotone(s, c0 + total_width(before) + w, c0 + total);
                    }
                    return Err(e);
                },
            };
            proof {
                lemma_partitioned_reads(s, c0, before);
                lemma_bits_value_bound(s, c0, total_width(before));
            }
            if w == 64 {
                proof {
                    assert(total_width(before) == 0);
                    assert(acc == 0);
                }
                acc = v;
            } else {
                let mut scale: u64 = 1;
                let mut k: u8 = 0;
                proof {
                    vstd::arithmetic::power2::lemma2_to64();
                }
                while k < w
                    invariant
                        k <= w < 64,
                        scale as nat == pow2(k as nat),
                        pow2(64) == 0x1_0000_0000_0000_0000,
                    decreases w - k,
                {
                    proof {
                        vstd::arithmetic::power2::lemma_pow2_unfold((k + 1) as nat);
                        vstd::arithmetic::power2::lemma_pow2_strictly_increases((k + 1) as nat, 64);
                    }
                    scale = scale * 2;
                    k = k + 1;
                }
                proof {
                    let a = total_width(before);
                    vstd::arithmetic::power2::lemma_pow2_adds(a, w as nat);
                    if a + w < 64 {
                        vstd::arithmetic::power2::lemma_pow2_strictly_increases(a + w as nat, 64);
                    }
                    assert(acc * scale + v < pow2(a + w as nat)) by (nonlinear_arith)
                        requires
                            acc < pow2(a),
                            v < scale,
                            scale == pow2(w as nat),
                            pow2(a + w as nat) == pow2(a) * pow2(w as nat),
                    ;
                }
                acc = acc * scale + v;
            }
            j = j + 1;
            proof {
                assert(ws.take(j as int).last() == w as nat);
            }
        }
        proof {
            assert(ws.take(j as int) =~= ws);
            lemma_partitioned_reads(s, c0, ws);
            lemma_bits_value_bound(s, c0, total);
        }
        Ok(acc)
    }

    /// Reads the next bit, as `take(1) == 1`.
    pub fn take_bool(&mut self) -> (r: Result<bool, DecodeError>)
        requires
            old(self).wf(),
        ensures
            final(self).wf(),
            final(self).input() == old(self).input(),
            r matches Ok(b) ==> b == bit_at(old(self).input(), old(self).cursor()),
            r == match read_spec(old(self).input(), old(self).cursor(), 1) {
                Ok(v) => Ok::<bool, DecodeError>(v == 1),
                Err(e) => Err(e),
            },
            r is Ok ==> final(self).cursor() == old(self).cursor() + 1,
    {
        let ghost s = self.input();
        let ghost c = self.cursor();
        match self.take(1) {
            Ok(v) => {
                proof {
                    assert(bits_value(s, c, 1) == 2 * bits_value(s, c, 0) + if bit_at(s, c) {
                        1nat
                    } else {
                        0nat
                    });
                }
                Ok(v == 1)
            },
            Err(e) => Err(e),
        }
    }
}

} // verus!
