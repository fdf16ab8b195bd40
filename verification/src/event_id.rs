use crate::types::EventId;
use vstd::arithmetic::div_mod::{lemma_div_denominator, lemma_fundamental_div_mod};
use vstd::arithmetic::power::{lemma_pow_adds, lemma_pow_increases, lemma_pow_positive, pow};
use vstd::prelude::*;

verus! {

// ---------------------------------------------------------------------------
// The canonical text form of an identifier: 36 bytes, the 32 hexadecimal
// digits of the value from the most significant nibble down, with a hyphen
// after the 8th, 12th, 16th and 20th digit.  Parsing accepts either case of
// the hexadecimal letters; formatting emits lower case.
// ---------------------------------------------------------------------------
/// Whether `b` is an ASCII hexadecimal digit (either case).
pub open spec fn is_hex_digit(b: u8) -> bool {
    (48 <= b <= 57) || (97 <= b <= 102) || (65 <= b <= 70)
}

/// The value of the hexadecimal digit `b`.
pub open spec fn hex_val(b: u8) -> int {
    if 48 <= b <= 57 {
        b - 48
    } else if 97 <= b <= 102 {
        b - 87
    } else {
        b - 55
    }
}

/// The positions of the four hyphens within the 36-byte text form.
pub open spec fn is_dash_pos(p: int) -> bool {
    p == 8 || p == 13 || p == 18 || p == 23
}

/// How many of the first `p` bytes of the text form are hexadecimal digits.
pub open spec fn digits_before(p: int) -> int {
    if p <= 8 {
        p
    } else if p <= 13 {
        p - 1
    } else if p <= 18 {
        p - 2
    } else if p <= 23 {
        p - 3
    } else {
        p - 4
    }
}

/// Whether byte `p` of `s` is what the text form demands there.
pub open spec fn id_text_byte_ok(s: Seq<u8>, p: int) -> bool {
    if is_dash_pos(p) {
        s[p] == 45
    } else {
        is_hex_digit(s[p])
    }
}

/// Whether `s` is a well-formed hyphenated identifier text.
pub open spec fn id_text_valid(s: Seq<u8>) -> bool {
    s.len() == 36 && (forall|p: int| 0 <= p < 36 ==> #[trigger] id_text_byte_ok(s, p))
}

/// The value written in an identifier text: the hexadecimal digits read from
/// the left, hyphens passed over.
pub open spec fn text_value(s: Seq<u8>) -> int
    decreases s.len(),
{
    if s.len() == 0 {
        0
    } else {
        let r = text_value(s.drop_last());
        if s.last() == 45 {
            r
        } else {
            16 * r + hex_val(s.last())
        }
    }
}

/// Nibble `k` (counting from the most significant) of the 128-bit value `id`.
pub open spec fn nibble(id: u128, k: int) -> int {
    ((id as int) / pow(16, (31 - k) as nat)) % 16
}

/// The lower-case hexadecimal digit for the value `v`.
pub open spec fn hex_char_of(v: int) -> u8 {
    if v < 10 {
        (48 + v) as u8
    } else {
        (87 + v) as u8
    }
}

/// Byte `p` of the canonical text form of `id`.
pub open spec fn id_char(id: u128, p: int) -> u8 {
    if is_dash_pos(p) {
        45u8
    } else {
        hex_char_of(nibble(id, digits_before(p)))
    }
}

/// The canonical 36-byte text form of `id`.
pub open spec fn id_text(id: u128) -> Seq<u8> {
    Seq::new(36, |p: int| id_char(id, p))
}

// ---------------------------------------------------------------------------
// The byte form of an identifier: its sixteen bytes, most significant first.
// This is the form the relational backend persists.
// ---------------------------------------------------------------------------
/// Byte `k` (counting from the most significant) of the 128-bit value `id`.
pub open spec fn id_byte(id: u128, k: int) -> u8 {
    (((id as int) / pow(256, (15 - k) as nat)) % 256) as u8
}

/// The sixteen-byte form of `id`, most significant byte first.
pub open spec fn id_bytes(id: u128) -> Seq<u8> {
    Seq::new(16, |k: int| id_byte(id, k))
}

/// The value written in a big-endian byte string.
pub open spec fn bytes_value(s: Seq<u8>) -> int
    decreases s.len(),
{
    if s.len() == 0 {
        0
    } else {
        256 * bytes_value(s.drop_last()) + s.last()
    }
}

// ---------------------------------------------------------------------------
// Powers of 16 and 256 that the proofs lean on.
// ---------------------------------------------------------------------------
proof fn lemma_pow_constants()
    ensures
        pow(16, 31) == 0x10000000000000000000000000000000,
        pow(16, 32) == 0x100000000000000000000000000000000,
        pow(256, 15) == 0x1000000000000000000000000000000,
        pow(256, 16) == 0x100000000000000000000000000000000,
{
    reveal(pow);
    assert(pow(16, 0) == 1);
    assert(pow(16, 1) == 16);
    assert(pow(16, 2) == 256);
    lemma_pow_adds(16, 2, 2);
    assert(pow(16, 4) == 0x10000);
    lemma_pow_adds(16, 4, 4);
    assert(pow(16, 8) == 0x100000000);
    lemma_pow_adds(16, 8, 8);
    assert(pow(16, 16) == 0x10000000000000000);
    lemma_pow_adds(16, 16, 8);
    assert(pow(16, 24) == 0x1000000000000000000000000);
    lemma_pow_adds(16, 24, 4);
    assert(pow(16, 28) == 0x10000000000000000000000000000);
    lemma_pow_adds(16, 28, 2);
    assert(pow(16, 30) == 0x1000000000000000000000000000000);
    lemma_pow_adds(16, 30, 1);
    assert(pow(16, 31) == 0x10000000000000000000000000000000);
    lemma_pow_adds(16, 31, 1);
    assert(pow(16, 32) == 0x100000000000000000000000000000000);
    assert(pow(256, 0) == 1);
    assert(pow(256, 1) == 256);
    assert(pow(256, 2) == 0x10000);
    lemma_pow_adds(256, 2, 2);
    assert(pow(256, 4) == 0x100000000);
    lemma_pow_adds(256, 4, 4);
    assert(pow(256, 8) == 0x10000000000000000);
    lemma_pow_adds(256, 8, 4);
    assert(pow(256, 12) == 0x1000000000000000000000000);
    lemma_pow_adds(256, 12, 2);
    assert(pow(256, 14) == 0x10000000000000000000000000000);
    lemma_pow_adds(256, 14, 1);
    assert(pow(256, 15) == 0x1000000000000000000000000000000);
    lemma_pow_adds(256, 15, 1);
    assert(pow(256, 16) == 0x100000000000000000000000000000000);
}

/// One step of reading a value digit by digit: consuming the digit whose
/// weight is `pow(base, e)` turns `id / pow(base, e + 1)` into
/// `id / pow(base, e)`.
proof fn lemma_digit_step(id: int, base: int, e: nat)
    requires
        0 <= id,
        2 <= base,
    ensures
        base * (id / pow(base, e + 1)) + (id / pow(base, e)) % base == id / pow(base, e),
{
    reveal(pow);
    lemma_pow_positive(base, e);
    lemma_pow_positive(base, e + 1);
    let x = id / pow(base, e);
    vstd::arithmetic::div_mod::lemma_div_pos_is_pos(id, pow(base, e));
    assert(pow(base, e + 1) == base * pow(base, e));
    assert(pow(base, e) * base == base * pow(base, e)) by (nonlinear_arith);
    lemma_div_denominator(id, pow(base, e), base);
    assert(id / pow(base, e + 1) == x / base);
    lemma_fundamental_div_mod(x, base);
}


// ---------------------------------------------------------------------------
// Round trips between the 128-bit value and its two outward forms.
// ---------------------------------------------------------------------------
/// The canonical text form of any identifier is well formed.
pub proof fn lemma_id_text_wf(id: u128)
    ensures
        id_text_valid(id_text(id)),
{
    let s = id_text(id);
    assert forall|p: int| 0 <= p < 36 implies #[trigger] id_text_byte_ok(s, p) by {
        if !is_dash_pos(p) {
            let k = digits_before(p);
            lemma_pow_positive(16, (31 - k) as nat);
            vstd::arithmetic::div_mod::lemma_div_pos_is_pos(id as int, pow(16, (31 - k) as nat));
            assert(0 <= nibble(id, k) < 16);
        }
    }
}

/// Reading the canonical text form of `id` yields `id` back: the identifier
/// round trip that the flat-file backend's record format rests on.
pub proof fn lemma_id_text_value(id: u128)
    ensures
        text_value(id_text(id)) == id,
{
    reveal(pow);
    lemma_pow_constants();
    let s = id_text(id);
    assert forall|p: int| 0 <= p <= 36 implies text_value(#[trigger] s.take(p)) == (id as int)
        / pow(16, (32 - digits_before(p)) as nat) by {
        lemma_take_value(id, p);
    }
    assert(s.take(36) =~= s);
    assert(text_value(s) == (id as int) / pow(16, 0));
}

proof fn lemma_take_value(id: u128, p: int)
    requires
        0 <= p <= 36,
    ensures
        text_value(id_text(id).take(p)) == (id as int) / pow(16, (32 - digits_before(p)) as nat),
    decreases p,
{
    let s = id_text(id);
    reveal(pow);
    lemma_pow_constants();
    if p == 0 {
        assert(s.take(0) =~= Seq::<u8>::empty());
        assert(text_value(s.take(0)) == 0);
        assert((id as int) < pow(16, 32));
        vstd::arithmetic::div_mod::lemma_basic_div(id as int, pow(16, 32));
    } else {
        lemma_take_value(id, p - 1);
        assert(s.take(p).drop_last() =~= s.take(p - 1));
        assert(s.take(p).last() == s[p - 1]);
        let d0 = digits_before(p - 1);
        if is_dash_pos(p - 1) {
            assert(s[p - 1] == 45);
            assert(digits_before(p) == d0);
        } else {
            let k = d0;
            lemma_pow_positive(16, (31 - k) as nat);
            vstd::arithmetic::div_mod::lemma_div_pos_is_pos(id as int, pow(16, (31 - k) as nat));
            assert(0 <= nibble(id, k) < 16);
            assert(hex_val(hex_char_of(nibble(id, k))) == nibble(id, k));
            assert(s[p - 1] == hex_char_of(nibble(id, k)));
            assert(s[p - 1] != 45);
            assert(digits_before(p) == d0 + 1);
            assert((32 - d0) as nat == ((31 - k) as nat) + 1);
            lemma_digit_step(id as int, 16, (31 - k) as nat);
            assert(text_value(s.take(p)) == 16 * ((id as int) / pow(16, (32 - d0) as nat))
                + nibble(id, k));
        }
    }
}

/// Reading the sixteen-byte form of `id` yields `id` back: the identifier
/// round trip that the relational backend's stored form rests on.
pub proof fn lemma_id_bytes_value(id: u128)
    ensures
        bytes_value(id_bytes(id)) == id,
{
    reveal(pow);
    lemma_pow_constants();
    let s = id_bytes(id);
    assert(s.take(16) =~= s);
    lemma_bytes_take_value(id, 16);
    assert(bytes_value(s) == (id as int) / pow(256, 0));
}

proof fn lemma_bytes_take_value(id: u128, p: int)
    requires
        0 <= p <= 16,
    ensures
        bytes_value(id_bytes(id).take(p)) == (id as int) / pow(256, (16 - p) as nat),
    decreases p,
{
    let s = id_bytes(id);
    reveal(pow);
    lemma_pow_constants();
    if p == 0 {
        assert(s.take(0) =~= Seq::<u8>::empty());
        assert((id as int) < pow(256, 16));
        vstd::arithmetic::div_mod::lemma_basic_div(id as int, pow(256, 16));
    } else {
        lemma_bytes_take_value(id, p - 1);
        assert(s.take(p).drop_last() =~= s.take(p - 1));
        assert(s.take(p).last() == s[p - 1]);
        let k = p - 1;
        lemma_pow_positive(256, (15 - k) as nat);
        vstd::arithmetic::div_mod::lemma_div_pos_is_pos(id as int, pow(256, (15 - k) as nat));
        assert(s[p - 1] as int == ((id as int) / pow(256, (15 - k) as nat)) % 256);
        assert((16 - (p - 1)) as nat == ((15 - k) as nat) + 1);
        lemma_digit_step(id as int, 256, (15 - k) as nat);
    }
}

// ---------------------------------------------------------------------------
// Executable formatting and parsing.
// ---------------------------------------------------------------------------
impl EventId {
    /// Render this identifier in its canonical hyphenated text form.
    pub fn to_text(&self) -> (r: Vec<u8>)
        ensures
            r@ == id_text(self.0),
    {
        proof {
            reveal(pow);
            lemma_pow_constants();
        }
        let id = self.0;
        let mut r: Vec<u8> = Vec::new();
        let mut pw: u128 = 0x10000000000000000000000000000000;
        let mut p: usize = 0;
        while p < 36
            invariant
                0 <= p <= 36,
                r@ =~= id_text(id).take(p as int),
                p < 36 ==> pw as int == pow(16, (31 - digits_before(p as int)) as nat),
            decreases 36 - p,
        {
            proof {
                reveal(pow);
                lemma_pow_constants();
            }
            if p == 8 || p == 13 || p == 18 || p == 23 {
                r.push(45);
                proof {
                    assert(id_char(id, p as int) == 45);
                    assert(r@ =~= id_text(id).take(p as int + 1));
                    assert(digits_before(p as int + 1) == digits_before(p as int));
                }
            } else {
                let ghost k = digits_before(p as int);
                proof {
                    lemma_pow_positive(16, (31 - k) as nat);
                }
                let d: u8 = ((id / pw) % 16) as u8;
                proof {
                    vstd::arithmetic::div_mod::lemma_div_pos_is_pos(id as int, pw as int);
                    assert(d as int == nibble(id, k));
                    assert(0 <= d < 16);
                }
                let c: u8 = if d < 10 {
                    48 + d
                } else {
                    87 + d
                };
                r.push(c);
                proof {
                    assert(c == hex_char_of(nibble(id, k)));
                    assert(id_char(id, p as int) == c);
                    assert(r@ =~= id_text(id).take(p as int + 1));
                }
                if p < 35 {
                    proof {
                        let k1 = digits_before(p as int + 1);
                        assert(k1 == k + 1);
                        assert(31 - k >= 1);
                        assert(pow(16, (31 - k) as nat) == 16 * pow(16, (31 - k1) as nat));
                        lemma_pow_positive(16, (31 - k1) as nat);
                        assert((16 * pow(16, (31 - k1) as nat)) / 16 == pow(16, (31 - k1) as nat))
                            by (nonlinear_arith);
                    }
                    pw = pw / 16;
                }
            }
            p += 1;
        }
        proof {
            assert(id_text(id).take(36) =~= id_text(id));
        }
        r
    }

    /// Render this identifier in its sixteen-byte form, most significant byte
    /// first.
    pub fn to_bytes(&self) -> (r: Vec<u8>)
        ensures
            r@ == id_bytes(self.0),
    {
        proof {
            reveal(pow);
            lemma_pow_constants();
        }
        let id = self.0;
        let mut r: Vec<u8> = Vec::new();
        let mut pw: u128 = 0x1000000000000000000000000000000;
        let mut p: usize = 0;
        while p < 16
            invariant
                0 <= p <= 16,
                r@ =~= id_bytes(id).take(p as int),
                p < 16 ==> pw as int == pow(256, (15 - p) as nat),
            decreases 16 - p,
        {
            proof {
                reveal(pow);
                lemma_pow_constants();
            }
            proof {
                lemma_pow_positive(256, (15 - p) as nat);
            }
            let d: u8 = ((id / pw) % 256) as u8;
            proof {
                vstd::arithmetic::div_mod::lemma_div_pos_is_pos(id as int, pw as int);
                assert(d == id_byte(id, p as int));
            }
            r.push(d);
            proof {
                assert(r@ =~= id_bytes(id).take(p as int + 1));
            }
            if p < 15 {
                proof {
                    assert(pow(256, (15 - p) as nat) == 256 * pow(256, (15 - (p + 1)) as nat));
                    lemma_pow_positive(256, (15 - (p + 1)) as nat);
                    assert((256 * pow(256, (15 - (p + 1)) as nat)) / 256 == pow(
                        256,
                        (15 - (p + 1)) as nat,
                    )) by (nonlinear_arith);
                }
                pw = pw / 256;
            }
            p += 1;
        }
        proof {
            assert(id_bytes(id).take(16) =~= id_bytes(id));
        }
        r
    }

    /// Parse a hyphenated identifier text.  Returns the identifier exactly
    /// when the text is well formed; hexadecimal letters of either case are
    /// accepted.
    pub fn from_text(s: &Vec<u8>) -> (r: Option<EventId>)
        ensures
            match r {
                Some(e) => id_text_valid(s@) && e.0 as int == text_value(s@),
                None => !id_text_valid(s@),
            },
    {
        proof {
            reveal(pow);
            lemma_pow_constants();
        }
        if s.len() != 36 {
            return None;
        }
        let mut acc: u128 = 0;
        let mut p: usize = 0;
        while p < 36
            invariant
                s@.len() == 36,
                0 <= p <= 36,
                forall|q: int| 0 <= q < p ==> #[trigger] id_text_byte_ok(s@, q),
                acc as int == text_value(s@.take(p as int)),
                (acc as int) < pow(16, digits_before(p as int) as nat),
            decreases 36 - p,
        {
            proof {
                reveal(pow);
                lemma_pow_constants();
                assert(s@.take(p as int + 1).drop_last() =~= s@.take(p as int));
                assert(s@.take(p as int + 1).last() == s@[p as int]);
            }
            let b = s[p];
            if p == 8 || p == 13 || p == 18 || p == 23 {
                if b != 45 {
                    proof {
                        assert(!id_text_byte_ok(s@, p as int));
                    }
                    return None;
                }
            } else {
                let v: u8 = if 48 <= b && b <= 57 {
                    b - 48
                } else if 97 <= b && b <= 102 {
                    b - 87
                } else if 65 <= b && b <= 70 {
                    b - 55
                } else {
                    proof {
                        assert(!id_text_byte_ok(s@, p as int));
                    }
                    return None;
                };
                proof {
                    let d0 = digits_before(p as int) as nat;
                    assert(v as int == hex_val(b));
                    assert(d0 <= 31);
                    lemma_pow_increases(16, d0, 31);
                    assert(pow(16, d0 + 1) == 16 * pow(16, d0));
                    assert(16 * (acc as int) + 15 < 16 * pow(16, d0)) by (nonlinear_arith)
                        requires
                            (acc as int) < pow(16, d0),
                    ;
                    assert(16 * pow(16, d0) <= pow(16, 32)) by {
                        lemma_pow_increases(16, d0 + 1, 32);
                    }
                }
                acc = acc * 16 + (v as u128);
            }
            p += 1;
        }
        proof {
            assert(s@.take(36) =~= s@);
            assert(id_text_valid(s@));
        }
        Some(EventId(acc))
    }

    /// Parse the sixteen-byte form of an identifier.  Returns the identifier
    /// exactly when the byte string has length sixteen.
    pub fn from_bytes(s: &Vec<u8>) -> (r: Option<EventId>)
        ensures
            match r {
                Some(e) => s@.len() == 16 && e.0 as int == bytes_value(s@),
                None => s@.len() != 16,
            },
    {
        proof {
            reveal(pow);
            lemma_pow_constants();
        }
        if s.len() != 16 {
            return None;
        }
        let mut acc: u128 = 0;
        let mut p: usize = 0;
        while p < 16
            invariant
                s@.len() == 16,
                0 <= p <= 16,
                acc as int == bytes_value(s@.take(p as int)),
                (acc as int) < pow(256, p as nat),
            decreases 16 - p,
        {
            proof {
                reveal(pow);
                lemma_pow_constants();
                assert(s@.take(p as int + 1).drop_last() =~= s@.take(p as int));
                assert(s@.take(p as int + 1).last() == s@[p as int]);
                assert(pow(256, p as nat + 1) == 256 * pow(256, p as nat));
                lemma_pow_increases(256, p as nat, 15);
                lemma_pow_increases(256, p as nat + 1, 16);
                assert(256 * (acc as int) + 255 < 256 * pow(256, p as nat)) by (nonlinear_arith)
                    requires
                        (acc as int) < pow(256, p as nat),
                ;
            }
            let b = s[p];
            acc = acc * 256 + (b as u128);
            p += 1;
        }
        proof {
            assert(s@.take(16) =~= s@);
        }
        Some(EventId(acc))
    }
}

} // verus!
