//! The frame of a NumPy file, and a guard on its header: the header reader
//! is only called on headers that are present in full and small enough to
//! be read safely.

use vstd::prelude::*;

verus! {

/// The most opening brackets a header may hold, which bounds its nesting.
pub const MAX_HEADER_BRACKETS: usize = 16;

/// Where the header text starts: the length field after the magic string
/// and the two version bytes is two bytes wide in version 1, and four bytes
/// wide otherwise.
pub open spec fn header_start(file: Seq<u8>) -> int {
    if file.len() >= 10 && file[6] == 1 {
        10
    } else {
        12
    }
}

/// The length of the header text that the length field announces, in
/// little-endian order.
pub open spec fn header_len(file: Seq<u8>) -> int
    recommends
        file.len() >= header_start(file),
{
    if file[6] == 1 {
        file[8] + 256 * file[9]
    } else {
        file[8] + 256 * file[9] + 65536 * file[10] + 16777216 * file[11]
    }
}

/// The header text, where the file holds as much as its length field
/// announces.
pub open spec fn header_text(file: Seq<u8>) -> Option<Seq<u8>> {
    if file.len() >= header_start(file) && header_start(file) + header_len(file) <= file.len() {
        Some(file.subrange(header_start(file), header_start(file) + header_len(file)))
    } else {
        None
    }
}

/// An opening bracket: `(`, `[` or `{`.
pub open spec fn is_bracket(b: u8) -> bool {
    b == 40 || b == 91 || b == 123
}

/// How many opening brackets the text holds.
pub open spec fn brackets_in(text: Seq<u8>) -> nat
    decreases text.len(),
{
    if text.len() == 0 {
        0
    } else {
        brackets_in(text.drop_last()) + if is_bracket(text.last()) { 1nat } else { 0nat }
    }
}

/// Where a left-to-right reading of the numbers in a text stands: the
/// weight of what was read in full, and the number being read with its
/// base. Base 0 stands for no number, base 1 for a single `0`, which a
/// letter may still turn into the prefix of base 2, 8 or 16.
pub struct Scan {
    pub total: int,
    pub value: int,
    pub base: int,
}

/// What a finished number weighs: its value, and 1 where it is zero.
pub open spec fn weight(value: int) -> int {
    if value >= 1 {
        value
    } else {
        1
    }
}

/// The weight of all that a reading has seen, the number being read
/// included.
pub open spec fn pending(s: Scan) -> int {
    s.total * weight(s.value)
}

/// The value of a byte as a digit of the base, where it is one.
pub open spec fn digit_in(b: u8, base: int) -> Option<int> {
    if 48 <= b <= 57 && b - 48 < base {
        Some(b - 48)
    } else if base == 16 && 97 <= b <= 102 {
        Some(b - 87)
    } else if base == 16 && 65 <= b <= 70 {
        Some(b - 55)
    } else {
        None
    }
}

/// Reading a byte where no number is being read: a digit starts a number,
/// and a sign doubles the weight, since a sum of two numbers is at most
/// twice their product.
pub open spec fn outside(total: int, b: u8) -> Scan {
    if b == 48 {
        Scan { total, value: 0, base: 1 }
    } else if 49 <= b <= 57 {
        Scan { total, value: b - 48, base: 10 }
    } else if b == 43 || b == 45 {
        Scan { total: 2 * total, value: 0, base: 0 }
    } else {
        Scan { total, value: 0, base: 0 }
    }
}

/// Reading one more byte. An underscore leaves a number as it is; a digit
/// of the base extends it; after a single `0` the letters `x`, `o`, `b`
/// choose the base; any other byte ends the number, whose weight joins the
/// total, and is then read as outside a number.
pub open spec fn step(s: Scan, b: u8) -> Scan {
    if s.base == 0 {
        outside(s.total, b)
    } else if b == 95 {
        Scan { total: s.total, value: s.value, base: if s.base == 1 { 10 } else { s.base } }
    } else if s.base == 1 {
        if b == 120 || b == 88 {
            Scan { total: s.total, value: 0, base: 16 }
        } else if b == 111 || b == 79 {
            Scan { total: s.total, value: 0, base: 8 }
        } else if b == 98 || b == 66 {
            Scan { total: s.total, value: 0, base: 2 }
        } else if 48 <= b <= 57 {
            Scan { total: s.total, value: b - 48, base: 10 }
        } else {
            outside(s.total, b)
        }
    } else {
        match digit_in(b, s.base) {
            Some(d) => Scan { total: s.total, value: s.value * s.base + d, base: s.base },
            None => outside(s.total * weight(s.value), b),
        }
    }
}

/// The reading of a whole text, from nothing read.
pub open spec fn scan(text: Seq<u8>) -> Scan
    decreases text.len(),
{
    if text.len() == 0 {
        Scan { total: 1, value: 0, base: 0 }
    } else {
        step(scan(text.drop_last()), text.last())
    }
}

/// The weight of a header text: the product of the numbers written in it,
/// each read in its own base and zeros left out, doubled once for every
/// sign. No integer that can be computed from the text by adding,
/// subtracting and multiplying what it writes, each number used once, is
/// larger.
pub open spec fn header_weight(text: Seq<u8>) -> int {
    pending(scan(text))
}

/// The text is modest: its weight fits 64 bits, and it holds few brackets.
pub open spec fn modest(text: Seq<u8>) -> bool {
    &&& header_weight(text) <= u64::MAX
    &&& brackets_in(text) <= MAX_HEADER_BRACKETS
}

/// The file holds its header in full, and the header is modest.
pub open spec fn header_is_modest(file: Seq<u8>) -> bool {
    header_text(file) matches Some(text) && modest(text)
}

/// The state is one that a reading can be in.
pub open spec fn reading(s: Scan) -> bool {
    &&& s.total >= 1
    &&& s.value >= 0
    &&& (s.base == 0 || s.base == 1 || s.base == 2 || s.base == 8 || s.base == 10 || s.base == 16)
    &&& (s.base == 0 || s.base == 1 ==> s.value == 0)
}

/// Reading a byte never lowers the weight of what was seen.
pub proof fn lemma_step_grows(s: Scan, b: u8)
    requires
        reading(s),
    ensures
        reading(step(s, b)),
        pending(s) <= pending(step(s, b)),
{
    let t = step(s, b);
    let w = weight(s.value);
    assert(s.total <= s.total * w) by (nonlinear_arith)
        requires
            s.total >= 1,
            w >= 1,
    ;
    assert(s.total * w <= 2 * (s.total * w)) by (nonlinear_arith)
        requires
            s.total >= 1,
            w >= 1,
    ;
    assert(t.total >= 1);
    assert(t.total <= t.total * weight(t.value)) by (nonlinear_arith)
        requires
            t.total >= 1,
            weight(t.value) >= 1,
    ;
    if s.base >= 2 && b != 95 && digit_in(b, s.base) is Some {
        let d = digit_in(b, s.base).unwrap();
        assert(s.value * s.base + d >= s.value) by (nonlinear_arith)
            requires
                s.value >= 0,
                s.base >= 2,
                d >= 0,
        ;
        assert(s.total * weight(s.value) <= s.total * weight(s.value * s.base + d))
            by (nonlinear_arith)
            requires
                s.total >= 1,
                weight(s.value) <= weight(s.value * s.base + d),
        ;
    }
}

/// The weight of a text is at least that of each of its prefixes, and so
/// are its brackets.
pub proof fn lemma_weight_grows(text: Seq<u8>, n: int)
    requires
        0 <= n <= text.len(),
    ensures
        reading(scan(text.subrange(0, n))),
        pending(scan(text.subrange(0, n))) <= header_weight(text),
        brackets_in(text.subrange(0, n)) <= brackets_in(text),
    decreases text.len() - n,
{
    lemma_reading(text.subrange(0, n));
    if n == text.len() {
        assert(text.subrange(0, n) =~= text);
    } else {
        lemma_weight_grows(text, n + 1);
        assert(text.subrange(0, n + 1).drop_last() =~= text.subrange(0, n));
        lemma_step_grows(scan(text.subrange(0, n)), text[n]);
    }
}

/// Every reading of a text is in a state that a reading can be in.
pub proof fn lemma_reading(text: Seq<u8>)
    ensures
        reading(scan(text)),
    decreases text.len(),
{
    if text.len() > 0 {
        lemma_reading(text.drop_last());
        lemma_step_grows(scan(text.drop_last()), text.last());
    }
}

fn digit_of(b: u8, base: u64) -> (r: Option<u64>)
    requires
        base == 2 || base == 8 || base == 10 || base == 16,
    ensures
        match r {
            Some(d) => digit_in(b, base as int) == Some(d as int) && d < base,
            None => digit_in(b, base as int) is None,
        },
{
    if 48 <= b && b <= 57 && ((b - 48) as u64) < base {
        Some((b - 48) as u64)
    } else if base == 16 && 97 <= b && b <= 102 {
        Some((b - 87) as u64)
    } else if base == 16 && 65 <= b && b <= 70 {
        Some((b - 55) as u64)
    } else {
        None
    }
}

fn read_outside(total: u64, b: u8) -> (r: Option<(u64, u64, u64)>)
    requires
        total >= 1,
    ensures
        match r {
            Some(t) => outside(total as int, b) == (Scan {
                total: t.0 as int,
                value: t.1 as int,
                base: t.2 as int,
            }),
            None => outside(total as int, b).total > u64::MAX,
        },
{
    if b == 48 {
        Some((total, 0, 1))
    } else if 49 <= b && b <= 57 {
        Some((total, (b - 48) as u64, 10))
    } else if b == 43 || b == 45 {
        match total.checked_mul(2) {
            Some(doubled) => Some((doubled, 0, 0)),
            None => None,
        }
    } else {
        Some((total, 0, 0))
    }
}

/// Reads one more byte in 64 bits, or finds that the weight no longer fits.
fn read_byte(total: u64, value: u64, base: u64, b: u8) -> (r: Option<(u64, u64, u64)>)
    requires
        reading(Scan { total: total as int, value: value as int, base: base as int }),
    ensures
        match r {
            Some(t) => step(Scan { total: total as int, value: value as int, base: base as int }, b)
                == (Scan { total: t.0 as int, value: t.1 as int, base: t.2 as int }),
            None => pending(
                step(Scan { total: total as int, value: value as int, base: base as int }, b),
            ) > u64::MAX,
        },
{
    let ghost s = Scan { total: total as int, value: value as int, base: base as int };
    proof {
        lemma_step_grows(s, b);
        let t = step(s, b);
        assert(t.total <= t.total * weight(t.value)) by (nonlinear_arith)
            requires
                t.total >= 1,
                weight(t.value) >= 1,
        ;
        assert(t.value <= t.total * weight(t.value)) by (nonlinear_arith)
            requires
                t.total >= 1,
                weight(t.value) >= t.value,
                t.value >= 0,
        ;
    }
    if base == 0 {
        read_outside(total, b)
    } else if b == 95 {
        Some((total, value, if base == 1 { 10 } else { base }))
    } else if base == 1 {
        if b == 120 || b == 88 {
            Some((total, 0, 16))
        } else if b == 111 || b == 79 {
            Some((total, 0, 8))
        } else if b == 98 || b == 66 {
            Some((total, 0, 2))
        } else if 48 <= b && b <= 57 {
            Some((total, (b - 48) as u64, 10))
        } else {
            read_outside(total, b)
        }
    } else {
        match digit_of(b, base) {
            Some(d) => {
                let scaled = match value.checked_mul(base) {
                    Some(scaled) => scaled,
                    None => { return None; },
                };
                match scaled.checked_add(d) {
                    Some(extended) => Some((total, extended, base)),
                    None => None,
                }
            },
            None => {
                let w: u64 = if value >= 1 { value } else { 1 };
                match total.checked_mul(w) {
                    Some(joined) => read_outside(joined, b),
                    None => None,
                }
            },
        }
    }
}

/// Whether the file holds its header in full and the header is modest.
pub fn check_header(file: &[u8]) -> (r: bool)
    ensures
        r == header_is_modest(file@),
{
    if file.len() < 10 {
        return false;
    }
    let wide = file[6] != 1;
    if wide && file.len() < 12 {
        return false;
    }
    let start: usize = if wide { 12 } else { 10 };
    let announced: u64 = if wide {
        file[8] as u64 + 256 * (file[9] as u64) + 65536 * (file[10] as u64) + 16777216 * (
        file[11] as u64)
    } else {
        file[8] as u64 + 256 * (file[9] as u64)
    };
    if announced > (file.len() - start) as u64 {
        return false;
    }
    let end: usize = start + announced as usize;
    let ghost text = file@.subrange(start as int, end as int);
    assert(header_text(file@) == Some(text));
    let mut total: u64 = 1;
    let mut value: u64 = 0;
    let mut base: u64 = 0;
    let mut brackets: usize = 0;
    let mut i: usize = start;
    while i < end
        invariant
            start <= i <= end <= file@.len(),
            text == file@.subrange(start as int, end as int),
            header_text(file@) == Some(text),
            scan(file@.subrange(start as int, i as int)) == (Scan {
                total: total as int,
                value: value as int,
                base: base as int,
            }),
            brackets == brackets_in(file@.subrange(start as int, i as int)),
            brackets <= MAX_HEADER_BRACKETS,
        decreases end - i,
    {
        let b = file[i];
        proof {
            let upto = file@.subrange(start as int, i + 1);
            assert(upto.drop_last() =~= file@.subrange(start as int, i as int));
            assert(upto.last() == b);
            assert(text.subrange(0, i + 1 - start) =~= upto);
            lemma_reading(file@.subrange(start as int, i as int));
            lemma_weight_grows(text, i + 1 - start);
        }
        match read_byte(total, value, base, b) {
            Some(next) => {
                total = next.0;
                value = next.1;
                base = next.2;
            },
            None => {
                return false;
            },
        }
        if b == 40 || b == 91 || b == 123 {
            if brackets == MAX_HEADER_BRACKETS {
                return false;
            }
            brackets += 1;
        }
        i += 1;
    }
    assert(file@.subrange(start as int, i as int) == text);
    proof {
        lemma_reading(text);
    }
    let w: u64 = if value >= 1 { value } else { 1 };
    total.checked_mul(w).is_some()
}

} // verus!
