//! Gamma ramps as the display hardware takes them.

use vstd::prelude::*;

verus! {

/// One entry of a DRM colour lookup table.
#[derive(Copy, Clone, Default, Debug, PartialEq, Eq, Structural)]
pub struct DrmColorLut {
    pub red: u16,
    pub green: u16,
    pub blue: u16,
    pub reserved: u16,
}

/// The two ways two bytes make a 16-bit number: low byte first or high byte first.
pub open spec fn from_two_bytes(a: u8, b: u8, v: u16) -> bool {
    v as int == a as int + 256 * (b as int) || v as int == b as int + 256 * (a as int)
}

/// `u16::from_ne_bytes`: the 16-bit number the two bytes hold in the
/// machine's byte order, low byte first or high byte first. Which order
/// that is, this contract leaves open.
#[verifier::external_body]
fn u16_from_ne_bytes(a: u8, b: u8) -> (r: u16)
    ensures
        from_two_bytes(a, b, r),
{
    u16::from_ne_bytes([a, b])
}

/// The 16-bit number the bytes `a`, `b` hold in one byte order: low byte
/// first when `little`, high byte first otherwise.
pub open spec fn u16_of(a: u8, b: u8, little: bool) -> int {
    if little {
        a as int + 256 * (b as int)
    } else {
        b as int + 256 * (a as int)
    }
}

/// The 16-bit number the bytes `a`, `b` hold in the byte order `little`.
fn u16_in_order(a: u8, b: u8, little: bool) -> (r: u16)
    ensures
        r as int == u16_of(a, b, little),
{
    if little {
        a as u16 + 256 * (b as u16)
    } else {
        b as u16 + 256 * (a as u16)
    }
}

/// Whether `lut` is the gamma table that the `3 * size` 16-bit values of
/// `bytes` give in the byte order `little`: `size` reds, then `size`
/// greens, then `size` blues.
pub open spec fn gamma_table_in(bytes: Seq<u8>, size: int, lut: Seq<DrmColorLut>, little: bool) -> bool {
    &&& lut.len() == size
    &&& forall|i: int| #![trigger lut[i]] 0 <= i < size ==> {
        &&& lut[i].red as int == u16_of(bytes[2 * i], bytes[2 * i + 1], little)
        &&& lut[i].green as int == u16_of(bytes[2 * (size + i)], bytes[2 * (size + i) + 1], little)
        &&& lut[i].blue as int == u16_of(bytes[2 * (2 * size + i)], bytes[2 * (2 * size + i) + 1], little)
        &&& lut[i].reserved == 0
    }
}

/// Whether `lut` is the gamma table that `bytes` give for `size` entries,
/// every value read in the one byte order of the machine.
pub open spec fn gamma_table(bytes: Seq<u8>, size: int, lut: Seq<DrmColorLut>) -> bool {
    exists|little: bool| gamma_table_in(bytes, size, lut, little)
}

/// The gamma table a client's ramp bytes give for a table of `size`
/// entries, all values read in the machine's byte order; none for a table
/// of no entries, which the client is told is a failure.
pub fn decode_gamma(bytes: &[u8], size: usize) -> (r: Option<Vec<DrmColorLut>>)
    requires
        6 * size <= usize::MAX,
        bytes@.len() >= 6 * size,
    ensures
        size == 0 ==> r is None,
        size > 0 ==> r is Some && gamma_table(bytes@, size as int, r->Some_0@),
{
    if size == 0 {
        return None;
    }
    let little = u16_from_ne_bytes(1, 0) == 1;
    let mut lut: Vec<DrmColorLut> = Vec::new();
    let mut i: usize = 0;
    while i < size
        invariant
            i <= size,
            6 * size <= usize::MAX,
            bytes@.len() >= 6 * size,
            lut@.len() == i,
            forall|j: int| #![trigger lut@[j]] 0 <= j < i ==> {
                &&& lut@[j].red as int == u16_of(bytes@[2 * j], bytes@[2 * j + 1], little)
                &&& lut@[j].green as int == u16_of(bytes@[2 * (size + j)], bytes@[2 * (size + j) + 1], little)
                &&& lut@[j].blue as int == u16_of(bytes@[2 * (2 * size + j)], bytes@[2 * (2 * size + j) + 1], little)
                &&& lut@[j].reserved == 0
            },
        decreases size - i,
    {
        let r = u16_in_order(bytes[i * 2], bytes[i * 2 + 1], little);
        let g = u16_in_order(bytes[(size + i) * 2], bytes[(size + i) * 2 + 1], little);
        let b = u16_in_order(bytes[(2 * size + i) * 2], bytes[(2 * size + i) * 2 + 1], little);
        lut.push(DrmColorLut { red: r, green: g, blue: b, reserved: 0 });
        i = i + 1;
    }
    proof {
        assert(gamma_table_in(bytes@, size as int, lut@, little));
    }
    Some(lut)
}

/// The total width of the first `n` outputs of `widths`.
pub open spec fn width_before(widths: Seq<u16>, n: int) -> int
    decreases n,
{
    if n <= 0 || widths.len() == 0 {
        0
    } else {
        width_before(widths, n - 1) + widths[n - 1] as int
    }
}

/// Widths add up: the total before `n` is at most the total before `m >= n`.
proof fn lemma_width_before_grows(widths: Seq<u16>, n: int, m: int)
    requires
        0 <= n <= m <= widths.len(),
    ensures
        width_before(widths, n) <= width_before(widths, m),
    decreases m - n,
{
    if n < m {
        lemma_width_before_grows(widths, n, m - 1);
    }
}

/// The horizontal positions of outputs laid out side by side, left to
/// right in the order given: each starts where the ones before it end. The
/// total width must fit in an `i32`.
pub fn side_by_side(widths: &Vec<u16>) -> (r: Vec<i32>)
    requires
        width_before(widths@, widths@.len() as int) <= i32::MAX,
    ensures
        r@.len() == widths@.len(),
        forall|i: int| 0 <= i < r@.len() ==> #[trigger] r@[i] as int == width_before(widths@, i),
{
    let mut r: Vec<i32> = Vec::new();
    let mut x: i32 = 0;
    let mut i: usize = 0;
    while i < widths.len()
        invariant
            i <= widths@.len(),
            width_before(widths@, widths@.len() as int) <= i32::MAX,
            x as int == width_before(widths@, i as int),
            r@.len() == i,
            forall|j: int| 0 <= j < i ==> #[trigger] r@[j] as int == width_before(widths@, j),
        decreases widths@.len() - i,
    {
        r.push(x);
        proof {
            lemma_width_before_grows(widths@, i + 1, widths@.len() as int);
        }
        x = x + widths[i] as i32;
        i = i + 1;
    }
    r
}

} // verus!
