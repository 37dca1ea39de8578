use vstd::prelude::*;
use crate::color::rgb_of;

verus! {

/// The ASCII decimal digits of `n`, most significant first.
pub open spec fn decimal(n: nat) -> Seq<u8>
    decreases n,
{
    if n < 10 {
        seq![(48 + n) as u8]
    } else {
        decimal(n / 10).push((48 + n % 10) as u8)
    }
}

/// Writes `n` in decimal.
pub fn decimal_digits(n: usize) -> (r: Vec<u8>)
    ensures
        r@ == decimal(n as nat),
    decreases n,
{
    if n < 10 {
        vec![48 + n as u8]
    } else {
        let mut r = decimal_digits(n / 10);
        r.push(48 + (n % 10) as u8);
        r
    }
}

/// `P6\n{n} {n}\n255\n`.
pub open spec fn ppm_header_spec(n: nat) -> Seq<u8> {
    seq![80u8, 54u8, 10u8] + decimal(n) + seq![32u8] + decimal(n) + seq![10u8, 50u8, 53u8, 53u8, 10u8]
}

/// The red, green and blue bytes of each colour, in order.
pub open spec fn rgb_bytes(colors: Seq<u32>) -> Seq<u8>
    decreases colors.len(),
{
    if colors.len() == 0 {
        Seq::empty()
    } else {
        rgb_bytes(colors.drop_last()) + rgb_of(colors.last())
    }
}

/// The header of a binary raster of `n` by `n` pixels with 8-bit channels.
pub fn ppm_header(n: usize) -> (r: Vec<u8>)
    ensures
        r@ == ppm_header_spec(n as nat),
{
    let mut r: Vec<u8> = vec![80u8, 54u8, 10u8];
    let mut d = decimal_digits(n);
    let mut e = decimal_digits(n);
    r.append(&mut d);
    r.push(32u8);
    r.append(&mut e);
    let mut tail: Vec<u8> = vec![10u8, 50u8, 53u8, 53u8, 10u8];
    r.append(&mut tail);
    assert(r@ =~= ppm_header_spec(n as nat));
    r
}

/// The whole raster file for an `n` by `n` image: the header, then three
/// bytes per pixel in row-major order.
pub fn ppm_bytes(n: usize, colors: &Vec<u32>) -> (r: Vec<u8>)
    ensures
        r@ == ppm_header_spec(n as nat) + rgb_bytes(colors@),
        r@.len() == ppm_header_spec(n as nat).len() + 3 * colors@.len(),
{
    let mut r = ppm_header(n);
    let ghost head = r@;
    let mut i: usize = 0;
    while i < colors.len()
        invariant
            i <= colors@.len(),
            head == ppm_header_spec(n as nat),
            r@ == head + rgb_bytes(colors@.subrange(0, i as int)),
        decreases colors@.len() - i,
    {
        let c = colors[i];
        r.push(((c / 65536) % 256) as u8);
        r.push(((c / 256) % 256) as u8);
        r.push((c % 256) as u8);
        proof {
            let s = colors@.subrange(0, i + 1);
            assert(s.drop_last() =~= colors@.subrange(0, i as int));
            assert(s.last() == c);
            assert(r@ =~= head + rgb_bytes(s));
        }
        i = i + 1;
    }
    assert(colors@.subrange(0, colors@.len() as int) =~= colors@);
    proof {
        lemma_rgb_bytes_len(colors@);
    }
    r
}

/// Three bytes stand for each colour.
pub proof fn lemma_rgb_bytes_len(colors: Seq<u32>)
    ensures
        rgb_bytes(colors).len() == 3 * colors.len(),
    decreases colors.len(),
{
    if colors.len() > 0 {
        lemma_rgb_bytes_len(colors.drop_last());
    }
}

} // verus!
