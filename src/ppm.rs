use vstd::prelude::*;

verus! {

/// The decimal digits of `n` in ASCII, most significant first, without leading zeros.
pub open spec fn decimal(n: nat) -> Seq<u8>
    decreases n,
{
    if n < 10 {
        seq![(48 + n) as u8]
    } else {
        decimal(n / 10).push((48 + n % 10) as u8)
    }
}

/// The plain-PPM header: the magic number, a line with the width and the height, and the
/// maximum channel value 255.
pub open spec fn ppm_header(width: nat, height: nat) -> Seq<u8> {
    seq![80u8, 51u8, 10u8] + decimal(width) + seq![32u8] + decimal(height) + seq![
        10u8,
        50u8,
        53u8,
        53u8,
        10u8,
    ]
}

/// `{r} {g} {b}\n`.
pub open spec fn ppm_line(p: [u8; 3]) -> Seq<u8> {
    decimal(p[0] as nat) + seq![32u8] + decimal(p[1] as nat) + seq![32u8] + decimal(
        p[2] as nat,
    ) + seq![10u8]
}

/// One line per pixel, in order.
pub open spec fn ppm_body(ps: Seq<[u8; 3]>) -> Seq<u8>
    decreases ps.len(),
{
    if ps.len() == 0 {
        Seq::empty()
    } else {
        ppm_body(ps.drop_last()) + ppm_line(ps.last())
    }
}

/// Appends the decimal digits of `n`.
pub fn push_decimal(out: &mut Vec<u8>, n: u32)
    ensures
        final(out)@ == old(out)@ + decimal(n as nat),
    decreases n,
{
    if n >= 10 {
        push_decimal(out, n / 10);
    }
    let d = (n % 10) as u8;
    out.push(48 + d);
    assert(final(out)@ =~= old(out)@ + decimal(n as nat));
}

fn push_line(out: &mut Vec<u8>, p: [u8; 3])
    ensures
        final(out)@ == old(out)@ + ppm_line(p),
{
    push_decimal(out, p[0] as u32);
    out.push(32);
    push_decimal(out, p[1] as u32);
    out.push(32);
    push_decimal(out, p[2] as u32);
    out.push(10);
    assert(final(out)@ =~= old(out)@ + ppm_line(p));
}

/// The plain (ASCII) PPM text of an image of `width` x `height` pixels: the header, then one
/// `"{r} {g} {b}"` line per pixel in the order given (row-major).
pub fn encode_ppm(width: u32, height: u32, pixels: &[[u8; 3]]) -> (r: Vec<u8>)
    ensures
        r@ == ppm_header(width as nat, height as nat) + ppm_body(pixels@),
{
    let mut out: Vec<u8> = Vec::new();
    out.push(80);
    out.push(51);
    out.push(10);
    push_decimal(&mut out, width);
    out.push(32);
    push_decimal(&mut out, height);
    out.push(10);
    out.push(50);
    out.push(53);
    out.push(53);
    out.push(10);
    let ghost header = out@;
    assert(header =~= ppm_header(width as nat, height as nat));
    let mut k: usize = 0;
    while k < pixels.len()
        invariant
            k <= pixels@.len(),
            out@ == header + ppm_body(pixels@.subrange(0, k as int)),
        decreases pixels@.len() - k,
    {
        push_line(&mut out, pixels[k]);
        proof {
            let next = pixels@.subrange(0, k + 1);
            assert(next.drop_last() =~= pixels@.subrange(0, k as int));
            assert(next.last() == pixels@[k as int]);
        }
        k = k + 1;
        assert(out@ =~= header + ppm_body(pixels@.subrange(0, k as int)));
    }
    assert(pixels@.subrange(0, pixels@.len() as int) =~= pixels@);
    out
}

} // verus!
