use vstd::prelude::*;

verus! {

/// The ASCII decimal digits of `n`, most significant first.
pub open spec fn decimal(n: nat) -> Seq<u8>
    decreases n,
{
    if n < 10 {
        seq![(48 + n) as u8]
    } else {
        decimal(n / 10).push((48 + n % 10) as u8)
    }
}

/// The header of an ASCII pixel map: its magic number, the width and height, and the
/// largest channel value, 255, each ending a line but for the width.
pub open spec fn ppm_header(width: nat, height: nat) -> Seq<u8> {
    seq![80u8, 51u8, 10u8] + decimal(width) + seq![32u8] + decimal(height) + seq![
        10u8,
        50u8,
        53u8,
        53u8,
        10u8,
    ]
}

/// `{r} {g} {b}\n`
pub open spec fn pixel_line(p: [u8; 3]) -> Seq<u8> {
    decimal(p[0] as nat) + seq![32u8] + decimal(p[1] as nat) + seq![32u8] + decimal(p[2] as nat)
        + seq![10u8]
}

/// One line per pixel, in order.
pub open spec fn ppm_body(pixels: Seq<[u8; 3]>) -> Seq<u8>
    decreases pixels.len(),
{
    if pixels.len() == 0 {
        Seq::empty()
    } else {
        ppm_body(pixels.drop_last()) + pixel_line(pixels.last())
    }
}

/// The whole plain-text image.
pub open spec fn ppm_text_spec(width: nat, height: nat, pixels: Seq<[u8; 3]>) -> Seq<u8> {
    ppm_header(width, height) + ppm_body(pixels)
}

/// Appends the decimal digits of `n`.
pub fn push_decimal(out: &mut Vec<u8>, n: u32)
    ensures
        final(out)@ == old(out)@ + decimal(n as nat),
    decreases n,
{
    if n >= 10 {
        push_decimal(out, n / 10);
    }
    out.push(48 + (n % 10) as u8);
    proof {
        if n >= 10 {
            assert(final(out)@ =~= old(out)@ + decimal(n as nat));
        } else {
            assert(final(out)@ =~= old(out)@ + decimal(n as nat));
        }
    }
}

fn push_bytes(out: &mut Vec<u8>, bytes: &[u8])
    ensures
        final(out)@ == old(out)@ + bytes@,
{
    let mut i: usize = 0;
    while i < bytes.len()
        invariant
            i <= bytes@.len(),
            out@ == old(out)@ + bytes@.subrange(0, i as int),
        decreases bytes@.len() - i,
    {
        out.push(bytes[i]);
        i = i + 1;
        assert(out@ =~= old(out)@ + bytes@.subrange(0, i as int));
    }
    assert(bytes@.subrange(0, bytes@.len() as int) =~= bytes@);
}

/// The image as the plain-text pixel format: a header, then one line per pixel.
pub fn ppm_text(width: u32, height: u32, pixels: &Vec<[u8; 3]>) -> (r: Vec<u8>)
    ensures
        r@ == ppm_text_spec(width as nat, height as nat, pixels@),
{
    let mut out: Vec<u8> = Vec::new();
    push_bytes(&mut out, &[80u8, 51u8, 10u8]);
    push_decimal(&mut out, width);
    out.push(32);
    push_decimal(&mut out, height);
    push_bytes(&mut out, &[10u8, 50u8, 53u8, 53u8, 10u8]);
    assert(out@ =~= ppm_header(width as nat, height as nat));
    let mut k: usize = 0;
    while k < pixels.len()
        invariant
            k <= pixels@.len(),
            out@ == ppm_header(width as nat, height as nat) + ppm_body(pixels@.subrange(0, k as int)),
        decreases pixels@.len() - k,
    {
        let p = pixels[k];
        let ghost before = out@;
        push_decimal(&mut out, p[0] as u32);
        out.push(32);
        push_decimal(&mut out, p[1] as u32);
        out.push(32);
        push_decimal(&mut out, p[2] as u32);
        out.push(10);
        assert(out@ =~= before + pixel_line(p));
        let ghost done = pixels@.subrange(0, k as int + 1);
        assert(done.drop_last() =~= pixels@.subrange(0, k as int));
        assert(done.last() == p);
        k = k + 1;
    }
    assert(pixels@.subrange(0, pixels@.len() as int) =~= pixels@);
    out
}

} // verus!
