//! PPM frame output — the fallback display for testing without DRM access:
//! which frames are written, under which names, and the bytes of each.
use vstd::prelude::*;

use crate::framebuffer::{lemma_index_bounds, stride_for, Framebuffer};
use crate::http_client::{ascii_bytes, ascii_bytes_exec, is_ascii_text};
use crate::text::{dec, dec_u64, digit_char, extend_chars, lit, string_of};

verus! {

broadcast use vstd::string::group_string_axioms;

pub struct PpmOutput {
    width: u32,
    height: u32,
}

/// The bytes of one row's first `n` pixels, in RGB order.
pub open spec fn row_bytes(fb: Framebuffer, y: int, n: int) -> Seq<u8>
    decreases n,
{
    if n <= 0 {
        Seq::empty()
    } else {
        let p = fb.pixel(n - 1, y);
        row_bytes(fb, y, n - 1) + seq![p.r, p.g, p.b]
    }
}

/// The bytes of the first `n` rows.
pub open spec fn rows_bytes(fb: Framebuffer, n: int) -> Seq<u8>
    decreases n,
{
    if n <= 0 {
        Seq::empty()
    } else {
        rows_bytes(fb, n - 1) + row_bytes(fb, n - 1, fb.width as int)
    }
}

/// The header of a binary PPM image.
pub open spec fn ppm_header(w: nat, h: nat) -> Seq<char> {
    "P6\n"@ + dec(w) + " "@ + dec(h) + "\n255\n"@
}

/// A whole PPM image of the framebuffer.
pub open spec fn ppm_bytes(fb: Framebuffer) -> Seq<u8> {
    ascii_bytes(ppm_header(fb.width as nat, fb.height as nat)) + rows_bytes(fb, fb.height as int)
}

/// `s` left-padded with zeros to at least four characters.
pub open spec fn pad4(s: Seq<char>) -> Seq<char>
    decreases 4 - s.len(),
{
    if s.len() >= 4 {
        s
    } else {
        pad4(seq!['0'] + s)
    }
}

proof fn lemma_dec_ascii(n: nat)
    ensures
        is_ascii_text(dec(n)),
    decreases n,
{
    if n >= 10 {
        lemma_dec_ascii(n / 10);
        assert((digit_char(n % 10) as int) < 128);
    } else {
        assert((digit_char(n) as int) < 128);
    }
}

proof fn lemma_concat_ascii(a: Seq<char>, b: Seq<char>)
    requires
        is_ascii_text(a),
        is_ascii_text(b),
    ensures
        is_ascii_text(a + b),
{
    assert forall|i: int| 0 <= i < (a + b).len() implies ((#[trigger] (a + b)[i]) as int) < 128 by {
        if i < a.len() {
            assert((a + b)[i] == a[i]);
        } else {
            assert((a + b)[i] == b[i - a.len()]);
        }
    }
}

impl PpmOutput {
    pub closed spec fn size(&self) -> (u32, u32) {
        (self.width, self.height)
    }

    pub fn new(width: u32, height: u32) -> (p: Self)
        ensures
            p.size() == (width, height),
    {
        Self { width, height }
    }

    /// Whether frame `frame_count` is written: every 60th, starting with the
    /// first.
    pub fn writes_frame(frame_count: u64) -> (b: bool)
        ensures
            b == (frame_count % 60 == 1),
    {
        frame_count % 60 == 1
    }

    /// The file a frame is written to: `frame_NNNN.ppm`, the number padded
    /// with zeros to four digits.
    pub fn frame_path(frame_count: u64) -> (p: String)
        ensures
            p@ == "frame_"@ + pad4(dec(frame_count as nat)) + ".ppm"@,
    {
        let mut d = dec_u64(frame_count);
        while d.len() < 4
            invariant
                pad4(d@) == pad4(dec(frame_count as nat)),
            decreases 4 - d@.len(),
        {
            let mut z = vec!['0'];
            extend_chars(&mut z, &d);
            assert(z@ =~= seq!['0'] + d@);
            assert(pad4(d@) == pad4(z@));
            d = z;
        }
        let mut out = lit("frame_");
        extend_chars(&mut out, &d);
        extend_chars(&mut out, &lit(".ppm"));
        string_of(&out)
    }

    /// The PPM image of a framebuffer: the header, then every pixel in RGB
    /// order, row by row.
    pub fn encode(fb: &Framebuffer) -> (r: Vec<u8>)
        requires
            fb.wf(),
        ensures
            r@ == ppm_bytes(*fb),
    {
        let mut head = lit("P6\n");
        extend_chars(&mut head, &dec_u64(fb.width as u64));
        extend_chars(&mut head, &lit(" "));
        extend_chars(&mut head, &dec_u64(fb.height as u64));
        extend_chars(&mut head, &lit("\n255\n"));
        proof {
            reveal_strlit("P6\n");
            reveal_strlit(" ");
            reveal_strlit("\n255\n");
            lemma_dec_ascii(fb.width as nat);
            lemma_dec_ascii(fb.height as nat);
            lemma_concat_ascii("P6\n"@, dec(fb.width as nat));
            lemma_concat_ascii("P6\n"@ + dec(fb.width as nat), " "@);
            lemma_concat_ascii("P6\n"@ + dec(fb.width as nat) + " "@, dec(fb.height as nat));
            lemma_concat_ascii("P6\n"@ + dec(fb.width as nat) + " "@ + dec(fb.height as nat), "\n255\n"@);
            assert(head@ == ppm_header(fb.width as nat, fb.height as nat));
        }
        let mut out = ascii_bytes_exec(&head);
        let ghost hb = out@;
        let w = fb.width;
        let h = fb.height;
        let stride = fb.stride;
        let mut y: u32 = 0;
        while y < h
            invariant
                fb.wf(),
                w == fb.width,
                h == fb.height,
                stride == fb.stride,
                y <= h,
                out@ == hb + rows_bytes(*fb, y as int),
            decreases h - y,
        {
            let mut x: u32 = 0;
            let ghost before = out@;
            while x < w
                invariant
                    fb.wf(),
                    w == fb.width,
                    h == fb.height,
                    stride == fb.stride,
                    y < h,
                    x <= w,
                    out@ == before + row_bytes(*fb, y as int, x as int),
                decreases w - x,
            {
                proof {
                    lemma_index_bounds(stride as int, h as int, y as int, 3 * x + 2);
                }
                let off = (y * stride + x * 3) as usize;
                let b = fb.data[off];
                let g = fb.data[off + 1];
                let r = fb.data[off + 2];
                out.push(r);
                out.push(g);
                out.push(b);
                x = x + 1;
                assert(out@ =~= before + row_bytes(*fb, y as int, x as int));
            }
            y = y + 1;
            assert(out@ =~= hb + rows_bytes(*fb, y as int));
        }
        out
    }
}

} // verus!
