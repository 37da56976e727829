//! Printable renderings of raw bytes.
use vstd::prelude::*;
use crate::text::is_ws;

verus! {

/// A visible ASCII character, `!` through `~`.
pub open spec fn is_graphic(b: u8) -> bool {
    33 <= b && b <= 126
}

/// The lower-case hexadecimal digit for `d < 16`.
pub open spec fn hex_digit(d: u8) -> u8 {
    if d < 10 {
        (48 + d) as u8
    } else {
        (87 + d) as u8
    }
}

/// A byte as it is shown: itself when visible or whitespace, else `\x` and its
/// hexadecimal value without leading zeros.
pub open spec fn lossy_byte(b: u8) -> Seq<u8> {
    if is_graphic(b) || is_ws(b) {
        seq![b]
    } else if b < 16 {
        seq![92u8, 120u8, hex_digit(b)]
    } else {
        seq![92u8, 120u8, hex_digit(b / 16), hex_digit(b % 16)]
    }
}

pub open spec fn lossy_text(s: Seq<u8>) -> Seq<u8>
    decreases s.len(),
{
    if s.len() == 0 {
        Seq::empty()
    } else {
        lossy_text(s.drop_last()) + lossy_byte(s.last())
    }
}

/// Bytes to be shown as text, with the ones that are not printable escaped.
pub struct LossyFmt<'a>(pub &'a [u8]);

/// Shows bytes as text.
pub trait FmtExt {
    /// The bytes that are shown.
    spec fn shown(&self) -> Seq<u8>;

    fn lossy(&self) -> (r: LossyFmt<'_>)
        ensures
            r.0@ == self.shown(),
    ;
}

impl FmtExt for [u8] {
    open spec fn shown(&self) -> Seq<u8> {
        self@
    }

    fn lossy(&self) -> (r: LossyFmt<'_>) {
        LossyFmt(self)
    }
}

fn hex(d: u8) -> (r: u8)
    requires
        d < 16,
    ensures
        r == hex_digit(d),
{
    if d < 10 {
        48 + d
    } else {
        87 + d
    }
}

impl<'a> LossyFmt<'a> {
    /// The text, as bytes.
    pub fn render(&self) -> (r: Vec<u8>)
        ensures
            r@ == lossy_text(self.0@),
    {
        let s = self.0;
        let mut out: Vec<u8> = Vec::new();
        let mut i: usize = 0;
        while i < s.len()
            invariant
                i <= s@.len(),
                out@ == lossy_text(s@.subrange(0, i as int)),
            decreases s@.len() - i,
        {
            let b = s[i];
            if (33 <= b && b <= 126) || b == 32 || b == 9 || b == 10 || b == 12 || b == 13 {
                out.push(b);
            } else {
                out.push(92);
                out.push(120);
                if b >= 16 {
                    out.push(hex(b / 16));
                }
                out.push(hex(b % 16));
            }
            assert(s@.subrange(0, i + 1).drop_last() =~= s@.subrange(0, i as int));
            assert(out@ =~= lossy_text(s@.subrange(0, i + 1)));
            i += 1;
        }
        assert(s@.subrange(0, i as int) =~= s@);
        out
    }
}

} // verus!
