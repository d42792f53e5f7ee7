//! Text-like rendering for byte strings.
//!
//! Symbol names and string payloads are byte strings.  For diagnostics
//! they are rendered with ASCII escapes: printable bytes stand for
//! themselves, the common control characters use backslash escapes, and
//! everything else becomes `\xNN`.

use vstd::prelude::*;

verus! {

/// A byte string with a text-like rendering.
#[derive(Clone, Debug, Eq, PartialEq)]
pub struct ByteString(pub Vec<u8>);

/// The lowercase hexadecimal digit for a value below 16.
pub open spec fn hex_digit(n: u8) -> u8 {
    if n < 10 {
        (48 + n) as u8
    } else {
        (87 + n) as u8
    }
}

/// The escape of one byte: itself if printable, a backslash escape for
/// tab, newline, carriage return, backslash and the quotes, and `\xNN`
/// otherwise.
pub open spec fn escaped_byte(b: u8) -> Seq<u8> {
    if b == 9 {
        seq![92u8, 116u8]
    } else if b == 10 {
        seq![92u8, 110u8]
    } else if b == 13 {
        seq![92u8, 114u8]
    } else if b == 92 {
        seq![92u8, 92u8]
    } else if b == 34 {
        seq![92u8, 34u8]
    } else if b == 39 {
        seq![92u8, 39u8]
    } else if 32 <= b <= 126 {
        seq![b]
    } else {
        seq![92u8, 120u8, hex_digit(b / 16), hex_digit(b % 16)]
    }
}

/// The escape of a whole byte string.
pub open spec fn escaped_bytes(s: Seq<u8>) -> Seq<u8>
    decreases s.len(),
{
    if s.len() == 0 {
        Seq::empty()
    } else {
        escaped_bytes(s.drop_last()) + escaped_byte(s.last())
    }
}

impl ByteString {
    /// Render the bytes with ASCII escapes.
    pub fn escaped(&self) -> (r: Vec<u8>)
        ensures
            r@ == escaped_bytes(self.0@),
    {
        let ghost s = self.0@;
        let mut r: Vec<u8> = Vec::new();
        let mut i: usize = 0;
        proof {
            assert(s.subrange(0, 0) =~= Seq::<u8>::empty());
        }
        while i < self.0.len()
            invariant
                s == self.0@,
                i <= s.len(),
                r@ == escaped_bytes(s.subrange(0, i as int)),
            decreases s.len() - i,
        {
            let b = self.0[i];
            if b == 9 {
                r.push(92);
                r.push(116);
            } else if b == 10 {
                r.push(92);
                r.push(110);
            } else if b == 13 {
                r.push(92);
                r.push(114);
            } else if b == 92 {
                r.push(92);
                r.push(92);
            } else if b == 34 {
                r.push(92);
                r.push(34);
            } else if b == 39 {
                r.push(92);
                r.push(39);
            } else if 32 <= b && b <= 126 {
                r.push(b);
            } else {
                r.push(92);
                r.push(120);
                r.push(if b / 16 < 10 {
                    48 + b / 16
                } else {
                    87 + b / 16
                });
                r.push(if b % 16 < 10 {
                    48 + b % 16
                } else {
                    87 + b % 16
                });
            }
            i = i + 1;
            proof {
                let pre = s.subrange(0, i as int);
                assert(pre.drop_last() =~= s.subrange(0, i - 1));
                assert(pre.last() == s[i - 1]);
                assert(r@ =~= escaped_bytes(s.subrange(0, i - 1)) + escaped_byte(s[i - 1]));
            }
        }
        proof {
            assert(s.subrange(0, s.len() as int) =~= s);
        }
        r
    }
}

} // verus!
