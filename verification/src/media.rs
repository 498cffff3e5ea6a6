//! Recognition of the raster file extensions that a scan request accepts,
//! matched case-insensitively over ASCII.

use vstd::prelude::*;

verus! {

/// An ASCII byte with uppercase letters folded to lowercase.
pub open spec fn ascii_lower(b: u8) -> u8 {
    if 65 <= b && b <= 90 {
        (b + 32) as u8
    } else {
        b
    }
}

/// The byte sequence with every ASCII uppercase letter folded.
pub open spec fn lowered(s: Seq<u8>) -> Seq<u8> {
    s.map_values(|b: u8| ascii_lower(b))
}

/// Whether the extension bytes, case-folded, name one of the accepted
/// raster formats: png, jpg, jpeg, bmp, gif or webp.
pub open spec fn supported_extension_spec(s: Seq<u8>) -> bool {
    ||| lowered(s) == seq![112u8, 110u8, 103u8]  // png
    ||| lowered(s) == seq![106u8, 112u8, 103u8]  // jpg
    ||| lowered(s) == seq![106u8, 112u8, 101u8, 103u8]  // jpeg
    ||| lowered(s) == seq![98u8, 109u8, 112u8]  // bmp
    ||| lowered(s) == seq![103u8, 105u8, 102u8]  // gif
    ||| lowered(s) == seq![119u8, 101u8, 98u8, 112u8]  // webp
}

/// Decides [`supported_extension_spec`] on the raw bytes of a file
/// extension (without the leading dot).
pub fn is_supported_extension(ext: &Vec<u8>) -> (r: bool)
    ensures
        r == supported_extension_spec(ext@),
{
    let n = ext.len();
    let mut low: Vec<u8> = Vec::new();
    let mut i: usize = 0;
    while i < n
        invariant
            i <= n,
            n == ext@.len(),
            low@ =~= lowered(ext@).take(i as int),
        decreases n - i,
    {
        let b = ext[i];
        let f: u8 = if 65 <= b && b <= 90 {
            b + 32
        } else {
            b
        };
        low.push(f);
        proof {
            assert(lowered(ext@).take(i + 1) =~= lowered(ext@).take(i as int).push(f));
        }
        i = i + 1;
    }
    proof {
        assert(low@ =~= lowered(ext@));
    }
    let r: bool = if low.len() == 3 {
        (low[0] == 112 && low[1] == 110 && low[2] == 103) || (low[0] == 106 && low[1] == 112
            && low[2] == 103) || (low[0] == 98 && low[1] == 109 && low[2] == 112) || (low[0] == 103
            && low[1] == 105 && low[2] == 102)
    } else if low.len() == 4 {
        (low[0] == 106 && low[1] == 112 && low[2] == 101 && low[3] == 103) || (low[0] == 119
            && low[1] == 101 && low[2] == 98 && low[3] == 112)
    } else {
        false
    };
    proof {
        if r {
            if low@.len() == 3 {
                assert(supported_extension_spec(ext@)) by {
                    if low@[0] == 112 && low@[1] == 110 && low@[2] == 103 {
                        assert(low@ =~= seq![112u8, 110u8, 103u8]);
                    } else if low@[0] == 106 && low@[1] == 112 && low@[2] == 103 {
                        assert(low@ =~= seq![106u8, 112u8, 103u8]);
                    } else if low@[0] == 98 && low@[1] == 109 && low@[2] == 112 {
                        assert(low@ =~= seq![98u8, 109u8, 112u8]);
                    } else {
                        assert(low@ =~= seq![103u8, 105u8, 102u8]);
                    }
                }
            } else {
                assert(supported_extension_spec(ext@)) by {
                    if low@[0] == 106 {
                        assert(low@ =~= seq![106u8, 112u8, 101u8, 103u8]);
                    } else {
                        assert(low@ =~= seq![119u8, 101u8, 98u8, 112u8]);
                    }
                }
            }
        } else {
            assert(!supported_extension_spec(ext@)) by {
                if supported_extension_spec(ext@) {
                    assert(false);
                }
            }
        }
    }
    r
}

} // verus!
