//! URI path segment normalization.
//!
//! Request paths are split into segments by the HTTP layer; segments are
//! vetted byte-wise before they may touch the file system: `..` pops, empty
//! segments vanish, and segments with suspicious first or last characters
//! are rejected with the offending character.

use crate::error::UriSegmentError;
use vstd::prelude::*;
use vstd::slice::slice_to_vec;

verus! {

/// What one segment does to the stack of accepted segments: `..` pops,
/// an empty segment is skipped, a bad segment rejects the path, anything
/// else is pushed.
pub open spec fn seg_step(acc: Seq<Seq<u8>>, seg: Seq<u8>) -> Result<
    Seq<Seq<u8>>,
    UriSegmentError,
> {
    if seg == seq![46u8, 46u8] {
        Ok(
            if acc.len() > 0 {
                acc.drop_last()
            } else {
                acc
            },
        )
    } else if seg.len() > 0 && seg[0] == 46 {
        Err(UriSegmentError::BadStart('.'))
    } else if seg.len() > 0 && seg[0] == 42 {
        Err(UriSegmentError::BadStart('*'))
    } else if seg.len() > 0 && seg.last() == 58 {
        Err(UriSegmentError::BadEnd(':'))
    } else if seg.len() > 0 && seg.last() == 62 {
        Err(UriSegmentError::BadEnd('>'))
    } else if seg.len() > 0 && seg.last() == 60 {
        Err(UriSegmentError::BadEnd('<'))
    } else if seg.len() == 0 {
        Ok(acc)
    } else {
        Ok(acc.push(seg))
    }
}

/// Folding `seg_step` over the remaining segments, from `acc`.
pub open spec fn normalize_from(acc: Seq<Seq<u8>>, segs: Seq<Seq<u8>>) -> Result<
    Seq<Seq<u8>>,
    UriSegmentError,
>
    decreases segs.len(),
{
    if segs.len() == 0 {
        Ok(acc)
    } else {
        match seg_step(acc, segs[0]) {
            Ok(acc2) => normalize_from(acc2, segs.skip(1)),
            Err(e) => Err(e),
        }
    }
}

/// The normalized segments of a path, or its first offending segment.
pub open spec fn normalized(segs: Seq<Seq<u8>>) -> Result<Seq<Seq<u8>>, UriSegmentError> {
    normalize_from(Seq::empty(), segs)
}

/// Normalize the segments of a request path.
pub fn normalize_segments(segs: &Vec<Vec<u8>>) -> (r: Result<Vec<Vec<u8>>, UriSegmentError>)
    ensures
        match (r, normalized(segs.deep_view())) {
            (Ok(v), Ok(s)) => v.deep_view() == s,
            (Err(e1), Err(e2)) => e1 == e2,
            _ => false,
        },
{
    let ghost all = segs.deep_view();
    let mut acc: Vec<Vec<u8>> = Vec::new();
    let mut i: usize = 0;
    proof {
        assert(acc.deep_view() =~= Seq::<Seq<u8>>::empty());
        assert(all.skip(0) =~= all);
    }
    while i < segs.len()
        invariant
            i <= segs@.len(),
            all == segs.deep_view(),
            normalize_from(acc.deep_view(), all.skip(i as int)) == normalized(all),
        decreases segs@.len() - i,
    {
        let seg: &Vec<u8> = &segs[i];
        let ghost rest = all.skip(i as int);
        proof {
            assert(rest[0] == seg@);
            assert(rest.skip(1) =~= all.skip(i + 1));
        }
        let n = seg.len();
        if n == 2 && seg[0] == 46 && seg[1] == 46 {
            proof {
                assert(seg@ =~= seq![46u8, 46u8]);
            }
            let ghost acc0 = acc.deep_view();
            if acc.len() > 0 {
                acc.pop();
                proof {
                    assert(acc.deep_view() =~= acc0.drop_last());
                }
            }
        } else {
            proof {
                assert(seg@ != seq![46u8, 46u8]);
            }
            if n > 0 && seg[0] == 46 {
                return Err(UriSegmentError::BadStart('.'));
            }
            if n > 0 && seg[0] == 42 {
                return Err(UriSegmentError::BadStart('*'));
            }
            if n > 0 && seg[n - 1] == 58 {
                return Err(UriSegmentError::BadEnd(':'));
            }
            if n > 0 && seg[n - 1] == 62 {
                return Err(UriSegmentError::BadEnd('>'));
            }
            if n > 0 && seg[n - 1] == 60 {
                return Err(UriSegmentError::BadEnd('<'));
            }
            if n > 0 {
                let ghost acc0 = acc.deep_view();
                acc.push(slice_to_vec(seg.as_slice()));
                proof {
                    assert(acc.deep_view() =~= acc0.push(seg@));
                }
            }
        }
        i += 1;
    }
    proof {
        assert(all.skip(i as int) =~= Seq::<Seq<u8>>::empty());
    }
    Ok(acc)
}

} // verus!
