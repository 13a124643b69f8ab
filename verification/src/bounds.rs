//! Normalization of possibly-negative, possibly-out-of-range offsets into
//! valid container offsets, and of bound pairs into `(skip, take)` slice
//! descriptors.

use vstd::prelude::*;

verus! {

/// Resolve a signed offset against a container length: a non-negative
/// offset passes through unchanged (even past `len`), a negative offset
/// counts back from the end, and a negative offset reaching past the
/// front resolves to nothing.
pub open spec fn spec_wrap(i: int, len: int) -> Option<int> {
    if i >= 0 {
        Some(i)
    } else if len + i >= 0 {
        Some(len + i)
    } else {
        None
    }
}

/// `spec_wrap`, further filtered to offsets that hit an existing slot.
pub open spec fn spec_abs_index(i: int, len: int) -> Option<int> {
    match spec_wrap(i, len) {
        Some(u) => if u < len {
            Some(u)
        } else {
            None
        },
        None => None,
    }
}

/// Resolve an optional range bound: absent bounds take `default`, present
/// bounds are resolved by `spec_wrap` and clamped into `[0, len]`
/// (underflow clamps to 0).
pub open spec fn spec_abs_bound(i: Option<int>, len: int, default: int) -> int {
    match i {
        Some(b) => {
            let abs = match spec_wrap(b, len) {
                Some(u) => u,
                None => 0,
            };
            if abs <= len {
                abs
            } else {
                len
            }
        },
        None => default,
    }
}

/// Slice descriptor for the half-open range `[from, until)`: skip `from`
/// elements, then take `until - from` (or nothing when the range is
/// empty or reversed).
pub open spec fn spec_skip_take(from: int, until: int) -> (int, int) {
    (from, if until > from {
        until - from
    } else {
        0
    })
}

/// Absolutise a signed offset against `len`; see `spec_wrap`.
pub fn wrap(i: isize, len: usize) -> (r: Option<usize>)
    ensures
        i >= 0 ==> r == Some(i as usize),
        i < 0 && (len as int + i as int) >= 0 ==> r == Some((len as int + i as int) as usize),
        i < 0 && (len as int + i as int) < 0 ==> r is None,
        r == match spec_wrap(i as int, len as int) {
            Some(u) => Some(u as usize),
            None => None::<usize>,
        },
{
    if i >= 0 {
        Some(i as usize)
    } else {
        let s: i128 = len as i128 + i as i128;
        if s < 0 {
            None
        } else {
            assert(0 <= s <= len as int);
            Some(s as usize)
        }
    }
}

/// Absolutise an index and keep it only if it lands inside `[0, len)`.
pub fn abs_index(i: isize, len: usize) -> (r: Option<usize>)
    ensures
        r == match spec_abs_index(i as int, len as int) {
            Some(u) => Some(u as usize),
            None => None::<usize>,
        },
{
    match wrap(i, len) {
        Some(u) => if u < len {
            Some(u)
        } else {
            None
        },
        None => None,
    }
}

/// If a range bound is given, absolutise and clip it between 0 and `len`,
/// else return `default`.
pub fn abs_bound(i: Option<isize>, len: usize, default: usize) -> (r: usize)
    ensures
        r as int == spec_abs_bound(
            match i {
                Some(b) => Some(b as int),
                None => None::<int>,
            },
            len as int,
            default as int,
        ),
{
    match i {
        Some(b) => {
            let abs: usize = match wrap(b, len) {
                Some(u) => u,
                None => 0,
            };
            if abs <= len {
                abs
            } else {
                len
            }
        },
        None => default,
    }
}

/// Turn a `[from, until)` bound pair into a `(skip, take)` descriptor:
/// `until <= from` takes nothing, else `take == until - from`.
pub fn skip_take(from: usize, until: usize) -> (r: (usize, usize))
    ensures
        r.0 == from,
        until <= from ==> r.1 == 0,
        until > from ==> r.1 == until - from,
        (r.0 as int, r.1 as int) == spec_skip_take(from as int, until as int),
{
    (from, if until > from {
        until - from
    } else {
        0
    })
}

} // verus!
