//! Fixed-size arrays given entry by entry, for use in specifications.

use vstd::prelude::*;

verus! {

/// The array whose entry `i` is `f(i)`.
#[verifier::opaque]
pub open spec fn arr3<T>(f: spec_fn(int) -> T) -> [T; 3] {
    [f(0), f(1), f(2)]
}

/// The array whose entry `i` is `f(i)`.
#[verifier::opaque]
pub open spec fn arr5<T>(f: spec_fn(int) -> T) -> [T; 5] {
    [f(0), f(1), f(2), f(3), f(4)]
}

/// The array whose entry `i` is `f(i)`.
#[verifier::opaque]
pub open spec fn arr6<T>(f: spec_fn(int) -> T) -> [T; 6] {
    [f(0), f(1), f(2), f(3), f(4), f(5)]
}

/// The array whose entry `i` is `f(i)`.
#[verifier::opaque]
pub open spec fn arr8<T>(f: spec_fn(int) -> T) -> [T; 8] {
    [f(0), f(1), f(2), f(3), f(4), f(5), f(6), f(7)]
}

pub broadcast proof fn lemma_arr3_index<T>(f: spec_fn(int) -> T, i: int)
    requires
        0 <= i < 3,
    ensures
        #[trigger] arr3(f)[i] == f(i),
{
    reveal(arr3);
}

pub broadcast proof fn lemma_arr5_index<T>(f: spec_fn(int) -> T, i: int)
    requires
        0 <= i < 5,
    ensures
        #[trigger] arr5(f)[i] == f(i),
{
    reveal(arr5);
}

pub broadcast proof fn lemma_arr6_index<T>(f: spec_fn(int) -> T, i: int)
    requires
        0 <= i < 6,
    ensures
        #[trigger] arr6(f)[i] == f(i),
{
    reveal(arr6);
}

pub broadcast proof fn lemma_arr8_index<T>(f: spec_fn(int) -> T, i: int)
    requires
        0 <= i < 8,
    ensures
        #[trigger] arr8(f)[i] == f(i),
{
    reveal(arr8);
}

/// Entry `i` of a built array is `f(i)`.
pub broadcast group group_built_arrays {
    lemma_arr3_index,
    lemma_arr5_index,
    lemma_arr6_index,
    lemma_arr8_index,
}

/// The wall whose cell `(row, col)` is `f(row, col)`.
pub open spec fn wall_of(f: spec_fn(int, int) -> bool) -> [[bool; 5]; 5] {
    arr5(|r: int| arr5(|c: int| f(r, c)))
}

/// The pool whose display `d` holds `f(d, c)` tiles of colour `c`.
pub open spec fn pool_of(f: spec_fn(int, int) -> u8) -> [[u8; 6]; 8] {
    arr8(|d: int| arr6(|c: int| f(d, c)))
}

/// Two walls with the same cells are the same wall.
pub proof fn lemma_wall_ext(a: [[bool; 5]; 5], b: [[bool; 5]; 5])
    requires
        forall|r: int, c: int| 0 <= r < 5 && 0 <= c < 5 ==> a[r][c] == b[r][c],
    ensures
        a == b,
{
    assert forall|r: int| 0 <= r < 5 implies a[r] == b[r] by {
        assert(a[r] =~= b[r]);
    }
    assert(a =~= b);
}

/// Two pools with the same counts are the same pool.
pub proof fn lemma_pool_ext(a: [[u8; 6]; 8], b: [[u8; 6]; 8])
    requires
        forall|d: int, c: int| 0 <= d < 8 && 0 <= c < 6 ==> a[d][c] == b[d][c],
    ensures
        a == b,
{
    assert forall|d: int| 0 <= d < 8 implies a[d] == b[d] by {
        assert(a[d] =~= b[d]);
    }
    assert(a =~= b);
}

} // verus!
