//! The mathematical model shared by the string, path and type interners.
//!
//! An interner is a pool: a sequence without duplicates. Interning a value
//! yields its position in the pool, appending the value first when the pool
//! does not hold it yet.

use vstd::prelude::*;

verus! {

/// The position of `x` in `pool`. Meaningful when the pool holds `x`.
pub open spec fn position<T>(pool: Seq<T>, x: T) -> int {
    choose|i: int| 0 <= i < pool.len() && pool[i] == x
}

/// The pool after interning `x`.
pub open spec fn pool_after<T>(pool: Seq<T>, x: T) -> Seq<T> {
    if pool.contains(x) {
        pool
    } else {
        pool.push(x)
    }
}

/// The index that interning `x` into `pool` yields.
pub open spec fn index_after<T>(pool: Seq<T>, x: T) -> int {
    if pool.contains(x) {
        position(pool, x)
    } else {
        pool.len() as int
    }
}

/// In a pool without duplicates a value has one position only.
pub proof fn lemma_position_unique<T>(pool: Seq<T>, x: T, i: int)
    requires
        pool.no_duplicates(),
        0 <= i < pool.len(),
        pool[i] == x,
    ensures
        pool.contains(x),
        position(pool, x) == i,
        index_after(pool, x) == i,
        pool_after(pool, x) == pool,
{
}

/// Interning keeps the pool free of duplicates, never moves what it already
/// holds, and yields an index at which the pool holds the value.
pub proof fn lemma_intern_sound<T>(pool: Seq<T>, x: T)
    requires
        pool.no_duplicates(),
    ensures
        pool_after(pool, x).no_duplicates(),
        pool.is_prefix_of(pool_after(pool, x)),
        0 <= index_after(pool, x) < pool_after(pool, x).len(),
        pool_after(pool, x)[index_after(pool, x)] == x,
{
    if !pool.contains(x) {
        let p = pool.push(x);
        assert forall|i: int, j: int| 0 <= i < p.len() && 0 <= j < p.len() && i != j implies p[i]
            != p[j] by {
            if i == pool.len() {
                assert(pool[j] == p[j]);
            } else if j == pool.len() {
                assert(pool[i] == p[i]);
            }
        }
    }
}

/// Intern identity: two values are interned to the same index exactly when
/// they are equal, whatever was interned between them.
pub proof fn lemma_intern_identity<T>(pool: Seq<T>, later: Seq<T>, x: T, y: T)
    requires
        pool.no_duplicates(),
        later.no_duplicates(),
        pool_after(pool, x).is_prefix_of(later),
    ensures
        (x == y) <==> index_after(pool, x) == index_after(later, y),
{
    lemma_intern_sound(pool, x);
    let i = index_after(pool, x);
    assert(later[i] == pool_after(pool, x)[i]);
    lemma_position_unique(later, x, i);
    if x != y {
        lemma_intern_sound(later, y);
        if later.contains(y) {
            assert(later[index_after(later, y)] == y);
        }
    }
}

} // verus!
