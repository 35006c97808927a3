//! The layout of a fence: posts stand on its points, each turned from the
//! point before it towards the point after it, and boards join neighbouring
//! posts.

use vstd::prelude::*;

verus! {

/// The posts before and after post `i` of a ring of `n` posts: the first
/// post follows the last.
pub fn ring_neighbours(n: usize, i: usize) -> (r: (usize, usize))
    requires
        i < n,
    ensures
        r.0 == (i + n - 1) % (n as int),
        r.1 == (i + 1) % (n as int),
{
    let prev = if i == 0 { n - 1 } else { i - 1 };
    let next = if i == n - 1 { 0 } else { i + 1 };
    proof {
        if i == 0 {
            assert((i + n - 1) % (n as int) == n - 1) by (nonlinear_arith)
                requires i == 0, n > 0 {}
        } else {
            assert((i + n - 1) % (n as int) == i - 1) by (nonlinear_arith)
                requires 0 < i < n {}
        }
        if i == n - 1 {
            assert((i + 1) % (n as int) == 0) by (nonlinear_arith)
                requires i == n - 1, n > 0 {}
        } else {
            assert((i + 1) % (n as int) == i + 1) by (nonlinear_arith)
                requires i + 1 < n {}
        }
    }
    (prev, next)
}

/// How many boards join the posts of a fence of `n` posts.
pub open spec fn board_count(n: int, enclosed: bool) -> int {
    if n == 0 {
        0
    } else if enclosed {
        n
    } else {
        n - 1
    }
}

/// The `k`-th pair of posts that a board joins: in post order, each post
/// with the one before it; an enclosed fence starts with the last post and
/// the first.
pub open spec fn board_pair(n: int, enclosed: bool, k: int) -> (int, int) {
    if enclosed {
        if k == 0 {
            (n - 1, 0)
        } else {
            (k - 1, k)
        }
    } else {
        (k, k + 1)
    }
}

/// The pairs of posts that boards join, in the order the boards are made.
pub fn board_pairs(n: usize, enclosed: bool) -> (r: Vec<(usize, usize)>)
    ensures
        r@.len() == board_count(n as int, enclosed),
        forall|k: int| 0 <= k < r@.len() ==> (#[trigger] r@[k]).0 == board_pair(n as int, enclosed, k).0
            && r@[k].1 == board_pair(n as int, enclosed, k).1,
{
    let mut pairs: Vec<(usize, usize)> = Vec::new();
    let mut last: Option<usize> = None;
    let mut index: usize = 0;
    while index < n
        invariant
            index <= n,
            last == (if index == 0 { None::<usize> } else { Some((index - 1) as usize) }),
            pairs@.len() == (if index == 0 { 0 } else { board_count(index as int, enclosed) }),
            forall|k: int| 0 <= k < pairs@.len() ==> (#[trigger] pairs@[k]).0 == board_pair(n as int, enclosed, k).0
                && pairs@[k].1 == board_pair(n as int, enclosed, k).1,
        decreases n - index,
    {
        let to_connect = match last {
            Some(l) => Some((l, index)),
            None => if enclosed { Some((n - 1, index)) } else { None },
        };
        match to_connect {
            Some(pair) => {
                pairs.push(pair);
            },
            None => {},
        }
        last = Some(index);
        index += 1;
    }
    pairs
}

} // verus!
