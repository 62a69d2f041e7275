//! Where a dragged entry may be dropped: the destination arithmetic of the
//! reordering protocol. Slots are zero-based positions on a page of `len`
//! entries; the dragged entry sits at slot `s`, and the `len - 1` other slots
//! are the destinations, ranked in page order and walked cyclically from the
//! current target.
use vstd::prelude::*;
use vstd::arithmetic::div_mod::{
    lemma_add_mod_noop_right, lemma_mod_bound, lemma_mod_equivalence,
    lemma_small_mod, lemma_sub_mod_noop,
};

verus! {

/// The slot of the destination of rank `k`: slot `s` is skipped.
pub open spec fn skip_slot(s: int, k: int) -> int {
    if k >= s {
        k + 1
    } else {
        k
    }
}

/// The rank of slot `j` among the slots other than `s`.
pub open spec fn rank(s: int, j: int) -> int {
    if j > s {
        j - 1
    } else {
        j
    }
}

/// `t` is a slot of a page of `len` entries other than `s`.
pub open spec fn is_other_slot(len: int, s: int, t: int) -> bool {
    0 <= t < len && t != s
}

/// Destination of moving down by `n` from the target at slot `j`, the
/// dragged entry sitting at slot `s`.
pub open spec fn dest_down(len: int, s: int, j: int, n: int) -> int {
    skip_slot(s, (rank(s, j) + n) % (len - 1))
}

/// Destination of moving up by `n` from the target at slot `j`, the
/// dragged entry sitting at slot `s`.
pub open spec fn dest_up(len: int, s: int, j: int, n: int) -> int {
    skip_slot(s, (rank(s, j) - n) % (len - 1))
}

/// The target after `i` successive single steps down from slot `j`.
pub open spec fn down_steps(len: int, s: int, j: int, i: nat) -> int
    decreases i,
{
    if i == 0 {
        j
    } else {
        dest_down(len, s, down_steps(len, s, j, (i - 1) as nat), 1)
    }
}

/// The first slot that is not `s`.
pub open spec fn first_valid(s: int) -> int {
    if s == 0 {
        1
    } else {
        0
    }
}

/// The last slot of a page of `len` that is not `s`.
pub open spec fn last_valid(len: int, s: int) -> int {
    if s == len - 1 {
        len - 2
    } else {
        len - 1
    }
}

fn mod_usize(x: usize, m: usize) -> (r: usize)
    requires
        m > 0,
    ensures
        r as int == (x as int) % (m as int),
        r < m,
{
    proof {
        lemma_mod_bound(x as int, m as int);
    }
    x % m
}

/// Destination slot of a move down by `n` from the target at slot `j`, on a
/// page of `len` entries whose dragged entry sits at slot `s`.
pub fn move_down_target(len: usize, s: usize, j: usize, n: u16) -> (r: usize)
    requires
        len >= 2,
        s < len,
        is_other_slot(len as int, s as int, j as int),
    ensures
        r == dest_down(len as int, s as int, j as int, n as int),
        is_other_slot(len as int, s as int, r as int),
{
    let l = len - 1;
    let a = if j > s {
        j - 1
    } else {
        j
    };
    let b = mod_usize(n as usize, l);
    let k = if a >= l - b {
        a - (l - b)
    } else {
        a + b
    };
    proof {
        lemma_add_mod_noop_right(a as int, n as int, l as int);
        if a >= l - b {
            lemma_small_mod((a + b - l) as nat, l as nat);
            vstd::arithmetic::div_mod::lemma_mod_sub_multiples_vanish((a + b) as int, l as int);
        } else {
            lemma_small_mod((a + b) as nat, l as nat);
        }
    }
    if k >= s {
        k + 1
    } else {
        k
    }
}

/// Destination slot of a move up by `n` from the target at slot `j`, on a
/// page of `len` entries whose dragged entry sits at slot `s`.
pub fn move_up_target(len: usize, s: usize, j: usize, n: u16) -> (r: usize)
    requires
        len >= 2,
        s < len,
        is_other_slot(len as int, s as int, j as int),
    ensures
        r == dest_up(len as int, s as int, j as int, n as int),
        is_other_slot(len as int, s as int, r as int),
{
    let l = len - 1;
    let a = if j > s {
        j - 1
    } else {
        j
    };
    let b = mod_usize(n as usize, l);
    let k = if a >= b {
        a - b
    } else {
        a + (l - b)
    };
    proof {
        lemma_small_mod(a as nat, l as nat);
        lemma_sub_mod_noop(a as int, n as int, l as int);
        if a >= b {
            lemma_small_mod((a - b) as nat, l as nat);
        } else {
            lemma_small_mod((a + l - b) as nat, l as nat);
            vstd::arithmetic::div_mod::lemma_mod_add_multiples_vanish(a - b, l as int);
        }
    }
    if k >= s {
        k + 1
    } else {
        k
    }
}

/// After `i` single steps down from slot `j`, the target is the slot of rank
/// `rank(j) + i`, counted cyclically.
pub proof fn lemma_down_steps(len: int, s: int, j: int, i: nat)
    requires
        len >= 2,
        0 <= s < len,
        is_other_slot(len, s, j),
    ensures
        down_steps(len, s, j, i) == skip_slot(s, (rank(s, j) + i) % (len - 1)),
        rank(s, down_steps(len, s, j, i)) == (rank(s, j) + i) % (len - 1),
    decreases i,
{
    let l = len - 1;
    let r = rank(s, j);
    lemma_mod_bound(r + i, l);
    if i == 0 {
        lemma_small_mod(r as nat, l as nat);
    } else {
        lemma_down_steps(len, s, j, (i - 1) as nat);
        lemma_mod_bound(r + i - 1, l);
        lemma_add_mod_noop_right(1, r + i - 1, l);
        assert(1 + (r + i - 1) == r + i);
    }
}

/// Moving down one step at a time from any target, `len - 1` successive
/// steps visit each slot other than the dragged entry's own exactly once,
/// the last of them returning to the starting target.
pub proof fn lemma_move_down_cycle(len: int, s: int, j: int)
    requires
        len >= 2,
        0 <= s < len,
        is_other_slot(len, s, j),
    ensures
        forall|i: nat| 1 <= i <= len - 1 ==> is_other_slot(len, s, #[trigger] down_steps(len, s, j, i)),
        forall|a: nat, b: nat|
            1 <= a < b <= len - 1 ==> #[trigger] down_steps(len, s, j, a) != #[trigger] down_steps(
                len,
                s,
                j,
                b,
            ),
        forall|t: int|
            #[trigger] is_other_slot(len, s, t) ==> exists|i: nat|
                1 <= i <= len - 1 && #[trigger] down_steps(len, s, j, i) == t,
        down_steps(len, s, j, (len - 1) as nat) == j,
{
    let l = len - 1;
    let r = rank(s, j);
    assert forall|i: nat| 1 <= i <= len - 1 implies is_other_slot(len, s, #[trigger] down_steps(len, s, j, i)) by {
        lemma_down_steps(len, s, j, i);
        lemma_mod_bound(r + i, l);
    }
    assert forall|a: nat, b: nat| 1 <= a < b <= len - 1 implies #[trigger] down_steps(len, s, j, a)
        != #[trigger] down_steps(len, s, j, b) by {
        lemma_down_steps(len, s, j, a);
        lemma_down_steps(len, s, j, b);
        lemma_mod_bound(r + a, l);
        lemma_mod_bound(r + b, l);
        lemma_mod_equivalence(r + b, r + a, l);
        if b - a < l {
            lemma_small_mod((b - a) as nat, l as nat);
        } else {
            assert(a == 0);
        }
        assert((r + b) - (r + a) == b - a);
    }
    assert forall|t: int| #[trigger] is_other_slot(len, s, t) implies exists|i: nat|
        1 <= i <= len - 1 && #[trigger] down_steps(len, s, j, i) == t by {
        let k = rank(s, t);
        lemma_mod_bound(k - r, l);
        let i0 = (k - r) % l;
        let i: nat = if i0 == 0 {
            l as nat
        } else {
            i0 as nat
        };
        lemma_down_steps(len, s, j, i);
        lemma_add_mod_noop_right(r, k - r, l);
        lemma_small_mod(k as nat, l as nat);
        if i0 == 0 {
            vstd::arithmetic::div_mod::lemma_mod_add_multiples_vanish(r, l);
            lemma_small_mod(r as nat, l as nat);
            assert((r + 0) % l == k);
            assert(r + i == l + r);
        }
        assert(down_steps(len, s, j, i) == t);
    }
    lemma_down_steps(len, s, j, (len - 1) as nat);
    vstd::arithmetic::div_mod::lemma_mod_add_multiples_vanish(r, l);
    lemma_small_mod(r as nat, l as nat);
    assert(r + (len - 1) == l + r);
}

/// The destinations wrap around at both ends: one step up from the first
/// destination reaches the last, one step down from the last reaches the first.
pub proof fn lemma_move_wrap(len: int, s: int)
    requires
        len >= 2,
        0 <= s < len,
    ensures
        dest_up(len, s, first_valid(s), 1) == last_valid(len, s),
        dest_down(len, s, last_valid(len, s), 1) == first_valid(s),
{
    let l = len - 1;
    vstd::arithmetic::div_mod::lemma_mod_add_multiples_vanish(-1, l);
    lemma_small_mod((l - 1) as nat, l as nat);
    assert((0 - 1) % l == l - 1);
    vstd::arithmetic::div_mod::lemma_mod_self_0(l);
    assert((l - 1 + 1) % l == 0);
}

} // verus!
