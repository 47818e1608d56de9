use vstd::arithmetic::div_mod::*;
use vstd::prelude::*;

verus! {

/// Most content bytes moved in one step of a transfer.
pub const CHUNK_CAPACITY: u64 = 4000;

/// `total / cap`, rounded up.
pub open spec fn ceil_div(total: nat, cap: nat) -> nat {
    if total % cap == 0 {
        total / cap
    } else {
        total / cap + 1
    }
}

/// The sizes of the chunks that `total` bytes are cut into when every
/// chunk takes as much as `cap` allows.
pub open spec fn chunk_sizes(total: nat, cap: nat) -> Seq<nat>
    decreases total,
{
    if cap == 0 || total == 0 {
        seq![]
    } else if total <= cap {
        seq![total]
    } else {
        seq![cap] + chunk_sizes((total - cap) as nat, cap)
    }
}

/// The sum of a sequence of sizes.
pub open spec fn total_of(s: Seq<nat>) -> nat
    decreases s.len(),
{
    if s.len() == 0 {
        0
    } else {
        s[0] + total_of(s.drop_first())
    }
}

/// The number of steps that moving `total` bytes takes, `capacity` bytes
/// at most per step.
pub fn sections_needed(total: u64, capacity: u64) -> (r: u64)
    requires
        capacity > 0,
    ensures
        r == ceil_div(total as nat, capacity as nat),
{
    let whole = total / capacity;
    if total % capacity == 0 {
        whole
    } else {
        proof {
            lemma_fundamental_div_mod(total as int, capacity as int);
            assert(whole < u64::MAX) by (nonlinear_arith)
                requires
                    total == capacity * whole + total % capacity,
                    total % capacity > 0,
                    capacity > 0,
                    total <= u64::MAX,
                    whole >= 0,
            ;
        }
        whole + 1
    }
}

/// Taking one full chunk off `total` takes one step off the count and
/// leaves the remainder as it was.
proof fn lemma_ceil_div_step(total: nat, cap: nat)
    requires
        cap > 0,
        total > cap,
    ensures
        ceil_div(total, cap) == ceil_div((total - cap) as nat, cap) + 1,
        ((total - cap) as nat) % cap == total % cap,
{
    let q = (total / cap) as int;
    let r = (total % cap) as int;
    lemma_fundamental_div_mod(total as int, cap as int);
    assert(q >= 1) by (nonlinear_arith)
        requires
            total == cap * q + r,
            0 <= r < cap,
            total > cap,
    ;
    assert(total - cap == (q - 1) * cap + r) by (nonlinear_arith)
        requires
            total == cap * q + r,
    ;
    lemma_fundamental_div_mod_converse((total - cap) as int, cap as int, q - 1, r);
}

/// Cutting `total` bytes into chunks of at most `cap` bytes gives
/// `ceil(total / cap)` chunks, whose sizes add up to `total`; no bytes give
/// no chunks.
pub proof fn lemma_chunk_count_and_sum(total: nat, cap: nat)
    requires
        cap > 0,
    ensures
        chunk_sizes(total, cap).len() == ceil_div(total, cap),
        total_of(chunk_sizes(total, cap)) == total,
        total == 0 ==> chunk_sizes(total, cap).len() == 0,
    decreases total,
{
    let s = chunk_sizes(total, cap);
    if total == 0 {
        lemma_fundamental_div_mod_converse(0, cap as int, 0, 0);
    } else if total < cap {
        lemma_fundamental_div_mod_converse(total as int, cap as int, 0, total as int);
        assert(s.drop_first() =~= seq![]);
        assert(total_of(s.drop_first()) == 0);
    } else if total == cap {
        lemma_fundamental_div_mod_converse(total as int, cap as int, 1, 0);
        assert(s.drop_first() =~= seq![]);
        assert(total_of(s.drop_first()) == 0);
    } else {
        lemma_chunk_count_and_sum((total - cap) as nat, cap);
        lemma_ceil_div_step(total, cap);
        assert(s.drop_first() =~= chunk_sizes((total - cap) as nat, cap));
    }
}

/// Every chunk but the last is full, and none is empty. The last one holds
/// `total mod cap` bytes, or a full `cap` where `cap` divides `total`.
pub proof fn lemma_chunk_shape(total: nat, cap: nat)
    requires
        cap > 0,
        total > 0,
    ensures
        chunk_sizes(total, cap).len() > 0,
        forall|i: int|
            0 <= i < chunk_sizes(total, cap).len() - 1 ==> #[trigger] chunk_sizes(total, cap)[i]
                == cap,
        forall|i: int|
            0 <= i < chunk_sizes(total, cap).len() ==> #[trigger] chunk_sizes(total, cap)[i] > 0,
        chunk_sizes(total, cap).last() == if total % cap == 0 {
            cap
        } else {
            total % cap
        },
    decreases total,
{
    let s = chunk_sizes(total, cap);
    if total < cap {
        lemma_fundamental_div_mod_converse(total as int, cap as int, 0, total as int);
    } else if total == cap {
        lemma_fundamental_div_mod_converse(total as int, cap as int, 1, 0);
    } else {
        let rest = chunk_sizes((total - cap) as nat, cap);
        lemma_chunk_shape((total - cap) as nat, cap);
        lemma_ceil_div_step(total, cap);
        assert forall|i: int| 0 <= i < s.len() - 1 implies #[trigger] s[i] == cap by {
            if i > 0 {
                assert(s[i] == rest[i - 1]);
            }
        }
        assert forall|i: int| 0 <= i < s.len() implies #[trigger] s[i] > 0 by {
            if i > 0 {
                assert(s[i] == rest[i - 1]);
            }
        }
    }
}

} // verus!
