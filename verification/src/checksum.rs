//! The Internet checksum: the 16-bit ones'-complement sum of all 16-bit
//! big-endian words of a buffer (an odd trailing byte is padded with a zero low
//! byte), with end-around carries folded back in, finally complemented.

use vstd::arithmetic::div_mod::{
    lemma_add_mod_noop, lemma_fundamental_div_mod, lemma_mod_multiples_vanish,
    lemma_mod_self_0, lemma_small_mod, lemma_sub_mod_noop,
};
use vstd::prelude::*;

verus! {

/// The plain sum of the 16-bit big-endian words of `s`, carries not yet folded.
pub open spec fn word_sum(s: Seq<u8>) -> nat
    decreases s.len(),
{
    if s.len() == 0 {
        0
    } else if s.len() == 1 {
        (s[0] as nat) * 256
    } else {
        (s[0] as nat) * 256 + (s[1] as nat) + word_sum(s.skip(2))
    }
}

/// Fold the end-around carries of a ones'-complement sum: while the value does
/// not fit in 16 bits, add its upper bits back into its lower 16 bits.
pub open spec fn fold_carries(n: nat) -> nat
    decreases n,
{
    if n <= 0xFFFF {
        n
    } else {
        fold_carries((n % 0x10000 + n / 0x10000) as nat)
    }
}

/// The checksum of a buffer: the complement of its folded word sum.
pub open spec fn spec_checksum(s: Seq<u8>) -> u16 {
    (0xFFFF - fold_carries(word_sum(s))) as u16
}

/// A received buffer passes the checksum test when its word sum (checksum field
/// included) folds to `0xFFFF`, that is, when the recomputed checksum is zero.
pub open spec fn checksum_ok(s: Seq<u8>) -> bool {
    fold_carries(word_sum(s)) == 0xFFFF
}

/// One folding step keeps the folded value, by definition of `fold_carries`.
proof fn lemma_fold_step(n: nat)
    requires
        n > 0xFFFF,
    ensures
        fold_carries((n % 0x10000 + n / 0x10000) as nat) == fold_carries(n),
{
}

/// Folding computes the representative of `n` modulo `0xFFFF` that lies in
/// `1 ..= 0xFFFF`, except that `0` stays `0`.
proof fn lemma_fold_closed_form(n: nat)
    ensures
        fold_carries(n) == (if n == 0 {
            0nat
        } else {
            ((n - 1) % 0xFFFF + 1) as nat
        }),
    decreases n,
{
    if n <= 0xFFFF {
        if n > 0 {
            lemma_small_mod((n - 1) as nat, 0xFFFF);
        }
    } else {
        lemma_fundamental_div_mod(n as int, 0x10000);
        let q = n as int / 0x10000;
        let m = (n % 0x10000 + n / 0x10000) as nat;
        assert(m == n - 0xFFFF * q);
        assert(q >= 1) by {
            if q <= 0 {
                assert(n as int == q * 0x10000 + n as int % 0x10000);
                assert(q * 0x10000 <= 0);
            }
        }
        assert(m < n);
        lemma_fold_closed_form(m);
        assert(m >= 1);
        lemma_mod_multiples_vanish(-q, n - 1, 0xFFFF);
        assert((0xFFFF * (-q) + (n - 1)) % 0xFFFF == (n - 1) % 0xFFFF);
        assert(m - 1 == 0xFFFF * (-q) + (n - 1));
    }
}

/// The folded value never exceeds `0xFFFF`.
proof fn lemma_fold_bound(n: nat)
    ensures
        fold_carries(n) <= 0xFFFF,
{
    lemma_fold_closed_form(n);
}

/// The folded value is congruent to the value itself modulo `0xFFFF`.
proof fn lemma_fold_congruence(n: nat)
    ensures
        fold_carries(n) % 0xFFFF == n % 0xFFFF,
{
    lemma_fold_closed_form(n);
    if n > 0 {
        let f = fold_carries(n);
        assert(f == (n - 1) % 0xFFFF + 1);
        lemma_mod_multiples_vanish(-((n as int - 1) / 0xFFFF), n - 1, 0xFFFF);
        lemma_fundamental_div_mod(n as int - 1, 0xFFFF);
        assert(f - 1 == (n - 1) - 0xFFFF * ((n as int - 1) / 0xFFFF));
    }
}

/// A word sum folds to `0xFFFF` exactly when it is positive and divisible by
/// `0xFFFF`.
proof fn lemma_fold_full(n: nat)
    ensures
        (fold_carries(n) == 0xFFFF) <==> (n > 0 && n % 0xFFFF == 0),
{
    lemma_fold_closed_form(n);
    if n > 0 {
        lemma_fundamental_div_mod(n as int - 1, 0xFFFF);
        lemma_fundamental_div_mod(n as int, 0xFFFF);
        if (n - 1) % 0xFFFF == 0xFFFE {
            lemma_mod_multiples_vanish(-((n as int - 1) / 0xFFFF), n - 1, 0xFFFF);
            assert(((n - 1) - 0xFFFF * ((n as int - 1) / 0xFFFF)) % 0xFFFF == (n - 1) % 0xFFFF);
            lemma_small_mod(0xFFFE, 0xFFFF);
            assert(n % 0xFFFF == ((n - 1) % 0xFFFF + 1) % 0xFFFF) by {
                lemma_add_mod_noop(n as int - 1, 1, 0xFFFF);
                lemma_small_mod(1, 0xFFFF);
            }
            lemma_mod_self_0(0xFFFF);
        } else {
            if n % 0xFFFF == 0 {
                lemma_add_mod_noop(n as int - 1, 1, 0xFFFF);
                lemma_small_mod(1, 0xFFFF);
                assert((n - 1) % 0xFFFF + 1 < 0xFFFF + 1);
                if (n - 1) % 0xFFFF + 1 < 0xFFFF {
                    lemma_small_mod(((n - 1) % 0xFFFF + 1) as nat, 0xFFFF);
                }
            }
        }
    }
}

/// Equal folded values stay equal when the same amount is added to both sums.
proof fn lemma_fold_add(a: nat, b: nat, c: nat)
    requires
        fold_carries(a) == fold_carries(b),
    ensures
        fold_carries(a + c) == fold_carries(b + c),
{
    lemma_fold_closed_form(a);
    lemma_fold_closed_form(b);
    lemma_fold_closed_form(a + c);
    lemma_fold_closed_form(b + c);
    if a == 0 || b == 0 {
        assert(a == b);
    } else {
        assert((a - 1) % 0xFFFF == (b - 1) % 0xFFFF);
        lemma_add_mod_noop(a as int - 1, c as int, 0xFFFF);
        lemma_add_mod_noop(b as int - 1, c as int, 0xFFFF);
        assert((a + c - 1) % 0xFFFF == (b + c - 1) % 0xFFFF);
    }
}

/// The word sum distributes over concatenation at an even boundary.
proof fn lemma_word_sum_append(a: Seq<u8>, b: Seq<u8>)
    requires
        a.len() % 2 == 0,
    ensures
        word_sum(a + b) == word_sum(a) + word_sum(b),
    decreases a.len(),
{
    if a.len() == 0 {
        assert(a + b =~= b);
    } else {
        assert((a + b).skip(2) =~= a.skip(2) + b);
        lemma_word_sum_append(a.skip(2), b);
        if b.len() == 0 {
            assert(a + b =~= a);
        } else {
            assert((a + b).len() >= 2);
            assert((a + b)[0] == a[0] && (a + b)[1] == a[1]);
        }
    }
}

/// Stepping a word sum over the next two bytes of a buffer.
proof fn lemma_word_sum_take_step(s: Seq<u8>, i: int)
    requires
        0 <= i,
        i % 2 == 0,
        i + 2 <= s.len(),
    ensures
        word_sum(s.take(i + 2)) == word_sum(s.take(i)) + (s[i] as nat) * 256 + (s[i + 1] as nat),
{
    let two = seq![s[i], s[i + 1]];
    assert(s.take(i + 2) =~= s.take(i) + two);
    lemma_word_sum_append(s.take(i), two);
    assert(word_sum(two) == (s[i] as nat) * 256 + (s[i + 1] as nat)) by {
        assert(two.skip(2) =~= Seq::<u8>::empty());
        assert(word_sum(Seq::<u8>::empty()) == 0);
    }
}

/// A trailing odd byte contributes its value shifted into the high half.
proof fn lemma_word_sum_take_last(s: Seq<u8>, i: int)
    requires
        0 <= i,
        i % 2 == 0,
        i + 1 == s.len(),
    ensures
        word_sum(s) == word_sum(s.take(i)) + (s[i] as nat) * 256,
{
    let one = seq![s[i]];
    assert(s =~= s.take(i) + one);
    lemma_word_sum_append(s.take(i), one);
}

/// Computes the Internet checksum of `data`: the complement of the folded
/// ones'-complement sum of its big-endian 16-bit words.
pub fn compute_checksum(data: &Vec<u8>) -> (r: u16)
    ensures
        r == spec_checksum(data@),
{
    let n = data.len();
    let mut sum: u32 = 0;
    let mut i: usize = 0;
    while n - i >= 2
        invariant
            i <= n,
            i % 2 == 0,
            n == data@.len(),
            sum <= 0x1FFFE,
            fold_carries(sum as nat) == fold_carries(word_sum(data@.take(i as int))),
        decreases n - i,
    {
        let w: u32 = (data[i] as u32) * 256 + (data[i + 1] as u32);
        let raw: u32 = sum + w;
        proof {
            lemma_word_sum_take_step(data@, i as int);
            lemma_fold_add(sum as nat, word_sum(data@.take(i as int)), w as nat);
            if raw > 0xFFFF {
                lemma_fold_step(raw as nat);
                lemma_fundamental_div_mod(raw as int, 0x10000);
            }
        }
        sum = if raw > 0xFFFF {
            raw % 0x10000 + raw / 0x10000
        } else {
            raw
        };
        i = i + 2;
    }
    if n - i == 1 {
        let w: u32 = (data[i] as u32) * 256;
        let raw: u32 = sum + w;
        proof {
            lemma_word_sum_take_last(data@, i as int);
            lemma_fold_add(sum as nat, word_sum(data@.take(i as int)), w as nat);
            if raw > 0xFFFF {
                lemma_fold_step(raw as nat);
                lemma_fundamental_div_mod(raw as int, 0x10000);
            }
        }
        sum = if raw > 0xFFFF {
            raw % 0x10000 + raw / 0x10000
        } else {
            raw
        };
    }
    proof {
        assert(data@.take(n as int) =~= data@);
    }
    if sum > 0xFFFF {
        proof {
            lemma_fold_step(sum as nat);
            lemma_fundamental_div_mod(sum as int, 0x10000);
        }
        sum = sum % 0x10000 + sum / 0x10000;
    }
    if sum > 0xFFFF {
        proof {
            lemma_fold_step(sum as nat);
            lemma_fundamental_div_mod(sum as int, 0x10000);
        }
        sum = sum % 0x10000 + sum / 0x10000;
    }
    0xFFFFu16 - (sum as u16)
}

/// Tests a received buffer: the sum over all bytes, checksum field included,
/// must fold to `0xFFFF`, that is, the recomputed checksum must be zero.
pub fn checksum_valid(data: &Vec<u8>) -> (r: bool)
    ensures
        r == checksum_ok(data@),
{
    proof {
        lemma_fold_bound(word_sum(data@));
    }
    compute_checksum(data) == 0
}


/// Law: a buffer that passes the checksum test fails it after any single byte
/// is changed, whichever byte it is.
pub proof fn lemma_checksum_detects_byte_change(b1: Seq<u8>, b2: Seq<u8>, i: int)
    requires
        b1.len() == b2.len(),
        0 <= i < b1.len(),
        b1[i] != b2[i],
        forall|j: int| 0 <= j < b1.len() && j != i ==> b1[j] == b2[j],
        checksum_ok(b1),
    ensures
        !checksum_ok(b2),
{
    lemma_word_sum_split_one(b1, b2, i);
    let s1 = word_sum(b1) as int;
    let s2 = word_sum(b2) as int;
    lemma_fold_full(word_sum(b1));
    lemma_fold_full(word_sum(b2));
    if checksum_ok(b2) {
        lemma_small_mod(0, 0xFFFF);
        if s2 > s1 {
            lemma_sub_mod_noop(s2, s1, 0xFFFF);
            lemma_small_mod((s2 - s1) as nat, 0xFFFF);
        } else {
            lemma_sub_mod_noop(s1, s2, 0xFFFF);
            lemma_small_mod((s1 - s2) as nat, 0xFFFF);
        }
        assert(false);
    }
}

/// The word sums of two buffers that differ in exactly one byte differ by that
/// byte's weighted difference: a nonzero amount strictly between `-0xFFFF` and
/// `0xFFFF`.
proof fn lemma_word_sum_split_one(b1: Seq<u8>, b2: Seq<u8>, i: int)
    requires
        b1.len() == b2.len(),
        0 <= i < b1.len(),
        b1[i] != b2[i],
        forall|j: int| 0 <= j < b1.len() && j != i ==> b1[j] == b2[j],
    ensures
        (word_sum(b2) as int) - (word_sum(b1) as int) == (if i % 2 == 0 {
            ((b2[i] as int) - (b1[i] as int)) * 256
        } else {
            (b2[i] as int) - (b1[i] as int)
        }),
        word_sum(b2) != word_sum(b1),
        (word_sum(b2) as int) - (word_sum(b1) as int) < 0xFFFF,
        (word_sum(b1) as int) - (word_sum(b2) as int) < 0xFFFF,
{
    let k = 2 * (i / 2);
    assert(k <= i < k + 2);
    lemma_word_sum_append(b1.take(k), b1.skip(k));
    lemma_word_sum_append(b2.take(k), b2.skip(k));
    assert(b1.take(k) + b1.skip(k) =~= b1);
    assert(b2.take(k) + b2.skip(k) =~= b2);
    assert(b1.take(k) =~= b2.take(k));
    let t1 = b1.skip(k);
    let t2 = b2.skip(k);
    if t1.len() == 1 {
        assert(i == k);
        assert(word_sum(t1) == (b1[i] as nat) * 256);
        assert(word_sum(t2) == (b2[i] as nat) * 256);
    } else {
        assert(t1.skip(2) =~= t2.skip(2));
        if i == k {
            assert(t1[1] == t2[1]);
        } else {
            assert(i == k + 1);
            assert(t1[0] == t2[0]);
        }
    }
}

/// Writing the buffer's own checksum into a zeroed aligned 16-bit field makes
/// the whole buffer pass the checksum test.
pub proof fn lemma_checksum_insert(z: Seq<u8>, p: int, hi: u8, lo: u8)
    requires
        0 <= p,
        p % 2 == 0,
        p + 2 <= z.len(),
        z[p] == 0,
        z[p + 1] == 0,
        (hi as nat) * 256 + (lo as nat) == spec_checksum(z),
    ensures
        checksum_ok(z.update(p, hi).update(p + 1, lo)),
{
    let u = z.update(p, hi).update(p + 1, lo);
    let n = word_sum(z);
    let f = fold_carries(n);
    lemma_fold_bound(n);
    let ck = (0xFFFF - f) as nat;
    lemma_word_sum_update_pair(z, u, p);
    assert(word_sum(u) == n + ck);
    lemma_fold_full(n);
    lemma_fold_full(word_sum(u));
    lemma_fold_congruence(n);
    lemma_fold_closed_form(n);
    lemma_mod_self_0(0xFFFF);
    if f == 0xFFFF {
        assert(word_sum(u) == n);
    } else {
        assert(word_sum(u) > 0);
        lemma_add_mod_noop(n as int, ck as int, 0xFFFF);
        if f == 0 {
            assert(n == 0);
            lemma_small_mod(0, 0xFFFF);
        } else {
            lemma_small_mod(ck, 0xFFFF);
            lemma_small_mod(f, 0xFFFF);
            assert((n as int + ck as int) % 0xFFFF == (f + (0xFFFF - f)) % 0xFFFF);
        }
    }
}

/// Replacing the two bytes of an aligned zero word adds exactly that word's
/// value to the word sum.
proof fn lemma_word_sum_update_pair(z: Seq<u8>, u: Seq<u8>, p: int)
    requires
        0 <= p,
        p % 2 == 0,
        p + 2 <= z.len(),
        z[p] == 0,
        z[p + 1] == 0,
        u == z.update(p, u[p]).update(p + 1, u[p + 1]),
    ensures
        word_sum(u) == word_sum(z) + (u[p] as nat) * 256 + (u[p + 1] as nat),
{
    assert(u.len() == z.len());
    lemma_word_sum_append(z.take(p), z.skip(p));
    lemma_word_sum_append(u.take(p), u.skip(p));
    assert(z.take(p) + z.skip(p) =~= z);
    assert(u.take(p) + u.skip(p) =~= u);
    assert(u.take(p) =~= z.take(p));
    let tz = z.skip(p);
    let tu = u.skip(p);
    assert(tz.skip(2) =~= tu.skip(2));
    assert(tz[0] == 0 && tz[1] == 0);
    assert(tu[0] == u[p] && tu[1] == u[p + 1]);
}

} // verus!
