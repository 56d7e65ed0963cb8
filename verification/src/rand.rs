//! A xorshift generator with 128 bits of state, and what the tracer draws
//! from it: raw words, integers in a range, and shuffles.

use vstd::prelude::*;

verus! {

/// The four words of the state before any seed is folded in.
pub const KX: u32 = 123456789;

pub const KY: u32 = 362436069;

pub const KZ: u32 = 521288629;

pub const KW: u32 = 88675123;

/// How many values a unit draw can take: the numerators `0..STEPS` over the
/// denominator `STEPS`.
pub const STEPS: i32 = 1000001;

/// The four words of generator state.
#[derive(Clone, Copy)]
pub struct Rand {
    pub x: u32,
    pub y: u32,
    pub z: u32,
    pub w: u32,
}

/// The state that a seed starts from: the seed is folded into the first two
/// words, the other two are fixed.
pub open spec fn seeded(seed: u32) -> Rand {
    Rand { x: KX ^ seed, y: KY ^ seed, z: KZ, w: KW }
}

/// The word that follows from the oldest word of the state, `x`, and the
/// newest, `w`.
pub open spec fn next_word(x: u32, w: u32) -> u32 {
    let t = x ^ (x << 11u32);
    w ^ ((w >> 19u32) ^ t ^ (t >> 8u32))
}

/// One turn of the generator: the oldest word leaves, the others move up,
/// and the new word comes in last. The new word is the one handed out.
pub open spec fn step(s: Rand) -> Rand {
    Rand { x: s.y, y: s.z, z: s.w, w: next_word(s.x, s.w) }
}

impl Rand {
    pub fn new(seed: u32) -> (r: Rand)
        ensures
            r == seeded(seed),
    {
        Rand { x: KX ^ seed, y: KY ^ seed, z: KZ, w: KW }
    }

    /// Advances the state by one turn and returns the new last word.
    pub fn rand(&mut self) -> (r: u32)
        ensures
            *final(self) == step(*old(self)),
            r == step(*old(self)).w,
    {
        let t: u32 = self.x ^ (self.x << 11u32);
        self.x = self.y;
        self.y = self.z;
        self.z = self.w;
        self.w = self.w ^ ((self.w >> 19u32) ^ t ^ (t >> 8u32));
        self.w
    }

    /// Draws an integer from `a..=b`: `a` plus the next word reduced modulo
    /// the number of integers in the range.
    pub fn rand_range(&mut self, a: i32, b: i32) -> (r: i32)
        requires
            a <= b,
        ensures
            *final(self) == step(*old(self)),
            r == range_pick(step(*old(self)).w, a, b),
            a <= r <= b,
    {
        let span: i64 = b as i64 - a as i64 + 1;
        let word: i64 = self.rand() as i64;
        (a as i64 + word % span) as i32
    }

    /// Draws the numerator of a fraction of the unit interval with
    /// denominator `STEPS`. The fraction is at least zero and less than one.
    pub fn unit_draw(&mut self) -> (k: i32)
        ensures
            *final(self) == step(*old(self)),
            k == range_pick(step(*old(self)).w, 0, (STEPS - 1) as i32),
            0 <= k < STEPS,
    {
        self.rand_range(0, STEPS - 1)
    }

    /// Shuffles `a` in place, from the last position down: position `i`
    /// trades places with one drawn from `0..=i`.
    pub fn shuffle<T>(&mut self, a: &mut [T])
        ensures
            *final(self) == shuffled(*old(self), old(a)@, old(a)@.len() - 1).0,
            final(a)@ == shuffled(*old(self), old(a)@, old(a)@.len() - 1).1,
            final(a)@.len() == old(a)@.len(),
            final(a)@.to_multiset() == old(a)@.to_multiset(),
    {
        if a.len() == 0 {
            return ;
        }
        let ghost before = a@;
        let ghost start = *self;
        let mut i: usize = a.len() - 1;
        while i > 0
            invariant
                a@.len() == before.len(),
                i < a.len(),
                a@.to_multiset() == before.to_multiset(),
                shuffled(*self, a@, i as int) == shuffled(start, before, before.len() - 1),
            decreases i,
        {
            let j: usize = (self.rand() as usize) % (i + 1);
            proof {
                lemma_swapped_is_permutation(a@, i as int, j as int);
            }
            a.swap(i, j);
            i -= 1;
        }
    }
}

/// What `rand_range` makes of a word: an offset into `a..=b`.
pub open spec fn range_pick(word: u32, a: i32, b: i32) -> int {
    a + word as int % (b - a + 1)
}

/// `v` with the items at `i` and `j` exchanged.
pub open spec fn swapped<T>(v: Seq<T>, i: int, j: int) -> Seq<T> {
    v.update(i, v[j]).update(j, v[i])
}

/// The generator and the sequence after the positions `i`, `i - 1`, .., `1`
/// have each traded places with a drawn position at or below them.
pub open spec fn shuffled<T>(s: Rand, v: Seq<T>, i: int) -> (Rand, Seq<T>)
    decreases i,
{
    if i <= 0 {
        (s, v)
    } else {
        let next = step(s);
        shuffled(next, swapped(v, i, next.w as int % (i + 1)), i - 1)
    }
}

/// Exchanging two items leaves the same items, each as often as before.
pub proof fn lemma_swapped_is_permutation<T>(v: Seq<T>, i: int, j: int)
    requires
        0 <= i < v.len(),
        0 <= j < v.len(),
    ensures
        swapped(v, i, j).len() == v.len(),
        swapped(v, i, j).to_multiset() == v.to_multiset(),
{
    broadcast use vstd::seq_lib::group_to_multiset_ensures;

    let first = v.update(i, v[j]);
    assert(first.to_multiset() == v.to_multiset().remove(v[i]).insert(v[j]));
    assert(swapped(v, i, j).to_multiset() == first.to_multiset().remove(v[j]).insert(v[i]));
    assert(v.to_multiset().count(v[i]) > 0) by {
        assert(v.contains(v[i]));
    }
    assert(swapped(v, i, j).to_multiset() =~= v.to_multiset());
}

/// `slice::swap` exchanges the items at two positions and leaves the rest;
/// it panics on a position past the end, which the precondition rules out.
pub assume_specification<U>[ <[U]>::swap ](s: &mut [U], a: usize, b: usize)
    requires
        a < old(s)@.len(),
        b < old(s)@.len(),
    ensures
        final(s)@ == swapped(old(s)@, a as int, b as int),
;

impl Default for Rand {
    fn default() -> (r: Rand)
        ensures
            r == seeded(0),
    {
        Rand::new(0)
    }
}

/// A generator that holds a set bit keeps one: it never falls into the
/// state of four zero words, from which every word handed out is zero.
pub proof fn lemma_never_all_zero(s: Rand)
    requires
        s.x != 0 || s.y != 0 || s.z != 0 || s.w != 0,
    ensures
        step(s).x != 0 || step(s).y != 0 || step(s).z != 0 || step(s).w != 0,
{
    let x = s.x;
    assert(next_word(x, 0u32) == 0u32 ==> x == 0u32) by (bit_vector);
}

} // verus!
