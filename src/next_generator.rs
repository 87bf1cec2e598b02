//! The queue of upcoming pieces, refilled one shuffled bag of all seven
//! kinds at a time.

use vstd::prelude::*;
use std::collections::VecDeque;
use crate::mino::Mino;
use crate::random_source::RandomSource;

verus! {

/// How many times kind `k` occurs in `s`.
pub open spec fn count_kind(s: Seq<Mino>, k: Mino) -> nat
    decreases s.len(),
{
    if s.len() == 0 {
        0
    } else {
        count_kind(s.drop_last(), k) + if s.last() == k { 1nat } else { 0nat }
    }
}

/// A bag: seven pieces, one of each kind.
pub open spec fn is_bag(b: Seq<Mino>) -> bool {
    b.len() == 7 && forall|k: Mino| #[trigger] count_kind(b, k) == 1
}

/// Every complete group of seven in `s`, counted from the start, is a bag.
pub open spec fn dealt_in_bags(s: Seq<Mino>) -> bool {
    forall|b: int| 0 <= b && 7 * b + 7 <= s.len() ==> #[trigger] is_bag(s.subrange(7 * b, 7 * b + 7))
}

/// `s` is a whole number of bags.
pub open spec fn whole_bags(s: Seq<Mino>) -> bool {
    s.len() % 7 == 0 && dealt_in_bags(s)
}

pub proof fn lemma_count_append(s: Seq<Mino>, t: Seq<Mino>, k: Mino)
    ensures
        count_kind(s + t, k) == count_kind(s, k) + count_kind(t, k),
    decreases t.len(),
{
    if t.len() == 0 {
        assert(s + t =~= s);
    } else {
        assert((s + t).drop_last() =~= s + t.drop_last());
        lemma_count_append(s, t.drop_last(), k);
    }
}

pub proof fn lemma_count_update(s: Seq<Mino>, i: int, v: Mino, k: Mino)
    requires
        0 <= i < s.len(),
    ensures
        count_kind(s.update(i, v), k) + (if s[i] == k { 1int } else { 0int })
            == count_kind(s, k) + (if v == k { 1int } else { 0int }),
    decreases s.len(),
{
    if i == s.len() - 1 {
        assert(s.update(i, v).drop_last() =~= s.drop_last());
    } else {
        assert(s.update(i, v).drop_last() =~= s.drop_last().update(i, v));
        lemma_count_update(s.drop_last(), i, v, k);
    }
}

/// Bag fairness: counted from a bag boundary, any `7 * n` consecutive
/// pieces of a sequence dealt in bags hold each kind exactly `n` times.
pub proof fn lemma_bag_fairness(s: Seq<Mino>, a: int, n: int, k: Mino)
    requires
        dealt_in_bags(s),
        0 <= a,
        0 <= n,
        7 * (a + n) <= s.len(),
    ensures
        count_kind(s.subrange(7 * a, 7 * (a + n)), k) == n,
    decreases n,
{
    if n == 0 {
        assert(s.subrange(7 * a, 7 * a) =~= Seq::<Mino>::empty());
    } else {
        let m = n - 1;
        lemma_bag_fairness(s, a, m, k);
        let b = a + m;
        assert(is_bag(s.subrange(7 * b, 7 * b + 7)));
        assert(s.subrange(7 * a, 7 * (a + n)) =~= s.subrange(7 * a, 7 * (a + m)) + s.subrange(7 * b, 7 * b + 7));
        lemma_count_append(s.subrange(7 * a, 7 * (a + m)), s.subrange(7 * b, 7 * b + 7), k);
    }
}

/// A whole number of bags followed by one more bag is again a whole number of bags.
proof fn lemma_whole_bags_push(s: Seq<Mino>, bag: Seq<Mino>)
    requires
        whole_bags(s),
        is_bag(bag),
    ensures
        whole_bags(s + bag),
{
    let t = s + bag;
    assert forall|b: int| 0 <= b && 7 * b + 7 <= t.len() implies #[trigger] is_bag(t.subrange(7 * b, 7 * b + 7)) by {
        if 7 * b + 7 <= s.len() {
            assert(t.subrange(7 * b, 7 * b + 7) =~= s.subrange(7 * b, 7 * b + 7));
        } else {
            assert(7 * b == s.len());
            assert(t.subrange(7 * b, 7 * b + 7) =~= bag);
        }
    }
}

/// A prefix of something dealt in bags is dealt in bags.
proof fn lemma_dealt_prefix(s: Seq<Mino>, n: int)
    requires
        dealt_in_bags(s),
        0 <= n <= s.len(),
    ensures
        dealt_in_bags(s.subrange(0, n)),
{
    let t = s.subrange(0, n);
    assert forall|b: int| 0 <= b && 7 * b + 7 <= t.len() implies #[trigger] is_bag(t.subrange(7 * b, 7 * b + 7)) by {
        assert(t.subrange(7 * b, 7 * b + 7) =~= s.subrange(7 * b, 7 * b + 7));
    }
}

/// `b` is `a` after handing out `r`: the front of the queue, after a refill
/// with one bag shuffled from fourteen draws when at most one bag's worth was
/// waiting; without a refill the random source is not touched.
pub open spec fn hands_out<R: RandomSource>(a: DefaultNextGenerator<R>, b: DefaultNextGenerator<R>, r: Mino) -> bool {
    &&& b.bags_ok()
    &&& b.dealt() == a.dealt().push(r)
    &&& dealt_in_bags(b.dealt())
    &&& a.pending().len() > 7 ==> r == a.pending()[0] && b.pending() == a.pending().drop_first()
        && b.source() == a.source()
    &&& a.pending().len() <= 7 ==> exists|d: Seq<usize>|
        d.len() == 14 && r == (a.pending() + shuffled(d))[0]
            && #[trigger] b.pending() == (a.pending() + shuffled(d)).drop_first()
}

/// A supplier of upcoming pieces.
pub trait NextGenerator {
    spec fn wf(&self) -> bool;

    /// The pieces waiting, the next one first.
    spec fn queue(&self) -> Seq<Mino>;

    /// Hands out the next piece.
    fn next(&mut self) -> (r: Mino)
        requires
            old(self).wf(),
        ensures
            final(self).wf(),
    ;

    /// The piece `idx` places ahead in the queue (0 is the next one), if there is one.
    fn get_next(&self, idx: usize) -> (r: Option<&Mino>)
        requires
            self.wf(),
        ensures
            idx < self.queue().len() ==> r == Some(&self.queue()[idx as int]),
            idx >= self.queue().len() ==> r.is_none(),
    ;
}

/// Deals the seven kinds in bags: each refill appends one shuffled bag.
pub struct DefaultNextGenerator<R: RandomSource> {
    buffer: VecDeque<Mino>,
    rand_gen: R,
    dealt: Ghost<Seq<Mino>>,
}

impl<R: RandomSource> DefaultNextGenerator<R> {
    /// Every piece handed out so far, oldest first.
    pub closed spec fn dealt(&self) -> Seq<Mino> {
        self.dealt@
    }

    pub closed spec fn pending(&self) -> Seq<Mino> {
        self.buffer@
    }

    /// The random source the bags are shuffled with.
    pub closed spec fn source(&self) -> R {
        self.rand_gen
    }

    /// What was handed out, followed by what waits, is a whole number of bags.
    pub open spec fn bags_ok(&self) -> bool {
        whole_bags(self.dealt() + self.pending())
    }

    /// An empty queue over the given random source.
    pub fn new(rand_gen: R) -> (g: DefaultNextGenerator<R>)
        ensures
            g.bags_ok(),
            g.pending() == Seq::<Mino>::empty(),
            g.dealt() == Seq::<Mino>::empty(),
            g.source() == rand_gen,
    {
        let g = DefaultNextGenerator { buffer: VecDeque::new(), rand_gen, dealt: Ghost(Seq::empty()) };
        assert(g.dealt() + g.pending() =~= Seq::<Mino>::empty());
        g
    }

    /// Appends one bag: draws fourteen numbers and shuffles the seven kinds
    /// with them, as `shuffled_bag` does.
    pub fn generate(&mut self)
        requires
            old(self).bags_ok(),
        ensures
            final(self).bags_ok(),
            final(self).dealt() == old(self).dealt(),
            exists|d: Seq<usize>| d.len() == 14 && #[trigger] final(self).pending() == old(self).pending() + shuffled(d),
    {
        let mut draws: Vec<usize> = Vec::new();
        let mut k: usize = 0;
        while k < 14
            invariant
                k <= 14,
                draws@.len() == k,
                self.dealt == old(self).dealt,
                self.buffer@ == old(self).buffer@,
            decreases 14 - k,
        {
            draws.push(self.rand_gen.next_random());
            k += 1;
        }
        let bag = shuffled_bag(&draws);
        let ghost old_pending = self.buffer@;
        let mut j: usize = 0;
        while j < 7
            invariant
                j <= 7,
                bag@.len() == 7,
                self.dealt == old(self).dealt,
                self.buffer@ == old_pending + bag@.subrange(0, j as int),
                old_pending == old(self).buffer@,
            decreases 7 - j,
        {
            self.buffer.push_back(bag[j]);
            j += 1;
            proof {
                assert(self.buffer@ =~= old_pending + bag@.subrange(0, j as int));
            }
        }
        proof {
            assert(bag@.subrange(0, 7) =~= bag@);
            assert(self.dealt() + self.pending() =~= (old(self).dealt() + old(self).pending()) + bag@);
            lemma_whole_bags_push(old(self).dealt() + old(self).pending(), bag@);
            assert(self.pending() == old(self).pending() + shuffled(draws@));
        }
    }
}

/// The kinds in catalogue order: T, S, Z, L, J, I, O.
pub open spec fn catalog() -> Seq<Mino> {
    seq![Mino::T, Mino::S, Mino::Z, Mino::L, Mino::J, Mino::I, Mino::O]
}

/// `s` with the entries at `i` and `j` exchanged.
pub open spec fn swap_at(s: Seq<Mino>, i: int, j: int) -> Seq<Mino> {
    s.update(i, s[j]).update(j, s[i])
}

/// The catalogue after the first `k` swaps: swap `m` exchanges the
/// positions `d[2m] % 7` and `d[2m + 1] % 7`.
pub open spec fn shuffled_upto(d: Seq<usize>, k: nat) -> Seq<Mino>
    decreases k,
{
    if k == 0 {
        catalog()
    } else {
        let m = k - 1;
        swap_at(shuffled_upto(d, m as nat), (d[2 * m] % 7) as int, (d[2 * m + 1] % 7) as int)
    }
}

/// The bag made from the fourteen drawn numbers `d`: seven swaps of the catalogue.
pub open spec fn shuffled(d: Seq<usize>) -> Seq<Mino> {
    shuffled_upto(d, 7)
}

/// Every partial shuffle of the catalogue is a bag.
proof fn lemma_shuffled_upto_is_bag(d: Seq<usize>, k: nat)
    requires
        d.len() == 14,
        k <= 7,
    ensures
        is_bag(shuffled_upto(d, k)),
    decreases k,
{
    if k == 0 {
        assert forall|m: Mino| #[trigger] count_kind(catalog(), m) == 1 by {
            reveal_with_fuel(count_kind, 8);
        }
    } else {
        let n = (k - 1) as nat;
        lemma_shuffled_upto_is_bag(d, n);
        let before = shuffled_upto(d, n);
        let i = (d[2 * n as int] % 7) as int;
        let j = (d[2 * n as int + 1] % 7) as int;
        let mid = before.update(i, before[j]);
        assert forall|m: Mino| #[trigger] count_kind(shuffled_upto(d, k), m) == 1 by {
            lemma_count_update(before, i, before[j], m);
            lemma_count_update(mid, j, before[i], m);
        }
    }
}

/// Every shuffle of the catalogue is a bag.
pub proof fn lemma_shuffled_is_bag(d: Seq<usize>)
    requires
        d.len() == 14,
    ensures
        is_bag(shuffled(d)),
{
    lemma_shuffled_upto_is_bag(d, 7);
}

/// The bag shuffled from fourteen drawn numbers: starting from the
/// catalogue order, for each `k` in `0..7` the positions `draws[2k] % 7` and
/// `draws[2k + 1] % 7` are swapped.
pub fn shuffled_bag(draws: &Vec<usize>) -> (bag: Vec<Mino>)
    requires
        draws@.len() == 14,
    ensures
        bag@ == shuffled(draws@),
        is_bag(bag@),
{
    let mut bag: Vec<Mino> = vec![Mino::T, Mino::S, Mino::Z, Mino::L, Mino::J, Mino::I, Mino::O];
    assert(bag@ == catalog());
    let mut k: usize = 0;
    while k < 7
        invariant
            k <= 7,
            draws@.len() == 14,
            bag@ == shuffled_upto(draws@, k as nat),
            bag@.len() == 7,
        decreases 7 - k,
    {
        let i1 = draws[2 * k] % 7;
        let i2 = draws[2 * k + 1] % 7;
        let first = bag[i1];
        let second = bag[i2];
        bag.set(i1, second);
        bag.set(i2, first);
        k += 1;
    }
    proof {
        lemma_shuffled_is_bag(draws@);
    }
    bag
}

impl<R: RandomSource> NextGenerator for DefaultNextGenerator<R> {
    open spec fn wf(&self) -> bool {
        self.bags_ok()
    }

    open spec fn queue(&self) -> Seq<Mino> {
        self.pending()
    }

    /// Refills the queue with a bag when at most one bag's worth is left,
    /// then hands out the piece at its front.
    fn next(&mut self) -> (r: Mino)
        ensures
            hands_out(*old(self), *final(self), r),
    {
        let ghost d: Seq<usize> = Seq::empty();
        if self.buffer.len() <= 7 {
            self.generate();
            proof {
                d = choose|d: Seq<usize>| d.len() == 14 && #[trigger] self.pending() == old(self).pending() + shuffled(d);
                lemma_shuffled_is_bag(d);
            }
        }
        let ghost total_before = self.dealt() + self.pending();
        let r = self.buffer.pop_front().unwrap();
        proof {
            self.dealt = Ghost(self.dealt@.push(r));
            assert(self.dealt() + self.pending() =~= total_before);
        }
        proof {
            let total = self.dealt() + self.pending();
            lemma_dealt_prefix(total, self.dealt().len() as int);
            assert(total.subrange(0, self.dealt().len() as int) =~= self.dealt());
            if old(self).pending().len() <= 7 {
                assert(d.len() == 14 && r == (old(self).pending() + shuffled(d))[0]
                    && self.pending() == (old(self).pending() + shuffled(d)).drop_first());
            }
        }
        r
    }

    fn get_next(&self, idx: usize) -> (r: Option<&Mino>) {
        if idx < self.buffer.len() {
            Some(&self.buffer[idx])
        } else {
            None
        }
    }
}

} // verus!
