//! The sliding window of samples that a plot compares.
use vstd::prelude::*;

verus! {

/// The last `n` elements of `s`, or all of it.
pub open spec fn recent(s: Seq<u32>, n: nat) -> Seq<u32> {
    if s.len() > n {
        s.skip(s.len() - n)
    } else {
        s
    }
}

/// Every `step`th element of `s`, beginning with the first.
pub open spec fn every(s: Seq<u32>, step: nat) -> Seq<u32>
    recommends
        step > 0,
{
    Seq::new(((s.len() + step - 1) / step as int) as nat, |i: int| s[i * step])
}

/// Sliding window over the most recent `target_length` (downsampled) samples.
pub struct FilteredBuffer {
    pub target_length: usize,
    pub chunk_size: usize,
    pub buffer: Vec<u32>,
}

impl View for FilteredBuffer {
    type V = Seq<u32>;

    open spec fn view(&self) -> Seq<u32> {
        self.buffer@
    }
}

impl FilteredBuffer {
    /// The window takes samples, and holds no more than it should.
    pub open spec fn wf(self) -> bool {
        &&& self.chunk_size > 0
        &&& self@.len() <= self.target_length
    }

    /// An empty window over the last `target_length` of every `chunk_size`th
    /// sample.
    pub fn new(target_length: usize, chunk_size: usize) -> (r: Self)
        requires
            8 * target_length <= isize::MAX,
        ensures
            r@ == Seq::<u32>::empty(),
            r.target_length == target_length,
            r.chunk_size == chunk_size,
            chunk_size > 0 ==> r.wf(),
    {
        FilteredBuffer {
            target_length,
            chunk_size,
            buffer: Vec::with_capacity(target_length * 2),
        }
    }

    /// Takes in a block of samples: every `chunk_size`th of them, of which only
    /// the most recent `target_length` stay.
    pub fn input(&mut self, input_buffer: &[u32])
        requires
            old(self).chunk_size > 0,
        ensures
            final(self)@ == recent(
                old(self)@ + every(input_buffer@, old(self).chunk_size as nat),
                old(self).target_length as nat,
            ),
            final(self).target_length == old(self).target_length,
            final(self).chunk_size == old(self).chunk_size,
            final(self).wf(),
    {
        let ghost taken = every(input_buffer@, self.chunk_size as nat);
        let ghost step = self.chunk_size as int;
        let size: usize = input_buffer.len();
        let mut at: usize = 0;
        let mut done: bool = size == 0;
        let ghost mut count: int = 0;
        proof {
            if size == 0 {
                vstd::arithmetic::div_mod::lemma_fundamental_div_mod_converse(
                    step - 1,
                    step,
                    0,
                    step - 1,
                );
            }
        }
        while !done
            invariant
                step == self.chunk_size,
                step > 0,
                size == input_buffer@.len(),
                taken == every(input_buffer@, step as nat),
                self.target_length == old(self).target_length,
                self.chunk_size == old(self).chunk_size,
                0 <= count <= taken.len(),
                self@ == old(self)@ + taken.take(count),
                !done ==> at == count * step && at < size,
                done ==> count == taken.len(),
            decreases
                    if done {
                        0
                    } else {
                        size - at
                    },
        {
            self.buffer.push(input_buffer[at]);
            proof {
                lemma_every_reaches(size as int, step, count);
                assert(taken.take(count + 1) =~= taken.take(count).push(input_buffer@[at as int]));
                assert((count + 1) * step == count * step + step) by (nonlinear_arith);
                lemma_every_reaches(size as int, step, count + 1);
                count = count + 1;
            }
            if self.chunk_size < size - at {
                at = at + self.chunk_size;
            } else {
                done = true;
            }
        }
        assert(taken.take(count) =~= taken);
        let too_many: usize = self.buffer.len().saturating_sub(self.target_length);
        if too_many > 0 {
            let kept: Vec<u32> = self.buffer.split_off(too_many);
            self.buffer = kept;
        }
    }

    /// Whether the window spans its whole length.
    pub fn is_full(&self) -> (r: bool)
        ensures
            r == (self@.len() >= self.target_length),
    {
        self.buffer.len() >= self.target_length
    }
}

/// Element `k` of every `step`th of `n` exists just where its place does.
proof fn lemma_every_reaches(n: int, step: int, k: int)
    requires
        n >= 0,
        step > 0,
        k >= 0,
    ensures
        k < (n + step - 1) / step <==> k * step < n,
{
    let q = (n + step - 1) / step;
    vstd::arithmetic::div_mod::lemma_fundamental_div_mod(n + step - 1, step);
    assert(k < q <==> k * step < n) by (nonlinear_arith)
        requires
            n + step - 1 == step * q + (n + step - 1) % step,
            0 <= (n + step - 1) % step < step,
            step > 0,
    ;
}

/// Every single sample is every sample.
pub proof fn law_step_of_one_keeps_all(s: Seq<u32>)
    ensures
        every(s, 1) == s,
{
    assert(every(s, 1) =~= s);
}

/// What slid out of the window earlier would not be in it later: taking in two
/// blocks one after the other leaves what taking in both at once leaves.
pub proof fn law_windows_compose(held: Seq<u32>, first: Seq<u32>, second: Seq<u32>, n: nat)
    ensures
        recent(recent(held + first, n) + second, n) == recent(held + (first + second), n),
{
    assert((held + first) + second =~= held + (first + second));
    assert(recent(recent(held + first, n) + second, n) =~= recent((held + first) + second, n));
}

/// A window that has taken in as many samples as it is long, or more, is full,
/// and stays so.
pub proof fn law_window_fills(held: Seq<u32>, block: Seq<u32>, n: nat)
    ensures
        recent(held + block, n).len() == if held.len() + block.len() < n {
            held.len() + block.len()
        } else {
            n
        },
{
}

/// The window holds the newest samples and no others, oldest first: its last is
/// the last of all, the one before it the last but one, and so on.
pub proof fn law_window_holds_the_newest(s: Seq<u32>, n: nat, back: int)
    requires
        0 <= back < n,
        back < s.len(),
    ensures
        recent(s, n).len() == if s.len() < n {
            s.len()
        } else {
            n
        },
        recent(s, n)[recent(s, n).len() - 1 - back] == s[s.len() - 1 - back],
{
}

/// Downsampling takes the first of each group of `step` samples, and of each
/// group that has one.
pub proof fn law_downsampling_takes_the_first_of_each_group(s: Seq<u32>, step: nat, k: int)
    requires
        step > 0,
        k >= 0,
    ensures
        k * step < s.len() <==> k < every(s, step).len(),
        k * step < s.len() ==> every(s, step)[k] == s[k * step],
{
    lemma_every_reaches(s.len() as int, step as int, k);
    let total = s.len() + step - 1;
    vstd::arithmetic::div_mod::lemma_div_is_ordered(0, total, step as int);
    vstd::arithmetic::div_mod::lemma_div_basics(step as int);
}

/// A window is seen as what it holds.
pub proof fn law_windows_are_what_they_hold(window: FilteredBuffer)
    ensures
        window@ == window.buffer@,
{
}

} // verus!
