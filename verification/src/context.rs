//! The context buffer: a fixed-size circular array of the most recent lines.

use vstd::arithmetic::div_mod::{lemma_fundamental_div_mod, lemma_fundamental_div_mod_converse};
use vstd::prelude::*;

verus! {

/// A line of input together with its position in the input.
#[derive(Debug, PartialEq, Eq)]
pub struct Line {
    /// Position of the line in its input, counted from zero.
    pub number: usize,
    pub text: String,
}

/// The mathematical value of a [`Line`].
pub struct LineView {
    pub number: nat,
    pub text: Seq<char>,
}

impl View for Line {
    type V = LineView;

    open spec fn view(&self) -> LineView {
        LineView { number: self.number as nat, text: self.text@ }
    }
}

impl DeepView for Line {
    type V = LineView;

    open spec fn deep_view(&self) -> LineView {
        self@
    }
}

impl Clone for Line {
    fn clone(&self) -> (copy: Line)
        ensures
            copy == *self,
    {
        Line { number: self.number, text: self.text.clone() }
    }
}

/// The last `count` entries of `history`, or all of it where it is shorter.
pub open spec fn latest(history: Seq<LineView>, count: nat) -> Seq<LineView> {
    if history.len() <= count {
        history
    } else {
        history.subrange(history.len() - count, history.len() as int)
    }
}

/// The entries that stand before the newest entry of `history`, at most
/// `depth` of them and the nearest ones, oldest first.
pub open spec fn context_before_latest(history: Seq<LineView>, depth: nat) -> Seq<LineView> {
    if history.len() == 0 {
        Seq::empty()
    } else {
        latest(history.drop_last(), depth)
    }
}

/// The lines of an input in order, each with its number, counted from zero.
pub open spec fn numbered(texts: Seq<Seq<char>>) -> Seq<LineView> {
    Seq::new(texts.len(), |i: int| LineView { number: i as nat, text: texts[i] })
}

/// The context of the newest line is made of the lines pushed just before
/// it, in the order of the pushes: `depth` of them, or all of them where
/// fewer were pushed.
pub proof fn lemma_context_is_nearest_lines(history: Seq<LineView>, depth: nat)
    requires
        history.len() > 0,
    ensures
        ({
            let context = context_before_latest(history, depth);
            let earlier = history.len() - 1;
            let count = if depth <= earlier {
                depth as int
            } else {
                earlier
            };
            &&& context.len() == count
            &&& forall|k: int| 0 <= k < count ==> context[k] == history[earlier - count + k]
        }),
{
}

/// Two pushes less than a full turn apart never share a slot.
proof fn lemma_slots_differ(earlier: int, later: int, capacity: int)
    requires
        capacity > 0,
        0 <= earlier < later < earlier + capacity,
    ensures
        earlier % capacity != later % capacity,
{
    lemma_fundamental_div_mod(earlier, capacity);
    lemma_fundamental_div_mod(later, capacity);
    if earlier % capacity == later % capacity {
        let qe = earlier / capacity;
        let ql = later / capacity;
        assert(later - earlier == capacity * (ql - qe)) by (nonlinear_arith)
            requires
                earlier == capacity * qe + earlier % capacity,
                later == capacity * ql + later % capacity,
                earlier % capacity == later % capacity,
        ;
        assert(false) by (nonlinear_arith)
            requires
                later - earlier == capacity * (ql - qe),
                0 < later - earlier < capacity,
        ;
    }
}

/// The slot of the push that stands `offset` places after the oldest one
/// still held by a full buffer, counted from the write cursor.
proof fn lemma_slot_from_cursor(pushes: int, offset: int, capacity: int)
    requires
        capacity > 0,
        pushes >= capacity,
        0 <= offset < capacity,
    ensures
        (pushes - capacity + offset) % capacity == if pushes % capacity + offset >= capacity {
            pushes % capacity + offset - capacity
        } else {
            pushes % capacity + offset
        },
{
    lemma_fundamental_div_mod(pushes, capacity);
    let q = pushes / capacity;
    let r = pushes % capacity;
    if r + offset >= capacity {
        assert(pushes - capacity + offset == q * capacity + (r + offset - capacity))
            by (nonlinear_arith)
            requires
                pushes == capacity * q + r,
        ;
        lemma_fundamental_div_mod_converse(
            pushes - capacity + offset,
            capacity,
            q,
            r + offset - capacity,
        );
    } else {
        assert(pushes - capacity + offset == (q - 1) * capacity + (r + offset))
            by (nonlinear_arith)
            requires
                pushes == capacity * q + r,
        ;
        lemma_fundamental_div_mod_converse(pushes - capacity + offset, capacity, q - 1, r + offset);
    }
}

/// A circular buffer that keeps the most recent `depth + 1` lines pushed
/// into it: the newest line and up to `depth` lines before it.
///
/// Its mathematical value is the depth and the sequence of every line pushed
/// so far; what is still held is the tail of that sequence.
pub struct ContextBuffer {
    depth: u8,
    slots: Vec<Line>,
    /// The slot that the next push writes once the buffer is full.
    cursor: usize,
    history: Ghost<Seq<LineView>>,
}

impl ContextBuffer {
    /// The number of preceding lines that a snapshot may hold.
    pub closed spec fn depth(&self) -> nat {
        self.depth as nat
    }

    /// The number of slots: one more than the depth, since the newest line
    /// is stored too.
    pub open spec fn capacity(&self) -> nat {
        self.depth() + 1
    }

    /// Every line pushed so far, oldest first.
    pub closed spec fn history(&self) -> Seq<LineView> {
        self.history@
    }

    /// The lines still held, oldest first.
    pub open spec fn retained(&self) -> Seq<LineView> {
        latest(self.history(), self.capacity())
    }

    /// The push number `j` lives in slot `j mod capacity` for as long as it
    /// is retained.
    pub closed spec fn wf(&self) -> bool {
        let capacity = self.depth as int + 1;
        let pushes = self.history@.len() as int;
        &&& self.slots.len() == if pushes < capacity {
            pushes
        } else {
            capacity
        }
        &&& self.cursor == pushes % capacity
        &&& forall|j: int|
            pushes - self.slots.len() <= j < pushes ==> self.slots[j % capacity]@
                == #[trigger] self.history@[j]
    }

    /// An empty buffer for `depth` lines of context.
    pub fn new(depth: u8) -> (buffer: ContextBuffer)
        ensures
            buffer.wf(),
            buffer.depth() == depth,
            buffer.history() == Seq::<LineView>::empty(),
    {
        ContextBuffer { depth, slots: Vec::new(), cursor: 0, history: Ghost(Seq::empty()) }
    }

    /// The number of lines currently held.
    pub fn len(&self) -> (count: usize)
        requires
            self.wf(),
        ensures
            count == self.retained().len(),
    {
        self.slots.len()
    }

    /// Stores a line, overwriting the oldest one once the buffer is full.
    pub fn push(&mut self, number: usize, text: String)
        requires
            old(self).wf(),
        ensures
            final(self).wf(),
            final(self).depth() == old(self).depth(),
            final(self).history() == old(self).history().push(
                LineView { number: number as nat, text: text@ },
            ),
    {
        let capacity: usize = self.depth as usize + 1;
        let ghost pushes = self.history@.len() as int;
        let ghost before = self.history@;
        let ghost held = self.slots.len() as int;
        let line = Line { number, text };
        proof {
            lemma_fundamental_div_mod(pushes, capacity as int);
            if pushes < capacity {
                lemma_fundamental_div_mod_converse(pushes, capacity as int, 0, pushes);
            }
        }
        if self.slots.len() < capacity {
            self.slots.push(line);
        } else {
            self.slots.set(self.cursor, line);
        }
        self.cursor = if self.cursor + 1 == capacity {
            0
        } else {
            self.cursor + 1
        };
        self.history = Ghost(before.push(line@));
        proof {
            let after = self.history@;
            let cap = capacity as int;
            // The cursor follows the number of pushes around the ring.
            lemma_fundamental_div_mod(pushes + 1, cap);
            let q = pushes / cap;
            let r = pushes % cap;
            if r + 1 == cap {
                assert(pushes + 1 == (q + 1) * cap + 0) by (nonlinear_arith)
                    requires
                        pushes == cap * q + r,
                        r + 1 == cap,
                ;
                lemma_fundamental_div_mod_converse(pushes + 1, cap, q + 1, 0);
            } else {
                assert(pushes + 1 == q * cap + (r + 1)) by (nonlinear_arith)
                    requires
                        pushes == cap * q + r,
                ;
                lemma_fundamental_div_mod_converse(pushes + 1, cap, q, r + 1);
            }
            assert forall|j: int| pushes + 1 - self.slots.len() <= j < pushes + 1 implies self.slots[j
                % cap]@ == #[trigger] after[j] by {
                if j < pushes {
                    lemma_slots_differ(j, pushes, cap);
                    lemma_fundamental_div_mod(j, cap);
                    assert(before[j] == after[j]);
                }
            }
        }
    }

    /// The lines that precede the line pushed last, oldest first: at most
    /// `depth` of them, fewer near the start of the input, none before the
    /// first push.
    pub fn snapshot(&self) -> (context: Vec<Line>)
        requires
            self.wf(),
        ensures
            context.deep_view() == context_before_latest(self.history(), self.depth()),
    {
        let capacity: usize = self.depth as usize + 1;
        let held: usize = self.slots.len();
        let mut context: Vec<Line> = Vec::new();
        if held == 0 {
            assert(context.deep_view() =~= Seq::<LineView>::empty());
            return context;
        }
        let start: usize = if held < capacity {
            0
        } else {
            self.cursor
        };
        let ghost pushes = self.history@.len() as int;
        let ghost expected = context_before_latest(self.history@, self.depth as nat);
        assert(expected.len() == held - 1);
        let mut offset: usize = 0;
        while offset + 1 < held
            invariant
                self.wf(),
                capacity == self.depth as int + 1,
                held == self.slots.len(),
                0 < held <= capacity,
                start == if held < capacity {
                    0
                } else {
                    self.cursor
                },
                pushes == self.history@.len(),
                expected == context_before_latest(self.history@, self.depth as nat),
                expected.len() == held - 1,
                offset + 1 <= held,
                context.len() == offset,
                forall|i: int| 0 <= i < offset ==> (#[trigger] context[i])@ == expected[i],
            decreases held - offset,
        {
            let raw: usize = start + offset;
            let slot: usize = if raw >= capacity {
                raw - capacity
            } else {
                raw
            };
            proof {
                let cap = capacity as int;
                let j = pushes - held + offset;
                if held < capacity {
                    lemma_fundamental_div_mod_converse(j, cap, 0, j);
                } else {
                    lemma_slot_from_cursor(pushes, offset as int, cap);
                }
                assert(j % cap == slot);
                assert(self.slots[j % cap]@ == self.history@[j]);
                assert(expected[offset as int] == self.history@[j]);
            }
            context.push(self.slots[slot].clone());
            offset = offset + 1;
        }
        assert(context.deep_view() =~= expected);
        context
    }
}

/// Once the lines numbered `0` to `n` of an input have been pushed in
/// order, the snapshot of the buffer holds `min(depth, n)` lines: those
/// numbered `n - min(depth, n)` to `n - 1`, in increasing order of their
/// numbers.
pub proof fn lemma_snapshot_of_consecutive_lines(buffer: ContextBuffer, texts: Seq<Seq<char>>)
    requires
        buffer.wf(),
        texts.len() > 0,
        buffer.history() == numbered(texts),
    ensures
        ({
            let snapshot = context_before_latest(buffer.history(), buffer.depth());
            let newest = texts.len() - 1;
            let count = if buffer.depth() <= newest {
                buffer.depth() as int
            } else {
                newest
            };
            &&& snapshot.len() == count
            &&& forall|k: int|
                0 <= k < count ==> snapshot[k] == LineView {
                    number: (newest - count + k) as nat,
                    text: texts[newest - count + k],
                }
        }),
{
    lemma_context_is_nearest_lines(numbered(texts), buffer.depth());
}

/// A buffer never holds more lines than its capacity, and holds every line
/// pushed until then.
pub proof fn lemma_retained_is_bounded(buffer: ContextBuffer)
    requires
        buffer.wf(),
    ensures
        buffer.retained().len() == if buffer.history().len() <= buffer.capacity() {
            buffer.history().len()
        } else {
            buffer.capacity()
        },
        forall|k: int|
            0 <= k < buffer.retained().len() ==> buffer.retained()[k] == buffer.history()[buffer.history().len()
                - buffer.retained().len() + k],
{
}

} // verus!
