use vstd::prelude::*;

verus! {

/// One call frame: who is calling, and how many coins they make available.
#[derive(Debug, Clone, PartialEq, Eq)]
pub struct CallItem {
    pub address: String,
    pub coins: u64,
}

/// Abstract value of a call frame.
pub struct CallFrame {
    pub address: Seq<char>,
    pub coins: u64,
}

impl View for CallItem {
    type V = CallFrame;

    open spec fn view(&self) -> CallFrame {
        CallFrame { address: self.address@, coins: self.coins }
    }
}

/// Active caller contexts; the last element is the innermost call.
#[derive(Debug)]
pub struct CallStack {
    items: Vec<CallItem>,
}

impl View for CallStack {
    type V = Seq<CallFrame>;

    closed spec fn view(&self) -> Seq<CallFrame> {
        self.items@.map_values(|c: CallItem| c@)
    }
}

impl CallStack {
    /// An empty stack.
    pub fn new() -> (r: CallStack)
        ensures
            r@ == Seq::<CallFrame>::empty(),
    {
        CallStack { items: Vec::new() }
    }

    /// Clears every frame.
    pub fn reset(&mut self)
        ensures
            final(self)@ == Seq::<CallFrame>::empty(),
    {
        self.items.clear();
    }

    /// Pushes a frame on top.
    pub fn push(&mut self, item: CallItem)
        ensures
            final(self)@ == old(self)@.push(item@),
    {
        self.items.push(item);
        proof {
            assert(self.items@.map_values(|c: CallItem| c@) =~= old(self)@.push(item@));
        }
    }

    /// Removes and returns the top frame; `None` on an empty stack.
    pub fn pop(&mut self) -> (r: Option<CallItem>)
        ensures
            old(self)@.len() == 0 ==> r is None && final(self)@ == old(self)@,
            old(self)@.len() > 0 ==> r is Some && r->Some_0@ == old(self)@.last()
                && final(self)@ == old(self)@.drop_last(),
    {
        if self.items.len() == 0 {
            return None;
        }
        let r = self.items.pop();
        proof {
            assert(self.items@.map_values(|c: CallItem| c@) =~= old(self)@.drop_last());
        }
        r
    }

    /// The top frame, without removing it; `None` means "no caller".
    pub fn current(&self) -> (r: Option<&CallItem>)
        ensures
            self@.len() == 0 ==> r is None,
            self@.len() > 0 ==> r is Some && r->Some_0@ == self@.last(),
    {
        let n = self.items.len();
        if n == 0 {
            None
        } else {
            Some(&self.items[n - 1])
        }
    }

    /// The number of active frames.
    pub fn len(&self) -> (r: usize)
        ensures
            r == self@.len(),
    {
        self.items.len()
    }

    /// Whether there is no caller at all.
    pub fn is_empty(&self) -> (r: bool)
        ensures
            r == (self@.len() == 0),
    {
        self.items.len() == 0
    }
}

/// The frames after pushing `items` in order on top of `s`.
pub open spec fn push_all(s: Seq<CallFrame>, items: Seq<CallFrame>) -> Seq<CallFrame>
    decreases items.len(),
{
    if items.len() == 0 {
        s
    } else {
        push_all(s, items.drop_last()).push(items.last())
    }
}

/// The frames after `n` pops from `s`.
pub open spec fn pop_n(s: Seq<CallFrame>, n: nat) -> Seq<CallFrame>
    decreases n,
{
    if n == 0 || s.len() == 0 {
        s
    } else {
        pop_n(s.drop_last(), (n - 1) as nat)
    }
}

/// As many pops as pushes bring the stack back to where it was; from a reset
/// stack, back to empty.
pub proof fn lemma_push_then_pop(s: Seq<CallFrame>, items: Seq<CallFrame>)
    ensures
        push_all(s, items).len() == s.len() + items.len(),
        pop_n(push_all(s, items), items.len()) == s,
    decreases items.len(),
{
    if items.len() > 0 {
        let rest = items.drop_last();
        lemma_push_then_pop(s, rest);
        let t = push_all(s, rest);
        assert(t.push(items.last()).drop_last() =~= t);
        lemma_pop_n_prefix(t.push(items.last()), items.len());
    }
}

/// Popping `n` frames from a stack is one pop, then `n - 1` more.
proof fn lemma_pop_n_prefix(s: Seq<CallFrame>, n: nat)
    requires
        0 < n <= s.len(),
    ensures
        pop_n(s, n) == pop_n(s.drop_last(), (n - 1) as nat),
{
}

/// Last in, first out: after pushing `x` then `y`, the top is `y`; the first pop
/// yields `y`, the second `x`, and the stack is then as before.
pub proof fn lemma_lifo(s: Seq<CallFrame>, x: CallFrame, y: CallFrame)
    ensures
        s.push(x).push(y).last() == y,
        s.push(x).push(y).drop_last().last() == x,
        s.push(x).push(y).drop_last().drop_last() == s,
{
    assert(s.push(x).push(y).drop_last() =~= s.push(x));
    assert(s.push(x).drop_last() =~= s);
}

} // verus!
