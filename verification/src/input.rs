//! The input-direction queue.
//!
//! Key presses arrive at any time; the simulation asks for exactly one
//! direction per tick. The queue buffers the presses in order, drops every
//! press that only repeats the direction before it, drops every press that
//! would turn the snake straight back onto its own neck, and hands out one
//! direction per call of [`InputValue::next`].

use std::collections::VecDeque;
use vstd::prelude::*;

verus! {

/// One of the four directions the snake can move in.
#[derive(Clone, Copy, Debug, PartialEq, Eq, Structural)]
pub enum InputDirection {
    Up,
    Down,
    Left,
    Right,
}

impl InputDirection {
    /// The opposite direction: `Up` and `Down` swap, `Left` and `Right` swap.
    pub open spec fn spec_complement(&self) -> InputDirection {
        match self {
            InputDirection::Up => InputDirection::Down,
            InputDirection::Down => InputDirection::Up,
            InputDirection::Left => InputDirection::Right,
            InputDirection::Right => InputDirection::Left,
        }
    }

    /// The opposite direction. It differs from `self`, and its own opposite
    /// is `self` again.
    #[verifier::when_used_as_spec(spec_complement)]
    pub fn complement(&self) -> (r: InputDirection)
        ensures
            r == self.spec_complement(),
            r != *self,
            r.spec_complement() == *self,
    {
        match self {
            InputDirection::Up => InputDirection::Down,
            InputDirection::Down => InputDirection::Up,
            InputDirection::Left => InputDirection::Right,
            InputDirection::Right => InputDirection::Left,
        }
    }
}

/// `true` when the direction at index `i` of `s` is a quarter turn away from
/// the one before it: neither its opposite nor the same again.
pub open spec fn turn_ok(s: Seq<InputDirection>, i: int) -> bool {
    s[i] != s[i - 1].complement() && s[i] != s[i - 1]
}

/// `true` when every direction in `s` but the first is a quarter turn away
/// from the one before it: none is directly followed by its opposite or by
/// itself.
pub open spec fn turns_only(s: Seq<InputDirection>) -> bool {
    forall|i: int| 0 < i < s.len() ==> #[trigger] turn_ok(s, i)
}

/// The mathematical state of the input queue.
pub struct InputView {
    /// The committed direction: what `next` returns.
    pub current: InputDirection,
    /// Accepted directions that wait behind `current`, oldest first.
    pub queue: Seq<InputDirection>,
    /// Whether `current` has been handed out since it was last set.
    pub visited: bool,
}

impl InputView {
    /// The state before any key press: moving right, nothing waiting.
    pub open spec fn initial() -> InputView {
        InputView { current: InputDirection::Right, queue: Seq::empty(), visited: false }
    }

    /// The direction a new press is checked against: the newest waiting
    /// direction, or the committed one when none waits.
    pub open spec fn last(self) -> InputDirection {
        if self.queue.len() > 0 {
            self.queue.last()
        } else {
            self.current
        }
    }

    /// The directions in the order `next` is going to return them.
    pub open spec fn schedule(self) -> Seq<InputDirection> {
        seq![self.current] + self.queue
    }

    /// A delivered committed direction has nothing queued behind it, and no
    /// scheduled direction is directly followed by its opposite or by itself.
    pub open spec fn wf(self) -> bool {
        &&& self.visited ==> self.queue.len() == 0
        &&& turns_only(self.schedule())
    }

    /// `true` when a press of `d` is taken up: `d` is neither the opposite of
    /// `last`, which would be a reversal, nor `last` itself, which would be a
    /// repeat.
    pub open spec fn accepts(self, d: InputDirection) -> bool {
        d != self.last().complement() && d != self.last()
    }

    /// The state after a press of `d`.
    ///
    /// A press of `last` or of its opposite changes nothing. Any other press
    /// replaces a committed direction that was already delivered, and queues
    /// up behind one that was not.
    pub open spec fn push(self, d: InputDirection) -> InputView {
        if !self.accepts(d) {
            self
        } else if self.visited {
            InputView { current: d, queue: self.queue, visited: false }
        } else {
            InputView { current: self.current, queue: self.queue.push(d), visited: false }
        }
    }

    /// The direction for this tick, and the state after handing it out.
    ///
    /// The committed direction is returned. The oldest waiting direction, if
    /// any, becomes the committed one; with nothing waiting the committed
    /// direction stays and is marked as delivered.
    pub open spec fn next(self) -> (InputDirection, InputView) {
        if self.queue.len() > 0 {
            (
                self.current,
                InputView {
                    current: self.queue[0],
                    queue: self.queue.drop_first(),
                    visited: false,
                },
            )
        } else {
            (self.current, InputView { current: self.current, queue: self.queue, visited: true })
        }
    }

    /// The state after the presses `ds`, in order.
    pub open spec fn push_all(self, ds: Seq<InputDirection>) -> InputView
        decreases ds.len(),
    {
        if ds.len() == 0 {
            self
        } else {
            self.push_all(ds.drop_last()).push(ds.last())
        }
    }

    /// The state after `n` ticks without any press.
    pub open spec fn idle(self, n: nat) -> InputView
        decreases n,
    {
        if n == 0 {
            self
        } else {
            self.idle((n - 1) as nat).next().1
        }
    }
}

/// The input queue: the committed direction, the directions waiting behind
/// it, and whether the committed one was already delivered.
pub struct InputValue {
    current: InputDirection,
    queue: VecDeque<InputDirection>,
    visited: bool,
}

impl View for InputValue {
    type V = InputView;

    closed spec fn view(&self) -> InputView {
        InputView { current: self.current, queue: self.queue@, visited: self.visited }
    }
}

impl InputValue {
    /// The invariant that `new` establishes and `push` and `next` keep.
    pub open spec fn wf(&self) -> bool {
        self@.wf()
    }

    /// A queue in its initial state: moving right, nothing waiting.
    pub fn new() -> (r: InputValue)
        ensures
            r@ == InputView::initial(),
            r.wf(),
    {
        InputValue { current: InputDirection::Right, queue: VecDeque::new(), visited: false }
    }

    /// Hands out the direction for this tick.
    pub fn next(&mut self) -> (ret: InputDirection)
        requires
            old(self).wf(),
        ensures
            (ret, final(self)@) == old(self)@.next(),
            ret == old(self)@.current,
            old(self)@.queue.len() - 1 <= final(self)@.queue.len() <= old(self)@.queue.len(),
            final(self).wf(),
    {
        let ret = self.current;
        if let Some(next) = self.queue.pop_front() {
            self.current = next;
        } else {
            self.visited = true;
        }
        proof {
            lemma_next_keeps_wf(old(self)@);
        }
        ret
    }

    /// Records a press of `val`, unless it would reverse the snake or only
    /// repeats the newest direction on record.
    pub fn push(&mut self, val: InputDirection)
        requires
            old(self).wf(),
        ensures
            final(self)@ == old(self)@.push(val),
            !old(self)@.accepts(val) ==> final(self)@ == old(self)@,
            old(self)@.accepts(val) ==> final(self)@.last() == val && !final(self)@.visited,
            final(self).wf(),
    {
        proof {
            lemma_push_keeps_wf(old(self)@, val);
        }
        if self.visited {
            if self.current.complement() == val || self.current == val {
                return ;
            }
            self.current = val;
        } else {
            let n: usize = self.queue.len();
            let last = if n > 0 {
                self.queue[n - 1]
            } else {
                self.current
            };
            if last.complement() == val || last == val {
                return ;
            }
            self.queue.push_back(val);
        }
        self.visited = false;
    }

    /// The committed direction.
    pub fn current(&self) -> (r: InputDirection)
        ensures
            r == self@.current,
    {
        self.current
    }

    /// How many accepted directions wait behind the committed one.
    pub fn pending(&self) -> (n: usize)
        ensures
            n == self@.queue.len(),
    {
        self.queue.len()
    }

    /// Whether the committed direction has been handed out since it was set.
    pub fn visited(&self) -> (r: bool)
        ensures
            r == self@.visited,
    {
        self.visited
    }
}

/// The direction keys that went down in one frame: the arrow keys and
/// `W`, `A`, `S`, `D`.
#[derive(Clone, Copy, Debug, PartialEq, Eq, Structural)]
pub struct KeysPressed {
    pub left: bool,
    pub a: bool,
    pub right: bool,
    pub d: bool,
    pub down: bool,
    pub s: bool,
    pub up: bool,
    pub w: bool,
}

impl KeysPressed {
    /// The presses that the keys stand for, in the order in which they are
    /// recorded: left, right, down, up. An arrow key and its letter count as
    /// one press.
    pub open spec fn directions(self) -> Seq<InputDirection> {
        let none = Seq::<InputDirection>::empty();
        let l = if self.left || self.a {
            none.push(InputDirection::Left)
        } else {
            none
        };
        let lr = if self.right || self.d {
            l.push(InputDirection::Right)
        } else {
            l
        };
        let lrd = if self.down || self.s {
            lr.push(InputDirection::Down)
        } else {
            lr
        };
        if self.up || self.w {
            lrd.push(InputDirection::Up)
        } else {
            lrd
        }
    }
}

/// Records one frame's key presses in `dir`.
pub fn keyboard_pressed(keys: &KeysPressed, dir: &mut InputValue)
    requires
        old(dir).wf(),
    ensures
        final(dir)@ == old(dir)@.push_all(keys.directions()),
        final(dir).wf(),
{
    let ghost mut pressed = Seq::<InputDirection>::empty();
    if keys.left || keys.a {
        dir.push(InputDirection::Left);
        proof {
            lemma_push_all_push(old(dir)@, pressed, InputDirection::Left);
            pressed = pressed.push(InputDirection::Left);
        }
    }
    if keys.right || keys.d {
        dir.push(InputDirection::Right);
        proof {
            lemma_push_all_push(old(dir)@, pressed, InputDirection::Right);
            pressed = pressed.push(InputDirection::Right);
        }
    }
    if keys.down || keys.s {
        dir.push(InputDirection::Down);
        proof {
            lemma_push_all_push(old(dir)@, pressed, InputDirection::Down);
            pressed = pressed.push(InputDirection::Down);
        }
    }
    if keys.up || keys.w {
        dir.push(InputDirection::Up);
        proof {
            lemma_push_all_push(old(dir)@, pressed, InputDirection::Up);
            pressed = pressed.push(InputDirection::Up);
        }
    }
}

/// Pressing `ds` and then `d` is pressing `ds` with `d` at its end.
pub proof fn lemma_push_all_push(s: InputView, ds: Seq<InputDirection>, d: InputDirection)
    ensures
        s.push_all(ds.push(d)) == s.push_all(ds).push(d),
{
    assert(ds.push(d).drop_last() =~= ds);
}

/// `next` keeps a well-formed state well-formed.
pub proof fn lemma_next_keeps_wf(s: InputView)
    requires
        s.wf(),
    ensures
        s.next().1.wf(),
{
    let t = s.next().1;
    if s.queue.len() > 0 {
        assert forall|i: int| 0 < i < t.schedule().len() implies #[trigger] turn_ok(
            t.schedule(),
            i,
        ) by {
            assert(turn_ok(s.schedule(), i + 1));
            assert(t.schedule()[i] == s.schedule()[i + 1]);
            assert(t.schedule()[i - 1] == s.schedule()[i]);
        }
    } else {
        assert(t.schedule() =~= s.schedule());
    }
}

/// `push` keeps a well-formed state well-formed.
pub proof fn lemma_push_keeps_wf(s: InputView, d: InputDirection)
    requires
        s.wf(),
    ensures
        s.push(d).wf(),
{
    let t = s.push(d);
    if !s.accepts(d) {
    } else if s.visited {
        assert(t.schedule() =~= seq![d]);
    } else {
        assert(t.schedule() =~= s.schedule().push(d));
        assert(s.last() == s.schedule().last());
        assert forall|i: int| 0 < i < t.schedule().len() implies #[trigger] turn_ok(
            t.schedule(),
            i,
        ) by {
            if i < s.schedule().len() {
                assert(turn_ok(s.schedule(), i));
            }
        }
    }
}

/// Any number of presses keeps a well-formed state well-formed.
pub proof fn lemma_push_all_keeps_wf(s: InputView, ds: Seq<InputDirection>)
    requires
        s.wf(),
    ensures
        s.push_all(ds).wf(),
    decreases ds.len(),
{
    if ds.len() > 0 {
        lemma_push_all_keeps_wf(s, ds.drop_last());
        lemma_push_keeps_wf(s.push_all(ds.drop_last()), ds.last());
    }
}

/// Taking the opposite twice gives the direction back, and no direction is
/// its own opposite.
pub proof fn lemma_complement_involutive(d: InputDirection)
    ensures
        d.complement().complement() == d,
        d.complement() != d,
{
}

/// A press of the opposite of the newest established direction is dropped:
/// the state stays as it was.
pub proof fn lemma_reversal_is_dropped(s: InputView)
    ensures
        s.push(s.last().complement()) == s,
{
}

/// A press that repeats the newest established direction is dropped: the
/// state stays as it was, and a committed direction that was delivered stays
/// delivered.
pub proof fn lemma_repeat_is_dropped(s: InputView)
    ensures
        s.push(s.last()) == s,
        s.push(s.last()).visited == s.visited,
{
}

/// Pressing a direction twice in a row has the effect of pressing it once.
pub proof fn lemma_repeated_press_collapses(s: InputView, d: InputDirection)
    requires
        s.wf(),
    ensures
        s.push(d).push(d) == s.push(d),
{
    if s.accepts(d) {
        assert(s.push(d).last() == d);
    }
}

/// A press changes the `visited` flag only when nothing waits, the committed
/// direction was already delivered, and the press changes the committed
/// direction. A press that joins the queue, or that repeats the committed
/// direction, leaves the flag alone.
pub proof fn lemma_visited_cleared_only_by_replacing(s: InputView, d: InputDirection)
    requires
        s.wf(),
        s.push(d).visited != s.visited,
    ensures
        s.visited,
        !s.push(d).visited,
        s.queue.len() == 0,
        s.push(d).current == d,
        s.push(d).current != s.current,
        s.push(d).queue.len() == 0,
{
}

/// After a dropped reversal of the newest established direction `d`, the next
/// tick does not move opposite to `d`, provided the committed direction is
/// not itself the opposite of `d` (which it can only be while `d` still waits
/// in the queue behind it).
pub proof fn lemma_reversal_not_delivered(s: InputView)
    requires
        s.current != s.last().complement(),
    ensures
        s.push(s.last().complement()).next().0 != s.last().complement(),
{
}

/// Whatever is pressed between two ticks, the second tick never moves
/// opposite to the first.
pub proof fn lemma_no_reversal_between_ticks(s: InputView, ds: Seq<InputDirection>)
    requires
        s.wf(),
    ensures
        s.next().1.push_all(ds).next().0 != s.next().0.complement(),
{
    let first = s.next().0;
    let t = s.next().1;
    lemma_next_keeps_wf(s);
    assert(t.current != first.complement()) by {
        if s.queue.len() > 0 {
            assert(turn_ok(s.schedule(), 1));
        }
    }
    lemma_committed_after_presses(t, first, ds);
}

/// Presses change the committed direction only once it was delivered, and
/// then never to its opposite.
proof fn lemma_committed_after_presses(t: InputView, first: InputDirection, ds: Seq<InputDirection>)
    requires
        t.wf(),
        t.current != first.complement(),
        t.visited ==> t.current == first,
    ensures
        t.push_all(ds).current != first.complement(),
        t.push_all(ds).visited ==> t.push_all(ds).current == first,
    decreases ds.len(),
{
    if ds.len() > 0 {
        lemma_committed_after_presses(t, first, ds.drop_last());
        lemma_push_all_keeps_wf(t, ds.drop_last());
    }
}

/// One tick hands out one direction and takes at most one direction out of
/// the queue, whatever was pressed before it.
pub proof fn lemma_single_consumption(s: InputView, ds: Seq<InputDirection>)
    ensures
        ({
            let before = s.push_all(ds);
            let after = before.next().1;
            &&& before.next().0 == before.current
            &&& before.queue.len() - 1 <= after.queue.len() <= before.queue.len()
            &&& before.queue.len() > 0 ==> after.queue.len() == before.queue.len() - 1
        }),
{
}

/// With nothing waiting and nothing pressed, every tick returns the committed
/// direction: from the initial state that is `Right`, for ever.
pub proof fn lemma_idle_repeats_committed(s: InputView, n: nat)
    requires
        s.queue.len() == 0,
    ensures
        s.idle(n).next().0 == s.current,
        s.idle(n).queue.len() == 0,
        InputView::initial().queue.len() == 0,
        InputView::initial().current == InputDirection::Right,
    decreases n,
{
    if n > 0 {
        lemma_idle_repeats_committed(s, (n - 1) as nat);
    }
}

} // verus!
