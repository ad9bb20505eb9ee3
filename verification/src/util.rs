//! Small interface utilities: a wrap-around cursor over a sequence.

use vstd::prelude::*;

verus! {

/// A sequence together with an optional selected index.  The selection
/// exists exactly when the sequence is non-empty, and moving it up or
/// down wraps around at both ends.
pub struct WrappingList<T> {
    data: Vec<T>,
    selected: Option<usize>,
}

/// Index reached from `i` by one downward step over `n` elements.
pub open spec fn down_ix(i: nat, n: nat) -> nat
    recommends
        n > 0,
{
    (((i + 1) as int) % (n as int)) as nat
}

/// Index reached from `i` by one upward step over `n` elements.
pub open spec fn up_ix(i: nat, n: nat) -> nat
    recommends
        n > 0,
{
    (((i + n - 1) as int) % (n as int)) as nat
}

impl<T> WrappingList<T> {
    /// The elements, as a mathematical sequence.
    pub closed spec fn elems(&self) -> Seq<T> {
        self.data@
    }

    /// The selected index, if any.
    pub closed spec fn sel(&self) -> Option<usize> {
        self.selected
    }

    /// An index is selected exactly when the list is non-empty, and then
    /// it lies inside the list.
    pub open spec fn wf(&self) -> bool {
        match self.sel() {
            Option::Some(i) => 0 < self.elems().len() && (i as int) < self.elems().len(),
            Option::None => self.elems().len() == 0,
        }
    }

    /// Builds a list over `data`; index 0 is selected exactly when
    /// `data` is non-empty.
    pub fn new(data: Vec<T>) -> (r: Self)
        ensures
            r.wf(),
            r.elems() == data@,
            r.sel() == if data@.len() > 0 {
                Option::Some(0usize)
            } else {
                Option::<usize>::None
            },
    {
        let selected: Option<usize> = if data.len() > 0 {
            Option::Some(0)
        } else {
            Option::None
        };
        WrappingList { data, selected }
    }

    /// The elements, for iteration by the caller.
    pub fn iter(&self) -> (r: &Vec<T>)
        ensures
            r@ == self.elems(),
    {
        &self.data
    }

    /// The number of elements.
    pub fn len(&self) -> (n: usize)
        ensures
            n == self.elems().len(),
    {
        self.data.len()
    }

    /// The selected index, if any.
    pub fn selected_ix(&self) -> (r: Option<usize>)
        ensures
            r == self.sel(),
    {
        self.selected
    }

    /// The selected element, if any.
    pub fn selected(&self) -> (r: Option<&T>)
        requires
            self.wf(),
        ensures
            match r {
                Option::Some(v) => self.sel() is Some && *v == self.elems()[self.sel()->0 as int],
                Option::None => self.sel() is None,
            },
    {
        match self.selected {
            Option::Some(i) => Option::Some(&self.data[i]),
            Option::None => Option::None,
        }
    }

    /// Replaces the selected element; does nothing on an empty list.
    pub fn set_selected(&mut self, value: T)
        requires
            old(self).wf(),
        ensures
            final(self).wf(),
            final(self).sel() == old(self).sel(),
            match old(self).sel() {
                Option::Some(i) => final(self).elems() == old(self).elems().update(
                    i as int,
                    value,
                ),
                Option::None => final(self).elems() == old(self).elems(),
            },
    {
        match self.selected {
            Option::Some(i) => self.data.set(i, value),
            Option::None => {},
        }
    }

    /// Moves the selection one step forward, wrapping past the end;
    /// does nothing on an empty list.
    pub fn down(&mut self)
        requires
            old(self).wf(),
        ensures
            final(self).wf(),
            final(self).elems() == old(self).elems(),
            match old(self).sel() {
                Option::Some(i) => final(self).sel() == Option::Some(
                    down_ix(i as nat, old(self).elems().len()) as usize,
                ),
                Option::None => final(self).sel() is None,
            },
    {
        match self.selected {
            Option::Some(i) => {
                let n = self.data.len();
                let next: usize = if i + 1 < n {
                    i + 1
                } else {
                    0
                };
                assert(next as int == (i + 1) % (n as int)) by {
                    if i + 1 < n {
                        vstd::arithmetic::div_mod::lemma_small_mod((i + 1) as nat, n as nat);
                    } else {
                        vstd::arithmetic::div_mod::lemma_mod_self_0(n as int);
                    }
                };
                self.selected = Option::Some(next);
            },
            Option::None => {},
        }
    }

    /// Moves the selection one step backward, wrapping past the start;
    /// does nothing on an empty list.
    pub fn up(&mut self)
        requires
            old(self).wf(),
        ensures
            final(self).wf(),
            final(self).elems() == old(self).elems(),
            match old(self).sel() {
                Option::Some(i) => final(self).sel() == Option::Some(
                    up_ix(i as nat, old(self).elems().len()) as usize,
                ),
                Option::None => final(self).sel() is None,
            },
    {
        match self.selected {
            Option::Some(i) => {
                let n = self.data.len();
                let next: usize = if i == 0 {
                    n - 1
                } else {
                    i - 1
                };
                assert(next as int == (i + n - 1) % (n as int)) by {
                    if i == 0 {
                        vstd::arithmetic::div_mod::lemma_small_mod((n - 1) as nat, n as nat);
                    } else {
                        vstd::arithmetic::div_mod::lemma_mod_sub_multiples_vanish(
                            (i + n - 1) as int,
                            n as int,
                        );
                        vstd::arithmetic::div_mod::lemma_small_mod((i - 1) as nat, n as nat);
                    }
                };
                self.selected = Option::Some(next);
            },
            Option::None => {},
        }
    }
}

/// Moving up and then down over `n` elements returns to the start index;
/// so does moving down and then up.
pub proof fn lemma_up_down_inverse(i: nat, n: nat)
    requires
        n > 0,
        i < n,
    ensures
        down_ix(up_ix(i, n), n) == i,
        up_ix(down_ix(i, n), n) == i,
{
    vstd::arithmetic::div_mod::lemma_mod_bound((i + n - 1) as int, n as int);
    vstd::arithmetic::div_mod::lemma_mod_bound((i + 1) as int, n as int);
    vstd::arithmetic::div_mod::lemma_add_mod_noop_right(1, (i + n - 1) as int, n as int);
    vstd::arithmetic::div_mod::lemma_add_mod_noop_right((n - 1) as int, (i + 1) as int, n as int);
    vstd::arithmetic::div_mod::lemma_mod_multiples_vanish(1, i as int, n as int);
    vstd::arithmetic::div_mod::lemma_small_mod(i, n);
    assert(down_ix(up_ix(i, n), n) == (1 + (i + n - 1) % (n as int)) % (n as int));
    assert(up_ix(down_ix(i, n), n) == ((n - 1) + ((i + 1) as int) % (n as int)) % (n as int));
    assert(n * 1 + i == i + n);
}

/// `k` successive downward steps over `n` elements land on `(i + k) % n`.
pub open spec fn down_iter(i: nat, n: nat, k: nat) -> nat
    recommends
        n > 0,
    decreases k,
{
    if k == 0 {
        i
    } else {
        down_ix(down_iter(i, n, (k - 1) as nat), n)
    }
}

/// `k` successive upward steps over `n` elements.
pub open spec fn up_iter(i: nat, n: nat, k: nat) -> nat
    recommends
        n > 0,
    decreases k,
{
    if k == 0 {
        i
    } else {
        up_ix(up_iter(i, n, (k - 1) as nat), n)
    }
}

/// Each downward step adds one modulo `n`.
pub proof fn lemma_down_iter_mod(i: nat, n: nat, k: nat)
    requires
        n > 0,
        i < n,
    ensures
        down_iter(i, n, k) == ((i + k) as int) % (n as int),
    decreases k,
{
    if k == 0 {
        vstd::arithmetic::div_mod::lemma_small_mod(i, n);
    } else {
        lemma_down_iter_mod(i, n, (k - 1) as nat);
        let prev = down_iter(i, n, (k - 1) as nat);
        vstd::arithmetic::div_mod::lemma_mod_bound((i + k - 1) as int, n as int);
        vstd::arithmetic::div_mod::lemma_add_mod_noop_right(1, (i + k - 1) as int, n as int);
        assert(down_ix(prev, n) == (1 + (i + k - 1) % (n as int)) % (n as int));
    }
}

/// Each upward step subtracts one modulo `n`.
pub proof fn lemma_up_iter_mod(i: nat, n: nat, k: nat)
    requires
        n > 0,
        i < n,
    ensures
        up_iter(i, n, k) == ((i + k * (n - 1)) as int) % (n as int),
    decreases k,
{
    if k == 0 {
        vstd::arithmetic::div_mod::lemma_small_mod(i, n);
        assert(i + 0 * (n - 1) == i) by (nonlinear_arith);
    } else {
        lemma_up_iter_mod(i, n, (k - 1) as nat);
        let prev = up_iter(i, n, (k - 1) as nat);
        let base = (i + (k - 1) * (n - 1)) as int;
        vstd::arithmetic::div_mod::lemma_mod_bound(base, n as int);
        vstd::arithmetic::div_mod::lemma_add_mod_noop_right((n - 1) as int, base, n as int);
        assert(up_ix(prev, n) == ((n - 1) + base % (n as int)) % (n as int));
        assert((i + (k - 1) * (n - 1)) + (n - 1) == i + k * (n - 1)) by (nonlinear_arith);
    }
}

/// Over a list of `n` elements, `n` downward steps — and `n` upward
/// steps — return the selection to where it started.
pub proof fn lemma_full_cycle(i: nat, n: nat)
    requires
        n > 0,
        i < n,
    ensures
        down_iter(i, n, n) == i,
        up_iter(i, n, n) == i,
{
    lemma_down_iter_mod(i, n, n);
    vstd::arithmetic::div_mod::lemma_mod_multiples_vanish(1, i as int, n as int);
    assert(n * 1 + i == i + n);
    vstd::arithmetic::div_mod::lemma_small_mod(i, n);
    lemma_up_iter_mod(i, n, n);
    assert(i + n * (n - 1) == i + (n - 1) * n) by (nonlinear_arith);
    vstd::arithmetic::div_mod::lemma_mod_multiples_vanish((n - 1) as int, i as int, n as int);
}

/// The period of the spinner, in milliseconds.
pub const SPINNER_PERIOD_MS: u64 = 80;

/// The glyph shown at step `i` of the ten-step cycle.
pub open spec fn spinner_glyph(i: int) -> char {
    if i == 0 {
        '\u{280b}'
    } else if i == 1 {
        '\u{2819}'
    } else if i == 2 {
        '\u{2839}'
    } else if i == 3 {
        '\u{2838}'
    } else if i == 4 {
        '\u{283c}'
    } else if i == 5 {
        '\u{2834}'
    } else if i == 6 {
        '\u{2826}'
    } else if i == 7 {
        '\u{2827}'
    } else if i == 8 {
        '\u{2807}'
    } else {
        '\u{280f}'
    }
}

/// A time-gated index into a ten-glyph cycle, used as a progress tick.
pub struct DotsSpinner {
    state: usize,
    last_tick: Option<u64>,
}

/// What one tick observed at instant `now` (in milliseconds) does to a
/// spinner: the first tick only records the instant; a later tick
/// advances the glyph exactly when at least the period has passed.
pub open spec fn tick_post(pre: DotsSpinner, post: DotsSpinner, now: u64) -> bool {
    match pre.last() {
        Option::None => post.ix() == pre.ix() && post.last() == Option::Some(now),
        Option::Some(t) => if now >= t + SPINNER_PERIOD_MS {
            post.ix() as int == (pre.ix() + 1) % 10 && post.last() == Option::Some(now)
        } else {
            post == pre
        },
    }
}

/// Relies on `std::time::SystemTime::now`: a wall-clock reading, here
/// reduced to whole milliseconds since the epoch.  Nothing is promised
/// of its value.
#[verifier::external_body]
fn now_millis() -> u64 {
    match std::time::SystemTime::now().duration_since(std::time::UNIX_EPOCH) {
        Ok(d) => d.as_millis() as u64,
        Err(_) => 0,
    }
}

impl DotsSpinner {
    /// The current step of the cycle.
    pub closed spec fn ix(&self) -> usize {
        self.state
    }

    /// The instant of the last advance, if any.
    pub closed spec fn last(&self) -> Option<u64> {
        self.last_tick
    }

    /// The step always lies inside the cycle.
    pub open spec fn wf(&self) -> bool {
        self.ix() < 10
    }

    /// A fresh spinner at the first glyph, never ticked.
    pub fn new() -> (r: Self)
        ensures
            r.wf(),
            r.ix() == 0,
            r.last() is None,
    {
        DotsSpinner { state: 0, last_tick: Option::None }
    }

    /// Advances the spinner for the instant `now`.
    pub fn tick_at(&mut self, now: u64)
        requires
            old(self).wf(),
        ensures
            final(self).wf(),
            tick_post(*old(self), *final(self), now),
    {
        match self.last_tick {
            Option::None => {
                self.last_tick = Option::Some(now);
            },
            Option::Some(t) => {
                if now >= t && now - t >= SPINNER_PERIOD_MS {
                    self.last_tick = Option::Some(now);
                    let next: usize = if self.state + 1 < 10 {
                        self.state + 1
                    } else {
                        0
                    };
                    proof {
                        if self.state + 1 < 10 {
                            vstd::arithmetic::div_mod::lemma_small_mod(
                                (self.state + 1) as nat,
                                10nat,
                            );
                        } else {
                            vstd::arithmetic::div_mod::lemma_mod_self_0(10int);
                        }
                    }
                    self.state = next;
                }
            },
        }
    }

    /// Advances the spinner against the wall clock: whatever instant
    /// the clock reports, the step moves as `tick_post` says for it.
    pub fn tick(&mut self)
        requires
            old(self).wf(),
        ensures
            final(self).wf(),
            exists|now: u64| tick_post(*old(self), *final(self), now),
    {
        let now = now_millis();
        self.tick_at(now);
    }

    /// The glyph for the current step.
    pub fn pattern(&self) -> (r: char)
        requires
            self.wf(),
        ensures
            r == spinner_glyph(self.ix() as int),
    {
        if self.state == 0 {
            '\u{280b}'
        } else if self.state == 1 {
            '\u{2819}'
        } else if self.state == 2 {
            '\u{2839}'
        } else if self.state == 3 {
            '\u{2838}'
        } else if self.state == 4 {
            '\u{283c}'
        } else if self.state == 5 {
            '\u{2834}'
        } else if self.state == 6 {
            '\u{2826}'
        } else if self.state == 7 {
            '\u{2827}'
        } else if self.state == 8 {
            '\u{2807}'
        } else {
            '\u{280f}'
        }
    }
}

} // verus!
