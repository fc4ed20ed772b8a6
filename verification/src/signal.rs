//! Sample-stream state that the effects share: circular delay lines, a
//! sample-and-hold decimator, a hop counter and the noise generator.  The
//! sample type is a parameter; the audio path runs them on `f32`.
use vstd::prelude::*;

verus! {

/// A circular delay line: a fixed-length buffer with a write cursor.  The
/// cursor holds the oldest sample; writing there and stepping on makes the
/// written sample the newest.
pub struct DelayLine<T> {
    buf: Vec<T>,
    pos: usize,
    wrapped: bool,
}

/// Abstract state of a delay line: buffer contents, cursor, and whether the
/// cursor has gone all the way round at least once.
pub struct DelayLineView<T> {
    pub contents: Seq<T>,
    pub cursor: nat,
    pub wrapped: bool,
}

impl<T> View for DelayLine<T> {
    type V = DelayLineView<T>;

    closed spec fn view(&self) -> DelayLineView<T> {
        DelayLineView { contents: self.buf@, cursor: self.pos as nat, wrapped: self.wrapped }
    }
}

/// The cursor lies inside the buffer (or is 0 for an empty line).
pub open spec fn line_ok<T>(v: DelayLineView<T>) -> bool {
    if v.contents.len() == 0 {
        v.cursor == 0
    } else {
        v.cursor < v.contents.len()
    }
}

/// The sample `delay` steps behind the cursor (0 is the cursor itself).
pub open spec fn line_delayed<T>(v: DelayLineView<T>, delay: int) -> T {
    v.contents[(v.cursor + v.contents.len() - delay) % (v.contents.len() as int)]
}

/// The line after `x` is written at the cursor and the cursor steps on.
pub open spec fn line_pushed<T>(v: DelayLineView<T>, x: T) -> DelayLineView<T> {
    DelayLineView {
        contents: v.contents.update(v.cursor as int, x),
        cursor: ((v.cursor + 1) % v.contents.len()) as nat,
        wrapped: v.wrapped || v.cursor + 1 == v.contents.len(),
    }
}

/// The line after each sample of `xs` has been pushed, first to last.
pub open spec fn line_pushed_all<T>(v: DelayLineView<T>, xs: Seq<T>) -> DelayLineView<T>
    decreases xs.len(),
{
    if xs.len() == 0 {
        v
    } else {
        line_pushed(line_pushed_all(v, xs.drop_last()), xs.last())
    }
}

/// Stepping back `delay` places from `cursor` round a buffer of `len`.
proof fn lemma_wrap_back(cursor: int, len: int, delay: int)
    requires
        0 <= cursor < len,
        0 <= delay < len,
    ensures
        (cursor + len - delay) % len == (if cursor >= delay {
            cursor - delay
        } else {
            cursor + len - delay
        }),
{
    if cursor >= delay {
        vstd::arithmetic::div_mod::lemma_mod_add_multiples_vanish(cursor - delay, len);
        vstd::arithmetic::div_mod::lemma_small_mod((cursor - delay) as nat, len as nat);
    } else {
        vstd::arithmetic::div_mod::lemma_small_mod((cursor + len - delay) as nat, len as nat);
    }
}

impl<T: Copy> DelayLine<T> {
    /// A line of `len` samples, all `fill`, cursor at 0.
    pub fn new(len: usize, fill: T) -> (r: Self)
        ensures
            r@.contents == Seq::new(len as nat, |i: int| fill),
            r@.cursor == 0,
            !r@.wrapped,
            line_ok(r@),
    {
        let mut buf: Vec<T> = Vec::new();
        let mut i: usize = 0;
        while i < len
            invariant
                i <= len,
                buf@ == Seq::new(i as nat, |j: int| fill),
            decreases len - i,
        {
            buf.push(fill);
            i = i + 1;
            assert(buf@ =~= Seq::new(i as nat, |j: int| fill));
        }
        DelayLine { buf, pos: 0, wrapped: false }
    }

    /// Number of samples the line holds.
    pub fn len(&self) -> (r: usize)
        ensures
            r == self@.contents.len(),
    {
        self.buf.len()
    }

    /// The write cursor.
    pub fn cursor(&self) -> (r: usize)
        ensures
            r == self@.cursor,
    {
        self.pos
    }

    /// Whether the cursor has gone all the way round at least once.
    pub fn has_wrapped(&self) -> (r: bool)
        ensures
            r == self@.wrapped,
    {
        self.wrapped
    }

    /// The whole buffer, in storage order.
    pub fn as_slice(&self) -> (r: &[T])
        ensures
            r@ == self@.contents,
    {
        self.buf.as_slice()
    }

    /// The sample at the cursor: the oldest one, about to be overwritten.
    pub fn at_cursor(&self) -> (r: T)
        requires
            line_ok(self@),
            self@.contents.len() > 0,
        ensures
            r == self@.contents[self@.cursor as int],
            r == line_delayed(self@, 0),
    {
        proof {
            lemma_wrap_back(self@.cursor as int, self@.contents.len() as int, 0);
        }
        self.buf[self.pos]
    }

    /// The sample `delay` steps behind the cursor.
    pub fn delayed(&self, delay: usize) -> (r: T)
        requires
            line_ok(self@),
            delay < self@.contents.len(),
        ensures
            r == line_delayed(self@, delay as int),
    {
        let len: usize = self.buf.len();
        proof {
            lemma_wrap_back(self@.cursor as int, len as int, delay as int);
        }
        let idx: usize = if self.pos >= delay {
            self.pos - delay
        } else {
            self.pos + (len - delay)
        };
        self.buf[idx]
    }

    /// Samples read from the cursor on in steps of `stride`, wrapping round:
    /// `r[i]` is the sample at `(cursor + i * stride) % len`.
    pub fn strided_from_cursor(&self, stride: usize, count: usize) -> (r: Vec<T>)
        requires
            line_ok(self@),
            self@.contents.len() > 0,
            count * stride + self@.contents.len() <= usize::MAX,
        ensures
            r@.len() == count,
            forall|i: int|
                0 <= i < count ==> #[trigger] r@[i] == self@.contents[(self@.cursor + i * stride)
                    % (self@.contents.len() as int)],
    {
        let len: usize = self.buf.len();
        let mut out: Vec<T> = Vec::new();
        let mut i: usize = 0;
        while i < count
            invariant
                len == self@.contents.len(),
                len > 0,
                self@.cursor < len,
                i <= count,
                count * stride + len <= usize::MAX,
                out@.len() == i,
                forall|j: int|
                    0 <= j < i ==> #[trigger] out@[j] == self@.contents[(self@.cursor + j * stride)
                        % (len as int)],
            decreases count - i,
        {
            assert(i * stride <= count * stride) by (nonlinear_arith)
                requires
                    i < count,
            ;
            let idx: usize = (self.pos + i * stride) % len;
            out.push(self.buf[idx]);
            i = i + 1;
        }
        out
    }

    /// Writes `x` at the cursor without moving it.
    pub fn write(&mut self, x: T)
        requires
            line_ok(old(self)@),
            old(self)@.contents.len() > 0,
        ensures
            line_ok(final(self)@),
            final(self)@.contents == old(self)@.contents.update(old(self)@.cursor as int, x),
            final(self)@.cursor == old(self)@.cursor,
            final(self)@.wrapped == old(self)@.wrapped,
    {
        let p: usize = self.pos;
        self.buf.set(p, x);
    }

    /// Steps the cursor on by one, wrapping round at the end of the buffer.
    pub fn advance(&mut self)
        requires
            line_ok(old(self)@),
            old(self)@.contents.len() > 0,
        ensures
            line_ok(final(self)@),
            final(self)@.contents == old(self)@.contents,
            final(self)@.cursor == (old(self)@.cursor + 1) % old(self)@.contents.len(),
            final(self)@.wrapped == (old(self)@.wrapped || old(self)@.cursor + 1
                == old(self)@.contents.len()),
    {
        let len: usize = self.buf.len();
        let next: usize = self.pos + 1;
        proof {
            if next < len {
                vstd::arithmetic::div_mod::lemma_small_mod(next as nat, len as nat);
            } else {
                vstd::arithmetic::div_mod::lemma_mod_self_0(len as int);
            }
        }
        if next >= len {
            self.pos = 0;
            self.wrapped = true;
        } else {
            self.pos = next;
        }
    }

    /// Writes `x` at the cursor and steps on: `x` becomes the newest sample.
    pub fn push(&mut self, x: T)
        requires
            line_ok(old(self)@),
            old(self)@.contents.len() > 0,
        ensures
            line_ok(final(self)@),
            final(self)@ == line_pushed(old(self)@, x),
    {
        self.write(x);
        self.advance();
    }
}

proof fn lemma_step_back(c: int, len: int, e: int)
    requires
        0 <= c < len,
        1 <= e <= len,
    ensures
        ((c + 1) % len + len - e) % len == (c + len - (e - 1)) % len,
{
    if c + 1 < len {
        vstd::arithmetic::div_mod::lemma_small_mod((c + 1) as nat, len as nat);
    } else {
        vstd::arithmetic::div_mod::lemma_mod_self_0(len);
        vstd::arithmetic::div_mod::lemma_mod_add_multiples_vanish(len - e, len);
        assert(c + len - (e - 1) == len + (len - e));
    }
}

proof fn lemma_pushed_shape<T>(v: DelayLineView<T>, xs: Seq<T>)
    requires
        line_ok(v),
        v.contents.len() > 0,
    ensures
        line_ok(line_pushed_all(v, xs)),
        line_pushed_all(v, xs).contents.len() == v.contents.len(),
    decreases xs.len(),
{
    if xs.len() > 0 {
        lemma_pushed_shape(v, xs.drop_last());
        let w = line_pushed_all(v, xs.drop_last());
        vstd::arithmetic::div_mod::lemma_mod_bound((w.cursor + 1) as int, w.contents.len() as int);
    }
}

/// Law: in a delay line of length `L`, the sample `d` places behind the
/// cursor (for `1 <= d <= L`, `d == L` being the cursor itself) is the one
/// pushed `d` pushes ago.
pub proof fn law_delay_line_history<T>(v: DelayLineView<T>, xs: Seq<T>, d: int)
    requires
        line_ok(v),
        v.contents.len() > 0,
        1 <= d <= v.contents.len(),
        d <= xs.len(),
    ensures
        line_delayed(line_pushed_all(v, xs), d) == xs[xs.len() - d],
    decreases xs.len(),
{
    let len: int = v.contents.len() as int;
    let ys = xs.drop_last();
    let x = xs.last();
    lemma_pushed_shape(v, ys);
    let w = line_pushed_all(v, ys);
    let c: int = w.cursor as int;
    lemma_step_back(c, len, d);
    if d == 1 {
        vstd::arithmetic::div_mod::lemma_mod_add_multiples_vanish(c, len);
        vstd::arithmetic::div_mod::lemma_small_mod(c as nat, len as nat);
        assert(c + len - (d - 1) == len + c);
    } else {
        lemma_wrap_back(c, len, d - 1);
        law_delay_line_history(v, ys, d - 1);
        assert(ys[ys.len() - (d - 1)] == xs[xs.len() - d]);
    }
}

/// A sample-and-hold decimator: it takes a new sample every `hold` calls and
/// repeats it in between.
pub struct SampleHold<T> {
    held: T,
    age: u32,
}

/// Abstract state of a sample-and-hold: the held sample and how many calls
/// ago it was taken.
pub struct SampleHoldView<T> {
    pub held: T,
    pub age: u32,
}

impl<T> View for SampleHold<T> {
    type V = SampleHoldView<T>;

    closed spec fn view(&self) -> SampleHoldView<T> {
        SampleHoldView { held: self.held, age: self.age }
    }
}

/// One call of the sample-and-hold: a new sample is taken when the age is 0;
/// the age then counts up and returns to 0 once it reaches `hold`.
pub open spec fn hold_step<T>(s: SampleHoldView<T>, x: T, hold: u32) -> SampleHoldView<T> {
    SampleHoldView {
        held: if s.age == 0 {
            x
        } else {
            s.held
        },
        age: if s.age + 1 >= hold {
            0
        } else {
            (s.age + 1) as u32
        },
    }
}

/// The sample-and-hold after each sample of `xs`, first to last.
pub open spec fn hold_run<T>(s: SampleHoldView<T>, xs: Seq<T>, hold: u32) -> SampleHoldView<T>
    decreases xs.len(),
{
    if xs.len() == 0 {
        s
    } else {
        hold_step(hold_run(s, xs.drop_last(), hold), xs.last(), hold)
    }
}

impl<T> SampleHold<T> {
    #[verifier::type_invariant]
    closed spec fn inv(&self) -> bool {
        self.age < u32::MAX
    }
}

impl<T: Copy> SampleHold<T> {
    /// A sample-and-hold holding `initial`, about to take a new sample.
    pub fn new(initial: T) -> (r: Self)
        ensures
            r@ == (SampleHoldView { held: initial, age: 0 }),
    {
        SampleHold { held: initial, age: 0 }
    }

    /// Feeds one sample; returns the held sample.
    pub fn process(&mut self, x: T, hold: u32) -> (r: T)
        ensures
            final(self)@ == hold_step(old(self)@, x, hold),
            r == final(self)@.held,
            r == (if old(self)@.age == 0 {
                x
            } else {
                old(self)@.held
            }),
            old(self)@.age + 1 >= hold ==> final(self)@.age == 0,
            old(self)@.age + 1 < hold ==> final(self)@.age == old(self)@.age + 1,
            hold >= 1 ==> final(self)@.age < hold,
    {
        proof {
            use_type_invariant(&*self);
        }
        if self.age == 0 {
            self.held = x;
        }
        let next: u32 = self.age + 1;
        if next >= hold {
            self.age = 0;
        } else {
            self.age = next;
        }
        self.held
    }
}

/// Law: started on a fresh period, the sample-and-hold gives out the first
/// sample of the period for the whole period of `hold` calls, and its age
/// counts the calls made so far in the period.
pub proof fn law_sample_hold_period<T>(s: SampleHoldView<T>, xs: Seq<T>, hold: u32)
    requires
        s.age == 0,
        1 <= xs.len() <= hold,
    ensures
        hold_run(s, xs, hold).held == xs[0],
        hold_run(s, xs, hold).age == (if xs.len() == hold {
            0
        } else {
            xs.len()
        }),
    decreases xs.len(),
{
    let prev = hold_run(s, xs.drop_last(), hold);
    assert(hold_run(s, xs, hold) == hold_step(prev, xs.last(), hold));
    if xs.len() > 1 {
        law_sample_hold_period(s, xs.drop_last(), hold);
        assert(xs.drop_last()[0] == xs[0]);
    } else {
        assert(xs.drop_last().len() == 0);
        assert(prev == s);
    }
}

/// Law: whatever the state and whatever hold length (at least 1) a call is
/// made with, the age after the call is below that hold length: a call whose
/// counted age reaches or passes the hold length starts a new period (age 0),
/// any other call counts one more.  The sample given out is the new one when
/// the age was 0 and the held one otherwise.
pub proof fn law_sample_hold_age_below_hold<T>(s: SampleHoldView<T>, x: T, hold: u32)
    requires
        hold >= 1,
    ensures
        hold_step(s, x, hold).age < hold,
        s.age + 1 >= hold ==> hold_step(s, x, hold).age == 0,
        s.age + 1 < hold ==> hold_step(s, x, hold).age == s.age + 1,
        hold_step(s, x, hold).held == (if s.age == 0 {
            x
        } else {
            s.held
        }),
{
}

/// Law: after any run of at least one call with hold length `hold >= 1`, the
/// age is below `hold`, from whatever state the run started.
pub proof fn law_sample_hold_run_age_below<T>(s: SampleHoldView<T>, xs: Seq<T>, hold: u32)
    requires
        hold >= 1,
        xs.len() >= 1,
    ensures
        hold_run(s, xs, hold).age < hold,
{
    assert(hold_run(s, xs, hold) == hold_step(hold_run(s, xs.drop_last(), hold), xs.last(), hold));
}

/// Law: when the hold length drops below the age counted so far (the crunch
/// setting was lowered), the next call ends the period and the call after
/// it takes its own sample, whatever hold length that call is made with.
pub proof fn law_sample_hold_resyncs<T>(s: SampleHoldView<T>, x: T, y: T, hold: u32, next_hold: u32)
    requires
        s.age + 1 >= hold,
    ensures
        hold_step(s, x, hold).age == 0,
        hold_step(hold_step(s, x, hold), y, next_hold).held == y,
{
}

/// Steps a detection hop counter: the count goes up by one, and once it
/// reaches `hop` it returns to 0 and the second result says a hop is due.
pub fn hop_tick(count: usize, hop: usize) -> (r: (usize, bool))
    requires
        count < usize::MAX,
    ensures
        r.1 == (count + 1 >= hop),
        r.0 == (if count + 1 >= hop {
            0
        } else {
            count + 1
        }),
{
    let next: usize = count + 1;
    if next >= hop {
        (0, true)
    } else {
        (next, false)
    }
}

/// Multiplier of the noise generator (a 32-bit linear
/// congruential generator).
pub const NOISE_MUL: u32 = 1664525;

/// Increment of the noise generator.
pub const NOISE_ADD: u32 = 1013904223;

/// The next state of the noise generator: `state * 1664525 + 1013904223`
/// modulo 2^32.
pub fn next_noise(state: u32) -> (r: u32)
    ensures
        r as int == (state as int * NOISE_MUL as int + NOISE_ADD as int) % 0x1_0000_0000,
{
    let r: u32 = state.wrapping_mul(NOISE_MUL).wrapping_add(NOISE_ADD);
    proof {
        vstd::arithmetic::div_mod::lemma_add_mod_noop(
            state as int * NOISE_MUL as int,
            NOISE_ADD as int,
            0x1_0000_0000,
        );
        vstd::arithmetic::div_mod::lemma_small_mod(NOISE_ADD as nat, 0x1_0000_0000);
    }
    r
}

} // verus!
