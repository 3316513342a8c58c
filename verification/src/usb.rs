//! Writing a buffer to the USB serial endpoint, which takes some of the bytes
//! offered to it, or none while it is busy.

use vstd::prelude::*;

verus! {

/// What to do when the endpoint takes nothing.
#[derive(Clone, Copy, PartialEq, Eq, Structural)]
pub enum Patience {
    /// Poll the device and offer the bytes once more.
    RetryOnce,
    /// Poll the device and drop the rest.
    GiveUp,
}

/// What the writer asks for next. Offsets count from the start of the buffer.
#[derive(Clone, Copy, PartialEq, Eq, Structural)]
pub enum PumpStep {
    /// Offer the bytes from this offset on.
    Write(usize),
    /// Poll the device, then offer the bytes from this offset on.
    PollAndWrite(usize),
    /// Poll the device and stop; this many bytes were taken.
    PollAndStop(usize),
    /// Stop; this many bytes were taken.
    Done(usize),
}

/// How the endpoint answered so far.
#[derive(Clone, Copy, PartialEq, Eq, Structural)]
pub enum Mood {
    Willing,
    /// It took nothing, once.
    Busy,
    /// It took nothing after a poll either.
    Stuck,
}

/// What a [`Pump`] holds.
pub struct PumpState {
    pub len: int,
    pub off: int,
    pub mood: Mood,
    pub patience: Patience,
}

/// What a writer in this state asks for.
pub open spec fn request(s: PumpState) -> PumpStep {
    if s.off >= s.len {
        PumpStep::Done(s.off as usize)
    } else {
        match s.mood {
            Mood::Willing => PumpStep::Write(s.off as usize),
            Mood::Busy => match s.patience {
                Patience::RetryOnce => PumpStep::PollAndWrite(s.off as usize),
                Patience::GiveUp => PumpStep::PollAndStop(s.off as usize),
            },
            Mood::Stuck => PumpStep::Done(s.off as usize),
        }
    }
}

/// The state after the endpoint took `n` of the bytes offered.
pub open spec fn taken(s: PumpState, n: int) -> PumpState {
    if n > 0 {
        PumpState { off: s.off + n, mood: Mood::Willing, ..s }
    } else {
        PumpState {
            mood: match s.mood {
                Mood::Willing => Mood::Busy,
                _ => Mood::Stuck,
            },
            ..s
        }
    }
}

/// Progress of one buffer.
pub struct Pump {
    len: usize,
    off: usize,
    mood: Mood,
    patience: Patience,
}

impl View for Pump {
    type V = PumpState;

    closed spec fn view(&self) -> PumpState {
        PumpState {
            len: self.len as int,
            off: self.off as int,
            mood: self.mood,
            patience: self.patience,
        }
    }
}

impl Pump {
    /// A writer for a buffer of `len` bytes.
    pub fn new(len: usize, patience: Patience) -> (r: Self)
        ensures
            r@ == (PumpState { len: len as int, off: 0, mood: Mood::Willing, patience }),
    {
        Pump { len, off: 0, mood: Mood::Willing, patience }
    }

    /// What to do next.
    pub fn step(&self) -> (r: PumpStep)
        ensures
            r == request(self@),
    {
        if self.off >= self.len {
            return PumpStep::Done(self.off);
        }
        match self.mood {
            Mood::Willing => PumpStep::Write(self.off),
            Mood::Busy => match self.patience {
                Patience::RetryOnce => PumpStep::PollAndWrite(self.off),
                Patience::GiveUp => PumpStep::PollAndStop(self.off),
            },
            Mood::Stuck => PumpStep::Done(self.off),
        }
    }

    /// Records that the endpoint took `n` of the bytes offered (none also when
    /// it reported an error).
    pub fn wrote(&mut self, n: usize)
        requires
            old(self)@.off + n <= old(self)@.len,
        ensures
            final(self)@ == taken(old(self)@, n as int),
    {
        if n > 0 {
            self.off = self.off + n;
            self.mood = Mood::Willing;
        } else {
            self.mood = match self.mood {
                Mood::Willing => Mood::Busy,
                _ => Mood::Stuck,
            };
        }
    }
}

/// The state after a series of answers.
pub open spec fn taken_all(s: PumpState, ns: Seq<int>) -> PumpState
    decreases ns.len(),
{
    if ns.len() == 0 {
        s
    } else {
        taken(taken_all(s, ns.drop_last()), ns.last())
    }
}

/// The sum of the answers.
pub open spec fn total(ns: Seq<int>) -> int
    decreases ns.len(),
{
    if ns.len() == 0 {
        0
    } else {
        total(ns.drop_last()) + ns.last()
    }
}

/// The bytes offered next always start right behind those that were taken:
/// none is sent twice, none is skipped.
pub proof fn law_bytes_in_order(s: PumpState, ns: Seq<int>)
    requires
        forall|k: int| 0 <= k < ns.len() ==> #[trigger] ns[k] >= 0,
    ensures
        taken_all(s, ns).off == s.off + total(ns),
        taken_all(s, ns).len == s.len,
        taken_all(s, ns).patience == s.patience,
    decreases ns.len(),
{
    if ns.len() > 0 {
        let d = ns.drop_last();
        assert forall|k: int| 0 <= k < d.len() implies #[trigger] d[k] >= 0 by {
            assert(d[k] == ns[k]);
        }
        law_bytes_in_order(s, d);
        assert(ns[ns.len() - 1] >= 0);
    }
}

/// An endpoint that takes something each time gets the whole buffer.
pub proof fn law_willing_endpoint_gets_all(s: PumpState, ns: Seq<int>)
    requires
        s.mood == Mood::Willing,
        0 <= s.off <= s.len <= usize::MAX,
        forall|k: int| 0 <= k < ns.len() ==> #[trigger] ns[k] > 0,
    ensures
        s.off + total(ns) < s.len ==> request(taken_all(s, ns)) == PumpStep::Write(
            (s.off + total(ns)) as usize,
        ),
        s.off + total(ns) == s.len ==> request(taken_all(s, ns)) == PumpStep::Done(
            s.len as usize,
        ),
    decreases ns.len(),
{
    law_bytes_in_order(s, ns);
    if ns.len() > 0 {
        assert(ns[ns.len() - 1] > 0);
    }
}

/// With bytes left, one refusal leads to a poll, followed by a second try or by
/// the end; a second refusal in a row ends the writing.
pub proof fn law_refusals(s: PumpState)
    requires
        s.mood == Mood::Willing,
        0 <= s.off < s.len,
    ensures
        s.patience == Patience::RetryOnce ==> request(taken(s, 0)) == PumpStep::PollAndWrite(
            s.off as usize,
        ),
        s.patience == Patience::GiveUp ==> request(taken(s, 0)) == PumpStep::PollAndStop(
            s.off as usize,
        ),
        request(taken(taken(s, 0), 0)) == PumpStep::Done(s.off as usize),
{
}

/// Bytes that were taken after a refusal make the endpoint as good as new: the
/// rest is offered without a poll, from right behind them, and the next refusal
/// is a first one again. Length and patience never change.
pub proof fn law_progress_forgives(s: PumpState, n: int)
    requires
        0 <= s.off,
        0 < n,
        s.off + n <= s.len <= usize::MAX,
    ensures
        ({
            let t = taken(s, n);
            &&& t.off == s.off + n
            &&& t.len == s.len
            &&& t.patience == s.patience
            &&& s.off + n < s.len ==> request(t) == PumpStep::Write((s.off + n) as usize)
            &&& s.off + n == s.len ==> request(t) == PumpStep::Done(s.len as usize)
            &&& s.off + n < s.len && s.patience == Patience::RetryOnce ==> request(taken(t, 0))
                == PumpStep::PollAndWrite((s.off + n) as usize)
            &&& s.off + n < s.len && s.patience == Patience::GiveUp ==> request(taken(t, 0))
                == PumpStep::PollAndStop((s.off + n) as usize)
        }),
{
}

/// A writer stops exactly when all is taken or the endpoint is stuck, and says
/// how many bytes were taken.
pub proof fn law_done(s: PumpState)
    requires
        0 <= s.off <= s.len <= usize::MAX,
    ensures
        request(s) is Done <==> s.off == s.len || s.mood == Mood::Stuck,
        request(s) matches PumpStep::Done(k) ==> k == s.off,
        request(s) matches PumpStep::Write(k) ==> k == s.off && s.mood == Mood::Willing,
{
}

} // verus!
