//! The chain cursor: which middleware runs next, and when the terminal
//! handler takes over.
use vstd::prelude::*;

verus! {

/// The status the built-in not-found handler answers with, on an empty body.
pub const NOT_FOUND_STATUS: u16 = 404;

/// The last link of a chain: a registered handler, by index, or the built-in
/// not-found handler.
#[derive(Clone, Copy, Debug, PartialEq, Eq, Structural)]
pub enum Terminal {
    Handler(usize),
    NotFound,
}

/// A cursor over the middleware still to run for one request, followed by
/// its terminal handler.
#[derive(Clone, Copy, Debug)]
pub struct Next {
    terminal: Terminal,
    pos: usize,
    count: usize,
}

/// What a cursor hands out when it is advanced.
#[derive(Clone, Copy, Debug)]
pub enum Step {
    /// Run the middleware at this index, with the rest of the chain as its
    /// continuation.
    Middleware(usize, Next),
    /// No middleware is left: run the terminal handler.
    Terminal(Terminal),
}

/// One observable moment of a chain run.
#[derive(Clone, Copy, Debug, PartialEq, Eq, Structural)]
pub enum ChainEvent {
    /// The middleware at this index starts.
    Before(usize),
    /// The terminal handler runs.
    Handler(Terminal),
    /// The middleware at this index returns its response.
    After(usize),
}

impl Next {
    /// The terminal handler this cursor falls through to.
    pub closed spec fn terminal_spec(self) -> Terminal {
        self.terminal
    }

    /// Index of the next middleware to run.
    pub closed spec fn position(self) -> nat {
        self.pos as nat
    }

    /// Number of middleware in the chain.
    pub closed spec fn count(self) -> nat {
        self.count as nat
    }

    /// What advancing the cursor yields.
    pub closed spec fn step_spec(self) -> Step {
        if self.pos < self.count {
            Step::Middleware(self.pos, Next { terminal: self.terminal, pos: (self.pos + 1) as usize, count: self.count })
        } else {
            Step::Terminal(self.terminal)
        }
    }

    /// A cursor before the first of `count` middleware, ending in `terminal`.
    pub fn new(terminal: Terminal, count: usize) -> (r: Next)
        ensures
            r.terminal_spec() == terminal,
            r.position() == 0,
            r.count() == count,
    {
        Next { terminal, pos: 0, count }
    }

    /// The terminal handler this cursor falls through to.
    pub fn terminal(&self) -> (r: Terminal)
        ensures
            r == self.terminal_spec(),
    {
        self.terminal
    }

    /// Advances the cursor: the next middleware with the cursor after it, or
    /// the terminal handler once none is left.
    pub fn step(self) -> (r: Step)
        ensures
            r == self.step_spec(),
            self.position() < self.count() ==> (r matches Step::Middleware(i, rest) && i
                == self.position() && rest.position() == self.position() + 1 && rest.count()
                == self.count() && rest.terminal_spec() == self.terminal_spec()),
            self.position() >= self.count() ==> r == Step::Terminal(self.terminal_spec()),
    {
        if self.pos < self.count {
            Step::Middleware(self.pos, Next { terminal: self.terminal, pos: self.pos + 1, count: self.count })
        } else {
            Step::Terminal(self.terminal)
        }
    }

    /// The events of running the chain from this cursor, where middleware `i`
    /// calls its continuation exactly when `proceeds[i]`, and otherwise
    /// answers by itself.
    pub closed spec fn run_events(self, proceeds: Seq<bool>) -> Seq<ChainEvent>
        decreases self.count() - self.position(),
    {
        match self.step_spec() {
            Step::Middleware(i, rest) => {
                if self.position() < self.count() && proceeds[i as int] {
                    seq![ChainEvent::Before(i)] + rest.run_events(proceeds) + seq![
                        ChainEvent::After(i),
                    ]
                } else {
                    seq![ChainEvent::Before(i), ChainEvent::After(i)]
                }
            },
            Step::Terminal(t) => seq![ChainEvent::Handler(t)],
        }
    }
}

/// `Before(from)`, ..., `Before(to - 1)`: middleware starting in chain order.
pub open spec fn befores(from: nat, to: nat) -> Seq<ChainEvent> {
    Seq::new((to - from) as nat, |k: int| ChainEvent::Before((from + k) as usize))
}

/// `After(to - 1)`, ..., `After(from)`: middleware returning in reverse order.
pub open spec fn afters(from: nat, to: nat) -> Seq<ChainEvent> {
    Seq::new((to - from) as nat, |k: int| ChainEvent::After((to - 1 - k) as usize))
}

/// When every remaining middleware calls its continuation, they start in
/// registration order, the terminal handler runs once, and they return in
/// the reverse order.
pub proof fn lemma_chain_nests(c: Next, proceeds: Seq<bool>)
    requires
        c.position() <= c.count(),
        proceeds.len() == c.count(),
        forall|i: int| c.position() <= i < c.count() ==> #[trigger] proceeds[i],
    ensures
        c.run_events(proceeds) == befores(c.position(), c.count()) + seq![
            ChainEvent::Handler(c.terminal_spec()),
        ] + afters(c.position(), c.count()),
    decreases c.count() - c.position(),
{
    let h = seq![ChainEvent::Handler(c.terminal_spec())];
    if c.position() < c.count() {
        let rest = Next { terminal: c.terminal, pos: (c.pos + 1) as usize, count: c.count };
        lemma_chain_nests(rest, proceeds);
        let p = c.position();
        let n = c.count();
        assert(befores(p, n) =~= seq![ChainEvent::Before(p as usize)] + befores(p + 1, n));
        assert(afters(p, n) =~= afters(p + 1, n) + seq![ChainEvent::After(p as usize)]);
        assert(c.run_events(proceeds) =~= befores(p, n) + h + afters(p, n));
    } else {
        assert(c.run_events(proceeds) =~= befores(c.position(), c.count()) + h + afters(
            c.position(),
            c.count(),
        ));
    }
}

/// When middleware `k` answers without calling its continuation, and those
/// before it call theirs, no later middleware starts and the terminal
/// handler never runs.
pub proof fn lemma_chain_short_circuits(c: Next, proceeds: Seq<bool>, k: nat)
    requires
        c.position() <= k < c.count(),
        proceeds.len() == c.count(),
        !proceeds[k as int],
        forall|i: int| c.position() <= i < k ==> #[trigger] proceeds[i],
    ensures
        c.run_events(proceeds) == befores(c.position(), k + 1) + afters(c.position(), k + 1),
        !c.run_events(proceeds).contains(ChainEvent::Handler(c.terminal_spec())),
        forall|j: usize| j > k ==> !#[trigger] c.run_events(proceeds).contains(ChainEvent::Before(j)),
    decreases k - c.position(),
{
    let p = c.position();
    let ev = c.run_events(proceeds);
    if p < k {
        let rest = Next { terminal: c.terminal, pos: (c.pos + 1) as usize, count: c.count };
        lemma_chain_short_circuits(rest, proceeds, k);
        assert(befores(p, k + 1) =~= seq![ChainEvent::Before(p as usize)] + befores(p + 1, k + 1));
        assert(afters(p, k + 1) =~= afters(p + 1, k + 1) + seq![ChainEvent::After(p as usize)]);
    }
    assert(ev =~= befores(p, k + 1) + afters(p, k + 1));
    assert forall|j: int| 0 <= j < ev.len() implies ev[j] != ChainEvent::Handler(c.terminal_spec()) && (
    ev[j] matches ChainEvent::Before(b) ==> b <= k) by {
        if j < k + 1 - p {
            assert(ev[j] == ChainEvent::Before((p + j) as usize));
        } else {
            assert(ev[j] == ChainEvent::After((k - (j - (k + 1 - p))) as usize));
        }
    }
}

} // verus!
