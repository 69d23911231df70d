//! Behavior-tree combinators over a shared blackboard.
use vstd::prelude::*;

verus! {

/// Outcome of running a behavior: `Ok(())` for success, `Err(())` for failure.
pub type Status = Result<(), ()>;

/// A node of a behavior tree, run against a blackboard of type `B`.
///
/// `runs` relates the node and blackboard before a run to the node, the
/// blackboard and the status after it; `can_run` is what a run needs in order
/// to start and to come to an end.
pub trait Behavior<B>: Sized {
    spec fn runs(&self, bb: B, next: Self, bb_next: B, r: Status) -> bool;

    spec fn can_run(&self, bb: B) -> bool;

    fn run(&mut self, bb: &mut B) -> (r: Status)
        requires
            old(self).can_run(*old(bb)),
        ensures
            old(self).runs(*old(bb), *final(self), *final(bb), r),
    ;
}

/// A closure acts as a leaf: it reads the blackboard and returns the new
/// blackboard together with its status.
impl<B, F: Fn(&B) -> (B, Status)> Behavior<B> for F {
    open spec fn runs(&self, bb: B, next: Self, bb_next: B, r: Status) -> bool {
        next == *self && call_ensures(*self, (&bb,), (bb_next, r))
    }

    open spec fn can_run(&self, bb: B) -> bool {
        call_requires(*self, (&bb,))
    }

    fn run(&mut self, bb: &mut B) -> (r: Status) {
        let (nb, r) = (self)(bb);
        *bb = nb;
        r
    }
}

/// A constant status is a leaf that leaves the blackboard alone.
impl<B> Behavior<B> for Status {
    open spec fn runs(&self, bb: B, next: Self, bb_next: B, r: Status) -> bool {
        next == *self && bb_next == bb && r == *self
    }

    open spec fn can_run(&self, bb: B) -> bool {
        true
    }

    fn run(&mut self, bb: &mut B) -> (r: Status) {
        *self
    }
}

/// Returns `Ok(())` when `flag` holds and `Err(())` otherwise.
pub fn status(flag: bool) -> (r: Status)
    ensures
        r is Ok <==> flag,
{
    if flag {
        Ok(())
    } else {
        Err(())
    }
}

/// Runs `condition`, then `if_true` when it succeeded and `if_false` when it failed.
pub struct IfElse<A, B, C> {
    pub condition: A,
    pub if_true: B,
    pub if_false: C,
}

impl<A: Behavior<D>, B: Behavior<D>, C: Behavior<D>, D> Behavior<D> for IfElse<A, B, C> {
    open spec fn runs(&self, bb: D, next: Self, bb_next: D, r: Status) -> bool {
        exists|bb1: D, cr: Status|
            #[trigger] self.condition.runs(bb, next.condition, bb1, cr) && if cr is Ok {
                self.if_true.runs(bb1, next.if_true, bb_next, r) && next.if_false == self.if_false
            } else {
                self.if_false.runs(bb1, next.if_false, bb_next, r) && next.if_true == self.if_true
            }
    }

    open spec fn can_run(&self, bb: D) -> bool {
        &&& self.condition.can_run(bb)
        &&& forall|c2: A, bb1: D, cr: Status| #[trigger]
            self.condition.runs(bb, c2, bb1, cr) ==> if cr is Ok {
                self.if_true.can_run(bb1)
            } else {
                self.if_false.can_run(bb1)
            }
    }

    fn run(&mut self, bb: &mut D) -> (r: Status) {
        let ghost s0 = *self;
        let ghost b0 = *bb;
        let cr = self.condition.run(bb);
        let ghost b1 = *bb;
        let r = if cr.is_ok() {
            self.if_true.run(bb)
        } else {
            self.if_false.run(bb)
        };
        assert(s0.condition.runs(b0, self.condition, b1, cr));
        r
    }
}

/// Runs the inner behavior and swaps success and failure.
pub struct Invert<A>(pub A);

impl<A: Behavior<B>, B> Behavior<B> for Invert<A> {
    open spec fn runs(&self, bb: B, next: Self, bb_next: B, r: Status) -> bool {
        exists|ir: Status| #[trigger] self.0.runs(bb, next.0, bb_next, ir) && (r is Ok <==> ir is Err)
    }

    open spec fn can_run(&self, bb: B) -> bool {
        self.0.can_run(bb)
    }

    fn run(&mut self, bb: &mut B) -> (r: Status) {
        let ghost s0 = *self;
        let ghost b0 = *bb;
        let ir = self.0.run(bb);
        assert(s0.0.runs(b0, self.0, *bb, ir));
        match ir {
            Ok(_) => Err(()),
            Err(_) => Ok(()),
        }
    }
}

/// A tuple of one behavior runs it.
impl<A: Behavior<C>, C> Behavior<C> for (A,) {
    open spec fn runs(&self, bb: C, next: Self, bb_next: C, r: Status) -> bool {
        self.0.runs(bb, next.0, bb_next, r)
    }

    open spec fn can_run(&self, bb: C) -> bool {
        self.0.can_run(bb)
    }

    fn run(&mut self, bb: &mut C) -> (r: Status) {
        self.0.run(bb)
    }
}

/// A tuple of two behaviors runs them in order and stops at the first failure.
impl<A: Behavior<C>, B: Behavior<C>, C> Behavior<C> for (A, B) {
    open spec fn runs(&self, bb: C, next: Self, bb_next: C, r: Status) -> bool {
        exists|bb1: C, ra: Status|
            #[trigger] self.0.runs(bb, next.0, bb1, ra) && if ra is Ok {
                self.1.runs(bb1, next.1, bb_next, r)
            } else {
                r == ra && bb_next == bb1 && next.1 == self.1
            }
    }

    open spec fn can_run(&self, bb: C) -> bool {
        &&& self.0.can_run(bb)
        &&& forall|a2: A, bb1: C, ra: Status| #[trigger]
            self.0.runs(bb, a2, bb1, ra) && ra is Ok ==> self.1.can_run(bb1)
    }

    fn run(&mut self, bb: &mut C) -> (r: Status) {
        let ghost s0 = *self;
        let ghost b0 = *bb;
        let ra = self.0.run(bb);
        let ghost b1 = *bb;
        assert(s0.0.runs(b0, self.0, b1, ra));
        if ra.is_err() {
            return ra;
        }
        let r = self.1.run(bb);
        assert(s0.1.runs(b1, self.1, *bb, r));
        assert(s0.0.runs(b0, self.0, b1, ra));
        assert(s0.runs(b0, *self, *bb, r));
        r
    }
}

/// A tuple of three behaviors runs them in order and stops at the first failure.
impl<A: Behavior<D>, B: Behavior<D>, C: Behavior<D>, D> Behavior<D> for (A, B, C) {
    open spec fn runs(&self, bb: D, next: Self, bb_next: D, r: Status) -> bool {
        exists|bb1: D, ra: Status|
            #[trigger] self.0.runs(bb, next.0, bb1, ra) && if ra is Ok {
                (self.1, self.2).runs(bb1, (next.1, next.2), bb_next, r)
            } else {
                r == ra && bb_next == bb1 && next.1 == self.1 && next.2 == self.2
            }
    }

    open spec fn can_run(&self, bb: D) -> bool {
        &&& self.0.can_run(bb)
        &&& forall|a2: A, bb1: D, ra: Status| #[trigger]
            self.0.runs(bb, a2, bb1, ra) && ra is Ok ==> (self.1, self.2).can_run(bb1)
    }

    fn run(&mut self, bb: &mut D) -> (r: Status) {
        let ghost s0 = *self;
        let ghost b0 = *bb;
        let ra = self.0.run(bb);
        let ghost b1 = *bb;
        assert(s0.0.runs(b0, self.0, b1, ra));
        if ra.is_err() {
            return ra;
        }
        assert((s0.1, s0.2).can_run(b1));
        let rb = self.1.run(bb);
        let ghost b2 = *bb;
        assert(s0.1.runs(b1, self.1, b2, rb));
        let ghost rest0 = (s0.1, s0.2);
        if rb.is_err() {
            let ghost rest1 = (self.1, self.2);
            assert(rest0.0.runs(b1, rest1.0, b2, rb));
            assert(rest0.runs(b1, rest1, b2, rb));
            assert(s0.0.runs(b0, self.0, b1, ra));
            assert(s0.runs(b0, *self, b2, rb));
            return rb;
        }
        let r = self.2.run(bb);
        let ghost rest1 = (self.1, self.2);
        assert(rest0.0.runs(b1, rest1.0, b2, rb));
        assert(rest0.1.runs(b2, rest1.1, *bb, r));
        assert(rest0.runs(b1, rest1, *bb, r));
        assert(s0.0.runs(b0, self.0, b1, ra));
        assert(s0.runs(b0, *self, *bb, r));
        r
    }
}

/// Runs its body, a behavior or a tuple of behaviors, in order; fails at the
/// first failure and succeeds when all succeed.
pub struct Sequence<A> {
    pub body: A,
}

impl<A: Behavior<C>, C> Behavior<C> for Sequence<A> {
    open spec fn runs(&self, bb: C, next: Self, bb_next: C, r: Status) -> bool {
        self.body.runs(bb, next.body, bb_next, r)
    }

    open spec fn can_run(&self, bb: C) -> bool {
        self.body.can_run(bb)
    }

    fn run(&mut self, bb: &mut C) -> (r: Status) {
        self.body.run(bb)
    }
}

/// Runs the behaviors of its body in order until one succeeds; fails when all fail.
pub struct Select<A> {
    pub body: A,
}

impl<A: Behavior<C>, C> Behavior<C> for Select<(A,)> {
    open spec fn runs(&self, bb: C, next: Self, bb_next: C, r: Status) -> bool {
        self.body.0.runs(bb, next.body.0, bb_next, r)
    }

    open spec fn can_run(&self, bb: C) -> bool {
        self.body.0.can_run(bb)
    }

    fn run(&mut self, bb: &mut C) -> (r: Status) {
        self.body.0.run(bb)
    }
}

impl<A: Behavior<C>, B: Behavior<C>, C> Behavior<C> for Select<(A, B)> {
    open spec fn runs(&self, bb: C, next: Self, bb_next: C, r: Status) -> bool {
        exists|bb1: C, ra: Status|
            #[trigger] self.body.0.runs(bb, next.body.0, bb1, ra) && if ra is Ok {
                r is Ok && bb_next == bb1 && next.body.1 == self.body.1
            } else {
                self.body.1.runs(bb1, next.body.1, bb_next, r)
            }
    }

    open spec fn can_run(&self, bb: C) -> bool {
        &&& self.body.0.can_run(bb)
        &&& forall|a2: A, bb1: C, ra: Status| #[trigger]
            self.body.0.runs(bb, a2, bb1, ra) && ra is Err ==> self.body.1.can_run(bb1)
    }

    fn run(&mut self, bb: &mut C) -> (r: Status) {
        let ghost s0 = *self;
        let ghost b0 = *bb;
        let ra = self.body.0.run(bb);
        let ghost b1 = *bb;
        assert(s0.body.0.runs(b0, self.body.0, b1, ra));
        if ra.is_ok() {
            return ra;
        }
        let rb = self.body.1.run(bb);
        assert(s0.body.0.runs(b0, self.body.0, b1, ra));
        assert(s0.body.1.runs(b1, self.body.1, *bb, rb));
        rb
    }
}

impl<A: Behavior<D>, B: Behavior<D>, C: Behavior<D>, D> Behavior<D> for Select<(A, B, C)> {
    open spec fn runs(&self, bb: D, next: Self, bb_next: D, r: Status) -> bool {
        exists|bb1: D, ra: Status|
            #[trigger] self.body.0.runs(bb, next.body.0, bb1, ra) && if ra is Ok {
                r is Ok && bb_next == bb1 && next.body.1 == self.body.1 && next.body.2
                    == self.body.2
            } else {
                Select { body: (self.body.1, self.body.2) }.runs(
                    bb1,
                    Select { body: (next.body.1, next.body.2) },
                    bb_next,
                    r,
                )
            }
    }

    open spec fn can_run(&self, bb: D) -> bool {
        &&& self.body.0.can_run(bb)
        &&& forall|a2: A, bb1: D, ra: Status| #[trigger]
            self.body.0.runs(bb, a2, bb1, ra) && ra is Err ==> Select {
                body: (self.body.1, self.body.2),
            }.can_run(bb1)
    }

    fn run(&mut self, bb: &mut D) -> (r: Status) {
        let ghost s0 = *self;
        let ghost b0 = *bb;
        let ra = self.body.0.run(bb);
        let ghost b1 = *bb;
        assert(s0.body.0.runs(b0, self.body.0, b1, ra));
        if ra.is_ok() {
            return ra;
        }
        let ghost rest0 = Select { body: (s0.body.1, s0.body.2) };
        assert(rest0.can_run(b1));
        let rb = self.body.1.run(bb);
        let ghost b2 = *bb;
        assert(rest0.body.0.runs(b1, self.body.1, b2, rb));
        if rb.is_ok() {
            let ghost rest1 = Select { body: (self.body.1, self.body.2) };
            assert(rest0.body.0.runs(b1, rest1.body.0, b2, rb));
            assert(rest0.runs(b1, rest1, b2, rb));
            assert(s0.body.0.runs(b0, self.body.0, b1, ra));
            return rb;
        }
        let rc = self.body.2.run(bb);
        let ghost rest1 = Select { body: (self.body.1, self.body.2) };
        assert(rest0.body.0.runs(b1, rest1.body.0, b2, rb));
        assert(rest0.body.1.runs(b2, rest1.body.1, *bb, rc));
        assert(rest0.runs(b1, rest1, *bb, rc));
        assert(s0.body.0.runs(b0, self.body.0, b1, ra));
        rc
    }
}

/// Runs `condition`, and `body` after each success of it, until `condition`
/// fails (success) or `body` fails (failure).
pub struct WhileLoop<A, S> {
    pub condition: A,
    pub body: S,
}

/// One round of the loop: the condition and then the body both succeed.
pub open spec fn loop_round<A: Behavior<C>, S: Behavior<C>, C>(
    w: WhileLoop<A, S>,
    bb: C,
    w_next: WhileLoop<A, S>,
    bb_next: C,
) -> bool {
    exists|bb1: C, cr: Status, br: Status|
        #![trigger w.condition.runs(bb, w_next.condition, bb1, cr), w.body.runs(bb1, w_next.body, bb_next, br)]
        w.condition.runs(bb, w_next.condition, bb1, cr) && cr is Ok && w.body.runs(
            bb1,
            w_next.body,
            bb_next,
            br,
        ) && br is Ok
}

/// `n` successful rounds lead from `(w0, bb0)` to `(w, bb)`.
pub open spec fn loop_rounds<A: Behavior<C>, S: Behavior<C>, C>(
    w0: WhileLoop<A, S>,
    bb0: C,
    n: nat,
    w: WhileLoop<A, S>,
    bb: C,
) -> bool
    decreases n,
{
    if n == 0 {
        w == w0 && bb == bb0
    } else {
        exists|wm: WhileLoop<A, S>, bm: C|
            loop_rounds(w0, bb0, (n - 1) as nat, wm, bm) && #[trigger] loop_round(wm, bm, w, bb)
    }
}

/// A successful round extends a run of `n` rounds to one of `n + 1`.
pub proof fn lemma_one_more_round<A: Behavior<C>, S: Behavior<C>, C>(
    w0: WhileLoop<A, S>,
    bb0: C,
    n: nat,
    wm: WhileLoop<A, S>,
    bm: C,
    w: WhileLoop<A, S>,
    bb: C,
)
    requires
        loop_rounds(w0, bb0, n, wm, bm),
        loop_round(wm, bm, w, bb),
    ensures
        loop_rounds(w0, bb0, n + 1, w, bb),
{
    assert(loop_rounds(w0, bb0, ((n + 1) - 1) as nat, wm, bm));
}

/// The last round of the loop: the condition fails and the loop succeeds, or
/// the condition succeeds, the body fails and the loop fails.
pub open spec fn loop_exit<A: Behavior<C>, S: Behavior<C>, C>(
    w: WhileLoop<A, S>,
    bb: C,
    w_next: WhileLoop<A, S>,
    bb_next: C,
    r: Status,
) -> bool {
    ||| exists|cr: Status|
        #[trigger] w.condition.runs(bb, w_next.condition, bb_next, cr) && cr is Err && w_next.body
            == w.body && r is Ok
    ||| exists|bb1: C, cr: Status, br: Status|
        #![trigger w.condition.runs(bb, w_next.condition, bb1, cr), w.body.runs(bb1, w_next.body, bb_next, br)]
        w.condition.runs(bb, w_next.condition, bb1, cr) && cr is Ok && w.body.runs(
            bb1,
            w_next.body,
            bb_next,
            br,
        ) && br is Err && r is Err
}

/// Every run of the loop from `(w, bb)` starts each of its steps within their
/// requirements and ends after at most `n` successful rounds.
pub open spec fn loop_ends_within<A: Behavior<C>, S: Behavior<C>, C>(
    w: WhileLoop<A, S>,
    bb: C,
    n: nat,
) -> bool
    decreases n,
{
    &&& w.condition.can_run(bb)
    &&& forall|c2: A, bb1: C, cr: Status| #[trigger]
        w.condition.runs(bb, c2, bb1, cr) && cr is Ok ==> {
            &&& w.body.can_run(bb1)
            &&& forall|s2: S, bb2: C, br: Status| #[trigger]
                w.body.runs(bb1, s2, bb2, br) && br is Ok ==> n > 0 && loop_ends_within(
                    WhileLoop { condition: c2, body: s2 },
                    bb2,
                    (n - 1) as nat,
                )
        }
}

impl<A: Behavior<C>, S: Behavior<C>, C> Behavior<C> for WhileLoop<A, S> {
    open spec fn runs(&self, bb: C, next: Self, bb_next: C, r: Status) -> bool {
        exists|n: nat, wm: WhileLoop<A, S>, bm: C|
            #[trigger] loop_rounds(*self, bb, n, wm, bm) && loop_exit(wm, bm, next, bb_next, r)
    }

    open spec fn can_run(&self, bb: C) -> bool {
        exists|n: nat| loop_ends_within(*self, bb, n)
    }

    fn run(&mut self, bb: &mut C) -> (r: Status) {
        let ghost w0 = *self;
        let ghost b0 = *bb;
        assert(w0.can_run(b0));
        let ghost mut n: nat = choose|n: nat| loop_ends_within(w0, b0, n);
        let ghost mut k: nat = 0;
        loop
            invariant
                w0 == *old(self),
                b0 == *old(bb),
                loop_ends_within(*self, *bb, n),
                loop_rounds(w0, b0, k, *self, *bb),
            decreases n,
        {
            let ghost wm = *self;
            let ghost bm = *bb;
            assert(loop_rounds(w0, b0, k, wm, bm));
            let cr = self.condition.run(bb);
            let ghost b1 = *bb;
            if cr.is_err() {
                assert(wm.condition.runs(bm, self.condition, b1, cr));
                assert(loop_exit(wm, bm, *self, *bb, Ok(())));
                assert(loop_rounds(w0, b0, k, wm, bm));
                assert(w0.runs(b0, *self, *bb, Ok(())));
                return Ok(());
            }
            assert(wm.condition.runs(bm, self.condition, b1, cr));
            let br = self.body.run(bb);
            assert(wm.condition.runs(bm, self.condition, b1, cr));
            assert(wm.body.runs(b1, self.body, *bb, br));
            if br.is_err() {
                assert(loop_exit(wm, bm, *self, *bb, Err(())));
                assert(loop_rounds(w0, b0, k, wm, bm));
                assert(w0.runs(b0, *self, *bb, Err(())));
                return Err(());
            }
            proof {
                assert(loop_round(wm, bm, *self, *bb));
                lemma_one_more_round(w0, b0, k, wm, bm, *self, *bb);
                k = k + 1;
                n = (n - 1) as nat;
            }
        }
    }
}

} // verus!
