use vstd::prelude::*;

verus! {

/// The cursor. `position` is a vertex of the drawn path: 0 is the origin and
/// the `k`-th segment drawn ends at vertex `k`. `heading` is the net number of
/// left turns, so the direction is `heading * turn_angle`.
#[derive(Clone, Copy, Debug, PartialEq, Eq, Structural)]
pub struct TurtleState {
    pub position: usize,
    pub heading: i128,
    pub step_length: u64,
    pub turn_angle: i64,
}

/// A line of `step_length` from vertex `from` to vertex `to`, in the
/// direction `heading * turn_angle`.
#[derive(Clone, Copy, Debug, PartialEq, Eq, Structural)]
pub struct Segment {
    pub from: usize,
    pub to: usize,
    pub heading: i128,
}

/// What one step of the machine reports.
#[derive(Clone, Copy, Debug, PartialEq, Eq, Structural)]
pub enum Step {
    /// A draw symbol emitted this segment.
    Draw(Segment),
    /// A symbol was consumed without drawing.
    Moved,
    /// The whole program has been consumed.
    Finished,
    /// The `]` at this index had no open branch to close.
    Unbalanced(usize),
}

/// Where a machine stands: nothing consumed yet, consuming symbols, or
/// stopped by a `]` at the given index that closed no branch.
#[derive(Clone, Copy, Debug, PartialEq, Eq, Structural)]
pub enum Status {
    Idle,
    Drawing,
    Failed(usize),
}

/// The state at the origin, heading along the zero direction.
pub open spec fn origin_spec(step_length: u64, turn_angle: i64) -> TurtleState {
    TurtleState { position: 0, heading: 0, step_length, turn_angle }
}

/// The effect of one symbol on the cursor, the branch stack and the segments
/// drawn so far; `None` for a `]` on an empty stack.
pub open spec fn step_spec(
    c: char,
    s: TurtleState,
    stack: Seq<TurtleState>,
    drawn: Seq<Segment>,
) -> Option<(TurtleState, Seq<TurtleState>, Seq<Segment>)> {
    if c == 'F' || c == 'G' {
        let seg = Segment { from: s.position, to: (drawn.len() + 1) as usize, heading: s.heading };
        Some((TurtleState { position: seg.to, ..s }, stack, drawn.push(seg)))
    } else if c == '+' {
        Some((TurtleState { heading: (s.heading + 1) as i128, ..s }, stack, drawn))
    } else if c == '-' {
        Some((TurtleState { heading: (s.heading - 1) as i128, ..s }, stack, drawn))
    } else if c == '[' {
        Some((s, stack.push(s), drawn))
    } else if c == ']' {
        if stack.len() == 0 {
            None
        } else {
            Some((stack.last(), stack.drop_last(), drawn))
        }
    } else {
        Some((s, stack, drawn))
    }
}

/// The cursor, stack and segments after the first `n` symbols of `program`,
/// or the index of the `]` that failed.
pub open spec fn run_spec(program: Seq<char>, start: TurtleState, n: nat) -> Result<
    (TurtleState, Seq<TurtleState>, Seq<Segment>),
    nat,
>
    decreases n,
{
    if n == 0 {
        Ok((start, Seq::empty(), Seq::empty()))
    } else {
        match run_spec(program, start, (n - 1) as nat) {
            Err(e) => Err(e),
            Ok((s, st, d)) => match step_spec(program[n - 1], s, st, d) {
                Some(next) => Ok(next),
                None => Err((n - 1) as nat),
            },
        }
    }
}

/// What consuming symbol `n` reports, the first `n` having been consumed.
pub open spec fn outcome_spec(program: Seq<char>, start: TurtleState, n: nat) -> Step {
    match run_spec(program, start, n + 1) {
        Err(e) => Step::Unbalanced(e as usize),
        Ok((_, _, d)) => match run_spec(program, start, n) {
            Ok((_, _, d0)) => if d.len() > d0.len() {
                Step::Draw(d.last())
            } else {
                Step::Moved
            },
            Err(e) => Step::Unbalanced(e as usize),
        },
    }
}

spec fn state_in_bounds(s: TurtleState, start: TurtleState, n: nat, drawn: nat) -> bool {
    &&& s.position <= drawn
    &&& -(n as int) <= s.heading <= n
    &&& s.step_length == start.step_length
    &&& s.turn_angle == start.turn_angle
}

proof fn lemma_run_bounds(program: Seq<char>, start: TurtleState, n: nat)
    requires
        start.position == 0,
        start.heading == 0,
        n <= usize::MAX,
    ensures
        run_spec(program, start, n) is Ok ==> {
            let (s, st, d) = run_spec(program, start, n)->Ok_0;
            &&& d.len() <= n
            &&& state_in_bounds(s, start, n, d.len())
            &&& forall|i: int| 0 <= i < st.len() ==> state_in_bounds(st[i], start, n, d.len())
            &&& forall|i: int| 0 <= i < d.len() ==> d[i].to == i + 1
        },
    decreases n,
{
    if n > 0 {
        lemma_run_bounds(program, start, (n - 1) as nat);
        if run_spec(program, start, n) is Ok {
            let (s, st, d) = run_spec(program, start, (n - 1) as nat)->Ok_0;
            let (s2, st2, d2) = run_spec(program, start, n)->Ok_0;
            assert forall|i: int| 0 <= i < st2.len() implies state_in_bounds(st2[i], start, n, d2.len()) by {
                if program[n - 1] == '[' && i == st.len() {
                } else {
                    assert(state_in_bounds(st[i], start, (n - 1) as nat, d.len()));
                }
            }
        }
    }
}

/// Once a run fails, it stays failed at the same index.
proof fn lemma_error_persists(program: Seq<char>, start: TurtleState, n: nat, m: nat)
    requires
        n <= m,
        run_spec(program, start, n) is Err,
    ensures
        run_spec(program, start, m) == run_spec(program, start, n),
    decreases m - n,
{
    if n < m {
        lemma_error_persists(program, start, n, (m - 1) as nat);
    }
}

/// `[` opens a branch and `]` closes one; other symbols leave the depth alone.
pub open spec fn bracket_delta(c: char) -> int {
    if c == '[' {
        1
    } else if c == ']' {
        -1
    } else {
        0
    }
}

/// Opened minus closed branches over `s`.
pub open spec fn depth_spec(s: Seq<char>) -> int
    decreases s.len(),
{
    if s.len() == 0 {
        0
    } else {
        depth_spec(s.drop_last()) + bracket_delta(s.last())
    }
}

/// The depth after the first `k` symbols of `s`.
pub open spec fn prefix_depth(s: Seq<char>, k: int) -> int {
    depth_spec(s.subrange(0, k))
}

/// Properly nested: no prefix closes more branches than it opens, and the
/// whole opens as many as it closes.
pub open spec fn balanced(s: Seq<char>) -> bool {
    &&& depth_spec(s) == 0
    &&& forall|k: int| 0 <= k <= s.len() ==> prefix_depth(s, k) >= 0
}

proof fn lemma_prefix_depth_step(s: Seq<char>, k: int)
    requires
        0 <= k < s.len(),
    ensures
        prefix_depth(s, k + 1) == prefix_depth(s, k) + bracket_delta(s[k]),
{
    assert(s.subrange(0, k + 1).drop_last() =~= s.subrange(0, k));
}

/// While no prefix of the first `n` symbols closes more than it opens, the
/// run succeeds and holds one saved state per open branch.
proof fn lemma_stack_tracks_depth(program: Seq<char>, start: TurtleState, n: nat)
    requires
        n <= program.len(),
        forall|k: int| 0 <= k <= n ==> prefix_depth(program, k) >= 0,
    ensures
        run_spec(program, start, n) is Ok,
        run_spec(program, start, n)->Ok_0.1.len() == prefix_depth(program, n as int),
    decreases n,
{
    if n == 0 {
        assert(program.subrange(0, 0) =~= Seq::<char>::empty());
    } else {
        lemma_stack_tracks_depth(program, start, (n - 1) as nat);
        lemma_prefix_depth_step(program, n - 1);
    }
}

/// A properly nested program runs to its end without error and leaves no
/// branch open.
pub proof fn lemma_balanced_closes(program: Seq<char>, start: TurtleState)
    requires
        balanced(program),
    ensures
        run_spec(program, start, program.len()) is Ok,
        run_spec(program, start, program.len())->Ok_0.1.len() == 0,
{
    lemma_stack_tracks_depth(program, start, program.len());
    assert(program.subrange(0, program.len() as int) =~= program);
}

/// The first `]` that closes more branches than were opened fails the run,
/// at its own index.
pub proof fn lemma_unbalanced_at(program: Seq<char>, start: TurtleState, i: nat)
    requires
        i < program.len(),
        program[i as int] == ']',
        prefix_depth(program, i as int) == 0,
        forall|k: int| 0 <= k <= i ==> prefix_depth(program, k) >= 0,
    ensures
        run_spec(program, start, program.len()) == Err::<(TurtleState, Seq<TurtleState>, Seq<Segment>), nat>(i),
{
    lemma_stack_tracks_depth(program, start, i);
    lemma_error_persists(program, start, i + 1, program.len());
}

proof fn lemma_branch_keeps_saved(program: Seq<char>, start: TurtleState, i: nat, k: nat)
    requires
        i < k <= program.len(),
        program[i as int] == '[',
        run_spec(program, start, i) is Ok,
        forall|m: int| i < m <= k ==> prefix_depth(program, m) > prefix_depth(program, i as int),
    ensures
        run_spec(program, start, k) is Ok,
        ({
            let (s, st, _) = run_spec(program, start, i)->Ok_0;
            let stk = run_spec(program, start, k)->Ok_0.1;
            &&& stk.len() == st.len() + prefix_depth(program, k as int) - prefix_depth(program, i as int)
            &&& stk.subrange(0, st.len() + 1 as int) == st.push(s)
        }),
    decreases k - i,
{
    lemma_prefix_depth_step(program, k - 1);
    let (s, st, _) = run_spec(program, start, i)->Ok_0;
    if k == i + 1 {
        assert(st.push(s).subrange(0, st.len() + 1 as int) =~= st.push(s));
    } else {
        lemma_branch_keeps_saved(program, start, i, (k - 1) as nat);
        let prev = run_spec(program, start, (k - 1) as nat)->Ok_0.1;
        let stk = run_spec(program, start, k)->Ok_0.1;
        assert(stk.subrange(0, st.len() + 1 as int) =~= prev.subrange(0, st.len() + 1 as int));
    }
}

/// Closing a branch restores, field for field, the cursor saved when it was
/// opened, and the branch stack as it was before: nothing drawn inside the
/// branch moves the cursor past its `]`.
pub proof fn lemma_branch_restores(program: Seq<char>, start: TurtleState, i: nat, j: nat)
    requires
        i < j < program.len(),
        program[i as int] == '[',
        program[j as int] == ']',
        run_spec(program, start, i) is Ok,
        forall|m: int| i < m <= j ==> prefix_depth(program, m) > prefix_depth(program, i as int),
        prefix_depth(program, j + 1 as int) == prefix_depth(program, i as int),
    ensures
        run_spec(program, start, j + 1) is Ok,
        run_spec(program, start, j + 1)->Ok_0.0 == run_spec(program, start, i)->Ok_0.0,
        run_spec(program, start, j + 1)->Ok_0.1 == run_spec(program, start, i)->Ok_0.1,
{
    lemma_branch_keeps_saved(program, start, i, j);
    lemma_prefix_depth_step(program, j as int);
    let (s, st, _) = run_spec(program, start, i)->Ok_0;
    let stk = run_spec(program, start, j)->Ok_0.1;
    assert(stk =~= stk.subrange(0, st.len() + 1 as int));
    assert(st.push(s).drop_last() =~= st);
}

/// A machine that interprets a program one symbol at a time from the origin.
pub struct TurtleMachine {
    program: Vec<char>,
    origin: TurtleState,
    state: TurtleState,
    stack: Vec<TurtleState>,
    pc: usize,
    drawn: usize,
    failed: Option<usize>,
}

impl TurtleMachine {
    pub closed spec fn tape(&self) -> Seq<char> {
        self.program@
    }

    pub closed spec fn start(&self) -> TurtleState {
        self.origin
    }

    /// How many symbols have been consumed.
    pub closed spec fn consumed(&self) -> nat {
        self.pc as nat
    }

    pub closed spec fn wf(&self) -> bool {
        &&& self.pc <= self.program@.len()
        &&& self.origin.position == 0
        &&& self.origin.heading == 0
        &&& match run_spec(self.program@, self.origin, self.pc as nat) {
            Ok((s, st, d)) => {
                &&& self.failed is None
                &&& self.state == s
                &&& self.stack@ == st
                &&& self.drawn == d.len()
            },
            Err(e) => self.failed == Some(e as usize),
        }
    }

    /// No symbol is left to consume, or a `]` has failed.
    pub open spec fn halted(&self) -> bool {
        self.consumed() == self.tape().len() || run_spec(self.tape(), self.start(), self.consumed()) is Err
    }

    pub fn new(program: Vec<char>, step_length: u64, turn_angle: i64) -> (r: TurtleMachine)
        ensures
            r.wf(),
            r.tape() == program@,
            r.start() == origin_spec(step_length, turn_angle),
            r.consumed() == 0,
    {
        let origin = TurtleState { position: 0, heading: 0, step_length, turn_angle };
        TurtleMachine {
            program,
            origin,
            state: origin,
            stack: Vec::new(),
            pc: 0,
            drawn: 0,
            failed: None,
        }
    }

    /// The current cursor.
    pub fn state(&self) -> (r: TurtleState)
        requires
            self.wf(),
        ensures
            run_spec(self.tape(), self.start(), self.consumed()) is Ok ==> r == run_spec(
                self.tape(),
                self.start(),
                self.consumed(),
            )->Ok_0.0,
    {
        self.state
    }

    pub fn status(&self) -> (r: Status)
        requires
            self.wf(),
        ensures
            run_spec(self.tape(), self.start(), self.consumed()) matches Err(e) ==> r == Status::Failed(e as usize),
            run_spec(self.tape(), self.start(), self.consumed()) is Ok ==> (r == Status::Idle <==> self.consumed() == 0),
            run_spec(self.tape(), self.start(), self.consumed()) is Ok ==> (r == Status::Drawing <==> self.consumed() > 0),
    {
        match self.failed {
            Some(e) => Status::Failed(e),
            None => if self.pc == 0 {
                Status::Idle
            } else {
                Status::Drawing
            },
        }
    }

    /// How many branches are open.
    pub fn depth(&self) -> (r: usize)
        requires
            self.wf(),
        ensures
            run_spec(self.tape(), self.start(), self.consumed()) is Ok ==> r == run_spec(
                self.tape(),
                self.start(),
                self.consumed(),
            )->Ok_0.1.len(),
    {
        self.stack.len()
    }

    /// Consumes the next symbol and reports what it did.
    pub fn step(&mut self) -> (r: Step)
        requires
            old(self).wf(),
        ensures
            final(self).wf(),
            final(self).tape() == old(self).tape(),
            final(self).start() == old(self).start(),
            old(self).halted() ==> final(self).consumed() == old(self).consumed(),
            run_spec(old(self).tape(), old(self).start(), old(self).consumed()) matches Err(e)
                ==> r == Step::Unbalanced(e as usize),
            !old(self).halted() ==> final(self).consumed() == old(self).consumed() + 1 && r
                == outcome_spec(old(self).tape(), old(self).start(), old(self).consumed()),
            old(self).consumed() == old(self).tape().len() && run_spec(
                old(self).tape(),
                old(self).start(),
                old(self).consumed(),
            ) is Ok ==> r == Step::Finished,
    {
        if let Some(e) = self.failed {
            return Step::Unbalanced(e);
        }
        if self.pc == self.program.len() {
            return Step::Finished;
        }
        proof {
            lemma_run_bounds(self.program@, self.origin, self.pc as nat);
        }
        let c = self.program[self.pc];
        let r = if c == 'F' || c == 'G' {
            let seg = Segment { from: self.state.position, to: self.drawn + 1, heading: self.state.heading };
            self.state.position = seg.to;
            self.drawn = self.drawn + 1;
            Step::Draw(seg)
        } else if c == '+' {
            self.state.heading = self.state.heading + 1;
            Step::Moved
        } else if c == '-' {
            self.state.heading = self.state.heading - 1;
            Step::Moved
        } else if c == '[' {
            self.stack.push(self.state);
            Step::Moved
        } else if c == ']' {
            match self.stack.pop() {
                Some(s) => {
                    self.state = s;
                    Step::Moved
                },
                None => {
                    self.failed = Some(self.pc);
                    Step::Unbalanced(self.pc)
                },
            }
        } else {
            Step::Moved
        };
        self.pc = self.pc + 1;
        r
    }
}

/// Everything one interpretation pass produced: the segments in program
/// order, the cursor and the number of branches left open at the end, and the
/// index of a failing `]`, if any. On failure the segments are those drawn
/// before it.
pub struct Drawing {
    pub segments: Vec<Segment>,
    pub state: TurtleState,
    pub open_branches: usize,
    pub error: Option<usize>,
}

/// Interprets `program` from the origin.
pub fn interpret(program: Vec<char>, step_length: u64, turn_angle: i64) -> (r: Drawing)
    ensures
        run_spec(program@, origin_spec(step_length, turn_angle), program@.len()) is Ok ==> {
            let (s, st, d) = run_spec(program@, origin_spec(step_length, turn_angle), program@.len())->Ok_0;
            &&& r.error is None
            &&& r.segments@ == d
            &&& r.state == s
            &&& r.open_branches == st.len()
        },
        run_spec(program@, origin_spec(step_length, turn_angle), program@.len()) matches Err(e) ==> {
            &&& r.error == Some(#[verifier::truncate] (e as usize))
            &&& run_spec(program@, origin_spec(step_length, turn_angle), e) is Ok
            &&& r.segments@ == run_spec(program@, origin_spec(step_length, turn_angle), e)->Ok_0.2
        },
{
    let ghost prog = program@;
    let ghost start = origin_spec(step_length, turn_angle);
    let mut m = TurtleMachine::new(program, step_length, turn_angle);
    let mut segments: Vec<Segment> = Vec::new();
    loop
        invariant
            m.wf(),
            prog == program@,
            start == origin_spec(step_length, turn_angle),
            m.tape() == prog,
            m.start() == start,
            m.consumed() <= prog.len(),
            run_spec(prog, start, m.consumed()) is Ok,
            segments@ == run_spec(prog, start, m.consumed())->Ok_0.2,
        decreases prog.len() - m.consumed(),
    {
        let ghost before = m.consumed();
        match m.step() {
            Step::Draw(seg) => {
                segments.push(seg);
            },
            Step::Moved => {},
            Step::Finished => {
                let state = m.state();
                let open_branches = m.depth();
                return Drawing { segments, state, open_branches, error: None };
            },
            Step::Unbalanced(e) => {
                assert(run_spec(prog, start, before + 1) == Err::<
                    (TurtleState, Seq<TurtleState>, Seq<Segment>),
                    nat,
                >(before));
                proof {
                    lemma_error_persists(prog, start, before + 1, prog.len());
                }
                return Drawing { segments, state: m.state(), open_branches: m.depth(), error: Some(e) };
            },
        }
    }
}

} // verus!
