//! The execution simulator: a fixed scenario of nested calls that stands
//! in for running a contract, driven against a profiler.
//!
//! The scenario is the same for every artifact; the method, where one is
//! named, gives the outermost call its name and adds a dispatch step.
//! The work inside each call is a fixed number of rounds of arithmetic,
//! so that two runs of one scenario cost about the same.

use vstd::prelude::*;
use vstd::string::StringExecFns;
use super::error::{ProfileError, RecorderStage};
use super::live::{entered, left, Profiler};
use super::trace::RecorderView;

verus! {

/// `std::hint::black_box` hands its argument back; it only keeps the
/// compiler from optimising the computation of the argument away.
pub assume_specification<T>[ std::hint::black_box::<T> ](dummy: T) -> (same: T)
    ensures
        same == dummy,
;

/// The first bytes of every WebAssembly module.
pub open spec fn wasm_magic() -> Seq<u8> {
    seq![0x00u8, 0x61u8, 0x73u8, 0x6du8]
}

/// Length of a WebAssembly module's header: magic number and version.
pub const WASM_HEADER_LEN: usize = 8;

/// Whether `bytes` begin as a WebAssembly module does: a full header
/// that starts with the magic number.
pub open spec fn is_contract(bytes: Seq<u8>) -> bool {
    bytes.len() >= WASM_HEADER_LEN && bytes.subrange(0, 4) == wasm_magic()
}

/// What was found at the path of a contract.
#[derive(Clone, Debug, PartialEq, Eq)]
pub struct Artifact {
    /// The path that was looked up.
    pub path: String,
    /// The file's contents; `None` where nothing exists at the path.
    pub contents: Option<Vec<u8>>,
}

/// One step of a simulated run.
#[derive(Clone, Debug, PartialEq, Eq)]
pub enum Step {
    /// A call begins.
    Enter(String),
    /// Rounds of work inside the current call.
    Work(u32),
    /// The current call ends.
    Exit,
}

/// A `Step` as plain mathematical values.
pub enum StepView {
    Enter(Seq<char>),
    Work(nat),
    Exit,
}

impl View for Step {
    type V = StepView;

    open spec fn view(&self) -> StepView {
        match *self {
            Step::Enter(name) => StepView::Enter(name@),
            Step::Work(rounds) => StepView::Work(rounds as nat),
            Step::Exit => StepView::Exit,
        }
    }
}

/// The views of a sequence of steps, in the same order.
pub open spec fn step_views(steps: Seq<Step>) -> Seq<StepView> {
    Seq::new(steps.len(), |i: int| steps[i]@)
}

/// One call as the structure of a recording shows it, without times.
pub struct CallShape {
    pub name: Seq<char>,
    pub depth: nat,
    pub closed: bool,
}

/// The structure of a recording: its calls in the order of entry and the
/// positions of those that are open.
pub struct Shape {
    pub calls: Seq<CallShape>,
    pub open: Seq<int>,
}

impl Shape {
    /// The structure of a recorder's state.
    pub open spec fn of(state: RecorderView) -> Shape {
        Shape {
            calls: Seq::new(
                state.frames.len(),
                |i: int|
                    CallShape {
                        name: state.frames[i].name,
                        depth: state.frames[i].depth,
                        closed: state.frames[i].elapsed is Some,
                    },
            ),
            open: state.stack,
        }
    }

    /// The structure after one more step. Work changes nothing; an exit
    /// with no call open changes nothing either.
    pub open spec fn step(self, step: StepView) -> Shape {
        match step {
            StepView::Enter(name) => Shape {
                calls: self.calls.push(CallShape { name, depth: self.open.len(), closed: false }),
                open: self.open.push(self.calls.len() as int),
            },
            StepView::Work(_) => self,
            StepView::Exit => if self.open.len() > 0 {
                Shape {
                    calls: self.calls.update(
                        self.open.last(),
                        CallShape { closed: true, ..self.calls[self.open.last()] },
                    ),
                    open: self.open.drop_last(),
                }
            } else {
                self
            },
        }
    }

    /// The structure after a sequence of steps.
    pub open spec fn run(self, steps: Seq<StepView>) -> Shape
        decreases steps.len(),
    {
        if steps.len() == 0 {
            self
        } else {
            self.run(steps.drop_last()).step(steps.last())
        }
    }
}

/// By how much a step changes the number of open calls.
pub open spec fn delta(step: StepView) -> int {
    match step {
        StepView::Enter(_) => 1,
        StepView::Work(_) => 0,
        StepView::Exit => -1,
    }
}

/// By how much a sequence of steps changes the number of open calls.
pub open spec fn rise(steps: Seq<StepView>) -> int
    decreases steps.len(),
{
    if steps.len() == 0 {
        0
    } else {
        rise(steps.drop_last()) + delta(steps.last())
    }
}

/// Whether the steps, begun with `open` calls open, never leave a call
/// that they find none open for.
pub open spec fn safe(steps: Seq<StepView>, open: int) -> bool
    decreases steps.len(),
{
    if steps.len() == 0 {
        true
    } else {
        safe(steps.drop_last(), open) && open + rise(steps) >= 0
    }
}

/// Whether every call that the steps enter is left again, and no other.
pub open spec fn balanced(steps: Seq<StepView>) -> bool {
    safe(steps, 0) && rise(steps) == 0
}

/// A call of `name` that does `rounds` of work and calls nothing.
pub open spec fn leaf(name: Seq<char>, rounds: nat) -> Seq<StepView> {
    seq![StepView::Enter(name), StepView::Work(rounds), StepView::Exit]
}

/// A call of `name` that does `rounds` of work and then what `body`
/// says.
pub open spec fn nest(name: Seq<char>, rounds: nat, body: Seq<StepView>) -> Seq<StepView> {
    seq![StepView::Enter(name), StepView::Work(rounds)] + body + seq![StepView::Exit]
}

/// The name of the outermost call: the method, or `invoke` where none
/// is named.
pub open spec fn entry_name(method: Option<Seq<char>>) -> Seq<char> {
    match method {
        Some(m) => m,
        None => "invoke"@,
    }
}

/// What the contract does once its arguments are there: it computes,
/// with one call of the computation nested in another, and calls
/// another contract.
pub open spec fn execution() -> Seq<StepView> {
    nest(
        "execute"@,
        20,
        nest("compute"@, 30, leaf("compute"@, 30)) + leaf("call_contract"@, 60),
    )
}

/// The steps inside the outermost call.
pub open spec fn invocation(method: Option<Seq<char>>) -> Seq<StepView> {
    leaf("load_contract"@, 40) + leaf("check_auth"@, 25) + leaf("storage_read"@, 15) + leaf(
        "storage_read"@,
        15,
    ) + leaf("storage_read"@, 15) + (if method is Some {
        leaf("dispatch"@, 10)
    } else {
        Seq::empty()
    }) + execution() + leaf("storage_write"@, 50) + leaf("emit_event"@, 10)
}

/// The steps of a simulated run.
pub open spec fn scenario(method: Option<Seq<char>>) -> Seq<StepView> {
    nest(entry_name(method), 5, invocation(method))
}

/// The value that `rounds` rounds of work arrive at.
pub open spec fn churn(rounds: nat) -> u64
    decreases rounds,
{
    if rounds == 0 {
        0
    } else {
        churn((rounds - 1) as nat).wrapping_mul(6364136223846793005u64).wrapping_add(
            1442695040888963407u64,
        )
    }
}

/// Rounds of arithmetic that one unit of work stands for.
pub const ROUNDS_PER_UNIT: u32 = 1000;

/// Does `rounds` rounds of arithmetic.
pub fn burn(rounds: u32) -> (value: u64)
    ensures
        value == churn(rounds as nat),
{
    let mut value: u64 = 0;
    let mut done: u32 = 0;
    while done < rounds
        invariant
            done <= rounds,
            value == churn(done as nat),
        decreases rounds - done,
    {
        value = std::hint::black_box(
            value.wrapping_mul(6364136223846793005u64).wrapping_add(1442695040888963407u64),
        );
        done += 1;
    }
    value
}

/// Whether the file contents begin as a WebAssembly module does.
pub fn recognize(bytes: &Vec<u8>) -> (known: bool)
    ensures
        known == is_contract(bytes@),
{
    if bytes.len() < WASM_HEADER_LEN {
        return false;
    }
    let known = bytes[0] == 0x00 && bytes[1] == 0x61 && bytes[2] == 0x73 && bytes[3] == 0x6d;
    proof {
        let head = bytes@.subrange(0, 4);
        assert(head.len() == 4 && wasm_magic().len() == 4);
        assert(head[0] == bytes@[0] && head[1] == bytes@[1] && head[2] == bytes@[2] && head[3]
            == bytes@[3]);
        if known {
            assert(head =~= wasm_magic());
        } else {
            assert(wasm_magic()[0] == 0x00u8 && wasm_magic()[1] == 0x61u8 && wasm_magic()[2]
                == 0x73u8 && wasm_magic()[3] == 0x6du8);
        }
    }
    known
}

/// Entering a call shows in the structure as an `Enter` step.
proof fn lemma_shape_enter(state: RecorderView, name: Seq<char>, at: nat)
    ensures
        Shape::of(state.enter(name, at)) == Shape::of(state).step(StepView::Enter(name)),
{
    assert(Shape::of(state.enter(name, at)).calls =~= Shape::of(state).step(
        StepView::Enter(name),
    ).calls);
}

/// Leaving a call shows in the structure as an `Exit` step.
proof fn lemma_shape_exit(state: RecorderView, at: nat)
    requires
        state.stack.len() > 0,
        0 <= state.stack.last() < state.frames.len(),
    ensures
        Shape::of(state.exit(at)) == Shape::of(state).step(StepView::Exit),
{
    assert(Shape::of(state.exit(at)).calls =~= Shape::of(state).step(StepView::Exit).calls);
}

/// Settling the bookkeeping does not show in the structure.
proof fn lemma_shape_settle(state: RecorderView, at: nat)
    ensures
        Shape::of(state.settle(at)) == Shape::of(state),
{
    assert(Shape::of(state.settle(at)).calls =~= Shape::of(state).calls);
}

/// A single step rises by its own change and is safe where that change
/// leaves no fewer than zero calls open.
proof fn lemma_single(step: StepView, open: int)
    ensures
        rise(seq![step]) == delta(step),
        safe(seq![step], open) == (open + delta(step) >= 0),
{
    assert(seq![step].drop_last() =~= Seq::<StepView>::empty());
    assert(seq![step].last() == step);
    reveal_with_fuel(rise, 2);
    reveal_with_fuel(safe, 2);
}

/// Steps one after another rise by the sum of their rises, and are safe
/// where the first are safe and the second are safe after them.
proof fn lemma_join(a: Seq<StepView>, b: Seq<StepView>, open: int)
    ensures
        rise(a + b) == rise(a) + rise(b),
        safe(a, open) && safe(b, open + rise(a)) ==> safe(a + b, open),
    decreases b.len(),
{
    if b.len() == 0 {
        assert(a + b =~= a);
    } else {
        assert((a + b).drop_last() =~= a + b.drop_last());
        assert((a + b).last() == b.last());
        lemma_join(a, b.drop_last(), open);
    }
}

/// Steps that are safe with some calls open are safe with more.
proof fn lemma_safe_more(steps: Seq<StepView>, open: int, more: int)
    requires
        safe(steps, open),
        more >= open,
    ensures
        safe(steps, more),
    decreases steps.len(),
{
    if steps.len() > 0 {
        lemma_safe_more(steps.drop_last(), open, more);
    }
}

/// The beginning of safe steps is safe.
proof fn lemma_safe_prefix(steps: Seq<StepView>, open: int, k: int)
    requires
        safe(steps, open),
        0 <= k <= steps.len(),
    ensures
        safe(steps.take(k), open),
    decreases steps.len() - k,
{
    if k == steps.len() {
        assert(steps.take(k) =~= steps);
    } else {
        assert(steps.drop_last().take(k) =~= steps.take(k));
        lemma_safe_prefix(steps.drop_last(), open, k);
    }
}

/// Two balanced sequences, one after the other, are balanced.
proof fn lemma_balanced_join(a: Seq<StepView>, b: Seq<StepView>)
    requires
        balanced(a),
        balanced(b),
    ensures
        balanced(a + b),
{
    lemma_join(a, b, 0);
}

/// A call around balanced steps is balanced.
proof fn lemma_balanced_nest(name: Seq<char>, rounds: nat, body: Seq<StepView>)
    requires
        balanced(body),
    ensures
        balanced(nest(name, rounds, body)),
{
    let enter = seq![StepView::Enter(name)];
    let work = seq![StepView::Work(rounds)];
    let exit = seq![StepView::Exit];
    lemma_single(StepView::Enter(name), 0);
    lemma_single(StepView::Work(rounds), 1);
    lemma_single(StepView::Exit, 1);
    lemma_join(enter, work, 0);
    assert(enter + work =~= seq![StepView::Enter(name), StepView::Work(rounds)]);
    lemma_safe_more(body, 0, 1);
    lemma_join(enter + work, body, 0);
    lemma_join(enter + work + body, exit, 0);
}

/// A call that calls nothing is balanced.
proof fn lemma_balanced_leaf(name: Seq<char>, rounds: nat)
    ensures
        balanced(leaf(name, rounds)),
{
    assert(balanced(Seq::<StepView>::empty()));
    lemma_balanced_nest(name, rounds, Seq::empty());
    assert(nest(name, rounds, Seq::empty()) =~= leaf(name, rounds));
}

/// The scenario leaves every call that it enters.
pub proof fn lemma_scenario_balanced(method: Option<Seq<char>>)
    ensures
        balanced(scenario(method)),
{
    let load = leaf("load_contract"@, 40);
    let auth = leaf("check_auth"@, 25);
    let read = leaf("storage_read"@, 15);
    let dispatch = if method is Some {
        leaf("dispatch"@, 10)
    } else {
        Seq::empty()
    };
    let write = leaf("storage_write"@, 50);
    let emit = leaf("emit_event"@, 10);
    lemma_balanced_leaf("load_contract"@, 40);
    lemma_balanced_leaf("check_auth"@, 25);
    lemma_balanced_leaf("storage_read"@, 15);
    lemma_balanced_leaf("dispatch"@, 10);
    lemma_balanced_leaf("storage_write"@, 50);
    lemma_balanced_leaf("emit_event"@, 10);
    lemma_balanced_leaf("compute"@, 30);
    lemma_balanced_leaf("call_contract"@, 60);
    lemma_balanced_nest("compute"@, 30, leaf("compute"@, 30));
    lemma_balanced_join(nest("compute"@, 30, leaf("compute"@, 30)), leaf("call_contract"@, 60));
    lemma_balanced_nest(
        "execute"@,
        20,
        nest("compute"@, 30, leaf("compute"@, 30)) + leaf("call_contract"@, 60),
    );
    assert(balanced(dispatch));
    lemma_balanced_join(load, auth);
    lemma_balanced_join(load + auth, read);
    lemma_balanced_join(load + auth + read, read);
    lemma_balanced_join(load + auth + read + read, read);
    lemma_balanced_join(load + auth + read + read + read, dispatch);
    lemma_balanced_join(load + auth + read + read + read + dispatch, execution());
    lemma_balanced_join(load + auth + read + read + read + dispatch + execution(), write);
    lemma_balanced_join(load + auth + read + read + read + dispatch + execution() + write, emit);
    lemma_balanced_nest(entry_name(method), 5, invocation(method));
}

/// Safe steps leave no fewer than zero calls open.
proof fn lemma_safe_level(steps: Seq<StepView>, open: int)
    requires
        safe(steps, open),
        open >= 0,
    ensures
        open + rise(steps) >= 0,
{
}

/// How many calls the steps enter.
pub open spec fn enters(steps: Seq<StepView>) -> nat
    decreases steps.len(),
{
    if steps.len() == 0 {
        0
    } else {
        enters(steps.drop_last()) + if steps.last() is Enter {
            1nat
        } else {
            0nat
        }
    }
}

impl Shape {
    /// Whether the open calls are calls of the structure.
    pub open spec fn open_ok(self) -> bool {
        forall|k: int| 0 <= k < self.open.len() ==> 0 <= #[trigger] self.open[k] < self.calls.len()
    }

    /// How `later` differs from `self` after steps that never leave a
    /// call of `self`: the calls and the open calls of `self` are
    /// there as they were, the calls since are behind them, each of
    /// those is either closed or open, and the open ones are in the order
    /// of entry.
    spec fn grown_into(self, later: Shape, rise: int, entered: nat) -> bool {
        &&& later.open.len() == self.open.len() + rise
        &&& later.calls.len() == self.calls.len() + entered
        &&& forall|k: int| 0 <= k < self.open.len() ==> later.open[k] == self.open[k]
        &&& forall|i: int| 0 <= i < self.calls.len() ==> later.calls[i] == self.calls[i]
        &&& forall|k: int|
            self.open.len() <= k < later.open.len() ==> self.calls.len() <= #[trigger] later.open[k]
                < later.calls.len()
        &&& forall|k: int, l: int|
            self.open.len() <= k < l < later.open.len() ==> #[trigger] later.open[k]
                < #[trigger] later.open[l]
        &&& forall|i: int|
            self.calls.len() <= i < later.calls.len() && !(#[trigger] later.calls[i]).closed
                ==> exists|k: int| self.open.len() <= k < later.open.len() && later.open[k] == i
    }

    proof fn lemma_grows(self, steps: Seq<StepView>)
        requires
            safe(steps, 0),
        ensures
            self.grown_into(self.run(steps), rise(steps), enters(steps)),
        decreases steps.len(),
    {
        if steps.len() > 0 {
            let before = self.run(steps.drop_last());
            let later = self.run(steps);
            self.lemma_grows(steps.drop_last());
            lemma_safe_level(steps.drop_last(), 0);
            lemma_safe_level(steps, 0);
            match steps.last() {
                StepView::Enter(name) => {
                    let fresh = before.calls.len() as int;
                    assert forall|i: int|
                        self.calls.len() <= i < later.calls.len() && !(
                        #[trigger] later.calls[i]).closed implies exists|k: int|
                        self.open.len() <= k < later.open.len() && later.open[k] == i by {
                        if i < fresh {
                            assert(later.calls[i] == before.calls[i]);
                            let k = choose|k: int|
                                self.open.len() <= k < before.open.len() && before.open[k] == i;
                            assert(later.open[k] == i);
                        } else {
                            assert(later.open[before.open.len() as int] == i);
                        }
                    }
                },
                StepView::Work(_) => {},
                StepView::Exit => {
                    let last = before.open.len() - 1;
                    let closing = before.open[last];
                    assert forall|i: int|
                        self.calls.len() <= i < later.calls.len() && !(
                        #[trigger] later.calls[i]).closed implies exists|k: int|
                        self.open.len() <= k < later.open.len() && later.open[k] == i by {
                        assert(later.calls[i] == before.calls[i]);
                        let k = choose|k: int|
                            self.open.len() <= k < before.open.len() && before.open[k] == i;
                        assert(later.open[k] == i);
                    }
                },
            }
        }
    }

    /// Steps that leave every call they enter, and no other, put the
    /// structure back as it was but for the calls they made: what was
    /// open is open, what was there is unchanged, and every call since is
    /// closed.
    pub proof fn lemma_balanced_run(self, steps: Seq<StepView>)
        requires
            balanced(steps),
        ensures
            self.run(steps).open == self.open,
            self.run(steps).calls.len() == self.calls.len() + enters(steps),
            forall|i: int| 0 <= i < self.calls.len() ==> self.run(steps).calls[i] == self.calls[i],
            forall|i: int|
                self.calls.len() <= i < self.run(steps).calls.len() ==> (#[trigger] self.run(
                    steps,
                ).calls[i]).closed,
    {
        self.lemma_grows(steps);
        assert(self.run(steps).open =~= self.open);
    }
}

/// The characters of an optional string slice.
pub open spec fn opt_chars(text: Option<&str>) -> Option<Seq<char>> {
    match text {
        Some(t) => Some(t@),
        None => None,
    }
}

fn leaf_steps(name: &str, rounds: u32) -> (steps: Vec<Step>)
    ensures
        step_views(steps@) == leaf(name@, rounds as nat),
{
    let mut steps: Vec<Step> = Vec::new();
    steps.push(Step::Enter(String::from_str(name)));
    steps.push(Step::Work(rounds));
    steps.push(Step::Exit);
    proof {
        assert(step_views(steps@) =~= leaf(name@, rounds as nat));
    }
    steps
}

fn join_steps(first: Vec<Step>, second: Vec<Step>) -> (steps: Vec<Step>)
    ensures
        step_views(steps@) == step_views(first@) + step_views(second@),
{
    let mut steps = first;
    let mut rest = second;
    steps.append(&mut rest);
    proof {
        assert(step_views(steps@) =~= step_views(first@) + step_views(second@));
    }
    steps
}

fn nest_steps(name: &str, rounds: u32, body: Vec<Step>) -> (steps: Vec<Step>)
    ensures
        step_views(steps@) == nest(name@, rounds as nat, step_views(body@)),
{
    let mut steps: Vec<Step> = Vec::new();
    steps.push(Step::Enter(String::from_str(name)));
    steps.push(Step::Work(rounds));
    let mut inner = body;
    steps.append(&mut inner);
    steps.push(Step::Exit);
    proof {
        assert(step_views(steps@) =~= nest(name@, rounds as nat, step_views(body@)));
    }
    steps
}

/// The steps of a simulated run of `method`.
pub fn plan(method: Option<&str>) -> (steps: Vec<Step>)
    ensures
        step_views(steps@) == scenario(opt_chars(method)),
{
    let inner = leaf_steps("compute", 30);
    let compute = nest_steps("compute", 30, inner);
    let execute = nest_steps("execute", 20, join_steps(compute, leaf_steps("call_contract", 60)));
    let mut body = leaf_steps("load_contract", 40);
    body = join_steps(body, leaf_steps("check_auth", 25));
    body = join_steps(body, leaf_steps("storage_read", 15));
    body = join_steps(body, leaf_steps("storage_read", 15));
    body = join_steps(body, leaf_steps("storage_read", 15));
    let dispatch: Vec<Step> = match method {
        Some(_) => leaf_steps("dispatch", 10),
        None => Vec::new(),
    };
    proof {
        if method is None {
            assert(step_views(dispatch@) =~= Seq::<StepView>::empty());
        }
    }
    body = join_steps(body, dispatch);
    body = join_steps(body, execute);
    body = join_steps(body, leaf_steps("storage_write", 50));
    body = join_steps(body, leaf_steps("emit_event", 10));
    match method {
        Some(m) => nest_steps(m, 5, body),
        None => nest_steps("invoke", 5, body),
    }
}

/// Plays `steps` against the profiler: each `Enter` opens a call, each
/// `Exit` closes one, each `Work` does its rounds of arithmetic.
fn drive(profiler: &mut Profiler, steps: &Vec<Step>)
    requires
        old(profiler).wf(),
        !old(profiler)@.finished,
        safe(step_views(steps@), old(profiler)@.stack.len() as int),
    ensures
        final(profiler).wf(),
        !final(profiler)@.finished,
        Shape::of(final(profiler)@) == Shape::of(old(profiler)@).run(step_views(steps@)),
        final(profiler)@.stack.len() == old(profiler)@.stack.len() + rise(step_views(steps@)),
{
    let ghost views = step_views(steps@);
    let ghost start = profiler@;
    let mut k: usize = 0;
    proof {
        assert(views.take(0) =~= Seq::<StepView>::empty());
    }
    while k < steps.len()
        invariant
            k <= steps.len(),
            views == step_views(steps@),
            profiler.wf(),
            !profiler@.finished,
            safe(views, start.stack.len() as int),
            Shape::of(profiler@) == Shape::of(start).run(views.take(k as int)),
            profiler@.stack.len() == start.stack.len() + rise(views.take(k as int)),
        decreases steps.len() - k,
    {
        let ghost before = profiler@;
        proof {
            assert(views.take(k + 1).drop_last() =~= views.take(k as int));
            assert(views.take(k + 1).last() == steps@[k as int]@);
            lemma_safe_prefix(views, start.stack.len() as int, k + 1);
            profiler.lemma_wf_inv();
        }
        match &steps[k] {
            Step::Enter(name) => {
                let opened = profiler.enter(name.as_str());
                assert(opened is Ok);
                proof {
                    let (at, settled) = choose|at: nat, settled: nat|
                        profiler@ == #[trigger] entered(before, name@, at, settled);
                    lemma_shape_enter(before, name@, at);
                    lemma_shape_settle(before.enter(name@, at), settled);
                }
            },
            Step::Work(rounds) => {
                let mut unit: u32 = 0;
                while unit < ROUNDS_PER_UNIT
                    invariant
                        unit <= ROUNDS_PER_UNIT,
                    decreases ROUNDS_PER_UNIT - unit,
                {
                    let spent = burn(*rounds);
                    unit += 1;
                }
            },
            Step::Exit => {
                proof {
                    before.lemma_top();
                }
                let closed = profiler.exit();
                assert(closed is Ok);
                proof {
                    let (at, settled) = choose|at: nat, settled: nat|
                        profiler@ == #[trigger] left(before, at, settled);
                    lemma_shape_exit(before, at);
                    lemma_shape_settle(before.exit(at), settled);
                }
            },
        }
        k += 1;
    }
    proof {
        assert(views.take(steps.len() as int) =~= views);
    }
}

/// Simulates one invocation of a contract against `profiler`.
///
/// Nothing is recorded unless the artifact exists and is a contract: a
/// missing artifact is refused as not found, contents that do not begin
/// as a WebAssembly module as malformed, and a profiler that is already
/// finished as misuse, each time leaving the profiler as it was.
/// Otherwise the scenario for `method` is played in full: the calls that
/// were open before are open after, and the recording has grown by the
/// scenario's calls, all of them closed.
pub fn simulate_execution(artifact: &Artifact, method: Option<&str>, profiler: &mut Profiler) -> (done:
    Result<(), ProfileError>)
    requires
        old(profiler).wf(),
    ensures
        final(profiler).wf(),
        match artifact.contents {
            None => {
                &&& done matches Err(ProfileError::NotFound { path })
                &&& path@ == artifact.path@
                &&& final(profiler)@ == old(profiler)@
            },
            Some(bytes) => if !is_contract(bytes@) {
                &&& done matches Err(ProfileError::MalformedArtifact { path })
                &&& path@ == artifact.path@
                &&& final(profiler)@ == old(profiler)@
            } else if old(profiler)@.finished {
                &&& done == Err::<(), ProfileError>(
                    ProfileError::RecorderMisuse { stage: RecorderStage::Enter },
                )
                &&& final(profiler)@ == old(profiler)@
            } else {
                &&& done is Ok
                &&& Shape::of(final(profiler)@) == Shape::of(old(profiler)@).run(
                    scenario(opt_chars(method)),
                )
                &&& final(profiler)@.stack == old(profiler)@.stack
                &&& !final(profiler)@.finished
            },
        },
{
    match &artifact.contents {
        None => {
            return Err(ProfileError::NotFound { path: artifact.path.clone() });
        },
        Some(bytes) => {
            if !recognize(bytes) {
                return Err(ProfileError::MalformedArtifact { path: artifact.path.clone() });
            }
        },
    }
    if profiler.is_finished() {
        return Err(ProfileError::RecorderMisuse { stage: RecorderStage::Enter });
    }
    let steps = plan(method);
    proof {
        lemma_scenario_balanced(opt_chars(method));
        lemma_safe_more(step_views(steps@), 0, profiler@.stack.len() as int);
    }
    drive(profiler, &steps);
    proof {
        Shape::of(old(profiler)@).lemma_balanced_run(scenario(opt_chars(method)));
    }
    Ok(())
}

} // verus!
