use core::convert::Infallible;
use simple_generators_util::{
    FusedGenIterator, Generator, GeneratorExt, GeneratorState, MapResume, MapReturn, MapYield,
    RawGenIterator, SimpleGenIterator,
};

/// Yields the values of `yields` in order and then completes with `ret`. It
/// records every argument that it was resumed with.
#[derive(Clone, Debug, PartialEq)]
struct Script<A, C> {
    yields: Vec<i32>,
    pos: usize,
    ret: C,
    done: bool,
    received: Vec<A>,
}

impl<A, C> Script<A, C> {
    fn new(yields: &[i32], ret: C) -> Self {
        Script { yields: yields.to_vec(), pos: 0, ret, done: false, received: Vec::new() }
    }
}

impl<A: Clone + PartialEq, C: Clone + PartialEq> Generator<A> for Script<A, C> {
    type Yield = i32;
    type Return = C;

    fn can_resume(&self, _arg: A) -> bool {
        !self.done
    }

    fn step(&self, arg: A, out: GeneratorState<i32, C>, next: &Self) -> bool {
        let mut received = self.received.clone();
        received.push(arg);
        let expected = if self.pos < self.yields.len() {
            GeneratorState::Yielded(self.yields[self.pos])
        } else {
            GeneratorState::Complete(self.ret.clone())
        };
        let moved = if self.pos < self.yields.len() { self.pos + 1 } else { self.pos };
        out == expected && next.yields == self.yields && next.ret == self.ret && next.pos == moved
            && next.done == (self.pos >= self.yields.len()) && next.received == received
    }

    fn resume(&mut self, arg: A) -> GeneratorState<i32, C> {
        assert!(!self.done, "resumed after completion");
        self.received.push(arg);
        if self.pos < self.yields.len() {
            self.pos += 1;
            GeneratorState::Yielded(self.yields[self.pos - 1])
        } else {
            self.done = true;
            GeneratorState::Complete(self.ret.clone())
        }
    }
}

/// Yields `x * x` for `x = 0, 1, ..` while `x * x * x <= 100`, then returns.
struct Squares<A> {
    x: u64,
    done: bool,
    last: Option<A>,
}

impl<A> Squares<A> {
    fn new() -> Self {
        Squares { x: 0, done: false, last: None }
    }
}

impl<A> Generator<A> for Squares<A> {
    type Yield = u64;
    type Return = ();

    fn can_resume(&self, _arg: A) -> bool {
        !self.done
    }

    fn step(&self, _arg: A, out: GeneratorState<u64, ()>, next: &Self) -> bool {
        if self.x * self.x * self.x > 100 {
            out == GeneratorState::Complete(()) && next.done && next.x == self.x
        } else {
            out == GeneratorState::Yielded(self.x * self.x) && !next.done && next.x == self.x + 1
        }
    }

    fn resume(&mut self, arg: A) -> GeneratorState<u64, ()> {
        assert!(!self.done, "resumed after completion");
        self.last = Some(arg);
        if self.x * self.x * self.x > 100 {
            self.done = true;
            return GeneratorState::Complete(());
        }
        self.x += 1;
        GeneratorState::Yielded((self.x - 1) * (self.x - 1))
    }
}

/// Yields 0, 1, 2, .. and never completes.
struct Naturals {
    next: u32,
}

impl Generator<()> for Naturals {
    type Yield = u32;
    type Return = Infallible;

    fn can_resume(&self, _arg: ()) -> bool {
        true
    }

    fn step(&self, _arg: (), out: GeneratorState<u32, Infallible>, next: &Self) -> bool {
        out == GeneratorState::Yielded(self.next) && next.next == self.next + 1
    }

    fn resume(&mut self, _arg: ()) -> GeneratorState<u32, Infallible> {
        self.next += 1;
        GeneratorState::Yielded(self.next - 1)
    }
}

fn sum_of_yields<R: Default, G: Generator<R, Yield = u64, Return = ()>>(gen: G) -> u64 {
    let mut view = gen.map_resume(|()| R::default()).iterate_over_yields();
    let mut total = 0;
    while let Some(y) = view.next() {
        total += y;
    }
    total
}

fn drain_simple<G>(view: &mut SimpleGenIterator<G>) -> Vec<G::Yield>
where
    G: Generator<()>,
    G::Return: simple_generators_util::SupportedReturnValue,
{
    let mut seen = Vec::new();
    while let Some(y) = view.next() {
        seen.push(y);
    }
    seen
}

#[test]
fn squares_summed_through_resume_mapper_and_simple_view() {
    assert_eq!(sum_of_yields(Squares::<()>::new()), 30);
    assert_eq!(sum_of_yields(Squares::<u8>::new()), 30);
    assert_eq!(sum_of_yields(Squares::<String>::new()), 30);
}

#[test]
fn squares_yield_zero_one_four_nine_sixteen() {
    let mut view = Squares::<()>::new().iterate_over_yields();
    assert_eq!(drain_simple(&mut view), vec![0, 1, 4, 9, 16]);
}

#[test]
fn simple_view_hands_out_the_yields_then_ends() {
    let mut view = Script::<(), ()>::new(&[7, -3, 7, 0], ()).iterate_over_yields();
    assert_eq!(view.next(), Some(7));
    assert_eq!(view.next(), Some(-3));
    assert_eq!(view.next(), Some(7));
    assert_eq!(view.next(), Some(0));
    assert_eq!(view.next(), None);
}

#[test]
fn simple_view_over_a_computation_that_completes_at_once() {
    let mut view = Script::<(), ()>::new(&[], ()).iterate_over_yields();
    assert_eq!(view.next(), None);
}

#[test]
fn simple_view_resumes_once_per_advance() {
    let mut script = Script::<(), ()>::new(&[1, 2], ());
    {
        let mut view = script.by_ref().iterate_over_yields();
        assert_eq!(view.next(), Some(1));
        assert_eq!(view.next(), Some(2));
    }
    assert_eq!(script.received.len(), 2);
    assert!(!script.done);
    {
        let mut view = script.by_ref().iterate_over_yields();
        assert_eq!(view.next(), None);
    }
    assert_eq!(script.received.len(), 3);
    assert!(script.done);
}

#[test]
fn simple_view_over_an_endless_computation() {
    let mut view = Naturals { next: 0 }.iterate_over_yields();
    let mut seen = Vec::new();
    for _ in 0..5 {
        seen.push(view.next());
    }
    assert_eq!(seen, vec![Some(0), Some(1), Some(2), Some(3), Some(4)]);
}

#[test]
fn raw_view_hands_out_every_outcome() {
    let mut view: RawGenIterator<_> = Script::<(), &str>::new(&[5, 6], "end").into_raw_iterator();
    assert_eq!(view.next(), Some(GeneratorState::Yielded(5)));
    assert_eq!(view.next(), Some(GeneratorState::Yielded(6)));
    assert_eq!(view.next(), Some(GeneratorState::Complete("end")));
}

#[test]
fn raw_view_over_a_computation_that_completes_at_once() {
    let mut view = Script::<(), u8>::new(&[], 9).into_raw_iterator();
    assert_eq!(view.next(), Some(GeneratorState::Complete(9)));
}

#[test]
fn raw_view_truncated_at_its_first_completion() {
    let mut view = Script::<(), char>::new(&[1, 2, 3], 'r').into_raw_iterator();
    let mut seen = Vec::new();
    loop {
        let item = view.next();
        assert!(item.is_some());
        let out = item.unwrap();
        let last = matches!(out, GeneratorState::Complete(_));
        seen.push(out);
        if last {
            break;
        }
    }
    assert_eq!(
        seen,
        vec![
            GeneratorState::Yielded(1),
            GeneratorState::Yielded(2),
            GeneratorState::Yielded(3),
            GeneratorState::Complete('r'),
        ]
    );
}

#[test]
fn fused_view_is_running_for_the_yields_and_completed_after() {
    let mut view = Script::<(), &str>::new(&[10, 20, 30], "done").into_fused_iterator();
    assert!(view.is_completed());
    assert_eq!(view.next(), Some(10));
    assert!(view.is_completed());
    assert_eq!(view.next(), Some(20));
    assert!(view.is_completed());
    assert_eq!(view.next(), Some(30));
    assert!(view.is_completed());
    assert_eq!(view.next(), None);
    assert!(!view.is_completed());
    for _ in 0..10 {
        assert_eq!(view.next(), None);
        assert!(!view.is_completed());
    }
}

#[test]
fn fused_view_keeps_the_final_value() {
    let mut view = Script::<(), String>::new(&[1], String::from("kept")).into_fused_iterator();
    assert_eq!(view.next(), Some(1));
    assert!(matches!(view, FusedGenIterator::Generator(_)));
    assert_eq!(view.next(), None);
    for _ in 0..3 {
        match &view {
            FusedGenIterator::Completed(r) => assert_eq!(r, "kept"),
            FusedGenIterator::Generator(_) => panic!("the view is still running"),
        }
        assert_eq!(view.next(), None);
    }
}

#[test]
fn fused_view_does_not_resume_after_the_completion() {
    let mut script = Script::<(), u8>::new(&[4], 2);
    {
        let mut view = script.by_ref().into_fused_iterator();
        assert_eq!(view.next(), Some(4));
        assert_eq!(view.next(), None);
        assert_eq!(view.next(), None);
        assert_eq!(view.next(), None);
        assert!(matches!(view, FusedGenIterator::Completed(2)));
    }
    assert_eq!(script.received.len(), 2);
}

#[test]
fn fused_view_over_a_computation_that_completes_at_once() {
    let mut view = Script::<(), i64>::new(&[], -1).into_fused_iterator();
    assert!(view.is_completed());
    assert_eq!(view.next(), None);
    assert!(!view.is_completed());
    assert!(matches!(view, FusedGenIterator::Completed(-1)));
}

#[test]
fn fused_view_built_completed_reports_the_end() {
    let mut view: FusedGenIterator<Script<(), u8>> = FusedGenIterator::Completed(3);
    assert!(!view.is_completed());
    assert_eq!(view.next(), None);
    assert!(matches!(view, FusedGenIterator::Completed(3)));
}

#[test]
fn fused_view_from_new_is_running() {
    let view = FusedGenIterator::new(Script::<(), u8>::new(&[1], 0));
    assert!(view.is_completed());
    assert!(matches!(view, FusedGenIterator::Generator(_)));
}

#[test]
fn yield_mapper_applies_the_function_to_each_yield() {
    let mut mapped: MapYield<_, _> = Script::<(), &str>::new(&[1, 2, 3], "r").map_yield(|y| y * 10);
    assert_eq!(mapped.resume(()), GeneratorState::Yielded(10));
    assert_eq!(mapped.resume(()), GeneratorState::Yielded(20));
    assert_eq!(mapped.resume(()), GeneratorState::Yielded(30));
    assert_eq!(mapped.resume(()), GeneratorState::Complete("r"));
}

#[test]
fn yield_mapper_may_change_the_type_of_the_yields() {
    let mut mapped = Script::<(), ()>::new(&[1, 22], ()).map_yield(|y| format!("<{}>", y));
    assert_eq!(mapped.resume(()), GeneratorState::Yielded(String::from("<1>")));
    assert_eq!(mapped.resume(()), GeneratorState::Yielded(String::from("<22>")));
    assert_eq!(mapped.resume(()), GeneratorState::Complete(()));
}

#[test]
fn yield_mapper_calls_the_function_once_per_yield_and_not_at_the_completion() {
    let mut calls = 0;
    {
        let mut mapped = Script::<(), u8>::new(&[1, 2], 7).map_yield(|y| {
            calls += 1;
            y
        });
        assert_eq!(mapped.resume(()), GeneratorState::Yielded(1));
        assert_eq!(mapped.resume(()), GeneratorState::Yielded(2));
        assert_eq!(mapped.resume(()), GeneratorState::Complete(7));
    }
    assert_eq!(calls, 2);
}

#[test]
fn yield_mapper_forwards_the_resume_argument() {
    let mut script = Script::<u32, ()>::new(&[1, 2], ());
    {
        let mut mapped = script.by_ref().map_yield(|y| -y);
        assert_eq!(mapped.resume(11), GeneratorState::Yielded(-1));
        assert_eq!(mapped.resume(12), GeneratorState::Yielded(-2));
        assert_eq!(mapped.resume(13), GeneratorState::Complete(()));
    }
    assert_eq!(script.received, vec![11, 12, 13]);
}

#[test]
fn return_mapper_applies_the_function_to_the_final_value() {
    let mut mapped: MapReturn<_, _> = Script::<(), u8>::new(&[1, 2], 20).map_return(|r| r as u32 + 1);
    assert_eq!(mapped.resume(()), GeneratorState::Yielded(1));
    assert_eq!(mapped.resume(()), GeneratorState::Yielded(2));
    assert_eq!(mapped.resume(()), GeneratorState::Complete(21));
}

#[test]
fn return_mapper_calls_the_function_exactly_once() {
    let mut calls = 0;
    {
        let mut mapped = Script::<(), u8>::new(&[1, 2, 3], 0).map_return(|r| {
            calls += 1;
            r
        });
        assert_eq!(mapped.resume(()), GeneratorState::Yielded(1));
        assert_eq!(mapped.resume(()), GeneratorState::Yielded(2));
        assert_eq!(mapped.resume(()), GeneratorState::Yielded(3));
        assert_eq!(mapped.resume(()), GeneratorState::Complete(0));
    }
    assert_eq!(calls, 1);
}

#[test]
fn return_mapper_makes_a_computation_fit_the_simple_view() {
    let mut view = Script::<(), &str>::new(&[3, 1, 2], "dropped").map_return(|_| ()).iterate_over_yields();
    assert_eq!(drain_simple(&mut view), vec![3, 1, 2]);
}

#[test]
fn resume_mapper_hands_the_function_result_to_the_computation() {
    let mut script = Script::<usize, char>::new(&[1, 2], 'z');
    {
        let mut mapped: MapResume<_, _> = script.by_ref().map_resume(|text: &str| text.len());
        assert_eq!(mapped.resume("a"), GeneratorState::Yielded(1));
        assert_eq!(mapped.resume("abcd"), GeneratorState::Yielded(2));
        assert_eq!(mapped.resume(""), GeneratorState::Complete('z'));
    }
    assert_eq!(script.received, vec![1, 4, 0]);
}

#[test]
fn resume_mapper_calls_the_function_once_per_resumption() {
    let mut calls = 0;
    {
        let mut mapped = Script::<i32, ()>::new(&[1], ()).map_resume(|a: i32| {
            calls += 1;
            a + 1
        });
        assert_eq!(mapped.resume(0), GeneratorState::Yielded(1));
        assert_eq!(mapped.resume(0), GeneratorState::Complete(()));
    }
    assert_eq!(calls, 2);
}

#[test]
fn mappers_compose() {
    let mut script = Script::<u8, i32>::new(&[1, 2], 100);
    {
        let mut mapped = script
            .by_ref()
            .map_yield(|y| y + 1)
            .map_return(|r| r * 2)
            .map_resume(|a: u8| a + 1)
            .map_yield(|y| y * 3);
        assert_eq!(mapped.resume(0), GeneratorState::Yielded(6));
        assert_eq!(mapped.resume(5), GeneratorState::Yielded(9));
        assert_eq!(mapped.resume(9), GeneratorState::Complete(200));
    }
    assert_eq!(script.received, vec![1, 6, 10]);
}

#[test]
fn mapped_computation_through_the_fused_view() {
    let mut view = Script::<(), u8>::new(&[1, 2], 5)
        .map_yield(|y| y * y + 1)
        .map_return(|r| r + 1)
        .into_fused_iterator();
    assert_eq!(view.next(), Some(2));
    assert_eq!(view.next(), Some(5));
    assert_eq!(view.next(), None);
    assert_eq!(view.next(), None);
    assert!(matches!(view, FusedGenIterator::Completed(6)));
}

#[test]
fn by_ref_leaves_the_computation_where_the_handle_left_it() {
    let mut script = Script::<(), u8>::new(&[1, 2, 3], 0);
    assert_eq!(script.by_ref().resume(()), GeneratorState::Yielded(1));
    {
        let handle = script.by_ref();
        assert_eq!(handle.resume(()), GeneratorState::Yielded(2));
    }
    assert_eq!(script.resume(()), GeneratorState::Yielded(3));
    assert_eq!(script.resume(()), GeneratorState::Complete(0));
}

#[test]
fn boxed_computation_runs_as_the_computation_does() {
    let mut handle = Script::<(), u8>::new(&[8], 1).boxed();
    assert_eq!(handle.resume(()), GeneratorState::Yielded(8));
    assert_eq!(handle.pos, 1);
    assert_eq!(handle.resume(()), GeneratorState::Complete(1));
    assert!(handle.done);
}

#[test]
fn boxed_computation_through_a_view() {
    let mut view = Script::<(), ()>::new(&[8, 9], ()).boxed().iterate_over_yields();
    assert_eq!(drain_simple(&mut view), vec![8, 9]);
}

#[test]
fn resume_unpin_resumes_once() {
    let mut script = Script::<u8, u8>::new(&[1], 2);
    assert_eq!(script.resume_unpin(40), GeneratorState::Yielded(1));
    assert_eq!(script.resume_unpin(41), GeneratorState::Complete(2));
    assert_eq!(script.received, vec![40, 41]);
}

#[test]
fn script_resumes_as_its_step_relation_says() {
    let mut script = Script::<u8, &str>::new(&[1, 2], "r");
    for arg in 0..3 {
        let before = script.clone();
        assert!(before.can_resume(arg));
        let out = script.resume(arg);
        assert!(before.step(arg, out, &script));
        assert!(!before.step(arg + 1, out, &script));
        assert!(!before.step(arg, GeneratorState::Yielded(99), &script));
        assert!(!before.step(arg, out, &before));
    }
    assert!(!script.can_resume(3));
}

#[test]
fn outcome_clones_and_compares() {
    let yielded: GeneratorState<String, u8> = GeneratorState::Yielded(String::from("y"));
    let complete: GeneratorState<String, u8> = GeneratorState::Complete(1);
    assert_eq!(yielded.clone(), yielded);
    assert_eq!(complete.clone(), complete);
    assert_ne!(yielded, complete);
    assert_ne!(complete, GeneratorState::Complete(2));
    assert_eq!(format!("{:?}", complete), "Complete(1)");
    let copied: GeneratorState<u8, u8> = GeneratorState::Yielded(3);
    let again = copied;
    assert_eq!(copied, again);
}
