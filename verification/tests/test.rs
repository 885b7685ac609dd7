use core::fmt;
use core::hint::black_box;
use core::iter;
use core::hash::Hash;
use core::marker::PhantomData;
use salsita::event::Handler;
use salsita::query::Input;
use salsita::query::Query;
use salsita::storage::DefaultStorage;
use salsita::Db;
use salsita::Snapshot;
use salsita::metrics::PerfMetrics;

#[test]
fn test_star10() {
    let _ = black_box(star10::<1>());
}

#[test]
fn test_star30() {
    let _ = black_box(star30::<1>());
}

#[test]
fn test_star100() {
    let _ = black_box(star100::<1>());
}

#[test]
fn test_chain5() {
    let _ = black_box(chain5::<1>());
}

#[test]
fn test_chain25() {
    let _ = black_box(chain25::<1>());
}

#[test]
fn test_chain100() {
    let _ = black_box(chain100::<1>());
}

#[test]
fn test_tree_k3d2() {
    let _ = black_box(tree_k3d2::<1>());
}

#[test]
fn test_tree_k3d3() {
    let _ = black_box(tree_k3d3::<1>());
}

#[test]
fn test_tree_k3d4() {
    let _ = black_box(tree_k3d4::<1>());
}

#[test]
fn test_hourglass3() {
    let _ = black_box(hourglass3::<1>());
}

#[test]
fn test_hourglass6() {
    let _ = black_box(hourglass6::<1>());
}

#[test]
fn test_hourglass9() {
    let _ = black_box(hourglass9::<1>());
}

const WARMUP_COUNT: usize = 3;

type MetricsDb = Db<DefaultStorage, PerfMetrics>;

#[allow(dead_code)]
struct GraphMetrics {
    cold: ScenarioMetrics,
    memo: ScenarioMetrics,
    update: ScenarioMetrics,
}

#[allow(dead_code)]
struct ScenarioMetrics {
    counts: Counts,
    timings: Vec<Timings>,
}

#[allow(dead_code)]
struct Counts {
    query: usize,
    eval: usize,
}

#[allow(dead_code)]
struct Timings {
    query: u64,
    eval: u64,
}

fn star10<const N: usize>() -> GraphMetrics {
    bench_graph::<N, Star10>(
        |db| {
            let inp = db.new_input::<Inp>(&1);
            Tuple10(inp, inp, inp, inp, inp, inp, inp, inp, inp, inp)
        },
        |db, Tuple10(inp, _, _, _, _, _, _, _, _, _)| db.set_input(*inp, &2),
        20,
        30,
    )
}

fn star30<const N: usize>() -> GraphMetrics {
    bench_graph::<N, Star30>(
        |db| {
            let inp = db.new_input::<Inp>(&1);
            Tuple30(inp, inp, inp, inp, inp, inp, inp, inp, inp, inp, inp, inp, inp, inp, inp, inp, inp, inp, inp, inp, inp, inp, inp, inp, inp, inp, inp, inp, inp, inp)
        },
        |db, Tuple30(inp, _, _, _, _, _, _, _, _, _, _, _, _, _, _, _, _, _, _, _, _, _, _, _, _, _, _, _, _, _)| db.set_input(*inp, &2),
        60,
        90,
    )
}

fn star100<const N: usize>() -> GraphMetrics {
    bench_graph::<N, Star100>(
        |db| {
            let inp = db.new_input::<Inp>(&1);
            Tuple100(inp, inp, inp, inp, inp, inp, inp, inp, inp, inp, inp, inp, inp, inp, inp, inp, inp, inp, inp, inp, inp, inp, inp, inp, inp, inp, inp, inp, inp, inp, inp, inp, inp, inp, inp, inp, inp, inp, inp, inp, inp, inp, inp, inp, inp, inp, inp, inp, inp, inp, inp, inp, inp, inp, inp, inp, inp, inp, inp, inp, inp, inp, inp, inp, inp, inp, inp, inp, inp, inp, inp, inp, inp, inp, inp, inp, inp, inp, inp, inp, inp, inp, inp, inp, inp, inp, inp, inp, inp, inp, inp, inp, inp, inp, inp, inp, inp, inp, inp, inp)
        },
        |db, Tuple100(inp, _, _, _, _, _, _, _, _, _, _, _, _, _, _, _, _, _, _, _, _, _, _, _, _, _, _, _, _, _, _, _, _, _, _, _, _, _, _, _, _, _, _, _, _, _, _, _, _, _, _, _, _, _, _, _, _, _, _, _, _, _, _, _, _, _, _, _, _, _, _, _, _, _, _, _, _, _, _, _, _, _, _, _, _, _, _, _, _, _, _, _, _, _, _, _, _, _, _, _)| db.set_input(*inp, &2),
        200,
        300,
    )
}

fn chain5<const N: usize>() -> GraphMetrics {
    bench_graph::<N, Chain5>(
        |db| {
            db.new_input::<Inp>(&0)
        },
        |db, inp| db.set_input(*inp, &1),
        5,
        6,
    )
}

fn chain25<const N: usize>() -> GraphMetrics {
    bench_graph::<N, Chain25>(
        |db| {
            db.new_input::<Inp>(&0)
        },
        |db, inp| db.set_input(*inp, &1),
        25,
        26,
    )
}

fn chain100<const N: usize>() -> GraphMetrics {
    bench_graph::<N, Chain100>(
        |db| {
            db.new_input::<Inp>(&0)
        },
        |db, inp| db.set_input(*inp, &1),
        100,
        101,
    )
}

fn tree_k3d2<const N: usize>() -> GraphMetrics {
    bench_graph::<N, TreeK3D2>(
        |db| {
            let inp = db.new_input::<Inp>(&0);
            Tuple3(inp, inp, inp)
        },
        |db, Tuple3(inp, _, _)| db.set_input(*inp, &1),
        3,
        6,
    )
}

fn tree_k3d3<const N: usize>() -> GraphMetrics {
    bench_graph::<N, TreeK3D3>(
        |db| {
            let inp = db.new_input::<Inp>(&0);
            Tuple9(inp, inp, inp, inp, inp, inp, inp, inp, inp)
        },
        |db, Tuple9(inp, _, _, _, _, _, _, _, _)| db.set_input(*inp, &1),
        18,
        27,
    )
}

fn tree_k3d4<const N: usize>() -> GraphMetrics {
    bench_graph::<N, TreeK3D4>(
        |db| {
            let inp = db.new_input::<Inp>(&0);
            Tuple27(inp, inp, inp, inp, inp, inp, inp, inp, inp, inp, inp, inp, inp, inp, inp, inp, inp, inp, inp, inp, inp, inp, inp, inp, inp, inp, inp)
        },
        |db, Tuple27(inp, _, _, _, _, _, _, _, _, _, _, _, _, _, _, _, _, _, _, _, _, _, _, _, _, _, _)| db.set_input(*inp, &1),
        81,
        108,
    )
}

fn hourglass3<const N: usize>() -> GraphMetrics {
    bench_graph::<N, Hourglass3>(
        |db| {
            let inp = Tuple3(db.new_input::<Inp>(&2), db.new_input::<Inp2>(&1), db.new_input::<Inp3>(&1));
            Tuple3(inp, inp, inp)
        },
        |db, Tuple3(Tuple3(inp1, inp2, _), _, _)| {
            db.set_input(*inp1, &1);
            db.set_input(*inp2, &2);
        },
        24,
        24,
    )
}

fn hourglass6<const N: usize>() -> GraphMetrics {
    bench_graph::<N, Hourglass6>(
        |db| {
            let inp = Tuple6(db.new_input::<Inp>(&2), db.new_input::<Inp2>(&1), db.new_input::<Inp3>(&1), db.new_input::<Inp4>(&1), db.new_input::<Inp5>(&1), db.new_input::<Inp6>(&1));
            Tuple6(inp, inp, inp, inp, inp, inp)
        },
        |db, Tuple6(Tuple6(inp1, inp2, _, _, _, _), _, _, _, _, _)| {
            db.set_input(*inp1, &1);
            db.set_input(*inp2, &2);
        },
        84,
        84,
    )
}

fn hourglass9<const N: usize>() -> GraphMetrics {
    bench_graph::<N, Hourglass9>(
        |db| {
            let inp = Tuple9(db.new_input::<Inp>(&2), db.new_input::<Inp2>(&1), db.new_input::<Inp3>(&1), db.new_input::<Inp4>(&1), db.new_input::<Inp5>(&1), db.new_input::<Inp6>(&1), db.new_input::<Inp7>(&1), db.new_input::<Inp8>(&1), db.new_input::<Inp9>(&1));
            Tuple9(inp, inp, inp, inp, inp, inp, inp, inp, inp)
        },
        |db, Tuple9(Tuple9(inp1, inp2, _, _, _, _, _, _, _), _, _, _, _, _, _, _, _)| {
            db.set_input(*inp1, &1);
            db.set_input(*inp2, &2);
        },
        180,
        180,
    )
}

fn bench_graph<const N: usize, Sink>(
    alloc_inputs: impl Fn(&mut MetricsDb) -> Sink::Args,
    update_inputs: impl Fn(&mut MetricsDb, &Sink::Args),
    exp_cold: Sink::Out,
    exp_update: Sink::Out,
) -> GraphMetrics
where
    Sink: Query,
    Sink::Out: Copy + Eq + fmt::Debug,
{
    GraphMetrics {
        cold: bench_scenario::<N, _, _>(
            |_| {},
            |db, ()| {
                let inputs = alloc_inputs(db);
                *db.query::<Sink>(&inputs).unwrap()
            },
            exp_cold,
        ),
        memo: bench_scenario::<N, _, _>(
            |db| {
                let inputs = alloc_inputs(db);
                db.query::<Sink>(&inputs).unwrap();
                inputs
            },
            |db, inputs| *db.query::<Sink>(&inputs).unwrap(),
            exp_cold,
        ),
        update: bench_scenario::<N, _, _>(
            |db| {
                let inputs = alloc_inputs(db);
                db.query::<Sink>(&inputs).unwrap();
                inputs
            },
            |db, inputs| {
                update_inputs(db, &inputs);
                *db.query::<Sink>(&inputs).unwrap()
            },
            exp_update,
        ),
    }
}

fn bench_scenario<const N: usize, Inp, Out>(
    init: impl Copy + Fn(&mut MetricsDb) -> Inp,
    bench: impl Copy + Fn(&mut MetricsDb, Inp) -> Out,
    exp: Out,
) -> ScenarioMetrics
where
    Out: Copy + Eq + fmt::Debug,
{
    let (_, counts, out) = bench_iter(init, bench);
    assert_eq!(out, exp);
    for _ in 0..WARMUP_COUNT {
        let (_, _, _) = bench_iter(init, bench);
    }
    let timings = iter::repeat_with(|| {
        let (timings, _, _) = bench_iter(init, bench);
        timings
    })
    .take(N)
    .collect();
    ScenarioMetrics { counts, timings }
}

fn bench_iter<T, Out>(
    init: impl Fn(&mut MetricsDb) -> T,
    bench: impl Fn(&mut MetricsDb, T) -> Out,
) -> (Timings, Counts, Out)
where
    Out: Eq + fmt::Debug,
{
    let mut db = MetricsDb::default();
    let v = init(&mut db);
    db.event_handler_mut().reset();
    let out = bench(&mut db, v);
    let m = db.event_handler();
    (Timings::new(m), Counts::new(m), out)
}

impl Counts {
    fn new(m: &PerfMetrics) -> Self {
        Self {
            query: m.query_count(),
            eval: m.eval_count(),
        }
    }
}

impl Timings {
    fn new(m: &PerfMetrics) -> Self {
        Self {
            query: m.query_time().as_nanos().try_into().unwrap_or(u64::MAX),
            eval: m.eval_time().as_nanos().try_into().unwrap_or(u64::MAX),
        }
    }
}

trait Op: Send + Sync + 'static {
    type Args: Clone + Eq + Hash + Send + Sync + 'static;
    type Out: Clone + Eq + Hash + Default + Send + Sync + 'static;
    fn op(args: Self::Args) -> Self::Out;
}

struct Dep1<O, D>(PhantomData<fn() -> (O, D)>);

impl<O, D> Query for Dep1<O, D>
where
    O: Op<Args = D::Out>,
    D: Query,
{
    type Args = D::Args;
    type Out = O::Out;

    fn eval<H: Handler>(snapshot: &mut Snapshot<DefaultStorage, H>, args: &Self::Args) -> Self::Out {
        let d = snapshot.query::<D>(args).unwrap().as_ref().clone();
        O::op(d)
    }
}

#[derive(Clone, Copy, PartialEq, Eq, Hash)]
struct Tuple3<T1, T2, T3>(T1, T2, T3);

struct Dep3<O, D1, D2, D3>(PhantomData<fn() -> (O, D1, D2, D3)>);

impl<O, D1, D2, D3> Query for Dep3<O, D1, D2, D3>
where
    O: Op<Args = Tuple3<D1::Out, D2::Out, D3::Out>>,
    D1: Query,
    D2: Query,
    D3: Query,
{
    type Args = Tuple3<D1::Args, D2::Args, D3::Args>;
    type Out = O::Out;

    fn eval<H: Handler>(snapshot: &mut Snapshot<DefaultStorage, H>, args: &Self::Args) -> Self::Out {
        let Tuple3(a1, a2, a3) = args;
        let d1 = snapshot.query::<D1>(a1).unwrap();
        let d2 = snapshot.query::<D2>(a2).unwrap();
        let d3 = snapshot.query::<D3>(a3).unwrap();
        O::op(Tuple3(d1.as_ref().clone(), d2.as_ref().clone(), d3.as_ref().clone()))
    }
}

struct Add3;

impl Op for Add3 {
    type Args = Tuple3<usize, usize, usize>;
    type Out = usize;

    fn op(args: Self::Args) -> Self::Out {
        let Tuple3(a1, a2, a3) = args;
        0 + a1 + a2 + a3
    }
}

#[derive(Clone, Copy, PartialEq, Eq, Hash)]
struct Tuple6<T1, T2, T3, T4, T5, T6>(T1, T2, T3, T4, T5, T6);

struct Dep6<O, D1, D2, D3, D4, D5, D6>(PhantomData<fn() -> (O, D1, D2, D3, D4, D5, D6)>);

impl<O, D1, D2, D3, D4, D5, D6> Query for Dep6<O, D1, D2, D3, D4, D5, D6>
where
    O: Op<Args = Tuple6<D1::Out, D2::Out, D3::Out, D4::Out, D5::Out, D6::Out>>,
    D1: Query,
    D2: Query,
    D3: Query,
    D4: Query,
    D5: Query,
    D6: Query,
{
    type Args = Tuple6<D1::Args, D2::Args, D3::Args, D4::Args, D5::Args, D6::Args>;
    type Out = O::Out;

    fn eval<H: Handler>(snapshot: &mut Snapshot<DefaultStorage, H>, args: &Self::Args) -> Self::Out {
        let Tuple6(a1, a2, a3, a4, a5, a6) = args;
        let d1 = snapshot.query::<D1>(a1).unwrap();
        let d2 = snapshot.query::<D2>(a2).unwrap();
        let d3 = snapshot.query::<D3>(a3).unwrap();
        let d4 = snapshot.query::<D4>(a4).unwrap();
        let d5 = snapshot.query::<D5>(a5).unwrap();
        let d6 = snapshot.query::<D6>(a6).unwrap();
        O::op(Tuple6(d1.as_ref().clone(), d2.as_ref().clone(), d3.as_ref().clone(), d4.as_ref().clone(), d5.as_ref().clone(), d6.as_ref().clone()))
    }
}

struct Add6;

impl Op for Add6 {
    type Args = Tuple6<usize, usize, usize, usize, usize, usize>;
    type Out = usize;

    fn op(args: Self::Args) -> Self::Out {
        let Tuple6(a1, a2, a3, a4, a5, a6) = args;
        0 + a1 + a2 + a3 + a4 + a5 + a6
    }
}

#[derive(Clone, Copy, PartialEq, Eq, Hash)]
struct Tuple9<T1, T2, T3, T4, T5, T6, T7, T8, T9>(T1, T2, T3, T4, T5, T6, T7, T8, T9);

struct Dep9<O, D1, D2, D3, D4, D5, D6, D7, D8, D9>(PhantomData<fn() -> (O, D1, D2, D3, D4, D5, D6, D7, D8, D9)>);

impl<O, D1, D2, D3, D4, D5, D6, D7, D8, D9> Query for Dep9<O, D1, D2, D3, D4, D5, D6, D7, D8, D9>
where
    O: Op<Args = Tuple9<D1::Out, D2::Out, D3::Out, D4::Out, D5::Out, D6::Out, D7::Out, D8::Out, D9::Out>>,
    D1: Query,
    D2: Query,
    D3: Query,
    D4: Query,
    D5: Query,
    D6: Query,
    D7: Query,
    D8: Query,
    D9: Query,
{
    type Args = Tuple9<D1::Args, D2::Args, D3::Args, D4::Args, D5::Args, D6::Args, D7::Args, D8::Args, D9::Args>;
    type Out = O::Out;

    fn eval<H: Handler>(snapshot: &mut Snapshot<DefaultStorage, H>, args: &Self::Args) -> Self::Out {
        let Tuple9(a1, a2, a3, a4, a5, a6, a7, a8, a9) = args;
        let d1 = snapshot.query::<D1>(a1).unwrap();
        let d2 = snapshot.query::<D2>(a2).unwrap();
        let d3 = snapshot.query::<D3>(a3).unwrap();
        let d4 = snapshot.query::<D4>(a4).unwrap();
        let d5 = snapshot.query::<D5>(a5).unwrap();
        let d6 = snapshot.query::<D6>(a6).unwrap();
        let d7 = snapshot.query::<D7>(a7).unwrap();
        let d8 = snapshot.query::<D8>(a8).unwrap();
        let d9 = snapshot.query::<D9>(a9).unwrap();
        O::op(Tuple9(d1.as_ref().clone(), d2.as_ref().clone(), d3.as_ref().clone(), d4.as_ref().clone(), d5.as_ref().clone(), d6.as_ref().clone(), d7.as_ref().clone(), d8.as_ref().clone(), d9.as_ref().clone()))
    }
}

struct Add9;

impl Op for Add9 {
    type Args = Tuple9<usize, usize, usize, usize, usize, usize, usize, usize, usize>;
    type Out = usize;

    fn op(args: Self::Args) -> Self::Out {
        let Tuple9(a1, a2, a3, a4, a5, a6, a7, a8, a9) = args;
        0 + a1 + a2 + a3 + a4 + a5 + a6 + a7 + a8 + a9
    }
}

#[derive(Clone, Copy, PartialEq, Eq, Hash)]
struct Tuple10<T1, T2, T3, T4, T5, T6, T7, T8, T9, T10>(T1, T2, T3, T4, T5, T6, T7, T8, T9, T10);

struct Dep10<O, D1, D2, D3, D4, D5, D6, D7, D8, D9, D10>(PhantomData<fn() -> (O, D1, D2, D3, D4, D5, D6, D7, D8, D9, D10)>);

impl<O, D1, D2, D3, D4, D5, D6, D7, D8, D9, D10> Query for Dep10<O, D1, D2, D3, D4, D5, D6, D7, D8, D9, D10>
where
    O: Op<Args = Tuple10<D1::Out, D2::Out, D3::Out, D4::Out, D5::Out, D6::Out, D7::Out, D8::Out, D9::Out, D10::Out>>,
    D1: Query,
    D2: Query,
    D3: Query,
    D4: Query,
    D5: Query,
    D6: Query,
    D7: Query,
    D8: Query,
    D9: Query,
    D10: Query,
{
    type Args = Tuple10<D1::Args, D2::Args, D3::Args, D4::Args, D5::Args, D6::Args, D7::Args, D8::Args, D9::Args, D10::Args>;
    type Out = O::Out;

    fn eval<H: Handler>(snapshot: &mut Snapshot<DefaultStorage, H>, args: &Self::Args) -> Self::Out {
        let Tuple10(a1, a2, a3, a4, a5, a6, a7, a8, a9, a10) = args;
        let d1 = snapshot.query::<D1>(a1).unwrap();
        let d2 = snapshot.query::<D2>(a2).unwrap();
        let d3 = snapshot.query::<D3>(a3).unwrap();
        let d4 = snapshot.query::<D4>(a4).unwrap();
        let d5 = snapshot.query::<D5>(a5).unwrap();
        let d6 = snapshot.query::<D6>(a6).unwrap();
        let d7 = snapshot.query::<D7>(a7).unwrap();
        let d8 = snapshot.query::<D8>(a8).unwrap();
        let d9 = snapshot.query::<D9>(a9).unwrap();
        let d10 = snapshot.query::<D10>(a10).unwrap();
        O::op(Tuple10(d1.as_ref().clone(), d2.as_ref().clone(), d3.as_ref().clone(), d4.as_ref().clone(), d5.as_ref().clone(), d6.as_ref().clone(), d7.as_ref().clone(), d8.as_ref().clone(), d9.as_ref().clone(), d10.as_ref().clone()))
    }
}

struct Add10;

impl Op for Add10 {
    type Args = Tuple10<usize, usize, usize, usize, usize, usize, usize, usize, usize, usize>;
    type Out = usize;

    fn op(args: Self::Args) -> Self::Out {
        let Tuple10(a1, a2, a3, a4, a5, a6, a7, a8, a9, a10) = args;
        0 + a1 + a2 + a3 + a4 + a5 + a6 + a7 + a8 + a9 + a10
    }
}

#[derive(Clone, Copy, PartialEq, Eq, Hash)]
struct Tuple27<T1, T2, T3, T4, T5, T6, T7, T8, T9, T10, T11, T12, T13, T14, T15, T16, T17, T18, T19, T20, T21, T22, T23, T24, T25, T26, T27>(T1, T2, T3, T4, T5, T6, T7, T8, T9, T10, T11, T12, T13, T14, T15, T16, T17, T18, T19, T20, T21, T22, T23, T24, T25, T26, T27);

struct Dep27<O, D1, D2, D3, D4, D5, D6, D7, D8, D9, D10, D11, D12, D13, D14, D15, D16, D17, D18, D19, D20, D21, D22, D23, D24, D25, D26, D27>(PhantomData<fn() -> (O, D1, D2, D3, D4, D5, D6, D7, D8, D9, D10, D11, D12, D13, D14, D15, D16, D17, D18, D19, D20, D21, D22, D23, D24, D25, D26, D27)>);

impl<O, D1, D2, D3, D4, D5, D6, D7, D8, D9, D10, D11, D12, D13, D14, D15, D16, D17, D18, D19, D20, D21, D22, D23, D24, D25, D26, D27> Query for Dep27<O, D1, D2, D3, D4, D5, D6, D7, D8, D9, D10, D11, D12, D13, D14, D15, D16, D17, D18, D19, D20, D21, D22, D23, D24, D25, D26, D27>
where
    O: Op<Args = Tuple27<D1::Out, D2::Out, D3::Out, D4::Out, D5::Out, D6::Out, D7::Out, D8::Out, D9::Out, D10::Out, D11::Out, D12::Out, D13::Out, D14::Out, D15::Out, D16::Out, D17::Out, D18::Out, D19::Out, D20::Out, D21::Out, D22::Out, D23::Out, D24::Out, D25::Out, D26::Out, D27::Out>>,
    D1: Query,
    D2: Query,
    D3: Query,
    D4: Query,
    D5: Query,
    D6: Query,
    D7: Query,
    D8: Query,
    D9: Query,
    D10: Query,
    D11: Query,
    D12: Query,
    D13: Query,
    D14: Query,
    D15: Query,
    D16: Query,
    D17: Query,
    D18: Query,
    D19: Query,
    D20: Query,
    D21: Query,
    D22: Query,
    D23: Query,
    D24: Query,
    D25: Query,
    D26: Query,
    D27: Query,
{
    type Args = Tuple27<D1::Args, D2::Args, D3::Args, D4::Args, D5::Args, D6::Args, D7::Args, D8::Args, D9::Args, D10::Args, D11::Args, D12::Args, D13::Args, D14::Args, D15::Args, D16::Args, D17::Args, D18::Args, D19::Args, D20::Args, D21::Args, D22::Args, D23::Args, D24::Args, D25::Args, D26::Args, D27::Args>;
    type Out = O::Out;

    fn eval<H: Handler>(snapshot: &mut Snapshot<DefaultStorage, H>, args: &Self::Args) -> Self::Out {
        let Tuple27(a1, a2, a3, a4, a5, a6, a7, a8, a9, a10, a11, a12, a13, a14, a15, a16, a17, a18, a19, a20, a21, a22, a23, a24, a25, a26, a27) = args;
        let d1 = snapshot.query::<D1>(a1).unwrap();
        let d2 = snapshot.query::<D2>(a2).unwrap();
        let d3 = snapshot.query::<D3>(a3).unwrap();
        let d4 = snapshot.query::<D4>(a4).unwrap();
        let d5 = snapshot.query::<D5>(a5).unwrap();
        let d6 = snapshot.query::<D6>(a6).unwrap();
        let d7 = snapshot.query::<D7>(a7).unwrap();
        let d8 = snapshot.query::<D8>(a8).unwrap();
        let d9 = snapshot.query::<D9>(a9).unwrap();
        let d10 = snapshot.query::<D10>(a10).unwrap();
        let d11 = snapshot.query::<D11>(a11).unwrap();
        let d12 = snapshot.query::<D12>(a12).unwrap();
        let d13 = snapshot.query::<D13>(a13).unwrap();
        let d14 = snapshot.query::<D14>(a14).unwrap();
        let d15 = snapshot.query::<D15>(a15).unwrap();
        let d16 = snapshot.query::<D16>(a16).unwrap();
        let d17 = snapshot.query::<D17>(a17).unwrap();
        let d18 = snapshot.query::<D18>(a18).unwrap();
        let d19 = snapshot.query::<D19>(a19).unwrap();
        let d20 = snapshot.query::<D20>(a20).unwrap();
        let d21 = snapshot.query::<D21>(a21).unwrap();
        let d22 = snapshot.query::<D22>(a22).unwrap();
        let d23 = snapshot.query::<D23>(a23).unwrap();
        let d24 = snapshot.query::<D24>(a24).unwrap();
        let d25 = snapshot.query::<D25>(a25).unwrap();
        let d26 = snapshot.query::<D26>(a26).unwrap();
        let d27 = snapshot.query::<D27>(a27).unwrap();
        O::op(Tuple27(d1.as_ref().clone(), d2.as_ref().clone(), d3.as_ref().clone(), d4.as_ref().clone(), d5.as_ref().clone(), d6.as_ref().clone(), d7.as_ref().clone(), d8.as_ref().clone(), d9.as_ref().clone(), d10.as_ref().clone(), d11.as_ref().clone(), d12.as_ref().clone(), d13.as_ref().clone(), d14.as_ref().clone(), d15.as_ref().clone(), d16.as_ref().clone(), d17.as_ref().clone(), d18.as_ref().clone(), d19.as_ref().clone(), d20.as_ref().clone(), d21.as_ref().clone(), d22.as_ref().clone(), d23.as_ref().clone(), d24.as_ref().clone(), d25.as_ref().clone(), d26.as_ref().clone(), d27.as_ref().clone()))
    }
}

struct Add27;

impl Op for Add27 {
    type Args = Tuple27<usize, usize, usize, usize, usize, usize, usize, usize, usize, usize, usize, usize, usize, usize, usize, usize, usize, usize, usize, usize, usize, usize, usize, usize, usize, usize, usize>;
    type Out = usize;

    fn op(args: Self::Args) -> Self::Out {
        let Tuple27(a1, a2, a3, a4, a5, a6, a7, a8, a9, a10, a11, a12, a13, a14, a15, a16, a17, a18, a19, a20, a21, a22, a23, a24, a25, a26, a27) = args;
        0 + a1 + a2 + a3 + a4 + a5 + a6 + a7 + a8 + a9 + a10 + a11 + a12 + a13 + a14 + a15 + a16 + a17 + a18 + a19 + a20 + a21 + a22 + a23 + a24 + a25 + a26 + a27
    }
}

#[derive(Clone, Copy, PartialEq, Eq, Hash)]
struct Tuple30<T1, T2, T3, T4, T5, T6, T7, T8, T9, T10, T11, T12, T13, T14, T15, T16, T17, T18, T19, T20, T21, T22, T23, T24, T25, T26, T27, T28, T29, T30>(T1, T2, T3, T4, T5, T6, T7, T8, T9, T10, T11, T12, T13, T14, T15, T16, T17, T18, T19, T20, T21, T22, T23, T24, T25, T26, T27, T28, T29, T30);

struct Dep30<O, D1, D2, D3, D4, D5, D6, D7, D8, D9, D10, D11, D12, D13, D14, D15, D16, D17, D18, D19, D20, D21, D22, D23, D24, D25, D26, D27, D28, D29, D30>(PhantomData<fn() -> (O, D1, D2, D3, D4, D5, D6, D7, D8, D9, D10, D11, D12, D13, D14, D15, D16, D17, D18, D19, D20, D21, D22, D23, D24, D25, D26, D27, D28, D29, D30)>);

impl<O, D1, D2, D3, D4, D5, D6, D7, D8, D9, D10, D11, D12, D13, D14, D15, D16, D17, D18, D19, D20, D21, D22, D23, D24, D25, D26, D27, D28, D29, D30> Query for Dep30<O, D1, D2, D3, D4, D5, D6, D7, D8, D9, D10, D11, D12, D13, D14, D15, D16, D17, D18, D19, D20, D21, D22, D23, D24, D25, D26, D27, D28, D29, D30>
where
    O: Op<Args = Tuple30<D1::Out, D2::Out, D3::Out, D4::Out, D5::Out, D6::Out, D7::Out, D8::Out, D9::Out, D10::Out, D11::Out, D12::Out, D13::Out, D14::Out, D15::Out, D16::Out, D17::Out, D18::Out, D19::Out, D20::Out, D21::Out, D22::Out, D23::Out, D24::Out, D25::Out, D26::Out, D27::Out, D28::Out, D29::Out, D30::Out>>,
    D1: Query,
    D2: Query,
    D3: Query,
    D4: Query,
    D5: Query,
    D6: Query,
    D7: Query,
    D8: Query,
    D9: Query,
    D10: Query,
    D11: Query,
    D12: Query,
    D13: Query,
    D14: Query,
    D15: Query,
    D16: Query,
    D17: Query,
    D18: Query,
    D19: Query,
    D20: Query,
    D21: Query,
    D22: Query,
    D23: Query,
    D24: Query,
    D25: Query,
    D26: Query,
    D27: Query,
    D28: Query,
    D29: Query,
    D30: Query,
{
    type Args = Tuple30<D1::Args, D2::Args, D3::Args, D4::Args, D5::Args, D6::Args, D7::Args, D8::Args, D9::Args, D10::Args, D11::Args, D12::Args, D13::Args, D14::Args, D15::Args, D16::Args, D17::Args, D18::Args, D19::Args, D20::Args, D21::Args, D22::Args, D23::Args, D24::Args, D25::Args, D26::Args, D27::Args, D28::Args, D29::Args, D30::Args>;
    type Out = O::Out;

    fn eval<H: Handler>(snapshot: &mut Snapshot<DefaultStorage, H>, args: &Self::Args) -> Self::Out {
        let Tuple30(a1, a2, a3, a4, a5, a6, a7, a8, a9, a10, a11, a12, a13, a14, a15, a16, a17, a18, a19, a20, a21, a22, a23, a24, a25, a26, a27, a28, a29, a30) = args;
        let d1 = snapshot.query::<D1>(a1).unwrap();
        let d2 = snapshot.query::<D2>(a2).unwrap();
        let d3 = snapshot.query::<D3>(a3).unwrap();
        let d4 = snapshot.query::<D4>(a4).unwrap();
        let d5 = snapshot.query::<D5>(a5).unwrap();
        let d6 = snapshot.query::<D6>(a6).unwrap();
        let d7 = snapshot.query::<D7>(a7).unwrap();
        let d8 = snapshot.query::<D8>(a8).unwrap();
        let d9 = snapshot.query::<D9>(a9).unwrap();
        let d10 = snapshot.query::<D10>(a10).unwrap();
        let d11 = snapshot.query::<D11>(a11).unwrap();
        let d12 = snapshot.query::<D12>(a12).unwrap();
        let d13 = snapshot.query::<D13>(a13).unwrap();
        let d14 = snapshot.query::<D14>(a14).unwrap();
        let d15 = snapshot.query::<D15>(a15).unwrap();
        let d16 = snapshot.query::<D16>(a16).unwrap();
        let d17 = snapshot.query::<D17>(a17).unwrap();
        let d18 = snapshot.query::<D18>(a18).unwrap();
        let d19 = snapshot.query::<D19>(a19).unwrap();
        let d20 = snapshot.query::<D20>(a20).unwrap();
        let d21 = snapshot.query::<D21>(a21).unwrap();
        let d22 = snapshot.query::<D22>(a22).unwrap();
        let d23 = snapshot.query::<D23>(a23).unwrap();
        let d24 = snapshot.query::<D24>(a24).unwrap();
        let d25 = snapshot.query::<D25>(a25).unwrap();
        let d26 = snapshot.query::<D26>(a26).unwrap();
        let d27 = snapshot.query::<D27>(a27).unwrap();
        let d28 = snapshot.query::<D28>(a28).unwrap();
        let d29 = snapshot.query::<D29>(a29).unwrap();
        let d30 = snapshot.query::<D30>(a30).unwrap();
        O::op(Tuple30(d1.as_ref().clone(), d2.as_ref().clone(), d3.as_ref().clone(), d4.as_ref().clone(), d5.as_ref().clone(), d6.as_ref().clone(), d7.as_ref().clone(), d8.as_ref().clone(), d9.as_ref().clone(), d10.as_ref().clone(), d11.as_ref().clone(), d12.as_ref().clone(), d13.as_ref().clone(), d14.as_ref().clone(), d15.as_ref().clone(), d16.as_ref().clone(), d17.as_ref().clone(), d18.as_ref().clone(), d19.as_ref().clone(), d20.as_ref().clone(), d21.as_ref().clone(), d22.as_ref().clone(), d23.as_ref().clone(), d24.as_ref().clone(), d25.as_ref().clone(), d26.as_ref().clone(), d27.as_ref().clone(), d28.as_ref().clone(), d29.as_ref().clone(), d30.as_ref().clone()))
    }
}

struct Add30;

impl Op for Add30 {
    type Args = Tuple30<usize, usize, usize, usize, usize, usize, usize, usize, usize, usize, usize, usize, usize, usize, usize, usize, usize, usize, usize, usize, usize, usize, usize, usize, usize, usize, usize, usize, usize, usize>;
    type Out = usize;

    fn op(args: Self::Args) -> Self::Out {
        let Tuple30(a1, a2, a3, a4, a5, a6, a7, a8, a9, a10, a11, a12, a13, a14, a15, a16, a17, a18, a19, a20, a21, a22, a23, a24, a25, a26, a27, a28, a29, a30) = args;
        0 + a1 + a2 + a3 + a4 + a5 + a6 + a7 + a8 + a9 + a10 + a11 + a12 + a13 + a14 + a15 + a16 + a17 + a18 + a19 + a20 + a21 + a22 + a23 + a24 + a25 + a26 + a27 + a28 + a29 + a30
    }
}

#[derive(Clone, Copy, PartialEq, Eq, Hash)]
struct Tuple100<T1, T2, T3, T4, T5, T6, T7, T8, T9, T10, T11, T12, T13, T14, T15, T16, T17, T18, T19, T20, T21, T22, T23, T24, T25, T26, T27, T28, T29, T30, T31, T32, T33, T34, T35, T36, T37, T38, T39, T40, T41, T42, T43, T44, T45, T46, T47, T48, T49, T50, T51, T52, T53, T54, T55, T56, T57, T58, T59, T60, T61, T62, T63, T64, T65, T66, T67, T68, T69, T70, T71, T72, T73, T74, T75, T76, T77, T78, T79, T80, T81, T82, T83, T84, T85, T86, T87, T88, T89, T90, T91, T92, T93, T94, T95, T96, T97, T98, T99, T100>(T1, T2, T3, T4, T5, T6, T7, T8, T9, T10, T11, T12, T13, T14, T15, T16, T17, T18, T19, T20, T21, T22, T23, T24, T25, T26, T27, T28, T29, T30, T31, T32, T33, T34, T35, T36, T37, T38, T39, T40, T41, T42, T43, T44, T45, T46, T47, T48, T49, T50, T51, T52, T53, T54, T55, T56, T57, T58, T59, T60, T61, T62, T63, T64, T65, T66, T67, T68, T69, T70, T71, T72, T73, T74, T75, T76, T77, T78, T79, T80, T81, T82, T83, T84, T85, T86, T87, T88, T89, T90, T91, T92, T93, T94, T95, T96, T97, T98, T99, T100);

struct Dep100<O, D1, D2, D3, D4, D5, D6, D7, D8, D9, D10, D11, D12, D13, D14, D15, D16, D17, D18, D19, D20, D21, D22, D23, D24, D25, D26, D27, D28, D29, D30, D31, D32, D33, D34, D35, D36, D37, D38, D39, D40, D41, D42, D43, D44, D45, D46, D47, D48, D49, D50, D51, D52, D53, D54, D55, D56, D57, D58, D59, D60, D61, D62, D63, D64, D65, D66, D67, D68, D69, D70, D71, D72, D73, D74, D75, D76, D77, D78, D79, D80, D81, D82, D83, D84, D85, D86, D87, D88, D89, D90, D91, D92, D93, D94, D95, D96, D97, D98, D99, D100>(PhantomData<fn() -> (O, D1, D2, D3, D4, D5, D6, D7, D8, D9, D10, D11, D12, D13, D14, D15, D16, D17, D18, D19, D20, D21, D22, D23, D24, D25, D26, D27, D28, D29, D30, D31, D32, D33, D34, D35, D36, D37, D38, D39, D40, D41, D42, D43, D44, D45, D46, D47, D48, D49, D50, D51, D52, D53, D54, D55, D56, D57, D58, D59, D60, D61, D62, D63, D64, D65, D66, D67, D68, D69, D70, D71, D72, D73, D74, D75, D76, D77, D78, D79, D80, D81, D82, D83, D84, D85, D86, D87, D88, D89, D90, D91, D92, D93, D94, D95, D96, D97, D98, D99, D100)>);

impl<O, D1, D2, D3, D4, D5, D6, D7, D8, D9, D10, D11, D12, D13, D14, D15, D16, D17, D18, D19, D20, D21, D22, D23, D24, D25, D26, D27, D28, D29, D30, D31, D32, D33, D34, D35, D36, D37, D38, D39, D40, D41, D42, D43, D44, D45, D46, D47, D48, D49, D50, D51, D52, D53, D54, D55, D56, D57, D58, D59, D60, D61, D62, D63, D64, D65, D66, D67, D68, D69, D70, D71, D72, D73, D74, D75, D76, D77, D78, D79, D80, D81, D82, D83, D84, D85, D86, D87, D88, D89, D90, D91, D92, D93, D94, D95, D96, D97, D98, D99, D100> Query for Dep100<O, D1, D2, D3, D4, D5, D6, D7, D8, D9, D10, D11, D12, D13, D14, D15, D16, D17, D18, D19, D20, D21, D22, D23, D24, D25, D26, D27, D28, D29, D30, D31, D32, D33, D34, D35, D36, D37, D38, D39, D40, D41, D42, D43, D44, D45, D46, D47, D48, D49, D50, D51, D52, D53, D54, D55, D56, D57, D58, D59, D60, D61, D62, D63, D64, D65, D66, D67, D68, D69, D70, D71, D72, D73, D74, D75, D76, D77, D78, D79, D80, D81, D82, D83, D84, D85, D86, D87, D88, D89, D90, D91, D92, D93, D94, D95, D96, D97, D98, D99, D100>
where
    O: Op<Args = Tuple100<D1::Out, D2::Out, D3::Out, D4::Out, D5::Out, D6::Out, D7::Out, D8::Out, D9::Out, D10::Out, D11::Out, D12::Out, D13::Out, D14::Out, D15::Out, D16::Out, D17::Out, D18::Out, D19::Out, D20::Out, D21::Out, D22::Out, D23::Out, D24::Out, D25::Out, D26::Out, D27::Out, D28::Out, D29::Out, D30::Out, D31::Out, D32::Out, D33::Out, D34::Out, D35::Out, D36::Out, D37::Out, D38::Out, D39::Out, D40::Out, D41::Out, D42::Out, D43::Out, D44::Out, D45::Out, D46::Out, D47::Out, D48::Out, D49::Out, D50::Out, D51::Out, D52::Out, D53::Out, D54::Out, D55::Out, D56::Out, D57::Out, D58::Out, D59::Out, D60::Out, D61::Out, D62::Out, D63::Out, D64::Out, D65::Out, D66::Out, D67::Out, D68::Out, D69::Out, D70::Out, D71::Out, D72::Out, D73::Out, D74::Out, D75::Out, D76::Out, D77::Out, D78::Out, D79::Out, D80::Out, D81::Out, D82::Out, D83::Out, D84::Out, D85::Out, D86::Out, D87::Out, D88::Out, D89::Out, D90::Out, D91::Out, D92::Out, D93::Out, D94::Out, D95::Out, D96::Out, D97::Out, D98::Out, D99::Out, D100::Out>>,
    D1: Query,
    D2: Query,
    D3: Query,
    D4: Query,
    D5: Query,
    D6: Query,
    D7: Query,
    D8: Query,
    D9: Query,
    D10: Query,
    D11: Query,
    D12: Query,
    D13: Query,
    D14: Query,
    D15: Query,
    D16: Query,
    D17: Query,
    D18: Query,
    D19: Query,
    D20: Query,
    D21: Query,
    D22: Query,
    D23: Query,
    D24: Query,
    D25: Query,
    D26: Query,
    D27: Query,
    D28: Query,
    D29: Query,
    D30: Query,
    D31: Query,
    D32: Query,
    D33: Query,
    D34: Query,
    D35: Query,
    D36: Query,
    D37: Query,
    D38: Query,
    D39: Query,
    D40: Query,
    D41: Query,
    D42: Query,
    D43: Query,
    D44: Query,
    D45: Query,
    D46: Query,
    D47: Query,
    D48: Query,
    D49: Query,
    D50: Query,
    D51: Query,
    D52: Query,
    D53: Query,
    D54: Query,
    D55: Query,
    D56: Query,
    D57: Query,
    D58: Query,
    D59: Query,
    D60: Query,
    D61: Query,
    D62: Query,
    D63: Query,
    D64: Query,
    D65: Query,
    D66: Query,
    D67: Query,
    D68: Query,
    D69: Query,
    D70: Query,
    D71: Query,
    D72: Query,
    D73: Query,
    D74: Query,
    D75: Query,
    D76: Query,
    D77: Query,
    D78: Query,
    D79: Query,
    D80: Query,
    D81: Query,
    D82: Query,
    D83: Query,
    D84: Query,
    D85: Query,
    D86: Query,
    D87: Query,
    D88: Query,
    D89: Query,
    D90: Query,
    D91: Query,
    D92: Query,
    D93: Query,
    D94: Query,
    D95: Query,
    D96: Query,
    D97: Query,
    D98: Query,
    D99: Query,
    D100: Query,
{
    type Args = Tuple100<D1::Args, D2::Args, D3::Args, D4::Args, D5::Args, D6::Args, D7::Args, D8::Args, D9::Args, D10::Args, D11::Args, D12::Args, D13::Args, D14::Args, D15::Args, D16::Args, D17::Args, D18::Args, D19::Args, D20::Args, D21::Args, D22::Args, D23::Args, D24::Args, D25::Args, D26::Args, D27::Args, D28::Args, D29::Args, D30::Args, D31::Args, D32::Args, D33::Args, D34::Args, D35::Args, D36::Args, D37::Args, D38::Args, D39::Args, D40::Args, D41::Args, D42::Args, D43::Args, D44::Args, D45::Args, D46::Args, D47::Args, D48::Args, D49::Args, D50::Args, D51::Args, D52::Args, D53::Args, D54::Args, D55::Args, D56::Args, D57::Args, D58::Args, D59::Args, D60::Args, D61::Args, D62::Args, D63::Args, D64::Args, D65::Args, D66::Args, D67::Args, D68::Args, D69::Args, D70::Args, D71::Args, D72::Args, D73::Args, D74::Args, D75::Args, D76::Args, D77::Args, D78::Args, D79::Args, D80::Args, D81::Args, D82::Args, D83::Args, D84::Args, D85::Args, D86::Args, D87::Args, D88::Args, D89::Args, D90::Args, D91::Args, D92::Args, D93::Args, D94::Args, D95::Args, D96::Args, D97::Args, D98::Args, D99::Args, D100::Args>;
    type Out = O::Out;

    fn eval<H: Handler>(snapshot: &mut Snapshot<DefaultStorage, H>, args: &Self::Args) -> Self::Out {
        let Tuple100(a1, a2, a3, a4, a5, a6, a7, a8, a9, a10, a11, a12, a13, a14, a15, a16, a17, a18, a19, a20, a21, a22, a23, a24, a25, a26, a27, a28, a29, a30, a31, a32, a33, a34, a35, a36, a37, a38, a39, a40, a41, a42, a43, a44, a45, a46, a47, a48, a49, a50, a51, a52, a53, a54, a55, a56, a57, a58, a59, a60, a61, a62, a63, a64, a65, a66, a67, a68, a69, a70, a71, a72, a73, a74, a75, a76, a77, a78, a79, a80, a81, a82, a83, a84, a85, a86, a87, a88, a89, a90, a91, a92, a93, a94, a95, a96, a97, a98, a99, a100) = args;
        let d1 = snapshot.query::<D1>(a1).unwrap();
        let d2 = snapshot.query::<D2>(a2).unwrap();
        let d3 = snapshot.query::<D3>(a3).unwrap();
        let d4 = snapshot.query::<D4>(a4).unwrap();
        let d5 = snapshot.query::<D5>(a5).unwrap();
        let d6 = snapshot.query::<D6>(a6).unwrap();
        let d7 = snapshot.query::<D7>(a7).unwrap();
        let d8 = snapshot.query::<D8>(a8).unwrap();
        let d9 = snapshot.query::<D9>(a9).unwrap();
        let d10 = snapshot.query::<D10>(a10).unwrap();
        let d11 = snapshot.query::<D11>(a11).unwrap();
        let d12 = snapshot.query::<D12>(a12).unwrap();
        let d13 = snapshot.query::<D13>(a13).unwrap();
        let d14 = snapshot.query::<D14>(a14).unwrap();
        let d15 = snapshot.query::<D15>(a15).unwrap();
        let d16 = snapshot.query::<D16>(a16).unwrap();
        let d17 = snapshot.query::<D17>(a17).unwrap();
        let d18 = snapshot.query::<D18>(a18).unwrap();
        let d19 = snapshot.query::<D19>(a19).unwrap();
        let d20 = snapshot.query::<D20>(a20).unwrap();
        let d21 = snapshot.query::<D21>(a21).unwrap();
        let d22 = snapshot.query::<D22>(a22).unwrap();
        let d23 = snapshot.query::<D23>(a23).unwrap();
        let d24 = snapshot.query::<D24>(a24).unwrap();
        let d25 = snapshot.query::<D25>(a25).unwrap();
        let d26 = snapshot.query::<D26>(a26).unwrap();
        let d27 = snapshot.query::<D27>(a27).unwrap();
        let d28 = snapshot.query::<D28>(a28).unwrap();
        let d29 = snapshot.query::<D29>(a29).unwrap();
        let d30 = snapshot.query::<D30>(a30).unwrap();
        let d31 = snapshot.query::<D31>(a31).unwrap();
        let d32 = snapshot.query::<D32>(a32).unwrap();
        let d33 = snapshot.query::<D33>(a33).unwrap();
        let d34 = snapshot.query::<D34>(a34).unwrap();
        let d35 = snapshot.query::<D35>(a35).unwrap();
        let d36 = snapshot.query::<D36>(a36).unwrap();
        let d37 = snapshot.query::<D37>(a37).unwrap();
        let d38 = snapshot.query::<D38>(a38).unwrap();
        let d39 = snapshot.query::<D39>(a39).unwrap();
        let d40 = snapshot.query::<D40>(a40).unwrap();
        let d41 = snapshot.query::<D41>(a41).unwrap();
        let d42 = snapshot.query::<D42>(a42).unwrap();
        let d43 = snapshot.query::<D43>(a43).unwrap();
        let d44 = snapshot.query::<D44>(a44).unwrap();
        let d45 = snapshot.query::<D45>(a45).unwrap();
        let d46 = snapshot.query::<D46>(a46).unwrap();
        let d47 = snapshot.query::<D47>(a47).unwrap();
        let d48 = snapshot.query::<D48>(a48).unwrap();
        let d49 = snapshot.query::<D49>(a49).unwrap();
        let d50 = snapshot.query::<D50>(a50).unwrap();
        let d51 = snapshot.query::<D51>(a51).unwrap();
        let d52 = snapshot.query::<D52>(a52).unwrap();
        let d53 = snapshot.query::<D53>(a53).unwrap();
        let d54 = snapshot.query::<D54>(a54).unwrap();
        let d55 = snapshot.query::<D55>(a55).unwrap();
        let d56 = snapshot.query::<D56>(a56).unwrap();
        let d57 = snapshot.query::<D57>(a57).unwrap();
        let d58 = snapshot.query::<D58>(a58).unwrap();
        let d59 = snapshot.query::<D59>(a59).unwrap();
        let d60 = snapshot.query::<D60>(a60).unwrap();
        let d61 = snapshot.query::<D61>(a61).unwrap();
        let d62 = snapshot.query::<D62>(a62).unwrap();
        let d63 = snapshot.query::<D63>(a63).unwrap();
        let d64 = snapshot.query::<D64>(a64).unwrap();
        let d65 = snapshot.query::<D65>(a65).unwrap();
        let d66 = snapshot.query::<D66>(a66).unwrap();
        let d67 = snapshot.query::<D67>(a67).unwrap();
        let d68 = snapshot.query::<D68>(a68).unwrap();
        let d69 = snapshot.query::<D69>(a69).unwrap();
        let d70 = snapshot.query::<D70>(a70).unwrap();
        let d71 = snapshot.query::<D71>(a71).unwrap();
        let d72 = snapshot.query::<D72>(a72).unwrap();
        let d73 = snapshot.query::<D73>(a73).unwrap();
        let d74 = snapshot.query::<D74>(a74).unwrap();
        let d75 = snapshot.query::<D75>(a75).unwrap();
        let d76 = snapshot.query::<D76>(a76).unwrap();
        let d77 = snapshot.query::<D77>(a77).unwrap();
        let d78 = snapshot.query::<D78>(a78).unwrap();
        let d79 = snapshot.query::<D79>(a79).unwrap();
        let d80 = snapshot.query::<D80>(a80).unwrap();
        let d81 = snapshot.query::<D81>(a81).unwrap();
        let d82 = snapshot.query::<D82>(a82).unwrap();
        let d83 = snapshot.query::<D83>(a83).unwrap();
        let d84 = snapshot.query::<D84>(a84).unwrap();
        let d85 = snapshot.query::<D85>(a85).unwrap();
        let d86 = snapshot.query::<D86>(a86).unwrap();
        let d87 = snapshot.query::<D87>(a87).unwrap();
        let d88 = snapshot.query::<D88>(a88).unwrap();
        let d89 = snapshot.query::<D89>(a89).unwrap();
        let d90 = snapshot.query::<D90>(a90).unwrap();
        let d91 = snapshot.query::<D91>(a91).unwrap();
        let d92 = snapshot.query::<D92>(a92).unwrap();
        let d93 = snapshot.query::<D93>(a93).unwrap();
        let d94 = snapshot.query::<D94>(a94).unwrap();
        let d95 = snapshot.query::<D95>(a95).unwrap();
        let d96 = snapshot.query::<D96>(a96).unwrap();
        let d97 = snapshot.query::<D97>(a97).unwrap();
        let d98 = snapshot.query::<D98>(a98).unwrap();
        let d99 = snapshot.query::<D99>(a99).unwrap();
        let d100 = snapshot.query::<D100>(a100).unwrap();
        O::op(Tuple100(d1.as_ref().clone(), d2.as_ref().clone(), d3.as_ref().clone(), d4.as_ref().clone(), d5.as_ref().clone(), d6.as_ref().clone(), d7.as_ref().clone(), d8.as_ref().clone(), d9.as_ref().clone(), d10.as_ref().clone(), d11.as_ref().clone(), d12.as_ref().clone(), d13.as_ref().clone(), d14.as_ref().clone(), d15.as_ref().clone(), d16.as_ref().clone(), d17.as_ref().clone(), d18.as_ref().clone(), d19.as_ref().clone(), d20.as_ref().clone(), d21.as_ref().clone(), d22.as_ref().clone(), d23.as_ref().clone(), d24.as_ref().clone(), d25.as_ref().clone(), d26.as_ref().clone(), d27.as_ref().clone(), d28.as_ref().clone(), d29.as_ref().clone(), d30.as_ref().clone(), d31.as_ref().clone(), d32.as_ref().clone(), d33.as_ref().clone(), d34.as_ref().clone(), d35.as_ref().clone(), d36.as_ref().clone(), d37.as_ref().clone(), d38.as_ref().clone(), d39.as_ref().clone(), d40.as_ref().clone(), d41.as_ref().clone(), d42.as_ref().clone(), d43.as_ref().clone(), d44.as_ref().clone(), d45.as_ref().clone(), d46.as_ref().clone(), d47.as_ref().clone(), d48.as_ref().clone(), d49.as_ref().clone(), d50.as_ref().clone(), d51.as_ref().clone(), d52.as_ref().clone(), d53.as_ref().clone(), d54.as_ref().clone(), d55.as_ref().clone(), d56.as_ref().clone(), d57.as_ref().clone(), d58.as_ref().clone(), d59.as_ref().clone(), d60.as_ref().clone(), d61.as_ref().clone(), d62.as_ref().clone(), d63.as_ref().clone(), d64.as_ref().clone(), d65.as_ref().clone(), d66.as_ref().clone(), d67.as_ref().clone(), d68.as_ref().clone(), d69.as_ref().clone(), d70.as_ref().clone(), d71.as_ref().clone(), d72.as_ref().clone(), d73.as_ref().clone(), d74.as_ref().clone(), d75.as_ref().clone(), d76.as_ref().clone(), d77.as_ref().clone(), d78.as_ref().clone(), d79.as_ref().clone(), d80.as_ref().clone(), d81.as_ref().clone(), d82.as_ref().clone(), d83.as_ref().clone(), d84.as_ref().clone(), d85.as_ref().clone(), d86.as_ref().clone(), d87.as_ref().clone(), d88.as_ref().clone(), d89.as_ref().clone(), d90.as_ref().clone(), d91.as_ref().clone(), d92.as_ref().clone(), d93.as_ref().clone(), d94.as_ref().clone(), d95.as_ref().clone(), d96.as_ref().clone(), d97.as_ref().clone(), d98.as_ref().clone(), d99.as_ref().clone(), d100.as_ref().clone()))
    }
}

struct Add100;

impl Op for Add100 {
    type Args = Tuple100<usize, usize, usize, usize, usize, usize, usize, usize, usize, usize, usize, usize, usize, usize, usize, usize, usize, usize, usize, usize, usize, usize, usize, usize, usize, usize, usize, usize, usize, usize, usize, usize, usize, usize, usize, usize, usize, usize, usize, usize, usize, usize, usize, usize, usize, usize, usize, usize, usize, usize, usize, usize, usize, usize, usize, usize, usize, usize, usize, usize, usize, usize, usize, usize, usize, usize, usize, usize, usize, usize, usize, usize, usize, usize, usize, usize, usize, usize, usize, usize, usize, usize, usize, usize, usize, usize, usize, usize, usize, usize, usize, usize, usize, usize, usize, usize, usize, usize, usize, usize>;
    type Out = usize;

    fn op(args: Self::Args) -> Self::Out {
        let Tuple100(a1, a2, a3, a4, a5, a6, a7, a8, a9, a10, a11, a12, a13, a14, a15, a16, a17, a18, a19, a20, a21, a22, a23, a24, a25, a26, a27, a28, a29, a30, a31, a32, a33, a34, a35, a36, a37, a38, a39, a40, a41, a42, a43, a44, a45, a46, a47, a48, a49, a50, a51, a52, a53, a54, a55, a56, a57, a58, a59, a60, a61, a62, a63, a64, a65, a66, a67, a68, a69, a70, a71, a72, a73, a74, a75, a76, a77, a78, a79, a80, a81, a82, a83, a84, a85, a86, a87, a88, a89, a90, a91, a92, a93, a94, a95, a96, a97, a98, a99, a100) = args;
        0 + a1 + a2 + a3 + a4 + a5 + a6 + a7 + a8 + a9 + a10 + a11 + a12 + a13 + a14 + a15 + a16 + a17 + a18 + a19 + a20 + a21 + a22 + a23 + a24 + a25 + a26 + a27 + a28 + a29 + a30 + a31 + a32 + a33 + a34 + a35 + a36 + a37 + a38 + a39 + a40 + a41 + a42 + a43 + a44 + a45 + a46 + a47 + a48 + a49 + a50 + a51 + a52 + a53 + a54 + a55 + a56 + a57 + a58 + a59 + a60 + a61 + a62 + a63 + a64 + a65 + a66 + a67 + a68 + a69 + a70 + a71 + a72 + a73 + a74 + a75 + a76 + a77 + a78 + a79 + a80 + a81 + a82 + a83 + a84 + a85 + a86 + a87 + a88 + a89 + a90 + a91 + a92 + a93 + a94 + a95 + a96 + a97 + a98 + a99 + a100
    }
}

/// Adds one; `K` tells the increments apart, so that each is a query type of its own.
struct IncV<const K: usize>;

impl<const K: usize> Op for IncV<K> {
    type Args = usize;
    type Out = usize;

    fn op(args: Self::Args) -> Self::Out {
        args + 1
    }
}

type Inc1 = IncV<1>;
type Inc1V2 = IncV<2>;
type Inc1V3 = IncV<3>;
type Inc1V4 = IncV<4>;
type Inc1V5 = IncV<5>;
type Inc1V6 = IncV<6>;
type Inc1V7 = IncV<7>;
type Inc1V8 = IncV<8>;
type Inc1V9 = IncV<9>;
type Inc1V10 = IncV<10>;
type Inc1V11 = IncV<11>;
type Inc1V12 = IncV<12>;
type Inc1V13 = IncV<13>;
type Inc1V14 = IncV<14>;
type Inc1V15 = IncV<15>;
type Inc1V16 = IncV<16>;
type Inc1V17 = IncV<17>;
type Inc1V18 = IncV<18>;
type Inc1V19 = IncV<19>;
type Inc1V20 = IncV<20>;
type Inc1V21 = IncV<21>;
type Inc1V22 = IncV<22>;
type Inc1V23 = IncV<23>;
type Inc1V24 = IncV<24>;
type Inc1V25 = IncV<25>;
type Inc1V26 = IncV<26>;
type Inc1V27 = IncV<27>;
type Inc1V28 = IncV<28>;
type Inc1V29 = IncV<29>;
type Inc1V30 = IncV<30>;
type Inc1V31 = IncV<31>;
type Inc1V32 = IncV<32>;
type Inc1V33 = IncV<33>;
type Inc1V34 = IncV<34>;
type Inc1V35 = IncV<35>;
type Inc1V36 = IncV<36>;
type Inc1V37 = IncV<37>;
type Inc1V38 = IncV<38>;
type Inc1V39 = IncV<39>;
type Inc1V40 = IncV<40>;
type Inc1V41 = IncV<41>;
type Inc1V42 = IncV<42>;
type Inc1V43 = IncV<43>;
type Inc1V44 = IncV<44>;
type Inc1V45 = IncV<45>;
type Inc1V46 = IncV<46>;
type Inc1V47 = IncV<47>;
type Inc1V48 = IncV<48>;
type Inc1V49 = IncV<49>;
type Inc1V50 = IncV<50>;
type Inc1V51 = IncV<51>;
type Inc1V52 = IncV<52>;
type Inc1V53 = IncV<53>;
type Inc1V54 = IncV<54>;
type Inc1V55 = IncV<55>;
type Inc1V56 = IncV<56>;
type Inc1V57 = IncV<57>;
type Inc1V58 = IncV<58>;
type Inc1V59 = IncV<59>;
type Inc1V60 = IncV<60>;
type Inc1V61 = IncV<61>;
type Inc1V62 = IncV<62>;
type Inc1V63 = IncV<63>;
type Inc1V64 = IncV<64>;
type Inc1V65 = IncV<65>;
type Inc1V66 = IncV<66>;
type Inc1V67 = IncV<67>;
type Inc1V68 = IncV<68>;
type Inc1V69 = IncV<69>;
type Inc1V70 = IncV<70>;
type Inc1V71 = IncV<71>;
type Inc1V72 = IncV<72>;
type Inc1V73 = IncV<73>;
type Inc1V74 = IncV<74>;
type Inc1V75 = IncV<75>;
type Inc1V76 = IncV<76>;
type Inc1V77 = IncV<77>;
type Inc1V78 = IncV<78>;
type Inc1V79 = IncV<79>;
type Inc1V80 = IncV<80>;
type Inc1V81 = IncV<81>;
type Inc1V82 = IncV<82>;
type Inc1V83 = IncV<83>;
type Inc1V84 = IncV<84>;
type Inc1V85 = IncV<85>;
type Inc1V86 = IncV<86>;
type Inc1V87 = IncV<87>;
type Inc1V88 = IncV<88>;
type Inc1V89 = IncV<89>;
type Inc1V90 = IncV<90>;
type Inc1V91 = IncV<91>;
type Inc1V92 = IncV<92>;
type Inc1V93 = IncV<93>;
type Inc1V94 = IncV<94>;
type Inc1V95 = IncV<95>;
type Inc1V96 = IncV<96>;
type Inc1V97 = IncV<97>;
type Inc1V98 = IncV<98>;
type Inc1V99 = IncV<99>;
type Inc1V100 = IncV<100>;

struct Inp;

impl Input for Inp {
    type Value = usize;
}

struct Inp2;

impl Input for Inp2 {
    type Value = usize;
}

struct Inp3;

impl Input for Inp3 {
    type Value = usize;
}

struct Inp4;

impl Input for Inp4 {
    type Value = usize;
}

struct Inp5;

impl Input for Inp5 {
    type Value = usize;
}

struct Inp6;

impl Input for Inp6 {
    type Value = usize;
}

struct Inp7;

impl Input for Inp7 {
    type Value = usize;
}

struct Inp8;

impl Input for Inp8 {
    type Value = usize;
}

struct Inp9;

impl Input for Inp9 {
    type Value = usize;
}

type Sink3<D1, D2, D3> = Dep3<Add3, D1, D2, D3>;

type Sink6<D1, D2, D3, D4, D5, D6> = Dep6<Add6, D1, D2, D3, D4, D5, D6>;

type Sink9<D1, D2, D3, D4, D5, D6, D7, D8, D9> = Dep9<Add9, D1, D2, D3, D4, D5, D6, D7, D8, D9>;

type Sink10<D1, D2, D3, D4, D5, D6, D7, D8, D9, D10> = Dep10<Add10, D1, D2, D3, D4, D5, D6, D7, D8, D9, D10>;

type Sink27<D1, D2, D3, D4, D5, D6, D7, D8, D9, D10, D11, D12, D13, D14, D15, D16, D17, D18, D19, D20, D21, D22, D23, D24, D25, D26, D27> = Dep27<Add27, D1, D2, D3, D4, D5, D6, D7, D8, D9, D10, D11, D12, D13, D14, D15, D16, D17, D18, D19, D20, D21, D22, D23, D24, D25, D26, D27>;

type Sink30<D1, D2, D3, D4, D5, D6, D7, D8, D9, D10, D11, D12, D13, D14, D15, D16, D17, D18, D19, D20, D21, D22, D23, D24, D25, D26, D27, D28, D29, D30> = Dep30<Add30, D1, D2, D3, D4, D5, D6, D7, D8, D9, D10, D11, D12, D13, D14, D15, D16, D17, D18, D19, D20, D21, D22, D23, D24, D25, D26, D27, D28, D29, D30>;

type Sink100<D1, D2, D3, D4, D5, D6, D7, D8, D9, D10, D11, D12, D13, D14, D15, D16, D17, D18, D19, D20, D21, D22, D23, D24, D25, D26, D27, D28, D29, D30, D31, D32, D33, D34, D35, D36, D37, D38, D39, D40, D41, D42, D43, D44, D45, D46, D47, D48, D49, D50, D51, D52, D53, D54, D55, D56, D57, D58, D59, D60, D61, D62, D63, D64, D65, D66, D67, D68, D69, D70, D71, D72, D73, D74, D75, D76, D77, D78, D79, D80, D81, D82, D83, D84, D85, D86, D87, D88, D89, D90, D91, D92, D93, D94, D95, D96, D97, D98, D99, D100> = Dep100<Add100, D1, D2, D3, D4, D5, D6, D7, D8, D9, D10, D11, D12, D13, D14, D15, D16, D17, D18, D19, D20, D21, D22, D23, D24, D25, D26, D27, D28, D29, D30, D31, D32, D33, D34, D35, D36, D37, D38, D39, D40, D41, D42, D43, D44, D45, D46, D47, D48, D49, D50, D51, D52, D53, D54, D55, D56, D57, D58, D59, D60, D61, D62, D63, D64, D65, D66, D67, D68, D69, D70, D71, D72, D73, D74, D75, D76, D77, D78, D79, D80, D81, D82, D83, D84, D85, D86, D87, D88, D89, D90, D91, D92, D93, D94, D95, D96, D97, D98, D99, D100>;

type Branch<O> = Dep1<O, Inp>;

type Star10 = Sink10<Branch<Inc1>, Branch<Inc1V2>, Branch<Inc1V3>, Branch<Inc1V4>, Branch<Inc1V5>, Branch<Inc1V6>, Branch<Inc1V7>, Branch<Inc1V8>, Branch<Inc1V9>, Branch<Inc1V10>>;

type Star30 = Sink30<Branch<Inc1>, Branch<Inc1V2>, Branch<Inc1V3>, Branch<Inc1V4>, Branch<Inc1V5>, Branch<Inc1V6>, Branch<Inc1V7>, Branch<Inc1V8>, Branch<Inc1V9>, Branch<Inc1V10>, Branch<Inc1V11>, Branch<Inc1V12>, Branch<Inc1V13>, Branch<Inc1V14>, Branch<Inc1V15>, Branch<Inc1V16>, Branch<Inc1V17>, Branch<Inc1V18>, Branch<Inc1V19>, Branch<Inc1V20>, Branch<Inc1V21>, Branch<Inc1V22>, Branch<Inc1V23>, Branch<Inc1V24>, Branch<Inc1V25>, Branch<Inc1V26>, Branch<Inc1V27>, Branch<Inc1V28>, Branch<Inc1V29>, Branch<Inc1V30>>;

type Star100 = Sink100<Branch<Inc1>, Branch<Inc1V2>, Branch<Inc1V3>, Branch<Inc1V4>, Branch<Inc1V5>, Branch<Inc1V6>, Branch<Inc1V7>, Branch<Inc1V8>, Branch<Inc1V9>, Branch<Inc1V10>, Branch<Inc1V11>, Branch<Inc1V12>, Branch<Inc1V13>, Branch<Inc1V14>, Branch<Inc1V15>, Branch<Inc1V16>, Branch<Inc1V17>, Branch<Inc1V18>, Branch<Inc1V19>, Branch<Inc1V20>, Branch<Inc1V21>, Branch<Inc1V22>, Branch<Inc1V23>, Branch<Inc1V24>, Branch<Inc1V25>, Branch<Inc1V26>, Branch<Inc1V27>, Branch<Inc1V28>, Branch<Inc1V29>, Branch<Inc1V30>, Branch<Inc1V31>, Branch<Inc1V32>, Branch<Inc1V33>, Branch<Inc1V34>, Branch<Inc1V35>, Branch<Inc1V36>, Branch<Inc1V37>, Branch<Inc1V38>, Branch<Inc1V39>, Branch<Inc1V40>, Branch<Inc1V41>, Branch<Inc1V42>, Branch<Inc1V43>, Branch<Inc1V44>, Branch<Inc1V45>, Branch<Inc1V46>, Branch<Inc1V47>, Branch<Inc1V48>, Branch<Inc1V49>, Branch<Inc1V50>, Branch<Inc1V51>, Branch<Inc1V52>, Branch<Inc1V53>, Branch<Inc1V54>, Branch<Inc1V55>, Branch<Inc1V56>, Branch<Inc1V57>, Branch<Inc1V58>, Branch<Inc1V59>, Branch<Inc1V60>, Branch<Inc1V61>, Branch<Inc1V62>, Branch<Inc1V63>, Branch<Inc1V64>, Branch<Inc1V65>, Branch<Inc1V66>, Branch<Inc1V67>, Branch<Inc1V68>, Branch<Inc1V69>, Branch<Inc1V70>, Branch<Inc1V71>, Branch<Inc1V72>, Branch<Inc1V73>, Branch<Inc1V74>, Branch<Inc1V75>, Branch<Inc1V76>, Branch<Inc1V77>, Branch<Inc1V78>, Branch<Inc1V79>, Branch<Inc1V80>, Branch<Inc1V81>, Branch<Inc1V82>, Branch<Inc1V83>, Branch<Inc1V84>, Branch<Inc1V85>, Branch<Inc1V86>, Branch<Inc1V87>, Branch<Inc1V88>, Branch<Inc1V89>, Branch<Inc1V90>, Branch<Inc1V91>, Branch<Inc1V92>, Branch<Inc1V93>, Branch<Inc1V94>, Branch<Inc1V95>, Branch<Inc1V96>, Branch<Inc1V97>, Branch<Inc1V98>, Branch<Inc1V99>, Branch<Inc1V100>>;

type Link<D> = Dep1<Inc1, D>;

type Link5<D> = Link<Link<Link<Link<Link<D>>>>>;

type Link25<D> = Link5<Link5<Link5<Link5<Link5<D>>>>>;

type Chain5 = Link5<Inp>;

type Chain25 = Link25<Inp>;

type Chain100 = Link25<Link25<Link25<Link25<Inp>>>>;

type Root = Inp;

type Tree<O, P> = Dep1<O, P>;

type TreeD1I1 = Tree<Inc1, Root>;

type TreeD1I2 = Tree<Inc1V2, Root>;

type TreeD1I3 = Tree<Inc1V3, Root>;

type TreeD2I1 = Tree<Inc1V4, TreeD1I1>;

type TreeD2I2 = Tree<Inc1V5, TreeD1I1>;

type TreeD2I3 = Tree<Inc1V6, TreeD1I1>;

type TreeD2I4 = Tree<Inc1V7, TreeD1I2>;

type TreeD2I5 = Tree<Inc1V8, TreeD1I2>;

type TreeD2I6 = Tree<Inc1V9, TreeD1I2>;

type TreeD2I7 = Tree<Inc1V10, TreeD1I3>;

type TreeD2I8 = Tree<Inc1V11, TreeD1I3>;

type TreeD2I9 = Tree<Inc1V12, TreeD1I3>;

type TreeD3I1 = Tree<Inc1V13, TreeD2I1>;

type TreeD3I2 = Tree<Inc1V14, TreeD2I1>;

type TreeD3I3 = Tree<Inc1V15, TreeD2I1>;

type TreeD3I4 = Tree<Inc1V16, TreeD2I2>;

type TreeD3I5 = Tree<Inc1V17, TreeD2I2>;

type TreeD3I6 = Tree<Inc1V18, TreeD2I2>;

type TreeD3I7 = Tree<Inc1V19, TreeD2I3>;

type TreeD3I8 = Tree<Inc1V20, TreeD2I3>;

type TreeD3I9 = Tree<Inc1V21, TreeD2I3>;

type TreeD3I10 = Tree<Inc1V22, TreeD2I4>;

type TreeD3I11 = Tree<Inc1V23, TreeD2I4>;

type TreeD3I12 = Tree<Inc1V24, TreeD2I4>;

type TreeD3I13 = Tree<Inc1V25, TreeD2I5>;

type TreeD3I14 = Tree<Inc1V26, TreeD2I5>;

type TreeD3I15 = Tree<Inc1V27, TreeD2I5>;

type TreeD3I16 = Tree<Inc1V28, TreeD2I6>;

type TreeD3I17 = Tree<Inc1V29, TreeD2I6>;

type TreeD3I18 = Tree<Inc1V30, TreeD2I6>;

type TreeD3I19 = Tree<Inc1V31, TreeD2I7>;

type TreeD3I20 = Tree<Inc1V32, TreeD2I7>;

type TreeD3I21 = Tree<Inc1V33, TreeD2I7>;

type TreeD3I22 = Tree<Inc1V34, TreeD2I8>;

type TreeD3I23 = Tree<Inc1V35, TreeD2I8>;

type TreeD3I24 = Tree<Inc1V36, TreeD2I8>;

type TreeD3I25 = Tree<Inc1V37, TreeD2I9>;

type TreeD3I26 = Tree<Inc1V38, TreeD2I9>;

type TreeD3I27 = Tree<Inc1V39, TreeD2I9>;

type TreeK3D2 = Sink3<TreeD1I1, TreeD1I2, TreeD1I3>;

type TreeK3D3 = Sink9<TreeD2I1, TreeD2I2, TreeD2I3, TreeD2I4, TreeD2I5, TreeD2I6, TreeD2I7, TreeD2I8, TreeD2I9>;

type TreeK3D4 = Sink27<TreeD3I1, TreeD3I2, TreeD3I3, TreeD3I4, TreeD3I5, TreeD3I6, TreeD3I7, TreeD3I8, TreeD3I9, TreeD3I10, TreeD3I11, TreeD3I12, TreeD3I13, TreeD3I14, TreeD3I15, TreeD3I16, TreeD3I17, TreeD3I18, TreeD3I19, TreeD3I20, TreeD3I21, TreeD3I22, TreeD3I23, TreeD3I24, TreeD3I25, TreeD3I26, TreeD3I27>;

type FanIn<I> = Dep1<Inc1, I>;

type FanOut<O, H> = Dep1<O, H>;

type Hub3 = Dep3<Add3, FanIn<Inp>, FanIn<Inp2>, FanIn<Inp3>>;

type Hub6 = Dep6<Add6, FanIn<Inp>, FanIn<Inp2>, FanIn<Inp3>, FanIn<Inp4>, FanIn<Inp5>, FanIn<Inp6>>;

type Hub9 = Dep9<Add9, FanIn<Inp>, FanIn<Inp2>, FanIn<Inp3>, FanIn<Inp4>, FanIn<Inp5>, FanIn<Inp6>, FanIn<Inp7>, FanIn<Inp8>, FanIn<Inp9>>;

type Hourglass3 = Sink3<FanOut<Inc1, Hub3>, FanOut<Inc1V2, Hub3>, FanOut<Inc1V3, Hub3>>;

type Hourglass6 = Sink6<FanOut<Inc1, Hub6>, FanOut<Inc1V2, Hub6>, FanOut<Inc1V3, Hub6>, FanOut<Inc1V4, Hub6>, FanOut<Inc1V5, Hub6>, FanOut<Inc1V6, Hub6>>;

type Hourglass9 = Sink9<FanOut<Inc1, Hub9>, FanOut<Inc1V2, Hub9>, FanOut<Inc1V3, Hub9>, FanOut<Inc1V4, Hub9>, FanOut<Inc1V5, Hub9>, FanOut<Inc1V6, Hub9>, FanOut<Inc1V7, Hub9>, FanOut<Inc1V8, Hub9>, FanOut<Inc1V9, Hub9>>;

