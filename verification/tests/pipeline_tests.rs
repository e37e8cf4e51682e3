use rust_decision_tree::comms::PipelineConfig;
use rust_decision_tree::entries::Mapper;
use rust_decision_tree::entries::Multiplex;
use rust_decision_tree::pipelines::Pipeline;

#[test]
fn simple() {
    let source: Vec<i32> = vec![1, 2, 3];
    let pbb: Pipeline<i32> = Pipeline::from(source);
    let produced: Vec<i32> = pbb.into_vec();

    assert_eq!(produced, vec![1, 2, 3]);
}

#[test]
fn map() {
    let source: Vec<i32> = (1..100).collect();
    let expect: Vec<i32> = source.iter().map(|x| x * 2).collect();

    let pbb: Pipeline<i32> = Pipeline::from(source).map(|i| i * 2);
    let produced: Vec<i32> = pbb.into_vec();

    assert_eq!(produced, expect);
}

#[test]
fn multiple_map() {
    let source: Vec<i32> = vec![1, 2, 3];
    let expect: Vec<i32> = source.iter().map(|x| (x * 2) * (x * 2)).collect();

    let pbb: Pipeline<i32> = Pipeline::from(source).map(|i| i * 2).map(|i| i * i);
    let produced: Vec<i32> = pbb.into_vec();

    assert_eq!(produced, expect);
}

// just something expensive
fn fib_work(n: u64) -> u64 {
    fib(10) + n
}

fn fib(n: u64) -> u64 {
    if n == 0 || n == 1 {
        1
    } else {
        fib(n - 1) + fib(n - 2)
    }
}

#[test]
fn multiplex_map_function() {
    // we have two signatures for Multiplex, one that takes a function
    // pointer and one that can take a closure. This is the function pointer
    // side

    let workers: usize = 10;

    let source: Vec<u64> = (1..1000).collect();
    let expect: Vec<u64> = source.clone().into_iter().map(fib_work).collect();

    let pbb: Pipeline<u64> =
        Pipeline::from(source).then(Multiplex::from(Mapper::new(fib_work), workers));
    let mut produced: Vec<u64> = pbb.into_vec();

    produced.sort(); // these may arrive out of order
    assert_eq!(produced, expect);
}

#[test]
fn multiplex_map_closure() {
    let workers: usize = 10;

    let source: Vec<i32> = (1..1000).collect();
    let expect: Vec<i32> = source.iter().map(|x| x * 2).collect();

    let pbb: Pipeline<i32> = Pipeline::from(source).then(Multiplex::new(
        (0..workers).map(|_| Mapper::new(|i| i * 2)).collect(),
    ));
    let mut produced: Vec<i32> = pbb.into_vec();

    produced.sort(); // these may arrive out of order
    assert_eq!(produced, expect);
}

#[test]
fn filter() {
    let source: Vec<i32> = (1..100).collect();
    let expect: Vec<i32> = source.iter().map(|x| x + 1).filter(|x| x % 2 == 0).collect();

    let pbb: Pipeline<i32> = Pipeline::from(source).map(|i| i + 1).filter(|i| i % 2 == 0);
    let produced: Vec<i32> = pbb.into_vec();

    assert_eq!(produced, expect);
}

#[test]
fn pmap() {
    let source: Vec<i32> = (1..100).collect();
    let expect: Vec<i32> = source.iter().map(|x| x * 2).collect();
    let workers: usize = 2;

    let pbb: Pipeline<i32> = Pipeline::from(source).pmap(workers, |i| i * 2);
    let mut produced: Vec<i32> = pbb.into_vec();
    produced.sort();

    assert_eq!(produced, expect);
}

#[test]
fn preduce() {
    let source: Vec<i32> = (1..1000).collect();
    let workers: usize = 2;

    let expect = vec![(false, 1996), (true, 1998)];

    let mut produced: Vec<(bool, i32)> = Pipeline::from(source)
        .map(|x| (x % 3 == 0, x * 2))
        .preduce(workers, |threevenness, nums: Vec<i32>| {
            (threevenness, *nums.iter().max().unwrap())
        })
        .into_vec();
    produced.sort();

    assert_eq!(produced, expect);
}

#[test]
fn mapreduce() {
    let source: Vec<i32> = (1..1000).collect();
    let workers: usize = 1;

    let expect = vec![(false, 1996), (true, 1998)];

    let mut produced: Vec<(bool, i32)> = Pipeline::from(source)
        .pmap(workers, |x| x * 2)
        .pmap(workers, |x| (x % 3 == 0, x))
        .preduce(workers, |threevenness, nums: Vec<i32>| {
            (threevenness, *nums.iter().max().unwrap())
        })
        .into_vec();
    produced.sort();

    assert_eq!(produced, expect);
}

#[test]
fn config() {
    let source: Vec<i32> = (1..100).collect();
    let _: Vec<i32> = Pipeline::from(source)
        .configure(PipelineConfig::default().buff_size(10))
        .map(|x| x * 2)
        .configure(PipelineConfig::default().buff_size(10))
        .filter(|x| x % 3 == 0)
        .into_vec();
}
