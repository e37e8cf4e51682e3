//! A pipeline of staged computation. A `Pipeline` carries the items one
//! stage has produced for the next; stages run in order, each one consuming
//! a `Receiver` over the previous stage's output and sending its own results
//! through a batching `Sender`. `map`, `filter`, `reduce` and their
//! multi-worker variants are the built-in stages; `then` runs any
//! `PipelineEntry`. The multi-worker variants distribute the same work over
//! a worker count, which tunes scheduling only: what comes out is specified
//! exactly as for their single-worker forms.

use vstd::prelude::*;
use crate::comms::PipelineConfig;
use crate::comms::Receiver;
use crate::comms::Sender;

verus! {

/// Keys that grouping stages can compare, with equality that agrees with
/// mathematical equality.
pub trait EqKey: Sized {
    /// Decide whether two keys are equal.
    fn key_eq(&self, other: &Self) -> (r: bool)
        ensures
            r == (self == other),
    ;
}

impl EqKey for bool {
    fn key_eq(&self, other: &Self) -> (r: bool) {
        *self == *other
    }
}

impl EqKey for u64 {
    fn key_eq(&self, other: &Self) -> (r: bool) {
        *self == *other
    }
}

impl EqKey for i64 {
    fn key_eq(&self, other: &Self) -> (r: bool) {
        *self == *other
    }
}

impl EqKey for u32 {
    fn key_eq(&self, other: &Self) -> (r: bool) {
        *self == *other
    }
}

impl EqKey for i32 {
    fn key_eq(&self, other: &Self) -> (r: bool) {
        *self == *other
    }
}

impl EqKey for usize {
    fn key_eq(&self, other: &Self) -> (r: bool) {
        *self == *other
    }
}

/// A stage that can be run by `Pipeline::then`: it reads every item of its
/// receiver and sends its results onward.
pub trait PipelineEntry<In, Out>: Sized {
    /// Which single items this stage may be given.
    spec fn accepts(&self, x: In) -> bool;

    /// How this stage's whole output relates to its whole input.
    spec fn models(&self, input: Seq<In>, output: Seq<Out>) -> bool;

    /// Consume the incoming items and send the results.
    fn process(self, tx: &mut Sender<Out>, rx: Receiver<In>)
        requires
            forall|i: int| 0 <= i < rx@.len() ==> self.accepts(#[trigger] rx@[i]),
        ensures
            final(tx)@.len() >= old(tx)@.len(),
            final(tx)@.take(old(tx)@.len() as int) == old(tx)@,
            self.models(rx@, final(tx)@.skip(old(tx)@.len() as int)),
    ;
}

/// How a filtering stage relates its output to its input: the output is the
/// subsequence of inputs for which the predicate answered true, in order.
pub open spec fn filter_models<In, Func: Fn(&In) -> bool>(
    f: Func,
    input: Seq<In>,
    output: Seq<In>,
) -> bool
    decreases input.len(),
{
    if input.len() == 0 {
        output.len() == 0
    } else {
        let x = input.last();
        (call_ensures(f, (&x,), true) && output.len() > 0 && output.last() == x && filter_models(
            f,
            input.drop_last(),
            output.drop_last(),
        )) || (call_ensures(f, (&x,), false) && filter_models(f, input.drop_last(), output))
    }
}

/// The distinct keys of a key-value sequence, in order of first occurrence.
pub open spec fn group_keys<K, V>(s: Seq<(K, V)>) -> Seq<K>
    decreases s.len(),
{
    if s.len() == 0 {
        Seq::empty()
    } else {
        let rest = group_keys(s.drop_last());
        if rest.contains(s.last().0) {
            rest
        } else {
            rest.push(s.last().0)
        }
    }
}

/// All values carried under the key `k`, in arrival order.
pub open spec fn values_for<K, V>(s: Seq<(K, V)>, k: K) -> Seq<V>
    decreases s.len(),
{
    if s.len() == 0 {
        Seq::empty()
    } else {
        let rest = values_for(s.drop_last(), k);
        if s.last().0 == k {
            rest.push(s.last().1)
        } else {
            rest
        }
    }
}

/// One reduced output: position `g` of `output` is a possible result of
/// `func` on key `g` (in first-occurrence order) and all of its values.
pub open spec fn reduced_group_ok<OutKey, OutValue, EntryOut, Func: Fn(OutKey, Vec<OutValue>) -> EntryOut>(
    func: Func,
    input: Seq<(OutKey, OutValue)>,
    output: Seq<EntryOut>,
    g: int,
) -> bool {
    exists|vs: Vec<OutValue>|
        vs@ == values_for(input, group_keys(input)[g]) && #[trigger] call_ensures(
            func,
            (group_keys(input)[g], vs),
            output[g],
        )
}

/// The distinct keys really are distinct.
pub proof fn lemma_group_keys_distinct<K, V>(s: Seq<(K, V)>)
    ensures
        forall|a: int, b: int|
            0 <= a < b < group_keys(s).len() ==> group_keys(s)[a] != group_keys(s)[b],
    decreases s.len(),
{
    if s.len() > 0 {
        lemma_group_keys_distinct(s.drop_last());
        let rest = group_keys(s.drop_last());
        let k = s.last().0;
        if !rest.contains(k) {
            assert forall|a: int, b: int|
                0 <= a < b < group_keys(s).len() implies group_keys(s)[a] != group_keys(s)[b] by {
                if b == group_keys(s).len() - 1 {
                    assert(group_keys(s)[a] == rest[a]);
                    if rest[a] == k {
                        assert(rest.contains(k));
                    }
                }
            }
        }
    }
}

/// A key that never occurs leaves no values behind.
pub proof fn lemma_values_absent_key<K, V>(s: Seq<(K, V)>, k: K)
    requires
        !group_keys(s).contains(k),
    ensures
        values_for(s, k) == Seq::<V>::empty(),
    decreases s.len(),
{
    if s.len() > 0 {
        let rest = group_keys(s.drop_last());
        if rest.contains(s.last().0) {
        } else {
            vstd::seq_lib::lemma_seq_contains_after_push(rest, s.last().0, k);
        }
        assert(group_keys(s).contains(s.last().0)) by {
            if !rest.contains(s.last().0) {
                vstd::seq_lib::lemma_seq_contains_after_push(rest, s.last().0, s.last().0);
            }
        }
        if rest.contains(k) {
            let w = choose|w: int| 0 <= w < rest.len() && rest[w] == k;
            if group_keys(s) == rest {
                assert(group_keys(s)[w] == k);
            } else {
                assert(group_keys(s)[w] == k);
            }
            assert(false);
        }
        lemma_values_absent_key(s.drop_last(), k);
    }
}

/// The items one stage has produced for the next, with the buffer
/// configuration the following stages will inherit.
#[derive(Debug)]
pub struct Pipeline<Output> {
    items: Vec<Output>,
    config: PipelineConfig,
}

impl<Output> View for Pipeline<Output> {
    type V = Seq<Output>;

    closed spec fn view(&self) -> Seq<Output> {
        self.items@
    }
}

impl<Output> Pipeline<Output> {
    /// The configuration the next stage will run under.
    pub closed spec fn config_spec(&self) -> PipelineConfig {
        self.config
    }

    /// Start a pipeline from the items of a vector.
    pub fn from(source: Vec<Output>) -> (p: Pipeline<Output>)
        ensures
            p@ == source@,
            p.config_spec() == (PipelineConfig { buff_size: 10, batch_size: 10 }),
    {
        Pipeline { items: source, config: PipelineConfig::default() }
    }

    /// Change the configuration for the stages that follow.
    pub fn configure(self, config: PipelineConfig) -> (p: Pipeline<Output>)
        ensures
            p@ == self@,
            p.config_spec() == config,
    {
        Pipeline { items: self.items, config }
    }

    /// Run a `PipelineEntry` as the next stage.
    pub fn then<EntryOut, Entry: PipelineEntry<Output, EntryOut>>(self, next: Entry) -> (p:
        Pipeline<EntryOut>)
        requires
            forall|i: int| 0 <= i < self@.len() ==> next.accepts(#[trigger] self@[i]),
        ensures
            next.models(self@, p@),
            p.config_spec() == self.config_spec(),
    {
        let ghost sview = self@;
        let Pipeline { items, config } = self;
        assert(sview == items@);
        let mut tx: Sender<EntryOut> = Sender::new(config);
        let rx = Receiver::from_vec(items);
        assert(rx@ == sview);
        next.process(&mut tx, rx);
        proof {
            assert(tx@.skip(0) =~= tx@);
        }
        let out = tx.into_items();
        Pipeline { items: out, config }
    }

    /// Call `func` on every item, in order.
    #[verifier::loop_isolation(false)]
    pub fn map<EntryOut, Func: Fn(Output) -> EntryOut>(self, func: Func) -> (p: Pipeline<EntryOut>)
        requires
            forall|i: int| 0 <= i < self@.len() ==> call_requires(func, (self@[i],)),
        ensures
            p@.len() == self@.len(),
            forall|i: int| 0 <= i < self@.len() ==> call_ensures(func, (self@[i],), #[trigger] p@[i]),
            p.config_spec() == self.config_spec(),
    {
        let ghost input = self@;
        let Pipeline { items, config } = self;
        assert(input == items@);
        let mut items = items;
        let mut out: Vec<EntryOut> = Vec::new();
        while items.len() > 0
            invariant
                out@.len() + items@.len() == input.len(),
                items@ == input.skip(out@.len() as int),
                forall|i: int|
                    0 <= i < out@.len() ==> call_ensures(func, (input[i],), #[trigger] out@[i]),
            decreases items@.len(),
        {
            let x = items.remove(0);
            proof {
                assert(x == input[out@.len() as int]);
                assert(call_requires(func, (input[out@.len() as int],)));
                assert(items@ =~= input.skip(out@.len() as int + 1));
            }
            out.push(func(x));
        }
        Pipeline { items: out, config }
    }

    /// Call `func` on every item using `workers` worker threads' worth of
    /// budget; the results are those of `map`.
    pub fn pmap<EntryOut, Func: Fn(Output) -> EntryOut>(self, workers: usize, func: Func) -> (p:
        Pipeline<EntryOut>)
        requires
            forall|i: int| 0 <= i < self@.len() ==> call_requires(func, (self@[i],)),
        ensures
            p@.len() == self@.len(),
            forall|i: int| 0 <= i < self@.len() ==> call_ensures(func, (self@[i],), #[trigger] p@[i]),
            p.config_spec() == self.config_spec(),
    {
        if workers == 1 {
            return self.map(func);
        }
        self.map(func)
    }

    /// Pass items into the next stage only if `pred` is true of them.
    #[verifier::loop_isolation(false)]
    #[verifier::rlimit(30)]
    pub fn filter<Func: Fn(&Output) -> bool>(self, pred: Func) -> (p: Pipeline<Output>)
        requires
            forall|i: int| 0 <= i < self@.len() ==> call_requires(pred, (&self@[i],)),
        ensures
            filter_models(pred, self@, p@),
            p.config_spec() == self.config_spec(),
    {
        let ghost input = self@;
        let Pipeline { items, config } = self;
        assert(input == items@);
        assert(input.len() <= usize::MAX) by {
            assert(items@.len() == items.len());
        }
        let mut items = items;
        let mut out: Vec<Output> = Vec::new();
        let mut done: usize = 0;
        while items.len() > 0
            invariant
                done + items@.len() == input.len(),
                items@ == input.skip(done as int),
                filter_models(pred, input.take(done as int), out@),
                out@.len() <= done,
            decreases items@.len(),
        {
            let x = items.remove(0);
            proof {
                assert(x == input[done as int]);
                assert(call_requires(pred, (&input[done as int],)));
                assert(items@ =~= input.skip(done + 1));
                assert(input.take(done + 1).drop_last() =~= input.take(done as int));
                assert(input.take(done + 1).last() == x);
            }
            let ghost prev_out = out@;
            let keep = pred(&x);
            if keep {
                out.push(x);
                proof {
                    assert(out@.drop_last() =~= prev_out);
                    assert(out@.last() == x);
                    assert(filter_models(pred, input.take(done + 1), out@));
                }
            } else {
                proof {
                    assert(filter_models(pred, input.take(done + 1), out@));
                }
            }
            done = done + 1;
        }
        proof {
            assert(input.take(input.len() as int) =~= input);
        }
        Pipeline { items: out, config }
    }

    /// Consume this pipeline without collecting the results.
    pub fn drain(self) {
    }

    /// The items this pipeline carries, in order.
    pub fn into_vec(self) -> (items: Vec<Output>)
        ensures
            items@ == self@,
    {
        self.items
    }
}

impl<OutKey: EqKey, OutValue> Pipeline<(OutKey, OutValue)> {
    /// Group the `(key, value)` items by key — keys in order of first
    /// occurrence, each key's values in arrival order — and call `func` once
    /// per key on the key and all of its values.
    #[verifier::loop_isolation(false)]
    pub fn reduce<EntryOut, Func: Fn(OutKey, Vec<OutValue>) -> EntryOut>(self, func: Func) -> (p:
        Pipeline<EntryOut>)
        requires
            forall|kk: OutKey, vs: Vec<OutValue>|
                group_keys(self@).contains(kk) && vs@ == values_for(self@, kk)
                    ==> #[trigger] call_requires(func, (kk, vs)),
        ensures
            p@.len() == group_keys(self@).len(),
            forall|g: int| 0 <= g < p@.len() ==> #[trigger] reduced_group_ok(func, self@, p@, g),
            p.config_spec() == self.config_spec(),
    {
        let ghost input = self@;
        let Pipeline { items, config } = self;
        assert(input == items@);
        let mut items = items;
        let ghost mut processed: Seq<(OutKey, OutValue)> = Seq::empty();
        let mut by_key: Vec<(OutKey, Vec<OutValue>)> = Vec::new();
        proof {
            lemma_group_keys_distinct(input);
            assert(processed + items@ =~= input);
            assert(processed =~= input.take(0));
        }
        while items.len() > 0
            invariant
                processed + items@ == input,
                processed == input.take(processed.len() as int),
                by_key@.len() == group_keys(processed).len(),
                forall|g: int|
                    0 <= g < by_key@.len() ==> #[trigger] by_key@[g].0 == group_keys(processed)[g]
                        && by_key@[g].1@ == values_for(processed, group_keys(processed)[g]),
            decreases items@.len(),
        {
            let (k, v) = items.remove(0);
            let ghost wk = k;
            let ghost before = processed;
            let ghost prev_groups = by_key@;
            proof {
                assert(before.push((wk, v)) =~= input.take(before.len() as int + 1));
                assert(before.push((wk, v)).drop_last() =~= before);
                processed = before.push((wk, v));
                assert(processed + items@ =~= input);
            }
            let found = find_group(&by_key, &k);
            match found {
                Some(g) => {
                    proof {
                        assert(group_keys(before).contains(wk)) by {
                            assert(group_keys(before)[g as int] == wk);
                        }
                        lemma_group_keys_distinct(before);
                    }
                    let (ek, mut evs) = by_key.remove(g);
                    evs.push(v);
                    by_key.insert(g, (ek, evs));
                    proof {
                        assert(group_keys(processed) == group_keys(before));
                        assert(by_key@ =~= prev_groups.update(g as int, by_key@[g as int]));
                        assert forall|w: int| 0 <= w < by_key@.len() implies #[trigger] by_key@[w].0
                            == group_keys(processed)[w] && by_key@[w].1@ == values_for(
                            processed,
                            group_keys(processed)[w],
                        ) by {
                            if w != g {
                                assert(by_key@[w] == prev_groups[w]);
                                assert(group_keys(before)[w] != wk);
                            }
                        }
                    }
                },
                None => {
                    proof {
                        if group_keys(before).contains(wk) {
                            let w = choose|w: int|
                                0 <= w < group_keys(before).len() && group_keys(before)[w] == wk;
                            assert(prev_groups[w].0 == wk);
                            assert(false);
                        }
                        lemma_values_absent_key(before, wk);
                    }
                    let mut vs: Vec<OutValue> = Vec::new();
                    vs.push(v);
                    by_key.push((k, vs));
                },
            }
        }
        proof {
            assert(processed =~= input);
        }
        let ghost keys = group_keys(input);
        let mut by_key = by_key;
        let mut out: Vec<EntryOut> = Vec::new();
        while by_key.len() > 0
            invariant
                out@.len() + by_key@.len() == keys.len(),
                forall|g: int|
                    0 <= g < by_key@.len() ==> #[trigger] by_key@[g].0 == keys[out@.len() + g]
                        && by_key@[g].1@ == values_for(input, keys[out@.len() + g]),
                forall|g: int|
                    0 <= g < out@.len() ==> #[trigger] reduced_group_ok(func, input, out@, g),
            decreases by_key@.len(),
        {
            let ghost done = out@.len() as int;
            let ghost prev_out = out@;
            let (k, vs) = by_key.remove(0);
            let ghost wk = k;
            let ghost wvs = vs;
            proof {
                assert(keys.contains(wk)) by {
                    assert(keys[done] == wk);
                }
            }
            let r = func(k, vs);
            out.push(r);
            proof {
                assert(reduced_group_ok(func, input, out@, done)) by {
                    assert(wvs@ == values_for(input, keys[done]) && call_ensures(
                        func,
                        (keys[done], wvs),
                        out@[done],
                    ));
                }
                assert forall|g: int| 0 <= g < out@.len() implies #[trigger] reduced_group_ok(
                    func,
                    input,
                    out@,
                    g,
                ) by {
                    if g < done {
                        assert(reduced_group_ok(func, input, prev_out, g));
                        let vs0 = choose|vs0: Vec<OutValue>|
                            vs0@ == values_for(input, group_keys(input)[g]) && #[trigger] call_ensures(
                                func,
                                (group_keys(input)[g], vs0),
                                prev_out[g],
                            );
                        assert(out@[g] == prev_out[g]);
                        assert(vs0@ == values_for(input, group_keys(input)[g]) && call_ensures(
                            func,
                            (group_keys(input)[g], vs0),
                            out@[g],
                        ));
                    }
                }
            }
        }
        Pipeline { items: out, config }
    }

    /// Like `reduce`, but with `workers` reducer threads' worth of budget;
    /// the groups and results are those of `reduce`.
    pub fn preduce<EntryOut, Func: Fn(OutKey, Vec<OutValue>) -> EntryOut>(
        self,
        workers: usize,
        func: Func,
    ) -> (p: Pipeline<EntryOut>)
        requires
            forall|kk: OutKey, vs: Vec<OutValue>|
                group_keys(self@).contains(kk) && vs@ == values_for(self@, kk)
                    ==> #[trigger] call_requires(func, (kk, vs)),
        ensures
            p@.len() == group_keys(self@).len(),
            forall|g: int| 0 <= g < p@.len() ==> #[trigger] reduced_group_ok(func, self@, p@, g),
            p.config_spec() == self.config_spec(),
    {
        if workers == 1 {
            return self.reduce(func);
        }
        self.reduce(func)
    }
}

/// The first group whose key equals `k`, if any.
#[verifier::loop_isolation(false)]
fn find_group<K: EqKey, V>(by_key: &Vec<(K, Vec<V>)>, k: &K) -> (found: Option<usize>)
    ensures
        match found {
            Some(g) => (g as int) < by_key@.len() && by_key@[g as int].0 == *k,
            None => forall|g: int| 0 <= g < by_key@.len() ==> #[trigger] by_key@[g].0 != *k,
        },
{
    let mut g: usize = 0;
    while g < by_key.len()
        invariant
            g <= by_key@.len(),
            forall|w: int| 0 <= w < g ==> #[trigger] by_key@[w].0 != *k,
        decreases by_key@.len() - g,
    {
        let pair = &by_key[g];
        if pair.0.key_eq(k) {
            return Some(g);
        }
        g = g + 1;
    }
    None
}

} // verus!
