//! The built-in pipeline stages: a `Mapper` applies a function to each item,
//! a `Filter` keeps the items its predicate approves, and a `Multiplex`
//! spreads the incoming items over several copies of a stage — the work
//! distribution that worker threads would do, expressed as a chunked split
//! of the input.

use vstd::prelude::*;
use crate::comms::Receiver;
use crate::comms::Sender;
use crate::pipelines::PipelineEntry;
use crate::pipelines::filter_models;

verus! {

/// A pipeline entry that runs a function on each value and sends the result
/// down the pipeline.
#[derive(Debug, Clone, Copy)]
pub struct Mapper<Func> {
    /// The function applied to each item.
    pub func: Func,
}

impl<Func> Mapper<Func> {
    /// A mapping stage from a function.
    pub fn new(func: Func) -> (m: Mapper<Func>)
        ensures
            m.func == func,
    {
        Mapper { func }
    }
}

impl<In, Out, Func> PipelineEntry<In, Out> for Mapper<Func> where Func: Fn(In) -> Out {
    open spec fn accepts(&self, x: In) -> bool {
        call_requires(self.func, (x,))
    }

    open spec fn models(&self, input: Seq<In>, output: Seq<Out>) -> bool {
        output.len() == input.len() && forall|i: int|
            0 <= i < input.len() ==> call_ensures(self.func, (input[i],), #[trigger] output[i])
    }

    #[verifier::loop_isolation(false)]
    fn process(self, tx: &mut Sender<Out>, rx: Receiver<In>) {
        let ghost input = rx@;
        let ghost base = tx@;
        let mut items = rx.into_items();
        assert(input.len() <= usize::MAX) by {
            assert(items@.len() == items.len());
        }
        let mut done: usize = 0;
        while items.len() > 0
            invariant
                done + items@.len() == input.len(),
                items@ == input.skip(done as int),
                tx@.len() == base.len() + done,
                tx@.take(base.len() as int) == base,
                forall|i: int|
                    0 <= i < done ==> call_ensures(
                        self.func,
                        (input[i],),
                        #[trigger] tx@[base.len() + i],
                    ),
            decreases items@.len(),
        {
            let x = items.remove(0);
            proof {
                assert(x == input[done as int]);
                assert(call_requires(self.func, (input[done as int],)));
                assert(items@ =~= input.skip(done as int + 1));
            }
            let ghost prev_tx = tx@;
            let y = (self.func)(x);
            tx.send(y);
            proof {
                assert(tx@.take(base.len() as int) =~= prev_tx.take(base.len() as int));
            }
            done = done + 1;
        }
        proof {
            assert forall|i: int| 0 <= i < input.len() implies call_ensures(
                self.func,
                (input[i],),
                #[trigger] tx@.skip(base.len() as int)[i],
            ) by {
                assert(tx@.skip(base.len() as int)[i] == tx@[base.len() + i]);
            }
            assert(self.models(input, tx@.skip(base.len() as int)));
        }
    }
}

/// A pipeline entry with a predicate that values must meet to be sent
/// further down the pipeline.
#[derive(Debug, Clone, Copy)]
pub struct Filter<Func> {
    /// The predicate each item must meet.
    pub func: Func,
}

impl<Func> Filter<Func> {
    /// A filtering stage from a predicate.
    pub fn new(func: Func) -> (f: Filter<Func>)
        ensures
            f.func == func,
    {
        Filter { func }
    }
}

impl<In, Func> PipelineEntry<In, In> for Filter<Func> where Func: Fn(&In) -> bool {
    open spec fn accepts(&self, x: In) -> bool {
        call_requires(self.func, (&x,))
    }

    open spec fn models(&self, input: Seq<In>, output: Seq<In>) -> bool {
        filter_models(self.func, input, output)
    }

    #[verifier::loop_isolation(false)]
    #[verifier::rlimit(30)]
    fn process(self, tx: &mut Sender<In>, rx: Receiver<In>) {
        let ghost input = rx@;
        let ghost base = tx@;
        let mut items = rx.into_items();
        assert(input.len() <= usize::MAX) by {
            assert(items@.len() == items.len());
        }
        let mut done: usize = 0;
        while items.len() > 0
            invariant
                done + items@.len() == input.len(),
                items@ == input.skip(done as int),
                tx@.len() >= base.len(),
                tx@.take(base.len() as int) == base,
                filter_models(self.func, input.take(done as int), tx@.skip(base.len() as int)),
            decreases items@.len(),
        {
            let x = items.remove(0);
            proof {
                assert(x == input[done as int]);
                assert(call_requires(self.func, (&input[done as int],)));
                assert(items@ =~= input.skip(done as int + 1));
                assert(input.take(done as int + 1).drop_last() =~= input.take(done as int));
                assert(input.take(done as int + 1).last() == x);
            }
            let ghost prev_tx = tx@;
            let keep = (self.func)(&x);
            if keep {
                tx.send(x);
                proof {
                    assert(tx@.take(base.len() as int) =~= prev_tx.take(base.len() as int));
                    assert(tx@.skip(base.len() as int).drop_last() =~= prev_tx.skip(
                        base.len() as int,
                    ));
                    assert(filter_models(
                        self.func,
                        input.take(done as int + 1),
                        tx@.skip(base.len() as int),
                    ));
                }
            } else {
                proof {
                    assert(filter_models(
                        self.func,
                        input.take(done as int + 1),
                        tx@.skip(base.len() as int),
                    ));
                }
            }
            done = done + 1;
        }
        proof {
            assert(input.take(input.len() as int) =~= input);
        }
    }
}

/// How a multiplexed stage relates its output to its input: the input falls
/// into consecutive chunks, one per entry in order, and the output is the
/// concatenation of what each entry produced from its chunk.
pub open spec fn multi_models<In, Out, Entry: PipelineEntry<In, Out>>(
    entries: Seq<Entry>,
    input: Seq<In>,
    output: Seq<Out>,
) -> bool
    decreases entries.len(),
{
    if entries.len() == 0 {
        input.len() == 0 && output.len() == 0
    } else {
        exists|a: int, b: int|
            0 <= a <= input.len() && 0 <= b <= output.len() && #[trigger] entries[0].models(
                input.take(a),
                output.take(b),
            ) && multi_models(entries.skip(1), input.skip(a), output.skip(b))
    }
}

/// A meta pipeline entry that distributes the work of one `PipelineEntry`
/// kind across several copies of it.
#[derive(Debug)]
pub struct Multiplex<Entry> {
    /// The stage copies that share the work.
    pub entries: Vec<Entry>,
}

impl<Entry: Copy> Multiplex<Entry> {
    /// Build a `Multiplex` by copying an existing `PipelineEntry` once per
    /// worker.
    #[verifier::loop_isolation(false)]
    pub fn from(entry: Entry, workers: usize) -> (m: Multiplex<Entry>)
        ensures
            m.entries@.len() == workers,
            forall|g: int| 0 <= g < workers ==> m.entries@[g] == entry,
    {
        let mut entries: Vec<Entry> = Vec::new();
        let mut w: usize = 0;
        while w < workers
            invariant
                w <= workers,
                entries@.len() == w,
                forall|g: int| 0 <= g < w ==> entries@[g] == entry,
            decreases workers - w,
        {
            entries.push(entry);
            w = w + 1;
        }
        Multiplex::new(entries)
    }
}

impl<Entry> Multiplex<Entry> {
    /// A multiplexing stage over the given copies.
    pub fn new(entries: Vec<Entry>) -> (m: Multiplex<Entry>)
        ensures
            m.entries == entries,
    {
        Multiplex { entries }
    }
}

/// Feed consecutive chunks of `items` through the entries in order, sending
/// all results through `tx`. Each entry takes an equal share of what is
/// left, and the last entry takes everything that remains.
#[verifier::loop_isolation(false)]
fn run_multiplex<In, Out, Entry: PipelineEntry<In, Out>>(
    entries: Vec<Entry>,
    tx: &mut Sender<Out>,
    items: Vec<In>,
)
    requires
        entries@.len() == 0 ==> items@.len() == 0,
        forall|i: int, g: int|
            0 <= i < items@.len() && 0 <= g < entries@.len() ==> #[trigger] entries@[g].accepts(
                items@[i],
            ),
    ensures
        final(tx)@.len() >= old(tx)@.len(),
        final(tx)@.take(old(tx)@.len() as int) == old(tx)@,
        multi_models(entries@, items@, final(tx)@.skip(old(tx)@.len() as int)),
    decreases entries@.len(),
{
    let ghost base = tx@;
    let ghost all_entries = entries@;
    let ghost all_items = items@;
    if entries.len() == 0 {
        proof {
            assert(tx@.take(base.len() as int) =~= base);
            assert(tx@.skip(base.len() as int) =~= Seq::<Out>::empty());
        }
        return ;
    }
    let mut entries = entries;
    let entry = entries.remove(0);
    proof {
        assert(entries@ =~= all_entries.skip(1));
    }
    proof {
        vstd::arithmetic::div_mod::lemma_div_pos_is_pos(
            all_items.len() as int,
            entries@.len() as int + 1,
        );
        vstd::arithmetic::div_mod::lemma_div_is_ordered_by_denominator(
            all_items.len() as int,
            1,
            entries@.len() as int + 1,
        );
        vstd::arithmetic::div_mod::lemma_div_basics_1(all_items.len() as int);
    }
    let share = items.len() / (entries.len() + 1);
    let mut items = items;
    let rest = items.split_off(share);
    proof {
        if entries@.len() == 0 {
            assert(rest@.len() == 0);
        }
        assert forall|i: int| 0 <= i < items@.len() implies entry.accepts(#[trigger] items@[i]) by {
            assert(all_entries[0].accepts(all_items[i]));
        }
    }
    entry.process(tx, Receiver::from_vec(items));
    let ghost mid = tx@;
    let ghost out1 = mid.skip(base.len() as int);
    proof {
        assert forall|i: int, g: int|
            0 <= i < rest@.len() && 0 <= g < entries@.len() implies #[trigger] entries@[g].accepts(
            rest@[i],
        ) by {
            assert(rest@[i] == all_items[share + i]);
            assert(all_entries[g + 1].accepts(all_items[share + i]));
        }
    }
    run_multiplex(entries, tx, rest);
    proof {
        let out_all = tx@.skip(base.len() as int);
        let out2 = tx@.skip(mid.len() as int);
        assert(tx@.take(base.len() as int) =~= base);
        assert(out_all.take(out1.len() as int) =~= out1);
        assert(out_all.skip(out1.len() as int) =~= out2);
        assert(all_entries[0].models(
            all_items.take(share as int),
            out_all.take(out1.len() as int),
        ));
        assert(all_items.skip(share as int) =~= rest@);
        assert(multi_models(all_entries.skip(1), all_items.skip(share as int), out_all.skip(
            out1.len() as int,
        )));
        assert(multi_models(all_entries, all_items, out_all));
    }
}

impl<In, Out, Entry> PipelineEntry<In, Out> for Multiplex<Entry> where Entry: PipelineEntry<
    In,
    Out,
> {
    open spec fn accepts(&self, x: In) -> bool {
        self.entries@.len() >= 1 && forall|g: int|
            0 <= g < self.entries@.len() ==> #[trigger] self.entries@[g].accepts(x)
    }

    open spec fn models(&self, input: Seq<In>, output: Seq<Out>) -> bool {
        multi_models(self.entries@, input, output)
    }

    fn process(self, tx: &mut Sender<Out>, rx: Receiver<In>) {
        let ghost me = self;
        let ghost input = rx@;
        let Multiplex { entries } = self;
        let items = rx.into_items();
        proof {
            assert(entries@ == me.entries@);
            if items@.len() > 0 {
                assert(me.accepts(input[0]));
            }
            assert forall|i: int, g: int|
                0 <= i < items@.len() && 0 <= g < entries@.len() implies #[trigger] entries@[g].accepts(
                items@[i],
            ) by {
                assert(me.accepts(input[i]));
            }
        }
        run_multiplex(entries, tx, items);
    }
}

} // verus!
