//! Endpoints that pipeline stages use to exchange items. A `Sender` batches
//! outgoing items in a buffer and moves the buffer into its delivered output
//! whenever the batch size is reached or on an explicit flush; a `Receiver`
//! hands items out in arrival order. The stages of a pipeline run one after
//! the other, so delivery is a plain move rather than a channel.

use vstd::prelude::*;

verus! {

/// Buffer tuning for the pipeline: how many items a sender batches before
/// delivering them, and the capacity hint for its buffers.
///
/// Each stage inherits the configuration of the stage before it, so a
/// configuration applies to the stages that follow it, not to earlier ones.
#[derive(Debug, Copy, Clone)]
pub struct PipelineConfig {
    /// Capacity hint for the buffers between stages.
    pub buff_size: usize,
    /// How many items a sender accumulates before delivering the batch.
    pub batch_size: usize,
}

impl PipelineConfig {
    /// Set the buffer capacity hint.
    pub fn buff_size(self, buff_size: usize) -> (c: PipelineConfig)
        ensures
            c.buff_size == buff_size,
            c.batch_size == self.batch_size,
    {
        PipelineConfig { buff_size, ..self }
    }

    /// Set the size of each delivered batch.
    pub fn batch_size(self, batch_size: usize) -> (c: PipelineConfig)
        ensures
            c.batch_size == batch_size,
            c.buff_size == self.buff_size,
    {
        PipelineConfig { batch_size, ..self }
    }
}

impl Default for PipelineConfig {
    /// Ten items per batch, buffers sized for ten items.
    fn default() -> (c: PipelineConfig)
        ensures
            c.buff_size == 10,
            c.batch_size == 10,
    {
        PipelineConfig { buff_size: 10, batch_size: 10 }
    }
}

/// Where a pipeline stage puts its results. The view is everything sent so
/// far, in order, whether still buffered or already delivered.
#[derive(Debug)]
pub struct Sender<Out> {
    delivered: Vec<Out>,
    buffer: Vec<Out>,
    config: PipelineConfig,
}

impl<Out> View for Sender<Out> {
    type V = Seq<Out>;

    closed spec fn view(&self) -> Seq<Out> {
        self.delivered@ + self.buffer@
    }
}

impl<Out> Sender<Out> {
    /// How many sent items still sit in the batch buffer.
    pub closed spec fn pending(&self) -> nat {
        self.buffer@.len()
    }

    /// An empty sender with the given batching configuration.
    pub fn new(config: PipelineConfig) -> (s: Sender<Out>)
        ensures
            s@ == Seq::<Out>::empty(),
    {
        let s = Sender { delivered: Vec::new(), buffer: Vec::new(), config };
        proof {
            assert(s@ =~= Seq::<Out>::empty());
        }
        s
    }

    /// Transmit a value to the next stage in the pipeline.
    pub fn send(&mut self, out: Out)
        ensures
            final(self)@ == old(self)@.push(out),
    {
        self.buffer.push(out);
        proof {
            assert(self@ =~= old(self)@.push(out));
        }
        if self.buffer.len() >= self.config.batch_size {
            self.flush();
        }
    }

    /// Move any unsent data from the batch buffer into the delivered output.
    pub fn flush(&mut self)
        ensures
            final(self)@ == old(self)@,
            final(self).pending() == 0,
    {
        self.delivered.append(&mut self.buffer);
        proof {
            assert(self@ =~= old(self)@);
        }
    }

    /// Everything this sender was given, in sending order.
    pub fn into_items(self) -> (items: Vec<Out>)
        ensures
            items@ == self@,
    {
        let Sender { mut delivered, mut buffer, config } = self;
        delivered.append(&mut buffer);
        delivered
    }
}

/// Where a pipeline stage takes its incoming items from. The view is the
/// items not yet received, in arrival order.
#[derive(Debug)]
pub struct Receiver<In> {
    items: Vec<In>,
}

impl<In> View for Receiver<In> {
    type V = Seq<In>;

    closed spec fn view(&self) -> Seq<In> {
        self.items@
    }
}

impl<In> Receiver<In> {
    /// A receiver that will hand out the given items in order.
    pub fn from_vec(items: Vec<In>) -> (r: Receiver<In>)
        ensures
            r@ == items@,
    {
        Receiver { items }
    }

    /// Get an item from the previous stage; `None` once all data has been
    /// received.
    pub fn recv(&mut self) -> (received: Option<In>)
        ensures
            match received {
                Some(v) => old(self)@.len() > 0 && v == old(self)@[0] && final(self)@ == old(
                    self,
                )@.skip(1),
                None => old(self)@.len() == 0 && final(self)@ == old(self)@,
            },
    {
        if self.items.len() > 0 {
            let v = self.items.remove(0);
            proof {
                assert(self@ =~= old(self)@.skip(1));
            }
            Some(v)
        } else {
            None
        }
    }

    /// The items still to be received, in order.
    pub fn into_items(self) -> (items: Vec<In>)
        ensures
            items@ == self@,
    {
        let Receiver { items } = self;
        items
    }
}

/// A receiver that many workers of one stage share; the sequential pipeline
/// runs one worker at a time, so no lock is needed around the inner receiver.
#[derive(Debug)]
pub struct LockedReceiver<T> {
    inner: Receiver<T>,
}

impl<T> View for LockedReceiver<T> {
    type V = Seq<T>;

    closed spec fn view(&self) -> Seq<T> {
        self.inner@
    }
}

impl<T> LockedReceiver<T> {
    /// Wrap a receiver for shared use.
    pub fn new(recv: Receiver<T>) -> (r: LockedReceiver<T>)
        ensures
            r@ == recv@,
    {
        LockedReceiver { inner: recv }
    }

    /// Get the next item; `None` once all data has been received.
    pub fn next(&mut self) -> (received: Option<T>)
        ensures
            match received {
                Some(v) => old(self)@.len() > 0 && v == old(self)@[0] && final(self)@ == old(
                    self,
                )@.skip(1),
                None => old(self)@.len() == 0 && final(self)@ == old(self)@,
            },
    {
        self.inner.recv()
    }
}

} // verus!
