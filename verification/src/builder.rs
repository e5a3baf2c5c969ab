//! A fluent builder over [`LoggerOptions`], ending in a [`Logger`].

use vstd::prelude::*;
use crate::logger::Logger;
use crate::logger::opts_view;
use crate::logger::spec_new;
use crate::options::BackpressureStrategy;
use crate::options::LoggerOptions;
use crate::options::LoggerOptionsV;
use crate::options::LoggerTransport;
use crate::options::TransportHandle;
use crate::record::strings_view;

verus! {

/// Accumulates options and builds the logger.
#[derive(Debug)]
pub struct LoggerBuilder {
    options: LoggerOptions,
}

impl View for LoggerBuilder {
    type V = LoggerOptionsV;

    closed spec fn view(&self) -> LoggerOptionsV {
        self.options@
    }
}

impl LoggerBuilder {
    /// Start from the default options.
    pub fn new() -> (r: Self)
        ensures
            r@ =~= LoggerOptionsV::spec_default(),
    {
        LoggerBuilder { options: LoggerOptions::default() }
    }

    /// Set the global level name.
    pub fn level(self, level: &str) -> (r: Self)
        ensures
            r@ =~= (LoggerOptionsV { level: Some(level@), ..self@ }),
    {
        LoggerBuilder { options: self.options.level(level) }
    }

    /// Set the global format.
    pub fn format(self, format: u64) -> (r: Self)
        ensures
            r@ =~= (LoggerOptionsV { format: Some(format), ..self@ }),
    {
        LoggerBuilder { options: self.options.format(format) }
    }

    /// Append one transport descriptor.
    pub fn add_transport(self, transport: LoggerTransport) -> (r: Self)
        ensures
            r@.transports is Some,
            r@.transports->Some_0 =~= self@.transport_list().push(
                (TransportHandle(self@.transport_list().len() as u64), transport@),
            ),
            r@.levels == self@.levels,
            r@.format == self@.format,
            r@.level == self@.level,
            r@.channel_capacity == self@.channel_capacity,
            r@.backpressure_strategy == self@.backpressure_strategy,
    {
        LoggerBuilder { options: self.options.transport(transport) }
    }

    /// Replace the transport list.
    pub fn transports(self, transports: Vec<LoggerTransport>) -> (r: Self)
        ensures
            r@.transports is Some,
            r@.transports->Some_0 =~= Seq::new(
                transports@.len(),
                |i: int| (TransportHandle(i as u64), transports@[i]@),
            ),
            r@.levels == self@.levels,
            r@.format == self@.format,
            r@.level == self@.level,
            r@.channel_capacity == self@.channel_capacity,
            r@.backpressure_strategy == self@.backpressure_strategy,
    {
        LoggerBuilder { options: self.options.transports(transports) }
    }

    /// Set the registry from name/severity pairs.
    pub fn levels(self, levels: Vec<(String, u8)>) -> (r: Self)
        ensures
            r@.levels is Some,
            ({
                let l = r@.levels->Some_0;
                &&& crate::assoc::keys_unique(l)
                &&& forall|k: Seq<char>| #![trigger crate::assoc::assoc_find(l, k)]
                    crate::assoc::assoc_find(l, k) == crate::assoc::assoc_find_last(
                        crate::assoc::assoc_view(levels@),
                        k,
                    )
            }),
            r@.format == self@.format,
            r@.level == self@.level,
            r@.transports == self@.transports,
            r@.channel_capacity == self@.channel_capacity,
            r@.backpressure_strategy == self@.backpressure_strategy,
    {
        LoggerBuilder { options: self.options.levels(levels) }
    }

    /// Set the queue capacity.
    pub fn channel_capacity(self, capacity: usize) -> (r: Self)
        ensures
            r@ =~= (LoggerOptionsV { channel_capacity: Some(capacity), ..self@ }),
    {
        LoggerBuilder { options: self.options.channel_capacity(capacity) }
    }

    /// Set the backpressure policy.
    pub fn backpressure_strategy(self, strategy: BackpressureStrategy) -> (r: Self)
        ensures
            r@ =~= (LoggerOptionsV { backpressure_strategy: Some(strategy), ..self@ }),
    {
        LoggerBuilder { options: self.options.backpressure_strategy(strategy) }
    }

    /// Build the logger from the accumulated options.
    pub fn build(self) -> (r: Logger)
        ensures
            r@ == spec_new(Some(self@)),
            r@.wf(),
    {
        Logger::new(Some(self.options))
    }
}

} // verus!
