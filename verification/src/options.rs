//! Configuration: backpressure policy, transport descriptors, handles, and
//! the aggregate logger options.

use vstd::prelude::*;
use crate::levels::LoggerLevels;
use crate::levels::spec_default_levels;

verus! {

/// The format identifier that stands for the default JSON format; the code
/// that drains actions maps identifiers to concrete formats.
pub const JSON_FORMAT: u64 = 0;

/// What to do with a record when the bounded queue is full.
#[derive(Clone, Copy, Debug, PartialEq, Eq, Structural)]
pub enum BackpressureStrategy {
    DropOldest,
    Block,
    DropCurrent,
}

/// An opaque identifier for an attached transport, unique per logger for
/// its whole lifetime.
#[derive(Clone, Copy, Debug, PartialEq, Eq, Hash, Structural)]
pub struct TransportHandle(pub u64);

/// Pairs a transport with an optional level override and an optional
/// format override. The transport itself lives outside the pipeline and is
/// addressed through its handle; this descriptor carries what the filter
/// logic reads.
#[derive(Debug, PartialEq)]
pub struct LoggerTransport {
    pub level: Option<String>,
    pub format: Option<u64>,
}

/// The mathematical shape of a [`LoggerTransport`].
#[verifier::ext_equal]
pub struct TransportV {
    pub level: Option<Seq<char>>,
    pub format: Option<u64>,
}

/// The view of an optional level name.
pub open spec fn view_opt_string(o: Option<String>) -> Option<Seq<char>> {
    match o {
        Some(s) => Some(s@),
        None => None,
    }
}

impl View for LoggerTransport {
    type V = TransportV;

    open spec fn view(&self) -> TransportV {
        TransportV { level: view_opt_string(self.level), format: self.format }
    }
}

impl Clone for LoggerTransport {
    fn clone(&self) -> (r: Self)
        ensures
            r@ == self@,
    {
        let level = match &self.level {
            Some(s) => Some(s.clone()),
            None => None,
        };
        LoggerTransport { level, format: self.format }
    }
}

impl LoggerTransport {
    /// A descriptor with no overrides.
    pub fn new() -> (r: Self)
        ensures
            r@ == (TransportV { level: None, format: None }),
    {
        LoggerTransport { level: None, format: None }
    }

    /// Set a level override for this transport.
    pub fn with_level(self, level: &str) -> (r: Self)
        ensures
            r@.level == Some(level@),
            r@.format == self@.format,
    {
        LoggerTransport { level: Some(level.to_owned()), format: self.format }
    }

    /// Set a format override for this transport.
    pub fn with_format(self, format: u64) -> (r: Self)
        ensures
            r@.level == self@.level,
            r@.format == Some(format),
    {
        LoggerTransport { level: self.level, format: Some(format) }
    }

    /// The level override, if any.
    pub fn get_level(&self) -> (r: Option<&String>)
        ensures
            match r {
                Some(s) => self@.level == Some(s@),
                None => self@.level is None,
            },
    {
        match &self.level {
            Some(s) => Some(s),
            None => None,
        }
    }

    /// The format override, if any.
    pub fn get_format(&self) -> (r: Option<u64>)
        ensures
            r == self@.format,
    {
        self.format
    }
}

/// The view of a transport list.
pub open spec fn transports_view(ts: Seq<(TransportHandle, LoggerTransport)>) -> Seq<
    (TransportHandle, TransportV),
> {
    Seq::new(ts.len(), |i: int| (ts[i].0, ts[i].1@))
}

/// Aggregate configuration. Every field is optional so that a partial
/// update can leave the rest in place. Queue capacity and backpressure
/// policy are read once, when the logger is built.
#[derive(Debug)]
pub struct LoggerOptions {
    pub levels: Option<LoggerLevels>,
    pub format: Option<u64>,
    pub level: Option<String>,
    pub transports: Option<Vec<(TransportHandle, LoggerTransport)>>,
    pub channel_capacity: Option<usize>,
    pub backpressure_strategy: Option<BackpressureStrategy>,
}

/// The mathematical shape of [`LoggerOptions`].
#[verifier::ext_equal]
pub struct LoggerOptionsV {
    pub levels: Option<Seq<(Seq<char>, u8)>>,
    pub format: Option<u64>,
    pub level: Option<Seq<char>>,
    pub transports: Option<Seq<(TransportHandle, TransportV)>>,
    pub channel_capacity: Option<usize>,
    pub backpressure_strategy: Option<BackpressureStrategy>,
}

impl LoggerOptionsV {
    /// The transport list, empty when absent.
    pub open spec fn transport_list(self) -> Seq<(TransportHandle, TransportV)> {
        match self.transports {
            Some(ts) => ts,
            None => Seq::empty(),
        }
    }

    /// The default configuration's view.
    pub open spec fn spec_default() -> LoggerOptionsV {
        LoggerOptionsV {
            levels: Some(spec_default_levels()),
            format: Some(JSON_FORMAT as u64),
            level: Some("info"@),
            transports: Some(Seq::empty()),
            channel_capacity: Some(1024),
            backpressure_strategy: Some(BackpressureStrategy::Block),
        }
    }
}

impl View for LoggerOptions {
    type V = LoggerOptionsV;

    open spec fn view(&self) -> LoggerOptionsV {
        LoggerOptionsV {
            levels: match self.levels {
                Some(ref l) => Some(l@),
                None => None,
            },
            format: self.format,
            level: view_opt_string(self.level),
            transports: match self.transports {
                Some(ref ts) => Some(transports_view(ts@)),
                None => None,
            },
            channel_capacity: self.channel_capacity,
            backpressure_strategy: self.backpressure_strategy,
        }
    }
}

/// Clone a transport list, keeping its view.
pub fn clone_transports(ts: &Vec<(TransportHandle, LoggerTransport)>) -> (r: Vec<
    (TransportHandle, LoggerTransport),
>)
    ensures
        transports_view(r@) == transports_view(ts@),
{
    let mut out: Vec<(TransportHandle, LoggerTransport)> = Vec::new();
    let mut i: usize = 0;
    while i < ts.len()
        invariant
            i <= ts.len(),
            out@.len() == i,
            forall|j: int|
                0 <= j < i ==> (#[trigger] out@[j]).0 == ts@[j].0 && out@[j].1@ == ts@[j].1@,
        decreases ts.len() - i,
    {
        let handle = ts[i].0;
        let descriptor = ts[i].1.clone();
        out.push((handle, descriptor));
        i = i + 1;
    }
    proof {
        assert(transports_view(out@) =~= transports_view(ts@));
    }
    out
}

impl Clone for LoggerOptions {
    fn clone(&self) -> (r: Self)
        ensures
            r@ == self@,
    {
        LoggerOptions {
            levels: match &self.levels {
                Some(l) => Some(l.clone()),
                None => None,
            },
            format: self.format,
            level: match &self.level {
                Some(s) => Some(s.clone()),
                None => None,
            },
            transports: match &self.transports {
                Some(ts) => Some(clone_transports(ts)),
                None => None,
            },
            channel_capacity: self.channel_capacity,
            backpressure_strategy: self.backpressure_strategy,
        }
    }
}

impl Default for LoggerOptions {
    /// The default configuration: the default registry, level `info`, an
    /// empty transport list, the JSON format, capacity 1024, and the
    /// blocking backpressure policy.
    fn default() -> (r: Self)
        ensures
            r@ =~= LoggerOptionsV::spec_default(),
    {
        let r = LoggerOptions {
            levels: Some(LoggerLevels::default()),
            format: Some(JSON_FORMAT),
            level: Some("info".to_owned()),
            transports: Some(Vec::new()),
            channel_capacity: Some(1024),
            backpressure_strategy: Some(BackpressureStrategy::Block),
        };
        proof {
            assert(r@.transports == Some(transports_view(Seq::empty())));
            assert(transports_view(Seq::empty()) =~= Seq::<(TransportHandle, TransportV)>::empty());
        }
        r
    }
}

impl LoggerOptions {
    /// The default configuration; see [`Default::default`].
    pub fn new() -> (r: Self)
        ensures
            r@ =~= LoggerOptionsV::spec_default(),
    {
        Self::default()
    }

    /// Set the global level name.
    pub fn level(self, level: &str) -> (r: Self)
        ensures
            r@ =~= (LoggerOptionsV { level: Some(level@), ..self@ }),
    {
        LoggerOptions { level: Some(level.to_owned()), ..self }
    }

    /// Set the global format.
    pub fn format(self, format: u64) -> (r: Self)
        ensures
            r@ =~= (LoggerOptionsV { format: Some(format), ..self@ }),
    {
        LoggerOptions { format: Some(format), ..self }
    }

    /// Set the registry from name/severity pairs; a repeated name keeps its
    /// last severity.
    pub fn levels(self, levels: Vec<(String, u8)>) -> (r: Self)
        ensures
            r@.levels is Some,
            ({
                let l = r@.levels->Some_0;
                &&& crate::assoc::keys_unique(l)
                &&& forall|k: Seq<char>| #![trigger crate::assoc::assoc_find(l, k)]
                    crate::assoc::assoc_find(l, k) == crate::assoc::assoc_find_last(
                        crate::assoc::assoc_view(levels@),
                        k,
                    )
            }),
            r@.format == self@.format,
            r@.level == self@.level,
            r@.transports == self@.transports,
            r@.channel_capacity == self@.channel_capacity,
            r@.backpressure_strategy == self@.backpressure_strategy,
    {
        LoggerOptions { levels: Some(LoggerLevels::new(levels)), ..self }
    }

    /// Append one transport descriptor. The handle stored here is a
    /// placeholder numbered from zero; the logger assigns fresh handles
    /// when it adopts the list.
    pub fn transport(self, transport: LoggerTransport) -> (r: Self)
        ensures
            r@.transports is Some,
            r@.transports->Some_0 =~= self@.transport_list().push(
                (TransportHandle(self@.transport_list().len() as u64), transport@),
            ),
            r@.levels == self@.levels,
            r@.format == self@.format,
            r@.level == self@.level,
            r@.channel_capacity == self@.channel_capacity,
            r@.backpressure_strategy == self@.backpressure_strategy,
    {
        let mut ts = match self.transports {
            Some(ts) => ts,
            None => Vec::new(),
        };
        proof {
            assert(transports_view(ts@) =~= self@.transport_list());
        }
        let handle = TransportHandle(ts.len() as u64);
        ts.push((handle, transport));
        let r = LoggerOptions { transports: Some(ts), ..self };
        proof {
            assert(r@.transports->Some_0 =~= self@.transport_list().push(
                (handle, transport@),
            ));
        }
        r
    }

    /// Replace the transport list with the given descriptors, numbered from
    /// zero.
    pub fn transports(self, transports: Vec<LoggerTransport>) -> (r: Self)
        ensures
            r@.transports is Some,
            r@.transports->Some_0 =~= Seq::new(
                transports@.len(),
                |i: int| (TransportHandle(i as u64), transports@[i]@),
            ),
            r@.levels == self@.levels,
            r@.format == self@.format,
            r@.level == self@.level,
            r@.channel_capacity == self@.channel_capacity,
            r@.backpressure_strategy == self@.backpressure_strategy,
    {
        let mut ts: Vec<(TransportHandle, LoggerTransport)> = Vec::new();
        let mut i: usize = 0;
        while i < transports.len()
            invariant
                i <= transports.len(),
                ts@.len() == i,
                forall|j: int|
                    0 <= j < i ==> (#[trigger] ts@[j]).0 == TransportHandle(j as u64) && ts@[j].1@
                        == transports@[j]@,
            decreases transports.len() - i,
        {
            let t = transports[i].clone();
            let handle = TransportHandle(i as u64);
            ts.push((handle, t));
            i = i + 1;
        }
        let r = LoggerOptions { transports: Some(ts), ..self };
        proof {
            assert(r@.transports->Some_0 =~= Seq::new(
                transports@.len(),
                |j: int| (TransportHandle(j as u64), transports@[j]@),
            ));
        }
        r
    }

    /// Set the queue capacity; read once when the logger is built.
    pub fn channel_capacity(self, capacity: usize) -> (r: Self)
        ensures
            r@ =~= (LoggerOptionsV { channel_capacity: Some(capacity), ..self@ }),
    {
        LoggerOptions { channel_capacity: Some(capacity), ..self }
    }

    /// Set the backpressure policy; read once when the logger is built.
    pub fn backpressure_strategy(self, strategy: BackpressureStrategy) -> (r: Self)
        ensures
            r@ =~= (LoggerOptionsV { backpressure_strategy: Some(strategy), ..self@ }),
    {
        LoggerOptions { backpressure_strategy: Some(strategy), ..self }
    }
}

} // verus!
