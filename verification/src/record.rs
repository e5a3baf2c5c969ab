//! Log records: an immutable level / message / metadata triple.

use vstd::prelude::*;
use crate::assoc::assoc_find;
use crate::assoc::assoc_get;
use crate::assoc::assoc_has;
use crate::assoc::assoc_put;
use crate::assoc::assoc_view;
use crate::assoc::keys_unique;

verus! {

/// A metadata value: null, boolean, 64-bit integer, or text.
#[derive(Debug, PartialEq)]
pub enum MetaValue {
    Null,
    Bool(bool),
    Int(i64),
    Str(String),
}

/// The mathematical shape of a [`MetaValue`].
pub enum MetaVal {
    Null,
    Bool(bool),
    Int(i64),
    Str(Seq<char>),
}

impl View for MetaValue {
    type V = MetaVal;

    open spec fn view(&self) -> MetaVal {
        match self {
            MetaValue::Null => MetaVal::Null,
            MetaValue::Bool(b) => MetaVal::Bool(*b),
            MetaValue::Int(n) => MetaVal::Int(*n),
            MetaValue::Str(s) => MetaVal::Str(s@),
        }
    }
}

impl Clone for MetaValue {
    fn clone(&self) -> (r: Self)
        ensures
            r@ == self@,
    {
        match self {
            MetaValue::Null => MetaValue::Null,
            MetaValue::Bool(b) => MetaValue::Bool(*b),
            MetaValue::Int(n) => MetaValue::Int(*n),
            MetaValue::Str(s) => MetaValue::Str(s.clone()),
        }
    }
}

/// The mathematical shape of a [`LogInfo`]: level, message, metadata map.
#[verifier::ext_equal]
pub struct LogInfoV {
    pub level: Seq<char>,
    pub message: Seq<char>,
    pub meta: Seq<(Seq<char>, MetaVal)>,
}

impl LogInfoV {
    /// Metadata keys are pairwise distinct.
    pub open spec fn wf(self) -> bool {
        keys_unique(self.meta)
    }

    /// A record is degenerate when both its message and its metadata are
    /// empty; the pipeline silently drops such records.
    pub open spec fn degenerate(self) -> bool {
        self.message.len() == 0 && self.meta.len() == 0
    }

    /// The metadata value under `k`, if any.
    pub open spec fn find_meta(self, k: Seq<char>) -> Option<MetaVal> {
        assoc_find(self.meta, k)
    }

    /// Whether the metadata holds `k`.
    pub open spec fn has_meta(self, k: Seq<char>) -> bool {
        assoc_has(self.meta, k)
    }
}

/// The views of a sequence of strings.
pub open spec fn strings_view(v: Seq<String>) -> Seq<Seq<char>> {
    Seq::new(v.len(), |i: int| v[i]@)
}

/// The views of a sequence of records.
pub open spec fn entries_view(v: Seq<LogInfo>) -> Seq<LogInfoV> {
    Seq::new(v.len(), |i: int| v[i]@)
}

/// One log record: a short textual level, a message, and a metadata map,
/// kept as an association list with pairwise-distinct keys.
#[derive(Debug, PartialEq)]
pub struct LogInfo {
    pub level: String,
    pub message: String,
    pub meta: Vec<(String, MetaValue)>,
}

impl View for LogInfo {
    type V = LogInfoV;

    open spec fn view(&self) -> LogInfoV {
        LogInfoV { level: self.level@, message: self.message@, meta: assoc_view(self.meta@) }
    }
}

impl Clone for LogInfo {
    fn clone(&self) -> (r: Self)
        ensures
            r@ == self@,
    {
        let mut meta: Vec<(String, MetaValue)> = Vec::new();
        let mut i: usize = 0;
        while i < self.meta.len()
            invariant
                i <= self.meta.len(),
                meta@.len() == i,
                forall|j: int|
                    0 <= j < i ==> (#[trigger] meta@[j]).0@ == self.meta@[j].0@ && meta@[j].1@
                        == self.meta@[j].1@,
            decreases self.meta.len() - i,
        {
            let key = self.meta[i].0.clone();
            let value = self.meta[i].1.clone();
            meta.push((key, value));
            i = i + 1;
        }
        let r = LogInfo { level: self.level.clone(), message: self.message.clone(), meta };
        proof {
            assert(r@.meta =~= self@.meta);
            assert(r@ =~= self@);
        }
        r
    }
}

impl LogInfo {
    /// Build a record with the given level and message and no metadata.
    pub fn new(level: &str, message: &str) -> (r: Self)
        ensures
            r@.level == level@,
            r@.message == message@,
            r@.meta =~= Seq::<(Seq<char>, MetaVal)>::empty(),
            r@.wf(),
    {
        let r = LogInfo { level: level.to_owned(), message: message.to_owned(), meta: Vec::new() };
        proof {
            assert(r@.meta =~= Seq::<(Seq<char>, MetaVal)>::empty());
        }
        r
    }

    /// The metadata value stored under `key`, if any.
    pub fn get_meta(&self, key: &str) -> (r: Option<&MetaValue>)
        ensures
            match r {
                Some(v) => self@.find_meta(key@) == Some(v@),
                None => self@.find_meta(key@) is None,
            },
    {
        assoc_get(&self.meta, key)
    }

    /// Whether the metadata holds `key`.
    pub fn has_meta(&self, key: &str) -> (r: bool)
        ensures
            r == self@.has_meta(key@),
    {
        match self.get_meta(key) {
            Some(_) => true,
            None => false,
        }
    }

    /// True when both the message and the metadata are empty.
    pub fn is_degenerate(&self) -> (r: bool)
        ensures
            r == self@.degenerate(),
    {
        self.message.as_str().is_empty() && self.meta.len() == 0
    }

    /// Add one metadata entry, replacing any entry with the same key.
    pub fn with_meta(self, key: &str, value: MetaValue) -> (r: Self)
        requires
            self@.wf(),
        ensures
            r@.level == self@.level,
            r@.message == self@.message,
            r@.wf(),
            r@.find_meta(key@) == Some(value@),
            forall|k2: Seq<char>| k2 != key@ ==> r@.find_meta(k2) == self@.find_meta(k2),
    {
        let mut meta = self.meta;
        assoc_put(&mut meta, key.to_owned(), value);
        LogInfo { level: self.level, message: self.message, meta }
    }
}

} // verus!
