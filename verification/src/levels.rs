//! The level registry: a map from level name to numeric severity, where a
//! lower number means a higher priority.

use vstd::prelude::*;
use crate::assoc::assoc_find;
use crate::assoc::assoc_find_last;
use crate::assoc::assoc_put;
use crate::assoc::assoc_get;
use crate::assoc::assoc_view;
use crate::assoc::keys_unique;

verus! {

/// The default registry: `error=0, warn=1, info=2, debug=3, trace=4`.
pub open spec fn spec_default_levels() -> Seq<(Seq<char>, u8)> {
    seq![
        ("error"@, 0u8),
        ("warn"@, 1u8),
        ("info"@, 2u8),
        ("debug"@, 3u8),
        ("trace"@, 4u8),
    ]
}

/// A registry of level names and their severities. Its view is an
/// association list with pairwise-distinct keys.
#[derive(Debug)]
pub struct LoggerLevels {
    entries: Vec<(String, u8)>,
}

impl View for LoggerLevels {
    type V = Seq<(Seq<char>, u8)>;

    closed spec fn view(&self) -> Seq<(Seq<char>, u8)> {
        assoc_view(self.entries@)
    }
}

impl Clone for LoggerLevels {
    fn clone(&self) -> (r: Self)
        ensures
            r@ == self@,
    {
        let mut entries: Vec<(String, u8)> = Vec::new();
        let mut i: usize = 0;
        while i < self.entries.len()
            invariant
                i <= self.entries.len(),
                entries@.len() == i,
                forall|j: int|
                    0 <= j < i ==> (#[trigger] entries@[j]).0@ == self.entries@[j].0@
                        && entries@[j].1 == self.entries@[j].1,
            decreases self.entries.len() - i,
        {
            let name = self.entries[i].0.clone();
            let severity = self.entries[i].1;
            entries.push((name, severity));
            i = i + 1;
        }
        let r = LoggerLevels { entries };
        proof {
            assert(r@ =~= self@);
        }
        r
    }
}

impl LoggerLevels {
    /// Build a registry from name/severity pairs; when a name repeats, the
    /// last pair wins.
    #[verifier::loop_isolation(false)]
    pub fn new(levels: Vec<(String, u8)>) -> (r: Self)
        ensures
            keys_unique(r@),
            forall|k: Seq<char>| #![trigger assoc_find(r@, k)]
                assoc_find(r@, k) == assoc_find_last(assoc_view(levels@), k),
    {
        let ghost input = assoc_view(levels@);
        let mut entries: Vec<(String, u8)> = Vec::new();
        let mut i: usize = 0;
        proof {
            assert(assoc_view(entries@) =~= Seq::<(Seq<char>, u8)>::empty());
        }
        while i < levels.len()
            invariant
                i <= levels.len(),
                keys_unique(assoc_view(entries@)),
                forall|k: Seq<char>| #![trigger assoc_find(assoc_view(entries@), k)]
                    assoc_find(assoc_view(entries@), k) == assoc_find_last(
                        input.take(i as int),
                        k,
                    ),
            decreases levels.len() - i,
        {
            let ghost pre = assoc_view(entries@);
            let name = levels[i].0.clone();
            let severity = levels[i].1;
            assoc_put(&mut entries, name, severity);
            proof {
                let taken = input.take(i + 1 as int);
                assert(taken.drop_last() =~= input.take(i as int));
                assert(taken.last() == input[i as int]);
                assert forall|k: Seq<char>| #![trigger assoc_find(assoc_view(entries@), k)]
                    assoc_find(assoc_view(entries@), k) == assoc_find_last(taken, k) by {
                    if k == input[i as int].0 {
                    } else {
                        assert(assoc_find(assoc_view(entries@), k) == assoc_find(pre, k));
                    }
                }
            }
            i = i + 1;
        }
        proof {
            assert(input.take(levels@.len() as int) =~= input);
        }
        LoggerLevels { entries }
    }

    /// The severity of `key`, if the registry holds it.
    pub fn get_severity(&self, key: &str) -> (r: Option<u8>)
        ensures
            r == assoc_find(self@, key@),
    {
        match assoc_get(&self.entries, key) {
            Some(v) => Some(*v),
            None => None,
        }
    }
}

impl Default for LoggerLevels {
    /// The registry with the five default levels.
    fn default() -> (r: Self)
        ensures
            r@ =~= spec_default_levels(),
            keys_unique(r@),
    {
        let entries = default_levels();
        let r = LoggerLevels { entries };
        proof {
            lemma_default_levels_unique();
        }
        r
    }
}

/// The default name/severity pairs, in priority order.
pub fn default_levels() -> (r: Vec<(String, u8)>)
    ensures
        assoc_view(r@) =~= spec_default_levels(),
{
    let mut entries: Vec<(String, u8)> = Vec::new();
    entries.push(("error".to_owned(), 0u8));
    entries.push(("warn".to_owned(), 1u8));
    entries.push(("info".to_owned(), 2u8));
    entries.push(("debug".to_owned(), 3u8));
    entries.push(("trace".to_owned(), 4u8));
    proof {
        assert(assoc_view(entries@) =~= spec_default_levels());
    }
    entries
}

/// The five default level names are pairwise distinct.
pub proof fn lemma_default_levels_unique()
    ensures
        keys_unique(spec_default_levels()),
{
    reveal_strlit("error");
    reveal_strlit("warn");
    reveal_strlit("info");
    reveal_strlit("debug");
    reveal_strlit("trace");
    assert(("error"@).len() == 5);
    assert(("warn"@).len() == 4);
    assert(("info"@).len() == 4);
    assert(("debug"@).len() == 5);
    assert(("trace"@).len() == 5);
    assert(("warn"@)[0] == 'w');
    assert(("info"@)[0] == 'i');
    assert(("error"@)[0] == 'e');
    assert(("debug"@)[0] == 'd');
    assert(("trace"@)[0] == 't');
}

} // verus!
