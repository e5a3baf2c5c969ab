//! The query engine: filtering, ordering, pagination and projection of
//! log records, over the pre-transport buffer and transport-side results.

use vstd::prelude::*;
use vstd::string::StringSliceAdditionalSpecFns;
use vstd::multiset::Multiset;
use vstd::utf8::encode_utf8;
use crate::record::LogInfo;
use crate::record::LogInfoV;
use crate::record::MetaVal;
use crate::record::entries_view;
use crate::record::strings_view;
use crate::text::lower_bytes;
use crate::text::eq_ignore_ascii_case;
use crate::text::spec_contains_bytes;
use crate::text::str_contains;
use crate::time::entry_timestamp;
use crate::time::spec_entry_timestamp;
use crate::time::ts_le;
use crate::time::ts_le_exec;

verus! {

/// The direction of the timestamp ordering of query results.
#[derive(Clone, Copy, Debug, PartialEq, Eq, Structural)]
pub enum Order {
    Ascending,
    Descending,
}

/// A query over stored records: timestamp window, pagination, ordering,
/// level allow-list, field projection, and substring search.
#[derive(Debug)]
pub struct LogQuery {
    pub from: Option<i64>,
    pub until: Option<i64>,
    pub limit: Option<usize>,
    pub start: Option<usize>,
    pub order: Order,
    pub levels: Vec<String>,
    pub fields: Vec<String>,
    pub search_term: Option<String>,
}

/// The mathematical shape of a [`LogQuery`].
#[verifier::ext_equal]
pub struct LogQueryV {
    pub from: Option<i64>,
    pub until: Option<i64>,
    pub limit: Option<usize>,
    pub start: Option<usize>,
    pub order: Order,
    pub levels: Seq<Seq<char>>,
    pub fields: Seq<Seq<char>>,
    pub search_term: Option<Seq<char>>,
}

impl View for LogQuery {
    type V = LogQueryV;

    open spec fn view(&self) -> LogQueryV {
        LogQueryV {
            from: self.from,
            until: self.until,
            limit: self.limit,
            start: self.start,
            order: self.order,
            levels: strings_view(self.levels@),
            fields: strings_view(self.fields@),
            search_term: crate::options::view_opt_string(self.search_term),
        }
    }
}

impl LogQuery {
    /// The query that matches every record: no window, no limit, no
    /// allow-list, descending order.
    pub fn new() -> (r: Self)
        ensures
            r@ =~= (LogQueryV {
                from: None,
                until: None,
                limit: None,
                start: None,
                order: Order::Descending,
                levels: Seq::empty(),
                fields: Seq::empty(),
                search_term: None,
            }),
    {
        LogQuery {
            from: None,
            until: None,
            limit: None,
            start: None,
            order: Order::Descending,
            levels: Vec::new(),
            fields: Vec::new(),
            search_term: None,
        }
    }

    /// Keep only records no older than this instant, in microseconds since
    /// the Unix epoch.
    pub fn from(self, from: i64) -> (r: Self)
        ensures
            r@ =~= (LogQueryV { from: Some(from), ..self@ }),
    {
        LogQuery { from: Some(from), ..self }
    }

    /// Keep only records no newer than this instant.
    pub fn until(self, until: i64) -> (r: Self)
        ensures
            r@ =~= (LogQueryV { until: Some(until), ..self@ }),
    {
        LogQuery { until: Some(until), ..self }
    }

    /// Return at most this many records.
    pub fn limit(self, limit: usize) -> (r: Self)
        ensures
            r@ =~= (LogQueryV { limit: Some(limit), ..self@ }),
    {
        LogQuery { limit: Some(limit), ..self }
    }

    /// Skip this many records first.
    pub fn start(self, start: usize) -> (r: Self)
        ensures
            r@ =~= (LogQueryV { start: Some(start), ..self@ }),
    {
        LogQuery { start: Some(start), ..self }
    }

    /// Set the ordering direction.
    pub fn order(self, order: Order) -> (r: Self)
        ensures
            r@ =~= (LogQueryV { order, ..self@ }),
    {
        LogQuery { order, ..self }
    }

    /// Set the level allow-list.
    pub fn levels(self, levels: Vec<String>) -> (r: Self)
        ensures
            r@ =~= (LogQueryV { levels: strings_view(levels@), ..self@ }),
    {
        LogQuery { levels, ..self }
    }

    /// Set the projection field list.
    pub fn fields(self, fields: Vec<String>) -> (r: Self)
        ensures
            r@ =~= (LogQueryV { fields: strings_view(fields@), ..self@ }),
    {
        LogQuery { fields, ..self }
    }

    /// Keep only records whose message contains this text.
    pub fn search_term(self, term: &str) -> (r: Self)
        ensures
            r@ =~= (LogQueryV { search_term: Some(term@), ..self@ }),
    {
        LogQuery { search_term: Some(term.to_owned()), ..self }
    }

    /// Whether a record satisfies this query's filter.
    pub fn matches(&self, entry: &LogInfo) -> (r: bool)
        ensures
            r == spec_matches(self@, entry@),
    {
        if self.levels.len() > 0 {
            if !seq_contains_string(&self.levels, &entry.level) {
                return false;
            }
        }
        let ts = entry_timestamp(entry);
        match self.from {
            Some(f) => {
                match ts {
                    Some(t) => {
                        if t < f {
                            return false;
                        }
                    },
                    None => {
                        return false;
                    },
                }
            },
            None => {},
        }
        match self.until {
            Some(u) => {
                match ts {
                    Some(t) => {
                        if t > u {
                            return false;
                        }
                    },
                    None => {
                        return false;
                    },
                }
            },
            None => {},
        }
        match &self.search_term {
            Some(term) => {
                if !str_contains(entry.message.as_str(), term.as_str()) {
                    return false;
                }
            },
            None => {},
        }
        let mut i: usize = 0;
        while i < self.fields.len()
            invariant
                i <= self.fields.len(),
                forall|j: int| 0 <= j < i ==> entry@.has_meta(#[trigger] self@.fields[j]),
            decreases self.fields.len() - i,
        {
            if !entry.has_meta(self.fields[i].as_str()) {
                proof {
                    assert(0 <= i < self@.fields.len() && !entry@.has_meta(
                        self@.fields[i as int],
                    ));
                }
                return false;
            }
            i = i + 1;
        }
        true
    }
}

/// Whether a record satisfies a query's filter: its level is on the
/// allow-list when one is set; its timestamp lies in the window when one
/// is set (a record without a timestamp fails a set bound); its message
/// contains the search term when one is set; and it carries every
/// projection field as a metadata key.
pub open spec fn spec_matches(q: LogQueryV, e: LogInfoV) -> bool {
    &&& (q.levels.len() > 0 ==> q.levels.contains(e.level))
    &&& (q.from is Some ==> spec_entry_timestamp(e) is Some && q.from->Some_0
        <= spec_entry_timestamp(e)->Some_0)
    &&& (q.until is Some ==> spec_entry_timestamp(e) is Some && spec_entry_timestamp(e)->Some_0
        <= q.until->Some_0)
    &&& (q.search_term is Some ==> spec_contains_bytes(
        encode_utf8(e.message),
        encode_utf8(q.search_term->Some_0),
    ))
    &&& (forall|i: int| 0 <= i < q.fields.len() ==> e.has_meta(#[trigger] q.fields[i]))
}

/// Whether one of the strings is `s`.
fn seq_contains_string(v: &Vec<String>, s: &String) -> (r: bool)
    ensures
        r == strings_view(v@).contains(s@),
{
    let mut i: usize = 0;
    while i < v.len()
        invariant
            i <= v.len(),
            forall|j: int| 0 <= j < i ==> strings_view(v@)[j] != s@,
        decreases v.len() - i,
    {
        if v[i] == *s {
            proof {
                assert(strings_view(v@)[i as int] == s@);
            }
            return true;
        }
        i = i + 1;
    }
    proof {
        assert(!strings_view(v@).contains(s@));
    }
    false
}

/// Equality of two names up to ASCII case.
pub open spec fn ci_eq(a: Seq<char>, b: Seq<char>) -> bool {
    lower_bytes(encode_utf8(a)) == lower_bytes(encode_utf8(b))
}

/// Whether the field list holds `name`, compared ignoring ASCII case.
pub open spec fn contains_ci(fields: Seq<Seq<char>>, name: Seq<char>) -> bool {
    exists|i: int| 0 <= i < fields.len() && #[trigger] ci_eq(fields[i], name)
}

/// Whether the field list holds `name`, ignoring ASCII case.
fn fields_contain_ci(fields: &Vec<String>, name: &str) -> (r: bool)
    ensures
        r == contains_ci(strings_view(fields@), name@),
{
    let mut i: usize = 0;
    while i < fields.len()
        invariant
            i <= fields.len(),
            forall|j: int| 0 <= j < i ==> !ci_eq(#[trigger] strings_view(fields@)[j], name@),
        decreases fields.len() - i,
    {
        if eq_ignore_ascii_case(fields[i].as_str(), name) {
            proof {
                assert(ci_eq(strings_view(fields@)[i as int], name@));
            }
            return true;
        }
        i = i + 1;
    }
    false
}

/// The metadata entries whose keys the field list names, ignoring case.
pub open spec fn spec_filter_meta(
    m: Seq<(Seq<char>, MetaVal)>,
    fields: Seq<Seq<char>>,
) -> Seq<(Seq<char>, MetaVal)>
    decreases m.len(),
{
    if m.len() == 0 {
        Seq::empty()
    } else {
        let rest = spec_filter_meta(m.drop_last(), fields);
        if contains_ci(fields, m.last().0) {
            rest.push(m.last())
        } else {
            rest
        }
    }
}

/// A record reduced to the listed fields: when the list is non-empty, the
/// level and message are kept only when listed, and the metadata is
/// restricted to the listed keys, all compared ignoring ASCII case.
pub open spec fn spec_project(q: LogQueryV, e: LogInfoV) -> LogInfoV {
    if q.fields.len() == 0 {
        e
    } else {
        LogInfoV {
            level: if contains_ci(q.fields, "level"@) {
                e.level
            } else {
                Seq::empty()
            },
            message: if contains_ci(q.fields, "message"@) {
                e.message
            } else {
                Seq::empty()
            },
            meta: spec_filter_meta(e.meta, q.fields),
        }
    }
}

/// Reduce a record to the listed fields; see [`spec_project`].
#[verifier::loop_isolation(false)]
pub fn project_entry(q: &LogQuery, e: &LogInfo) -> (r: LogInfo)
    ensures
        r@ == spec_project(q@, e@),
{
    if q.fields.len() == 0 {
        return e.clone();
    }
    let level = if fields_contain_ci(&q.fields, "level") {
        e.level.clone()
    } else {
        String::new()
    };
    let message = if fields_contain_ci(&q.fields, "message") {
        e.message.clone()
    } else {
        String::new()
    };
    let mut meta: Vec<(String, crate::record::MetaValue)> = Vec::new();
    let mut i: usize = 0;
    proof {
        assert(e@.meta.subrange(0, 0) =~= Seq::<(Seq<char>, MetaVal)>::empty());
    }
    while i < e.meta.len()
        invariant
            i <= e.meta.len(),
            crate::assoc::assoc_view(meta@) == spec_filter_meta(
                e@.meta.subrange(0, i as int),
                q@.fields,
            ),
        decreases e.meta.len() - i,
    {
        let ghost pre = e@.meta.subrange(0, i as int);
        proof {
            assert(e@.meta.subrange(0, i + 1 as int).drop_last() =~= pre);
            assert(e@.meta.subrange(0, i + 1 as int).last() == e@.meta[i as int]);
        }
        if fields_contain_ci(&q.fields, e.meta[i].0.as_str()) {
            let key = e.meta[i].0.clone();
            let value = e.meta[i].1.clone();
            meta.push((key, value));
            proof {
                assert(crate::assoc::assoc_view(meta@) =~= spec_filter_meta(pre, q@.fields).push(
                    e@.meta[i as int],
                ));
            }
        }
        i = i + 1;
    }
    proof {
        assert(e@.meta.subrange(0, e@.meta.len() as int) =~= e@.meta);
    }
    let r = LogInfo { level, message, meta };
    proof {
        assert(r@ =~= spec_project(q@, e@));
    }
    r
}

/// The ordering key relation on records: by timestamp, records without a
/// timestamp first, reversed under descending order.
pub open spec fn key_le(a: LogInfoV, b: LogInfoV, order: Order) -> bool {
    match order {
        Order::Ascending => ts_le(spec_entry_timestamp(a), spec_entry_timestamp(b)),
        Order::Descending => ts_le(spec_entry_timestamp(b), spec_entry_timestamp(a)),
    }
}

/// Insert a record behind every already-placed record that may stay before
/// it: the insertion step of a stable insertion sort.
pub open spec fn spec_insert_by_ts(s: Seq<LogInfoV>, e: LogInfoV, order: Order) -> Seq<LogInfoV>
    decreases s.len(),
{
    if s.len() == 0 {
        seq![e]
    } else if key_le(s.last(), e, order) {
        s.push(e)
    } else {
        spec_insert_by_ts(s.drop_last(), e, order).push(s.last())
    }
}

/// Stable insertion sort of records by timestamp.
pub open spec fn spec_sort_by_ts(s: Seq<LogInfoV>, order: Order) -> Seq<LogInfoV>
    decreases s.len(),
{
    if s.len() == 0 {
        Seq::empty()
    } else {
        spec_insert_by_ts(spec_sort_by_ts(s.drop_last(), order), s.last(), order)
    }
}

/// Inserting grows the length by one.
proof fn lemma_insert_len(s: Seq<LogInfoV>, e: LogInfoV, order: Order)
    ensures
        spec_insert_by_ts(s, e, order).len() == s.len() + 1,
    decreases s.len(),
{
    if s.len() == 0 {
    } else if key_le(s.last(), e, order) {
    } else {
        lemma_insert_len(s.drop_last(), e, order);
    }
}

/// Sorting keeps the length.
pub proof fn lemma_sort_len(s: Seq<LogInfoV>, order: Order)
    ensures
        spec_sort_by_ts(s, order).len() == s.len(),
    decreases s.len(),
{
    if s.len() == 0 {
    } else {
        lemma_sort_len(s.drop_last(), order);
        lemma_insert_len(spec_sort_by_ts(s.drop_last(), order), s.last(), order);
    }
}

/// Whether the records appear in key order.
pub open spec fn sorted_by_ts(s: Seq<LogInfoV>, order: Order) -> bool {
    forall|i: int, j: int| 0 <= i < j < s.len() ==> key_le(#[trigger] s[i], #[trigger] s[j], order)
}

/// Inserting below a common bound keeps the bound.
proof fn lemma_insert_keeps_bound(s: Seq<LogInfoV>, e: LogInfoV, order: Order, b: LogInfoV)
    requires
        forall|i: int| 0 <= i < s.len() ==> key_le(#[trigger] s[i], b, order),
        key_le(e, b, order),
    ensures
        forall|i: int|
            0 <= i < spec_insert_by_ts(s, e, order).len() ==> key_le(
                #[trigger] spec_insert_by_ts(s, e, order)[i],
                b,
                order,
            ),
    decreases s.len(),
{
    if s.len() == 0 {
        assert(spec_insert_by_ts(s, e, order) =~= seq![e]);
        assert(seq![e][0] == e);
    } else if key_le(s.last(), e, order) {
        let p = s.push(e);
        assert forall|i: int| 0 <= i < p.len() implies key_le(#[trigger] p[i], b, order) by {
            if i < s.len() {
                assert(p[i] == s[i]);
            } else {
                assert(p[i] == e);
            }
        }
    } else {
        assert(forall|i: int| 0 <= i < s.len() - 1 ==> s.drop_last()[i] == s[i]);
        lemma_insert_keeps_bound(s.drop_last(), e, order, b);
        let q = spec_insert_by_ts(s.drop_last(), e, order);
        let r = q.push(s.last());
        assert(spec_insert_by_ts(s, e, order) == r);
        assert forall|i: int| 0 <= i < r.len() implies key_le(#[trigger] r[i], b, order) by {
            if i < r.len() - 1 {
                assert(r[i] == q[i]);
            } else {
                assert(r[i] == s.last());
                assert(key_le(s[s.len() - 1], b, order));
            }
        }
    }
}

/// Inserting into a sorted sequence keeps it sorted.
proof fn lemma_insert_sorted(s: Seq<LogInfoV>, e: LogInfoV, order: Order)
    requires
        sorted_by_ts(s, order),
    ensures
        sorted_by_ts(spec_insert_by_ts(s, e, order), order),
    decreases s.len(),
{
    if s.len() == 0 {
    } else if key_le(s.last(), e, order) {
        let p = s.push(e);
        assert forall|i: int, j: int| 0 <= i < j < p.len() implies key_le(
            #[trigger] p[i],
            #[trigger] p[j],
            order,
        ) by {
            if j == p.len() - 1 {
                if i < s.len() - 1 {
                    assert(key_le(s[i], s[s.len() - 1], order));
                }
            }
        }
    } else {
        let d = s.drop_last();
        assert(sorted_by_ts(d, order)) by {
            assert(forall|i: int| 0 <= i < d.len() ==> d[i] == s[i]);
        }
        lemma_insert_sorted(d, e, order);
        assert(key_le(e, s.last(), order));
        assert(forall|i: int| 0 <= i < d.len() ==> key_le(#[trigger] d[i], s.last(), order));
        lemma_insert_keeps_bound(d, e, order, s.last());
        let r = spec_insert_by_ts(d, e, order).push(s.last());
        assert forall|i: int, j: int| 0 <= i < j < r.len() implies key_le(
            #[trigger] r[i],
            #[trigger] r[j],
            order,
        ) by {
            if j < r.len() - 1 {
                assert(key_le(spec_insert_by_ts(d, e, order)[i], spec_insert_by_ts(
                    d,
                    e,
                    order,
                )[j], order));
            }
        }
    }
}

/// The query sort leaves the records in key order.
pub proof fn lemma_sort_sorted(s: Seq<LogInfoV>, order: Order)
    ensures
        sorted_by_ts(spec_sort_by_ts(s, order), order),
    decreases s.len(),
{
    if s.len() == 0 {
    } else {
        lemma_sort_sorted(s.drop_last(), order);
        lemma_insert_sorted(spec_sort_by_ts(s.drop_last(), order), s.last(), order);
    }
}

/// The query sort keeps exactly the given records.
pub proof fn lemma_sort_permutes(s: Seq<LogInfoV>, order: Order)
    ensures
        spec_sort_by_ts(s, order).to_multiset() == s.to_multiset(),
    decreases s.len(),
{
    broadcast use vstd::seq_lib::group_to_multiset_ensures;

    if s.len() == 0 {
    } else {
        lemma_sort_permutes(s.drop_last(), order);
        lemma_insert_multiset(spec_sort_by_ts(s.drop_last(), order), s.last(), order);
        assert(s.drop_last().push(s.last()) =~= s);
    }
}

/// Inserting adds exactly the new record to the contents.
proof fn lemma_insert_multiset(s: Seq<LogInfoV>, e: LogInfoV, order: Order)
    ensures
        spec_insert_by_ts(s, e, order).to_multiset() == s.to_multiset().insert(e),
    decreases s.len(),
{
    broadcast use vstd::seq_lib::group_to_multiset_ensures;

    if s.len() == 0 {
        assert(seq![e] =~= Seq::<LogInfoV>::empty().push(e));
        assert(Seq::<LogInfoV>::empty().to_multiset() =~= Multiset::<LogInfoV>::empty());
    } else if key_le(s.last(), e, order) {
    } else {
        lemma_insert_multiset(s.drop_last(), e, order);
        assert(s.drop_last().push(s.last()) =~= s);
        assert(spec_insert_by_ts(s.drop_last(), e, order).push(s.last()).to_multiset()
            =~= s.to_multiset().insert(e)) by {
            assert(s.drop_last().to_multiset().insert(e).insert(s.last()) =~= s.drop_last()
                .to_multiset().insert(s.last()).insert(e));
        }
    }
}

/// Inserting lands exactly before the run of keys greater than the new one.
proof fn lemma_insert_at(s: Seq<LogInfoV>, e: LogInfoV, order: Order, j: int)
    requires
        0 <= j <= s.len(),
        j > 0 ==> key_le(s[j - 1], e, order),
        forall|w: int| j <= w < s.len() ==> !key_le(#[trigger] s[w], e, order),
    ensures
        spec_insert_by_ts(s, e, order) == s.subrange(0, j) + seq![e] + s.subrange(
            j,
            s.len() as int,
        ),
    decreases s.len(),
{
    if s.len() == 0 {
        assert(spec_insert_by_ts(s, e, order) =~= s.subrange(0, j) + seq![e] + s.subrange(
            j,
            s.len() as int,
        ));
    } else if j == s.len() {
        assert(key_le(s.last(), e, order));
        assert(spec_insert_by_ts(s, e, order) =~= s.subrange(0, j) + seq![e] + s.subrange(
            j,
            s.len() as int,
        ));
    } else {
        assert(!key_le(s.last(), e, order));
        let d = s.drop_last();
        assert(forall|w: int| j <= w < d.len() ==> !key_le(#[trigger] d[w], e, order));
        lemma_insert_at(d, e, order, j);
        assert(spec_insert_by_ts(s, e, order) =~= s.subrange(0, j) + seq![e] + s.subrange(
            j,
            s.len() as int,
        ));
    }
}

/// Sort records in place by timestamp, per the requested order, keeping
/// records with equal timestamps in their given order.
#[verifier::loop_isolation(false)]
pub fn sort_entries(entries: &mut Vec<LogInfo>, order: Order)
    ensures
        entries_view(final(entries)@) == spec_sort_by_ts(entries_view(old(entries)@), order),
{
    let ghost orig = entries_view(entries@);
    if entries.len() <= 1 {
        proof {
            if orig.len() == 0 {
                assert(entries_view(entries@) =~= spec_sort_by_ts(orig, order));
            } else {
                assert(orig.drop_last() =~= Seq::<LogInfoV>::empty());
                assert(spec_sort_by_ts(Seq::<LogInfoV>::empty(), order) =~= Seq::<
                    LogInfoV,
                >::empty());
                assert(spec_insert_by_ts(Seq::<LogInfoV>::empty(), orig.last(), order) =~= seq![
                    orig.last(),
                ]);
                assert(entries_view(entries@) =~= spec_sort_by_ts(orig, order));
            }
        }
        return ;
    }
    let mut idx: usize = 1;
    proof {
        let s1 = orig.subrange(0, 1);
        assert(s1.drop_last() =~= Seq::<LogInfoV>::empty());
        assert(spec_sort_by_ts(Seq::<LogInfoV>::empty(), order) =~= Seq::<LogInfoV>::empty());
        assert(spec_insert_by_ts(Seq::<LogInfoV>::empty(), s1.last(), order) =~= seq![s1.last()]);
        assert(spec_sort_by_ts(s1, order) =~= s1);
        assert(entries_view(entries@) =~= spec_sort_by_ts(s1, order) + orig.subrange(
            1,
            orig.len() as int,
        ));
    }
    while idx < entries.len()
        invariant
            1 <= idx <= orig.len(),
            entries@.len() == orig.len(),
            entries_view(entries@) == spec_sort_by_ts(orig.subrange(0, idx as int), order)
                + orig.subrange(idx as int, orig.len() as int),
        decreases entries@.len() - idx,
    {
        let ghost sorted_prefix = spec_sort_by_ts(orig.subrange(0, idx as int), order);
        proof {
            lemma_sort_len(orig.subrange(0, idx as int), order);
        }
        let ghost pre_remove = entries@;
        let e = entries.remove(idx);
        proof {
            assert(e == pre_remove[idx as int]);
            assert(entries_view(pre_remove)[idx as int] == pre_remove[idx as int]@);
            assert(e@ == (sorted_prefix + orig.subrange(idx as int, orig.len() as int))[
                idx as int
            ]);
            assert(e@ == orig[idx as int]);
            assert forall|w: int|
                0 <= w < entries@.len() implies entries_view(entries@)[w] == (sorted_prefix
                + orig.subrange(idx + 1 as int, orig.len() as int))[w] by {
                assert(entries_view(entries@)[w] == entries@[w]@);
                if w < idx {
                    assert(entries@[w] == pre_remove[w]);
                    assert(entries_view(pre_remove)[w] == pre_remove[w]@);
                } else {
                    assert(entries@[w] == pre_remove[w + 1]);
                    assert(entries_view(pre_remove)[w + 1] == pre_remove[w + 1]@);
                }
            }
            assert(entries_view(entries@) =~= sorted_prefix + orig.subrange(
                idx + 1 as int,
                orig.len() as int,
            ));
        }
        let mut j: usize = idx;
        while j > 0 && !le_by_key(&entries[j - 1], &e, order)
            invariant
                j <= idx,
                idx < orig.len(),
                entries@.len() == orig.len() - 1,
                entries_view(entries@) == sorted_prefix + orig.subrange(
                    idx + 1 as int,
                    orig.len() as int,
                ),
                sorted_prefix.len() == idx,
                e@ == orig[idx as int],
                forall|w: int| j <= w < idx ==> !key_le(#[trigger] sorted_prefix[w], e@, order),
            decreases j,
        {
            proof {
                assert(entries_view(entries@)[j - 1] == entries@[j - 1]@);
            }
            j = j - 1;
        }
        proof {
            if j > 0 {
                assert(entries_view(entries@)[j - 1] == entries@[j - 1]@);
                assert(entries@[j - 1]@ == sorted_prefix[j - 1]);
            }
        }
        let ghost pre_insert = entries@;
        entries.insert(j, e);
        proof {
            lemma_insert_at(sorted_prefix, e@, order, j as int);
            lemma_insert_len(sorted_prefix, e@, order);
            assert(orig.subrange(0, idx + 1 as int).drop_last() =~= orig.subrange(0, idx as int));
            assert(orig.subrange(0, idx + 1 as int).last() == orig[idx as int]);
            assert forall|w: int|
                0 <= w < entries@.len() implies entries_view(entries@)[w] == (spec_insert_by_ts(
                sorted_prefix,
                e@,
                order,
            ) + orig.subrange(idx + 1 as int, orig.len() as int))[w] by {
                assert(entries_view(entries@)[w] == entries@[w]@);
                if w < j {
                    assert(entries@[w] == pre_insert[w]);
                    assert(entries_view(pre_insert)[w] == pre_insert[w]@);
                } else if w == j {
                    assert(entries@[w] == e);
                } else {
                    assert(entries@[w] == pre_insert[w - 1]);
                    assert(entries_view(pre_insert)[w - 1] == pre_insert[w - 1]@);
                }
            }
            assert(entries_view(entries@) =~= spec_sort_by_ts(
                orig.subrange(0, idx + 1 as int),
                order,
            ) + orig.subrange(idx + 1 as int, orig.len() as int));
        }
        idx = idx + 1;
    }
    proof {
        assert(orig.subrange(0, orig.len() as int) =~= orig);
        assert(orig.subrange(orig.len() as int, orig.len() as int) =~= Seq::<LogInfoV>::empty());
        assert(entries_view(entries@) =~= spec_sort_by_ts(orig, order));
    }
}

/// Compare two records by timestamp key.
fn le_by_key(a: &LogInfo, b: &LogInfo, order: Order) -> (r: bool)
    ensures
        r == key_le(a@, b@, order),
{
    let ta = entry_timestamp(a);
    let tb = entry_timestamp(b);
    match order {
        Order::Ascending => ts_le_exec(ta, tb),
        Order::Descending => ts_le_exec(tb, ta),
    }
}

/// The records that satisfy the query, in their given order.
pub open spec fn spec_filter_matching(s: Seq<LogInfoV>, q: LogQueryV) -> Seq<LogInfoV>
    decreases s.len(),
{
    if s.len() == 0 {
        Seq::empty()
    } else {
        let rest = spec_filter_matching(s.drop_last(), q);
        if spec_matches(q, s.last()) {
            rest.push(s.last())
        } else {
            rest
        }
    }
}

/// Keep the records that satisfy the query, cloning them in order.
#[verifier::loop_isolation(false)]
pub fn filter_matching(entries: &Vec<LogInfo>, q: &LogQuery) -> (r: Vec<LogInfo>)
    ensures
        entries_view(r@) == spec_filter_matching(entries_view(entries@), q@),
{
    let ghost all = entries_view(entries@);
    let mut out: Vec<LogInfo> = Vec::new();
    let mut i: usize = 0;
    proof {
        assert(all.subrange(0, 0) =~= Seq::<LogInfoV>::empty());
        assert(entries_view(out@) =~= spec_filter_matching(all.subrange(0, 0), q@));
    }
    while i < entries.len()
        invariant
            i <= entries@.len(),
            all.len() == entries@.len(),
            entries_view(out@) == spec_filter_matching(all.subrange(0, i as int), q@),
        decreases entries@.len() - i,
    {
        proof {
            assert(all.subrange(0, i + 1 as int).drop_last() =~= all.subrange(0, i as int));
            assert(all.subrange(0, i + 1 as int).last() == all[i as int]);
        }
        if q.matches(&entries[i]) {
            out.push(entries[i].clone());
            proof {
                assert(entries_view(out@) =~= spec_filter_matching(
                    all.subrange(0, i as int),
                    q@,
                ).push(all[i as int]));
            }
        }
        i = i + 1;
    }
    proof {
        assert(all.subrange(0, all.len() as int) =~= all);
    }
    out
}

/// The views of transport-side query results.
pub open spec fn results_view(v: Seq<Result<Vec<LogInfo>, String>>) -> Seq<
    Result<Seq<LogInfoV>, Seq<char>>,
> {
    Seq::new(
        v.len(),
        |i: int|
            match v[i] {
                Ok(logs) => Ok(entries_view(logs@)),
                Err(e) => Err(e@),
            },
    )
}

/// Concatenate transport results in order, stopping at the first error.
pub open spec fn spec_collect(rs: Seq<Result<Seq<LogInfoV>, Seq<char>>>) -> Result<
    Seq<LogInfoV>,
    Seq<char>,
>
    decreases rs.len(),
{
    if rs.len() == 0 {
        Ok(Seq::empty())
    } else {
        match spec_collect(rs.drop_last()) {
            Err(e) => Err(e),
            Ok(acc) => match rs.last() {
                Err(e) => Err(e),
                Ok(v) => Ok(acc + v),
            },
        }
    }
}

/// Once a prefix ends in an error, the whole collection does.
proof fn lemma_collect_err_persists(rs: Seq<Result<Seq<LogInfoV>, Seq<char>>>, k: int)
    requires
        0 <= k <= rs.len(),
        spec_collect(rs.subrange(0, k)) is Err,
    ensures
        spec_collect(rs) == spec_collect(rs.subrange(0, k)),
    decreases rs.len() - k,
{
    if k == rs.len() {
        assert(rs.subrange(0, k) =~= rs);
    } else {
        assert(rs.subrange(0, k + 1).drop_last() =~= rs.subrange(0, k));
        lemma_collect_err_persists(rs, k + 1);
    }
}

/// The pagination window over `len` records: skip `start`, then take
/// `limit`.
pub open spec fn spec_window(len: int, start: Option<usize>, limit: Option<usize>) -> (int, int) {
    let lo = match start {
        Some(s) => if s <= len {
            s as int
        } else {
            len
        },
        None => 0,
    };
    let hi = match limit {
        Some(l) => if lo + l <= len {
            lo + l
        } else {
            len
        },
        None => len,
    };
    (lo, hi)
}

/// What a query returns over the already-filtered buffer records and the
/// transport-side results: the first transport error, or else the
/// concatenation, sorted by timestamp, paginated, and projected.
pub open spec fn spec_run_query(
    q: LogQueryV,
    buffered: Seq<LogInfoV>,
    results: Seq<Result<Seq<LogInfoV>, Seq<char>>>,
) -> Result<Seq<LogInfoV>, Seq<char>> {
    match spec_collect(results) {
        Err(e) => Err(e),
        Ok(col) => {
            let sorted = spec_sort_by_ts(buffered + col, q.order);
            let (lo, hi) = spec_window(sorted.len() as int, q.start, q.limit);
            let window = sorted.subrange(lo, hi);
            Ok(Seq::new(window.len(), |i: int| spec_project(q, window[i])))
        },
    }
}

/// Combine the matching buffered records with the transports' results:
/// propagate the first transport error, else concatenate, sort by
/// timestamp, apply start and limit, and project.
#[verifier::loop_isolation(false)]
pub fn run_query(
    q: &LogQuery,
    buffered: Vec<LogInfo>,
    transport_results: Vec<Result<Vec<LogInfo>, String>>,
) -> (r: Result<Vec<LogInfo>, String>)
    ensures
        match r {
            Ok(out) => spec_run_query(q@, entries_view(buffered@), results_view(
                transport_results@,
            )) == Ok::<Seq<LogInfoV>, Seq<char>>(entries_view(out@)),
            Err(e) => spec_run_query(q@, entries_view(buffered@), results_view(
                transport_results@,
            )) == Err::<Seq<LogInfoV>, Seq<char>>(e@),
        },
{
    let ghost rsv = results_view(transport_results@);
    let mut all = buffered;
    let ghost buffered_v = entries_view(all@);
    let mut i: usize = 0;
    let ghost mut collected = Seq::<LogInfoV>::empty();
    proof {
        assert(rsv.subrange(0, 0) =~= Seq::<Result<Seq<LogInfoV>, Seq<char>>>::empty());
        assert(entries_view(all@) =~= buffered_v + collected);
    }
    let mut rest = transport_results;
    let n = rest.len();
    while rest.len() > 0
        invariant
            i + rest@.len() == n,
            n == rsv.len(),
            results_view(rest@) == rsv.subrange(i as int, n as int),
            spec_collect(rsv.subrange(0, i as int)) == Ok::<Seq<LogInfoV>, Seq<char>>(collected),
            entries_view(all@) == buffered_v + collected,
        decreases rest@.len(),
    {
        let ghost rest0 = rest@;
        let head = rest.remove(0);
        proof {
            assert(head == rest0[0]);
            assert forall|j: int|
                0 <= j < rest@.len() implies results_view(rest@)[j] == results_view(rest0)[j
                + 1] by {
                assert(rest@[j] == rest0[j + 1]);
            }
            assert(results_view(rest@) =~= rsv.subrange(i + 1 as int, n as int));
            assert(results_view(rest0)[0] == rsv[i as int]);
            assert(rsv.subrange(0, i + 1 as int).drop_last() =~= rsv.subrange(0, i as int));
            assert(rsv.subrange(0, i + 1 as int).last() == rsv[i as int]);
        }
        match head {
            Ok(mut logs) => {
                let ghost logs_v = entries_view(logs@);
                let ghost a0 = entries_view(all@);
                proof {
                    assert(rsv[i as int] == Ok::<Seq<LogInfoV>, Seq<char>>(logs_v));
                }
                all.append(&mut logs);
                proof {
                    assert forall|w: int|
                        0 <= w < all@.len() implies entries_view(all@)[w] == (a0 + logs_v)[w] by {
                        assert(entries_view(all@)[w] == all@[w]@);
                    }
                    assert(entries_view(all@) =~= a0 + logs_v);
                    collected = collected + logs_v;
                    assert(entries_view(all@) =~= buffered_v + collected);
                    assert(spec_collect(rsv.subrange(0, i + 1 as int)) == Ok::<
                        Seq<LogInfoV>,
                        Seq<char>,
                    >(collected));
                }
            },
            Err(e) => {
                proof {
                    assert(rsv[i as int] == Err::<Seq<LogInfoV>, Seq<char>>(e@));
                    assert(spec_collect(rsv.subrange(0, i + 1 as int)) == Err::<
                        Seq<LogInfoV>,
                        Seq<char>,
                    >(e@));
                    lemma_collect_err_persists(rsv, i + 1 as int);
                }
                return Err(e);
            },
        }
        i = i + 1;
    }
    proof {
        assert(rsv.subrange(0, n as int) =~= rsv);
    }
    sort_entries(&mut all, q.order);
    let ghost sorted = spec_sort_by_ts(buffered_v + collected, q@.order);
    let total = all.len();
    let lo = match q.start {
        Some(s) => if s <= total {
            s
        } else {
            total
        },
        None => 0,
    };
    let hi = match q.limit {
        Some(l) => if l <= total - lo {
            lo + l
        } else {
            total
        },
        None => total,
    };
    let mut out: Vec<LogInfo> = Vec::new();
    let mut k: usize = lo;
    proof {
        assert((lo as int, hi as int) == spec_window(sorted.len() as int, q@.start, q@.limit));
    }
    while k < hi
        invariant
            lo <= k <= hi <= total,
            total == all@.len(),
            entries_view(all@) == sorted,
            out@.len() == k - lo,
            forall|j: int|
                0 <= j < out@.len() ==> entries_view(out@)[j] == spec_project(
                    q@,
                    sorted[lo + j],
                ),
        decreases hi - k,
    {
        let projected = project_entry(q, &all[k]);
        let ghost prev = out@;
        out.push(projected);
        proof {
            assert(all@[k as int]@ == sorted[k as int]);
            assert forall|j: int|
                0 <= j < out@.len() implies entries_view(out@)[j] == spec_project(
                q@,
                sorted[lo + j],
            ) by {
                assert(entries_view(out@)[j] == out@[j]@);
                if j < prev.len() {
                    assert(out@[j] == prev[j]);
                    assert(entries_view(prev)[j] == prev[j]@);
                }
            }
        }
        k = k + 1;
    }
    proof {
        let window = sorted.subrange(lo as int, hi as int);
        assert(entries_view(out@) =~= Seq::new(window.len(), |j: int| spec_project(q@, window[j])));
    }
    Ok(out)
}

} // verus!
