//! The records that are kept: which are shown, and what they add up to.

use vstd::prelude::*;
use vstd::string::*;

use crate::config;
use crate::config::BodyMode;
use crate::models::RequestMeta;
use crate::order;
use crate::order::Ranked;
use crate::segments;
use crate::size;
use crate::storage;
use crate::storage::LocalStorage;
use crate::table;
use crate::table::OrderedTable;
use crate::text;
use crate::time::{LocalTime, Moment};

verus! {

/// A record, and where its files are.
#[derive(Debug)]
pub struct RequestRecord {
    pub meta: RequestMeta,
    pub meta_path: String,
    pub body_path: Option<String>,
}

/// A record that was read, and the way to its file: the folders below the root
/// and the file name.
#[derive(Debug)]
pub struct FoundRecord {
    pub place: Vec<String>,
    pub meta: RequestMeta,
}

/// What the records add up to.
#[derive(Debug)]
pub struct DashboardStats {
    pub total_requests: usize,
    pub complete_requests: usize,
    pub incomplete_requests: usize,
    pub stored_body_bytes: u64,
    pub top_paths: Vec<(String, usize)>,
    pub top_methods: Vec<(String, usize)>,
}

/// `record` is what was found, and where: its body file, if it names one, lies in
/// the same folder.
pub open spec fn is_record_at(root: Seq<char>, found: FoundRecord, record: RequestRecord) -> bool {
    let place = text::contents(found.place@);
    let folder = if place.len() > 0 {
        storage::descended(root, place.drop_last())
    } else {
        root
    };
    &&& record.meta == found.meta
    &&& record.meta_path@ == storage::descended(root, place)
    &&& text::optional_text(record.body_path) == match found.meta.body.object {
        Some(object) => Some(storage::joined(folder, object@)),
        None => None,
    }
}

/// `records` are what was found, one for one.
pub open spec fn are_records_at(
    root: Seq<char>,
    found: Seq<FoundRecord>,
    records: Seq<RequestRecord>,
) -> bool {
    &&& records.len() == found.len()
    &&& forall|i: int|
        0 <= i < found.len() ==> is_record_at(root, #[trigger] found[i], records[i])
}

impl RequestRecord {
    /// The record came in on what `filter` names or below it; any does where there
    /// is no filter.
    pub open spec fn passes(self, filter: Option<Seq<char>>) -> bool {
        match filter {
            Some(path) => config::is_below(self.meta.path@, path),
            None => true,
        }
    }
}

impl Ranked for RequestRecord {
    /// The later one first; of two that came in at the same time, the one with
    /// the greater id.
    open spec fn ranks_before(self, other: Self) -> bool {
        let a = self.meta.received_at;
        let b = other.meta.received_at;
        b.is_before(a) || (!a.is_before(b) && table::text_before(other.meta.id@, self.meta.id@))
    }

    proof fn rank_is_an_order(a: Self, b: Self, c: Self) {
        table::lemma_text_order(a.meta.id@, b.meta.id@);
        table::lemma_text_order(b.meta.id@, c.meta.id@);
        table::lemma_text_order(a.meta.id@, c.meta.id@);
        if table::text_before(a.meta.id@, c.meta.id@) {
            if table::text_before(c.meta.id@, b.meta.id@) {
                table::lemma_text_order_transitive(a.meta.id@, c.meta.id@, b.meta.id@);
            }
            if table::text_before(b.meta.id@, a.meta.id@) {
                table::lemma_text_order_transitive(b.meta.id@, a.meta.id@, c.meta.id@);
            }
        }
    }

    fn outranks(&self, other: &Self) -> (yes: bool) {
        let a: Moment = self.meta.received_at;
        let b: Moment = other.meta.received_at;
        b.precedes(&a) || (!a.precedes(&b) && table::comes_before(
            other.meta.id.as_str(),
            self.meta.id.as_str(),
        ))
    }
}

/// The latest `limit` of the records that pass the filter, the latest first.
pub fn latest_records(
    records: Vec<RequestRecord>,
    limit: usize,
    path_filter: Option<&str>,
) -> (listing: Vec<RequestRecord>)
    ensures
        order::is_top(
            records@.filter(
                |record: RequestRecord|
                    record.passes(
                        match path_filter {
                            Some(path) => Some(path@),
                            None => None,
                        },
                    ),
            ),
            limit as int,
            listing@,
        ),
{
    let ghost all = records@;
    let ghost filter = match path_filter {
        Some(path) => Some(path@),
        None => None,
    };
    let ghost passing = |record: RequestRecord| record.passes(filter);
    let mut kept: Vec<RequestRecord> = Vec::new();
    proof {
        reveal(Seq::filter);
    }
    for record in it: records
        invariant
            it.seq() == all,
            filter == (match path_filter {
                Some(path) => Some(path@),
                None => None,
            }),
            passing == (|record: RequestRecord| record.passes(filter)),
            kept@ == all.take(it.index()).filter(passing),
    {
        proof {
            reveal(Seq::filter);
            let i = it.index();
            assert(all.take(i + 1).drop_last() == all.take(i));
            assert(all.take(i + 1).last() == all[i]);
        }
        let wanted: bool = match path_filter {
            Some(path) => config::path_matches(record.meta.path.as_str(), path),
            None => true,
        };
        if wanted {
            kept.push(record);
        }
    }
    assert(all.take(all.len() as int) == all);
    assert(passing =~= (|record: RequestRecord|
        record.passes(
            match path_filter {
                Some(path) => Some(path@),
                None => None,
            },
        )));
    order::top(kept, limit)
}

impl LocalStorage {
    /// The record that was found, with the paths of its files.
    pub fn record_at(&self, found: FoundRecord) -> (record: RequestRecord)
        ensures
            is_record_at(self.root_text(), found, record),
    {
        let meta_path: String = self.path_of(&found.place);
        let ghost place = text::contents(found.place@);
        let body_path: Option<String> = match &found.meta.body.object {
            Some(object) => {
                let mut folder: Vec<String> = text::copy_list(&found.place);
                let _ = folder.pop();
                assert(text::contents(folder@) =~= if place.len() > 0 {
                    place.drop_last()
                } else {
                    place
                });
                let above: String = self.path_of(&folder);
                Some(storage::join_path(above.as_str(), object.as_str()))
            },
            None => None,
        };
        RequestRecord { meta: found.meta, meta_path, body_path }
    }

    /// The records that were found, with the paths of their files.
    fn records_at(&self, found: Vec<FoundRecord>) -> (records: Vec<RequestRecord>)
        ensures
            are_records_at(self.root_text(), found@, records@),
    {
        let ghost all = found@;
        let mut records: Vec<RequestRecord> = Vec::new();
        for one in it: found
            invariant
                it.seq() == all,
                are_records_at(self.root_text(), all.take(it.index()), records@),
        {
            let ghost i = it.index();
            let ghost before = records@;
            records.push(self.record_at(one));
            assert forall|j: int| 0 <= j < all.take(i + 1).len() implies is_record_at(
                self.root_text(),
                #[trigger] all.take(i + 1)[j],
                records@[j],
            ) by {
                if j < i {
                    assert(is_record_at(self.root_text(), all.take(i)[j], before[j]));
                }
            }
        }
        assert(all.take(all.len() as int) == all);
        records
    }

    /// The latest `limit` of the records that were found on what the filter names
    /// or below it, the latest first; those that came in at the same time by
    /// falling id.
    pub fn recent(
        &self,
        found: Vec<FoundRecord>,
        limit: usize,
        path_filter: Option<&str>,
    ) -> (listing: Vec<RequestRecord>)
        ensures
            exists|records: Seq<RequestRecord>| #[trigger]
                are_records_at(self.root_text(), found@, records) && order::is_top(
                    records.filter(
                        |record: RequestRecord|
                            record.passes(
                                match path_filter {
                                    Some(path) => Some(path@),
                                    None => None,
                                },
                            ),
                    ),
                    limit as int,
                    listing@,
                ),
    {
        let records: Vec<RequestRecord> = self.records_at(found);
        latest_records(records, limit, path_filter)
    }

    /// The first of the records that were found whose file has the name of the
    /// request `id`.
    pub fn find_by_id(&self, found: Vec<FoundRecord>, id: &str) -> (record: Option<RequestRecord>)
        ensures
            record is None <==> forall|i: int|
                0 <= i < found@.len() ==> !is_file_of(#[trigger] found@[i], id@),
            record matches Some(r) ==> exists|i: int|
                0 <= i < found@.len() && is_file_of(#[trigger] found@[i], id@) && (forall|j: int|
                    0 <= j < i ==> !is_file_of(#[trigger] found@[j], id@)) && is_record_at(
                    self.root_text(),
                    found@[i],
                    r,
                ),
    {
        let ghost all = found@;
        for one in it: found
            invariant
                it.seq() == all,
                forall|j: int| 0 <= j < it.index() ==> !is_file_of(#[trigger] all[j], id@),
        {
            if one.place.len() > 0 {
                if storage::names_record(one.place[one.place.len() - 1].as_str(), id) {
                    assert(is_file_of(all[it.index()], id@));
                    return Some(self.record_at(one));
                }
            }
        }
        None
    }
}

/// What was found lies in the metadata file of the request `id`.
pub open spec fn is_file_of(found: FoundRecord, id: Seq<char>) -> bool {
    found.place@.len() > 0 && storage::is_meta_name_of(found.place@.last()@, id)
}

impl Ranked for (String, usize) {
    /// The greater count first; of two equal ones, the lesser name.
    open spec fn ranks_before(self, other: Self) -> bool {
        self.1 > other.1 || (self.1 == other.1 && table::text_before(self.0@, other.0@))
    }

    proof fn rank_is_an_order(a: Self, b: Self, c: Self) {
        table::lemma_text_order(a.0@, b.0@);
        table::lemma_text_order(b.0@, c.0@);
        table::lemma_text_order(a.0@, c.0@);
        if table::text_before(c.0@, a.0@) {
            if table::text_before(b.0@, c.0@) {
                table::lemma_text_order_transitive(b.0@, c.0@, a.0@);
            }
            if table::text_before(a.0@, b.0@) {
                table::lemma_text_order_transitive(c.0@, a.0@, b.0@);
            }
        }
    }

    fn outranks(&self, other: &Self) -> (yes: bool) {
        self.1 > other.1 || (self.1 == other.1 && table::comes_before(
            self.0.as_str(),
            other.0.as_str(),
        ))
    }
}

/// A name with a count `m` is listed before one with a count `n`.
pub open spec fn counts_first(a: Seq<char>, m: nat, b: Seq<char>, n: nat) -> bool {
    m > n || (m == n && table::text_before(a, b))
}

/// `list` holds the `limit` names with the greatest counts, the greatest first;
/// names with equal counts are in byte order.
pub open spec fn is_ranking(
    counts: Map<Seq<char>, nat>,
    limit: nat,
    list: Seq<(String, usize)>,
) -> bool {
    &&& list.len() <= limit
    &&& forall|i: int|
        0 <= i < list.len() ==> counts.contains_key((#[trigger] list[i]).0@)
            && counts[list[i].0@] == list[i].1
    &&& forall|i: int, j: int|
        0 <= i < j < list.len() ==> counts_first(
            (#[trigger] list[i]).0@,
            list[i].1 as nat,
            (#[trigger] list[j]).0@,
            list[j].1 as nat,
        )
    &&& forall|name: Seq<char>| #[trigger]
        counts.contains_key(name) ==> {
            ||| exists|i: int| 0 <= i < list.len() && (#[trigger] list[i]).0@ == name
            ||| list.len() == limit && forall|i: int|
                0 <= i < list.len() ==> counts_first(
                    (#[trigger] list[i]).0@,
                    list[i].1 as nat,
                    name,
                    counts[name],
                )
        }
}

/// The counts in a table.
pub open spec fn count_map(table: Map<Seq<char>, usize>) -> Map<Seq<char>, nat> {
    table.map_values(|n: usize| n as nat)
}

proof fn lemma_top_is_ranking(
    pairs: Seq<(Seq<char>, usize)>,
    entries: Seq<(String, usize)>,
    limit: nat,
    list: Seq<(String, usize)>,
)
    requires
        table::keys_in_order(pairs),
        entries.len() == pairs.len(),
        forall|i: int|
            0 <= i < entries.len() ==> (#[trigger] entries[i]).0@ == pairs[i].0 && entries[i].1
                == pairs[i].1,
        order::is_top(entries, limit as int, list),
    ensures
        is_ranking(count_map(table::spelled_map(pairs)), limit, list),
{
    let places = choose|places: Seq<int>| #[trigger]
        order::is_order_of(entries, places) && list == order::picked(
            entries,
            places,
            limit as int,
        );
    let counts = count_map(table::spelled_map(pairs));
    table::lemma_spelled_map(pairs);
    assert forall|i: int| 0 <= i < list.len() implies list[i] == entries[#[trigger] places[i]] by {}
    assert forall|i: int| 0 <= i < pairs.len() implies counts.contains_key(
        (#[trigger] pairs[i]).0,
    ) && counts[pairs[i].0] == pairs[i].1 by {
        assert(table::spelled_map(pairs).contains_key(pairs[i].0));
    }
    assert forall|i: int| 0 <= i < list.len() implies counts.contains_key((#[trigger] list[i]).0@)
        && counts[list[i].0@] == list[i].1 by {
        let p = places[i];
        assert(list[i] == entries[p]);
        assert(pairs[p].0 == list[i].0@);
    }
    assert forall|p: int, q: int|
        0 <= p < entries.len() && 0 <= q < entries.len() && p != q && order::goes_first(
            entries,
            p,
            q,
        ) implies #[trigger] entries[p].ranks_before(#[trigger] entries[q]) by {
        table::lemma_text_order(entries[p].0@, entries[q].0@);
        table::lemma_text_order(entries[p].0@, entries[p].0@);
        if p < q {
            assert(table::text_before(pairs[p].0, pairs[q].0));
        } else {
            assert(table::text_before(pairs[q].0, pairs[p].0));
        }
    }
    assert forall|i: int, j: int| 0 <= i < j < places.len() implies entries[#[trigger] places[i]]
        .ranks_before(entries[#[trigger] places[j]]) by {
        assert(order::goes_first(entries, places[i], places[j]));
        if places[i] == places[j] {
            <(String, usize) as Ranked>::rank_is_an_order(
                entries[places[i]],
                entries[places[i]],
                entries[places[i]],
            );
        }
    }
    assert forall|i: int, j: int| 0 <= i < j < list.len() implies counts_first(
        (#[trigger] list[i]).0@,
        list[i].1 as nat,
        (#[trigger] list[j]).0@,
        list[j].1 as nat,
    ) by {
        assert(entries[places[i]].ranks_before(entries[places[j]]));
    }
    assert forall|name: Seq<char>| #[trigger] counts.contains_key(name) implies {
        ||| exists|i: int| 0 <= i < list.len() && (#[trigger] list[i]).0@ == name
        ||| list.len() == limit && forall|i: int|
            0 <= i < list.len() ==> counts_first(
                (#[trigger] list[i]).0@,
                list[i].1 as nat,
                name,
                counts[name],
            )
    } by {
        assert(table::spelled_map(pairs).contains_key(name));
        let p = choose|p: int| 0 <= p < pairs.len() && (#[trigger] pairs[p]).0 == name;
        order::lemma_order_covers(entries, places, p);
        let m = choose|m: int| 0 <= m < places.len() && #[trigger] places[m] == p;
        assert(entries[p].0@ == name);
        if m < list.len() {
            assert(list[m] == entries[places[m]]);
            assert(list[m].0@ == name);
        } else {
            assert forall|i: int| 0 <= i < list.len() implies counts_first(
                (#[trigger] list[i]).0@,
                list[i].1 as nat,
                name,
                counts[name],
            ) by {
                assert(entries[places[i]].ranks_before(entries[places[m]]));
                assert(list[i] == entries[places[i]]);
            }
        }
    }
}

/// The `limit` names with the greatest counts, the greatest first; names with
/// equal counts in byte order.
pub fn sorted_counts(counts: &OrderedTable<usize>, limit: usize) -> (list: Vec<(String, usize)>)
    ensures
        is_ranking(count_map(counts@), limit as nat, list@),
{
    let size: usize = counts.len();
    let ghost pairs = counts.pairs();
    let mut entries: Vec<(String, usize)> = Vec::new();
    for i in 0..size
        invariant
            size == pairs.len(),
            pairs == counts.pairs(),
            entries@.len() == i,
            forall|j: int|
                0 <= j < i ==> (#[trigger] entries@[j]).0@ == pairs[j].0 && entries@[j].1
                    == pairs[j].1,
    {
        let count: usize = *counts.value(i);
        entries.push((counts.key(i).clone(), count));
    }
    let ghost all = entries@;
    let list: Vec<(String, usize)> = order::top(entries, limit);
    proof {
        lemma_top_is_ranking(pairs, all, limit as nat, list@);
    }
    list
}

/// How often each text occurs.
pub open spec fn tallied(texts: Seq<Seq<char>>) -> Map<Seq<char>, nat>
    decreases texts.len(),
{
    if texts.len() == 0 {
        Map::empty()
    } else {
        let before = tallied(texts.drop_last());
        let last = texts.last();
        before.insert(
            last,
            if before.contains_key(last) {
                before[last] + 1
            } else {
                1
            },
        )
    }
}

proof fn lemma_tally_bounded(texts: Seq<Seq<char>>)
    ensures
        forall|k: Seq<char>| #[trigger]
            tallied(texts).contains_key(k) ==> 0 < tallied(texts)[k] <= texts.len(),
    decreases texts.len(),
{
    if texts.len() > 0 {
        let before = tallied(texts.drop_last());
        lemma_tally_bounded(texts.drop_last());
        assert forall|k: Seq<char>| #[trigger] tallied(texts).contains_key(k) implies 0 < tallied(
            texts,
        )[k] <= texts.len() by {
            if before.contains_key(k) {
                assert(before[k] <= texts.drop_last().len());
            }
        }
    }
}

/// Counts one more `key`.
fn count_one(counts: &mut OrderedTable<usize>, key: &str)
    requires
        old(counts)@.contains_key(key@) ==> old(counts)@[key@] < usize::MAX,
    ensures
        final(counts)@ == old(counts)@.insert(
            key@,
            if old(counts)@.contains_key(key@) {
                (old(counts)@[key@] + 1) as usize
            } else {
                1
            },
        ),
{
    let count: usize = match counts.get(key) {
        Some(n) => *n + 1,
        None => 1,
    };
    counts.insert(key.to_string(), count);
}

/// The paths of some records.
pub open spec fn paths_of(records: Seq<RequestRecord>) -> Seq<Seq<char>> {
    records.map_values(|record: RequestRecord| record.meta.path@)
}

/// The methods of some records.
pub open spec fn methods_of(records: Seq<RequestRecord>) -> Seq<Seq<char>> {
    records.map_values(|record: RequestRecord| record.meta.method@)
}

/// How many bodies are complete, or how many are not.
pub open spec fn bodies(records: Seq<RequestRecord>, complete: bool) -> nat
    decreases records.len(),
{
    if records.len() == 0 {
        0
    } else {
        bodies(records.drop_last(), complete) + if records.last().meta.body.complete == complete {
            1nat
        } else {
            0
        }
    }
}

/// The bytes that the stored bodies take.
pub open spec fn stored_bytes(records: Seq<RequestRecord>) -> nat
    decreases records.len(),
{
    if records.len() == 0 {
        0
    } else {
        stored_bytes(records.drop_last()) + records.last().meta.body.stored_size as nat
    }
}

/// `stats` is what the records add up to. The stored bytes are capped at what 64
/// bits hold.
pub open spec fn are_stats_of(stats: DashboardStats, records: Seq<RequestRecord>) -> bool {
    &&& stats.total_requests == records.len()
    &&& stats.complete_requests == bodies(records, true)
    &&& stats.incomplete_requests == bodies(records, false)
    &&& stats.stored_body_bytes == size::capped(stored_bytes(records) as int)
    &&& is_ranking(tallied(paths_of(records)), 8, stats.top_paths@)
    &&& is_ranking(tallied(methods_of(records)), 8, stats.top_methods@)
}

/// Every request is counted once, as complete or as incomplete.
pub proof fn law_complete_and_incomplete_add_up(records: Seq<RequestRecord>)
    ensures
        bodies(records, true) + bodies(records, false) == records.len(),
    decreases records.len(),
{
    if records.len() > 0 {
        law_complete_and_incomplete_add_up(records.drop_last());
    }
}

/// What the records add up to.
pub fn add_up(records: &Vec<RequestRecord>) -> (stats: DashboardStats)
    ensures
        are_stats_of(stats, records@),
{
    let mut complete: usize = 0;
    let mut incomplete: usize = 0;
    let mut bytes: u64 = 0;
    let mut paths: OrderedTable<usize> = OrderedTable::new();
    let mut methods: OrderedTable<usize> = OrderedTable::new();
    let ghost all = records@;
    proof {
        assert(count_map(paths@) =~= tallied(paths_of(all.take(0))));
        assert(count_map(methods@) =~= tallied(methods_of(all.take(0))));
    }
    for i in 0..records.len()
        invariant
            all == records@,
            complete == bodies(all.take(i as int), true),
            incomplete == bodies(all.take(i as int), false),
            complete + incomplete == i,
            bytes == size::capped(stored_bytes(all.take(i as int)) as int),
            count_map(paths@) == tallied(paths_of(all.take(i as int))),
            count_map(methods@) == tallied(methods_of(all.take(i as int))),
    {
        let record: &RequestRecord = &records[i];
        proof {
            assert(all.take(i + 1).drop_last() == all.take(i as int));
            assert(paths_of(all.take(i + 1)).drop_last() =~= paths_of(all.take(i as int)));
            assert(methods_of(all.take(i + 1)).drop_last() =~= methods_of(all.take(i as int)));
            lemma_tally_bounded(paths_of(all.take(i as int)));
            lemma_tally_bounded(methods_of(all.take(i as int)));
            let path = record.meta.path@;
            let method = record.meta.method@;
            assert(paths@.contains_key(path) ==> count_map(paths@).contains_key(path)
                && count_map(paths@)[path] == paths@[path]);
            assert(methods@.contains_key(method) ==> count_map(methods@).contains_key(method)
                && count_map(methods@)[method] == methods@[method]);
        }
        if record.meta.body.complete {
            complete = complete + 1;
        } else {
            incomplete = incomplete + 1;
        }
        bytes = size::capped_sum(bytes, record.meta.body.stored_size);
        count_one(&mut paths, record.meta.path.as_str());
        count_one(&mut methods, record.meta.method.as_str());
        proof {
            assert(count_map(paths@) =~= tallied(paths_of(all.take(i + 1))));
            assert(count_map(methods@) =~= tallied(methods_of(all.take(i + 1))));
        }
    }
    assert(all.take(all.len() as int) == all);
    DashboardStats {
        total_requests: records.len(),
        complete_requests: complete,
        incomplete_requests: incomplete,
        stored_body_bytes: bytes,
        top_paths: sorted_counts(&paths, 8),
        top_methods: sorted_counts(&methods, 8),
    }
}

/// The number of requests that the list of requests shows at most.
pub const LISTED_REQUESTS: usize = 200;

/// The number of requests that the dashboard counts at most.
pub const COUNTED_REQUESTS: usize = 5000;

impl LocalStorage {
    /// What the latest of the records that were found add up to, up to
    /// `COUNTED_REQUESTS` of them.
    pub fn dashboard(&self, found: Vec<FoundRecord>) -> (stats: DashboardStats)
        ensures
            exists|records: Seq<RequestRecord>, listing: Seq<RequestRecord>|
                #![trigger are_records_at(self.root_text(), found@, records),
                    are_stats_of(stats, listing)]
                are_records_at(self.root_text(), found@, records) && order::is_top(
                    records,
                    COUNTED_REQUESTS as int,
                    listing,
                ) && are_stats_of(stats, listing),
    {
        let records: Vec<RequestRecord> = self.records_at(found);
        let ghost all = records@;
        let listing: Vec<RequestRecord> = order::top(records, COUNTED_REQUESTS);
        let stats: DashboardStats = add_up(&listing);
        assert(are_records_at(self.root_text(), found@, all));
        assert(are_stats_of(stats, listing@));
        stats
    }
}

/// The way to the metadata file of a request.
pub open spec fn stored_place(
    request_path: Seq<char>,
    shown: LocalTime,
    id: Seq<char>,
) -> Seq<Seq<char>> {
    (segments::path_directories(request_path) + storage::time_directories(shown)).push(
        storage::meta_name(id),
    )
}

/// A record is found again where it was put: the metadata file that a request was
/// given is found by the request's id, and the paths of the record are those under
/// which its files were written.
pub proof fn law_stored_record_is_found_again(
    root: Seq<char>,
    request_path: Seq<char>,
    shown: LocalTime,
    id: Seq<char>,
    mode: BodyMode,
    found: FoundRecord,
    record: RequestRecord,
)
    requires
        id.len() > 0,
        forall|i: int| 0 <= i < id.len() ==> crate::capture::is_token_char(#[trigger] id[i]),
        text::contents(found.place@) == stored_place(request_path, shown, id),
        text::optional_text(found.meta.body.object) == storage::body_name(id, mode),
        is_record_at(root, found, record),
    ensures
        ({
            let paths = storage::stored_paths(root, request_path, shown, id, mode);
            &&& is_file_of(found, id)
            &&& record.meta_path@ == paths.meta_path
            &&& text::optional_text(record.body_path) == paths.body_path
        }),
{
    let folders = segments::path_directories(request_path) + storage::time_directories(shown);
    let place = text::contents(found.place@);
    storage::law_record_stays_below_root(root, request_path, shown, id, mode);
    storage::law_metadata_file_names_one_request(storage::meta_name(id), id);
    assert(place.drop_last() =~= folders);
    assert(found.place@.last()@ == place.last());
    storage::lemma_request_directory(root, request_path, shown);
}

/// A record passes a path filter by its path alone: whatever else two records on one
/// path say, they pass alike. A record passes the filter that names its path, and any
/// does where there is no filter.
pub proof fn law_filter_looks_at_the_path_alone(
    r: RequestRecord,
    s: RequestRecord,
    filter: Option<Seq<char>>,
)
    requires
        r.meta.path@ == s.meta.path@,
    ensures
        r.passes(filter) == s.passes(filter),
        r.passes(Some(r.meta.path@)),
        r.passes(None),
{
}

/// The paths that pass a filter: the very path that it names, and those that go on
/// behind it with a slash. Slashes at the end of the filter do not count for the
/// latter; here the filter is `base` and so many slashes.
pub proof fn law_filter_lets_through_what_lies_below(
    record: RequestRecord,
    base: Seq<char>,
    slashes: nat,
)
    requires
        base.len() > 0 ==> base.last() != '/',
    ensures
        ({
            let filter = base + Seq::new(slashes, |i: int| '/');
            let path = record.meta.path@;
            record.passes(Some(filter)) <==> path == filter || (path.len() > base.len()
                && path.take(base.len() as int) == base && path[base.len() as int] == '/')
        }),
{
    config::law_rule_covers_what_lies_below(base, slashes, record.meta.path@);
}

/// Of two records the one that came in later is listed first; of two that came in at
/// the same time, the one whose id comes later in the order of texts.
pub proof fn law_later_record_ranks_first(a: RequestRecord, b: RequestRecord)
    ensures
        ({
            let s = a.meta.received_at;
            let t = b.meta.received_at;
            &&& s.secs() > t.secs() ==> a.ranks_before(b)
            &&& s.secs() == t.secs() && s.nanos() > t.nanos() ==> a.ranks_before(b)
            &&& s.secs() == t.secs() && s.nanos() == t.nanos() && table::text_before(
                b.meta.id@,
                a.meta.id@,
            ) ==> a.ranks_before(b)
            &&& a.ranks_before(b) ==> !b.ranks_before(a)
            &&& a.ranks_before(b) || b.ranks_before(a) || (s.secs() == t.secs() && s.nanos()
                == t.nanos() && a.meta.id@ == b.meta.id@)
        }),
{
    table::lemma_text_order(a.meta.id@, b.meta.id@);
    RequestRecord::rank_is_an_order(a, b, a);
}

proof fn lemma_filter_is_part(
    records: Seq<RequestRecord>,
    keep: spec_fn(RequestRecord) -> bool,
    i: int,
)
    requires
        0 <= i < records.filter(keep).len(),
    ensures
        keep(records.filter(keep)[i]),
        records.contains(records.filter(keep)[i]),
    decreases records.len(),
{
    reveal(Seq::filter);
    let less = records.drop_last();
    if i < less.filter(keep).len() {
        lemma_filter_is_part(less, keep, i);
        let k = choose|k: int| 0 <= k < less.len() && less[k] == less.filter(keep)[i];
        assert(records[k] == less[k]);
    } else {
        assert(records[records.len() - 1] == records.filter(keep)[i]);
    }
}

/// A list of requests holds the latest of those that pass the filter and nothing
/// else: every listed one is one of the records and passes; none came in later than
/// one in front of it; it is as long as the limit unless all that pass are in it; and
/// one that passes and is not in it came in no later than any that is.
pub proof fn law_listing_holds_the_latest(
    records: Seq<RequestRecord>,
    limit: nat,
    filter: Option<Seq<char>>,
    listing: Seq<RequestRecord>,
)
    requires
        order::is_top(
            records.filter(|record: RequestRecord| record.passes(filter)),
            limit as int,
            listing,
        ),
    ensures
        listing.len() <= limit,
        forall|i: int|
            0 <= i < listing.len() ==> records.contains(#[trigger] listing[i])
                && listing[i].passes(filter),
        forall|i: int, j: int|
            0 <= i < j < listing.len() ==> !(
            #[trigger] listing[i]).meta.received_at.is_before(
                (#[trigger] listing[j]).meta.received_at,
            ),
        forall|k: int|
            0 <= k < records.len() && (#[trigger] records[k]).passes(filter) ==> {
                ||| listing.contains(records[k])
                ||| listing.len() == limit && forall|i: int|
                    0 <= i < listing.len() ==> !(
                    #[trigger] listing[i]).meta.received_at.is_before(
                        records[k].meta.received_at,
                    )
            },
{
    let keep = |record: RequestRecord| record.passes(filter);
    let kept = records.filter(keep);
    order::law_top_holds_the_first(kept, limit as int, listing);
    assert forall|i: int| 0 <= i < listing.len() implies records.contains(#[trigger] listing[i])
        && listing[i].passes(filter) by {
        let k = choose|k: int| 0 <= k < kept.len() && kept[k] == listing[i];
        lemma_filter_is_part(records, keep, k);
    }
    assert forall|i: int, j: int| 0 <= i < j < listing.len() implies !(
    #[trigger] listing[i]).meta.received_at.is_before((#[trigger] listing[j]).meta.received_at) by {
        assert(!listing[j].ranks_before(listing[i]));
    }
    assert forall|k: int| 0 <= k < records.len() && (#[trigger] records[k]).passes(filter) implies {
        ||| listing.contains(records[k])
        ||| listing.len() == limit && forall|i: int|
            0 <= i < listing.len() ==> !(#[trigger] listing[i]).meta.received_at.is_before(
                records[k].meta.received_at,
            )
    } by {
        records.lemma_filter_contains(keep, k);
        let m = choose|m: int| 0 <= m < kept.len() && kept[m] == records[k];
        assert(kept[m] == records[k]);
        if !listing.contains(kept[m]) {
            assert forall|i: int| 0 <= i < listing.len() implies !(
            #[trigger] listing[i]).meta.received_at.is_before(records[k].meta.received_at) by {
                assert(!kept[m].ranks_before(listing[i]));
            }
        }
    }
}

/// A record that was found keeps what it says, and its files are the metadata file
/// where it was found and, if it names a body file, that one in the same folder.
pub proof fn law_record_keeps_what_was_found(
    root: Seq<char>,
    found: FoundRecord,
    record: RequestRecord,
    folder: Seq<Seq<char>>,
    name: Seq<char>,
)
    requires
        is_record_at(root, found, record),
        text::contents(found.place@) == folder.push(name),
    ensures
        record.meta == found.meta,
        record.meta_path@ == storage::joined(storage::descended(root, folder), name),
        record.body_path is Some <==> found.meta.body.object is Some,
        found.meta.body.object matches Some(object) ==> record.body_path->0@ == storage::joined(
            storage::descended(root, folder),
            object@,
        ),
{
    assert(folder.push(name).drop_last() == folder);
}

/// The request of an id is found in the file that has the id for a name, and in no
/// other.
pub proof fn law_record_is_found_by_its_id(found: FoundRecord, id: Seq<char>, other: Seq<char>)
    requires
        found.place@.len() > 0,
        id.len() > 0,
        found.place@.last()@ == id + ".json"@,
    ensures
        is_file_of(found, id),
        other != id ==> !is_file_of(found, other),
{
    storage::law_metadata_file_names_one_request(found.place@.last()@, id);
    storage::law_metadata_file_names_one_request(found.place@.last()@, other);
}

/// How often a text is counted is how often it occurs: nothing at first, and one more
/// for each time that it comes; other texts are not touched.
pub proof fn law_each_text_is_counted(texts: Seq<Seq<char>>, more: Seq<char>, other: Seq<char>)
    ensures
        ({
            let before = tallied(texts);
            let after = tallied(texts.push(more));
            &&& !tallied(Seq::<Seq<char>>::empty()).contains_key(other)
            &&& after.contains_key(more)
            &&& after[more] == if before.contains_key(more) {
                before[more] + 1
            } else {
                1
            }
            &&& other != more ==> after.contains_key(other) == before.contains_key(other) && (
            before.contains_key(other) ==> after[other] == before[other])
        }),
{
    assert(texts.push(more).drop_last() == texts);
}

/// How often a text is among others.
pub open spec fn occurrences(texts: Seq<Seq<char>>, one: Seq<char>) -> nat {
    texts.filter(|t: Seq<char>| t == one).len()
}

/// A text is counted exactly if it occurs, and as often as it occurs.
pub proof fn law_counts_are_occurrences(texts: Seq<Seq<char>>, one: Seq<char>)
    ensures
        tallied(texts).contains_key(one) <==> texts.contains(one),
        tallied(texts).contains_key(one) ==> tallied(texts)[one] == occurrences(texts, one),
        !texts.contains(one) ==> occurrences(texts, one) == 0,
    decreases texts.len(),
{
    reveal(Seq::filter);
    if texts.len() > 0 {
        let less = texts.drop_last();
        law_counts_are_occurrences(less, one);
        assert(texts.last() == texts[texts.len() - 1]);
        if less.contains(one) {
            let k = choose|k: int| 0 <= k < less.len() && less[k] == one;
            assert(texts[k] == one);
        }
        if texts.contains(one) && texts.last() != one {
            let k = choose|k: int| 0 <= k < texts.len() && texts[k] == one;
            assert(less[k] == one);
        }
    }
}

/// Each record adds one to the complete or to the incomplete ones, by what it says of
/// its body, and the bytes that its body takes on disk to the stored ones.
pub proof fn law_each_record_is_counted(records: Seq<RequestRecord>, more: RequestRecord)
    ensures
        bodies(Seq::empty(), true) == 0,
        bodies(Seq::empty(), false) == 0,
        stored_bytes(Seq::empty()) == 0,
        bodies(records.push(more), true) == bodies(records, true) + if more.meta.body.complete {
            1int
        } else {
            0
        },
        bodies(records.push(more), false) == bodies(records, false) + if more.meta.body.complete {
            0int
        } else {
            1
        },
        stored_bytes(records.push(more)) == stored_bytes(records) + more.meta.body.stored_size,
{
    assert(records.push(more).drop_last() == records);
}

/// The statistics count every record once, as complete or as incomplete. They list at
/// most eight paths, each with the number of requests that came in on it, the most
/// frequent first; with eight paths or fewer they list all of them. The same holds of
/// methods.
pub proof fn law_statistics_count_the_records(
    stats: DashboardStats,
    records: Seq<RequestRecord>,
    i: int,
    j: int,
    k: int,
)
    requires
        are_stats_of(stats, records),
    ensures
        stats.total_requests == records.len(),
        stats.complete_requests + stats.incomplete_requests == stats.total_requests,
        stats.complete_requests == bodies(records, true),
        stored_bytes(records) <= u64::MAX ==> stats.stored_body_bytes == stored_bytes(records),
        stored_bytes(records) > u64::MAX ==> stats.stored_body_bytes == u64::MAX,
        stats.top_paths@.len() <= 8,
        stats.top_methods@.len() <= 8,
        0 <= i < stats.top_paths@.len() ==> stats.top_paths@[i].1 == occurrences(
            records.map_values(|record: RequestRecord| record.meta.path@),
            stats.top_paths@[i].0@,
        ),
        0 <= i < stats.top_methods@.len() ==> stats.top_methods@[i].1 == occurrences(
            records.map_values(|record: RequestRecord| record.meta.method@),
            stats.top_methods@[i].0@,
        ),
        0 <= i < j < stats.top_paths@.len() ==> stats.top_paths@[i].1 >= stats.top_paths@[j].1
            && stats.top_paths@[i].0@ != stats.top_paths@[j].0@,
        0 <= i < j < stats.top_methods@.len() ==> stats.top_methods@[i].1
            >= stats.top_methods@[j].1 && stats.top_methods@[i].0@ != stats.top_methods@[j].0@,
        0 <= k < records.len() && stats.top_paths@.len() < 8 ==> exists|m: int|
            0 <= m < stats.top_paths@.len() && (#[trigger] stats.top_paths@[m]).0@
                == records[k].meta.path@,
        0 <= k < records.len() && stats.top_methods@.len() < 8 ==> exists|m: int|
            0 <= m < stats.top_methods@.len() && (#[trigger] stats.top_methods@[m]).0@
                == records[k].meta.method@,
{
    law_complete_and_incomplete_add_up(records);
    let paths = paths_of(records);
    let methods = methods_of(records);
    if 0 <= i < stats.top_paths@.len() {
        law_counts_are_occurrences(paths, stats.top_paths@[i].0@);
    }
    if 0 <= i < stats.top_methods@.len() {
        law_counts_are_occurrences(methods, stats.top_methods@[i].0@);
    }
    if 0 <= i < j < stats.top_paths@.len() {
        table::lemma_text_order(stats.top_paths@[i].0@, stats.top_paths@[j].0@);
        assert(counts_first(
            stats.top_paths@[i].0@,
            stats.top_paths@[i].1 as nat,
            stats.top_paths@[j].0@,
            stats.top_paths@[j].1 as nat,
        ));
        assert(tallied(paths)[stats.top_paths@[j].0@] == stats.top_paths@[j].1);
        assert(tallied(paths)[stats.top_paths@[i].0@] == stats.top_paths@[i].1);
    }
    if 0 <= i < j < stats.top_methods@.len() {
        table::lemma_text_order(stats.top_methods@[i].0@, stats.top_methods@[j].0@);
        assert(counts_first(
            stats.top_methods@[i].0@,
            stats.top_methods@[i].1 as nat,
            stats.top_methods@[j].0@,
            stats.top_methods@[j].1 as nat,
        ));
        assert(tallied(methods)[stats.top_methods@[j].0@] == stats.top_methods@[j].1);
        assert(tallied(methods)[stats.top_methods@[i].0@] == stats.top_methods@[i].1);
    }
    if 0 <= k < records.len() {
        law_counts_are_occurrences(paths, paths[k]);
        law_counts_are_occurrences(methods, methods[k]);
        assert(tallied(paths).contains_key(paths[k]));
        assert(tallied(methods).contains_key(methods[k]));
    }
}

/// Names with equal counts are listed in the order of texts, and a name that is left
/// out of a full list has no greater count than any that is in it.
pub proof fn law_ranking_is_by_count_and_then_by_name(
    counts: Map<Seq<char>, nat>,
    limit: nat,
    list: Seq<(String, usize)>,
    i: int,
    j: int,
    name: Seq<char>,
)
    requires
        is_ranking(counts, limit, list),
    ensures
        list.len() <= limit,
        0 <= i < list.len() ==> counts.contains_key(list[i].0@) && counts[list[i].0@] == list[i].1,
        0 <= i < j < list.len() ==> list[i].1 >= list[j].1,
        0 <= i < j < list.len() && list[i].1 == list[j].1 ==> table::text_before(
            list[i].0@,
            list[j].0@,
        ),
        counts.contains_key(name) && 0 <= i < list.len() && (forall|k: int|
            0 <= k < list.len() ==> (#[trigger] list[k]).0@ != name) ==> list.len() == limit
            && counts[name] <= list[i].1,
        counts.contains_key(name) && list.len() < limit ==> exists|k: int|
            0 <= k < list.len() && (#[trigger] list[k]).0@ == name,
{
    if 0 <= i < j < list.len() {
        assert(counts_first(list[i].0@, list[i].1 as nat, list[j].0@, list[j].1 as nat));
    }
    if 0 <= i < list.len() && counts.contains_key(name) && (forall|k: int|
        0 <= k < list.len() ==> (#[trigger] list[k]).0@ != name) {
        assert(counts_first(list[i].0@, list[i].1 as nat, name, counts[name]));
    }
}

/// Every record that was found is there once, in the order in which it was found.
pub proof fn law_every_record_is_there(
    root: Seq<char>,
    found: Seq<FoundRecord>,
    records: Seq<RequestRecord>,
    i: int,
)
    requires
        are_records_at(root, found, records),
    ensures
        records.len() == found.len(),
        0 <= i < found.len() ==> records[i].meta == found[i].meta && records[i].meta_path@
            == storage::descended(root, text::contents(found[i].place@)),
{
    if 0 <= i < found.len() {
        assert(is_record_at(root, found[i], records[i]));
    }
}

/// The list of requests that a filter leaves: all of them are on the path that it names
/// or below it, whatever else they say; they come latest first; and of those that pass
/// none is missing as long as the limit is not reached. Without a filter all pass.
pub proof fn law_latest_records_lists_all_that_pass(
    records: Vec<RequestRecord>,
    limit: usize,
    path_filter: Option<&str>,
    listing: Vec<RequestRecord>,
    k: int,
)
    requires
        call_ensures(latest_records, (records, limit, path_filter), listing),
    ensures
        listing@.len() <= limit,
        forall|i: int|
            0 <= i < listing@.len() ==> records@.contains(#[trigger] listing@[i]) && (path_filter
                is None || config::is_below(listing@[i].meta.path@, path_filter->0@)),
        forall|i: int, j: int|
            0 <= i < j < listing@.len() ==> !(
            #[trigger] listing@[i]).meta.received_at.is_before(
                (#[trigger] listing@[j]).meta.received_at,
            ),
        0 <= k < records@.len() && (path_filter is None || config::is_below(
            records@[k].meta.path@,
            path_filter->0@,
        )) && listing@.len() < limit ==> listing@.contains(records@[k]),
{
    let filter = match path_filter {
        Some(path) => Some(path@),
        None => None,
    };
    let one = |record: RequestRecord| record.passes(filter);
    let two = |record: RequestRecord|
        record.passes(
            match path_filter {
                Some(path) => Some(path@),
                None => None,
            },
        );
    assert(one =~= two);
    law_listing_holds_the_latest(records@, limit as nat, filter, listing@);
    if 0 <= k < records@.len() && (path_filter is None || config::is_below(
        records@[k].meta.path@,
        path_filter->0@,
    )) && listing@.len() < limit {
        assert(records@[k].passes(filter));
    }
}

/// A request is found by its id exactly if there is a file of that name, and what is
/// found is the record in the first such file.
pub proof fn law_find_by_id_finds_the_file(
    storage: &LocalStorage,
    found: Vec<FoundRecord>,
    id: &str,
    record: Option<RequestRecord>,
    k: int,
)
    requires
        call_ensures(LocalStorage::find_by_id, (storage, found, id), record),
    ensures
        0 <= k < found@.len() && found@[k].place@.len() > 0 && id@.len() > 0
            && found@[k].place@.last()@ == id@ + ".json"@ ==> record is Some,
        record matches Some(r) ==> exists|i: int|
            0 <= i < found@.len() && (#[trigger] found@[i]).place@.len() > 0
                && found@[i].place@.last()@ == id@ + ".json"@ && r.meta == found@[i].meta,
{
    if 0 <= k < found@.len() && found@[k].place@.len() > 0 && id@.len() > 0
        && found@[k].place@.last()@ == id@ + ".json"@ {
        assert(is_file_of(found@[k], id@));
    }
}

/// What some records add up to: each is counted once, and their bodies by the room
/// that they take on disk.
pub proof fn law_add_up_counts_every_record(records: &Vec<RequestRecord>, stats: DashboardStats)
    requires
        call_ensures(add_up, (records,), stats),
    ensures
        stats.total_requests == records@.len(),
        stats.complete_requests == bodies(records@, true),
        stats.incomplete_requests == bodies(records@, false),
        stored_bytes(records@) <= u64::MAX ==> stats.stored_body_bytes == stored_bytes(records@),
        is_ranking(tallied(paths_of(records@)), 8, stats.top_paths@),
        is_ranking(tallied(methods_of(records@)), 8, stats.top_methods@),
{
}

} // verus!
