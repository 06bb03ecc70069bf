//! What a cleanup removes: records that outlived their time, files that belong to
//! no record, and folders that hold nothing.

use vstd::prelude::*;
use vstd::string::*;

use crate::config::{BodyMode, Config};
use crate::models::RequestMeta;
use crate::order;
use crate::order::Ranked;
use crate::records;
use crate::records::{FoundRecord, RequestRecord};
use crate::segments;
use crate::storage;
use crate::storage::LocalStorage;
use crate::text;
use crate::time::LocalTime;

verus! {

/// How long before `now` something happened; nothing where it lies ahead.
pub open spec fn age(then: int, now: int) -> int {
    if now >= then {
        now - then
    } else {
        0
    }
}

/// How long before `now` something happened; nothing where it lies ahead.
fn age_at(then: i128, now: i128) -> (span: u128)
    ensures
        span == age(then as int, now as int),
{
    if now < then {
        0
    } else if then >= 0 {
        (now - then) as u128
    } else if now < 0 {
        (now - then) as u128
    } else {
        let before: u128 = if then == i128::MIN {
            170_141_183_460_469_231_731_687_303_715_884_105_728
        } else {
            (-then) as u128
        };
        now as u128 + before
    }
}

/// A record is to be removed: it is as old as records on its path may become.
pub open spec fn has_expired(config: Config, meta: RequestMeta, now: int) -> bool {
    age(meta.received_at.instant(), now) >= config.resolved_rule(meta.path@).ttl
}

/// Whether a record is to be removed at `now`, in nanoseconds since the Unix
/// epoch.
pub fn is_expired(config: &Config, meta: &RequestMeta, now: i128) -> (expired: bool)
    ensures
        expired == has_expired(*config, *meta, now as int),
{
    let ttl: u128 = config.rule_for_path(meta.path.as_str()).ttl;
    age_at(meta.received_at.unix_nanos(), now) >= ttl
}

/// A record is to be removed from the moment of its expiry on. (Left out: a record
/// that is kept for no time at all and was received in the future, which is
/// removed at once.)
pub proof fn law_expired_from_expiry_on(config: Config, meta: RequestMeta, now: int)
    requires
        meta.received_at.instant() <= now || config.resolved_rule(meta.path@).ttl > 0,
    ensures
        has_expired(config, meta, now) <==> now >= meta.received_at.instant()
            + config.resolved_rule(meta.path@).ttl,
{
}

/// Once a record is to be removed, it stays so.
pub proof fn law_expiry_is_final(config: Config, meta: RequestMeta, now: int, later: int)
    requires
        has_expired(config, meta, now),
        now <= later,
    ensures
        has_expired(config, meta, later),
{
}

/// Something was last changed at least `grace` ago. One that cannot be told, or
/// that lies ahead, is not that old.
pub open spec fn has_rested(modified: Option<i128>, now: int, grace: int) -> bool {
    modified matches Some(then) && then <= now && now - then >= grace
}

/// Whether something that was last changed at `modified` has been left alone for
/// `grace`. `None` stands for a time that could not be told.
pub fn is_older_than(modified: Option<i128>, now: i128, grace: u128) -> (rested: bool)
    ensures
        rested == has_rested(modified, now as int, grace as int),
{
    match modified {
        Some(then) => then <= now && age_at(then, now) >= grace,
        None => false,
    }
}

/// What to do with a file that is no metadata file.
#[derive(Debug)]
pub enum SweepCheck {
    /// Leave it.
    Keep,
    /// Remove it.
    Remove,
    /// Remove it unless there is a file of this name in the same folder.
    RemoveUnless(String),
}

/// What to do with a file.
pub enum Sweep {
    Keep,
    Remove,
    RemoveUnless(Seq<char>),
}

impl View for SweepCheck {
    type V = Sweep;

    open spec fn view(&self) -> Sweep {
        match self {
            SweepCheck::Keep => Sweep::Keep,
            SweepCheck::Remove => Sweep::Remove,
            SweepCheck::RemoveUnless(name) => Sweep::RemoveUnless(name@),
        }
    }
}

/// What a file of this name is left for: a metadata file that never got its name
/// is not needed, and a body file is needed as long as its metadata file is there.
pub open spec fn sweep_by_name(name: Seq<char>) -> Sweep {
    if ".json.tmp"@.is_suffix_of(name) {
        Sweep::Remove
    } else if ".body.bin.gz"@.is_suffix_of(name) {
        Sweep::RemoveUnless(storage::meta_name(name.take(name.len() - ".body.bin.gz"@.len())))
    } else if ".body.bin"@.is_suffix_of(name) {
        Sweep::RemoveUnless(storage::meta_name(name.take(name.len() - ".body.bin"@.len())))
    } else {
        Sweep::Keep
    }
}

/// The text in front of a suffix.
fn without_suffix(s: &Vec<char>, suffix: &Vec<char>) -> (front: String)
    requires
        suffix@.len() <= s@.len(),
    ensures
        front@ == s@.take(s@.len() - suffix@.len()),
{
    let part: Vec<char> = text::slice(s.as_slice(), 0, s.len() - suffix.len());
    assert(part@ =~= s@.take(s@.len() - suffix@.len()));
    text::from_chars(part.as_slice())
}

/// What to do with a file that is no metadata file, by its name and by when it was
/// last changed. A file that was changed within `grace`, or whose name is no text,
/// is left.
pub fn sweep_check(
    name: Option<&str>,
    modified: Option<i128>,
    now: i128,
    grace: u128,
) -> (check: SweepCheck)
    ensures
        check@ == match name {
            Some(n) if has_rested(modified, now as int, grace as int) => sweep_by_name(n@),
            _ => Sweep::Keep,
        },
{
    if !is_older_than(modified, now, grace) {
        return SweepCheck::Keep;
    }
    match name {
        None => SweepCheck::Keep,
        Some(n) => {
            let chars: Vec<char> = text::to_chars(n);
            let temporary: Vec<char> = text::to_chars(".json.tmp");
            let compressed: Vec<char> = text::to_chars(".body.bin.gz");
            let raw: Vec<char> = text::to_chars(".body.bin");
            if text::ends_with(chars.as_slice(), temporary.as_slice()) {
                SweepCheck::Remove
            } else if text::ends_with(chars.as_slice(), compressed.as_slice()) {
                let id: String = without_suffix(&chars, &compressed);
                SweepCheck::RemoveUnless(text::join_two(id.as_str(), ".json"))
            } else if text::ends_with(chars.as_slice(), raw.as_slice()) {
                let id: String = without_suffix(&chars, &raw);
                SweepCheck::RemoveUnless(text::join_two(id.as_str(), ".json"))
            } else {
                SweepCheck::Keep
            }
        },
    }
}

/// A file is removed: `found` says whether the file that it depends on is there,
/// `None` where that could not be told.
pub open spec fn is_swept(check: Sweep, found: Option<bool>) -> bool {
    match check {
        Sweep::Keep => false,
        Sweep::Remove => true,
        Sweep::RemoveUnless(_) => found == Some(false),
    }
}

/// Whether a file is removed, once it was looked whether the file that it depends
/// on is there. Where that could not be told, it is left.
pub fn sweeps(check: &SweepCheck, found: Option<bool>) -> (removed: bool)
    ensures
        removed == is_swept(check@, found),
{
    match check {
        SweepCheck::Keep => false,
        SweepCheck::Remove => true,
        SweepCheck::RemoveUnless(_) => match found {
            Some(there) => !there,
            None => false,
        },
    }
}

/// A body file belongs to the metadata file of the same request, and is left as
/// long as that is there.
pub proof fn law_body_file_stays_with_its_record(id: Seq<char>, mode: BodyMode)
    requires
        mode != BodyMode::MetadataOnly,
    ensures
        ({
            let name = storage::body_name(id, mode)->0;
            &&& sweep_by_name(name) == Sweep::RemoveUnless(storage::meta_name(id))
            &&& !is_swept(sweep_by_name(name), Some(true))
            &&& is_swept(sweep_by_name(name), Some(false))
            &&& !storage::is_meta_name(name)
        }),
{
    reveal_strlit(".json");
    reveal_strlit(".json.tmp");
    reveal_strlit(".body.bin");
    reveal_strlit(".body.bin.gz");
    let suffix = storage::body_suffix(mode);
    storage::lemma_body_suffix(id, mode);
    text::lemma_two(id, suffix);
    let name = id + suffix;
    assert(name.last() == suffix.last());
    assert(suffix.is_suffix_of(name)) by {
        assert(suffix =~= name.subrange(name.len() - suffix.len(), name.len() as int));
    }
    lemma_suffix_ends(".json"@, name);
    lemma_suffix_ends(".json.tmp"@, name);
    lemma_suffix_ends(".body.bin.gz"@, name);
    lemma_metadata_is_no_body(name);
    assert(name.take(name.len() - suffix.len()) =~= id);
}

proof fn lemma_suffix_ends(suffix: Seq<char>, name: Seq<char>)
    requires
        suffix.len() > 0,
    ensures
        suffix.is_suffix_of(name) ==> name.len() > 0 && name.last() == suffix.last(),
{
    if suffix.is_suffix_of(name) {
        assert(suffix == name.subrange(name.len() - suffix.len(), name.len() as int));
        assert(suffix.last() == name.subrange(
            name.len() - suffix.len(),
            name.len() as int,
        ).last());
    }
}

/// A metadata file that never got its name is removed, and is not taken for a
/// record.
pub proof fn law_unfinished_record_is_removed(id: Seq<char>)
    ensures
        sweep_by_name(storage::meta_name(id) + ".tmp"@) == Sweep::Remove,
        !storage::is_meta_name(storage::meta_name(id) + ".tmp"@),
{
    reveal_strlit(".json");
    reveal_strlit(".tmp");
    reveal_strlit(".json.tmp");
    text::lemma_two(id, ".json"@);
    let name = storage::meta_name(id) + ".tmp"@;
    assert(".json.tmp"@ =~= name.subrange(name.len() - 9, name.len() as int));
    lemma_suffix_ends(".json"@, name);
}

/// No metadata file is swept.
pub proof fn law_metadata_file_is_left(name: Seq<char>)
    requires
        storage::is_meta_name(name),
    ensures
        sweep_by_name(name) == Sweep::Keep,
{
    reveal_strlit(".json");
    reveal_strlit(".json.tmp");
    reveal_strlit(".body.bin");
    reveal_strlit(".body.bin.gz");
    lemma_suffix_ends(".json"@, name);
    lemma_suffix_ends(".json.tmp"@, name);
    lemma_suffix_ends(".body.bin"@, name);
    lemma_suffix_ends(".body.bin.gz"@, name);
    lemma_metadata_is_no_body(name);
}

proof fn lemma_metadata_is_no_body(name: Seq<char>)
    ensures
        !(".json"@.is_suffix_of(name) && ".body.bin"@.is_suffix_of(name)),
{
    reveal_strlit(".json");
    reveal_strlit(".body.bin");
    let a = ".json"@;
    let b = ".body.bin"@;
    if a.is_suffix_of(name) && b.is_suffix_of(name) {
        assert(a == name.subrange(name.len() - 5, name.len() as int));
        assert(b == name.subrange(name.len() - 9, name.len() as int));
        assert(a[3] == name[name.len() - 2]);
        assert(b[7] == name[name.len() - 2]);
    }
}

/// The folders that a file lies in, the innermost first, without the root.
pub open spec fn enclosing(place: Seq<Seq<char>>) -> Seq<Seq<Seq<char>>> {
    if place.len() == 0 {
        Seq::empty()
    } else {
        Seq::new((place.len() - 1) as nat, |k: int| place.take(place.len() - 1 - k))
    }
}

/// The folders that a file at `place` lies in, the innermost first, without the
/// root: those that may be left empty once the file is removed.
pub fn folders_around(place: &Vec<String>) -> (folders: Vec<Vec<String>>)
    ensures
        folders@.map_values(|folder: Vec<String>| text::contents(folder@)) == enclosing(
            text::contents(place@),
        ),
{
    let ghost whole = text::contents(place@);
    let mut folders: Vec<Vec<String>> = Vec::new();
    let mut current: Vec<String> = text::copy_list(place);
    let _ = current.pop();
    assert(text::contents(current@) =~= if whole.len() > 0 {
        whole.drop_last()
    } else {
        whole
    });
    while current.len() > 0
        invariant
            whole == text::contents(place@),
            whole.len() == 0 ==> current@.len() == 0,
            current@.len() + folders@.len() + 1 == whole.len() || whole.len() == 0,
            folders@.len() == enclosing(whole).len() - current@.len(),
            text::contents(current@) == whole.take(current@.len() as int),
            forall|k: int|
                0 <= k < folders@.len() ==> text::contents((#[trigger] folders@[k])@)
                    == enclosing(whole)[k],
        decreases current@.len(),
    {
        let ghost before = current@;
        let folder: Vec<String> = text::copy_list(&current);
        assert(text::contents(folder@) == enclosing(whole)[folders@.len() as int]);
        folders.push(folder);
        let _ = current.pop();
        assert(current@ == before.drop_last());
        assert(text::contents(current@) =~= text::contents(before).drop_last());
        assert(whole.take(before.len() as int).drop_last() =~= whole.take(before.len() - 1));
    }
    assert(folders@.map_values(|folder: Vec<String>| text::contents(folder@)) =~= enclosing(
        whole,
    ));
    folders
}

/// A folder or a file: the names that lead to it from the root.
#[derive(Debug)]
pub struct Entry {
    pub place: Vec<String>,
}

impl Ranked for Entry {
    /// The deeper one first.
    open spec fn ranks_before(self, other: Self) -> bool {
        self.place@.len() > other.place@.len()
    }

    proof fn rank_is_an_order(a: Self, b: Self, c: Self) {
    }

    fn outranks(&self, other: &Self) -> (yes: bool) {
        self.place.len() > other.place.len()
    }
}

/// The folders in the order in which they are looked at: the deepest first, and
/// equally deep ones as they came.
pub fn sweep_order(folders: Vec<Entry>) -> (ordered: Vec<Entry>)
    ensures
        order::is_top(folders@, folders@.len() as int, ordered@),
{
    let count: usize = folders.len();
    order::top(folders, count)
}

/// A folder is looked at before the folders that it lies in, so that emptying it
/// can leave them empty in turn.
pub proof fn law_inner_folders_come_first(
    folders: Seq<Entry>,
    ordered: Seq<Entry>,
    i: int,
    j: int,
)
    requires
        order::is_top(folders, folders.len() as int, ordered),
        0 <= i < ordered.len(),
        0 <= j < ordered.len(),
        ordered[i].place@.len() > ordered[j].place@.len(),
    ensures
        i < j,
{
    let places = choose|places: Seq<int>| #[trigger]
        order::is_order_of(folders, places) && ordered == order::picked(
            folders,
            places,
            folders.len() as int,
        );
    assert(ordered[i] == folders[places[i]]);
    assert(ordered[j] == folders[places[j]]);
    if j < i {
        assert(order::goes_first(folders, places[j], places[i]));
    }
}

/// The last name on the way to a file is that of a metadata file.
pub open spec fn leads_to_metadata(file: Entry) -> bool {
    file.place@.len() > 0 && storage::is_meta_name(file.place@.last()@)
}

/// What a cleanup looks at, and in which order.
#[derive(Debug)]
pub struct CleanupPlan {
    /// The metadata files, in the order in which they were found.
    pub records: Vec<Entry>,
    /// The other files, in the order in which they were found.
    pub others: Vec<Entry>,
    /// The folders, the deepest first.
    pub folders: Vec<Entry>,
}

/// What a cleanup looks at, of the files and folders that were found below the
/// root.
pub fn plan_cleanup(files: Vec<Entry>, folders: Vec<Entry>) -> (plan: CleanupPlan)
    ensures
        plan.records@ == files@.filter(|file: Entry| leads_to_metadata(file)),
        plan.others@ == files@.filter(|file: Entry| !leads_to_metadata(file)),
        order::is_top(folders@, folders@.len() as int, plan.folders@),
{
    let ghost all = files@;
    let ghost metadata = |file: Entry| leads_to_metadata(file);
    let ghost rest = |file: Entry| !leads_to_metadata(file);
    let mut records: Vec<Entry> = Vec::new();
    let mut others: Vec<Entry> = Vec::new();
    proof {
        reveal(Seq::filter);
    }
    for file in it: files
        invariant
            it.seq() == all,
            metadata == (|file: Entry| leads_to_metadata(file)),
            rest == (|file: Entry| !leads_to_metadata(file)),
            records@ == all.take(it.index()).filter(metadata),
            others@ == all.take(it.index()).filter(rest),
    {
        proof {
            reveal(Seq::filter);
            let i = it.index();
            assert(all.take(i + 1).drop_last() == all.take(i));
            assert(all.take(i + 1).last() == all[i]);
        }
        let last: usize = file.place.len();
        if last > 0 && storage::is_metadata_file(file.place[last - 1].as_str()) {
            records.push(file);
        } else {
            others.push(file);
        }
    }
    assert(all.take(all.len() as int) == all);
    CleanupPlan { records, others, folders: sweep_order(folders) }
}

/// What goes with an expired record: its body file, if it names one, then its
/// metadata file, and then the folders around them as long as they are empty.
#[derive(Debug)]
pub struct Removal {
    pub body_path: Option<String>,
    pub meta_path: String,
    pub folders: Vec<String>,
}

/// The folders that are still to be removed one after the other. The first that
/// stays ends it.
#[derive(Debug)]
pub struct Pruning {
    folders: Vec<String>,
    at: usize,
}

impl Pruning {
    /// The folders that are left to try, the next one first.
    pub closed spec fn left(self) -> Seq<Seq<char>> {
        text::contents(self.folders@).skip(self.at as int)
    }

    #[verifier::type_invariant]
    spec fn valid(self) -> bool {
        self.at <= self.folders@.len()
    }

    /// All of the folders are left.
    pub fn new(folders: Vec<String>) -> (pruning: Pruning)
        ensures
            pruning.left() == text::contents(folders@),
    {
        let pruning: Pruning = Pruning { folders, at: 0 };
        assert(pruning.left() =~= text::contents(folders@));
        pruning
    }

    /// The folder to try next.
    pub fn next_folder(&self) -> (folder: Option<&str>)
        ensures
            folder is Some <==> self.left().len() > 0,
            folder matches Some(f) ==> f@ == self.left()[0],
    {
        proof {
            use_type_invariant(self);
        }
        if self.at < self.folders.len() {
            Some(self.folders[self.at].as_str())
        } else {
            None
        }
    }

    /// Goes on where the folder that was tried is gone, and ends where it stayed.
    pub fn tried(&mut self, gone: bool)
        ensures
            final(self).left() == if gone && old(self).left().len() > 0 {
                old(self).left().drop_first()
            } else {
                Seq::empty()
            },
    {
        proof {
            use_type_invariant(&*self);
        }
        let ghost before = self.left();
        if gone && self.at < self.folders.len() {
            self.at = self.at + 1;
            assert(self.left() =~= before.drop_first());
        } else {
            self.at = self.folders.len();
            assert(self.left() =~= Seq::empty());
        }
    }
}

/// `removal` takes the record away that was found.
pub open spec fn is_removal_of(root: Seq<char>, found: FoundRecord, removal: Removal) -> bool {
    let place = text::contents(found.place@);
    let folder = if place.len() > 0 {
        storage::descended(root, place.drop_last())
    } else {
        root
    };
    &&& removal.meta_path@ == storage::descended(root, place)
    &&& text::optional_text(removal.body_path) == match found.meta.body.object {
        Some(object) => Some(storage::joined(folder, object@)),
        None => None,
    }
    &&& text::contents(removal.folders@) == enclosing(place).map_values(
        |way: Seq<Seq<char>>| storage::descended(root, way),
    )
}

impl LocalStorage {
    /// What to remove of a record that was found: nothing as long as it has not
    /// expired.
    pub fn cleanup_expired(&self, config: &Config, found: FoundRecord, now: i128) -> (removal:
        Option<Removal>)
        ensures
            removal is Some <==> has_expired(*config, found.meta, now as int),
            removal matches Some(r) ==> is_removal_of(self.root_text(), found, r),
    {
        if !is_expired(config, &found.meta, now) {
            return None;
        }
        let around: Vec<Vec<String>> = folders_around(&found.place);
        let ghost ways = around@.map_values(|folder: Vec<String>| text::contents(folder@));
        let ghost root = self.root_text();
        let mut folders: Vec<String> = Vec::new();
        for i in 0..around.len()
            invariant
                root == self.root_text(),
                ways == around@.map_values(|folder: Vec<String>| text::contents(folder@)),
                text::contents(folders@) == ways.take(i as int).map_values(
                    |way: Seq<Seq<char>>| storage::descended(root, way),
                ),
        {
            let folder: String = self.path_of(&around[i]);
            proof {
                text::lemma_contents_push(folders@, folder);
            }
            folders.push(folder);
            assert(text::contents(folders@) =~= ways.take(i + 1).map_values(
                |way: Seq<Seq<char>>| storage::descended(root, way),
            ));
        }
        assert(ways.take(ways.len() as int) == ways);
        let record: RequestRecord = self.record_at(found);
        Some(
            Removal { body_path: record.body_path, meta_path: record.meta_path, folders },
        )
    }
}

/// The removal of an expired record takes away the files under which it was
/// written, and then looks at the folder that they were in first.
pub proof fn law_removal_takes_what_was_stored(
    root: Seq<char>,
    request_path: Seq<char>,
    shown: LocalTime,
    id: Seq<char>,
    mode: BodyMode,
    found: FoundRecord,
    removal: Removal,
)
    requires
        id.len() > 0,
        forall|i: int| 0 <= i < id.len() ==> crate::capture::is_token_char(#[trigger] id[i]),
        text::contents(found.place@) == records::stored_place(request_path, shown, id),
        text::optional_text(found.meta.body.object) == storage::body_name(id, mode),
        is_removal_of(root, found, removal),
    ensures
        ({
            let paths = storage::stored_paths(root, request_path, shown, id, mode);
            &&& removal.meta_path@ == paths.meta_path
            &&& text::optional_text(removal.body_path) == paths.body_path
            &&& removal.folders@.len() > 0
            &&& removal.folders@[0]@ == storage::request_directory(root, request_path, shown)
        }),
{
    let folders = segments::path_directories(request_path) + storage::time_directories(shown);
    let place = text::contents(found.place@);
    storage::law_record_stays_below_root(root, request_path, shown, id, mode);
    storage::lemma_request_directory(root, request_path, shown);
    assert(place.drop_last() =~= folders);
    assert(place.take(place.len() - 1) =~= folders);
    let paths = enclosing(place).map_values(
        |way: Seq<Seq<char>>| storage::descended(root, way),
    );
    assert(text::contents(removal.folders@).len() == paths.len());
    assert(text::contents(removal.folders@)[0] == paths[0]);
    assert(enclosing(place)[0] == place.take(place.len() - 1));
}

/// Something has rested exactly if its last change and the grace together do not
/// reach past now, however long or short the grace is. What changed in the future, or
/// at a time that cannot be told, has not.
pub proof fn law_rest_lasts_the_whole_grace(modified: i128, now: int, grace: nat)
    ensures
        has_rested(Some(modified), now, grace as int) <==> modified + grace <= now,
        !has_rested(None, now, grace as int),
{
}

/// A longer grace never makes anything rested that is not, and what has rested stays
/// so until it is changed again.
pub proof fn law_longer_grace_keeps_more(
    modified: Option<i128>,
    now: int,
    later: int,
    grace: nat,
    longer: nat,
)
    requires
        grace <= longer,
        now <= later,
    ensures
        has_rested(modified, now, longer as int) ==> has_rested(modified, now, grace as int),
        has_rested(modified, now, grace as int) ==> has_rested(modified, later, grace as int),
{
}

/// A record is kept for all of the time that the rule for its path states, and for
/// no longer: it has not expired a nanosecond before, and has from then on.
pub proof fn law_record_is_kept_for_its_ttl(config: Config, meta: RequestMeta, passed: nat)
    ensures
        has_expired(config, meta, meta.received_at.instant() + passed) <==> passed
            >= config.resolved_rule(meta.path@).ttl,
{
}

/// Whether a record has expired depends on its path and on when it came in alone.
pub proof fn law_expiry_depends_on_path_and_time(
    config: Config,
    a: RequestMeta,
    b: RequestMeta,
    now: int,
)
    requires
        a.path@ == b.path@,
        a.received_at.instant() == b.received_at.instant(),
    ensures
        has_expired(config, a, now) == has_expired(config, b, now),
{
}

/// Nothing is swept but unfinished metadata files and body files, and of these a body
/// file only where its metadata file is known to be missing.
pub proof fn law_only_leftovers_are_swept(name: Seq<char>, found: Option<bool>)
    ensures
        is_swept(sweep_by_name(name), found) ==> {
            ||| ".json.tmp"@.is_suffix_of(name)
            ||| ".body.bin"@.is_suffix_of(name) && found == Some(false)
            ||| ".body.bin.gz"@.is_suffix_of(name) && found == Some(false)
        },
        ".json.tmp"@.is_suffix_of(name) ==> is_swept(sweep_by_name(name), found),
{
}

/// The folders around a file: the folder that it lies in, and then those around that.
/// A file directly below the root lies in none.
pub proof fn law_folders_lead_up(folder: Seq<Seq<char>>, name: Seq<char>)
    ensures
        enclosing(seq![name]).len() == 0,
        folder.len() > 0 ==> enclosing(folder.push(name)) == seq![folder] + enclosing(folder),
        folder.len() > 0 ==> enclosing(folder.push(name)).last() == seq![folder[0]],
{
    if folder.len() > 0 {
        let whole = folder.push(name);
        let expected = seq![folder] + enclosing(folder);
        assert(enclosing(whole).len() == expected.len());
        assert forall|k: int| 0 <= k < expected.len() implies enclosing(whole)[k] == expected[k] by {
            if k == 0 {
                assert(whole.take(folder.len() as int) =~= folder);
            } else {
                assert(whole.take(folder.len() - k) =~= folder.take(folder.len() - k));
                assert(expected[k] == enclosing(folder)[k - 1]);
            }
        }
        assert(enclosing(whole) =~= expected);
        assert(enclosing(whole).last() == whole.take(1));
        assert(whole.take(1) =~= seq![folder[0]]);
    }
}

/// A removal names the record's own files, and its folders from the innermost one up
/// to the one below the root: each lies directly in the next.
pub proof fn law_removal_goes_up_to_the_root(
    root: Seq<char>,
    found: FoundRecord,
    removal: Removal,
    k: int,
)
    requires
        is_removal_of(root, found, removal),
        found.place@.len() > 0,
    ensures
        removal.folders@.len() == found.place@.len() - 1,
        0 <= k < removal.folders@.len() - 1 ==> removal.folders@[k]@ == storage::joined(
            removal.folders@[k + 1]@,
            found.place@[found.place@.len() - 2 - k]@,
        ),
        removal.folders@.len() > 0 ==> removal.folders@[removal.folders@.len() - 1]@
            == storage::joined(root, found.place@[0]@) && removal.meta_path@ == storage::joined(
            removal.folders@[0]@,
            found.place@[found.place@.len() - 1]@,
        ),
        removal.body_path is Some <==> found.meta.body.object is Some,
        found.meta.body.object is Some && removal.folders@.len() > 0 ==> removal.body_path->0@
            == storage::joined(removal.folders@[0]@, found.meta.body.object->0@),
{
    let place = text::contents(found.place@);
    let ways = enclosing(place);
    let paths = ways.map_values(|way: Seq<Seq<char>>| storage::descended(root, way));
    assert(text::contents(removal.folders@).len() == paths.len());
    assert forall|m: int| 0 <= m < ways.len() implies #[trigger] removal.folders@[m]@
        == storage::descended(root, place.take(place.len() - 1 - m)) by {
        assert(text::contents(removal.folders@)[m] == paths[m]);
    }
    let count = removal.folders@.len();
    if count > 0 {
        assert(place.take(1).drop_last() =~= Seq::<Seq<char>>::empty());
        assert(place.take(1).last() == found.place@[0]@);
        assert(removal.folders@[count - 1]@ == storage::descended(root, place.take(1)));
        assert(storage::descended(root, Seq::empty()) == root);
        assert(removal.folders@[0]@ == storage::descended(root, place.take(place.len() - 1)));
        assert(place.drop_last() =~= place.take(place.len() - 1));
        assert(place.last() == found.place@[found.place@.len() - 1]@);
    }
    if 0 <= k < count - 1 {
        let inner = place.take(place.len() - 1 - k);
        assert(removal.folders@[k]@ == storage::descended(root, inner));
        assert(removal.folders@[k + 1]@ == storage::descended(
            root,
            place.take(place.len() - 2 - k),
        ));
        assert(inner.drop_last() =~= place.take(place.len() - 2 - k));
        assert(inner.last() == found.place@[found.place@.len() - 2 - k]@);
    }
}

/// Every file that is found is looked at once: a metadata file as a record, any other
/// as one that may be left over.
pub proof fn law_every_file_is_looked_at_once(files: Seq<Entry>)
    ensures
        files.filter(|file: Entry| leads_to_metadata(file)).len() + files.filter(
            |file: Entry| !leads_to_metadata(file),
        ).len() == files.len(),
    decreases files.len(),
{
    reveal(Seq::filter);
    if files.len() > 0 {
        law_every_file_is_looked_at_once(files.drop_last());
    }
}

/// A file is looked at as a record exactly if its name is something and then
/// `.json`, wherever it lies.
pub proof fn law_records_are_json_files(file: Entry, id: Seq<char>)
    requires
        file.place@.len() > 0,
    ensures
        id.len() > 0 && file.place@.last()@ == id + ".json"@ ==> leads_to_metadata(file),
        leads_to_metadata(file) ==> exists|front: Seq<char>|
            front.len() > 0 && file.place@.last()@ == #[trigger] (front + ".json"@),
{
    let name = file.place@.last()@;
    storage::law_metadata_file_names_one_request(name, id);
    if leads_to_metadata(file) {
        let front = name.take(name.len() - 5);
        assert(name == front + ".json"@);
    }
}

/// A record that came in in the future has not expired yet, unless it is kept for no
/// time at all.
pub proof fn law_future_record_is_kept(config: Config, meta: RequestMeta, now: int)
    requires
        now < meta.received_at.instant(),
    ensures
        has_expired(config, meta, now) <==> config.resolved_rule(meta.path@).ttl == 0,
{
}

/// What is said of a check is what it holds.
pub proof fn law_check_says_what_it_holds(name: String)
    ensures
        SweepCheck::Keep@ == Sweep::Keep,
        SweepCheck::Remove@ == Sweep::Remove,
        SweepCheck::RemoveUnless(name)@ == Sweep::RemoveUnless(name@),
{
}

/// Of two folders the deeper one is looked at first.
pub proof fn law_deeper_folder_ranks_first(a: Entry, b: Entry)
    ensures
        a.ranks_before(b) <==> a.place@.len() > b.place@.len(),
{
}

/// Whatever a sweep finds, it leaves a file whose last change and the grace together
/// reach past now, one whose last change cannot be told and one whose name is no text;
/// of the others it removes unfinished metadata files, and body files unless their
/// metadata file is there.
pub proof fn law_sweep_leaves_what_is_in_use(
    name: Option<&str>,
    modified: Option<i128>,
    now: i128,
    grace: u128,
    check: SweepCheck,
    id: Seq<char>,
)
    requires
        call_ensures(sweep_check, (name, modified, now, grace), check),
    ensures
        name is None || modified is None || modified->0 + grace > now ==> check is Keep,
        name is Some && modified is Some && modified->0 + grace <= now ==> {
            let n = name->0@;
            &&& n == id + ".json.tmp"@ ==> check is Remove
            &&& n == id + ".body.bin"@ || n == id + ".body.bin.gz"@ ==> check is RemoveUnless
                && check->RemoveUnless_0@ == id + ".json"@
            &&& storage::is_meta_name(n) ==> check is Keep
        },
{
    if name is Some && modified is Some {
        let n = name->0@;
        law_body_file_stays_with_its_record(id, BodyMode::Raw);
        law_body_file_stays_with_its_record(id, BodyMode::Compressed);
        storage::law_files_are_named_by_the_id(id);
        law_unfinished_record_is_removed(id);
        reveal_strlit(".json");
        reveal_strlit(".tmp");
        reveal_strlit(".json.tmp");
        assert(id + ".json"@ + ".tmp"@ =~= id + ".json.tmp"@);
        if storage::is_meta_name(n) {
            law_metadata_file_is_left(n);
        }
    }
}

/// Whether something is old enough to be swept: exactly if its last change and the
/// grace together do not reach past now.
pub proof fn law_is_older_than_waits_for_the_grace(
    modified: Option<i128>,
    now: i128,
    grace: u128,
    rested: bool,
)
    requires
        call_ensures(is_older_than, (modified, now, grace), rested),
    ensures
        rested <==> modified is Some && modified->0 + grace <= now,
{
}

/// A record is removed from the moment on at which it is as old as the rule for its
/// path allows.
pub proof fn law_is_expired_goes_by_the_rule(
    config: &Config,
    meta: &RequestMeta,
    now: i128,
    expired: bool,
)
    requires
        call_ensures(is_expired, (config, meta, now), expired),
        meta.received_at.instant() <= now,
    ensures
        expired <==> now - meta.received_at.instant() >= config.resolved_rule(meta.path@).ttl,
{
}

/// A file is removed exactly if nothing is needed for it, or if what it depends on is
/// known not to be there.
pub proof fn law_sweeps_only_what_nothing_needs(
    check: &SweepCheck,
    found: Option<bool>,
    removed: bool,
)
    requires
        call_ensures(sweeps, (check, found), removed),
    ensures
        *check is Keep ==> !removed,
        *check is Remove ==> removed,
        *check is RemoveUnless ==> (removed <==> found == Some(false)),
{
}

/// A record that has not expired is left; the files of one that has are removed, and
/// the folders around them looked at.
pub proof fn law_only_expired_records_are_removed(
    storage: &LocalStorage,
    config: &Config,
    found: FoundRecord,
    now: i128,
    removal: Option<Removal>,
)
    requires
        call_ensures(LocalStorage::cleanup_expired, (storage, config, found, now), removal),
        found.meta.received_at.instant() <= now,
    ensures
        removal is Some <==> now - found.meta.received_at.instant() >= config.resolved_rule(
            found.meta.path@,
        ).ttl,
        removal matches Some(r) ==> r.meta_path@ == storage::descended(
            storage.root_text(),
            text::contents(found.place@),
        ) && (r.body_path is Some <==> found.meta.body.object is Some),
{
}

} // verus!
