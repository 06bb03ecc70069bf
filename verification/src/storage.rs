//! Where requests are kept: directories, file names and paths.

use vstd::prelude::*;
use vstd::string::*;

use crate::config::BodyMode;
use crate::segments;
use crate::text;
use crate::time::{LocalTime, Moment};

verus! {

/// The layout of the records below a root directory.
#[derive(Debug)]
pub struct LocalStorage {
    root: String,
}

/// Where one request is kept.
#[derive(Debug)]
pub struct StoredRequestPaths {
    meta_path: String,
    body_path: Option<String>,
    body_file_name: Option<String>,
}

/// Where one request is kept.
pub struct StoredPaths {
    pub meta_path: Seq<char>,
    pub body_path: Option<Seq<char>>,
    pub body_file_name: Option<Seq<char>>,
}

impl View for StoredRequestPaths {
    type V = StoredPaths;

    closed spec fn view(&self) -> StoredPaths {
        StoredPaths {
            meta_path: self.meta_path@,
            body_path: text::optional_text(self.body_path),
            body_file_name: text::optional_text(self.body_file_name),
        }
    }
}

/// `part` below `base`; a part that begins with `/` stands for itself.
pub open spec fn joined(base: Seq<char>, part: Seq<char>) -> Seq<char> {
    if part.len() > 0 && part[0] == '/' {
        part
    } else if base.len() == 0 || base.last() == '/' {
        base + part
    } else {
        base + "/"@ + part
    }
}

/// `parts`, one below the other, below `base`.
pub open spec fn descended(base: Seq<char>, parts: Seq<Seq<char>>) -> Seq<char>
    decreases parts.len(),
{
    if parts.len() == 0 {
        base
    } else {
        joined(descended(base, parts.drop_last()), parts.last())
    }
}

/// `part` below `base`.
pub fn join_path(base: &str, part: &str) -> (path: String)
    ensures
        path@ == joined(base@, part@),
{
    let below: Vec<char> = text::to_chars(part);
    if below.len() > 0 && below[0] == '/' {
        return part.to_string();
    }
    let above: Vec<char> = text::to_chars(base);
    let mut path: String = base.to_string();
    if above.len() > 0 && above[above.len() - 1] != '/' {
        path.append("/");
    }
    path.append(part);
    path
}

/// The directories for a time: year, month, day, hour and minute.
pub open spec fn time_directories(shown: LocalTime) -> Seq<Seq<char>> {
    seq![
        text::signed_padded(shown.year as int, 4),
        text::zero_padded(text::decimal(shown.month as nat), 2),
        text::zero_padded(text::decimal(shown.day as nat), 2),
        text::zero_padded(text::decimal(shown.hour as nat), 2),
        text::zero_padded(text::decimal(shown.minute as nat), 2),
    ]
}

/// The directory of the requests on a path in a minute.
pub open spec fn request_directory(
    root: Seq<char>,
    request_path: Seq<char>,
    shown: LocalTime,
) -> Seq<char> {
    descended(descended(root, segments::path_directories(request_path)), time_directories(shown))
}

/// The name of a metadata file.
pub open spec fn meta_name(id: Seq<char>) -> Seq<char> {
    seq![id, ".json"@].flatten()
}

/// The name of a body file, where bodies are stored.
pub open spec fn body_name(id: Seq<char>, mode: BodyMode) -> Option<Seq<char>> {
    match mode.extension_text() {
        Some(extension) => Some(seq![id, "."@, extension].flatten()),
        None => None,
    }
}

/// Where the request `id` on a path is kept that came in when the clock showed
/// `shown`.
pub open spec fn stored_paths(
    root: Seq<char>,
    request_path: Seq<char>,
    shown: LocalTime,
    id: Seq<char>,
    mode: BodyMode,
) -> StoredPaths {
    let directory = request_directory(root, request_path, shown);
    StoredPaths {
        meta_path: joined(directory, meta_name(id)),
        body_path: match body_name(id, mode) {
            Some(name) => Some(joined(directory, name)),
            None => None,
        },
        body_file_name: body_name(id, mode),
    }
}

impl LocalStorage {
    /// The root directory.
    pub closed spec fn root_text(&self) -> Seq<char> {
        self.root@
    }

    /// The layout below `root`.
    pub fn new(root: String) -> (storage: LocalStorage)
        ensures
            storage.root_text() == root@,
    {
        LocalStorage { root }
    }

    /// The root directory.
    pub fn root(&self) -> (root: &str)
        ensures
            root@ == self.root_text(),
    {
        self.root.as_str()
    }

    /// Where the request `id` is kept that came in on `request_path` when the
    /// clock showed `shown`.
    pub fn paths_at(
        &self,
        request_path: &str,
        shown: LocalTime,
        id: &str,
        body_mode: BodyMode,
    ) -> (paths: StoredRequestPaths)
        ensures
            paths@ == stored_paths(self.root_text(), request_path@, shown, id@, body_mode),
    {
        let names: Vec<String> = segments::request_path_segments(request_path);
        let place: String = descend(self.root.clone(), &names);
        let mut minute: Vec<String> = Vec::new();
        minute.push(text::signed_text(shown.year, 4));
        minute.push(text::padded_decimal(shown.month as u64, 2));
        minute.push(text::padded_decimal(shown.day as u64, 2));
        minute.push(text::padded_decimal(shown.hour as u64, 2));
        minute.push(text::padded_decimal(shown.minute as u64, 2));
        assert(text::contents(minute@) =~= time_directories(shown));
        let directory: String = descend(place, &minute);
        let meta_file_name: String = text::join_two(id, ".json");
        let meta_path: String = join_path(directory.as_str(), meta_file_name.as_str());
        match body_mode.extension() {
            Some(extension) => {
                let parts: [&str; 3] = [id, ".", extension];
                assert(text::borrowed_contents(parts@) =~= seq![id@, "."@, extension@]);
                let file: String = text::join_parts(&parts);
                let body_path: String = join_path(directory.as_str(), file.as_str());
                StoredRequestPaths {
                    meta_path,
                    body_path: Some(body_path),
                    body_file_name: Some(file),
                }
            },
            None => StoredRequestPaths { meta_path, body_path: None, body_file_name: None },
        }
    }

    /// Where the request `id` is kept that came in on `request_path` at
    /// `received_at`.
    pub fn paths_for(
        &self,
        request_path: &str,
        received_at: &Moment,
        id: &str,
        body_mode: BodyMode,
    ) -> (paths: StoredRequestPaths)
        ensures
            paths@ == stored_paths(
                self.root_text(),
                request_path@,
                received_at.shown(),
                id@,
                body_mode,
            ),
    {
        self.paths_at(request_path, received_at.local_time(), id, body_mode)
    }

    /// The place that `parts` lead to, one below the other.
    pub fn path_of(&self, parts: &Vec<String>) -> (path: String)
        ensures
            path@ == descended(self.root_text(), text::contents(parts@)),
    {
        descend(self.root.clone(), parts)
    }
}

/// `parts`, one below the other, below `base`.
fn descend(base: String, parts: &Vec<String>) -> (path: String)
    ensures
        path@ == descended(base@, text::contents(parts@)),
{
    let mut path: String = base;
    let ghost start = path@;
    let ghost all = text::contents(parts@);
    for i in 0..parts.len()
        invariant
            all == text::contents(parts@),
            path@ == descended(start, all.take(i as int)),
    {
        path = join_path(path.as_str(), parts[i].as_str());
        assert(all.take(i + 1).drop_last() == all.take(i as int));
        assert(all.take(i + 1).last() == parts@[i as int]@);
    }
    assert(all.take(parts@.len() as int) == all);
    path
}

impl StoredRequestPaths {
    /// The path of the metadata file.
    pub fn meta_path(&self) -> (path: &str)
        ensures
            path@ == self@.meta_path,
    {
        self.meta_path.as_str()
    }

    /// The path under which the metadata file is written before it gets its name.
    pub fn temporary_path(&self) -> (path: String)
        ensures
            path@ == self@.meta_path + ".tmp"@,
    {
        let mut path: String = self.meta_path.clone();
        path.append(".tmp");
        path
    }

    /// The path of the body file, where bodies are stored.
    pub fn body_path(&self) -> (path: Option<&str>)
        ensures
            path is Some <==> self@.body_path is Some,
            path matches Some(p) ==> Some(p@) == self@.body_path,
    {
        match &self.body_path {
            Some(path) => Some(path.as_str()),
            None => None,
        }
    }

    /// The name of the body file, where bodies are stored.
    pub fn body_file_name(&self) -> (name: Option<String>)
        ensures
            text::optional_text(name) == self@.body_file_name,
    {
        match &self.body_file_name {
            Some(name) => Some(name.clone()),
            None => None,
        }
    }
}

/// The name of a metadata file: something, and then `.json`.
pub open spec fn is_meta_name(name: Seq<char>) -> bool {
    name.len() > 5 && ".json"@.is_suffix_of(name)
}

/// The name of the metadata file of the request `id`.
pub open spec fn is_meta_name_of(name: Seq<char>, id: Seq<char>) -> bool {
    id.len() > 0 && name == id + ".json"@
}

/// Whether a file name is that of a metadata file.
pub fn is_metadata_file(name: &str) -> (yes: bool)
    ensures
        yes == is_meta_name(name@),
{
    let chars: Vec<char> = text::to_chars(name);
    let suffix: Vec<char> = text::to_chars(".json");
    chars.len() > 5 && text::ends_with(chars.as_slice(), suffix.as_slice())
}

/// Whether a file name is that of the metadata file of the request `id`.
pub fn names_record(name: &str, id: &str) -> (yes: bool)
    ensures
        yes == is_meta_name_of(name@, id@),
{
    let own: String = text::join_two(id, ".json");
    proof {
        text::lemma_two(id@, ".json"@);
    }
    let chars: Vec<char> = text::to_chars(id);
    chars.len() > 0 && text::same_text(name, own.as_str())
}

/// A metadata file is that of exactly one request, the one that its name gives.
pub proof fn law_metadata_file_names_one_request(name: Seq<char>, id: Seq<char>)
    ensures
        is_meta_name(name) ==> is_meta_name_of(name, name.take(name.len() - 5)),
        is_meta_name_of(name, id) ==> is_meta_name(name) && id == name.take(name.len() - 5),
        id.len() > 0 ==> is_meta_name_of(meta_name(id), id),
{
    reveal_strlit(".json");
    text::lemma_two(id, ".json"@);
    if is_meta_name(name) {
        assert(name =~= name.take(name.len() - 5) + ".json"@);
    }
    if is_meta_name_of(name, id) {
        assert(".json"@ =~= name.subrange(name.len() - 5, name.len() as int));
        assert(id =~= name.take(name.len() - 5));
    }
}

/// A name that is one step down in a path.
pub open spec fn is_one_step(name: Seq<char>) -> bool {
    &&& name.len() > 0
    &&& !name.contains('/')
    &&& name != "."@
    &&& name != ".."@
}

proof fn lemma_descended_further(base: Seq<char>, a: Seq<Seq<char>>, b: Seq<Seq<char>>)
    ensures
        descended(descended(base, a), b) == descended(base, a + b),
    decreases b.len(),
{
    if b.len() == 0 {
        assert(a + b == a);
    } else {
        lemma_descended_further(base, a, b.drop_last());
        assert((a + b).drop_last() == a + b.drop_last());
        assert((a + b).last() == b.last());
    }
}

proof fn lemma_descended_below(base: Seq<char>, parts: Seq<Seq<char>>)
    requires
        forall|i: int| 0 <= i < parts.len() ==> is_one_step(#[trigger] parts[i]),
    ensures
        base.is_prefix_of(descended(base, parts)),
    decreases parts.len(),
{
    if parts.len() > 0 {
        let above = parts.drop_last();
        assert forall|i: int| 0 <= i < above.len() implies is_one_step(#[trigger] above[i]) by {
            assert(above[i] == parts[i]);
        }
        lemma_descended_below(base, above);
        assert(is_one_step(parts[parts.len() - 1]));
        assert(!(parts.last()[0] == '/'));
        let place = descended(base, above);
        let whole = descended(base, parts);
        assert(place.is_prefix_of(whole));
        assert(base =~= whole.subrange(0, base.len() as int));
    }
}

proof fn lemma_number_is_one_step(n: int, width: nat)
    ensures
        is_one_step(text::signed_padded(n, width)),
{
    reveal_strlit(".");
    reveal_strlit("..");
    let size = if n >= 0 {
        n as nat
    } else {
        (-n) as nat
    };
    crate::size::lemma_decimal(size);
    let name = text::signed_padded(n, width);
    assert(name[0] == '-' || text::is_digit(name[0]));
    assert("."@[0] == '.');
    assert(".."@[0] == '.');
    assert forall|i: int| 0 <= i < name.len() implies text::is_digit(#[trigger] name[i]) || name[i]
        == '-' by {}
}

/// The directory of a request lies below the root by way of the directories of its
/// path and then those of its time.
pub proof fn lemma_request_directory(root: Seq<char>, request_path: Seq<char>, shown: LocalTime)
    ensures
        request_directory(root, request_path, shown) == descended(
            root,
            segments::path_directories(request_path) + time_directories(shown),
        ),
{
    lemma_descended_further(
        root,
        segments::path_directories(request_path),
        time_directories(shown),
    );
}

/// Whatever path a request comes in on, its record lies below the root: the way
/// from there leads down by one plain name after the other. (The id has to be a
/// token itself, as the ids of this library are.)
pub proof fn law_record_stays_below_root(
    root: Seq<char>,
    request_path: Seq<char>,
    shown: LocalTime,
    id: Seq<char>,
    mode: BodyMode,
)
    requires
        forall|i: int| 0 <= i < id.len() ==> crate::capture::is_token_char(#[trigger] id[i]),
    ensures
        ({
            let paths = stored_paths(root, request_path, shown, id, mode);
            let folders = segments::path_directories(request_path) + time_directories(shown);
            &&& forall|i: int| 0 <= i < folders.len() ==> is_one_step(#[trigger] folders[i])
            &&& is_one_step(meta_name(id))
            &&& paths.meta_path == descended(root, folders.push(meta_name(id)))
            &&& root.is_prefix_of(paths.meta_path)
            &&& paths.body_path matches Some(path) ==> {
                &&& is_one_step(body_name(id, mode)->0)
                &&& path == descended(root, folders.push(body_name(id, mode)->0))
                &&& root.is_prefix_of(path)
            }
        }),
{
    let named = segments::path_directories(request_path);
    let timed = time_directories(shown);
    let folders = named + timed;
    lemma_request_directory(root, request_path, shown);
    segments::law_directories_are_safe(request_path);
    lemma_number_is_one_step(shown.year as int, 4);
    lemma_number_is_one_step(shown.month as int, 2);
    lemma_number_is_one_step(shown.day as int, 2);
    lemma_number_is_one_step(shown.hour as int, 2);
    lemma_number_is_one_step(shown.minute as int, 2);
    assert forall|i: int| 0 <= i < folders.len() implies is_one_step(#[trigger] folders[i]) by {
        if i < named.len() {
            assert(folders[i] == named[i]);
            segments::law_safe_directory_is_one_step(named[i]);
        } else {
            assert(folders[i] == timed[i - named.len()]);
        }
    }
    lemma_file_is_one_step(id, ".json"@);
    lemma_file_below(root, folders, meta_name(id));
    match mode {
        BodyMode::Compressed => {
            lemma_file_is_one_step(id, ".body.bin.gz"@);
            lemma_body_suffix(id, mode);
            lemma_file_below(root, folders, body_name(id, mode)->0);
        },
        BodyMode::Raw => {
            lemma_file_is_one_step(id, ".body.bin"@);
            lemma_body_suffix(id, mode);
            lemma_file_below(root, folders, body_name(id, mode)->0);
        },
        BodyMode::MetadataOnly => {},
    }
}

/// What stands behind the id in the name of a body file, with its dot.
pub open spec fn body_suffix(mode: BodyMode) -> Seq<char> {
    match mode {
        BodyMode::Compressed => ".body.bin.gz"@,
        _ => ".body.bin"@,
    }
}

/// A body file is named by the id and the suffix of its mode.
pub proof fn lemma_body_suffix(id: Seq<char>, mode: BodyMode)
    requires
        mode != BodyMode::MetadataOnly,
    ensures
        body_name(id, mode) == Some(seq![id, body_suffix(mode)].flatten()),
{
    reveal_strlit(".");
    reveal_strlit("body.bin");
    reveal_strlit("body.bin.gz");
    reveal_strlit(".body.bin");
    reveal_strlit(".body.bin.gz");
    let extension = mode.extension_text()->0;
    assert(body_suffix(mode) =~= "."@ + extension);
    text::lemma_two(id, body_suffix(mode));
    text::lemma_flatten_last(seq![id, "."@, extension]);
    assert(seq![id, "."@, extension].drop_last() =~= seq![id, "."@]);
    text::lemma_two(id, "."@);
    assert(id + "."@ + extension =~= id + body_suffix(mode));
}

proof fn lemma_file_is_one_step(id: Seq<char>, suffix: Seq<char>)
    requires
        forall|i: int| 0 <= i < id.len() ==> crate::capture::is_token_char(#[trigger] id[i]),
        suffix == ".json"@ || suffix == ".body.bin"@ || suffix == ".body.bin.gz"@,
    ensures
        is_one_step(seq![id, suffix].flatten()),
{
    reveal_strlit(".");
    reveal_strlit("..");
    reveal_strlit(".json");
    reveal_strlit(".body.bin");
    reveal_strlit(".body.bin.gz");
    text::lemma_two(id, suffix);
    let name = id + suffix;
    assert(name.len() > 2);
    assert forall|i: int| 0 <= i < name.len() implies #[trigger] name[i] != '/' by {
        if i >= id.len() {
            assert(name[i] == suffix[i - id.len()]);
        } else {
            assert(name[i] == id[i]);
        }
    }
}

proof fn lemma_file_below(root: Seq<char>, folders: Seq<Seq<char>>, name: Seq<char>)
    requires
        forall|i: int| 0 <= i < folders.len() ==> is_one_step(#[trigger] folders[i]),
        is_one_step(name),
    ensures
        joined(descended(root, folders), name) == descended(root, folders.push(name)),
        root.is_prefix_of(joined(descended(root, folders), name)),
{
    let parts = folders.push(name);
    assert(parts.drop_last() == folders);
    assert forall|i: int| 0 <= i < parts.len() implies is_one_step(#[trigger] parts[i]) by {
        if i < folders.len() {
            assert(parts[i] == folders[i]);
        }
    }
    lemma_descended_below(root, parts);
}

/// The files of a request are named by its id: the metadata file with `.json` behind
/// it, the body file with `.body.bin` as it came, or `.body.bin.gz` compressed.
pub proof fn law_files_are_named_by_the_id(id: Seq<char>)
    ensures
        meta_name(id) == id + ".json"@,
        body_name(id, BodyMode::Raw) == Some(id + ".body.bin"@),
        body_name(id, BodyMode::Compressed) == Some(id + ".body.bin.gz"@),
        body_name(id, BodyMode::MetadataOnly) is None,
{
    text::lemma_two(id, ".json"@);
    lemma_body_suffix(id, BodyMode::Raw);
    lemma_body_suffix(id, BodyMode::Compressed);
    text::lemma_two(id, ".body.bin"@);
    text::lemma_two(id, ".body.bin.gz"@);
}

/// The metadata file and the body file of a request lie in one folder, and a body
/// file has a path exactly if it has a name.
pub proof fn law_files_of_a_request_lie_together(
    root: Seq<char>,
    request_path: Seq<char>,
    shown: LocalTime,
    id: Seq<char>,
    mode: BodyMode,
)
    ensures
        ({
            let paths = stored_paths(root, request_path, shown, id, mode);
            let folder = request_directory(root, request_path, shown);
            &&& paths.meta_path == joined(folder, id + ".json"@)
            &&& mode == BodyMode::Raw ==> paths.body_file_name == Some(id + ".body.bin"@)
                && paths.body_path == Some(joined(folder, id + ".body.bin"@))
            &&& mode == BodyMode::Compressed ==> paths.body_file_name == Some(
                id + ".body.bin.gz"@,
            ) && paths.body_path == Some(joined(folder, id + ".body.bin.gz"@))
            &&& mode == BodyMode::MetadataOnly ==> paths.body_file_name is None
                && paths.body_path is None
        }),
{
    law_files_are_named_by_the_id(id);
}

/// A part stands below its base behind one slash, whether the base ends in one or
/// not; one that begins with a slash stands for itself.
pub proof fn law_one_slash_stands_between(base: Seq<char>, part: Seq<char>)
    requires
        base.len() > 0,
        base.last() != '/',
        part.len() > 0,
    ensures
        part[0] != '/' ==> joined(base, part) == base + seq!['/'] + part,
        part[0] != '/' ==> joined(base + seq!['/'], part) == base + seq!['/'] + part,
        part[0] == '/' ==> joined(base, part) == part,
        part[0] != '/' ==> joined(Seq::empty(), part) == part,
{
    reveal_strlit("/");
    assert("/"@ =~= seq!['/']);
    assert(Seq::<char>::empty() + part =~= part);
}

/// The directories for a time give year, month, day, hour and minute, in this order:
/// each can be read back from its directory, the year from four digits and the others
/// from two. (Left out: years before 0 and past 9999, which take a sign or more
/// digits.)
pub proof fn law_time_is_read_back_from_its_directories(shown: LocalTime)
    requires
        0 <= shown.year <= 9999,
        shown.month <= 99,
        shown.day <= 99,
        shown.hour <= 99,
        shown.minute <= 99,
    ensures
        ({
            let names = time_directories(shown);
            &&& names.len() == 5
            &&& names[0].len() == 4 && crate::size::digits_value(names[0]) == shown.year
            &&& names[1].len() == 2 && crate::size::digits_value(names[1]) == shown.month
            &&& names[2].len() == 2 && crate::size::digits_value(names[2]) == shown.day
            &&& names[3].len() == 2 && crate::size::digits_value(names[3]) == shown.hour
            &&& names[4].len() == 2 && crate::size::digits_value(names[4]) == shown.minute
        }),
{
    assert(vstd::arithmetic::power::pow(10, 2) == 100 && vstd::arithmetic::power::pow(10, 4)
        == 10_000) by {
        reveal_with_fuel(vstd::arithmetic::power::pow, 5);
    }
    crate::size::lemma_decimal_len(shown.year as nat, 4);
    crate::size::lemma_decimal_len(shown.month as nat, 2);
    crate::size::lemma_decimal_len(shown.day as nat, 2);
    crate::size::lemma_decimal_len(shown.hour as nat, 2);
    crate::size::lemma_decimal_len(shown.minute as nat, 2);
    crate::size::law_padding_keeps_the_number(shown.year as nat, 4);
    crate::size::law_padding_keeps_the_number(shown.month as nat, 2);
    crate::size::law_padding_keeps_the_number(shown.day as nat, 2);
    crate::size::law_padding_keeps_the_number(shown.hour as nat, 2);
    crate::size::law_padding_keeps_the_number(shown.minute as nat, 2);
}

/// The way down from a place: nothing leads further than the place itself, and each
/// part one step further.
pub proof fn law_each_part_leads_one_step_further(
    base: Seq<char>,
    parts: Seq<Seq<char>>,
    more: Seq<char>,
)
    ensures
        descended(base, Seq::empty()) == base,
        descended(base, parts.push(more)) == joined(descended(base, parts), more),
{
    assert(parts.push(more).drop_last() == parts);
}

/// A request is stored by its path first and then by its time.
pub proof fn law_directory_is_path_and_then_time(
    root: Seq<char>,
    request_path: Seq<char>,
    shown: LocalTime,
)
    ensures
        request_directory(root, request_path, shown) == descended(
            root,
            segments::path_directories(request_path) + time_directories(shown),
        ),
{
    lemma_request_directory(root, request_path, shown);
}

} // verus!
