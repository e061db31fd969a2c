//! The music files of a directory: which entries count, and in what order they are listed.
use vstd::prelude::*;
use vstd::seq_lib::lemma_multiset_commutative;
use vstd::string::*;

use crate::order::{
    law_first_come_stays_first, law_precedes_orders_names, law_sort_forgets_first_order,
    law_sorted_places, law_stable_sort_is_unique, law_stable_sort_keeps_items,
    lemma_filtered_grows, lemma_filtered_place, lemma_filtered_source, lemma_with_key_as_filter,
    precedes, stably_sorted, with_key,
};
use crate::sort::{own_key, sorted};

verus! {

/// A file: the number that stands for its path, and its name as it is shown. Two files have the
/// same number exactly where their paths are equal.
#[derive(Debug)]
pub struct Track {
    pub path: u64,
    pub name: String,
}

impl Clone for Track {
    fn clone(&self) -> (res: Track)
        ensures
            res == *self,
    {
        Track { path: self.path, name: self.name.clone() }
    }
}

/// An entry of a directory. `extension` is what follows the last dot of its name, where it is text.
/// A dot that starts the name starts no extension, so `.mp3` has none.
#[derive(Debug)]
pub struct Candidate {
    pub track: Track,
    pub is_file: bool,
    pub extension: Option<String>,
}

/// An entry with its extension and its name in lower case; the latter is the key of the list's
/// order.
#[derive(Debug)]
pub struct Prepared {
    pub track: Track,
    pub is_file: bool,
    pub extension: Option<String>,
    pub key: String,
}

/// The extensions, in lower case, that mark a file as music.
pub open spec fn music_extensions() -> Seq<&'static str> {
    seq!["mp3", "wav", "flac", "ogg", "m4a", "aac", "wma"]
}

pub open spec fn music_extension(lowered: Seq<char>) -> bool {
    exists|i: int|
        0 <= i < music_extensions().len() && (#[trigger] music_extensions()[i])@ == lowered
}

impl Prepared {
    /// A file whose extension marks it as music.
    pub open spec fn playable(self) -> bool {
        self.is_file && self.extension is Some && music_extension(self.extension->0@)
    }
}

/// What `str::to_lowercase` makes of a text.
pub uninterp spec fn lowercase_of(text: Seq<char>) -> Seq<char>;

/// Calls `str::to_lowercase`, whose result depends on the text alone, and on no locale.
#[verifier::external_body]
fn lowercase(text: &str) -> (res: String)
    ensures
        res@ == lowercase_of(text@),
{
    text.to_lowercase()
}

impl Candidate {
    /// A file whose extension, in lower case, marks it as music.
    pub open spec fn playable(self) -> bool {
        self.is_file && self.extension is Some && music_extension(
            lowercase_of(self.extension->0@),
        )
    }
}

/// The playable ones of `entries`, in their order.
pub open spec fn playable_entries(entries: Seq<Candidate>) -> Seq<Candidate> {
    entries.filter(|entry: Candidate| entry.playable())
}

/// The music among the entries of a directory, in the order of the entries.
pub open spec fn music_among(entries: Seq<Candidate>) -> Seq<Track> {
    playable_entries(entries).map_values(|entry: Candidate| entry.track)
}

/// The key of a file in the list's order, which is its name in lower case.
pub open spec fn name_key() -> spec_fn(Track) -> Seq<char> {
    |track: Track| lowercase_of(track.name@)
}

/// `list` holds `tracks` in the order of their names in lower case, and those whose names differ
/// in case only in the order in which they came.
pub open spec fn is_listing(tracks: Seq<Track>, list: Seq<Track>) -> bool {
    stably_sorted(tracks, name_key(), list)
}

/// The extensions, in lower case, that mark a file as music.
pub fn audio_extensions() -> (res: Vec<&'static str>)
    ensures
        res@ == music_extensions(),
        res@ == seq!["mp3", "wav", "flac", "ogg", "m4a", "aac", "wma"],
{
    let res: Vec<&'static str> = vec!["mp3", "wav", "flac", "ogg", "m4a", "aac", "wma"];
    assert(res@ =~= music_extensions());
    res
}

/// Whether an extension in lower case marks a file as music.
pub fn is_audio_extension(lowered: &String) -> (res: bool)
    ensures
        res == music_extension(lowered@),
{
    let known = audio_extensions();
    let mut i: usize = 0;
    while i < known.len()
        invariant
            i <= known.len(),
            known@ == music_extensions(),
            forall|j: int| 0 <= j < i ==> (#[trigger] music_extensions()[j])@ != lowered@,
        decreases known.len() - i,
    {
        if known[i].to_owned() == *lowered {
            assert(music_extensions()[i as int]@ == lowered@);
            return true;
        }
        i = i + 1;
    }
    false
}

/// The playable ones of `items`, in their order.
pub open spec fn playable_of(items: Seq<Prepared>) -> Seq<Prepared> {
    items.filter(|item: Prepared| item.playable())
}

/// The playable ones of `items`, sorted by their keys; those with equal keys keep their order.
pub fn select_music(items: Vec<Prepared>) -> (res: Vec<Prepared>)
    ensures
        stably_sorted(playable_of(items@), own_key(), res@),
        forall|i: int, j: int|
            0 <= i < j < res@.len() ==> !precedes(
                (#[trigger] res@[j]).key@,
                (#[trigger] res@[i]).key@,
            ),
{
    let ghost all = items@;
    let mut chosen: Vec<Prepared> = Vec::new();
    assert(playable_of(all.take(0)) =~= Seq::empty()) by {
        reveal(Seq::filter);
    }
    for item in it: items
        invariant
            it.seq() == all,
            chosen@ == playable_of(all.take(it.index() as int)),
    {
        proof {
            reveal(Seq::filter);
            let next = all.take(it.index() as int + 1);
            assert(next.drop_last() =~= all.take(it.index() as int));
            assert(next.last() == item);
        }
        let keep: bool = item.is_file && (match &item.extension {
            Some(extension) => is_audio_extension(extension),
            None => false,
        });
        if keep {
            chosen.push(item);
        }
    }
    assert(all.take(all.len() as int) =~= all);
    sorted(chosen)
}

/// An entry with its texts in lower case.
pub open spec fn prepares(entry: Candidate, item: Prepared) -> bool {
    &&& item.track == entry.track
    &&& item.is_file == entry.is_file
    &&& item.extension is Some == entry.extension is Some
    &&& entry.extension is Some ==> item.extension->0@ == lowercase_of(entry.extension->0@)
    &&& item.key@ == name_key()(entry.track)
}

fn prepare(entry: Candidate) -> (res: Prepared)
    ensures
        prepares(entry, res),
        res.key@ == lowercase_of(entry.track.name@),
{
    let key = lowercase(entry.track.name.as_str());
    let extension = match &entry.extension {
        Some(text) => Some(lowercase(text.as_str())),
        None => None,
    };
    Prepared { track: entry.track, is_file: entry.is_file, extension, key }
}

pub open spec fn tracks_of(items: Seq<Prepared>) -> Seq<Track> {
    items.map_values(|item: Prepared| item.track)
}

proof fn lemma_prepared_music(entries: Seq<Candidate>, items: Seq<Prepared>)
    requires
        entries.len() == items.len(),
        forall|i: int| 0 <= i < items.len() ==> prepares(entries[i], #[trigger] items[i]),
    ensures
        tracks_of(playable_of(items)) == music_among(entries),
        forall|i: int|
            0 <= i < playable_of(items).len() ==> (#[trigger] playable_of(items)[i]).key@
                == name_key()(playable_of(items)[i].track),
    decreases items.len(),
{
    reveal(Seq::filter);
    if items.len() > 0 {
        lemma_prepared_music(entries.drop_last(), items.drop_last());
        assert(prepares(entries.last(), items.last()));
        assert(entries.last().playable() == items.last().playable());
        let kept = playable_of(items.drop_last());
        let kept_entries = playable_entries(entries.drop_last());
        if items.last().playable() {
            assert(playable_of(items) == kept.push(items.last()));
            assert(playable_entries(entries) == kept_entries.push(entries.last()));
            assert(tracks_of(playable_of(items)) =~= tracks_of(kept).push(items.last().track));
            assert(music_among(entries) =~= music_among(entries.drop_last()).push(
                entries.last().track,
            ));
        } else {
            assert(playable_of(items) == kept);
            assert(playable_entries(entries) == kept_entries);
        }
    }
    assert(tracks_of(playable_of(items)) =~= music_among(entries));
}

proof fn lemma_tracks_with_key(items: Seq<Prepared>, key: Seq<char>)
    requires
        forall|i: int|
            0 <= i < items.len() ==> (#[trigger] items[i]).key@ == name_key()(items[i].track),
    ensures
        with_key(tracks_of(items), name_key(), key) == tracks_of(with_key(items, own_key(), key)),
    decreases items.len(),
{
    reveal(Seq::filter);
    if items.len() > 0 {
        lemma_tracks_with_key(items.drop_last(), key);
        assert(tracks_of(items).drop_last() =~= tracks_of(items.drop_last()));
        assert(items.last().key@ == name_key()(items.last().track));
    }
    assert(with_key(tracks_of(items), name_key(), key) =~= tracks_of(
        with_key(items, own_key(), key),
    ));
}

/// A stable sort by key of items whose keys are their list keys is a listing.
proof fn lemma_listing(items: Seq<Prepared>, list: Seq<Prepared>)
    requires
        stably_sorted(items, own_key(), list),
        forall|i: int|
            0 <= i < items.len() ==> (#[trigger] items[i]).key@ == name_key()(items[i].track),
    ensures
        is_listing(tracks_of(items), tracks_of(list)),
{
    law_stable_sort_keeps_items(items, own_key(), list);
    assert forall|i: int| 0 <= i < list.len() implies (#[trigger] list[i]).key@ == name_key()(
        list[i].track,
    ) by {
        broadcast use vstd::seq_lib::group_to_multiset_ensures;

        assert(list.contains(list[i]));
        assert(items.to_multiset().count(list[i]) > 0);
        assert(items.contains(list[i]));
    }
    assert forall|key: Seq<char>| #[trigger]
        with_key(tracks_of(list), name_key(), key) == with_key(
            tracks_of(items),
            name_key(),
            key,
        ) by {
        lemma_tracks_with_key(items, key);
        lemma_tracks_with_key(list, key);
        assert(with_key(list, own_key(), key) == with_key(items, own_key(), key));
    }
}

/// The music among the entries of a directory, listed by name without regard to case.
pub fn load_music_files(entries: Vec<Candidate>) -> (res: Vec<Track>)
    ensures
        is_listing(music_among(entries@), res@),
        forall|i: int, j: int|
            0 <= i < j < res@.len() ==> !precedes(
                lowercase_of((#[trigger] res@[j]).name@),
                lowercase_of((#[trigger] res@[i]).name@),
            ),
{
    let ghost all = entries@;
    let mut items: Vec<Prepared> = Vec::new();
    for entry in it: entries
        invariant
            it.seq() == all,
            items@.len() == it.index(),
            forall|i: int| 0 <= i < items@.len() ==> prepares(all[i], #[trigger] items@[i]),
    {
        items.push(prepare(entry));
    }
    let ghost chosen = playable_of(items@);
    proof {
        lemma_prepared_music(all, items@);
    }
    let list = select_music(items);
    let ghost order = list@;
    proof {
        lemma_listing(chosen, order);
    }
    let mut res: Vec<Track> = Vec::new();
    for item in it: list
        invariant
            it.seq() == order,
            res@ =~= tracks_of(order).take(it.index() as int),
    {
        res.push(item.track);
    }
    assert(res@ =~= tracks_of(order));
    assert forall|i: int, j: int| 0 <= i < j < res@.len() implies !precedes(
        lowercase_of((#[trigger] res@[j]).name@),
        lowercase_of((#[trigger] res@[i]).name@),
    ) by {
        law_list_is_by_whole_names(all, res@, i, j);
    }
    res
}

/// `list[i]` is the first file in the list with that path.
pub open spec fn is_first(list: Seq<Track>, path: u64, i: int) -> bool {
    &&& 0 <= i < list.len()
    &&& list[i].path == path
    &&& forall|j: int| 0 <= j < i ==> (#[trigger] list[j]).path != path
}

/// The place of the first file in the list with that path, if there is one.
pub open spec fn place_of(list: Seq<Track>, path: u64) -> Option<usize> {
    if exists|i: int| is_first(list, path, i) {
        Some((choose|i: int| is_first(list, path, i)) as usize)
    } else {
        None
    }
}

/// The place of the first file in the list with that path, if there is one.
pub fn find_path(list: &Vec<Track>, path: u64) -> (res: Option<usize>)
    ensures
        res == place_of(list@, path),
        res matches Some(i) ==> is_first(list@, path, i as int),
        res matches Some(i) ==> i < list@.len() && list@[i as int].path == path && forall|j: int|
            0 <= j < i ==> (#[trigger] list@[j]).path != path,
        res is None ==> forall|j: int| 0 <= j < list@.len() ==> (#[trigger] list@[j]).path != path,
{
    let mut i: usize = 0;
    while i < list.len()
        invariant
            i <= list.len(),
            forall|j: int| 0 <= j < i ==> (#[trigger] list@[j]).path != path,
        decreases list.len() - i,
    {
        if list[i].path == path {
            assert(is_first(list@, path, i as int));
            return Some(i);
        }
        i = i + 1;
    }
    None
}

/// A file is listed exactly where an entry of the directory is that file and playable, and as often
/// as there are such entries.
pub proof fn law_listing_is_the_music(entries: Seq<Candidate>, list: Seq<Track>)
    requires
        is_listing(music_among(entries), list),
    ensures
        list.to_multiset() == music_among(entries).to_multiset(),
        forall|track: Track| #[trigger]
            list.contains(track) <==> exists|i: int|
                0 <= i < entries.len() && (#[trigger] entries[i]).playable() && entries[i].track
                    == track,
{
    let kept = playable_entries(entries);
    let music = music_among(entries);
    law_stable_sort_keeps_items(music, name_key(), list);
    assert forall|track: Track|
        #![trigger list.contains(track)]
        {
            &&& list.contains(track) ==> exists|i: int|
                0 <= i < entries.len() && (#[trigger] entries[i]).playable() && entries[i].track
                    == track
            &&& (exists|i: int|
                0 <= i < entries.len() && (#[trigger] entries[i]).playable() && entries[i].track
                    == track) ==> list.contains(track)
        } by {
        broadcast use vstd::seq_lib::group_to_multiset_ensures;

        assert(list.contains(track) <==> list.to_multiset().count(track) > 0);
        assert(music.contains(track) <==> music.to_multiset().count(track) > 0);
        if list.contains(track) {
            let j = choose|j: int| 0 <= j < music.len() && music[j] == track;
            lemma_kept_entry(entries, j);
        }
        if exists|i: int|
            0 <= i < entries.len() && (#[trigger] entries[i]).playable() && entries[i].track
                == track {
            let i = choose|i: int|
                0 <= i < entries.len() && (#[trigger] entries[i]).playable() && entries[i].track
                    == track;
            entries.lemma_filter_contains(|entry: Candidate| entry.playable(), i);
            let j = choose|j: int| 0 <= j < kept.len() && kept[j] == entries[i];
            assert(music[j] == track);
        }
    }
}

proof fn lemma_kept_entry(entries: Seq<Candidate>, j: int)
    requires
        0 <= j < playable_entries(entries).len(),
    ensures
        exists|i: int|
            0 <= i < entries.len() && (#[trigger] entries[i]).playable() && entries[i]
                == playable_entries(entries)[j],
    decreases entries.len(),
{
    reveal(Seq::filter);
    if entries.len() > 0 {
        let rest = entries.drop_last();
        if j < playable_entries(rest).len() {
            lemma_kept_entry(rest, j);
            let i = choose|i: int|
                0 <= i < rest.len() && (#[trigger] rest[i]).playable() && rest[i]
                    == playable_entries(rest)[j];
            assert(entries[i] == rest[i]);
        } else {
            assert(entries[entries.len() - 1].playable());
        }
    }
}

/// The entries of a directory, in their order, have one listing only.
pub proof fn law_listing_is_unique(entries: Seq<Candidate>, one: Seq<Track>, two: Seq<Track>)
    requires
        is_listing(music_among(entries), one),
        is_listing(music_among(entries), two),
    ensures
        one == two,
{
    law_stable_sort_is_unique(music_among(entries), name_key(), one, two);
}

/// No two playable entries have names that are equal in lower case.
pub open spec fn names_differ(entries: Seq<Candidate>) -> bool {
    forall|i: int, j: int|
        0 <= i < j < entries.len() && entries[i].playable() && entries[j].playable()
            ==> name_key()((#[trigger] entries[i]).track) != name_key()(
            (#[trigger] entries[j]).track,
        )
}

proof fn lemma_music_keys_differ(entries: Seq<Candidate>)
    requires
        names_differ(entries),
    ensures
        forall|i: int, j: int|
            0 <= i < j < music_among(entries).len() ==> name_key()(
                #[trigger] music_among(entries)[i],
            ) != name_key()(#[trigger] music_among(entries)[j]),
    decreases entries.len(),
{
    reveal(Seq::filter);
    let music = music_among(entries);
    if entries.len() > 0 {
        let rest = entries.drop_last();
        assert forall|i: int, j: int|
            0 <= i < j < rest.len() && rest[i].playable() && rest[j].playable() implies name_key()(
            (#[trigger] rest[i]).track,
        ) != name_key()((#[trigger] rest[j]).track) by {
            assert(rest[i] == entries[i] && rest[j] == entries[j]);
        }
        lemma_music_keys_differ(rest);
        let kept = playable_entries(rest);
        if entries.last().playable() {
            assert(playable_entries(entries) == kept.push(entries.last()));
            assert(music =~= music_among(rest).push(entries.last().track));
            assert forall|i: int, j: int| 0 <= i < j < music.len() implies name_key()(
                #[trigger] music[i],
            ) != name_key()(#[trigger] music[j]) by {
                if j == music.len() - 1 {
                    lemma_kept_entry(rest, i);
                    let k = choose|k: int|
                        0 <= k < rest.len() && (#[trigger] rest[k]).playable() && rest[k]
                            == kept[i];
                    assert(entries[k] == rest[k]);
                    assert(entries[entries.len() - 1].playable());
                } else {
                    assert(music[i] == music_among(rest)[i]);
                    assert(music[j] == music_among(rest)[j]);
                }
            }
        } else {
            assert(playable_entries(entries) == kept);
        }
    }
}

proof fn lemma_music_of_both(a: Seq<Candidate>, b: Seq<Candidate>)
    ensures
        music_among(a + b) == music_among(a) + music_among(b),
{
    Seq::filter_distributes_over_add(a, b, |entry: Candidate| entry.playable());
    assert(music_among(a + b) =~= music_among(a) + music_among(b));
}

proof fn lemma_same_entries_same_music(one: Seq<Candidate>, two: Seq<Candidate>)
    requires
        one.to_multiset() == two.to_multiset(),
    ensures
        music_among(one).to_multiset() == music_among(two).to_multiset(),
    decreases one.len(),
{
    broadcast use vstd::seq_lib::group_to_multiset_ensures;

    assert(one.len() == one.to_multiset().len());
    assert(two.len() == two.to_multiset().len());
    if one.len() == 0 {
        assert(one =~= two);
    } else {
        let last = one.last();
        let single = seq![last];
        let rest = one.drop_last();
        assert(one =~= rest.push(last));
        assert(two.to_multiset().count(last) > 0);
        assert(two.contains(last));
        let k = choose|k: int| 0 <= k < two.len() && two[k] == last;
        let left = two.take(k);
        let right = two.skip(k + 1);
        assert(two.remove(k) =~= left + right);
        assert(rest.to_multiset() =~= one.to_multiset().remove(last));
        assert((left + right).to_multiset() =~= two.to_multiset().remove(last));
        lemma_same_entries_same_music(rest, left + right);
        assert(one =~= rest + single);
        assert(two =~= left + single + right);
        lemma_music_of_both(rest, single);
        lemma_music_of_both(left, right);
        lemma_music_of_both(left, single);
        lemma_music_of_both(left + single, right);
        lemma_multiset_commutative(music_among(rest), music_among(single));
        lemma_multiset_commutative(music_among(left), music_among(right));
        lemma_multiset_commutative(music_among(left), music_among(single));
        lemma_multiset_commutative(music_among(left) + music_among(single), music_among(right));
        assert(music_among(one).to_multiset() =~= music_among(two).to_multiset());
    }
}

/// Where no two accepted names are equal in lower case, the same entries give the same list in
/// whatever order the directory names them.
pub proof fn law_listing_forgets_directory_order(
    one: Seq<Candidate>,
    two: Seq<Candidate>,
    list_one: Seq<Track>,
    list_two: Seq<Track>,
)
    requires
        one.to_multiset() == two.to_multiset(),
        names_differ(one),
        is_listing(music_among(one), list_one),
        is_listing(music_among(two), list_two),
    ensures
        list_one == list_two,
{
    lemma_music_keys_differ(one);
    lemma_same_entries_same_music(one, two);
    law_sort_forgets_first_order(
        music_among(one),
        music_among(two),
        name_key(),
        list_one,
        list_two,
    );
}

/// The extensions of music, in lower case, are these seven and no others.
pub proof fn law_music_extensions(lowered: Seq<char>)
    ensures
        music_extension(lowered) <==> {
            ||| lowered == "mp3"@
            ||| lowered == "wav"@
            ||| lowered == "flac"@
            ||| lowered == "ogg"@
            ||| lowered == "m4a"@
            ||| lowered == "aac"@
            ||| lowered == "wma"@
        },
{
    let all = music_extensions();
    assert(all[0]@ == "mp3"@);
    assert(all[1]@ == "wav"@);
    assert(all[2]@ == "flac"@);
    assert(all[3]@ == "ogg"@);
    assert(all[4]@ == "m4a"@);
    assert(all[5]@ == "aac"@);
    assert(all[6]@ == "wma"@);
    if music_extension(lowered) {
        let i = choose|i: int| 0 <= i < all.len() && (#[trigger] all[i])@ == lowered;
        assert(0 <= i < 7);
    }
}

/// An entry without an extension, or that is no file, is no music. For any other the extension
/// decides, in whatever case it is written.
pub proof fn law_extension_decides(entry: Candidate, extension: String)
    ensures
        !entry.is_file ==> !entry.playable(),
        entry.extension is None ==> !entry.playable(),
        entry.is_file && entry.extension == Some(extension) ==> (entry.playable() <==> {
            ||| lowercase_of(extension@) == "mp3"@
            ||| lowercase_of(extension@) == "wav"@
            ||| lowercase_of(extension@) == "flac"@
            ||| lowercase_of(extension@) == "ogg"@
            ||| lowercase_of(extension@) == "m4a"@
            ||| lowercase_of(extension@) == "aac"@
            ||| lowercase_of(extension@) == "wma"@
        }),
{
    law_music_extensions(lowercase_of(extension@));
}

/// Of an entry whose texts are in lower case already, the extension decides as it stands.
pub proof fn law_lowered_extension_decides(item: Prepared, extension: String)
    ensures
        !item.is_file ==> !item.playable(),
        item.extension is None ==> !item.playable(),
        item.is_file && item.extension == Some(extension) ==> (item.playable() <==> {
            ||| extension@ == "mp3"@
            ||| extension@ == "wav"@
            ||| extension@ == "flac"@
            ||| extension@ == "ogg"@
            ||| extension@ == "m4a"@
            ||| extension@ == "aac"@
            ||| extension@ == "wma"@
        }),
{
    law_music_extensions(extension@);
}

/// One more entry of the directory adds its file to the music where it is playable, behind the
/// files before it, and nothing otherwise. An empty directory has no music.
pub proof fn law_each_entry_counts_once(entries: Seq<Candidate>, entry: Candidate)
    ensures
        music_among(Seq::empty()) == Seq::<Track>::empty(),
        entry.playable() ==> music_among(entries.push(entry)) == music_among(entries).push(
            entry.track,
        ),
        !entry.playable() ==> music_among(entries.push(entry)) == music_among(entries),
{
    reveal(Seq::filter);
    let longer = entries.push(entry);
    assert(longer.drop_last() =~= entries);
    assert(longer.last() == entry);
    assert(playable_entries(longer) == if entry.playable() {
        playable_entries(entries).push(entry)
    } else {
        playable_entries(entries)
    });
    assert(entry.playable() ==> music_among(longer) =~= music_among(entries).push(entry.track));
    assert(music_among(Seq::empty()) =~= Seq::<Track>::empty());
}

/// Of two listed files, the whole name of the first in lower case comes before that of the second.
/// Only where both are equal, character for character, the order is that of the directory.
pub proof fn law_list_is_by_whole_names(
    entries: Seq<Candidate>,
    list: Seq<Track>,
    i: int,
    j: int,
)
    requires
        is_listing(music_among(entries), list),
        0 <= i < j < list.len(),
    ensures
        !precedes(lowercase_of(list[j].name@), lowercase_of(list[i].name@)),
        lowercase_of(list[i].name@) != lowercase_of(list[j].name@) ==> precedes(
            lowercase_of(list[i].name@),
            lowercase_of(list[j].name@),
        ),
        lowercase_of(list[i].name@) == lowercase_of(list[j].name@) ==> exists|a: int, b: int|
            0 <= a < b < entries.len() && (#[trigger] entries[a]).playable() && (
            #[trigger] entries[b]).playable() && entries[a].track == list[i] && entries[b].track
                == list[j],
{
    let music = music_among(entries);
    let first = lowercase_of(list[i].name@);
    let second = lowercase_of(list[j].name@);
    law_sorted_places(music, name_key(), list, i, j);
    law_precedes_orders_names(first, second, first);
    if first == second {
        let (p, q) = choose|p: int, q: int|
            0 <= p < q < music.len() && #[trigger] music[p] == list[i] && #[trigger] music[q]
                == list[j];
        let keeps = |entry: Candidate| entry.playable();
        let a = lemma_filtered_source(entries, keeps, p);
        let b = lemma_filtered_source(entries, keeps, q);
        if b <= a {
            lemma_filtered_grows(entries, keeps, b, a);
        }
        assert(entries[a].playable() && entries[b].playable());
    }
}

/// Two playable entries whose whole names are equal in lower case are listed in the order in which
/// the directory names them.
pub proof fn law_equal_names_keep_directory_order(
    entries: Seq<Candidate>,
    list: Seq<Track>,
    a: int,
    b: int,
)
    requires
        is_listing(music_among(entries), list),
        0 <= a < b < entries.len(),
        entries[a].playable(),
        entries[b].playable(),
        lowercase_of(entries[a].track.name@) == lowercase_of(entries[b].track.name@),
    ensures
        exists|i: int, j: int|
            0 <= i < j < list.len() && #[trigger] list[i] == entries[a].track && #[trigger] list[j]
                == entries[b].track,
{
    let music = music_among(entries);
    let keeps = |entry: Candidate| entry.playable();
    let p = entries.take(a).filter(keeps).len() as int;
    let q = entries.take(b).filter(keeps).len() as int;
    lemma_filtered_place(entries, keeps, a);
    lemma_filtered_place(entries, keeps, b);
    lemma_filtered_grows(entries, keeps, a + 1, b);
    assert(music[p] == entries[a].track);
    assert(music[q] == entries[b].track);
    law_first_come_stays_first(music, name_key(), list, p, q);
}

/// Two playable entries whose whole names differ in lower case are listed in the order of those
/// names, whatever the order of the directory is.
pub proof fn law_different_names_decide(
    entries: Seq<Candidate>,
    list: Seq<Track>,
    a: int,
    b: int,
    i: int,
    j: int,
)
    requires
        is_listing(music_among(entries), list),
        0 <= a < entries.len(),
        0 <= b < entries.len(),
        0 <= i < list.len(),
        0 <= j < list.len(),
        list[i] == entries[a].track,
        list[j] == entries[b].track,
        precedes(lowercase_of(entries[a].track.name@), lowercase_of(entries[b].track.name@)),
    ensures
        i < j,
{
    let first = lowercase_of(list[i].name@);
    let second = lowercase_of(list[j].name@);
    law_precedes_orders_names(first, second, first);
    if j < i {
        law_list_is_by_whole_names(entries, list, j, i);
    }
}

/// For every name, the listed files that have it in lower case are the music that has it, in the
/// order of the directory.
pub proof fn law_each_name_is_listed_in_order(
    entries: Seq<Candidate>,
    list: Seq<Track>,
    name: Seq<char>,
)
    requires
        is_listing(music_among(entries), list),
    ensures
        list.filter(|track: Track| lowercase_of(track.name@) == name) == music_among(
            entries,
        ).filter(|track: Track| lowercase_of(track.name@) == name),
        list.len() == music_among(entries).len(),
{
    let music = music_among(entries);
    let keeps = |track: Track| lowercase_of(track.name@) == name;
    lemma_with_key_as_filter(list, name_key(), name, keeps);
    lemma_with_key_as_filter(music, name_key(), name, keeps);
    assert(with_key(list, name_key(), name) == with_key(music, name_key(), name));
    law_stable_sort_keeps_items(music, name_key(), list);
    broadcast use vstd::seq_lib::group_to_multiset_ensures;

    assert(list.len() == list.to_multiset().len());
    assert(music.len() == music.to_multiset().len());
}

/// One more prepared entry is chosen where it is playable, behind those before it.
pub proof fn law_each_item_counts_once(items: Seq<Prepared>, item: Prepared)
    ensures
        playable_of(Seq::empty()) == Seq::<Prepared>::empty(),
        item.playable() ==> playable_of(items.push(item)) == playable_of(items).push(item),
        !item.playable() ==> playable_of(items.push(item)) == playable_of(items),
{
    reveal(Seq::filter);
    let longer = items.push(item);
    assert(longer.drop_last() =~= items);
    assert(longer.last() == item);
}

/// The chosen entries stand in the order of their whole keys, and those with equal keys as they
/// came. Each of them is one of the playable ones, as often as it was given.
pub proof fn law_selection_is_by_keys(items: Seq<Prepared>, list: Seq<Prepared>, i: int, j: int)
    requires
        stably_sorted(playable_of(items), own_key(), list),
        0 <= i < j < list.len(),
    ensures
        list.to_multiset() == playable_of(items).to_multiset(),
        precedes(list[i].key@, list[j].key@) || list[i].key@ == list[j].key@ && exists|
            a: int,
            b: int,
        |
            0 <= a < b < playable_of(items).len() && #[trigger] playable_of(items)[a] == list[i]
                && #[trigger] playable_of(items)[b] == list[j],
{
    law_stable_sort_keeps_items(playable_of(items), own_key(), list);
    law_sorted_places(playable_of(items), own_key(), list, i, j);
}

/// A path's place in a list is the first at which it stands, and it has none where it stands
/// nowhere.
pub proof fn law_place_is_the_first(list: Seq<Track>, path: u64, i: usize)
    requires
        list.len() <= usize::MAX,
    ensures
        place_of(list, path) == Some(i) <==> i < list.len() && list[i as int].path == path && (
        forall|j: int| 0 <= j < i ==> (#[trigger] list[j]).path != path),
        place_of(list, path) is None <==> forall|j: int|
            0 <= j < list.len() ==> (#[trigger] list[j]).path != path,
{
    if exists|k: int| 0 <= k < list.len() && (#[trigger] list[k]).path == path {
        let k = choose|k: int| 0 <= k < list.len() && (#[trigger] list[k]).path == path;
        lemma_first_place(list, path, k);
    }
    if i < list.len() && list[i as int].path == path && (forall|j: int|
        0 <= j < i ==> (#[trigger] list[j]).path != path) {
        assert(is_first(list, path, i as int));
        let k = choose|k: int| is_first(list, path, k);
        assert(list[k].path == path);
        assert(k == i);
    }
}

proof fn lemma_first_place(list: Seq<Track>, path: u64, k: int)
    requires
        0 <= k < list.len() <= usize::MAX,
        list[k].path == path,
    ensures
        exists|i: int| is_first(list, path, i),
    decreases k,
{
    if exists|j: int| 0 <= j < k && (#[trigger] list[j]).path == path {
        let j = choose|j: int| 0 <= j < k && (#[trigger] list[j]).path == path;
        lemma_first_place(list, path, j);
    } else {
        assert(is_first(list, path, k));
    }
}

} // verus!
