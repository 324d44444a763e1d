//! Which playlist each album was last downloaded from.

use vstd::prelude::*;

use crate::text::same_text;

verus! {

/// An album and the playlist that it was last downloaded from.
#[derive(Debug)]
pub struct AlbumSource {
    pub album: String,
    pub playlist_url: String,
}

impl Clone for AlbumSource {
    fn clone(&self) -> (r: AlbumSource)
        ensures
            r == *self,
    {
        AlbumSource { album: self.album.clone(), playlist_url: self.playlist_url.clone() }
    }
}

/// What a list of albums and playlists says, a later entry taking precedence.
pub open spec fn sources_map(entries: Seq<AlbumSource>) -> Map<Seq<char>, Seq<char>>
    decreases entries.len(),
{
    if entries.len() == 0 {
        Map::empty()
    } else {
        sources_map(entries.drop_last()).insert(
            entries.last().album@,
            entries.last().playlist_url@,
        )
    }
}

/// Whether no album is listed twice.
pub open spec fn albums_distinct(entries: Seq<AlbumSource>) -> bool {
    forall|i: int, j: int|
        0 <= i < j < entries.len() ==> (#[trigger] entries[i]).album@ != (
        #[trigger] entries[j]).album@
}

/// The playlist of each album that has been downloaded.
#[derive(Debug)]
pub struct AlbumSources {
    entries: Vec<AlbumSource>,
}

impl View for AlbumSources {
    type V = Map<Seq<char>, Seq<char>>;

    closed spec fn view(&self) -> Map<Seq<char>, Seq<char>> {
        sources_map(self.entries@)
    }
}

/// The map holds what some entry says, and each entry of a list without repetition is in it.
proof fn lemma_sources_map(entries: Seq<AlbumSource>)
    ensures
        forall|a: Seq<char>| #[trigger]
            sources_map(entries).contains_key(a) <==> exists|i: int|
                0 <= i < entries.len() && (#[trigger] entries[i]).album@ == a,
        albums_distinct(entries) ==> forall|i: int|
            0 <= i < entries.len() ==> sources_map(entries)[(#[trigger] entries[i]).album@]
                == entries[i].playlist_url@,
    decreases entries.len(),
{
    if entries.len() > 0 {
        let init = entries.drop_last();
        lemma_sources_map(init);
        assert forall|a: Seq<char>| #[trigger]
            sources_map(entries).contains_key(a) <==> exists|i: int|
                0 <= i < entries.len() && (#[trigger] entries[i]).album@ == a by {
            if sources_map(entries).contains_key(a) {
                if a == entries.last().album@ {
                    assert(entries[entries.len() - 1].album@ == a);
                } else {
                    assert(sources_map(init).contains_key(a));
                    let i = choose|i: int|
                        0 <= i < init.len() && (#[trigger] init[i]).album@ == a;
                    assert(entries[i].album@ == a);
                }
            }
            if exists|i: int| 0 <= i < entries.len() && (#[trigger] entries[i]).album@ == a {
                let i = choose|i: int|
                    0 <= i < entries.len() && (#[trigger] entries[i]).album@ == a;
                if i < init.len() {
                    assert(init[i].album@ == a);
                    assert(sources_map(init).contains_key(a));
                }
            }
        }
        if albums_distinct(entries) {
            assert(albums_distinct(init)) by {
                assert forall|i: int, j: int| 0 <= i < j < init.len() implies (
                #[trigger] init[i]).album@ != (#[trigger] init[j]).album@ by {
                    assert(entries[i].album@ != entries[j].album@);
                }
            }
            assert forall|i: int| 0 <= i < entries.len() implies sources_map(entries)[(
            #[trigger] entries[i]).album@] == entries[i].playlist_url@ by {
                if i < init.len() {
                    assert(init[i] == entries[i]);
                    assert(entries[i].album@ != entries[entries.len() - 1].album@);
                }
            }
        }
    }
}

impl AlbumSources {
    #[verifier::type_invariant]
    spec fn well_formed(self) -> bool {
        albums_distinct(self.entries@)
    }

    /// No album yet.
    pub fn new() -> (r: AlbumSources)
        ensures
            r@ == Map::<Seq<char>, Seq<char>>::empty(),
    {
        AlbumSources { entries: Vec::new() }
    }

    /// What a list of albums and playlists says, a later entry taking precedence.
    pub fn from_entries(entries: &Vec<AlbumSource>) -> (r: AlbumSources)
        ensures
            r@ == sources_map(entries@),
    {
        let mut out = AlbumSources::new();
        let mut i: usize = 0;
        while i < entries.len()
            invariant
                i <= entries.len(),
                out@ == sources_map(entries@.take(i as int)),
            decreases entries.len() - i,
        {
            assert(entries@.take(i + 1).drop_last() == entries@.take(i as int));
            out.insert(entries[i].album.clone(), entries[i].playlist_url.clone());
            i = i + 1;
        }
        assert(entries@.take(entries@.len() as int) == entries@);
        out
    }

    /// The albums with their playlists.
    pub fn entries(&self) -> (r: &Vec<AlbumSource>)
        ensures
            sources_map(r@) == self@,
            albums_distinct(r@),
    {
        proof {
            use_type_invariant(self);
        }
        &self.entries
    }

    /// The place of an album in the list.
    fn find(&self, album: &str) -> (r: Option<usize>)
        ensures
            match r {
                Some(i) => i < self.entries.len() && self.entries@[i as int].album@ == album@,
                None => forall|j: int|
                    0 <= j < self.entries@.len() ==> (#[trigger] self.entries@[j]).album@
                        != album@,
            },
    {
        let mut i: usize = 0;
        while i < self.entries.len()
            invariant
                i <= self.entries.len(),
                forall|j: int|
                    0 <= j < i ==> (#[trigger] self.entries@[j]).album@ != album@,
            decreases self.entries.len() - i,
        {
            if same_text(self.entries[i].album.as_str(), album) {
                return Some(i);
            }
            i = i + 1;
        }
        None
    }

    /// The playlist of an album.
    pub fn get(&self, album: &str) -> (r: Option<String>)
        ensures
            match r {
                Some(url) => self@.contains_key(album@) && url@ == self@[album@],
                None => !self@.contains_key(album@),
            },
    {
        proof {
            use_type_invariant(self);
            lemma_sources_map(self.entries@);
        }
        match self.find(album) {
            Some(i) => Some(self.entries[i].playlist_url.clone()),
            None => None,
        }
    }

    /// Sets the playlist of an album.
    pub fn insert(&mut self, album: String, playlist_url: String)
        ensures
            final(self)@ == old(self)@.insert(album@, playlist_url@),
    {
        proof {
            use_type_invariant(&*self);
        }
        let ghost before = self.entries@;
        let ghost name = album@;
        let ghost url = playlist_url@;
        let place = self.find(album.as_str());
        let mut entries: Vec<AlbumSource> = Vec::new();
        std::mem::swap(&mut entries, &mut self.entries);
        match place {
            Some(i) => {
                entries[i] = AlbumSource { album, playlist_url };
                proof {
                    let after = entries@;
                    assert(albums_distinct(after)) by {
                        assert forall|a: int, b: int| 0 <= a < b < after.len() implies (
                        #[trigger] after[a]).album@ != (#[trigger] after[b]).album@ by {
                            assert(before[a].album@ != before[b].album@);
                        }
                    }
                    lemma_sources_map(before);
                    lemma_sources_map(after);
                    assert(sources_map(after) =~= sources_map(before).insert(name, url)) by {
                        assert forall|a: Seq<char>| #[trigger]
                            sources_map(after).contains_key(a) <==> sources_map(before).insert(
                                name,
                                url,
                            ).contains_key(a) by {
                            if sources_map(after).contains_key(a) {
                                let k = choose|k: int|
                                    0 <= k < after.len() && (#[trigger] after[k]).album@ == a;
                                assert(before[k].album@ == a);
                            }
                            if sources_map(before).contains_key(a) {
                                let k = choose|k: int|
                                    0 <= k < before.len() && (#[trigger] before[k]).album@ == a;
                                assert(after[k].album@ == a);
                            }
                            assert(before[i as int].album@ == name);
                        }
                        assert forall|a: Seq<char>| #[trigger]
                            sources_map(after).contains_key(a) implies sources_map(after)[a]
                            == sources_map(before).insert(name, url)[a] by {
                            let k = choose|k: int|
                                0 <= k < after.len() && (#[trigger] after[k]).album@ == a;
                            if k == i {
                                assert(after[k].playlist_url@ == url);
                            } else {
                                assert(before[k].album@ == a);
                                assert(after[i as int].album@ == name);
                                assert(a != name);
                            }
                        }
                    }
                }
            },
            None => {
                entries.push(AlbumSource { album, playlist_url });
                assert(entries@.drop_last() == before);
            },
        }
        self.entries = entries;
    }
}

/// The playlist that was last recorded for an album is the one that is found for it, and
/// every other album keeps what it had.
pub proof fn law_recorded_playlist_is_found(
    sources: Map<Seq<char>, Seq<char>>,
    album: Seq<char>,
    playlist_url: Seq<char>,
    other: Seq<char>,
)
    requires
        other != album,
    ensures
        sources.insert(album, playlist_url).contains_key(album),
        sources.insert(album, playlist_url)[album] == playlist_url,
        sources.insert(album, playlist_url).contains_key(other) == sources.contains_key(other),
        sources.contains_key(other) ==> sources.insert(album, playlist_url)[other]
            == sources[other],
{
}

/// The order in which the albums were stored does not matter.
pub proof fn law_stored_order_is_irrelevant(a: Seq<AlbumSource>, b: Seq<AlbumSource>)
    requires
        albums_distinct(a),
        albums_distinct(b),
        a.to_set() == b.to_set(),
    ensures
        sources_map(a) == sources_map(b),
{
    lemma_sources_map(a);
    lemma_sources_map(b);
    assert forall|name: Seq<char>|
        #![trigger sources_map(a).contains_key(name)]
        #![trigger sources_map(b).contains_key(name)]
        sources_map(a).contains_key(name) <==> sources_map(b).contains_key(name) by {
        if sources_map(a).contains_key(name) {
            let i = choose|i: int| 0 <= i < a.len() && (#[trigger] a[i]).album@ == name;
            assert(a.to_set().contains(a[i]));
            let k = choose|k: int| 0 <= k < b.len() && b[k] == a[i];
            assert(b[k].album@ == name);
        }
        if sources_map(b).contains_key(name) {
            let i = choose|i: int| 0 <= i < b.len() && (#[trigger] b[i]).album@ == name;
            assert(b.to_set().contains(b[i]));
            let k = choose|k: int| 0 <= k < a.len() && a[k] == b[i];
            assert(a[k].album@ == name);
        }
    }
    assert forall|name: Seq<char>| #[trigger] sources_map(a).contains_key(name) implies sources_map(
        a,
    )[name] == sources_map(b)[name] by {
        let i = choose|i: int| 0 <= i < a.len() && (#[trigger] a[i]).album@ == name;
        assert(a.to_set().contains(a[i]));
        let k = choose|k: int| 0 <= k < b.len() && b[k] == a[i];
        assert(b[k].album@ == name);
    }
    assert(sources_map(a) =~= sources_map(b));
}

/// What a list says of an album is what its last entry for the album says: an entry added at
/// the end takes precedence, and changes nothing for other albums. An empty list says nothing.
pub proof fn law_last_entry_takes_precedence(
    entries: Seq<AlbumSource>,
    entry: AlbumSource,
    other: Seq<char>,
)
    ensures
        sources_map(Seq::empty()) == Map::<Seq<char>, Seq<char>>::empty(),
        sources_map(entries.push(entry)).contains_key(entry.album@),
        sources_map(entries.push(entry))[entry.album@] == entry.playlist_url@,
        other != entry.album@ ==> {
            &&& sources_map(entries.push(entry)).contains_key(other) == sources_map(
                entries,
            ).contains_key(other)
            &&& sources_map(entries).contains_key(other) ==> sources_map(entries.push(entry))[other]
                == sources_map(entries)[other]
        },
{
    assert(entries.push(entry).drop_last() == entries);
}

} // verus!
