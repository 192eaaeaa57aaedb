//! The track collector: streams every playlist and the liked-songs library,
//! deduplicates tracks by identity, and accumulates running statistics.
//!
//! Deduplication is by provider-assigned track id only; a track's duration is
//! counted toward the total exactly once, at the moment its id is first
//! inserted into the set (the first-seen rule).

use vstd::prelude::*;

use crate::pages::Paged;
use crate::runtime::Runtime;

verus! {

/// One entry of a playlist's item listing, as the collector reads it.
pub enum PlaylistItem {
    /// An entry whose underlying track is gone (e.g. removed by the
    /// provider); never counted, never contributes duration.
    Missing,
    /// A non-track playable item; counted in the per-playlist item total but
    /// contributing no duration and never entering the track set.
    Episode,
    /// A track, with its provider id (absent for tracks the provider cannot
    /// identify, which never enter the set) and its duration in whole
    /// seconds.
    Track { id: Option<String>, secs: u64 },
}

/// The duration one item contributes to a per-playlist runtime total.
pub open spec fn item_secs(item: PlaylistItem) -> int {
    match item {
        PlaylistItem::Track { id: _, secs } => secs as int,
        _ => 0,
    }
}

/// The summed duration of a listing, episodes and missing entries counting
/// as zero.
pub open spec fn listing_secs(items: Seq<PlaylistItem>) -> int
    decreases items.len(),
{
    if items.len() == 0 {
        0
    } else {
        listing_secs(items.drop_last()) + item_secs(items.last())
    }
}

pub proof fn lemma_listing_secs_nonneg(items: Seq<PlaylistItem>)
    ensures
        listing_secs(items) >= 0,
    decreases items.len(),
{
    if items.len() > 0 {
        lemma_listing_secs_nonneg(items.drop_last());
    }
}

/// A sequence whose elements are pairwise distinct.
pub open spec fn distinct_seq<A>(s: Seq<A>) -> bool {
    forall|i: int, j: int| 0 <= i < j < s.len() ==> s[i] != s[j]
}

/// The character sequences behind a sequence of strings.
pub open spec fn views_of(v: Seq<String>) -> Seq<Seq<char>> {
    v.map_values(|s: String| s@)
}

/// The deduplicated set of track identities, in insertion order.  Membership
/// by id is the sole deduplication authority; the set never shrinks while
/// collecting.
pub struct TrackSet {
    ids: Vec<String>,
}

impl TrackSet {
    /// The ids held, in insertion order.
    pub closed spec fn ids_seq(self) -> Seq<Seq<char>> {
        self.ids@.map_values(|s: String| s@)
    }

    /// No id occurs twice.
    pub open spec fn wf(self) -> bool {
        distinct_seq(self.ids_seq())
    }

    pub fn new() -> (r: TrackSet)
        ensures
            r.wf(),
            r.ids_seq() == Seq::<Seq<char>>::empty(),
    {
        let r = TrackSet { ids: Vec::new() };
        proof {
            assert(r.ids_seq() =~= Seq::<Seq<char>>::empty());
        }
        r
    }

    pub fn len(&self) -> (n: usize)
        ensures
            n == self.ids_seq().len(),
    {
        self.ids.len()
    }

    /// Membership test by track identity.
    pub fn contains(&self, id: &String) -> (b: bool)
        ensures
            b == self.ids_seq().contains(id@),
    {
        let n = self.ids.len();
        let mut i: usize = 0;
        while i < n
            invariant
                i <= n,
                n == self.ids@.len(),
                forall|k: int| 0 <= k < i ==> self.ids@[k]@ != id@,
            decreases n - i,
        {
            if self.ids[i] == *id {
                proof {
                    assert(self.ids_seq()[i as int] == id@);
                }
                return true;
            }
            i = i + 1;
        }
        proof {
            assert(forall|k: int| 0 <= k < self.ids_seq().len()
                ==> self.ids_seq()[k] != id@);
        }
        false
    }

    /// Attempts insertion; returns whether the id was novel.  A duplicate
    /// insertion leaves the set unchanged.
    pub fn insert(&mut self, id: &String) -> (novel: bool)
        requires
            old(self).wf(),
        ensures
            final(self).wf(),
            novel == !old(self).ids_seq().contains(id@),
            novel ==> final(self).ids_seq() == old(self).ids_seq().push(id@),
            !novel ==> final(self).ids_seq() == old(self).ids_seq(),
    {
        if self.contains(id) {
            false
        } else {
            self.ids.push(id.clone());
            proof {
                assert(self.ids_seq() =~= old(self).ids_seq().push(id@));
            }
            true
        }
    }

    /// Hands the set over as a sequence of ids, in insertion order.
    pub fn into_ids(self) -> (v: Vec<String>)
        ensures
            views_of(v@) == self.ids_seq(),
    {
        self.ids
    }
}

/// One step of the first-seen fold over the collector's mathematical state
/// — the ids seen so far, in first-seen order, and the duration total: a
/// track with a novel id is appended and its duration counted; anything
/// else leaves the state unchanged.
pub open spec fn absorb_one(
    st: (Seq<Seq<char>>, int),
    item: PlaylistItem,
) -> (Seq<Seq<char>>, int) {
    match item {
        PlaylistItem::Track { id: Some(id), secs } => {
            if !st.0.contains(id@) {
                (st.0.push(id@), st.1 + secs)
            } else {
                st
            }
        },
        _ => st,
    }
}

/// Folds `absorb_one` over a listing, front to back.
pub open spec fn absorb_all(
    st: (Seq<Seq<char>>, int),
    items: Seq<PlaylistItem>,
) -> (Seq<Seq<char>>, int)
    decreases items.len(),
{
    if items.len() == 0 {
        st
    } else {
        absorb_one(absorb_all(st, items.drop_last()), items.last())
    }
}

/// Absorbing never removes an id, never changes ids already present, and
/// never decreases the total.
pub proof fn lemma_absorb_all_extends(st: (Seq<Seq<char>>, int), items: Seq<PlaylistItem>)
    ensures
        absorb_all(st, items).0.len() >= st.0.len(),
        forall|k: int| 0 <= k < st.0.len() ==> absorb_all(st, items).0[k] == st.0[k],
        absorb_all(st, items).1 >= st.1,
    decreases items.len(),
{
    if items.len() > 0 {
        lemma_absorb_all_extends(st, items.drop_last());
    }
}

/// The total after absorbing a prefix never exceeds the total after
/// absorbing the whole listing.
pub proof fn lemma_absorb_all_take_bound(
    st: (Seq<Seq<char>>, int),
    items: Seq<PlaylistItem>,
    j: int,
)
    requires
        0 <= j <= items.len(),
    ensures
        absorb_all(st, items.take(j)).1 <= absorb_all(st, items).1,
    decreases items.len(),
{
    if j == items.len() {
        assert(items.take(j) =~= items);
    } else {
        assert(items.drop_last().take(j) =~= items.take(j));
        lemma_absorb_all_take_bound(st, items.drop_last(), j);
    }
}

/// Splitting a listing splits the fold: absorbing a concatenation equals
/// absorbing the first part and then the second.
pub proof fn lemma_absorb_all_append(
    st: (Seq<Seq<char>>, int),
    a: Seq<PlaylistItem>,
    b: Seq<PlaylistItem>,
)
    ensures
        absorb_all(st, a + b) == absorb_all(absorb_all(st, a), b),
    decreases b.len(),
{
    if b.len() == 0 {
        assert(a + b =~= a);
    } else {
        assert((a + b).drop_last() =~= a + b.drop_last());
        assert((a + b).last() == b.last());
        lemma_absorb_all_append(st, a, b.drop_last());
    }
}

/// Deduplication: absorbing an item whose track id is already held changes
/// neither the set nor the total — referencing a track from a second
/// playlist never alters the reported runtime.
pub proof fn lemma_absorb_duplicate_noop(st: (Seq<Seq<char>>, int), item: PlaylistItem)
    requires
        item matches PlaylistItem::Track { id: Some(id), secs } ==>
            st.0.contains(id@),
    ensures
        absorb_one(st, item) == st,
{
}

/// The track ids occurring in a listing, in order of occurrence, duplicates
/// kept.
pub open spec fn listing_ids(items: Seq<PlaylistItem>) -> Seq<Seq<char>>
    decreases items.len(),
{
    if items.len() == 0 {
        Seq::empty()
    } else {
        listing_ids(items.drop_last()) + (match items.last() {
            PlaylistItem::Track { id: Some(id), secs: _ } => seq![id@],
            _ => Seq::<Seq<char>>::empty(),
        })
    }
}

pub proof fn lemma_contains_append<A>(a: Seq<A>, b: Seq<A>, x: A)
    ensures
        (a + b).contains(x) <==> a.contains(x) || b.contains(x),
{
    if a.contains(x) {
        let i = choose|i: int| 0 <= i < a.len() && a[i] == x;
        assert((a + b)[i] == x);
    }
    if b.contains(x) {
        let i = choose|i: int| 0 <= i < b.len() && b[i] == x;
        assert((a + b)[a.len() + i] == x);
    }
    if (a + b).contains(x) {
        let i = choose|i: int| 0 <= i < (a + b).len() && (a + b)[i] == x;
        if i < a.len() {
            assert(a[i] == x);
        } else {
            assert(b[i - a.len()] == x);
        }
    }
}

/// Deduplication: absorbing preserves distinctness of the held ids, so the
/// set's size is the number of distinct identities absorbed; and an id is
/// held afterwards exactly when it was held before or occurs in the listing.
pub proof fn lemma_absorb_all_distinct(st: (Seq<Seq<char>>, int), items: Seq<PlaylistItem>)
    requires
        distinct_seq(st.0),
    ensures
        distinct_seq(absorb_all(st, items).0),
        forall|x: Seq<char>|
            #![trigger absorb_all(st, items).0.contains(x)]
            #![trigger listing_ids(items).contains(x)]
            absorb_all(st, items).0.contains(x)
                <==> st.0.contains(x) || listing_ids(items).contains(x),
    decreases items.len(),
{
    if items.len() == 0 {
        assert(listing_ids(items) =~= Seq::<Seq<char>>::empty());
        assert forall|x: Seq<char>| #[trigger] listing_ids(items).contains(x)
            implies false by {
        }
    } else {
        let rest = items.drop_last();
        lemma_absorb_all_distinct(st, rest);
        let prev = absorb_all(st, rest);
        let whole = absorb_all(st, items);
        let tail_ids = match items.last() {
            PlaylistItem::Track { id: Some(id), secs: _ } => seq![id@],
            _ => Seq::<Seq<char>>::empty(),
        };
        assert(listing_ids(items) == listing_ids(rest) + tail_ids);
        assert forall|x: Seq<char>|
            #[trigger] listing_ids(items).contains(x)
            implies listing_ids(rest).contains(x) || tail_ids.contains(x) by {
            lemma_contains_append(listing_ids(rest), tail_ids, x);
        }
        assert forall|x: Seq<char>|
            listing_ids(rest).contains(x) || tail_ids.contains(x)
            implies #[trigger] listing_ids(items).contains(x) by {
            lemma_contains_append(listing_ids(rest), tail_ids, x);
        }
        match items.last() {
            PlaylistItem::Track { id: Some(id), secs: _ } => {
                assert(tail_ids[0] == id@);
                assert(tail_ids.contains(id@));
                if prev.0.contains(id@) {
                    assert(whole == prev);
                } else {
                    assert(whole.0 == prev.0.push(id@));
                    assert forall|i: int, j: int| 0 <= i < j < whole.0.len()
                        implies whole.0[i] != whole.0[j] by {
                        if j == whole.0.len() - 1 {
                            assert(whole.0[i] == prev.0[i]);
                            assert(!prev.0.contains(id@));
                        }
                    }
                    assert forall|x: Seq<char>| #[trigger] whole.0.contains(x)
                        implies prev.0.contains(x) || x == id@ by {
                        let i = choose|i: int|
                            0 <= i < whole.0.len() && whole.0[i] == x;
                        if i < prev.0.len() {
                            assert(prev.0[i] == x);
                        }
                    }
                    assert(whole.0.contains(id@)) by {
                        assert(whole.0[whole.0.len() - 1] == id@);
                    }
                    assert forall|x: Seq<char>| prev.0.contains(x)
                        implies #[trigger] whole.0.contains(x) by {
                        let i = choose|i: int|
                            0 <= i < prev.0.len() && prev.0[i] == x;
                        assert(whole.0[i] == x);
                    }
                }
            },
            _ => {
                assert(whole == prev);
                assert forall|x: Seq<char>| #[trigger] tail_ids.contains(x)
                    implies false by {
                }
            },
        }
    }
}

/// Deduplication, counted: a collection that starts empty ends with exactly
/// as many entries as there are distinct track identities in the listing,
/// however often each identity occurs.
pub proof fn lemma_dedup_size(items: Seq<PlaylistItem>)
    ensures
        absorb_all((Seq::<Seq<char>>::empty(), 0int), items).0.len()
            == listing_ids(items).to_set().len(),
{
    let init = (Seq::<Seq<char>>::empty(), 0int);
    lemma_absorb_all_distinct(init, items);
    let ids = absorb_all(init, items).0;
    assert forall|i: int, j: int|
        0 <= i < ids.len() && 0 <= j < ids.len() && i != j
        implies ids[i] != ids[j] by {
    }
    assert(ids.no_duplicates());
    ids.unique_seq_to_set();
    assert forall|x: Seq<char>| #[trigger] ids.contains(x)
        implies listing_ids(items).contains(x) by {
        assert(!init.0.contains(x));
    }
    assert(ids.to_set() =~= listing_ids(items).to_set());
}

pub proof fn lemma_absorb_all_push(
    st: (Seq<Seq<char>>, int),
    items: Seq<PlaylistItem>,
    x: PlaylistItem,
)
    ensures
        absorb_all(st, items.push(x)) == absorb_one(absorb_all(st, items), x),
{
    assert(items.push(x).drop_last() =~= items);
    assert(items.push(x).last() == x);
}

/// Absorbing a prefix never yields a larger total than absorbing the whole.
pub proof fn lemma_absorb_all_prefix_bound(
    st: (Seq<Seq<char>>, int),
    a: Seq<PlaylistItem>,
    b: Seq<PlaylistItem>,
)
    ensures
        absorb_all(st, a).1 <= absorb_all(st, a + b).1,
{
    lemma_absorb_all_append(st, a, b);
    lemma_absorb_all_extends(absorb_all(st, a), b);
}

pub proof fn lemma_listing_secs_append(a: Seq<PlaylistItem>, b: Seq<PlaylistItem>)
    ensures
        listing_secs(a + b) == listing_secs(a) + listing_secs(b),
    decreases b.len(),
{
    if b.len() == 0 {
        assert(a + b =~= a);
    } else {
        assert((a + b).drop_last() =~= a + b.drop_last());
        assert((a + b).last() == b.last());
        lemma_listing_secs_append(a, b.drop_last());
    }
}

pub proof fn lemma_listing_secs_push(items: Seq<PlaylistItem>, x: PlaylistItem)
    ensures
        listing_secs(items.push(x)) == listing_secs(items) + item_secs(x),
{
    assert(items.push(x).drop_last() =~= items);
    assert(items.push(x).last() == x);
}

pub proof fn lemma_listing_secs_prefix_bound(a: Seq<PlaylistItem>, b: Seq<PlaylistItem>)
    ensures
        listing_secs(a) <= listing_secs(a + b),
{
    lemma_listing_secs_append(a, b);
    lemma_listing_secs_nonneg(b);
}

/// The number of items in a playlist and the runtime of a single pass over
/// it, derived while the playlist is consumed, displayed, and discarded.
pub struct PlaylistSummary {
    pub num_tracks: usize,
    pub runtime: Runtime,
}

/// One playlist as the collector walks it: its display name and the
/// paginated cursor over its item listing.
pub struct PlaylistData {
    pub name: String,
    pub items: Paged<PlaylistItem>,
}

impl PlaylistData {
    /// The playlist's items, in service order.
    pub open spec fn tracks(self) -> Seq<PlaylistItem> {
        self.items.items()
    }
}

/// A per-playlist progress line: the playlist's name with its summary.
pub struct PlaylistReport {
    pub name: String,
    pub summary: PlaylistSummary,
}

/// The items of a run of playlists, laid end to end in listing order.
pub open spec fn playlists_tracks(ps: Seq<PlaylistData>) -> Seq<PlaylistItem>
    decreases ps.len(),
{
    if ps.len() == 0 {
        Seq::empty()
    } else {
        playlists_tracks(ps.drop_last()) + ps.last().tracks()
    }
}

pub proof fn lemma_playlists_tracks_push(ps: Seq<PlaylistData>, p: PlaylistData)
    ensures
        playlists_tracks(ps.push(p)) == playlists_tracks(ps) + p.tracks(),
{
    assert(ps.push(p).drop_last() =~= ps);
    assert(ps.push(p).last() == p);
}

pub proof fn lemma_playlists_tracks_append(a: Seq<PlaylistData>, b: Seq<PlaylistData>)
    ensures
        playlists_tracks(a + b) == playlists_tracks(a) + playlists_tracks(b),
    decreases b.len(),
{
    if b.len() == 0 {
        assert(a + b =~= a);
        assert(playlists_tracks(a) + playlists_tracks(b) =~= playlists_tracks(a));
    } else {
        assert((a + b).drop_last() =~= a + b.drop_last());
        assert((a + b).last() == b.last());
        lemma_playlists_tracks_append(a, b.drop_last());
        assert(playlists_tracks(a + b)
            =~= playlists_tracks(a) + playlists_tracks(b));
    }
}

fn item_duration(item: &PlaylistItem) -> (s: u64)
    ensures
        s as int == item_secs(*item),
{
    match item {
        PlaylistItem::Track { id: _, secs } => *secs,
        _ => 0,
    }
}

/// The running state of a collection: the deduplicated track set shared by
/// every pass, and the first-seen duration total in seconds.
pub struct Collector {
    pub found: TrackSet,
    pub total_secs: u64,
}

impl Collector {
    /// The mathematical state: ids in first-seen order, and the total.
    pub open spec fn st(self) -> (Seq<Seq<char>>, int) {
        (self.found.ids_seq(), self.total_secs as int)
    }

    pub open spec fn wf(self) -> bool {
        self.found.wf()
    }

    pub fn new() -> (r: Collector)
        ensures
            r.wf(),
            r.st() == (Seq::<Seq<char>>::empty(), 0int),
    {
        Collector { found: TrackSet::new(), total_secs: 0 }
    }

    /// Absorbs one playlist item under the first-seen rule: a track's
    /// duration counts exactly when its id was not yet held; episodes,
    /// missing entries and id-less tracks change nothing.
    pub fn absorb_item(&mut self, item: &PlaylistItem)
        requires
            old(self).wf(),
            absorb_one(old(self).st(), *item).1 <= u64::MAX,
        ensures
            final(self).wf(),
            final(self).st() == absorb_one(old(self).st(), *item),
    {
        match item {
            PlaylistItem::Track { id: Some(id), secs } => {
                let novel = self.found.insert(id);
                if novel {
                    self.total_secs = self.total_secs + *secs;
                }
            },
            _ => {},
        }
    }

    /// Absorbs one page of items, front to back.
    pub fn absorb_page(&mut self, page: &Vec<PlaylistItem>)
        requires
            old(self).wf(),
            absorb_all(old(self).st(), page@).1 <= u64::MAX,
        ensures
            final(self).wf(),
            final(self).st() == absorb_all(old(self).st(), page@),
    {
        let ghost init_st = old(self).st();
        let n = page.len();
        let mut i: usize = 0;
        while i < n
            invariant
                self.wf(),
                i <= n,
                n == page@.len(),
                self.st() == absorb_all(init_st, page@.take(i as int)),
                absorb_all(init_st, page@).1 <= u64::MAX,
            decreases n - i,
        {
            proof {
                assert(page@.take(i as int).push(page@[i as int])
                    =~= page@.take(i + 1));
                lemma_absorb_all_push(init_st, page@.take(i as int), page@[i as int]);
                assert(page@.take(i + 1) + page@.skip(i + 1) =~= page@);
                lemma_absorb_all_prefix_bound(init_st, page@.take(i + 1), page@.skip(i + 1));
            }
            self.absorb_item(&page[i]);
            i = i + 1;
        }
        proof {
            assert(page@.take(n as int) =~= page@);
        }
    }

    /// Drains a paginated source into the collector, advancing the cursor
    /// page by page: every page is visited exactly once, in order.
    pub fn absorb_paged(&mut self, source: &mut Paged<PlaylistItem>)
        requires
            old(self).wf(),
            absorb_all(old(self).st(), old(source).items()).1 <= u64::MAX,
        ensures
            final(self).wf(),
            final(self).st() == absorb_all(old(self).st(), old(source).items()),
            final(source).remaining().len() == 0,
    {
        let ghost init_st = old(self).st();
        let ghost all = old(source).items();
        let ghost mut done: Seq<PlaylistItem> = Seq::empty();
        proof {
            assert(all =~= done + source.items());
        }
        while source.has_next()
            invariant
                self.wf(),
                all == done + source.items(),
                self.st() == absorb_all(init_st, done),
                absorb_all(init_st, all).1 <= u64::MAX,
            decreases source.remaining().len(),
        {
            let ghost rem_before = source.remaining();
            let page = source.next_page().unwrap();
            proof {
                assert(rem_before.flatten()
                    == rem_before.first() + rem_before.drop_first().flatten());
                assert(all =~= (done + page@) + source.items());
                lemma_absorb_all_append(init_st, done, page@);
                lemma_absorb_all_prefix_bound(init_st, done + page@, source.items());
            }
            self.absorb_page(&page);
            proof {
                done = done + page@;
            }
        }
        proof {
            assert(source.items() =~= Seq::<PlaylistItem>::empty());
            assert(all =~= done);
        }
    }

    /// Consumes one playlist's paginated item listing: counts every entry,
    /// sums the durations of its tracks for the summary, and absorbs each
    /// entry into the shared set under the first-seen rule.
    pub fn collect_playlist(&mut self, items: &mut Paged<PlaylistItem>) -> (s: PlaylistSummary)
        requires
            old(self).wf(),
            absorb_all(old(self).st(), old(items).items()).1 <= u64::MAX,
            listing_secs(old(items).items()) <= u64::MAX,
            old(items).items().len() <= usize::MAX,
        ensures
            final(self).wf(),
            final(self).st() == absorb_all(old(self).st(), old(items).items()),
            final(items).remaining().len() == 0,
            s.num_tracks == old(items).items().len(),
            s.runtime.wf(),
            s.runtime.total() == listing_secs(old(items).items()),
    {
        let ghost init_st = old(self).st();
        let ghost all = old(items).items();
        let ghost mut done: Seq<PlaylistItem> = Seq::empty();
        let mut num_tracks: usize = 0;
        let mut dur: u64 = 0;
        proof {
            assert(all =~= done + items.items());
        }
        while items.has_next()
            invariant
                self.wf(),
                all == done + items.items(),
                self.st() == absorb_all(init_st, done),
                num_tracks == done.len(),
                dur as int == listing_secs(done),
                absorb_all(init_st, all).1 <= u64::MAX,
                listing_secs(all) <= u64::MAX,
                all.len() <= usize::MAX,
            decreases items.remaining().len(),
        {
            let ghost rem_before = items.remaining();
            let page = items.next_page().unwrap();
            proof {
                assert(rem_before.flatten()
                    == rem_before.first() + rem_before.drop_first().flatten());
                assert(all =~= (done + page@) + items.items());
            }
            let ghost page_base = done;
            let n = page.len();
            let mut i: usize = 0;
            while i < n
                invariant
                    self.wf(),
                    i <= n,
                    n == page@.len(),
                    done == page_base + page@.take(i as int),
                    all == (page_base + page@) + items.items(),
                    self.st() == absorb_all(init_st, done),
                    num_tracks == done.len(),
                    dur as int == listing_secs(done),
                    absorb_all(init_st, all).1 <= u64::MAX,
                    listing_secs(all) <= u64::MAX,
                    all.len() <= usize::MAX,
                decreases n - i,
            {
                proof {
                    assert(done.push(page@[i as int])
                        =~= page_base + page@.take(i + 1));
                    lemma_absorb_all_push(init_st, done, page@[i as int]);
                    lemma_listing_secs_push(done, page@[i as int]);
                    let tail = page@.skip(i + 1) + items.items();
                    assert((page_base + page@.take(i + 1)) + tail =~= all);
                    lemma_absorb_all_prefix_bound(
                        init_st,
                        page_base + page@.take(i + 1),
                        tail,
                    );
                    lemma_listing_secs_prefix_bound(page_base + page@.take(i + 1), tail);
                    lemma_listing_secs_nonneg(page_base + page@.take(i + 1));
                }
                num_tracks = num_tracks + 1;
                dur = dur + item_duration(&page[i]);
                self.absorb_item(&page[i]);
                proof {
                    done = page_base + page@.take(i + 1);
                }
                i = i + 1;
            }
            proof {
                assert(page@.take(n as int) =~= page@);
                assert(done =~= page_base + page@);
            }
        }
        proof {
            assert(items.items() =~= Seq::<PlaylistItem>::empty());
            assert(all =~= done);
        }
        PlaylistSummary { num_tracks, runtime: Runtime::from_secs(dur) }
    }

    /// Consumes the paginated playlist listing: every playlist's items are
    /// streamed once, summarized, and absorbed into the shared set.  Returns
    /// one report per playlist, in listing order, for display.
    pub fn collect_from_playlists(&mut self, playlists: &mut Paged<PlaylistData>) -> (reports: Vec<
        PlaylistReport,
    >)
        requires
            old(self).wf(),
            absorb_all(old(self).st(), playlists_tracks(old(playlists).items())).1 <= u64::MAX,
            forall|k: int| 0 <= k < old(playlists).items().len() ==> {
                &&& listing_secs((#[trigger] old(playlists).items()[k]).tracks()) <= u64::MAX
                &&& old(playlists).items()[k].tracks().len() <= usize::MAX
            },
        ensures
            final(self).wf(),
            final(self).st() == absorb_all(
                old(self).st(),
                playlists_tracks(old(playlists).items()),
            ),
            final(playlists).remaining().len() == 0,
            reports@.len() == old(playlists).items().len(),
            forall|k: int| 0 <= k < reports@.len() ==> {
                &&& (#[trigger] reports@[k]).name@ == old(playlists).items()[k].name@
                &&& reports@[k].summary.num_tracks == old(playlists).items()[k].tracks().len()
                &&& reports@[k].summary.runtime.wf()
                &&& reports@[k].summary.runtime.total() == listing_secs(
                    old(playlists).items()[k].tracks(),
                )
            },
    {
        let ghost init_st = old(self).st();
        let ghost all_pl = old(playlists).items();
        let ghost mut done_pl: Seq<PlaylistData> = Seq::empty();
        let mut reports: Vec<PlaylistReport> = Vec::new();
        proof {
            assert(all_pl =~= done_pl + playlists.items());
            assert(playlists_tracks(done_pl) =~= Seq::<PlaylistItem>::empty());
        }
        while playlists.has_next()
            invariant
                self.wf(),
                all_pl == done_pl + playlists.items(),
                self.st() == absorb_all(init_st, playlists_tracks(done_pl)),
                absorb_all(init_st, playlists_tracks(all_pl)).1 <= u64::MAX,
                forall|k: int| 0 <= k < all_pl.len() ==> {
                    &&& listing_secs((#[trigger] all_pl[k]).tracks()) <= u64::MAX
                    &&& all_pl[k].tracks().len() <= usize::MAX
                },
                reports@.len() == done_pl.len(),
                forall|k: int| 0 <= k < reports@.len() ==> {
                    &&& (#[trigger] reports@[k]).name@ == done_pl[k].name@
                    &&& reports@[k].summary.num_tracks == done_pl[k].tracks().len()
                    &&& reports@[k].summary.runtime.wf()
                    &&& reports@[k].summary.runtime.total() == listing_secs(
                        done_pl[k].tracks(),
                    )
                },
            decreases playlists.remaining().len(),
        {
            let ghost rem_before = playlists.remaining();
            let page = playlists.next_page().unwrap();
            proof {
                assert(rem_before.flatten()
                    == rem_before.first() + rem_before.drop_first().flatten());
                assert(all_pl =~= (done_pl + page@) + playlists.items());
            }
            let mut page = page;
            while page.len() > 0
                invariant
                    self.wf(),
                    all_pl == (done_pl + page@) + playlists.items(),
                    self.st() == absorb_all(init_st, playlists_tracks(done_pl)),
                    absorb_all(init_st, playlists_tracks(all_pl)).1 <= u64::MAX,
                    forall|k: int| 0 <= k < all_pl.len() ==> {
                        &&& listing_secs((#[trigger] all_pl[k]).tracks()) <= u64::MAX
                        &&& all_pl[k].tracks().len() <= usize::MAX
                    },
                    reports@.len() == done_pl.len(),
                    forall|k: int| 0 <= k < reports@.len() ==> {
                        &&& (#[trigger] reports@[k]).name@ == done_pl[k].name@
                        &&& reports@[k].summary.num_tracks == done_pl[k].tracks().len()
                        &&& reports@[k].summary.runtime.wf()
                        &&& reports@[k].summary.runtime.total() == listing_secs(
                            done_pl[k].tracks(),
                        )
                    },
                decreases page.len(),
            {
                let ghost page_before = page@;
                let mut p = page.remove(0);
                let ghost p0 = p;
                proof {
                    assert(page@ =~= page_before.drop_first());
                    assert(done_pl.push(p0) + page@ =~= done_pl + page_before);
                    lemma_playlists_tracks_push(done_pl, p0);
                    // The bounds of playlist `p0`, from its position in the
                    // full listing.
                    let k = done_pl.len() as int;
                    assert(all_pl[k] == p0);
                    assert(listing_secs(all_pl[k].tracks()) <= u64::MAX);
                    // The absorb bound for this playlist, from the global one.
                    lemma_absorb_all_append(
                        init_st,
                        playlists_tracks(done_pl),
                        p0.tracks(),
                    );
                    let rest = page@ + playlists.items();
                    assert(done_pl.push(p0) + rest =~= all_pl);
                    lemma_playlists_tracks_append(done_pl.push(p0), rest);
                    lemma_absorb_all_prefix_bound(
                        init_st,
                        playlists_tracks(done_pl.push(p0)),
                        playlists_tracks(rest),
                    );
                }
                let summary = self.collect_playlist(&mut p.items);
                reports.push(PlaylistReport { name: p.name, summary });
                proof {
                    done_pl = done_pl.push(p0);
                }
            }
            proof {
                assert(page@ =~= Seq::<PlaylistData>::empty());
                assert(done_pl + page@ =~= done_pl);
            }
        }
        proof {
            assert(playlists.items() =~= Seq::<PlaylistData>::empty());
            assert(all_pl =~= done_pl);
        }
        reports
    }

    /// Streams the saved-tracks library once into the shared set, and
    /// reports the runtime that the pass added under the first-seen rule.
    pub fn collect_from_liked_songs(&mut self, saved: &mut Paged<PlaylistItem>) -> (r: Runtime)
        requires
            old(self).wf(),
            absorb_all(old(self).st(), old(saved).items()).1 <= u64::MAX,
        ensures
            final(self).wf(),
            final(self).st() == absorb_all(old(self).st(), old(saved).items()),
            final(saved).remaining().len() == 0,
            r.wf(),
            r.total() == final(self).total_secs - old(self).total_secs,
    {
        let before = self.total_secs;
        proof {
            lemma_absorb_all_extends(old(self).st(), old(saved).items());
        }
        self.absorb_paged(saved);
        Runtime::from_secs(self.total_secs - before)
    }
}

/// Everything one full collection yields: the deduplicated track ids in
/// first-seen order, the per-playlist reports, and the runtime accumulated
/// over the playlists pass (the figure the summary line displays).
pub struct CollectionOutcome {
    pub tracks: Vec<String>,
    pub reports: Vec<PlaylistReport>,
    pub playlists_runtime: Runtime,
}

/// Runs the playlists pass and then the liked-songs pass against one shared
/// track set, and materializes the set as a sequence in first-seen order.
/// A track reachable from several sources appears, and is counted, once.
pub fn get_all_tracks(playlists: &mut Paged<PlaylistData>, saved: &mut Paged<PlaylistItem>) -> (out:
    CollectionOutcome)
    requires
        absorb_all(
            (Seq::<Seq<char>>::empty(), 0int),
            playlists_tracks(old(playlists).items()) + old(saved).items(),
        ).1 <= u64::MAX,
        forall|k: int| 0 <= k < old(playlists).items().len() ==> {
            &&& listing_secs((#[trigger] old(playlists).items()[k]).tracks()) <= u64::MAX
            &&& old(playlists).items()[k].tracks().len() <= usize::MAX
        },
    ensures
        views_of(out.tracks@) == absorb_all(
            (Seq::<Seq<char>>::empty(), 0int),
            playlists_tracks(old(playlists).items()) + old(saved).items(),
        ).0,
        distinct_seq(views_of(out.tracks@)),
        out.playlists_runtime.wf(),
        out.playlists_runtime.total() == absorb_all(
            (Seq::<Seq<char>>::empty(), 0int),
            playlists_tracks(old(playlists).items()),
        ).1,
        final(playlists).remaining().len() == 0,
        final(saved).remaining().len() == 0,
        out.reports@.len() == old(playlists).items().len(),
        forall|k: int| 0 <= k < out.reports@.len() ==> {
            &&& (#[trigger] out.reports@[k]).name@ == old(playlists).items()[k].name@
            &&& out.reports@[k].summary.num_tracks == old(playlists).items()[k].tracks().len()
            &&& out.reports@[k].summary.runtime.wf()
            &&& out.reports@[k].summary.runtime.total() == listing_secs(
                old(playlists).items()[k].tracks(),
            )
        },
{
    let ghost init_st = (Seq::<Seq<char>>::empty(), 0int);
    let ghost pl_tracks = playlists_tracks(playlists.items());
    let ghost liked = saved.items();
    let mut collector = Collector::new();
    proof {
        lemma_absorb_all_prefix_bound(init_st, pl_tracks, liked);
        lemma_absorb_all_extends(init_st, pl_tracks);
    }
    let reports = collector.collect_from_playlists(playlists);
    let playlists_runtime = Runtime::from_secs(collector.total_secs);
    proof {
        lemma_absorb_all_append(init_st, pl_tracks, liked);
    }
    let _liked_runtime = collector.collect_from_liked_songs(saved);
    proof {
        lemma_absorb_all_distinct(init_st, pl_tracks + liked);
    }
    let tracks = collector.found.into_ids();
    CollectionOutcome { tracks, reports, playlists_runtime }
}

} // verus!
