//! The playlist resolver: an index of the user's playlists by display name,
//! and the decision loop that turns a requested destination name plus the
//! operator's answers into either "overwrite this existing playlist" or
//! "create a new one".

use vstd::prelude::*;
use vstd::string::StringExecFns;

use crate::collect::views_of;
use crate::pages::Paged;

verus! {

/// The case-normalized form of a name: what `str::to_lowercase` returns for
/// it.  The index keys names by this form, so that a requested name meets
/// an existing playlist's name whatever either one's casing.
pub uninterp spec fn lower_of(s: Seq<char>) -> Seq<char>;

/// Relies on str::to_lowercase: the Unicode-lowercased string, a function
/// of the characters alone.
#[verifier::external_body]
fn lowercase(s: &str) -> (r: String)
    ensures
        r@ == lower_of(s@),
{
    s.to_lowercase()
}

/// One playlist as the listing names it: display name and identifier.
pub struct PlaylistHeader {
    pub name: String,
    pub id: String,
}

/// One recorded binding from a case-normalized name to an identifier.
struct IndexEntry {
    name: String,
    id: String,
}

/// The mapping a run of headers builds, enumerated front to back: each
/// display name is keyed by its case-normalized form, and under a
/// duplicated name the later binding wins.
pub open spec fn headers_map(hs: Seq<PlaylistHeader>) -> Map<Seq<char>, Seq<char>>
    decreases hs.len(),
{
    if hs.len() == 0 {
        Map::empty()
    } else {
        headers_map(hs.drop_last()).insert(lower_of(hs.last().name@), hs.last().id@)
    }
}

spec fn entries_map(entries: Seq<IndexEntry>) -> Map<Seq<char>, Seq<char>>
    decreases entries.len(),
{
    if entries.len() == 0 {
        Map::empty()
    } else {
        entries_map(entries.drop_last()).insert(entries.last().name@, entries.last().id@)
    }
}

/// The position of the binding that decides `name`, or a negative value if
/// no entry binds it.
spec fn find_last(entries: Seq<IndexEntry>, name: Seq<char>) -> int
    decreases entries.len(),
{
    if entries.len() == 0 {
        -1
    } else if entries.last().name@ == name {
        entries.len() - 1
    } else {
        find_last(entries.drop_last(), name)
    }
}

proof fn lemma_find_last(entries: Seq<IndexEntry>, name: Seq<char>)
    ensures
        entries_map(entries).contains_key(name) <==> find_last(entries, name) >= 0,
        find_last(entries, name) >= 0 ==> {
            &&& find_last(entries, name) < entries.len()
            &&& entries_map(entries)[name] == entries[find_last(entries, name)].id@
        },
    decreases entries.len(),
{
    if entries.len() > 0 {
        lemma_find_last(entries.drop_last(), name);
    }
}

/// A mapping from playlist display name to playlist identifier, built once
/// per resolution attempt by enumerating the user's playlists.  Keys are
/// the case-normalized display names; under duplicate names the binding
/// seen last survives.
pub struct PlaylistIndex {
    entries: Vec<IndexEntry>,
}

impl PlaylistIndex {
    /// The mapping the index holds, keyed by case-normalized name.
    pub closed spec fn map_view(self) -> Map<Seq<char>, Seq<char>> {
        entries_map(self.entries@)
    }

    pub fn new() -> (r: PlaylistIndex)
        ensures
            r.map_view() == Map::<Seq<char>, Seq<char>>::empty(),
    {
        PlaylistIndex { entries: Vec::new() }
    }

    /// Records a binding under the name's case-normalized form; a binding
    /// recorded later for the same normalized name wins.
    pub fn insert(&mut self, name: String, id: String)
        ensures
            final(self).map_view() == old(self).map_view().insert(lower_of(name@), id@),
    {
        let key = lowercase(name.as_str());
        self.entries.push(IndexEntry { name: key, id });
        proof {
            assert(self.entries@.drop_last() =~= old(self).entries@);
        }
    }

    /// Looks a display name up by its case-normalized form; the returned
    /// identifier is the one bound by the surviving entry.
    pub fn lookup(&self, name: &String) -> (r: Option<String>)
        ensures
            r is Some <==> self.map_view().contains_key(lower_of(name@)),
            r matches Some(id) ==> id@ == self.map_view()[lower_of(name@)],
    {
        let key = lowercase(name.as_str());
        proof {
            lemma_find_last(self.entries@, key@);
            assert(self.entries@.take(self.entries@.len() as int) =~= self.entries@);
        }
        let mut i = self.entries.len();
        while i > 0
            invariant
                i <= self.entries@.len(),
                key@ == lower_of(name@),
                find_last(self.entries@, key@)
                    == find_last(self.entries@.take(i as int), key@),
            decreases i,
        {
            i = i - 1;
            proof {
                assert(self.entries@.take(i + 1).drop_last()
                    =~= self.entries@.take(i as int));
                assert(self.entries@.take(i + 1).last() == self.entries@[i as int]);
            }
            if self.entries[i].name == key {
                proof {
                    assert(find_last(self.entries@.take(i + 1), key@) == i);
                    lemma_find_last(self.entries@, key@);
                }
                return Some(self.entries[i].id.clone());
            }
        }
        proof {
            assert(find_last(self.entries@.take(0), key@) == -1);
            lemma_find_last(self.entries@, key@);
        }
        None
    }

    /// Builds the index by draining a paginated playlist listing, front to
    /// back: every display name is keyed case-normalized, and the
    /// last-listed holder of a duplicated name wins.
    pub fn build(listing: &mut Paged<PlaylistHeader>) -> (idx: PlaylistIndex)
        ensures
            final(listing).remaining().len() == 0,
            idx.map_view() == headers_map(old(listing).items()),
    {
        let ghost all = old(listing).items();
        let ghost mut done: Seq<PlaylistHeader> = Seq::empty();
        let mut idx = PlaylistIndex::new();
        proof {
            assert(all =~= done + listing.items());
            assert(headers_map(done) =~= Map::<Seq<char>, Seq<char>>::empty());
        }
        while listing.has_next()
            invariant
                all == done + listing.items(),
                idx.map_view() == headers_map(done),
            decreases listing.remaining().len(),
        {
            let ghost rem_before = listing.remaining();
            let page = listing.next_page().unwrap();
            proof {
                assert(rem_before.flatten()
                    == rem_before.first() + rem_before.drop_first().flatten());
                assert(all =~= (done + page@) + listing.items());
            }
            let n = page.len();
            let mut k: usize = 0;
            while k < n
                invariant
                    k <= n,
                    n == page@.len(),
                    all == (done + page@) + listing.items(),
                    idx.map_view() == headers_map(done + page@.take(k as int)),
                decreases n - k,
            {
                proof {
                    assert((done + page@.take(k + 1)).drop_last()
                        =~= done + page@.take(k as int));
                    assert((done + page@.take(k + 1)).last() == page@[k as int]);
                }
                idx.insert(page[k].name.clone(), page[k].id.clone());
                k = k + 1;
            }
            proof {
                assert(done + page@.take(n as int) =~= done + page@);
                done = done + page@;
            }
        }
        proof {
            assert(listing.items() =~= Seq::<PlaylistHeader>::empty());
            assert(all =~= done);
        }
        idx
    }
}

/// Whether a normalized answer means yes: exactly `y` or `yes`.
pub open spec fn affirmative(s: Seq<char>) -> bool {
    s == "y"@ || s == "yes"@
}

/// Parses a normalized (trimmed, lowercased) line as a yes/no answer;
/// anything but `y` or `yes` means no.
pub fn is_affirmative(answer: &String) -> (b: bool)
    ensures
        b == affirmative(answer@),
{
    let y = String::from_str("y");
    let yes = String::from_str("yes");
    *answer == y || *answer == yes
}

/// What a finished resolution decides, stated over plain character data.
pub enum DecisionModel {
    Overwrite { id: Seq<char>, name: Seq<char> },
    Create { name: Seq<char>, public: bool },
}

/// The resolution dialogue's state, stated over plain character data.
pub enum StateModel {
    AwaitingName,
    AwaitingOverwrite { name: Seq<char> },
    AwaitingVisibility { name: Seq<char> },
    Decided { decision: DecisionModel },
}

/// How the destination playlist is obtained: reuse an existing playlist
/// (short-circuiting creation) or create a new one with the chosen
/// visibility.
pub enum ResolveDecision {
    Overwrite { id: String, name: String },
    Create { name: String, public: bool },
}

impl ResolveDecision {
    pub open spec fn model(self) -> DecisionModel {
        match self {
            ResolveDecision::Overwrite { id, name } => DecisionModel::Overwrite {
                id: id@,
                name: name@,
            },
            ResolveDecision::Create { name, public } => DecisionModel::Create {
                name: name@,
                public,
            },
        }
    }
}

/// The resolution dialogue's state: what the next line of input will be
/// taken to answer.
pub enum ResolveState {
    /// Waiting for a destination name.
    AwaitingName,
    /// The name collides; waiting for the overwrite answer.
    AwaitingOverwrite { name: String },
    /// The name is free; waiting for the visibility answer.
    AwaitingVisibility { name: String },
    /// The dialogue is over.
    Decided { decision: ResolveDecision },
}

impl ResolveState {
    pub open spec fn model(self) -> StateModel {
        match self {
            ResolveState::AwaitingName => StateModel::AwaitingName,
            ResolveState::AwaitingOverwrite { name } => StateModel::AwaitingOverwrite {
                name: name@,
            },
            ResolveState::AwaitingVisibility { name } => StateModel::AwaitingVisibility {
                name: name@,
            },
            ResolveState::Decided { decision } => StateModel::Decided {
                decision: decision.model(),
            },
        }
    }
}

/// A state the dialogue can actually reach: an overwrite question is only
/// pending for a name whose normalized form the index holds.
pub open spec fn state_inv(index: Map<Seq<char>, Seq<char>>, st: StateModel) -> bool {
    st matches StateModel::AwaitingOverwrite { name } ==> index.contains_key(lower_of(name))
}

/// One step of the dialogue: what the next state is when `input` arrives in
/// state `st` against `index`.  Name collisions are decided on the
/// case-normalized forms, so a requested name meets an existing playlist's
/// name whatever either one's casing.
pub open spec fn step_model(
    index: Map<Seq<char>, Seq<char>>,
    st: StateModel,
    input: Seq<char>,
) -> StateModel {
    match st {
        StateModel::AwaitingName => {
            if index.contains_key(lower_of(input)) {
                StateModel::AwaitingOverwrite { name: input }
            } else {
                StateModel::AwaitingVisibility { name: input }
            }
        },
        StateModel::AwaitingOverwrite { name } => {
            if affirmative(input) {
                StateModel::Decided {
                    decision: DecisionModel::Overwrite { id: index[lower_of(name)], name },
                }
            } else {
                StateModel::AwaitingName
            }
        },
        StateModel::AwaitingVisibility { name } => {
            StateModel::Decided {
                decision: DecisionModel::Create { name, public: affirmative(input) },
            }
        },
        StateModel::Decided { decision } => StateModel::Decided { decision },
    }
}

/// Advances the dialogue by one normalized input line.  A name colliding
/// with an existing playlist's — compared case-normalized on both sides —
/// asks for overwrite confirmation; `y`/`yes` there reuses the existing
/// playlist's identifier without any creation; any other answer re-prompts
/// for a name; a free name asks for visibility, whose answer decides the
/// creation.  A decided dialogue stays decided.
pub fn resolve_step(index: &PlaylistIndex, state: ResolveState, input: &String) -> (next:
    ResolveState)
    requires
        state_inv(index.map_view(), state.model()),
    ensures
        next.model() == step_model(index.map_view(), state.model(), input@),
        state_inv(index.map_view(), next.model()),
{
    match state {
        ResolveState::AwaitingName => {
            match index.lookup(input) {
                Some(_) => ResolveState::AwaitingOverwrite { name: input.clone() },
                None => ResolveState::AwaitingVisibility { name: input.clone() },
            }
        },
        ResolveState::AwaitingOverwrite { name } => {
            if is_affirmative(input) {
                let id = index.lookup(&name).unwrap();
                ResolveState::Decided {
                    decision: ResolveDecision::Overwrite { id, name },
                }
            } else {
                ResolveState::AwaitingName
            }
        },
        ResolveState::AwaitingVisibility { name } => {
            ResolveState::Decided {
                decision: ResolveDecision::Create { name, public: is_affirmative(input) },
            }
        },
        ResolveState::Decided { decision } => ResolveState::Decided { decision },
    }
}

/// Where the dialogue stands after a run of input lines, starting from the
/// name prompt.
pub open spec fn run_model(
    index: Map<Seq<char>, Seq<char>>,
    inputs: Seq<Seq<char>>,
) -> StateModel
    decreases inputs.len(),
{
    if inputs.len() == 0 {
        StateModel::AwaitingName
    } else {
        step_model(index, run_model(index, inputs.drop_last()), inputs.last())
    }
}

/// Runs the whole dialogue over a recorded run of normalized input lines,
/// and returns the decision it reaches, if any.
pub fn resolve_with_inputs(index: &PlaylistIndex, inputs: &Vec<String>) -> (r: Option<
    ResolveDecision,
>)
    ensures
        r is Some <==> run_model(index.map_view(), views_of(inputs@)) is Decided,
        r matches Some(d) ==> run_model(index.map_view(), views_of(inputs@))
            == (StateModel::Decided { decision: d.model() }),
{
    let ghost ins = views_of(inputs@);
    let mut state = ResolveState::AwaitingName;
    let n = inputs.len();
    let mut i: usize = 0;
    proof {
        assert(ins.take(0) =~= Seq::<Seq<char>>::empty());
    }
    while i < n
        invariant
            i <= n,
            n == inputs@.len(),
            ins == views_of(inputs@),
            state.model() == run_model(index.map_view(), ins.take(i as int)),
            state_inv(index.map_view(), state.model()),
        decreases n - i,
    {
        proof {
            assert(ins.take(i + 1).drop_last() =~= ins.take(i as int));
            assert(ins.take(i + 1).last() == inputs@[i as int]@);
        }
        state = resolve_step(index, state, &inputs[i]);
        i = i + 1;
    }
    proof {
        assert(ins.take(n as int) =~= ins);
    }
    match state {
        ResolveState::Decided { decision } => Some(decision),
        _ => None,
    }
}

} // verus!
