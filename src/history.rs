//! A bounded list of past generations, most recent first. Storing it on disk
//! happens outside the library.
use crate::flower::GenerationResponse;
use crate::text::same_text;
use vstd::prelude::*;
use vstd::slice::slice_subrange;

verus! {

/// Most entries kept.
pub const MAX_HISTORY_ENTRIES: usize = 100;

/// A past generation with a name, notes and a favourite mark.
#[derive(Clone, Debug)]
pub struct HistoryEntry {
    pub response: GenerationResponse,
    pub name: Option<String>,
    pub notes: Option<String>,
    pub favorite: bool,
}

impl HistoryEntry {
    /// An entry without name or notes, not a favourite.
    pub fn new(response: GenerationResponse) -> (e: HistoryEntry)
        ensures
            e.response == response,
            e.name is None,
            e.notes is None,
            !e.favorite,
    {
        HistoryEntry { response, name: None, notes: None, favorite: false }
    }

    /// The entry with the given name.
    pub fn with_name(self, name: &str) -> (e: HistoryEntry)
        ensures
            e.name matches Some(n) && n@ == name@,
            e.response == self.response,
            e.notes == self.notes,
            e.favorite == self.favorite,
    {
        HistoryEntry { name: Some(String::from_str(name)), ..self }
    }

    /// The entry with the given notes.
    pub fn with_notes(self, notes: &str) -> (e: HistoryEntry)
        ensures
            e.notes matches Some(n) && n@ == notes@,
            e.response == self.response,
            e.name == self.name,
            e.favorite == self.favorite,
    {
        HistoryEntry { notes: Some(String::from_str(notes)), ..self }
    }

    /// The entry marked, or not, as a favourite.
    pub fn with_favorite(self, favorite: bool) -> (e: HistoryEntry)
        ensures
            e.favorite == favorite,
            e.response == self.response,
            e.name == self.name,
            e.notes == self.notes,
    {
        HistoryEntry { favorite, ..self }
    }
}

/// Index of the last entry that is not a favourite.
pub open spec fn last_non_favorite(s: Seq<HistoryEntry>) -> Option<int>
    decreases s.len(),
{
    if s.len() == 0 {
        None
    } else if !s.last().favorite {
        Some(s.len() - 1)
    } else {
        last_non_favorite(s.drop_last())
    }
}

/// The list with one entry dropped: the oldest one that is not a favourite,
/// or the oldest of all where every entry is a favourite.
pub open spec fn drop_one(s: Seq<HistoryEntry>) -> Seq<HistoryEntry> {
    match last_non_favorite(s) {
        Some(i) => s.remove(i),
        None => s.drop_last(),
    }
}

/// The list cut down to at most `MAX_HISTORY_ENTRIES` entries, one drop at a time.
pub open spec fn trimmed(s: Seq<HistoryEntry>) -> Seq<HistoryEntry>
    decreases s.len(),
    via trimmed_decreases
{
    if s.len() <= MAX_HISTORY_ENTRIES || s.len() == 0 {
        s
    } else {
        trimmed(drop_one(s))
    }
}

#[via_fn]
proof fn trimmed_decreases(s: Seq<HistoryEntry>) {
    lemma_last_non_favorite(s);
}

/// Number of favourites among `s`.
pub open spec fn favorite_count(s: Seq<HistoryEntry>) -> nat
    decreases s.len(),
{
    if s.len() == 0 {
        0
    } else {
        favorite_count(s.drop_last()) + if s.last().favorite {
            1nat
        } else {
            0nat
        }
    }
}

/// Index of the first entry whose generation has the identifier `id`.
pub open spec fn position_of(s: Seq<HistoryEntry>, id: Seq<char>, i: int) -> bool {
    &&& 0 <= i < s.len()
    &&& s[i].response.id@ == id
    &&& forall|j: int| 0 <= j < i ==> (#[trigger] s[j]).response.id@ != id
}

/// No entry's generation has the identifier `id`.
pub open spec fn absent(s: Seq<HistoryEntry>, id: Seq<char>) -> bool {
    forall|j: int| 0 <= j < s.len() ==> (#[trigger] s[j]).response.id@ != id
}

proof fn lemma_last_non_favorite(s: Seq<HistoryEntry>)
    ensures
        last_non_favorite(s) matches Some(i) ==> 0 <= i < s.len() && !s[i].favorite && forall|j: int|
            i < j < s.len() ==> #[trigger] s[j].favorite,
        last_non_favorite(s) is None ==> forall|j: int| 0 <= j < s.len() ==> #[trigger] s[j].favorite,
    decreases s.len(),
{
    if s.len() > 0 {
        lemma_last_non_favorite(s.drop_last());
        if s.last().favorite {
            assert forall|j: int| 0 <= j < s.len() - 1 implies s[j] == s.drop_last()[j] by {}
        }
    }
}

/// Past generations, most recent first, at most `MAX_HISTORY_ENTRIES` of them.
#[derive(Clone, Debug)]
pub struct History {
    entries: Vec<HistoryEntry>,
}

impl History {
    /// The entries, most recent first.
    pub closed spec fn view_entries(&self) -> Seq<HistoryEntry> {
        self.entries@
    }

    /// An empty history.
    pub fn new() -> (h: History)
        ensures
            h.view_entries().len() == 0,
    {
        History { entries: Vec::new() }
    }

    fn trim(&mut self)
        ensures
            final(self).view_entries() == trimmed(old(self).view_entries()),
    {
        while self.entries.len() > MAX_HISTORY_ENTRIES
            invariant
                trimmed(self.entries@) == trimmed(old(self).entries@),
            decreases self.entries@.len(),
        {
            let ghost before = self.entries@;
            proof {
                lemma_last_non_favorite(before);
            }
            match self.last_non_favorite_index() {
                Some(i) => {
                    self.entries.remove(i);
                },
                None => {
                    self.entries.pop();
                },
            }
            assert(self.entries@ =~= drop_one(before));
        }
    }

    fn last_non_favorite_index(&self) -> (r: Option<usize>)
        ensures
            r matches Some(i) ==> last_non_favorite(self.entries@) == Some(i as int),
            r is None ==> last_non_favorite(self.entries@) is None,
    {
        let mut k: usize = self.entries.len();
        assert(self.entries@.take(k as int) =~= self.entries@);
        while k > 0
            invariant
                k <= self.entries@.len(),
                last_non_favorite(self.entries@) == last_non_favorite(self.entries@.take(k as int)),
            decreases k,
        {
            let ghost t = self.entries@.take(k as int);
            assert(t.drop_last() =~= self.entries@.take(k - 1));
            if !self.entries[k - 1].favorite {
                return Some(k - 1);
            }
            k = k - 1;
        }
        None
    }

    /// Adds an entry as the most recent, then drops the oldest entries that
    /// are not favourites while there are too many.
    pub fn add(&mut self, entry: HistoryEntry)
        ensures
            final(self).view_entries() == trimmed(seq![entry] + old(self).view_entries()),
    {
        self.entries.insert(0, entry);
        assert(self.entries@ =~= seq![entry] + old(self).entries@);
        self.trim();
    }

    /// Adds a generation without name or notes.
    pub fn add_response(&mut self, response: GenerationResponse)
        ensures
            exists|e: HistoryEntry|
                e.response == response && e.name is None && e.notes is None && !e.favorite
                    && final(self).view_entries() == trimmed(seq![e] + old(self).view_entries()),
    {
        self.add(HistoryEntry::new(response));
    }

    /// All entries, most recent first.
    pub fn entries(&self) -> (s: &[HistoryEntry])
        ensures
            s@ == self.view_entries(),
    {
        self.entries.as_slice()
    }

    fn position(&self, id: &str) -> (r: Option<usize>)
        ensures
            r matches Some(i) ==> position_of(self.entries@, id@, i as int),
            r is None ==> absent(self.entries@, id@),
    {
        let mut i: usize = 0;
        while i < self.entries.len()
            invariant
                0 <= i <= self.entries@.len(),
                forall|j: int| 0 <= j < i ==> (#[trigger] self.entries@[j]).response.id@ != id@,
            decreases self.entries@.len() - i,
        {
            if same_text(self.entries[i].response.id.as_str(), id) {
                return Some(i);
            }
            i = i + 1;
        }
        None
    }

    /// The most recent entry for the generation `id`.
    pub fn get(&self, id: &str) -> (r: Option<&HistoryEntry>)
        ensures
            r matches Some(e) ==> exists|i: int| position_of(self.view_entries(), id@, i) && *e == self.view_entries()[i],
            r is None ==> absent(self.view_entries(), id@),
    {
        match self.position(id) {
            Some(i) => {
                assert(position_of(self.view_entries(), id@, i as int));
                Some(&self.entries[i])
            },
            None => None,
        }
    }

    /// Removes the most recent entry for the generation `id`.
    pub fn remove(&mut self, id: &str) -> (r: Option<HistoryEntry>)
        ensures
            r matches Some(e) ==> exists|i: int|
                position_of(old(self).view_entries(), id@, i) && e == old(self).view_entries()[i]
                    && final(self).view_entries() == old(self).view_entries().remove(i),
            r is None ==> absent(old(self).view_entries(), id@) && final(self).view_entries()
                == old(self).view_entries(),
    {
        match self.position(id) {
            Some(i) => {
                assert(position_of(old(self).view_entries(), id@, i as int));
                Some(self.entries.remove(i))
            },
            None => None,
        }
    }

    /// Sets the name, notes and favourite mark of the most recent entry for
    /// the generation `id`, each where one is given; false where there is no
    /// such entry.
    pub fn update_entry(
        &mut self,
        id: &str,
        name: Option<String>,
        notes: Option<String>,
        favorite: Option<bool>,
    ) -> (found: bool)
        ensures
            found <==> !absent(old(self).view_entries(), id@),
            !found ==> final(self).view_entries() == old(self).view_entries(),
            found ==> exists|i: int|
                {
                    let e = old(self).view_entries()[i];
                    &&& #[trigger] position_of(old(self).view_entries(), id@, i)
                    &&& final(self).view_entries() == old(self).view_entries().update(
                        i,
                        HistoryEntry {
                            response: e.response,
                            name: if name is Some {
                                name
                            } else {
                                e.name
                            },
                            notes: if notes is Some {
                                notes
                            } else {
                                e.notes
                            },
                            favorite: match favorite {
                                Some(f) => f,
                                None => e.favorite,
                            },
                        },
                    )
                },
    {
        match self.position(id) {
            Some(i) => {
                let ghost before = self.entries@;
                let mut e = self.entries.remove(i);
                if name.is_some() {
                    e.name = name;
                }
                if notes.is_some() {
                    e.notes = notes;
                }
                if let Some(f) = favorite {
                    e.favorite = f;
                }
                self.entries.insert(i, e);
                assert(position_of(before, id@, i as int));
                assert(self.entries@ =~= before.update(i as int, e));
                true
            },
            None => false,
        }
    }

    /// Number of entries.
    pub fn len(&self) -> (n: usize)
        ensures
            n == self.view_entries().len(),
    {
        self.entries.len()
    }

    /// Whether there are no entries.
    pub fn is_empty(&self) -> (b: bool)
        ensures
            b == (self.view_entries().len() == 0),
    {
        self.entries.len() == 0
    }

    /// Removes every entry.
    pub fn clear(&mut self)
        ensures
            final(self).view_entries().len() == 0,
    {
        self.entries.clear();
    }

    /// The `count` most recent entries, or all where there are fewer.
    pub fn recent(&self, count: usize) -> (s: &[HistoryEntry])
        ensures
            s@ == self.view_entries().take(
                if count < self.view_entries().len() {
                    count as int
                } else {
                    self.view_entries().len() as int
                },
            ),
    {
        let n = if count < self.entries.len() {
            count
        } else {
            self.entries.len()
        };
        let s = slice_subrange(self.entries.as_slice(), 0, n);
        assert(s@ =~= self.entries@.take(n as int));
        s
    }

    /// The favourite entries, most recent first.
    pub fn favorites(&self) -> (v: Vec<&HistoryEntry>)
        ensures
            v@.len() == favorite_count(self.view_entries()),
            forall|j: int| 0 <= j < v@.len() ==> (#[trigger] v@[j]).favorite,
    {
        let mut v: Vec<&HistoryEntry> = Vec::new();
        let mut i: usize = 0;
        while i < self.entries.len()
            invariant
                0 <= i <= self.entries@.len(),
                v@.len() == favorite_count(self.entries@.take(i as int)),
                forall|j: int| 0 <= j < v@.len() ==> (#[trigger] v@[j]).favorite,
            decreases self.entries@.len() - i,
        {
            let ghost t = self.entries@.take(i + 1);
            assert(t.drop_last() =~= self.entries@.take(i as int));
            if self.entries[i].favorite {
                v.push(&self.entries[i]);
            }
            i = i + 1;
        }
        assert(self.entries@.take(i as int) =~= self.entries@);
        v
    }
}

} // verus!
