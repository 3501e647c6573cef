//! The charger table: the station's chargers, found by their id.

use vstd::prelude::*;
use crate::models::{ChargerConfig, ChargerConfigView, charger_views};

verus! {

/// No two chargers share an id.
pub open spec fn distinct_ids(chargers: Seq<ChargerConfigView>) -> bool {
    forall|i: int, j: int|
        0 <= i < j < chargers.len() ==> (#[trigger] chargers[i]).id != (#[trigger] chargers[j]).id
}

/// Where the charger `id` stands in `chargers`: the last place that holds it.
pub open spec fn index_of(chargers: Seq<ChargerConfigView>, id: Seq<char>) -> Option<int>
    decreases chargers.len(),
{
    if chargers.len() == 0 {
        None
    } else if chargers.last().id == id {
        Some(chargers.len() - 1)
    } else {
        index_of(chargers.drop_last(), id)
    }
}

/// The charger `id` of `chargers`, if there is one.
pub open spec fn lookup(chargers: Seq<ChargerConfigView>, id: Seq<char>) -> Option<
    ChargerConfigView,
> {
    match index_of(chargers, id) {
        Some(i) => Some(chargers[i]),
        None => None,
    }
}

/// The power that the charger `id` can deliver; none where there is no such
/// charger.
pub open spec fn limit_of(chargers: Seq<ChargerConfigView>, id: Seq<char>) -> nat {
    match lookup(chargers, id) {
        Some(charger) => charger.max_power,
        None => 0,
    }
}

/// `chargers` after `charger` was entered: in the place of the one that had
/// its id, or else at the end.
pub open spec fn with_charger(chargers: Seq<ChargerConfigView>, charger: ChargerConfigView) -> Seq<
    ChargerConfigView,
> {
    match index_of(chargers, charger.id) {
        Some(i) => chargers.update(i, charger),
        None => chargers.push(charger),
    }
}

/// `chargers` entered one after the other into an empty table.
pub open spec fn table_of(chargers: Seq<ChargerConfigView>) -> Seq<ChargerConfigView>
    decreases chargers.len(),
{
    if chargers.len() == 0 {
        Seq::empty()
    } else {
        with_charger(table_of(chargers.drop_last()), chargers.last())
    }
}

/// What `index_of` finds holds the id, and no later place does.
pub proof fn lemma_index_of(chargers: Seq<ChargerConfigView>, id: Seq<char>)
    ensures
        match index_of(chargers, id) {
            Some(i) => {
                &&& 0 <= i < chargers.len()
                &&& chargers[i].id == id
                &&& forall|j: int| i < j < chargers.len() ==> (#[trigger] chargers[j]).id != id
            },
            None => forall|j: int| 0 <= j < chargers.len() ==> (#[trigger] chargers[j]).id != id,
        },
    decreases chargers.len(),
{
    if chargers.len() > 0 && chargers.last().id != id {
        let rest = chargers.drop_last();
        lemma_index_of(rest, id);
        assert forall|j: int| 0 <= j < rest.len() implies rest[j] == chargers[j] by {}
        match index_of(rest, id) {
            Some(i) => {
                assert forall|j: int| i < j < chargers.len() implies (#[trigger] chargers[j]).id
                    != id by {
                    if j < rest.len() {
                        assert(rest[j].id != id);
                    }
                }
            },
            None => {
                assert forall|j: int| 0 <= j < chargers.len() implies (#[trigger] chargers[j]).id
                    != id by {
                    if j < rest.len() {
                        assert(rest[j].id != id);
                    }
                }
            },
        }
    }
}

/// A place that holds the id, with no later place holding it, is what
/// `index_of` finds.
pub proof fn lemma_index_of_found(chargers: Seq<ChargerConfigView>, id: Seq<char>, i: int)
    requires
        0 <= i < chargers.len(),
        chargers[i].id == id,
        forall|j: int| i < j < chargers.len() ==> (#[trigger] chargers[j]).id != id,
    ensures
        index_of(chargers, id) == Some(i),
    decreases chargers.len(),
{
    if i < chargers.len() - 1 {
        let rest = chargers.drop_last();
        assert(chargers.last() == chargers[chargers.len() - 1]);
        assert forall|j: int| i < j < rest.len() implies (#[trigger] rest[j]).id != id by {
            assert(rest[j] == chargers[j]);
        }
        assert(rest[i] == chargers[i]);
        lemma_index_of_found(rest, id, i);
    }
}

/// Entering a charger keeps the ids distinct, and changes what is found under
/// its id only.
pub proof fn lemma_with_charger(chargers: Seq<ChargerConfigView>, charger: ChargerConfigView)
    requires
        distinct_ids(chargers),
    ensures
        distinct_ids(with_charger(chargers, charger)),
        forall|id: Seq<char>|
            lookup(with_charger(chargers, charger), id) == if id == charger.id {
                Some(charger)
            } else {
                #[trigger] lookup(chargers, id)
            },
{
    let after = with_charger(chargers, charger);
    lemma_index_of(chargers, charger.id);
    match index_of(chargers, charger.id) {
        Some(i) => {
            assert forall|a: int, b: int| 0 <= a < b < after.len() implies (#[trigger] after[a]).id
                != (#[trigger] after[b]).id by {
                assert(after[a].id == chargers[a].id);
                assert(after[b].id == chargers[b].id);
            }
        },
        None => {
            assert forall|a: int, b: int| 0 <= a < b < after.len() implies (#[trigger] after[a]).id
                != (#[trigger] after[b]).id by {
                if b < chargers.len() {
                    assert(after[a].id == chargers[a].id);
                    assert(after[b].id == chargers[b].id);
                } else {
                    assert(after[a].id == chargers[a].id);
                }
            }
        },
    }
    assert forall|id: Seq<char>|
        lookup(after, id) == if id == charger.id {
            Some(charger)
        } else {
            #[trigger] lookup(chargers, id)
        } by {
        lemma_index_of(chargers, id);
        match index_of(chargers, charger.id) {
            Some(i) => {
                if id == charger.id {
                    assert forall|j: int| i < j < after.len() implies (#[trigger] after[j]).id
                        != id by {
                        assert(after[j] == chargers[j]);
                    }
                    lemma_index_of_found(after, id, i);
                } else {
                    match index_of(chargers, id) {
                        Some(k) => {
                            assert(k != i);
                            assert(after[k] == chargers[k]);
                            assert forall|j: int| k < j < after.len() implies (
                            #[trigger] after[j]).id != id by {
                                if j != i {
                                    assert(after[j] == chargers[j]);
                                }
                            }
                            lemma_index_of_found(after, id, k);
                        },
                        None => {
                            lemma_index_of(after, id);
                            if index_of(after, id) is Some {
                                let k = index_of(after, id)->0;
                                if k != i {
                                    assert(after[k] == chargers[k]);
                                }
                            }
                        },
                    }
                }
            },
            None => {
                assert(after.drop_last() =~= chargers);
            },
        }
    }
}

/// The table of a list of chargers has distinct ids, and holds under each id
/// the last charger of the list that has it.
pub proof fn lemma_table_of(chargers: Seq<ChargerConfigView>)
    ensures
        distinct_ids(table_of(chargers)),
        forall|id: Seq<char>| #[trigger] lookup(table_of(chargers), id) == lookup(chargers, id),
    decreases chargers.len(),
{
    if chargers.len() > 0 {
        let rest = chargers.drop_last();
        lemma_table_of(rest);
        lemma_with_charger(table_of(rest), chargers.last());
        assert forall|id: Seq<char>| #[trigger]
            lookup(table_of(chargers), id) == lookup(chargers, id) by {
            assert(lookup(table_of(rest), id) == lookup(rest, id));
            assert(lookup(table_of(chargers), id) == if id == chargers.last().id {
                Some(chargers.last())
            } else {
                lookup(table_of(rest), id)
            });
            if id != chargers.last().id {
                assert(index_of(chargers, id) == index_of(rest, id));
                lemma_index_of(rest, id);
            }
        }
    }
}

/// The station's chargers, each found by its id. No two entries share an id.
#[derive(Debug)]
pub struct ChargerTable {
    entries: Vec<ChargerConfig>,
}

impl View for ChargerTable {
    type V = Seq<ChargerConfigView>;

    closed spec fn view(&self) -> Seq<ChargerConfigView> {
        charger_views(self.entries@)
    }
}

impl ChargerTable {
    /// The table's invariant: no two entries share an id.
    #[verifier::type_invariant]
    pub closed spec fn wf(self) -> bool {
        distinct_ids(charger_views(self.entries@))
    }

    /// The ids of a table are distinct.
    pub proof fn lemma_distinct(self)
        requires
            self.wf(),
        ensures
            distinct_ids(self@),
    {
    }

    /// A table with no charger.
    pub fn new() -> (table: ChargerTable)
        ensures
            table@ == Seq::<ChargerConfigView>::empty(),
            table.wf(),
    {
        let table = ChargerTable { entries: Vec::new() };
        assert(table@ =~= Seq::<ChargerConfigView>::empty());
        table
    }

    /// Enters `charger`, in the place of the entry that had its id if there
    /// was one.
    pub fn insert(&mut self, charger: ChargerConfig)
        ensures
            final(self)@ == with_charger(old(self)@, charger@),
            final(self).wf(),
    {
        proof {
            use_type_invariant(&*self);
            lemma_with_charger(self@, charger@);
        }
        let ghost before = self@;
        let mut entries: Vec<ChargerConfig> = Vec::new();
        std::mem::swap(&mut entries, &mut self.entries);
        assert(charger_views(entries@) == before);
        let found = Self::position(&entries, &charger.id);
        proof {
            lemma_index_of(before, charger@.id);
        }
        match found {
            Some(i) => {
                entries.set(i, charger);
                assert(charger_views(entries@) =~= with_charger(before, charger@));
            },
            None => {
                entries.push(charger);
                assert(charger_views(entries@) =~= with_charger(before, charger@));
            },
        }
        self.entries = entries;
    }

    /// Where the charger `id` stands among `entries`.
    fn position(entries: &Vec<ChargerConfig>, id: &String) -> (found: Option<usize>)
        ensures
            match found {
                Some(i) => index_of(charger_views(entries@), id@) == Some(i as int),
                None => index_of(charger_views(entries@), id@) is None,
            },
    {
        let ghost views = charger_views(entries@);
        let mut i: usize = entries.len();
        while i > 0
            invariant
                i <= entries.len(),
                views == charger_views(entries@),
                forall|j: int| i <= j < views.len() ==> (#[trigger] views[j]).id != id@,
            decreases i,
        {
            i -= 1;
            if entries[i].id == *id {
                proof {
                    lemma_index_of_found(views, id@, i as int);
                }
                return Some(i);
            }
        }
        proof {
            lemma_index_of(views, id@);
        }
        None
    }

    /// The table of `chargers`: where two of them share an id, the later one
    /// stands for both.
    pub fn from_chargers(chargers: &[ChargerConfig]) -> (table: ChargerTable)
        ensures
            table@ == table_of(charger_views(chargers@)),
            table.wf(),
    {
        let ghost views = charger_views(chargers@);
        let mut table = ChargerTable::new();
        let mut i: usize = 0;
        while i < chargers.len()
            invariant
                i <= chargers.len(),
                views == charger_views(chargers@),
                table@ == table_of(views.take(i as int)),
                table.wf(),
            decreases chargers.len() - i,
        {
            proof {
                assert(views.take(i + 1).drop_last() =~= views.take(i as int));
            }
            table.insert(chargers[i].clone());
            i += 1;
        }
        assert(views.take(i as int) =~= views);
        table
    }

    /// The charger `id`, if the table holds it.
    pub fn get(&self, id: &String) -> (found: Option<&ChargerConfig>)
        ensures
            match found {
                Some(charger) => lookup(self@, id@) == Some(charger@),
                None => lookup(self@, id@) is None,
            },
    {
        match Self::position(&self.entries, id) {
            Some(i) => {
                proof {
                    lemma_index_of(self@, id@);
                }
                Some(&self.entries[i])
            },
            None => None,
        }
    }

    /// The entries, in the order of the table.
    pub fn entries(&self) -> (entries: &[ChargerConfig])
        ensures
            charger_views(entries@) == self@,
            distinct_ids(self@),
    {
        proof {
            use_type_invariant(self);
        }
        self.entries.as_slice()
    }
}

} // verus!
