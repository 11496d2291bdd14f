//! The identifier space of the vector index: stable qualified names on one
//! side, the `u64` keys the index needs on the other. Ids are handed out in
//! order from 1; the id `k` names the `k`-th name recorded.
use vstd::prelude::*;
use crate::text::str_eq;

verus! {

/// The last position of `name` among `names[..end]`.
pub open spec fn last_pos(names: Seq<Seq<char>>, name: Seq<char>, end: int) -> Option<int>
    decreases end,
{
    if end <= 0 || end > names.len() {
        None
    } else if names[end - 1] == name {
        Some(end - 1)
    } else {
        last_pos(names, name, end - 1)
    }
}

/// No name occurs twice.
pub open spec fn all_distinct(names: Seq<Seq<char>>) -> bool {
    forall|a: int, b: int| 0 <= a < b < names.len() ==> names[a] != names[b]
}

/// The mapping between qualified names and vector-index ids.
pub struct IdMap {
    names: Vec<String>,
}

impl IdMap {
    /// The recorded names; the name of id `k` is at position `k - 1`.
    pub closed spec fn view(&self) -> Seq<Seq<char>> {
        self.names@.map_values(|s: String| s@)
    }

    /// The id of `name`: one more than its last position.
    pub open spec fn id_spec(&self, name: Seq<char>) -> Option<u64> {
        match last_pos(self.view(), name, self.view().len() as int) {
            Some(p) => Some((p + 1) as u64),
            None => None,
        }
    }

    /// An empty mapping; the next id is 1.
    pub fn new() -> (r: IdMap)
        ensures
            r.view().len() == 0,
    {
        IdMap { names: Vec::new() }
    }

    /// The mapping that gives ids `1, 2, ...` to `names` in order.
    pub fn from_names(names: Vec<String>) -> (r: IdMap)
        ensures
            r.view() == names@.map_values(|s: String| s@),
    {
        IdMap { names }
    }

    /// How many ids have been handed out.
    pub fn len(&self) -> (r: usize)
        ensures
            r == self.view().len(),
    {
        self.names.len()
    }

    /// The id the next new name gets.
    pub fn next_id(&self) -> (r: u64)
        requires
            self.view().len() < u64::MAX,
        ensures
            r == self.view().len() + 1,
    {
        self.names.len() as u64 + 1
    }

    /// The name of id `id`, if it has been handed out.
    pub fn name_of(&self, id: u64) -> (r: Option<&String>)
        ensures
            1 <= id <= self.view().len() ==> (r matches Some(s) && s@ == self.view()[id - 1]),
            !(1 <= id <= self.view().len()) ==> r is None,
    {
        if id >= 1 && id <= self.names.len() as u64 {
            let k = (id - 1) as usize;
            Some(&self.names[k])
        } else {
            None
        }
    }

    /// The id of `name`, if it has one.
    pub fn id_of(&self, name: &str) -> (r: Option<u64>)
        requires
            self.view().len() < u64::MAX,
        ensures
            r == self.id_spec(name@),
    {
        let mut e: usize = self.names.len();
        while e > 0
            invariant
                e <= self.names.len(),
                self.view().len() == self.names.len(),
                self.view().len() < u64::MAX,
                last_pos(self.view(), name@, e as int) == last_pos(
                    self.view(),
                    name@,
                    self.view().len() as int,
                ),
            decreases e,
        {
            assert(self.view()[e - 1] == self.names@[e - 1]@);
            if str_eq(self.names[e - 1].as_str(), name) {
                return Some(e as u64);
            }
            e = e - 1;
        }
        None
    }

    /// The id of `name`, handing out the next one when it has none.
    pub fn get_or_allocate(&mut self, name: &str) -> (r: u64)
        requires
            old(self).view().len() < u64::MAX - 1,
        ensures
            old(self).id_spec(name@) is Some ==> Some(r) == old(self).id_spec(name@),
            old(self).id_spec(name@) is Some ==> final(self).view() == old(self).view(),
            old(self).id_spec(name@) is None ==> r == old(self).view().len() + 1,
            old(self).id_spec(name@) is None ==> final(self).view() == old(self).view().push(name@),
    {
        match self.id_of(name) {
            Some(id) => id,
            None => {
                let id = self.names.len() as u64 + 1;
                let ghost before = self.view();
                self.names.push(name.to_owned());
                assert(self.view() =~= before.push(name@));
                id
            },
        }
    }
}

/// The ids of distinct names are a bijection: the id of the `k`-th name is
/// `k`.
pub proof fn lemma_ids_invert(m: IdMap, k: int)
    requires
        all_distinct(m.view()),
        1 <= k <= m.view().len(),
        m.view().len() < u64::MAX,
    ensures
        m.id_spec(m.view()[k - 1]) == Some(k as u64),
{
    lemma_last_pos_distinct(m.view(), k - 1, m.view().len() as int);
}

proof fn lemma_last_pos_distinct(names: Seq<Seq<char>>, p: int, end: int)
    requires
        all_distinct(names),
        0 <= p < end <= names.len(),
    ensures
        last_pos(names, names[p], end) == Some(p),
    decreases end,
{
    if end - 1 != p {
        assert(names[end - 1] != names[p]);
        lemma_last_pos_distinct(names, p, end - 1);
    }
}

/// Handing out an id keeps the names distinct.
pub proof fn lemma_allocate_keeps_distinct(before: Seq<Seq<char>>, name: Seq<char>)
    requires
        all_distinct(before),
        last_pos(before, name, before.len() as int) is None,
    ensures
        all_distinct(before.push(name)),
{
    assert forall|a: int| 0 <= a < before.len() implies before[a] != name by {
        lemma_last_pos_none(before, name, before.len() as int, a);
    }
    let after = before.push(name);
    assert forall|a: int, b: int| 0 <= a < b < after.len() implies after[a] != after[b] by {
        if b == before.len() {
            assert(before[a] != name);
        } else {
            assert(after[a] == before[a] && after[b] == before[b]);
        }
    }
}

proof fn lemma_last_pos_none(names: Seq<Seq<char>>, name: Seq<char>, end: int, a: int)
    requires
        0 <= a < end <= names.len(),
        last_pos(names, name, end) is None,
    ensures
        names[a] != name,
    decreases end,
{
    if end - 1 != a {
        lemma_last_pos_none(names, name, end - 1, a);
    }
}

} // verus!
