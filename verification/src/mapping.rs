//! The mapping that reading a name file back gives: which new name each old
//! name gets.

use vstd::prelude::*;
use vstd::string::StringSliceAdditionalSpecFns;

verus! {

/// A pair of names, old and new, each as the sequence of its characters.
pub type NamePair = (Seq<char>, Seq<char>);

/// The pairs in `pairs`, each name as the sequence of its characters.
pub open spec fn pair_views(pairs: Seq<(String, String)>) -> Seq<NamePair> {
    Seq::new(pairs.len(), |i: int| (pairs[i].0@, pairs[i].1@))
}

/// Whether no old name stands in two of the pairs.
pub open spec fn old_names_differ(pairs: Seq<NamePair>) -> bool {
    forall|i: int, j: int| 0 <= i < j < pairs.len() ==> pairs[i].0 != pairs[j].0
}

/// The mapping that holds the pairs in `pairs`. Where an old name stands in
/// several pairs, the last of them counts.
pub open spec fn map_of(pairs: Seq<NamePair>) -> Map<Seq<char>, Seq<char>>
    decreases pairs.len(),
{
    if pairs.len() == 0 {
        Map::empty()
    } else {
        map_of(pairs.drop_last()).insert(pairs.last().0, pairs.last().1)
    }
}

/// Whether `name` is the old name of one of the pairs.
pub open spec fn has_old_name(pairs: Seq<NamePair>, name: Seq<char>) -> bool {
    exists|i: int| 0 <= i < pairs.len() && #[trigger] pairs[i].0 == name
}

/// The mapping of pairs holds exactly the old names that stand in a pair.
pub proof fn lemma_map_of_dom(pairs: Seq<NamePair>, name: Seq<char>)
    ensures
        map_of(pairs).contains_key(name) <==> has_old_name(pairs, name),
    decreases pairs.len(),
{
    if pairs.len() > 0 {
        let front = pairs.drop_last();
        lemma_map_of_dom(front, name);
        if has_old_name(pairs, name) {
            let i = choose|i: int| 0 <= i < pairs.len() && #[trigger] pairs[i].0 == name;
            if i < pairs.len() - 1 {
                assert(front[i].0 == name);
            }
        }
        if map_of(pairs).contains_key(name) {
            if name == pairs.last().0 {
                assert(pairs[pairs.len() - 1].0 == name);
            } else {
                let i = choose|i: int| 0 <= i < front.len() && #[trigger] front[i].0 == name;
                assert(pairs[i].0 == name);
            }
        }
    }
}

/// Where no old name stands in two pairs, the mapping gives each pair's old
/// name that pair's new name.
pub proof fn lemma_map_of_pair(pairs: Seq<NamePair>, i: int)
    requires
        old_names_differ(pairs),
        0 <= i < pairs.len(),
    ensures
        map_of(pairs).contains_key(pairs[i].0),
        map_of(pairs)[pairs[i].0] == pairs[i].1,
    decreases pairs.len(),
{
    if i < pairs.len() - 1 {
        let front = pairs.drop_last();
        assert(front[i] == pairs[i]);
        lemma_map_of_pair(front, i);
    }
}

/// Where no old name stands in two pairs, the mapping is finite and holds as
/// many old names as there are pairs.
pub proof fn lemma_map_of_len(pairs: Seq<NamePair>)
    requires
        old_names_differ(pairs),
    ensures
        map_of(pairs).dom().finite(),
        map_of(pairs).len() == pairs.len(),
    decreases pairs.len(),
{
    if pairs.len() > 0 {
        let front = pairs.drop_last();
        lemma_map_of_len(front);
        lemma_map_of_dom(front, pairs.last().0);
        if map_of(front).contains_key(pairs.last().0) {
            let i = choose|i: int| 0 <= i < front.len() && #[trigger] front[i].0 == pairs.last().0;
            assert(pairs[i].0 == pairs[pairs.len() - 1].0);
        }
        assert(map_of(pairs).dom() =~= map_of(front).dom().insert(pairs.last().0));
    }
}

/// Giving the pair at `i` another new name changes the mapping at that
/// pair's old name alone, where no old name stands in two pairs.
pub proof fn lemma_map_of_update(pairs: Seq<NamePair>, i: int, new_name: Seq<char>)
    requires
        old_names_differ(pairs),
        0 <= i < pairs.len(),
    ensures
        old_names_differ(pairs.update(i, (pairs[i].0, new_name))),
        map_of(pairs.update(i, (pairs[i].0, new_name))) == map_of(pairs).insert(
            pairs[i].0,
            new_name,
        ),
    decreases pairs.len(),
{
    let changed = pairs.update(i, (pairs[i].0, new_name));
    let front = pairs.drop_last();
    if i < pairs.len() - 1 {
        lemma_map_of_update(front, i, new_name);
        assert(changed.drop_last() =~= front.update(i, (pairs[i].0, new_name)));
        assert(changed.last() == pairs.last());
        assert(pairs[i].0 != pairs[pairs.len() - 1].0);
        assert(map_of(changed) =~= map_of(pairs).insert(pairs[i].0, new_name));
    } else {
        assert(changed.drop_last() =~= front);
        assert(map_of(changed) =~= map_of(pairs).insert(pairs[i].0, new_name));
    }
}

/// Tells whether two strings hold the same characters.
pub fn same_text(a: &str, b: &str) -> (same: bool)
    ensures
        same == (a@ == b@),
{
    broadcast use {vstd::utf8::encode_utf8_decode_utf8, vstd::utf8::encode_utf8_valid_utf8};

    let x = a.as_bytes();
    let y = b.as_bytes();
    assert(x@ == vstd::utf8::encode_utf8(a@));
    assert(y@ == vstd::utf8::encode_utf8(b@));
    if x.len() != y.len() {
        return false;
    }
    let mut i: usize = 0;
    while i < x.len()
        invariant
            i <= x.len(),
            x.len() == y.len(),
            x@.take(i as int) == y@.take(i as int),
            a@ == b@ ==> x@ == y@,
        decreases x.len() - i,
    {
        if x[i] != y[i] {
            assert(x@[i as int] != y@[i as int]);
            return false;
        }
        assert(x@.take(i + 1) =~= x@.take(i as int).push(x@[i as int]));
        assert(y@.take(i + 1) =~= y@.take(i as int).push(y@[i as int]));
        i += 1;
    }
    assert(x@ =~= x@.take(i as int));
    assert(y@ =~= y@.take(i as int));
    assert(vstd::utf8::decode_utf8(vstd::utf8::encode_utf8(a@)) == a@);
    assert(vstd::utf8::decode_utf8(vstd::utf8::encode_utf8(b@)) == b@);
    true
}

/// A mapping from old names to new names.
#[derive(Debug)]
pub struct NameMapping {
    entries: Vec<(String, String)>,
}

impl View for NameMapping {
    type V = Map<Seq<char>, Seq<char>>;

    closed spec fn view(&self) -> Map<Seq<char>, Seq<char>> {
        map_of(pair_views(self.entries@))
    }
}

impl NameMapping {
    #[verifier::type_invariant]
    spec fn each_old_name_once(&self) -> bool {
        old_names_differ(pair_views(self.entries@))
    }

    /// A mapping that holds no name.
    pub fn new() -> (mapping: NameMapping)
        ensures
            mapping@ == Map::<Seq<char>, Seq<char>>::empty(),
    {
        let mapping = NameMapping { entries: Vec::new() };
        assert(pair_views(mapping.entries@) =~= Seq::<NamePair>::empty());
        mapping
    }

    /// The number of old names in the mapping.
    pub fn len(&self) -> (n: usize)
        ensures
            self@.dom().finite(),
            n == self@.len(),
    {
        proof {
            use_type_invariant(self);
            lemma_map_of_len(pair_views(self.entries@));
        }
        self.entries.len()
    }

    /// Tells whether the mapping holds no old name.
    pub fn is_empty(&self) -> (empty: bool)
        ensures
            empty == (self@ == Map::<Seq<char>, Seq<char>>::empty()),
    {
        proof {
            use_type_invariant(self);
            lemma_map_of_len(pair_views(self.entries@));
            if self.entries@.len() == 0 {
                assert(pair_views(self.entries@) =~= Seq::<NamePair>::empty());
            }
        }
        self.entries.len() == 0
    }

    /// The new name of `old_name`, if the mapping holds that old name.
    pub fn get(&self, old_name: &str) -> (new_name: Option<&String>)
        ensures
            match new_name {
                Some(name) => self@.contains_key(old_name@) && name@ == self@[old_name@],
                None => !self@.contains_key(old_name@),
            },
    {
        let ghost pairs = pair_views(self.entries@);
        proof {
            use_type_invariant(self);
        }
        let mut i: usize = 0;
        while i < self.entries.len()
            invariant
                i <= self.entries.len(),
                pairs == pair_views(self.entries@),
                old_names_differ(pairs),
                forall|j: int| 0 <= j < i ==> pairs[j].0 != old_name@,
            decreases self.entries.len() - i,
        {
            if same_text(self.entries[i].0.as_str(), old_name) {
                proof {
                    lemma_map_of_pair(pairs, i as int);
                }
                return Some(&self.entries[i].1);
            }
            i += 1;
        }
        proof {
            lemma_map_of_dom(pairs, old_name@);
        }
        None
    }

    /// Gives `old_name` the new name `new_name`, in place of the new name it
    /// had, if it had one.
    pub fn insert(&mut self, old_name: String, new_name: String)
        ensures
            final(self)@ == old(self)@.insert(old_name@, new_name@),
    {
        let ghost pairs = pair_views(self.entries@);
        proof {
            use_type_invariant(&*self);
        }
        let mut entries: Vec<(String, String)> = Vec::new();
        core::mem::swap(&mut self.entries, &mut entries);
        assert(pair_views(self.entries@) =~= Seq::<NamePair>::empty());
        let mut i: usize = 0;
        let mut found = false;
        while i < entries.len() && !found
            invariant
                i <= entries.len(),
                pair_views(entries@) == pairs,
                found ==> i < entries.len() && pairs[i as int].0 == old_name@,
                forall|j: int| 0 <= j < i ==> pairs[j].0 != old_name@,
            decreases entries.len() - i + (if found { 0int } else { 1int }),
        {
            if entries[i].0 == old_name {
                found = true;
            } else {
                i += 1;
            }
        }
        if found {
            proof {
                lemma_map_of_update(pairs, i as int, new_name@);
            }
            entries.set(i, (old_name, new_name));
            assert(pair_views(entries@) =~= pairs.update(i as int, (old_name@, new_name@)));
        } else {
            entries.push((old_name, new_name));
            assert(pair_views(entries@) =~= pairs.push((old_name@, new_name@)));
            assert(pairs.push((old_name@, new_name@)).drop_last() =~= pairs);
        }
        self.entries = entries;
    }

    /// The pairs of the mapping, each old name once, with its new name.
    pub fn into_pairs(self) -> (pairs: Vec<(String, String)>)
        ensures
            old_names_differ(pair_views(pairs@)),
            map_of(pair_views(pairs@)) == self@,
    {
        proof {
            use_type_invariant(&self);
        }
        self.entries
    }
}

} // verus!
