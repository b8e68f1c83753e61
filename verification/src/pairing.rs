//! Pairing the old names with the names read back: the rule by which an
//! edited name file becomes a mapping.

use crate::mapping::NameMapping;
use crate::text::name_views;
use vstd::prelude::*;

verus! {

/// The last position at which `name` stands in `names`, or -1 where it
/// stands nowhere in it.
pub open spec fn last_position(names: Seq<Seq<char>>, name: Seq<char>) -> int
    decreases names.len(),
{
    if names.len() == 0 {
        -1
    } else if names.last() == name {
        names.len() - 1
    } else {
        last_position(names.drop_last(), name)
    }
}

/// The mapping that pairs the old names with the new names by position: it
/// holds each old name, and gives it the new name that stands where the old
/// name stands last.
pub open spec fn pairing(old_names: Seq<Seq<char>>, new_names: Seq<Seq<char>>) -> Map<
    Seq<char>,
    Seq<char>,
> {
    Map::new(
        |name: Seq<char>| old_names.contains(name),
        |name: Seq<char>| new_names[last_position(old_names, name)],
    )
}

/// The last position of a name that stands in `names` is a position of that
/// name, and the name stands at no later one; a name that stands nowhere in
/// `names` has the position -1.
pub proof fn lemma_last_position(names: Seq<Seq<char>>, name: Seq<char>)
    ensures
        -1 <= last_position(names, name) < names.len(),
        names.contains(name) <==> last_position(names, name) >= 0,
        last_position(names, name) >= 0 ==> names[last_position(names, name)] == name,
        forall|j: int| last_position(names, name) < j < names.len() ==> names[j] != name,
    decreases names.len(),
{
    if names.len() > 0 {
        let front = names.drop_last();
        lemma_last_position(front, name);
        if names.last() == name {
            assert(names[names.len() - 1] == name);
        } else {
            let p = last_position(front, name);
            if p >= 0 {
                assert(names[p] == name);
            }
            if names.contains(name) {
                let i = choose|i: int| 0 <= i < names.len() && names[i] == name;
                assert(front[i] == name);
            }
            assert forall|j: int| p < j < names.len() implies names[j] != name by {
                if j < names.len() - 1 {
                    assert(front[j] != name);
                }
            }
        }
    }
}

/// Pairing one more old name with the new name at its position gives that
/// old name that new name and leaves the other old names as they were.
pub proof fn lemma_pairing_push(
    old_names: Seq<Seq<char>>,
    new_names: Seq<Seq<char>>,
    name: Seq<char>,
)
    ensures
        pairing(old_names.push(name), new_names) == pairing(old_names, new_names).insert(
            name,
            new_names[old_names.len() as int],
        ),
{
    let more = old_names.push(name);
    assert(more.drop_last() =~= old_names);
    assert(more.last() == name);
    assert forall|other: Seq<char>| more.contains(other) <==> (other == name
        || old_names.contains(other)) by {
        if more.contains(other) {
            let i = choose|i: int| 0 <= i < more.len() && more[i] == other;
            if i < old_names.len() {
                assert(old_names[i] == other);
            }
        }
        if old_names.contains(other) {
            let i = choose|i: int| 0 <= i < old_names.len() && old_names[i] == other;
            assert(more[i] == other);
        }
        assert(more[old_names.len() as int] == name);
    }
    assert(pairing(more, new_names) =~= pairing(old_names, new_names).insert(
        name,
        new_names[old_names.len() as int],
    ));
}

/// Why a name file could not be read back: it no longer holds one name for
/// each old name.
#[derive(Debug)]
pub struct LineCountChanged {
    /// The number of old names.
    pub expected: usize,
    /// The names that the edited file holds.
    pub new_names: Vec<String>,
}

impl LineCountChanged {
    /// The failure in words.
    pub fn message(&self) -> (text: String)
        ensures
            text@ == "cannot map old names to new names (number of lines in name file changed)"@,
    {
        "cannot map old names to new names (number of lines in name file changed)".to_owned()
    }
}

/// Pairs each old name with the new name at its position. Where an old name
/// stands at several positions, it gets the new name at the last of them.
/// Fails where there are not as many new names as old names.
pub fn pair_names(old_names: &[String], new_names: Vec<String>) -> (result: Result<
    NameMapping,
    LineCountChanged,
>)
    ensures
        match result {
            Ok(mapping) => {
                &&& new_names.len() == old_names.len()
                &&& mapping@ == pairing(name_views(old_names@), name_views(new_names@))
            },
            Err(error) => {
                &&& new_names.len() != old_names.len()
                &&& error.expected == old_names.len()
                &&& error.new_names == new_names
            },
        },
{
    if new_names.len() != old_names.len() {
        return Err(LineCountChanged { expected: old_names.len(), new_names });
    }
    let ghost olds = name_views(old_names@);
    let ghost news = name_views(new_names@);
    let mut mapping = NameMapping::new();
    let mut i: usize = 0;
    proof {
        assert(olds.take(0) =~= Seq::<Seq<char>>::empty());
        assert(pairing(olds.take(0), news) =~= Map::<Seq<char>, Seq<char>>::empty());
    }
    while i < old_names.len()
        invariant
            i <= old_names.len(),
            new_names.len() == old_names.len(),
            olds == name_views(old_names@),
            news == name_views(new_names@),
            mapping@ == pairing(olds.take(i as int), news),
        decreases old_names.len() - i,
    {
        proof {
            lemma_pairing_push(olds.take(i as int), news, olds[i as int]);
            assert(olds.take(i + 1) =~= olds.take(i as int).push(olds[i as int]));
        }
        mapping.insert(old_names[i].clone(), new_names[i].clone());
        i += 1;
    }
    proof {
        assert(olds.take(i as int) =~= olds);
    }
    Ok(mapping)
}

} // verus!
