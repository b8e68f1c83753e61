//! What holds of reading a name file back, whatever the names and the text.

use crate::pairing::{last_position, lemma_last_position, pairing};
use crate::text::{
    edited_names, first_line_len, is_name, is_one_line, is_space, kept, lemma_edited_names_step,
    lemma_first_line_len, lemma_names_append_line, lemma_names_split, lemma_one_line_names,
    lemma_rendered_push, line_of, lines, rendered, trim, trim_end, trim_start, trimmer,
};
use vstd::prelude::*;

verus! {

/// Whether `s` holds nothing but whitespace.
pub open spec fn is_blank(s: Seq<char>) -> bool {
    forall|i: int| 0 <= i < s.len() ==> is_space(s[i])
}

/// Whether `name` can stand on a line of a name file as it is: it is not
/// empty, holds no line feed, and neither starts nor ends with whitespace.
pub open spec fn is_plain_name(name: Seq<char>) -> bool {
    &&& name.len() > 0
    &&& is_one_line(name)
    &&& !is_space(name[0])
    &&& !is_space(name.last())
}

/// Trimming the start removes a run of whitespace from the start and nothing
/// else: what is left is the end of `s`, and does not start with whitespace.
pub proof fn lemma_trim_start(s: Seq<char>)
    ensures
        trim_start(s).len() <= s.len(),
        trim_start(s) == s.skip(s.len() - trim_start(s).len()),
        is_blank(s.take(s.len() - trim_start(s).len())),
        trim_start(s).len() > 0 ==> !is_space(trim_start(s)[0]),
    decreases s.len(),
{
    if s.len() > 0 && is_space(s[0]) {
        let rest = s.drop_first();
        lemma_trim_start(rest);
        let cut = s.len() - trim_start(s).len();
        assert(trim_start(s) =~= s.skip(cut));
        assert forall|i: int| 0 <= i < s.take(cut).len() implies is_space(s.take(cut)[i]) by {
            if i > 0 {
                assert(s.take(cut)[i] == rest.take(cut - 1)[i - 1]);
            }
        }
    } else {
        assert(s.skip(0) =~= s);
    }
}

/// Trimming the end removes a run of whitespace from the end and nothing
/// else: what is left is the start of `s`, and does not end with whitespace.
pub proof fn lemma_trim_end(s: Seq<char>)
    ensures
        trim_end(s).len() <= s.len(),
        trim_end(s) == s.take(trim_end(s).len() as int),
        is_blank(s.skip(trim_end(s).len() as int)),
        trim_end(s).len() > 0 ==> !is_space(trim_end(s).last()),
    decreases s.len(),
{
    if s.len() > 0 && is_space(s.last()) {
        let front = s.drop_last();
        lemma_trim_end(front);
        let keep = trim_end(s).len() as int;
        assert(trim_end(s) =~= s.take(keep));
        assert forall|i: int| 0 <= i < s.skip(keep).len() implies is_space(s.skip(keep)[i]) by {
            if i < s.skip(keep).len() - 1 {
                assert(s.skip(keep)[i] == front.skip(keep)[i]);
            }
        }
    } else {
        assert(s.take(s.len() as int) =~= s);
    }
}

/// What trimming leaves is empty or a plain name, where the line it is taken
/// from holds no line feed.
pub proof fn lemma_trim_gives_plain_name(line: Seq<char>)
    requires
        is_one_line(line),
    ensures
        trim(line).len() == 0 || is_plain_name(trim(line)),
{
    let start = trim_start(line);
    lemma_trim_start(line);
    lemma_trim_end(start);
    let name = trim(line);
    if name.len() > 0 {
        let cut = line.len() - start.len();
        assert(name[0] == start[0]);
        assert forall|i: int| 0 <= i < name.len() implies name[i] != '\n' by {
            assert(name[i] == start.take(name.len() as int)[i]);
            assert(start[i] == line.skip(cut)[i]);
        }
    }
}

/// Trimming leaves a plain name as it is.
pub proof fn lemma_trim_keeps_plain_name(name: Seq<char>)
    requires
        is_plain_name(name),
    ensures
        trim(name) == name,
{
}

/// Trimming leaves nothing of a blank line.
pub proof fn lemma_trim_blank(blank: Seq<char>)
    requires
        is_blank(blank),
    ensures
        trim(blank).len() == 0,
    decreases blank.len(),
{
    if blank.len() > 0 {
        lemma_trim_blank(blank.drop_first());
    }
}

/// No line of a text holds a line feed.
pub proof fn lemma_lines_are_one_line(s: Seq<char>, i: int)
    requires
        0 <= i < lines(s).len(),
    ensures
        is_one_line(lines(s)[i]),
    decreases s.len(),
{
    lemma_first_line_len(s);
    let n = first_line_len(s);
    if s.len() > 0 {
        if n >= s.len() {
            assert(s.take(n) =~= s);
        } else if i > 0 {
            lemma_lines_are_one_line(s.skip(n + 1), i - 1);
        }
    }
}

/// Every name that a text holds is a plain name: a line that holds only
/// whitespace gives no name, not an empty one, and no name keeps whitespace
/// around it.
pub proof fn lemma_names_are_plain(s: Seq<char>, i: int)
    requires
        0 <= i < edited_names(s).len(),
    ensures
        is_plain_name(edited_names(s)[i]),
{
    let trimmed = lines(s).map_values(trimmer());
    let name = edited_names(s)[i];
    trimmed.lemma_filter_pred(is_name(), i);
    assert(trimmed.filter(is_name()).contains(name));
    trimmed.lemma_filter_contains_rev(is_name(), name);
    let j = choose|j: int| 0 <= j < trimmed.len() && trimmed[j] == name;
    lemma_lines_are_one_line(s, j);
    lemma_trim_gives_plain_name(lines(s)[j]);
}

/// A text that holds nothing but whitespace holds no name.
pub proof fn lemma_blank_text_has_no_names(blank: Seq<char>)
    requires
        is_blank(blank),
    ensures
        edited_names(blank) == Seq::<Seq<char>>::empty(),
    decreases blank.len(),
{
    let n = first_line_len(blank);
    lemma_first_line_len(blank);
    if blank.len() == 0 {
        lemma_one_line_names(blank);
        lemma_trim_blank(blank);
    } else {
        lemma_edited_names_step(blank);
        if n >= blank.len() {
            lemma_trim_blank(blank);
        } else {
            lemma_trim_blank(blank.take(n));
            lemma_blank_text_has_no_names(blank.skip(n + 1));
            assert(kept(blank.take(n)) + edited_names(blank.skip(n + 1)) =~= Seq::<
                Seq<char>,
            >::empty());
        }
    }
}

/// A line that holds only whitespace is as good as absent: with it or
/// without it, the text holds the same names.
pub proof fn lemma_blank_line_is_ignored(before: Seq<char>, blank: Seq<char>, after: Seq<char>)
    requires
        before.len() == 0 || before.last() == '\n',
        is_blank(blank),
    ensures
        edited_names(before + blank + seq!['\n'] + after) == edited_names(before + after),
{
    lemma_blank_text_has_no_names(blank);
    lemma_names_split(blank, after);
    assert(edited_names(blank) + edited_names(after) =~= edited_names(after));
    if before.len() == 0 {
        assert(before + blank + seq!['\n'] + after =~= blank + seq!['\n'] + after);
        assert(before + after =~= after);
    } else {
        let head = before.drop_last();
        assert(before =~= head + seq!['\n']);
        assert(before + blank + seq!['\n'] + after =~= head + seq!['\n'] + (blank + seq!['\n']
            + after));
        assert(before + after =~= head + seq!['\n'] + after);
        lemma_names_split(head, blank + seq!['\n'] + after);
        lemma_names_split(head, after);
    }
}

/// Whitespace after the last line feed of a text, blank lines among it,
/// adds no name.
pub proof fn lemma_trailing_blank_is_ignored(text: Seq<char>, blank: Seq<char>)
    requires
        is_blank(blank),
    ensures
        edited_names(text + seq!['\n'] + blank) == edited_names(text),
{
    lemma_names_split(text, blank);
    lemma_blank_text_has_no_names(blank);
    assert(edited_names(text) + edited_names(blank) =~= edited_names(text));
}

/// The text that lists names is empty or ends with a line feed.
pub proof fn lemma_rendered_ends_lines(names: Seq<Seq<char>>)
    ensures
        rendered(names).len() == 0 || rendered(names).last() == '\n',
{
    if names.len() > 0 {
        assert(names =~= names.drop_last().push(names.last()));
        lemma_rendered_push(names.drop_last(), names.last());
    } else {
        assert(names.map_values(line_of()) =~= Seq::<Seq<char>>::empty());
    }
}

/// A name file that lists plain names and is left as it was written holds
/// exactly these names.
pub proof fn lemma_unedited_text_holds_the_names(names: Seq<Seq<char>>)
    requires
        forall|i: int| 0 <= i < names.len() ==> is_plain_name(#[trigger] names[i]),
    ensures
        edited_names(rendered(names)) == names,
    decreases names.len(),
{
    if names.len() == 0 {
        assert(names.map_values(line_of()) =~= Seq::<Seq<char>>::empty());
        lemma_one_line_names(rendered(names));
        lemma_trim_blank(rendered(names));
        assert(edited_names(rendered(names)) =~= names);
    } else {
        let front = names.drop_last();
        let name = names.last();
        assert(names =~= front.push(name));
        assert forall|i: int| 0 <= i < front.len() implies is_plain_name(#[trigger] front[i]) by {
            assert(front[i] == names[i]);
        }
        lemma_unedited_text_holds_the_names(front);
        lemma_rendered_push(front, name);
        lemma_rendered_ends_lines(front);
        lemma_names_append_line(rendered(front), name);
        lemma_trim_keeps_plain_name(name);
        assert(front + kept(name) =~= names);
    }
}

/// The old name at a position gets the new name at that position where the
/// old name stands at no later position: of the pairs of one old name, the
/// last is the one that the mapping keeps.
pub proof fn lemma_last_pair_wins(old_names: Seq<Seq<char>>, new_names: Seq<Seq<char>>, i: int)
    requires
        0 <= i < old_names.len(),
        forall|j: int| i < j < old_names.len() ==> old_names[j] != old_names[i],
    ensures
        pairing(old_names, new_names).contains_key(old_names[i]),
        pairing(old_names, new_names)[old_names[i]] == new_names[i],
{
    lemma_last_position(old_names, old_names[i]);
    let p = last_position(old_names, old_names[i]);
    assert(old_names.contains(old_names[i]));
    if p < i {
        assert(old_names[i] != old_names[i]);
    }
}

/// The mapping holds the old names and nothing else.
pub proof fn lemma_pairing_holds_old_names(
    old_names: Seq<Seq<char>>,
    new_names: Seq<Seq<char>>,
    name: Seq<char>,
)
    ensures
        pairing(old_names, new_names).contains_key(name) <==> old_names.contains(name),
{
}

/// As many new names as old names pair by position, each old name getting
/// the new name at its own position, exactly where no old name stands at two
/// positions with different new names.
pub proof fn lemma_pairs_by_position(old_names: Seq<Seq<char>>, new_names: Seq<Seq<char>>)
    requires
        old_names.len() == new_names.len(),
    ensures
        (forall|i: int|
            0 <= i < old_names.len() ==> pairing(old_names, new_names)[#[trigger] old_names[i]]
                == new_names[i]) <==> (forall|i: int, j: int|
            0 <= i < j < old_names.len() && old_names[i] == old_names[j] ==> new_names[i]
                == new_names[j]),
{
    let m = pairing(old_names, new_names);
    if forall|i: int, j: int|
        0 <= i < j < old_names.len() && old_names[i] == old_names[j] ==> new_names[i]
            == new_names[j] {
        assert forall|i: int| 0 <= i < old_names.len() implies m[#[trigger] old_names[i]]
            == new_names[i] by {
            lemma_last_position(old_names, old_names[i]);
            assert(old_names.contains(old_names[i]));
        }
    }
    if forall|i: int| 0 <= i < old_names.len() ==> m[#[trigger] old_names[i]] == new_names[i] {
        assert forall|i: int, j: int|
            0 <= i < j < old_names.len() && old_names[i] == old_names[j] implies new_names[i]
            == new_names[j] by {
            assert(m[old_names[i]] == new_names[i]);
            assert(m[old_names[j]] == new_names[j]);
        }
    }
}

/// A name file that is left as it was written reads back into the mapping
/// that gives each old name itself, exactly where every old name is a plain
/// name.
pub proof fn lemma_unedited_round_trip(names: Seq<Seq<char>>)
    ensures
        (forall|i: int| 0 <= i < names.len() ==> is_plain_name(#[trigger] names[i])) <==> {
            &&& edited_names(rendered(names)).len() == names.len()
            &&& forall|i: int|
                0 <= i < names.len() ==> pairing(names, edited_names(rendered(names)))[
                #[trigger] names[i]] == names[i]
        },
{
    let read = edited_names(rendered(names));
    let m = pairing(names, read);
    if forall|i: int| 0 <= i < names.len() ==> is_plain_name(#[trigger] names[i]) {
        lemma_unedited_text_holds_the_names(names);
        assert forall|i: int| 0 <= i < names.len() implies m[#[trigger] names[i]]
            == names[i] by {
            lemma_last_position(names, names[i]);
            assert(names.contains(names[i]));
        }
    }
    if read.len() == names.len() && (forall|i: int|
        0 <= i < names.len() ==> m[#[trigger] names[i]] == names[i]) {
        assert forall|i: int| 0 <= i < names.len() implies is_plain_name(#[trigger] names[i]) by {
            lemma_last_position(names, names[i]);
            assert(names.contains(names[i]));
            let p = last_position(names, names[i]);
            assert(m[names[i]] == read[p]);
            lemma_names_are_plain(rendered(names), p);
        }
    }
}

} // verus!
