//! The text of a name file: which characters count as whitespace, what
//! trimming a line means, and which names a text holds.

use vstd::prelude::*;
use vstd::string::StringExecFns;

verus! {

/// Whether `c` is ASCII whitespace: space, tab, line feed, form feed or
/// carriage return.
pub open spec fn is_space(c: char) -> bool {
    c == ' ' || c == '\t' || c == '\n' || c == '\x0C' || c == '\r'
}

/// `s` without the whitespace it starts with.
pub open spec fn trim_start(s: Seq<char>) -> Seq<char>
    decreases s.len(),
{
    if s.len() > 0 && is_space(s[0]) {
        trim_start(s.drop_first())
    } else {
        s
    }
}

/// `s` without the whitespace it ends with.
pub open spec fn trim_end(s: Seq<char>) -> Seq<char>
    decreases s.len(),
{
    if s.len() > 0 && is_space(s.last()) {
        trim_end(s.drop_last())
    } else {
        s
    }
}

/// `s` without the whitespace around it.
pub open spec fn trim(s: Seq<char>) -> Seq<char> {
    trim_end(trim_start(s))
}

/// The number of characters of `s` that stand before its first line feed,
/// or the length of `s` where it holds none.
pub open spec fn first_line_len(s: Seq<char>) -> int
    decreases s.len(),
{
    if s.len() == 0 || s[0] == '\n' {
        0
    } else {
        1 + first_line_len(s.drop_first())
    }
}

/// The lines of `s`: the pieces between its line feeds. A line feed ends a
/// line, so a text that ends with one has no further, empty line after it.
pub open spec fn lines(s: Seq<char>) -> Seq<Seq<char>>
    decreases s.len(),
    via lines_terminates
{
    if s.len() == 0 {
        Seq::empty()
    } else {
        let n = first_line_len(s);
        if n >= s.len() {
            seq![s]
        } else {
            seq![s.take(n)] + lines(s.skip(n + 1))
        }
    }
}

#[via_fn]
proof fn lines_terminates(s: Seq<char>) {
    lemma_first_line_len(s);
}

/// Trimming, as a function over lines.
pub open spec fn trimmer() -> spec_fn(Seq<char>) -> Seq<char> {
    |l: Seq<char>| trim(l)
}

/// The test that keeps a trimmed line: it is not empty.
pub open spec fn is_name() -> spec_fn(Seq<char>) -> bool {
    |l: Seq<char>| l.len() > 0
}

/// The names that the text `s` holds: each of its lines, trimmed, in order,
/// without those that are empty once trimmed.
pub open spec fn edited_names(s: Seq<char>) -> Seq<Seq<char>> {
    lines(s).map_values(trimmer()).filter(is_name())
}

/// What one line contributes to the names: itself, trimmed, or nothing where
/// it holds only whitespace.
pub open spec fn kept(line: Seq<char>) -> Seq<Seq<char>> {
    if trim(line).len() > 0 {
        seq![trim(line)]
    } else {
        Seq::empty()
    }
}

/// Whether `s` holds no line feed.
pub open spec fn is_one_line(s: Seq<char>) -> bool {
    forall|i: int| 0 <= i < s.len() ==> s[i] != '\n'
}

/// Tells whether `c` is ASCII whitespace.
pub fn is_ascii_space(c: char) -> (result: bool)
    ensures
        result == is_space(c),
{
    c == ' ' || c == '\t' || c == '\n' || c == '\x0C' || c == '\r'
}

/// The first line of `s` ends within `s`, holds no line feed, and is followed
/// by one unless it runs to the end.
pub proof fn lemma_first_line_len(s: Seq<char>)
    ensures
        0 <= first_line_len(s) <= s.len(),
        is_one_line(s.take(first_line_len(s))),
        first_line_len(s) < s.len() ==> s[first_line_len(s)] == '\n',
    decreases s.len(),
{
    if s.len() == 0 || s[0] == '\n' {
    } else {
        lemma_first_line_len(s.drop_first());
        let n = first_line_len(s);
        assert forall|i: int| 0 <= i < s.take(n).len() implies s.take(n)[i] != '\n' by {
            if i > 0 {
                assert(s.take(n)[i] == s.drop_first().take(n - 1)[i - 1]);
            }
        }
    }
}

/// Where `s` holds no line feed before position `n`, and one at `n` or its
/// end there, its first line has length `n`.
pub proof fn lemma_first_line_len_is(s: Seq<char>, n: int)
    requires
        0 <= n <= s.len(),
        forall|i: int| 0 <= i < n ==> s[i] != '\n',
        n < s.len() ==> s[n] == '\n',
    ensures
        first_line_len(s) == n,
    decreases n,
{
    if n > 0 {
        lemma_first_line_len_is(s.drop_first(), n - 1);
    }
}

/// The names of a text that is not empty are what its first line
/// contributes, then the names of what follows that line's line feed.
pub proof fn lemma_edited_names_step(s: Seq<char>)
    requires
        s.len() > 0,
    ensures
        first_line_len(s) >= s.len() ==> edited_names(s) == kept(s),
        first_line_len(s) < s.len() ==> edited_names(s) == kept(s.take(first_line_len(s)))
            + edited_names(s.skip(first_line_len(s) + 1)),
{
    let n = first_line_len(s);
    lemma_first_line_len(s);
    if n >= s.len() {
        let one = seq![s];
        assert(one.map_values(trimmer()) =~= seq![trim(s)]);
        lemma_filter_one(trim(s));
    } else {
        let head = seq![s.take(n)];
        let tail = lines(s.skip(n + 1));
        assert((head + tail).map_values(trimmer()) =~= head.map_values(trimmer())
            + tail.map_values(trimmer()));
        Seq::filter_distributes_over_add(
            head.map_values(trimmer()),
            tail.map_values(trimmer()),
            is_name(),
        );
        assert(head.map_values(trimmer()) =~= seq![trim(s.take(n))]);
        lemma_filter_one(trim(s.take(n)));
    }
}

/// Filtering a single trimmed line keeps it exactly where it is not empty.
proof fn lemma_filter_one(l: Seq<char>)
    ensures
        seq![l].filter(is_name()) == (if l.len() > 0 {
            seq![l]
        } else {
            Seq::<Seq<char>>::empty()
        }),
{
    reveal(Seq::filter);
    let one = seq![l];
    assert(one.drop_last() =~= Seq::<Seq<char>>::empty());
    assert(Seq::<Seq<char>>::empty().filter(is_name()) =~= Seq::<Seq<char>>::empty());
    assert(one.filter(is_name()) =~= (if l.len() > 0 {
        seq![l]
    } else {
        Seq::<Seq<char>>::empty()
    }));
}

/// A text without a line feed is one line: its names are what that line
/// contributes.
pub proof fn lemma_one_line_names(line: Seq<char>)
    requires
        is_one_line(line),
    ensures
        edited_names(line) == kept(line),
{
    if line.len() > 0 {
        lemma_first_line_len_is(line, line.len() as int);
        lemma_edited_names_step(line);
    } else {
        assert(lines(line).map_values(trimmer()) =~= Seq::<Seq<char>>::empty());
        assert(Seq::<Seq<char>>::empty().filter(is_name()) =~= Seq::<Seq<char>>::empty()) by {
            reveal(Seq::filter);
        }
        assert(trim(line) =~= line);
    }
}

/// A line feed splits a text into two texts that are read one after the
/// other: the names of the whole are those of the part before the line feed,
/// then those of the part after it.
pub proof fn lemma_names_split(before: Seq<char>, after: Seq<char>)
    ensures
        edited_names(before + seq!['\n'] + after) == edited_names(before) + edited_names(after),
    decreases before.len(),
{
    let s = before + seq!['\n'] + after;
    let n = first_line_len(before);
    lemma_first_line_len(before);
    assert forall|i: int| 0 <= i < n implies s[i] != '\n' by {
        assert(before.take(n)[i] == s[i]);
    }
    lemma_first_line_len_is(s, n);
    lemma_edited_names_step(s);
    assert(s.take(n) =~= before.take(n));
    if n >= before.len() {
        assert(before.take(n) =~= before);
        assert(s.skip(n + 1) =~= after);
        lemma_one_line_names(before);
    } else {
        let rest = before.skip(n + 1);
        assert(s.skip(n + 1) =~= rest + seq!['\n'] + after);
        lemma_names_split(rest, after);
        lemma_edited_names_step(before);
    }
}

/// A line feed at the end of a text adds no name to it.
pub proof fn lemma_names_ignore_final_feed(s: Seq<char>)
    ensures
        edited_names(s + seq!['\n']) == edited_names(s),
{
    let none = Seq::<char>::empty();
    lemma_names_split(s, none);
    lemma_one_line_names(none);
    assert(s + seq!['\n'] + none =~= s + seq!['\n']);
    assert(trim(none) =~= none);
}

/// Reading one more line: after a text that is empty or ends with a line
/// feed, a further line adds what it contributes, whether or not a line feed
/// ends it.
pub proof fn lemma_names_append_line(done: Seq<char>, line: Seq<char>)
    requires
        done.len() == 0 || done.last() == '\n',
        is_one_line(line),
    ensures
        edited_names(done + line) == edited_names(done) + kept(line),
        edited_names(done + line + seq!['\n']) == edited_names(done) + kept(line),
{
    lemma_one_line_names(line);
    lemma_names_ignore_final_feed(done + line);
    if done.len() == 0 {
        assert(done + line =~= line);
        lemma_one_line_names(done);
        assert(trim(done) =~= done);
    } else {
        let head = done.drop_last();
        assert(done =~= head + seq!['\n']);
        assert(done + line =~= head + seq!['\n'] + line);
        lemma_names_split(head, line);
        lemma_names_ignore_final_feed(head);
    }
}

/// Trimming the start of a line that grows by one character: the character
/// is dropped where only whitespace came before it and it is whitespace too,
/// and is added otherwise.
pub proof fn lemma_trim_start_push(line: Seq<char>, c: char)
    ensures
        trim_start(line.push(c)) == (if trim_start(line).len() == 0 && is_space(c) {
            Seq::<char>::empty()
        } else {
            trim_start(line).push(c)
        }),
    decreases line.len(),
{
    if line.len() == 0 {
        assert(line.push(c).drop_first() =~= line);
        assert(line.push(c) =~= seq![c]);
    } else if is_space(line[0]) {
        assert(line.push(c).drop_first() =~= line.drop_first().push(c));
        lemma_trim_start_push(line.drop_first(), c);
    } else {
    }
}

/// The names in `names`, each as the sequence of its characters.
pub open spec fn name_views(names: Seq<String>) -> Seq<Seq<char>> {
    Seq::new(names.len(), |i: int| names[i]@)
}

/// `String::from_iter` of std, on the characters of a vector: the string
/// that holds exactly these characters, in their order.
#[verifier::external_body]
fn string_from_chars(chars: Vec<char>) -> (s: String)
    ensures
        s@ == chars@,
{
    String::from_iter(chars)
}

/// Ends a line whose characters, from its first character that is not
/// whitespace on, are `line`: the line is added to `names`, trimmed, unless
/// nothing is left of it.
fn finish_line(names: &mut Vec<String>, line: Vec<char>)
    ensures
        name_views(final(names)@) == name_views(old(names)@) + (if trim_end(line@).len() > 0 {
            seq![trim_end(line@)]
        } else {
            Seq::<Seq<char>>::empty()
        }),
{
    let mut line = line;
    let ghost whole = line@;
    while line.len() > 0 && is_ascii_space(line[line.len() - 1])
        invariant
            trim_end(line@) == trim_end(whole),
        decreases line.len(),
    {
        line.pop();
    }
    if line.len() > 0 {
        let name = string_from_chars(line);
        names.push(name);
        assert(name_views(names@) =~= name_views(old(names)@) + seq![trim_end(whole)]);
    } else {
        assert(name_views(names@) =~= name_views(old(names)@) + Seq::<Seq<char>>::empty());
    }
}

/// Reads the names out of the text of a name file: one name per line, each
/// without the whitespace around it, and no name for a line that holds
/// nothing else.
pub fn parse_names(contents: &str) -> (names: Vec<String>)
    ensures
        name_views(names@) == edited_names(contents@),
{
    let mut names: Vec<String> = Vec::new();
    let mut line: Vec<char> = Vec::new();
    let ghost mut start: int = 0;
    proof {
        lemma_one_line_names(Seq::<char>::empty());
        assert(trim(Seq::<char>::empty()) =~= Seq::<char>::empty());
        assert(contents@.take(0) =~= Seq::<char>::empty());
        assert(name_views(names@) =~= Seq::<Seq<char>>::empty());
        assert(contents@.subrange(0, 0) =~= Seq::<char>::empty());
    }
    for c in it: contents.chars()
        invariant
            it.seq() == contents@,
            0 <= start <= it.index(),
            start == 0 || contents@[start - 1] == '\n',
            is_one_line(contents@.subrange(start, it.index())),
            name_views(names@) == edited_names(contents@.take(start)),
            line@ == trim_start(contents@.subrange(start, it.index())),
    {
        let ghost at: int = it.index();
        let ghost done = contents@.take(start);
        let ghost read = contents@.subrange(start, at);
        if c == '\n' {
            finish_line(&mut names, line);
            line = Vec::new();
            proof {
                lemma_names_append_line(done, read);
                assert(contents@.take(at + 1) =~= done + read + seq!['\n']);
                start = at + 1;
                assert(contents@.subrange(start, at + 1) =~= Seq::<char>::empty());
            }
        } else {
            proof {
                lemma_trim_start_push(read, c);
                assert(contents@.subrange(start, at + 1) =~= read.push(c));
            }
            if line.len() > 0 || !is_ascii_space(c) {
                line.push(c);
            }
        }
    }
    finish_line(&mut names, line);
    proof {
        let done = contents@.take(start);
        let read = contents@.subrange(start, contents@.len() as int);
        lemma_names_append_line(done, read);
        assert(done + read =~= contents@);
    }
    names
}

/// A name as it stands in a name file: followed by a line feed.
pub open spec fn line_of() -> spec_fn(Seq<char>) -> Seq<char> {
    |name: Seq<char>| name + seq!['\n']
}

/// The text of a name file that lists `names`: each name on a line of its
/// own, in order, each line ended by a line feed.
pub open spec fn rendered(names: Seq<Seq<char>>) -> Seq<char> {
    names.map_values(line_of()).flatten()
}

/// Listing one more name adds its line at the end of the text.
pub proof fn lemma_rendered_push(names: Seq<Seq<char>>, name: Seq<char>)
    ensures
        rendered(names.push(name)) == rendered(names) + name + seq!['\n'],
{
    assert(names.push(name).map_values(line_of()) =~= names.map_values(line_of()).push(
        name + seq!['\n'],
    ));
    names.map_values(line_of()).lemma_flatten_push(name + seq!['\n']);
    assert(rendered(names) + (name + seq!['\n']) =~= rendered(names) + name + seq!['\n']);
}

/// Writes the text of a name file that lists `names`.
pub fn render_names(names: &[String]) -> (text: String)
    ensures
        text@ == rendered(name_views(names@)),
{
    let mut text = String::new();
    let mut i: usize = 0;
    proof {
        assert(name_views(names@).take(0) =~= Seq::<Seq<char>>::empty());
        assert(Seq::<Seq<char>>::empty().map_values(line_of()) =~= Seq::<Seq<char>>::empty());
    }
    while i < names.len()
        invariant
            i <= names.len(),
            text@ == rendered(name_views(names@).take(i as int)),
        decreases names.len() - i,
    {
        proof {
            reveal_strlit("\n");
            lemma_rendered_push(name_views(names@).take(i as int), names[i as int]@);
            assert(name_views(names@).take(i + 1) =~= name_views(names@).take(i as int).push(
                names[i as int]@,
            ));
            assert("\n"@ =~= seq!['\n']);
        }
        text.append(names[i].as_str());
        text.append("\n");
        i += 1;
    }
    proof {
        assert(name_views(names@).take(i as int) =~= name_views(names@));
    }
    text
}

} // verus!
