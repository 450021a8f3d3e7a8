//! The fixture store: sample sources joined with what is declared for them.
//!
//! Expected tags are declared apart from the sources, in an index of one
//! line per fixture:
//!
//! ```text
//! unused-variable-sample subset unused_variable
//! many-lints exact needless_return,identity_op
//! clean-sample clean
//! ```
//!
//! A line holds the fixture's name, its mode and, unless the mode is
//! `clean`, its tags, separated by single spaces; the tags are separated by
//! commas. Reading the sources and the index from disk is the caller's part.

use vstd::prelude::*;
use vstd::slice::slice_to_vec;
use crate::fixture::{check_expectation, valid_expectation, Fixture, FixtureView, LoadError, MatchMode};
use crate::text::{
    bytes_eq, lemma_views_push, lines, split, split_bytes, views, without_cr, COMMA,
    LINE_FEED, SPACE,
};

verus! {

/// `subset`, the mode word of a fixture whose tags must all be observed.
pub const WORD_SUBSET: [u8; 6] = [115, 117, 98, 115, 101, 116];

/// `exact`, the mode word of a fixture whose tags must be the observed ones.
pub const WORD_EXACT: [u8; 5] = [101, 120, 97, 99, 116];

/// `clean`, the mode word of a control sample.
pub const WORD_CLEAN: [u8; 5] = [99, 108, 101, 97, 110];

/// What is declared for a fixture, in the model: its mode and its tags.
pub type Expectation = (MatchMode, Seq<Seq<u8>>);

/// The mode that a mode word stands for.
pub open spec fn mode_word(word: Seq<u8>) -> Option<MatchMode> {
    if word == WORD_SUBSET@ {
        Some(MatchMode::Subset)
    } else if word == WORD_EXACT@ {
        Some(MatchMode::Exact)
    } else if word == WORD_CLEAN@ {
        Some(MatchMode::Clean)
    } else {
        None
    }
}

/// The name that a line of the index declares something for.
pub open spec fn entry_name(line: Seq<u8>) -> Seq<u8> {
    split(line, SPACE)[0]
}

/// What a line of the index declares, if it is well formed: it has a mode
/// word in second place, tags in third place or none, nothing after them,
/// and the tags are ones that a fixture of that mode may expect.
pub open spec fn entry_expectation(line: Seq<u8>) -> Option<Expectation> {
    let fields = split(line, SPACE);
    let tags = if fields.len() == 3 {
        split(fields[2], COMMA)
    } else {
        Seq::<Seq<u8>>::empty()
    };
    if 2 <= fields.len() <= 3 {
        match mode_word(fields[1]) {
            Some(mode) => if valid_expectation(mode, tags) {
                Some((mode, tags))
            } else {
                None
            },
            None => None,
        }
    } else {
        None
    }
}

/// The test for lines that declare something for `name`.
pub open spec fn declares(name: Seq<u8>) -> spec_fn(Seq<u8>) -> bool {
    |line: Seq<u8>| entry_name(line) == name
}

/// What the lines of an index declare for `name`: an error where no line
/// names it, where several do, or where the one that does is not well
/// formed.
pub open spec fn expectation_among(index: Seq<Seq<u8>>, name: Seq<u8>) -> Result<
    Expectation,
    LoadError,
> {
    let mine = index.filter(declares(name));
    if mine.len() == 0 {
        Err(LoadError::MissingMetadata)
    } else if mine.len() > 1 {
        Err(LoadError::MalformedMetadata)
    } else {
        match entry_expectation(mine[0]) {
            Some(e) => Ok(e),
            None => Err(LoadError::MalformedMetadata),
        }
    }
}

/// The mode under which a fixture is checked when every fixture is asked to
/// match exactly: a subset becomes exact, and the other modes stay.
pub open spec fn forced(mode: MatchMode, exact: bool) -> MatchMode {
    if exact && mode == MatchMode::Subset {
        MatchMode::Exact
    } else {
        mode
    }
}

/// The fixture that a source makes with what the index declares for it.
pub open spec fn loaded(
    index: Seq<Seq<u8>>,
    name: Seq<u8>,
    text: Seq<u8>,
    description: Option<Seq<u8>>,
    exact: bool,
) -> Result<FixtureView, LoadError> {
    match expectation_among(index, name) {
        Ok(e) => Ok(
            FixtureView { name, source: text, expected: e.1, mode: forced(e.0, exact), description },
        ),
        Err(e) => Err(e),
    }
}

/// A sample source as read from the fixture directory.
#[derive(Clone, Debug, PartialEq, Eq)]
pub struct SourceFile {
    /// The fixture's name.
    pub name: Vec<u8>,
    /// The source text.
    pub text: Vec<u8>,
    /// What the fixture is about, if anything says.
    pub description: Option<Vec<u8>>,
}

impl SourceFile {
    /// The description, in the model.
    pub open spec fn described(&self) -> Option<Seq<u8>> {
        match self.description {
            Some(d) => Some(d@),
            None => None,
        }
    }
}

/// The lines of an index.
pub fn index_lines(index: &[u8]) -> (list: Vec<Vec<u8>>)
    ensures
        views(list@) == lines(index@),
{
    let pieces = split_bytes(index, LINE_FEED);
    let ghost all = lines(index@);
    let mut list: Vec<Vec<u8>> = Vec::new();
    let mut i: usize = 0;
    while i < pieces.len()
        invariant
            i <= pieces@.len(),
            views(pieces@) == split(index@, LINE_FEED),
            all == lines(index@),
            views(list@) == all.take(i as int),
        decreases pieces@.len() - i,
    {
        let line = slice_to_vec(without_cr(pieces[i].as_slice()));
        proof {
            assert(views(pieces@)[i as int] == pieces@[i as int]@);
            lemma_views_push(list@, line);
            assert(all.take(i + 1) =~= all.take(i as int).push(line@));
        }
        list.push(line);
        i += 1;
    }
    assert(all.take(i as int) =~= all);
    list
}

/// Reads a mode word.
pub fn parse_mode(word: &[u8]) -> (mode: Option<MatchMode>)
    ensures
        mode == mode_word(word@),
{
    if bytes_eq(word, WORD_SUBSET.as_slice()) {
        Some(MatchMode::Subset)
    } else if bytes_eq(word, WORD_EXACT.as_slice()) {
        Some(MatchMode::Exact)
    } else if bytes_eq(word, WORD_CLEAN.as_slice()) {
        Some(MatchMode::Clean)
    } else {
        None
    }
}

/// Reads what a line of the index declares.
pub fn parse_entry(line: &[u8]) -> (entry: Option<(MatchMode, Vec<Vec<u8>>)>)
    ensures
        match entry {
            Some((mode, tags)) => entry_expectation(line@) == Some((mode, views(tags@))),
            None => entry_expectation(line@) is None,
        },
{
    let fields = split_bytes(line, SPACE);
    if fields.len() < 2 || fields.len() > 3 {
        return None;
    }
    assert(views(fields@)[1] == fields@[1]@);
    let tags: Vec<Vec<u8>> = if fields.len() == 3 {
        assert(views(fields@)[2] == fields@[2]@);
        split_bytes(fields[2].as_slice(), COMMA)
    } else {
        let none: Vec<Vec<u8>> = Vec::new();
        assert(views(none@) =~= Seq::<Seq<u8>>::empty());
        none
    };
    match parse_mode(fields[1].as_slice()) {
        Some(mode) => if check_expectation(mode, &tags) {
            Some((mode, tags))
        } else {
            None
        },
        None => None,
    }
}

/// Whether `line` declares something for `name`.
pub fn names(line: &[u8], name: &[u8]) -> (yes: bool)
    ensures
        yes == declares(name@)(line@),
{
    let fields = split_bytes(line, SPACE);
    proof {
        crate::text::lemma_split_join(line@, SPACE);
        assert(views(fields@)[0] == fields@[0]@);
    }
    bytes_eq(fields[0].as_slice(), name)
}

/// Looks up what the lines of an index declare for `name`.
pub fn find_expectation(index: &Vec<Vec<u8>>, name: &[u8]) -> (found: Result<
    (MatchMode, Vec<Vec<u8>>),
    LoadError,
>)
    ensures
        match found {
            Ok((mode, tags)) => expectation_among(views(index@), name@) == Ok::<
                Expectation,
                LoadError,
            >((mode, views(tags@))),
            Err(e) => expectation_among(views(index@), name@) == Err::<Expectation, LoadError>(e),
        },
{
    let ghost all = views(index@);
    let ghost test = declares(name@);
    let mut count: usize = 0;
    let mut first: usize = 0;
    let mut i: usize = 0;
    proof {
        assert(all.take(0).filter(test) =~= Seq::<Seq<u8>>::empty()) by {
            reveal(Seq::filter);
        }
    }
    while i < index.len()
        invariant
            i <= index@.len(),
            all == views(index@),
            test == declares(name@),
            count == all.take(i as int).filter(test).len(),
            count <= i,
            count > 0 ==> first < i && all.take(i as int).filter(test)[0] == all[first as int],
        decreases index@.len() - i,
    {
        proof {
            assert(all[i as int] == index@[i as int]@);
            assert(all.take(i + 1) =~= all.take(i as int).push(all[i as int]));
            all.take(i as int).lemma_filter_push(all[i as int], test);
        }
        if names(index[i].as_slice(), name) {
            if count == 0 {
                first = i;
            }
            count += 1;
        }
        i += 1;
    }
    proof {
        assert(all.take(i as int) =~= all);
    }
    if count == 0 {
        Err(LoadError::MissingMetadata)
    } else if count > 1 {
        Err(LoadError::MalformedMetadata)
    } else {
        assert(all[first as int] == index@[first as int]@);
        match parse_entry(index[first].as_slice()) {
            Some(entry) => Ok(entry),
            None => Err(LoadError::MalformedMetadata),
        }
    }
}

/// Whether `made` is the fixture, or the error, that `wanted` says.
pub open spec fn loads_as(made: Result<Fixture, LoadError>, wanted: Result<FixtureView, LoadError>)
    -> bool {
    match made {
        Ok(f) => wanted == Ok::<FixtureView, LoadError>(f@),
        Err(e) => wanted == Err::<FixtureView, LoadError>(e),
    }
}

/// Copies an optional byte string.
fn copy_description(description: &Option<Vec<u8>>) -> (copy: Option<Vec<u8>>)
    ensures
        match copy {
            Some(c) => *description matches Some(d) && c@ == d@,
            None => *description is None,
        },
{
    match description {
        Some(d) => Some(slice_to_vec(d.as_slice())),
        None => None,
    }
}

/// Makes the fixture of one source from the lines of the index; with `exact`
/// a fixture that asks for a subset is made to ask for an exact match.
pub fn load_fixture(index: &Vec<Vec<u8>>, file: &SourceFile, exact: bool) -> (made: Result<
    Fixture,
    LoadError,
>)
    ensures
        loads_as(made, loaded(views(index@), file.name@, file.text@, file.described(), exact)),
{
    match find_expectation(index, file.name.as_slice()) {
        Err(e) => Err(e),
        Ok((mode, tags)) => {
            let mode = match mode {
                MatchMode::Subset => if exact {
                    MatchMode::Exact
                } else {
                    MatchMode::Subset
                },
                other => other,
            };
            let name = slice_to_vec(file.name.as_slice());
            let text = slice_to_vec(file.text.as_slice());
            match Fixture::new(name, text, tags, mode) {
                Ok(fixture) => match copy_description(&file.description) {
                    Some(d) => Ok(fixture.described(d)),
                    None => Ok(fixture),
                },
                Err(e) => Err(e),
            }
        },
    }
}

/// Makes the fixture of every source, in order, each on its own: a source
/// that cannot be loaded leaves the others as they are.
pub fn load_each(index: &[u8], files: &Vec<SourceFile>, exact: bool) -> (made: Vec<
    Result<Fixture, LoadError>,
>)
    ensures
        made@.len() == files@.len(),
        forall|i: int|
            0 <= i < files@.len() ==> loads_as(
                #[trigger] made@[i],
                loaded(
                    lines(index@),
                    files@[i].name@,
                    files@[i].text@,
                    files@[i].described(),
                    exact,
                ),
            ),
{
    let list = index_lines(index);
    let mut made: Vec<Result<Fixture, LoadError>> = Vec::new();
    let mut i: usize = 0;
    while i < files.len()
        invariant
            i <= files@.len(),
            views(list@) == lines(index@),
            made@.len() == i,
            forall|k: int|
                0 <= k < i ==> loads_as(
                    #[trigger] made@[k],
                    loaded(
                        lines(index@),
                        files@[k].name@,
                        files@[k].text@,
                        files@[k].described(),
                        exact,
                    ),
                ),
        decreases files@.len() - i,
    {
        let one = load_fixture(&list, &files[i], exact);
        made.push(one);
        i += 1;
    }
    made
}

/// Loads the fixtures of a directory: every source with what the index
/// declares for it, in the order of the sources. Fails with the error of the
/// first source that cannot be loaded.
pub fn load(index: &[u8], files: &Vec<SourceFile>, exact: bool) -> (made: Result<
    Vec<Fixture>,
    LoadError,
>)
    ensures
        match made {
            Ok(fixtures) => fixtures@.len() == files@.len() && forall|i: int|
                0 <= i < files@.len() ==> loaded(
                    lines(index@),
                    files@[i].name@,
                    files@[i].text@,
                    files@[i].described(),
                    exact,
                ) == Ok::<FixtureView, LoadError>((#[trigger] fixtures@[i])@),
            Err(e) => exists|i: int|
                0 <= i < files@.len() && loaded(
                    lines(index@),
                    (#[trigger] files@[i]).name@,
                    files@[i].text@,
                    files@[i].described(),
                    exact,
                ) == Err::<FixtureView, LoadError>(e) && forall|k: int|
                    0 <= k < i ==> loaded(
                        lines(index@),
                        (#[trigger] files@[k]).name@,
                        files@[k].text@,
                        files@[k].described(),
                        exact,
                    ) is Ok,
        },
{
    let list = index_lines(index);
    let mut fixtures: Vec<Fixture> = Vec::new();
    let mut i: usize = 0;
    while i < files.len()
        invariant
            i <= files@.len(),
            views(list@) == lines(index@),
            fixtures@.len() == i,
            forall|k: int|
                0 <= k < i ==> loaded(
                    lines(index@),
                    (#[trigger] files@[k]).name@,
                    files@[k].text@,
                    files@[k].described(),
                    exact,
                ) == Ok::<FixtureView, LoadError>(fixtures@[k]@),
        decreases files@.len() - i,
    {
        match load_fixture(&list, &files[i], exact) {
            Ok(fixture) => {
                fixtures.push(fixture);
            },
            Err(e) => {
                return Err(e);
            },
        }
        i += 1;
    }
    Ok(fixtures)
}

} // verus!
