//! Fixtures: named sample sources with the violations they are expected to
//! draw from a tool.

use vstd::prelude::*;
use crate::tags::all_distinct;
use crate::text::views;

verus! {

/// How the observed tags are held against the expected ones.
#[derive(Clone, Copy, Debug, PartialEq, Eq, Structural)]
pub enum MatchMode {
    /// Every expected tag must be observed; others are noted as warnings.
    Subset,
    /// The observed tags must be the expected ones, no more and no fewer.
    Exact,
    /// A control sample: nothing is expected and nothing may be observed.
    Clean,
}

/// Why a fixture could not be loaded.
#[derive(Clone, Copy, Debug, PartialEq, Eq, Structural)]
pub enum LoadError {
    /// Nothing is declared for the fixture.
    MissingMetadata,
    /// What is declared for the fixture cannot be read, or declares an
    /// expectation that no fixture can have.
    MalformedMetadata,
}

/// Whether a fixture may expect `expected` under `mode`.
///
/// The expected tags form a set of names: none is empty and none occurs
/// twice. The set is empty for a clean fixture and for no other, so that no
/// fixture turns into a control sample by leaving its tags out.
pub open spec fn valid_expectation(mode: MatchMode, expected: Seq<Seq<u8>>) -> bool {
    &&& mode == MatchMode::Clean <==> expected.len() == 0
    &&& expected.no_duplicates()
    &&& forall|i: int| 0 <= i < expected.len() ==> (#[trigger] expected[i]).len() > 0
}

/// A fixture, in the model.
pub struct FixtureView {
    /// The fixture's name.
    pub name: Seq<u8>,
    /// The sample source, as loaded.
    pub source: Seq<u8>,
    /// The tags that the source is expected to draw.
    pub expected: Seq<Seq<u8>>,
    /// How observed tags are held against them.
    pub mode: MatchMode,
    /// What the fixture is about, in free form.
    pub description: Option<Seq<u8>>,
}

/// A named sample source with its expected violations. It does not change
/// once made.
#[derive(Debug, PartialEq, Eq)]
pub struct Fixture {
    name: Vec<u8>,
    source: Vec<u8>,
    expected: Vec<Vec<u8>>,
    mode: MatchMode,
    description: Option<Vec<u8>>,
}

impl View for Fixture {
    type V = FixtureView;

    closed spec fn view(&self) -> FixtureView {
        FixtureView {
            name: self.name@,
            source: self.source@,
            expected: views(self.expected@),
            mode: self.mode,
            description: match self.description {
                Some(d) => Some(d@),
                None => None,
            },
        }
    }
}

/// Whether no tag of `tags` is empty.
fn none_empty(tags: &Vec<Vec<u8>>) -> (yes: bool)
    ensures
        yes == forall|i: int| 0 <= i < tags@.len() ==> (#[trigger] views(tags@)[i]).len() > 0,
{
    let mut i: usize = 0;
    while i < tags.len()
        invariant
            i <= tags@.len(),
            forall|k: int| 0 <= k < i ==> (#[trigger] views(tags@)[k]).len() > 0,
        decreases tags@.len() - i,
    {
        assert(views(tags@)[i as int] == tags@[i as int]@);
        if tags[i].len() == 0 {
            return false;
        }
        i += 1;
    }
    true
}

/// Whether a fixture may expect `expected` under `mode`.
pub fn check_expectation(mode: MatchMode, expected: &Vec<Vec<u8>>) -> (yes: bool)
    ensures
        yes == valid_expectation(mode, views(expected@)),
{
    let clean = match mode {
        MatchMode::Clean => true,
        _ => false,
    };
    clean == (expected.len() == 0) && all_distinct(expected) && none_empty(expected)
}

impl Fixture {
    /// What holds of every fixture: its expectation is one that a fixture
    /// may have.
    #[verifier::type_invariant]
    pub open spec fn well_formed(self) -> bool {
        valid_expectation(self@.mode, self@.expected)
    }

    /// Makes a fixture, or fails where the expectation is not one that a
    /// fixture may have.
    pub fn new(name: Vec<u8>, source: Vec<u8>, expected: Vec<Vec<u8>>, mode: MatchMode) -> (made:
        Result<Fixture, LoadError>)
        ensures
            match made {
                Ok(f) => valid_expectation(mode, views(expected@)) && f@ == (FixtureView {
                    name: name@,
                    source: source@,
                    expected: views(expected@),
                    mode,
                    description: None,
                }),
                Err(e) => !valid_expectation(mode, views(expected@)) && e
                    == LoadError::MalformedMetadata,
            },
    {
        if check_expectation(mode, &expected) {
            Ok(Fixture { name, source, expected, mode, description: None })
        } else {
            Err(LoadError::MalformedMetadata)
        }
    }

    /// A fixture that expects `expected`, all of them if `exact`, at least
    /// them otherwise.
    pub fn expecting(name: Vec<u8>, source: Vec<u8>, expected: Vec<Vec<u8>>, exact: bool) -> (made:
        Result<Fixture, LoadError>)
        ensures
            match made {
                Ok(f) => valid_expectation(mode_of(exact), views(expected@)) && f@ == (
                FixtureView {
                    name: name@,
                    source: source@,
                    expected: views(expected@),
                    mode: mode_of(exact),
                    description: None,
                }),
                Err(e) => !valid_expectation(mode_of(exact), views(expected@)) && e
                    == LoadError::MalformedMetadata,
            },
    {
        let mode = if exact {
            MatchMode::Exact
        } else {
            MatchMode::Subset
        };
        Fixture::new(name, source, expected, mode)
    }

    /// A control sample: a fixture that expects no violation at all.
    pub fn clean(name: Vec<u8>, source: Vec<u8>) -> (made: Fixture)
        ensures
            made@ == (FixtureView {
                name: name@,
                source: source@,
                expected: Seq::<Seq<u8>>::empty(),
                mode: MatchMode::Clean,
                description: None,
            }),
    {
        let expected: Vec<Vec<u8>> = Vec::new();
        assert(views(expected@) =~= Seq::<Seq<u8>>::empty());
        Fixture { name, source, expected, mode: MatchMode::Clean, description: None }
    }

    /// The same fixture with a description.
    pub fn described(self, description: Vec<u8>) -> (made: Fixture)
        ensures
            made@ == (FixtureView { description: Some(description@), ..self@ }),
    {
        proof {
            use_type_invariant(&self);
        }
        Fixture {
            name: self.name,
            source: self.source,
            expected: self.expected,
            mode: self.mode,
            description: Some(description),
        }
    }

    /// The fixture's name.
    pub fn name(&self) -> (name: &Vec<u8>)
        ensures
            name@ == self@.name,
    {
        &self.name
    }

    /// The sample source.
    pub fn source(&self) -> (source: &Vec<u8>)
        ensures
            source@ == self@.source,
    {
        &self.source
    }

    /// The expected tags.
    pub fn expected(&self) -> (expected: &Vec<Vec<u8>>)
        ensures
            views(expected@) == self@.expected,
            valid_expectation(self@.mode, self@.expected),
    {
        proof {
            use_type_invariant(self);
        }
        &self.expected
    }

    /// How observed tags are held against the expected ones.
    pub fn mode(&self) -> (mode: MatchMode)
        ensures
            mode == self@.mode,
    {
        self.mode
    }

    /// Whether the fixture is a control sample.
    pub fn is_clean(&self) -> (yes: bool)
        ensures
            yes == (self@.mode == MatchMode::Clean),
            yes == (self@.expected.len() == 0),
    {
        proof {
            use_type_invariant(self);
        }
        match self.mode {
            MatchMode::Clean => true,
            _ => false,
        }
    }

    /// What the fixture is about, if it says.
    pub fn description(&self) -> (description: &Option<Vec<u8>>)
        ensures
            match *description {
                Some(d) => self@.description == Some(d@),
                None => self@.description is None,
            },
    {
        &self.description
    }
}

/// The mode of a fixture that expects tags.
pub open spec fn mode_of(exact: bool) -> MatchMode {
    if exact {
        MatchMode::Exact
    } else {
        MatchMode::Subset
    }
}

} // verus!
