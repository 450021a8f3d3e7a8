//! The control sample: code that a lint checker has nothing to say about.

use vstd::prelude::*;
use vstd::string::StringExecFns;

verus! {

/// The sum of two numbers that have one.
pub fn add(a: i32, b: i32) -> (sum: i32)
    requires
        i32::MIN <= a + b <= i32::MAX,
    ensures
        sum == a + b,
{
    a + b
}

/// The line that greets `name`.
pub fn greet(name: &str) -> (line: String)
    ensures
        line@ == "Hello, "@ + name@ + "!"@,
{
    let mut line = String::from_str("Hello, ");
    line.append(name);
    line.append("!");
    line
}

/// Someone with a name and an age.
#[derive(Debug, PartialEq, Eq)]
pub struct Person {
    /// The name.
    pub name: String,
    /// The age, in years.
    pub age: u32,
}

impl Person {
    /// A person of the given name and age.
    pub fn new(name: String, age: u32) -> (person: Self)
        ensures
            person.name == name,
            person.age == age,
    {
        Self { name, age }
    }

    /// The person's name.
    pub fn get_name(&self) -> (name: &str)
        ensures
            name@ == self.name@,
    {
        self.name.as_str()
    }
}

/// Twice each positive number of `data`, in order.
pub open spec fn doubled_positives(data: Seq<i32>) -> Seq<int> {
    data.filter(|x: i32| x > 0).map_values(|x: i32| 2 * x)
}

/// The numbers of a list, as integers.
pub open spec fn as_ints(data: Seq<i32>) -> Seq<int> {
    data.map_values(|x: i32| x as int)
}

/// Drops what is not positive and doubles the rest.
pub fn process_data(data: Vec<i32>) -> (doubled: Vec<i32>)
    requires
        forall|i: int| 0 <= i < data@.len() ==> 2 * #[trigger] data@[i] <= i32::MAX,
    ensures
        as_ints(doubled@) == doubled_positives(data@),
{
    let mut doubled: Vec<i32> = Vec::new();
    let ghost positive = |x: i32| x > 0;
    let mut i: usize = 0;
    proof {
        assert(data@.take(0).filter(positive) =~= Seq::<i32>::empty()) by {
            reveal(Seq::filter);
        }
        assert(as_ints(doubled@) =~= doubled_positives(data@.take(0)));
    }
    while i < data.len()
        invariant
            i <= data@.len(),
            positive == |x: i32| x > 0,
            forall|k: int| 0 <= k < data@.len() ==> 2 * #[trigger] data@[k] <= i32::MAX,
            as_ints(doubled@) == doubled_positives(data@.take(i as int)),
        decreases data@.len() - i,
    {
        let x = data[i];
        proof {
            assert(data@.take(i + 1) =~= data@.take(i as int).push(x));
            data@.take(i as int).lemma_filter_push(x, positive);
        }
        if x > 0 {
            let ghost before = doubled@;
            doubled.push(x * 2);
            assert(as_ints(doubled@) =~= as_ints(before).push(2 * x));
            assert(doubled_positives(data@.take(i + 1)) =~= doubled_positives(
                data@.take(i as int),
            ).push(2 * x));
        }
        i += 1;
    }
    assert(data@.take(i as int) =~= data@);
    doubled
}

} // verus!
