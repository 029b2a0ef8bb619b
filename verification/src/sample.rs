//! Choice of the code sample to show next.

use vstd::prelude::*;

verus! {

/// Why no sample was picked.
#[derive(Clone, Copy, Debug, PartialEq, Eq, Structural)]
pub enum PickError {
    /// There is no sample to pick from.
    NoSamples,
}

/// The random number generator of the thread, `rand::rngs::ThreadRng`.
#[verifier::external_type_specification]
#[verifier::external_body]
pub struct ExThreadRng(rand::rngs::ThreadRng);

/// Calls `rand::rng`, which hands out the generator of the thread. Nothing
/// is claimed of it.
#[verifier::external_body]
fn thread_generator() -> (generator: rand::rngs::ThreadRng) {
    rand::rng()
}

/// Calls `rand::seq::IndexedRandom::choose` on the slice. It returns
/// nothing for an empty slice, and else a reference to one of the items;
/// which one is left open.
#[verifier::external_body]
fn choose_one<'a>(items: &'a Vec<String>, generator: &mut rand::rngs::ThreadRng) -> (choice:
    Option<&'a String>)
    ensures
        choice is None <==> items@.len() == 0,
        choice is Some ==> items@.contains(*choice->0),
{
    rand::seq::IndexedRandom::choose(items.as_slice(), generator)
}

/// The sample for a choice: a copy of the chosen name, or the error where
/// nothing was chosen.
pub fn chosen(choice: Option<&String>) -> (r: Result<String, PickError>)
    ensures
        match choice {
            Some(name) => r == Ok::<String, PickError>(*name),
            None => r == Err::<String, PickError>(PickError::NoSamples),
        },
{
    match choice {
        Some(name) => Ok(name.clone()),
        None => Err(PickError::NoSamples),
    }
}

/// Picks one of the samples at random. It fails on an empty list, and only
/// there; a sample that it returns is one of the list.
pub fn pick_sample(samples: &Vec<String>) -> (r: Result<String, PickError>)
    ensures
        samples@.len() == 0 <==> r == Err::<String, PickError>(PickError::NoSamples),
        samples@.len() > 0 ==> r is Ok && samples@.contains(r->Ok_0),
{
    let mut generator = thread_generator();
    chosen(choose_one(samples, &mut generator))
}

} // verus!
