//! The choice of a key by the user.

use super::Key;
use vstd::prelude::*;

verus! {

/// What the user's answer to a list of items comes to.
#[derive(Debug, Clone, Copy, PartialEq, Eq, Structural)]
pub enum Choice {
    /// Nothing is chosen: the answer is blank.
    Nothing,
    /// The item at this position is chosen.
    Item(usize),
    /// The answer is no number of an item: ask again.
    Invalid,
}

/// Reads the user's answer to a list of `count` items, numbered from 1:
/// `blank` tells whether the answer is blank, `number` is the number it
/// writes, if it writes one.
pub fn select_item(count: usize, blank: bool, number: Option<usize>) -> (choice: Choice)
    ensures
        choice == (if blank {
            Choice::Nothing
        } else {
            match number {
                Some(n) => if 0 < n <= count {
                    Choice::Item((n - 1) as usize)
                } else {
                    Choice::Invalid
                },
                None => Choice::Invalid,
            }
        }),
{
    if blank {
        return Choice::Nothing;
    }
    match number {
        Some(n) => if n > 0 && n <= count {
            Choice::Item(n - 1)
        } else {
            Choice::Invalid
        },
        None => Choice::Invalid,
    }
}

/// What the user's answer to the list of keys comes to.
pub enum KeyChoice<'a> {
    /// No key is chosen.
    Nothing,
    /// This key is chosen.
    Key(&'a Key),
    /// The answer is no number of a key: ask again.
    Invalid,
}

/// Reads the user's answer to the list `keys`, numbered from 1 in the order
/// in which they are shown.
pub fn select_key<'a>(keys: &'a Vec<Key>, blank: bool, number: Option<usize>) -> (choice: KeyChoice<
    'a,
>)
    ensures
        match choice {
            KeyChoice::Nothing => blank,
            KeyChoice::Key(key) => !blank && number is Some && 0 < number->0 <= keys@.len() && *key
                == keys@[number->0 - 1],
            KeyChoice::Invalid => !blank && !(number is Some && 0 < number->0 <= keys@.len()),
        },
{
    match select_item(keys.len(), blank, number) {
        Choice::Nothing => KeyChoice::Nothing,
        Choice::Item(at) => KeyChoice::Key(&keys[at]),
        Choice::Invalid => KeyChoice::Invalid,
    }
}

} // verus!
