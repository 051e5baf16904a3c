//! Where each file goes: the files are cut, in their order, into rolls of a
//! fixed number of files, and within a roll they are numbered from its end.

use crate::decimal::{byte_text, decimal_digits, push_bytes, push_decimal};
use vstd::prelude::*;
use vstd::string::StringExecFns;

verus! {

/// What the name of every roll starts with.
pub const ROLL_START: &'static str = "Roll ";

/// What the name of every file in a roll starts with.
pub const FILE_START: &'static str = "File ";

/// What the name of every file in a roll ends with.
pub const FILE_END: &'static str = ".zpl";

/// The place a file is copied to: the number of its roll and its own
/// number in the roll, both counted from one.
#[derive(Debug, Clone, Copy, PartialEq, Eq, Structural)]
pub struct Destination {
    pub roll: usize,
    pub file: usize,
}

/// The name of the folder of roll `n`.
pub open spec fn roll_name(n: nat) -> Seq<char> {
    ROLL_START@ + byte_text(decimal_digits(n))
}

/// The name of file `m` within its roll.
pub open spec fn file_name(m: nat) -> Seq<char> {
    FILE_START@ + byte_text(decimal_digits(m)) + FILE_END@
}

/// How many rolls are made ready for `files` files at `per_roll` files to
/// a roll: as many as come out full.
pub open spec fn full_rolls(files: nat, per_roll: nat) -> nat
    recommends
        per_roll > 0,
{
    files / per_roll
}

/// The number of the roll that the file at `position` goes to.
pub open spec fn roll_of(per_roll: nat, position: nat) -> nat
    recommends
        per_roll > 0,
{
    position / per_roll + 1
}

/// How many files go to the roll of the file at `position`, of `files` in all.
pub open spec fn roll_size(files: nat, per_roll: nat, position: nat) -> nat
    recommends
        per_roll > 0,
        position < files,
{
    let start = position / per_roll * per_roll;
    if files - start < per_roll {
        (files - start) as nat
    } else {
        per_roll
    }
}

/// The number within its roll of the file at `position`: the last file of
/// a roll is its file one, the one before it its file two, and so on.
pub open spec fn file_of(files: nat, per_roll: nat, position: nat) -> nat
    recommends
        per_roll > 0,
        position < files,
{
    (roll_size(files, per_roll, position) - position % per_roll) as nat
}

/// The file numbers of a roll run from one to the size of the roll, and
/// count down as the positions go up.
pub proof fn lemma_file_numbers(files: nat, per_roll: nat, position: nat)
    requires
        per_roll > 0,
        position < files,
    ensures
        1 <= roll_size(files, per_roll, position) <= per_roll,
        1 <= file_of(files, per_roll, position) <= roll_size(files, per_roll, position),
        position / per_roll * per_roll <= position,
        position + 1 < files && roll_of(per_roll, position + 1) == roll_of(per_roll, position)
            ==> file_of(files, per_roll, position + 1) + 1 == file_of(files, per_roll, position),
{
    let q = position / per_roll;
    let r = position % per_roll;
    assert(position == q * per_roll + r && 0 <= r < per_roll) by (nonlinear_arith)
        requires
            per_roll > 0,
            q == position / per_roll,
            r == position % per_roll,
    ;
    if position + 1 < files && roll_of(per_roll, position + 1) == roll_of(per_roll, position) {
        let r1 = (position + 1) % per_roll;
        assert(position + 1 == q * per_roll + r1 && 0 <= r1 < per_roll) by (nonlinear_arith)
            requires
                per_roll > 0,
                q == (position + 1) / per_roll,
                r1 == (position + 1) % per_roll,
        ;
    }
}

/// No two files are copied to the same place.
pub proof fn lemma_places_differ(files: nat, per_roll: nat, p: nat, q: nat)
    requires
        per_roll > 0,
        p < files,
        q < files,
        roll_of(per_roll, p) == roll_of(per_roll, q),
        file_of(files, per_roll, p) == file_of(files, per_roll, q),
    ensures
        p == q,
{
    let k = p / per_roll;
    assert(p == k * per_roll + p % per_roll) by (nonlinear_arith)
        requires
            per_roll > 0,
            k == p / per_roll,
    ;
    assert(q == k * per_roll + q % per_roll) by (nonlinear_arith)
        requires
            per_roll > 0,
            k == q / per_roll,
    ;
    lemma_file_numbers(files, per_roll, p);
    lemma_file_numbers(files, per_roll, q);
}

/// How many rolls are made ready for `files` files.
pub fn folder_count(files: usize, amount_per_folder: usize) -> (rolls: usize)
    requires
        amount_per_folder > 0,
    ensures
        rolls == full_rolls(files as nat, amount_per_folder as nat),
{
    files / amount_per_folder
}

/// The place that the file at `position` is copied to, of `files` in all.
pub fn destination(files: usize, amount_per_folder: usize, position: usize) -> (place: Destination)
    requires
        amount_per_folder > 0,
        position < files,
    ensures
        place.roll == roll_of(amount_per_folder as nat, position as nat),
        place.file == file_of(files as nat, amount_per_folder as nat, position as nat),
{
    proof {
        lemma_file_numbers(files as nat, amount_per_folder as nat, position as nat);
    }
    let roll = position / amount_per_folder;
    let within = position % amount_per_folder;
    assert(position == roll * amount_per_folder + within && 0 <= within < amount_per_folder)
        by (nonlinear_arith)
        requires
            amount_per_folder > 0,
            roll == position / amount_per_folder,
            within == position % amount_per_folder,
    ;
    assert(roll * amount_per_folder >= 0) by (nonlinear_arith)
        requires
            roll >= 0,
            amount_per_folder > 0,
    ;
    let start = position - within;
    let size = if files - start < amount_per_folder {
        files - start
    } else {
        amount_per_folder
    };
    Destination { roll: roll + 1, file: size - within }
}

/// The name of the folder of roll `n`.
pub fn roll_folder(n: usize) -> (name: String)
    ensures
        name@ == roll_name(n as nat),
{
    let mut digits: Vec<u8> = Vec::new();
    push_decimal(&mut digits, n as u128);
    let mut name = String::from_str(ROLL_START);
    push_bytes(&mut name, digits.as_slice());
    name
}

/// The name of file `m` within its roll.
pub fn roll_file(m: usize) -> (name: String)
    ensures
        name@ == file_name(m as nat),
{
    let mut digits: Vec<u8> = Vec::new();
    push_decimal(&mut digits, m as u128);
    let mut name = String::from_str(FILE_START);
    push_bytes(&mut name, digits.as_slice());
    name.append(FILE_END);
    name
}

/// The names of the folders of the rolls one to `amount_of_folders`.
pub fn roll_folders(amount_of_folders: usize) -> (names: Vec<String>)
    ensures
        names@.len() == amount_of_folders,
        forall|i: int| 0 <= i < names@.len() ==> (#[trigger] names@[i])@ == roll_name((i + 1) as nat),
{
    let mut names: Vec<String> = Vec::new();
    let mut i: usize = 0;
    while i < amount_of_folders
        invariant
            i <= amount_of_folders,
            names@.len() == i,
            forall|k: int| 0 <= k < i ==> (#[trigger] names@[k])@ == roll_name((k + 1) as nat),
        decreases amount_of_folders - i,
    {
        names.push(roll_folder(i + 1));
        i += 1;
    }
    names
}

} // verus!
