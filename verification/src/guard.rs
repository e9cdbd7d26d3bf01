//! The guard of the destination: whether the directory that an archive is to
//! be written to holds anything, and what follows from that. The directory is
//! looked at by the caller, anew for every fetch.

use crate::text::same_text;
use vstd::prelude::*;
use vstd::string::*;

verus! {

/// A destination and what was seen there.
#[derive(Debug, Clone, PartialEq, Eq)]
pub struct Destination {
    pub path: String,
    /// Whether anything lies at the path.
    pub exists: bool,
    /// Whether it is a directory.
    pub is_dir: bool,
    /// What listing the directory gave: for each entry whether it could be
    /// read; `None` where the directory could not be listed.
    pub entries: Option<Vec<bool>>,
}

/// Whether a destination is free.
#[derive(Debug, Clone, Copy, PartialEq, Eq)]
pub enum Occupancy {
    /// Nothing is there, or an empty directory, or one that cannot be listed.
    Empty,
    /// A directory with at least one entry.
    Occupied,
}

/// What the user chose at an occupied destination.
#[derive(Debug, Clone, Copy, PartialEq, Eq)]
pub enum Answer {
    Overwrite,
    Quit,
    /// The prompt was left without a choice.
    Cancelled,
}

/// What is done next at a destination.
#[derive(Debug, Clone, Copy, PartialEq, Eq)]
pub enum Step {
    /// The archive is fetched and written.
    Download,
    /// The user is asked to choose between overwriting and quitting.
    Ask,
    /// The run ends with this exit code, and nothing is written.
    Exit(i32),
}

/// Whether a directory lies at the destination.
pub open spec fn dir_exist(d: Destination) -> bool {
    d.exists && d.is_dir
}

/// Whether one entry of a listing could be read.
pub open spec fn any_readable(entries: Seq<bool>) -> bool {
    exists|i: int| 0 <= i < entries.len() && #[trigger] entries[i]
}

/// Whether the listing shows an entry that could be read.
pub open spec fn dir_not_empty(d: Destination) -> bool {
    match d.entries {
        Some(v) => any_readable(v@),
        None => false,
    }
}

/// Whether the destination is a directory that holds something.
pub open spec fn has_content(d: Destination) -> bool {
    dir_exist(d) && dir_not_empty(d)
}

/// Occupied where the destination is a directory that holds something, free
/// in every other case.
pub open spec fn occupancy(d: Destination) -> Occupancy {
    if has_content(d) {
        Occupancy::Occupied
    } else {
        Occupancy::Empty
    }
}

/// The next step at a destination, given the answer of the user if one was
/// asked for: a free destination needs no answer, an occupied one is written
/// to only after `Overwrite`.
pub open spec fn step_spec(d: Destination, answer: Option<Answer>) -> Step {
    if !has_content(d) {
        Step::Download
    } else {
        match answer {
            None => Step::Ask,
            Some(Answer::Overwrite) => Step::Download,
            Some(Answer::Quit) => Step::Exit(1),
            Some(Answer::Cancelled) => Step::Exit(1),
        }
    }
}

/// The answer that a label of the prompt stands for.
pub open spec fn answer_spec(label: Option<Seq<char>>) -> Answer {
    match label {
        Some(l) => if l == "overwrite"@ {
            Answer::Overwrite
        } else if l == "quit"@ {
            Answer::Quit
        } else {
            Answer::Cancelled
        },
        None => Answer::Cancelled,
    }
}

/// The two labels that the prompt at an occupied destination offers.
pub fn prompt_labels() -> (labels: (&'static str, &'static str))
    ensures
        labels.0@ == "overwrite"@,
        labels.1@ == "quit"@,
        answer_spec(Some(labels.0@)) == Answer::Overwrite,
        answer_spec(Some(labels.1@)) == Answer::Quit,
{
    proof {
        reveal_strlit("overwrite");
        reveal_strlit("quit");
        assert("overwrite"@.len() != "quit"@.len());
    }
    ("overwrite", "quit")
}

/// Whether a directory lies at the destination.
pub fn is_dir_exist(d: &Destination) -> (b: bool)
    ensures
        b == dir_exist(*d),
{
    d.exists && d.is_dir
}

/// Whether the listing shows an entry that could be read.
pub fn is_dir_not_empty(d: &Destination) -> (b: bool)
    ensures
        b == dir_not_empty(*d),
{
    match &d.entries {
        Some(v) => {
            let mut i: usize = 0;
            while i < v.len()
                invariant
                    i <= v.len(),
                    d.entries == Some(*v),
                    forall|j: int| 0 <= j < i ==> !v@[j],
                decreases v.len() - i,
            {
                if v[i] {
                    assert(any_readable(v@));
                    return true;
                }
                i += 1;
            }
            false
        },
        None => false,
    }
}

/// Whether the destination is a directory that holds something.
pub fn has_content_in_dir(d: &Destination) -> (b: bool)
    ensures
        b == has_content(*d),
{
    is_dir_exist(d) && is_dir_not_empty(d)
}

/// Whether the destination is free or occupied.
pub fn check(d: &Destination) -> (o: Occupancy)
    ensures
        o == occupancy(*d),
{
    if has_content_in_dir(d) {
        Occupancy::Occupied
    } else {
        Occupancy::Empty
    }
}

/// The answer that the prompt gave: the label chosen, or `None` where the
/// prompt was cancelled.
pub fn answer_of(label: Option<&str>) -> (a: Answer)
    ensures
        a == answer_spec(
            match label {
                Some(l) => Some(l@),
                None => None,
            },
        ),
{
    match label {
        Some(l) => {
            if same_text(l, "overwrite") {
                Answer::Overwrite
            } else if same_text(l, "quit") {
                Answer::Quit
            } else {
                Answer::Cancelled
            }
        },
        None => Answer::Cancelled,
    }
}

/// Decides what is done next at the destination.
pub fn try_download(d: &Destination, answer: Option<Answer>) -> (s: Step)
    ensures
        s == step_spec(*d, answer),
{
    if !has_content_in_dir(d) {
        Step::Download
    } else {
        match answer {
            None => Step::Ask,
            Some(Answer::Overwrite) => Step::Download,
            Some(Answer::Quit) => Step::Exit(1),
            Some(Answer::Cancelled) => Step::Exit(1),
        }
    }
}

/// A destination that is an empty directory is free, and the archive is
/// fetched without any question.
pub proof fn law_empty_directory_is_free(d: Destination)
    requires
        d.exists,
        d.is_dir,
        d.entries matches Some(v) && v@.len() == 0,
    ensures
        occupancy(d) == Occupancy::Empty,
        step_spec(d, None) == Step::Download,
{
}

/// A directory with an entry is occupied: the user is asked first, and where
/// the answer is to quit, the run ends with exit code 1 and fetches nothing.
pub proof fn law_occupied_directory_asks(d: Destination)
    requires
        d.exists,
        d.is_dir,
        d.entries matches Some(v) && v@.len() > 0 && v@[0],
    ensures
        occupancy(d) == Occupancy::Occupied,
        step_spec(d, None) == Step::Ask,
        step_spec(d, Some(Answer::Quit)) == Step::Exit(1),
        step_spec(d, Some(Answer::Overwrite)) == Step::Download,
{
    assert(any_readable(d.entries->0@));
}

} // verus!
