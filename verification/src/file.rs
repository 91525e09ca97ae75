//! Files: the columns of the board, numbered from 0.

use core::cmp::Ordering;
use vstd::prelude::*;
use vstd::std_specs::cmp::PartialOrdSpecImpl;
use vstd::std_specs::iter::IteratorSpec;

verus! {

/// Number of files on the board.
pub const MAX_NUMBER_OF_FILES: u8 = 8;

/// A file of the board. Every value that executable code holds lies in
/// `0..MAX_NUMBER_OF_FILES`; the view is the file's number.
#[derive(Debug, Clone, Copy, PartialEq, Eq, Structural, Ord)]
pub struct File {
    val: u8,
}

impl View for File {
    type V = int;

    closed spec fn view(&self) -> int {
        self.val as int
    }
}

/// The numbers of a list of files.
pub open spec fn file_numbers(files: Seq<File>) -> Seq<int> {
    files.map_values(|f: File| f@)
}

/// The numbers in `values` that name a file, in the order in which they come.
pub open spec fn numbers_of_files(values: Seq<u8>) -> Seq<int> {
    values.filter(|v: u8| v < MAX_NUMBER_OF_FILES).map_values(|v: u8| v as int)
}

impl File {
    /// The invariant of the type: the file lies on the board.
    #[verifier::type_invariant]
    pub open spec fn wf(self) -> bool {
        0 <= self@ < MAX_NUMBER_OF_FILES
    }

    /// Two files with the same number are the same file.
    pub proof fn lemma_number_determines_file(a: File, b: File)
        requires
            a@ == b@,
        ensures
            a == b,
    {
    }

    /// The file numbered `file`, or an error when `file` is off the board.
    pub fn build(file: u8) -> (res: Result<File, &'static str>)
        ensures
            file < MAX_NUMBER_OF_FILES ==> res is Ok && res->Ok_0@ == file,
            file >= MAX_NUMBER_OF_FILES ==> res is Err && res->Err_0@
                == "File outside allowable bounds"@,
    {
        if file >= MAX_NUMBER_OF_FILES {
            return Err("File outside allowable bounds");
        }
        Ok(File { val: file })
    }

    /// The file numbered `file`, which the caller knows to be on the board.
    pub(crate) fn new(file: u8) -> (res: File)
        requires
            file < MAX_NUMBER_OF_FILES,
        ensures
            res@ == file,
    {
        File { val: file }
    }

    /// The files named by the numbers that `range` yields, in that order.
    /// Numbers that name no file are dropped silently, so a range whose lower
    /// end came from a subtraction that wrapped around yields nothing: take
    /// that end with a saturating subtraction.
    pub fn iter_files<I: Iterator<Item = u8>>(range: I) -> (res: Vec<File>)
        requires
            range.obeys_prophetic_iter_laws(),
            range.decrease() is Some,
        ensures
            file_numbers(res@) == numbers_of_files(range.remaining()),
    {
        let ghost all = range.remaining();
        let ghost mut seen: Seq<u8> = Seq::empty();
        let mut rest = range;
        let mut files: Vec<File> = Vec::new();
        loop
            invariant
                rest.obeys_prophetic_iter_laws(),
                rest.decrease() is Some,
                all == seen + rest.remaining(),
                file_numbers(files@) == numbers_of_files(seen),
            ensures
                file_numbers(files@) == numbers_of_files(all),
            decreases rest.decrease()->0,
        {
            let ghost before = seen;
            let ghost held = files@;
            match rest.next() {
                Some(value) => {
                    proof {
                        seen = before.push(value);
                        assert(all == seen + rest.remaining());
                    }
                    if value < MAX_NUMBER_OF_FILES {
                        files.push(File::new(value));
                    }
                    proof {
                        before.lemma_filter_push(value, |v: u8| v < MAX_NUMBER_OF_FILES);
                        if value < MAX_NUMBER_OF_FILES {
                            assert(file_numbers(files@) == file_numbers(held).push(value as int));
                            assert(numbers_of_files(seen) == numbers_of_files(before).push(
                                value as int,
                            ));
                        }
                    }
                },
                None => {
                    assert(all == seen);
                    break ;
                },
            }
        }
        files
    }

    /// The number of the file.
    pub fn value(&self) -> (res: u8)
        ensures
            res == self@,
            res < MAX_NUMBER_OF_FILES,
    {
        proof {
            use_type_invariant(self);
        }
        self.val
    }

    /// The file to the right, if there is one.
    pub fn next(&self) -> (res: Option<File>)
        ensures
            self@ + 1 < MAX_NUMBER_OF_FILES ==> res is Some && res->Some_0@ == self@ + 1,
            self@ + 1 >= MAX_NUMBER_OF_FILES ==> res is None,
    {
        proof {
            use_type_invariant(self);
        }
        if self.val + 1 >= MAX_NUMBER_OF_FILES {
            None
        } else {
            Some(File { val: self.val + 1 })
        }
    }

    /// The file to the left, if there is one.
    pub fn previous(&self) -> (res: Option<File>)
        ensures
            self@ >= 1 ==> res is Some && res->Some_0@ == self@ - 1,
            self@ < 1 ==> res is None,
    {
        proof {
            use_type_invariant(self);
        }
        if self.val == 0 {
            None
        } else {
            Some(File { val: self.val - 1 })
        }
    }

    /// The file `jump` steps to the right, or an error when that leaves the
    /// board.
    pub fn next_by(&self, jump: u8) -> (res: Result<File, &'static str>)
        ensures
            self@ + jump < MAX_NUMBER_OF_FILES ==> res is Ok && res->Ok_0@ == self@ + jump,
            self@ + jump >= MAX_NUMBER_OF_FILES ==> res is Err && res->Err_0@
                == "File outside allowable bounds"@,
    {
        proof {
            use_type_invariant(self);
        }
        if jump >= MAX_NUMBER_OF_FILES - self.val {
            return Err("File outside allowable bounds");
        }
        File::build(self.val + jump)
    }

    /// The file `jump` steps to the left, or an error when that leaves the
    /// board.
    pub fn previous_by(&self, jump: u8) -> (res: Result<File, &'static str>)
        ensures
            jump <= self@ ==> res is Ok && res->Ok_0@ == self@ - jump,
            jump > self@ ==> res is Err && res->Err_0@ == "File outside allowable bounds"@,
    {
        proof {
            use_type_invariant(self);
        }
        if jump > self.val {
            return Err("File outside allowable bounds");
        }
        File::build(self.val - jump)
    }
}

impl PartialOrd for File {
    /// Files are ordered by their numbers.
    fn partial_cmp(&self, other: &File) -> (res: Option<Ordering>) {
        if self.val < other.val {
            Some(Ordering::Less)
        } else if self.val > other.val {
            Some(Ordering::Greater)
        } else {
            Some(Ordering::Equal)
        }
    }
}

impl PartialOrdSpecImpl for File {
    open spec fn obeys_partial_cmp_spec() -> bool {
        true
    }

    open spec fn partial_cmp_spec(&self, other: &File) -> Option<Ordering> {
        if self@ < other@ {
            Some(Ordering::Less)
        } else if self@ > other@ {
            Some(Ordering::Greater)
        } else {
            Some(Ordering::Equal)
        }
    }
}

} // verus!
