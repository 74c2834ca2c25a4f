//! Normalising the whole library one file at a time, so that the interface
//! can show progress between files.
use vstd::prelude::*;

use crate::model::{texts, NormalizationOptions};
use crate::text::{dec, u64_text};

verus! {

/// A run over files `0..total`: the next file to hand out, how many were
/// done, and the failures so far.
pub struct BatchJob {
    next: usize,
    total: usize,
    completed: usize,
    errors: Vec<String>,
    options: NormalizationOptions,
}

/// The status after a run over `total` files with the given failures.
pub open spec fn batch_status(total: nat, errors: Seq<Seq<char>>) -> Seq<char> {
    if errors.len() == 0 {
        dec(total) + " archivo(s) normalizado(s) correctamente."@
    } else {
        dec(if total >= errors.len() { (total - errors.len()) as nat } else { 0 }) + " completado(s), "@
            + dec(errors.len()) + " error(es). "@ + errors[0]
    }
}

/// The text that reports a file that failed: its name and the error.
pub fn failure_text(name: String, error: &str) -> (r: String)
    ensures
        r@ == name@ + ": "@ + error@,
{
    let mut s = name;
    s.append(": ");
    s.append(error);
    proof {
        reveal_strlit(": ");
    }
    s
}

impl BatchJob {
    /// A run over files `0..total` with the given options; nothing done yet.
    pub fn new(total: usize, options: NormalizationOptions) -> (r: BatchJob)
        ensures
            r.next_index() == 0,
            r.total() == total,
            r.completed() == 0,
            r.errors().len() == 0,
            r.options() == options,
    {
        let b = BatchJob { next: 0, total, completed: 0, errors: Vec::new(), options };
        assert(texts(b.errors@) =~= Seq::<Seq<char>>::empty());
        b
    }

    /// The index of the next file to hand out.
    pub closed spec fn next_index(&self) -> nat {
        self.next as nat
    }

    /// How many files the run covers.
    pub closed spec fn total(&self) -> nat {
        self.total as nat
    }

    /// How many files were done.
    pub closed spec fn completed(&self) -> nat {
        self.completed as nat
    }

    /// The failures so far, in order.
    pub closed spec fn errors(&self) -> Seq<Seq<char>> {
        texts(self.errors@)
    }

    /// The options of the run.
    pub closed spec fn options(&self) -> NormalizationOptions {
        self.options
    }

    /// How many files the run covers.
    pub fn total_files(&self) -> (r: usize)
        ensures
            r == self.total(),
    {
        self.total
    }

    /// How many files were done.
    pub fn completed_files(&self) -> (r: usize)
        ensures
            r == self.completed(),
    {
        self.completed
    }

    /// The options of the run.
    pub fn job_options(&self) -> (r: &NormalizationOptions)
        ensures
            *r == self.options(),
    {
        &self.options
    }

    /// Hands out the next file, in increasing order, until all were handed out.
    pub fn take_next(&mut self) -> (r: Option<usize>)
        ensures
            old(self).next_index() < old(self).total() ==> r == Some(old(self).next_index() as usize)
                && final(self).next_index() == old(self).next_index() + 1,
            old(self).next_index() >= old(self).total() ==> r is None && final(self).next_index()
                == old(self).next_index(),
            final(self).total() == old(self).total(),
            final(self).completed() == old(self).completed(),
            final(self).errors() == old(self).errors(),
            final(self).options() == old(self).options(),
    {
        if self.next < self.total {
            let i = self.next;
            self.next = self.next + 1;
            Some(i)
        } else {
            None
        }
    }

    /// Records that a file was done, and its failure if it failed: the name
    /// of the file and the error.
    pub fn record(&mut self, failure: Option<(String, String)>)
        requires
            old(self).completed() < usize::MAX,
        ensures
            final(self).completed() == old(self).completed() + 1,
            final(self).errors() == (match failure {
                Some((name, error)) => old(self).errors().push(name@ + ": "@ + error@),
                None => old(self).errors(),
            }),
            final(self).next_index() == old(self).next_index(),
            final(self).total() == old(self).total(),
            final(self).options() == old(self).options(),
    {
        if let Some((name, error)) = failure {
            let s = failure_text(name, error.as_str());
            let ghost before = texts(self.errors@);
            let ghost sv = s@;
            self.errors.push(s);
            assert(texts(self.errors@) =~= before.push(sv));
        }
        self.completed = self.completed + 1;
    }

    /// The status once the run is over.
    pub fn finish_status(&self) -> (r: String)
        ensures
            r@ == batch_status(self.total(), self.errors()),
    {
        if self.errors.len() == 0 {
            let mut s = u64_text(self.total as u64);
            s.append(" archivo(s) normalizado(s) correctamente.");
            s
        } else {
            let n = self.errors.len();
            let done = if self.total >= n { self.total - n } else { 0 };
            let mut s = u64_text(done as u64);
            s.append(" completado(s), ");
            let e = u64_text(n as u64);
            s.append(e.as_str());
            s.append(" error(es). ");
            s.append(self.errors[0].as_str());
            assert(texts(self.errors@)[0] == self.errors@[0]@);
            s
        }
    }
}

} // verus!
