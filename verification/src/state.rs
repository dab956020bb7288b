use vstd::prelude::*;
use crate::records::{HeaderParams, IncludeParams, InfoParams, PostingParams, VerificationParams};

verus! {

/// The mutable collector threaded through parsing: file registry, include
/// stack, statement counter and the five accumulator vectors.
pub struct LedgerState {
    pub input_files: Vec<String>,
    pub current_file_no: Vec<u32>,
    pub current_filepath: Vec<String>,
    pub previous_position: Vec<u32>,
    pub statement_no: u32,
    pub line_count: u32,
    pub transaction_no: u32,
    pub transactions: Vec<HeaderParams>,
    pub postings: Vec<PostingParams>,
    pub verifications: Vec<VerificationParams>,
    pub includes: Vec<IncludeParams>,
    pub informationals: Vec<InfoParams>,
}

impl LedgerState {
    /// Registry and stack are consistent: one recorded position per
    /// registered file, and the stack names registered files.
    pub open spec fn registry_ok(self) -> bool {
        &&& self.previous_position.len() == self.input_files.len()
        &&& self.current_file_no.len() == self.current_filepath.len()
        &&& forall|i: int|
            0 <= i < self.current_file_no.len() ==> (#[trigger] self.current_file_no[i])
                < self.input_files.len()
        &&& forall|i: int|
            0 <= i < self.current_file_no.len() ==> #[trigger] self.current_filepath[i]@
                == self.input_files[self.current_file_no[i] as int]@
        &&& forall|i: int, j: int|
            0 <= i < j < self.input_files.len() ==> #[trigger] self.input_files[i]@
                != #[trigger] self.input_files[j]@
    }

    /// The statement numbers already handed out never exceed the counter.
    pub open spec fn numbering_ok(self) -> bool {
        &&& forall|i: int|
            0 <= i < self.transactions.len() ==> (#[trigger] self.transactions[i]).statement_no
                <= self.statement_no
        &&& forall|i: int|
            0 <= i < self.postings.len() ==> (#[trigger] self.postings[i]).statement_no
                <= self.statement_no
        &&& forall|i: int|
            0 <= i < self.verifications.len() ==> (#[trigger] self.verifications[i]).statement_no
                <= self.statement_no
        &&& forall|i: int|
            0 <= i < self.informationals.len() ==> (#[trigger] self.informationals[i]).statement_no
                <= self.statement_no
        &&& forall|i: int|
            0 <= i < self.includes.len() ==> (#[trigger] self.includes[i]).statement_no
                <= self.statement_no
    }

    /// Each accumulator of directly emitted records is strictly increasing
    /// on `statement_no`: lexical source order is preserved.
    pub open spec fn emission_sorted(self) -> bool {
        &&& forall|i: int, j: int|
            0 <= i < j < self.transactions.len() ==> (#[trigger] self.transactions[i]).statement_no
                < (#[trigger] self.transactions[j]).statement_no
        &&& forall|i: int, j: int|
            0 <= i < j < self.postings.len() ==> (#[trigger] self.postings[i]).statement_no
                < (#[trigger] self.postings[j]).statement_no
        &&& forall|i: int, j: int|
            0 <= i < j < self.verifications.len()
                ==> (#[trigger] self.verifications[i]).statement_no
                < (#[trigger] self.verifications[j]).statement_no
        &&& forall|i: int, j: int|
            0 <= i < j < self.informationals.len()
                ==> (#[trigger] self.informationals[i]).statement_no
                < (#[trigger] self.informationals[j]).statement_no
    }

    /// Position already recorded for the innermost file of the stack.
    pub open spec fn active_prev(self) -> int {
        self.previous_position@[self.current_file_no@.last() as int] as int
    }

    pub open spec fn has_active_file(self) -> bool {
        self.current_file_no.len() > 0
    }

    pub fn new() -> (s: LedgerState)
        ensures
            s.input_files@.len() == 0,
            s.current_file_no@.len() == 0,
            s.current_filepath@.len() == 0,
            s.previous_position@.len() == 0,
            s.statement_no == 0,
            s.line_count == 0,
            s.transaction_no == 0,
            s.transactions@.len() == 0,
            s.postings@.len() == 0,
            s.verifications@.len() == 0,
            s.includes@.len() == 0,
            s.informationals@.len() == 0,
            s.registry_ok(),
            s.numbering_ok(),
            s.emission_sorted(),
    {
        LedgerState {
            input_files: Vec::new(),
            current_file_no: Vec::new(),
            current_filepath: Vec::new(),
            previous_position: Vec::new(),
            statement_no: 0,
            line_count: 0,
            transaction_no: 0,
            transactions: Vec::new(),
            postings: Vec::new(),
            verifications: Vec::new(),
            includes: Vec::new(),
            informationals: Vec::new(),
        }
    }

    /// Whether a path is already registered, and under which file number.
    pub fn lookup_file(&self, f: &String) -> (r: Option<u32>)
        requires
            self.registry_ok(),
            self.input_files@.len() <= u32::MAX,
        ensures
            match r {
                Some(n) => n < self.input_files@.len() && self.input_files@[n as int]@ == f@,
                None => forall|i: int|
                    0 <= i < self.input_files@.len() ==> (#[trigger] self.input_files@[i])@ != f@,
            },
    {
        let mut i: usize = 0;
        while i < self.input_files.len()
            invariant
                i <= self.input_files@.len(),
                self.input_files@.len() <= u32::MAX,
                forall|k: int| 0 <= k < i ==> (#[trigger] self.input_files@[k])@ != f@,
            decreases self.input_files@.len() - i,
        {
            if self.input_files[i].eq(f) {
                return Some(i as u32);
            }
            i = i + 1;
        }
        None
    }

    /// Register a path if it is new, pushing it onto the active-file stack
    /// and starting its recorded position at zero.
    pub fn insert(&mut self, f: String)
        requires
            old(self).registry_ok(),
            old(self).input_files@.len() < u32::MAX,
            forall|i: int|
                0 <= i < old(self).input_files@.len() ==> (#[trigger] old(
                    self,
                ).input_files@[i])@ != f@,
        ensures
            final(self).registry_ok(),
            final(self).input_files@ == old(self).input_files@.push(f),
            final(self).current_file_no@ == old(self).current_file_no@.push(
                old(self).input_files@.len() as u32,
            ),
            final(self).current_filepath@ == old(self).current_filepath@.push(f),
            final(self).previous_position@ == old(self).previous_position@.push(0u32),
            final(self).statement_no == old(self).statement_no,
            final(self).transaction_no == old(self).transaction_no,
            final(self).line_count == old(self).line_count,
            final(self).transactions@ == old(self).transactions@,
            final(self).postings@ == old(self).postings@,
            final(self).verifications@ == old(self).verifications@,
            final(self).includes@ == old(self).includes@,
            final(self).informationals@ == old(self).informationals@,
            final(self).has_active_file(),
            final(self).active_prev() == 0,
    {
        let n = self.input_files.len() as u32;
        self.input_files.push(f.clone());
        self.current_file_no.push(n);
        self.current_filepath.push(f);
        self.previous_position.push(0);
    }

    /// Statement-boundary advance: fold the distance from the last recorded
    /// position of the active file into the global counter.
    pub fn statement_no(&mut self, r_start: u32) -> (n: u32)
        requires
            old(self).registry_ok(),
            old(self).has_active_file(),
            old(self).active_prev() <= r_start,
            old(self).statement_no + r_start - old(self).active_prev() <= u32::MAX,
        ensures
            final(self).registry_ok(),
            n == old(self).statement_no + r_start - old(self).active_prev(),
            final(self).statement_no == n,
            final(self).active_prev() == r_start,
            final(self).statement_no >= old(self).statement_no,
            final(self).input_files@ == old(self).input_files@,
            final(self).current_file_no@ == old(self).current_file_no@,
            final(self).current_filepath@ == old(self).current_filepath@,
            final(self).previous_position@ == old(self).previous_position@.update(
                old(self).current_file_no@.last() as int,
                r_start,
            ),
            final(self).transaction_no == old(self).transaction_no,
            final(self).line_count == old(self).line_count,
            final(self).transactions@ == old(self).transactions@,
            final(self).postings@ == old(self).postings@,
            final(self).verifications@ == old(self).verifications@,
            final(self).includes@ == old(self).includes@,
            final(self).informationals@ == old(self).informationals@,
    {
        let active = self.current_file_no[self.current_file_no.len() - 1];
        let prev = self.previous_position[active as usize];
        self.statement_no = self.statement_no + (r_start - prev);
        self.previous_position.set(active as usize, r_start);
        self.statement_no
    }

    pub fn get_current_filepath(&self) -> (r: Option<String>)
        ensures
            match r {
                Some(p) => self.current_filepath@.len() > 0 && p@
                    == self.current_filepath@.last()@,
                None => self.current_filepath@.len() == 0,
            },
    {
        let current = self.current_filepath.len();
        if current == 0 {
            None
        } else {
            Some(self.current_filepath[current - 1].clone())
        }
    }

    pub fn get_file_no(&self) -> (r: Option<u32>)
        ensures
            match r {
                Some(n) => self.current_file_no@.len() > 0 && n == self.current_file_no@.last(),
                None => self.current_file_no@.len() == 0,
            },
    {
        let current = self.current_file_no.len();
        if current == 0 {
            None
        } else {
            Some(self.current_file_no[current - 1])
        }
    }

    /// Close out an included file: absorb its tail into the counter, then
    /// pop the stack back to the including file.
    pub fn finished_include(&mut self, n: u32)
        requires
            old(self).registry_ok(),
            old(self).has_active_file(),
            old(self).active_prev() <= n,
            old(self).statement_no + n - old(self).active_prev() <= u32::MAX,
        ensures
            final(self).registry_ok(),
            final(self).statement_no == old(self).statement_no + n - old(self).active_prev(),
            final(self).statement_no >= old(self).statement_no,
            final(self).input_files@ == old(self).input_files@,
            final(self).previous_position@ == old(self).previous_position@.update(
                old(self).current_file_no@.last() as int,
                n,
            ),
            final(self).current_file_no@ == old(self).current_file_no@.drop_last(),
            final(self).current_filepath@ == old(self).current_filepath@.drop_last(),
            final(self).transaction_no == old(self).transaction_no,
            final(self).line_count == old(self).line_count,
            final(self).transactions@ == old(self).transactions@,
            final(self).postings@ == old(self).postings@,
            final(self).verifications@ == old(self).verifications@,
            final(self).includes@ == old(self).includes@,
            final(self).informationals@ == old(self).informationals@,
    {
        let active = self.current_file_no[self.current_file_no.len() - 1];
        let prev = self.previous_position[active as usize];
        self.statement_no = self.statement_no + (n - prev);
        self.previous_position.set(active as usize, n);
        let _ = self.current_file_no.pop();
        let _ = self.current_filepath.pop();
    }

    /// The recorded position of the innermost active file.
    pub fn active_prev_pos(&self) -> (r: u32)
        requires
            self.registry_ok(),
            self.has_active_file(),
        ensures
            r == self.active_prev(),
    {
        let active = self.current_file_no[self.current_file_no.len() - 1];
        self.previous_position[active as usize]
    }

    /// Hand out the next row number for an importer from the shared line
    /// counter.
    pub fn next_line_no(&mut self) -> (n: u32)
        requires
            old(self).line_count < u32::MAX,
        ensures
            n == old(self).line_count,
            final(self).line_count == old(self).line_count + 1,
            final(self).input_files@ == old(self).input_files@,
            final(self).current_file_no@ == old(self).current_file_no@,
            final(self).current_filepath@ == old(self).current_filepath@,
            final(self).previous_position@ == old(self).previous_position@,
            final(self).statement_no == old(self).statement_no,
            final(self).transaction_no == old(self).transaction_no,
            final(self).transactions@ == old(self).transactions@,
            final(self).postings@ == old(self).postings@,
            final(self).verifications@ == old(self).verifications@,
            final(self).includes@ == old(self).includes@,
            final(self).informationals@ == old(self).informationals@,
    {
        let n = self.line_count;
        self.line_count = self.line_count + 1;
        n
    }
}

} // verus!
