//! State of the file-search module: the list of found files and the
//! keyboard selection over it. Walking the filesystem is the host's job;
//! it feeds found files in as messages.

use vstd::prelude::*;

use crate::module::ModuleMessage;
use crate::serworse::KvMap;
use crate::sorting;

verus! {

/// A found file: its display name and its full path.
#[derive(Debug)]
pub enum FileMsg {
    FoundFile((String, String)),
}

pub struct FileSearcher {
    /// File name, full path.
    pub found_files: Vec<(String, String)>,
    pub selected_index: usize,
    pub have_searched_files: bool,
}

impl FileSearcher {
    /// The selection stays on the list.
    pub open spec fn wf(&self) -> bool {
        self.selected_index <= self.found_files@.len()
    }

    pub fn new() -> (r: FileSearcher)
        ensures
            r.found_files@ == Seq::<(String, String)>::empty(),
            r.selected_index == 0,
            r.have_searched_files == false,
            r.wf(),
    {
        FileSearcher { found_files: Vec::new(), selected_index: 0, have_searched_files: false }
    }

    /// The path to open for entry `i`.
    pub fn run_at_index(&self, i: usize) -> (out: &String)
        requires
            i < self.found_files@.len(),
        ensures
            out == &self.found_files@[i as int].1,
    {
        &self.found_files[i].1
    }

    /// Records one found file.
    pub fn push_found(&mut self, f: (String, String))
        ensures
            final(self).found_files@ == old(self).found_files@.push(f),
            final(self).selected_index == old(self).selected_index,
            final(self).have_searched_files == old(self).have_searched_files,
    {
        self.found_files.push(f);
    }

    /// Moves the selection up one entry, stopping at the top.
    pub fn selection_up(&mut self)
        ensures
            final(self).selected_index == if old(self).selected_index >= 1 {
                (old(self).selected_index - 1) as usize
            } else {
                0
            },
            final(self).found_files == old(self).found_files,
            final(self).have_searched_files == old(self).have_searched_files,
    {
        if self.selected_index >= 1 {
            self.selected_index = self.selected_index - 1;
        }
    }

    /// Moves the selection down one entry, stopping at the last.
    pub fn selection_down(&mut self)
        requires
            old(self).wf(),
        ensures
            final(self).selected_index == if old(self).selected_index + 1 < old(
                self,
            ).found_files@.len() {
                (old(self).selected_index + 1) as usize
            } else {
                old(self).selected_index
            },
            final(self).found_files == old(self).found_files,
            final(self).have_searched_files == old(self).have_searched_files,
            final(self).wf(),
    {
        if self.found_files.len() > 0 && self.selected_index < self.found_files.len() - 1 {
            self.selected_index = self.selected_index + 1;
        }
    }

    /// A keystroke: re-ranks the found files against the new input, each
    /// scored by its display name. No usage table weighs in here.
    pub fn handle_text_change(&mut self, input: &str)
        requires
            forall|k: int|
                0 <= k < old(self).found_files@.len() ==> (#[trigger] old(
                    self,
                ).found_files@[k]).0@.len() + 13 <= i32::MAX,
        ensures
            final(self).found_files@.len() == old(self).found_files@.len(),
            final(self).selected_index == old(self).selected_index,
            final(self).have_searched_files == old(self).have_searched_files,
            ({
                let before = old(self).found_files@;
                let after = final(self).found_files@;
                exists|ord: Seq<int>|
                    sorting::rank_witness(
                        input@,
                        Seq::empty(),
                        sorting::pair_names(before),
                        sorting::pair_names(after),
                        ord,
                    ) && (forall|k: int|
                        0 <= k < after.len() ==> #[trigger] after[k] == before[ord[k]])
            }),
    {
        let ghost before = self.found_files@;
        let empty_usage: KvMap<u32> = KvMap::new();
        sorting::rank_pairs(input, &mut self.found_files, &empty_usage);
        proof {
            let after = self.found_files@;
            let ord = choose|ord: Seq<int>|
                sorting::rank_witness(
                    input@,
                    empty_usage@,
                    sorting::pair_names(before),
                    sorting::pair_names(after),
                    ord,
                ) && forall|k: int| 0 <= k < after.len() ==> #[trigger] after[k] == before[ord[k]];
            assert(sorting::rank_witness(
                input@,
                Seq::empty(),
                sorting::pair_names(before),
                sorting::pair_names(after),
                ord,
            ));
        }
    }

    /// The decision half of one host message: ranking, selection and the
    /// recording of found files happen here; the returned path, if any,
    /// is what the host opens for an activation. Whether to start the
    /// filesystem walk is a separate question the host asks through
    /// `take_should_search`.
    pub fn update(&mut self, msg: ModuleMessage) -> (out: Option<&String>)
        requires
            old(self).wf(),
            forall|k: int|
                0 <= k < old(self).found_files@.len() ==> (#[trigger] old(
                    self,
                ).found_files@[k]).0@.len() + 13 <= i32::MAX,
            msg matches ModuleMessage::ActivatedIndex(i) ==> i < old(self).found_files@.len(),
        ensures
            match msg {
                ModuleMessage::TextChanged(_) => out is None && final(self).selected_index == old(
                    self,
                ).selected_index && final(self).found_files@.len() == old(
                    self,
                ).found_files@.len(),
                ModuleMessage::ActivatedIndex(i) => *final(self) == *old(self) && (out matches Some(
                    v,
                ) && v == &old(self).found_files@[i as int].1),
                ModuleMessage::FileMessage(_) => out is None && final(self).found_files@.len()
                    == old(self).found_files@.len() + 1,
                _ => out is None,
            },
    {
        match msg {
            ModuleMessage::TextChanged(input) => {
                self.handle_text_change(input.as_str());
                None
            },
            ModuleMessage::ActivatedIndex(i) => Some(self.run_at_index(i)),
            ModuleMessage::SelectionUp => {
                self.selection_up();
                None
            },
            ModuleMessage::SelectionDown => {
                self.selection_down();
                None
            },
            ModuleMessage::FileMessage(FileMsg::FoundFile(f)) => {
                self.push_found(f);
                None
            },
            _ => None,
        }
    }

    /// Whether the host should start the one filesystem walk now; asks at
    /// most once.
    pub fn take_should_search(&mut self) -> (r: bool)
        ensures
            r == !old(self).have_searched_files,
            final(self).have_searched_files == true,
            final(self).found_files == old(self).found_files,
            final(self).selected_index == old(self).selected_index,
    {
        let r = !self.have_searched_files;
        self.have_searched_files = true;
        r
    }
}

} // verus!
