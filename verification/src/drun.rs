//! State of the dmenu-style module: lines piped in by the host, ranked
//! against the live query, with a keyboard selection.

use vstd::prelude::*;

use crate::module::ModuleMessage;
use crate::serworse::KvMap;
use crate::sorting;

verus! {

pub struct Drun {
    pub options: Vec<String>,
    pub text_input: String,
    pub selected_index: usize,
}

impl Drun {
    /// The selection stays on the list.
    pub open spec fn wf(&self) -> bool {
        self.selected_index <= self.options@.len()
    }

    pub fn new(input: Vec<String>) -> (r: Drun)
        ensures
            r.options == input,
            r.text_input@ == Seq::<char>::empty(),
            r.selected_index == 0,
            r.wf(),
    {
        Drun { options: input, text_input: String::new(), selected_index: 0 }
    }

    /// The line activating entry `index` writes out: the chosen option,
    /// or the raw input text when nothing was piped in.
    pub fn run_at_index(&self, index: usize) -> (out: &String)
        requires
            self.options@.len() == 0 || index < self.options@.len(),
        ensures
            self.options@.len() == 0 ==> out == &self.text_input,
            self.options@.len() > 0 ==> out == &self.options@[index as int],
    {
        if self.options.len() == 0 {
            &self.text_input
        } else {
            &self.options[index]
        }
    }

    /// A keystroke: resets the selection and re-ranks the options against
    /// the new input. No usage table weighs in here.
    pub fn handle_text_change(&mut self, input: &str)
        requires
            forall|k: int|
                0 <= k < old(self).options@.len() ==> (#[trigger] old(self).options@[k])@.len()
                    + 13 <= i32::MAX,
        ensures
            final(self).selected_index == 0,
            final(self).text_input == old(self).text_input,
            final(self).options@.len() == old(self).options@.len(),
            exists|ord: Seq<int>|
                sorting::rank_witness(
                    input@,
                    Seq::empty(),
                    old(self).options@,
                    final(self).options@,
                    ord,
                ),
            final(self).wf(),
    {
        self.selected_index = 0;
        let empty_usage: KvMap<u32> = KvMap::new();
        sorting::rank(input, &mut self.options, &empty_usage);
    }

    /// Moves the selection up one entry, stopping at the top.
    pub fn selection_up(&mut self)
        ensures
            final(self).selected_index == if old(self).selected_index >= 1 {
                (old(self).selected_index - 1) as usize
            } else {
                0
            },
            final(self).options == old(self).options,
            final(self).text_input == old(self).text_input,
    {
        if self.selected_index >= 1 {
            self.selected_index = self.selected_index - 1;
        }
    }

    /// Moves the selection down one entry, stopping at the last.
    pub fn selection_down(&mut self)
        requires
            old(self).wf(),
        ensures
            final(self).selected_index == if old(self).selected_index + 1 < old(
                self,
            ).options@.len() {
                (old(self).selected_index + 1) as usize
            } else {
                old(self).selected_index
            },
            final(self).options == old(self).options,
            final(self).text_input == old(self).text_input,
            final(self).wf(),
    {
        if self.options.len() > 0 && self.selected_index < self.options.len() - 1 {
            self.selected_index = self.selected_index + 1;
        }
    }

    /// The decision half of one host message: ranking and selection are
    /// handled here; the returned line, if any, is what the host writes
    /// to its output for an activation.
    pub fn update(&mut self, msg: &ModuleMessage) -> (out: Option<&String>)
        requires
            old(self).wf(),
            forall|k: int|
                0 <= k < old(self).options@.len() ==> (#[trigger] old(self).options@[k])@.len()
                    + 13 <= i32::MAX,
            msg matches ModuleMessage::ActivatedIndex(i) ==> old(self).options@.len() == 0 || i
                < old(self).options@.len(),
        ensures
            match msg {
                ModuleMessage::TextChanged(input) => out is None && final(self).selected_index == 0
                    && final(self).text_input == old(self).text_input && final(self).options@.len()
                    == old(self).options@.len() && exists|ord: Seq<int>|
                    sorting::rank_witness(
                        input@,
                        Seq::empty(),
                        old(self).options@,
                        final(self).options@,
                        ord,
                    ),
                ModuleMessage::ActivatedIndex(i) => *final(self) == *old(self) && (out matches Some(
                    v,
                ) && (if old(self).options@.len() == 0 {
                    v@ == old(self).text_input@
                } else {
                    v@ == old(self).options@[i as int]@
                })),
                ModuleMessage::SelectionUp => out is None && final(self).options == old(
                    self,
                ).options && final(self).text_input == old(self).text_input,
                ModuleMessage::SelectionDown => out is None && final(self).options == old(
                    self,
                ).options && final(self).text_input == old(self).text_input,
                _ => out is None && *final(self) == *old(self),
            },
    {
        match msg {
            ModuleMessage::TextChanged(input) => {
                self.handle_text_change(input.as_str());
                None
            },
            ModuleMessage::ActivatedIndex(i) => Some(self.run_at_index(*i)),
            ModuleMessage::SelectionUp => {
                self.selection_up();
                None
            },
            ModuleMessage::SelectionDown => {
                self.selection_down();
                None
            },
            _ => None,
        }
    }
}

} // verus!
