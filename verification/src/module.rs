//! The launcher's modules and the messages they exchange with the shell.

use vstd::prelude::*;

verus! {

/// Messages a module receives from the shell: the plain-data traffic.
/// Icon and web-image payloads stay with the host's rendering layer.
#[derive(Debug)]
pub enum ModuleMessage {
    TextChanged(String),
    SelectionUp,
    SelectionDown,
    ActivatedIndex(usize),
    FileMessage(crate::files::FileMsg),
    DoNothing,
}

#[derive(Debug, Clone, Hash, PartialEq, Eq, Structural)]
pub enum ModuleEnum {
    AppSearch,
    WebSearch,
    FileSearch,
    HelpScreen,
    Calculator,
}

/// The overview text of each module.
pub open spec fn spec_description(m: ModuleEnum) -> Seq<char> {
    match m {
        ModuleEnum::AppSearch => "Launch your installed apps"@,
        ModuleEnum::WebSearch => "Quick access to search different websites"@,
        ModuleEnum::FileSearch => "file search"@,
        ModuleEnum::HelpScreen => "help"@,
        ModuleEnum::Calculator => "calc"@,
    }
}

impl ModuleEnum {
    pub fn description(&self) -> (r: String)
        ensures
            r@ == spec_description(*self),
    {
        match self {
            ModuleEnum::AppSearch => String::from_str("Launch your installed apps"),
            ModuleEnum::WebSearch => String::from_str("Quick access to search different websites"),
            ModuleEnum::FileSearch => String::from_str("file search"),
            ModuleEnum::HelpScreen => String::from_str("help"),
            ModuleEnum::Calculator => String::from_str("calc"),
        }
    }
}

} // verus!
