//! What a Windows shortcut (`.lnk`) points at.
use vstd::prelude::*;
use crate::wide::{from_wide, wide_text};

verus! {

/// Target, arguments, working directory and icon location of a shortcut;
/// `None` where the shortcut leaves the field blank.
#[derive(Debug, Clone, PartialEq, Eq)]
pub struct LnkInfo {
    pub target: Option<String>,
    pub arguments: Option<String>,
    pub working_dir: Option<String>,
    pub icon_location: Option<String>,
}

pub open spec fn text_view(o: Option<String>) -> Option<Seq<char>> {
    match o {
        Some(s) => Some(s@),
        None => None,
    }
}

impl LnkInfo {
    /// The shortcut's fields from the wide-character buffers the shell
    /// filled in: each is the buffer's text up to its first NUL, trimmed,
    /// `None` when blank.
    pub fn from_buffers(target: &[u16], arguments: &[u16], working_dir: &[u16], icon: &[u16]) -> (r: LnkInfo)
        ensures
            text_view(r.target) == wide_text(target@),
            text_view(r.arguments) == wide_text(arguments@),
            text_view(r.working_dir) == wide_text(working_dir@),
            text_view(r.icon_location) == wide_text(icon@),
    {
        LnkInfo {
            target: from_wide(target),
            arguments: from_wide(arguments),
            working_dir: from_wide(working_dir),
            icon_location: from_wide(icon),
        }
    }
}

} // verus!
