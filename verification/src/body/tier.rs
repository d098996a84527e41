//! How a response text is shown, by its size.
use vstd::prelude::*;

verus! {

/// Largest text, in bytes, that the read-only editor is given.
pub const EDITOR_MAX_BYTES: usize = 5242880;

/// Largest number of lines that the read-only editor is given.
pub const EDITOR_MAX_LINES: usize = 200000;

#[derive(Debug, Clone, Copy, PartialEq, Eq, Structural)]
pub enum ViewTier {
    /// Read-only editor with highlighting and search.
    Editor,
    /// Plain virtual list of lines.
    Virtual,
    /// The body was written to disk; only its head is shown.
    Preview,
}

impl ViewTier {
    /// One line for the user; the editor tier needs none.
    pub fn notice(self) -> (r: Option<&'static str>)
        ensures
            match self {
                ViewTier::Editor => r is None,
                ViewTier::Virtual => r is Some && r->0@ == "大响应：已切换为纯文本模式"@,
                ViewTier::Preview => r is Some && r->0@
                    == "响应超过 64 MB，已写入临时文件，仅预览前 1 MB"@,
            },
    {
        match self {
            ViewTier::Editor => None,
            ViewTier::Virtual => Some("大响应：已切换为纯文本模式"),
            ViewTier::Preview => Some("响应超过 64 MB，已写入临时文件，仅预览前 1 MB"),
        }
    }
}

/// The tier of a text of the given size that is held in memory.
pub open spec fn tier_for(bytes: int, lines: int) -> ViewTier {
    if bytes <= EDITOR_MAX_BYTES && lines <= EDITOR_MAX_LINES {
        ViewTier::Editor
    } else {
        ViewTier::Virtual
    }
}

/// Picks the tier of a text that is held in memory.
pub fn select_tier(bytes: usize, lines: usize) -> (r: ViewTier)
    ensures
        r == tier_for(bytes as int, lines as int),
{
    if bytes <= EDITOR_MAX_BYTES && lines <= EDITOR_MAX_LINES {
        ViewTier::Editor
    } else {
        ViewTier::Virtual
    }
}

} // verus!
