//! Rules of the in-app update: what is offered where, and what is said of it.
use crate::format::{format_mb, size_in};
use crate::http::extension;
use crate::strings::{
    chars_of, find_chars, first_index, occurs_at, push_text, same_text, string_of, trim, trimmed,
};
use vstd::prelude::*;

verus! {

pub const REPO_OWNER: &'static str = "finch-xu";

pub const REPO_NAME: &'static str = "GetCat";

/// Where a new version can be had when it cannot be installed from within.
pub const RELEASES_URL: &'static str = "https://github.com/finch-xu/GetCat/releases";

/// Milliseconds from the start to the first check.
pub const LAUNCH_CHECK_DELAY: u64 = 5000;

/// How the running program was installed. Only an installed one is replaced.
#[derive(Debug, Clone, Copy, PartialEq, Eq, Structural)]
pub enum InstallKind {
    Installed,
    /// A replacement would go to the wrong place.
    DevBuild,
    /// The system runs the program from a read-only place.
    Translocated,
}

/// What the user has set.
#[derive(Debug, Clone, Copy, PartialEq, Eq, Structural)]
pub struct AppSettings {
    pub check_updates_on_launch: bool,
}

impl Default for AppSettings {
    fn default() -> (r: AppSettings)
        ensures
            r.check_updates_on_launch,
    {
        AppSettings { check_updates_on_launch: true }
    }
}

/// The part of the file name by which the release for a platform is found.
pub open spec fn pattern_of(os: Seq<char>, arch: Seq<char>) -> Option<Seq<char>> {
    if os == "macos"@ && arch == "aarch64"@ {
        Some("macos-arm64.dmg"@)
    } else if os == "macos"@ && arch == "x86_64"@ {
        Some("macos-x64.dmg"@)
    } else if os == "linux"@ && arch == "x86_64"@ {
        Some("linux-x64.tar.gz"@)
    } else if os == "windows"@ && arch == "x86_64"@ {
        Some("windows-x64.exe"@)
    } else {
        None
    }
}

/// The part of the file name by which the release for a platform is found; there
/// is none for a platform without releases.
pub fn asset_pattern_for(os: &str, arch: &str) -> (r: Option<&'static str>)
    ensures
        match r {
            Some(p) => pattern_of(os@, arch@) == Some(p@),
            None => pattern_of(os@, arch@) is None,
        },
{
    if same_text(os, "macos") && same_text(arch, "aarch64") {
        Some("macos-arm64.dmg")
    } else if same_text(os, "macos") && same_text(arch, "x86_64") {
        Some("macos-x64.dmg")
    } else if same_text(os, "linux") && same_text(arch, "x86_64") {
        Some("linux-x64.tar.gz")
    } else if same_text(os, "windows") && same_text(arch, "x86_64") {
        Some("windows-x64.exe")
    } else {
        None
    }
}

/// How a program was installed, by its build and by the bundle that it runs from.
pub open spec fn kind_of(debug: bool, macos: bool, root: Option<Seq<char>>) -> InstallKind {
    if debug {
        InstallKind::DevBuild
    } else if !macos {
        InstallKind::Installed
    } else {
        match root {
            None => InstallKind::DevBuild,
            Some(path) => if first_index(path, "/AppTranslocation/"@, 0) is Some {
                InstallKind::Translocated
            } else if extension(path) != Some("app"@) {
                InstallKind::DevBuild
            } else {
                InstallKind::Installed
            },
        }
    }
}

/// How a program was installed. `root` is the bundle that it runs from; it counts
/// on macOS only.
pub fn install_kind_for(debug: bool, macos: bool, root: Option<&str>) -> (r: InstallKind)
    ensures
        r == kind_of(
            debug,
            macos,
            match root {
                Some(path) => Some(path@),
                None => None,
            },
        ),
{
    if debug {
        return InstallKind::DevBuild;
    }
    if !macos {
        return InstallKind::Installed;
    }
    match root {
        None => InstallKind::DevBuild,
        Some(path) => {
            let chars = chars_of(path);
            let mark = chars_of("/AppTranslocation/");
            proof {
                reveal_strlit("/AppTranslocation/");
            }
            if find_chars(chars.as_slice(), mark.as_slice(), 0).is_some() {
                return InstallKind::Translocated;
            }
            match crate::http::path_extension(path) {
                Some(ext) => if same_text(ext.as_str(), "app") {
                    InstallKind::Installed
                } else {
                    InstallKind::DevBuild
                },
                None => InstallKind::DevBuild,
            }
        },
    }
}

/// Where the line that starts at `from` ends.
pub open spec fn next_line(text: Seq<char>, from: int) -> int {
    match first_index(text, "\n"@, from) {
        Some(i) => i,
        None => text.len() as int,
    }
}

/// Whether a line carries a key: it is neither blank nor a comment.
pub open spec fn carries_key(line: Seq<char>) -> bool {
    let t = trimmed(line);
    t.len() > 0 && !occurs_at(t, "untrusted comment:"@, 0)
}

/// The key in a key file from offset `from` on.
pub open spec fn key_from(text: Seq<char>, from: int) -> Seq<char>
    decreases text.len() + 1 - from,
{
    if from < 0 || from >= text.len() {
        Seq::empty()
    } else {
        let end = next_line(text, from);
        if from <= end <= text.len() {
            let line = text.subrange(from, end);
            if carries_key(line) {
                trimmed(line)
            } else {
                key_from(text, end + 1)
            }
        } else {
            Seq::empty()
        }
    }
}

/// The key in the text of a key file: its first line that is neither blank nor a
/// comment; empty where there is none.
pub fn minisign_public_key(file: &str) -> (r: String)
    ensures
        r@ == key_from(file@, 0),
{
    let chars = chars_of(file);
    let comment = chars_of("untrusted comment:");
    let feed = ['\n'];
    proof {
        reveal_strlit("\n");
        reveal_strlit("untrusted comment:");
        assert(feed@ =~= "\n"@);
    }
    let mut from: usize = 0;
    while from < chars.len()
        invariant
            chars@ == file@,
            feed@ == "\n"@,
            feed@.len() == 1,
            comment@ == "untrusted comment:"@,
            comment@.len() > 0,
            key_from(file@, 0) == key_from(file@, from as int),
        decreases chars@.len() - from,
    {
        let n = chars.len();
        let end = match find_chars(chars.as_slice(), feed.as_slice(), from) {
            Some(i) => i,
            None => n,
        };
        let line = string_of(chars.as_slice(), from, end);
        let text = trim(line.as_str());
        let t = chars_of(text.as_str());
        let is_comment = match find_chars(t.as_slice(), comment.as_slice(), 0) {
            Some(i) => i == 0,
            None => false,
        };
        proof {
            crate::strings::lemma_first_index(t@, comment@, 0);
            assert(line@ =~= file@.subrange(from as int, end as int));
            assert(is_comment == occurs_at(t@, comment@, 0));
        }
        if t.len() > 0 && !is_comment {
            return text;
        }
        if end >= n {
            proof {
                reveal_with_fuel(key_from, 2);
            }
            return String::new();
        }
        from = end + 1;
    }
    String::new()
}

/// Whether the automatic check is made. `force` stands in for an installation.
pub fn launch_check_enabled(settings: &AppSettings, kind: InstallKind, force: bool) -> (r: bool)
    ensures
        r == (settings.check_updates_on_launch && (kind == InstallKind::Installed || force)),
{
    settings.check_updates_on_launch && (kind == InstallKind::Installed || force)
}

/// How far an update has come.
#[derive(Debug, PartialEq, Eq)]
pub enum UpdateStatus {
    Idle,
    Checking,
    UpToDate,
    /// A newer version, by its number.
    Available(String),
    Downloading { downloaded: u64, total: Option<u64> },
    Installing,
    /// Installed; a restart is missing.
    Staged(String),
    Errored(String),
}

impl Default for UpdateStatus {
    fn default() -> (r: UpdateStatus)
        ensures
            r is Idle,
    {
        UpdateStatus::Idle
    }
}

/// Whether the new version can be installed from within.
pub fn can_install(kind: InstallKind, status: &UpdateStatus) -> (r: bool)
    ensures
        r == (kind == InstallKind::Installed && *status is Available),
{
    kind == InstallKind::Installed && match status {
        UpdateStatus::Available(_) => true,
        _ => false,
    }
}

/// The version that the status bar points out, and whether only a restart is
/// missing.
pub fn hint_version(status: &UpdateStatus) -> (r: Option<(&String, bool)>)
    ensures
        match *status {
            UpdateStatus::Available(v) => r == Some((&v, false)),
            UpdateStatus::Staged(v) => r == Some((&v, true)),
            _ => r is None,
        },
{
    match status {
        UpdateStatus::Available(v) => Some((v, false)),
        UpdateStatus::Staged(v) => Some((v, true)),
        _ => None,
    }
}

/// One line about the update.
pub open spec fn status_text(status: UpdateStatus, current: Seq<char>) -> Seq<char> {
    match status {
        UpdateStatus::Idle => "Not checked yet (current v"@ + current + ")"@,
        UpdateStatus::Checking => "Checking for updates…"@,
        UpdateStatus::UpToDate => "Up to date (v"@ + current + ")"@,
        UpdateStatus::Available(v) => "v"@ + v@ + " is available"@,
        UpdateStatus::Downloading { downloaded, total } => match total {
            Some(n) => "Downloading "@ + size_in(downloaded as nat, 1) + " / "@ + size_in(
                n as nat,
                1,
            ),
            None => "Downloaded "@ + size_in(downloaded as nat, 1),
        },
        UpdateStatus::Installing => "Installing…"@,
        UpdateStatus::Staged(v) => "v"@ + v@ + " installed; restart to apply"@,
        UpdateStatus::Errored(e) => "Update failed: "@ + e@,
    }
}

fn join3(a: &str, b: &str, c: &str) -> (r: String)
    ensures
        r@ == a@ + b@ + c@,
{
    let mut out = a.to_owned();
    push_text(&mut out, b);
    push_text(&mut out, c);
    out
}

/// One line about the update, for a program of version `current`.
pub fn status_line(status: &UpdateStatus, current: &str) -> (r: String)
    ensures
        r@ == status_text(*status, current@),
{
    match status {
        UpdateStatus::Idle => join3("Not checked yet (current v", current, ")"),
        UpdateStatus::Checking => "Checking for updates…".to_owned(),
        UpdateStatus::UpToDate => join3("Up to date (v", current, ")"),
        UpdateStatus::Available(v) => join3("v", v.as_str(), " is available"),
        UpdateStatus::Downloading { downloaded, total } => {
            let done = format_mb(*downloaded);
            match total {
                Some(n) => {
                    let whole = format_mb(*n);
                    let mut out = join3("Downloading ", done.as_str(), " / ");
                    push_text(&mut out, whole.as_str());
                    out
                },
                None => {
                    let mut out = "Downloaded ".to_owned();
                    push_text(&mut out, done.as_str());
                    out
                },
            }
        },
        UpdateStatus::Installing => "Installing…".to_owned(),
        UpdateStatus::Staged(v) => join3("v", v.as_str(), " installed; restart to apply"),
        UpdateStatus::Errored(e) => {
            let mut out = "Update failed: ".to_owned();
            push_text(&mut out, e.as_str());
            out
        },
    }
}

} // verus!
