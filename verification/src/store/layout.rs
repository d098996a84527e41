//! Where the documents lie: the data directory and the names of its files.
use crate::model::{ulid_text, Ulid};
use crate::strings::{
    chars_of, decimal, occurs_at, opt_text, push_decimal, push_text, same_text, string_of,
};
use vstd::prelude::*;

verus! {

pub const REQUESTS_DIR: &'static str = "requests";

pub const DRAFTS_DIR: &'static str = "drafts";

pub const WORKSPACE_FILE: &'static str = "workspace.json";

pub const SETTINGS_FILE: &'static str = "settings.json";

pub const VARIABLES_FILE: &'static str = "variables.json";

/// The file of the request, or of the tab, with the given identifier.
pub open spec fn file_of(id: Ulid) -> Seq<char> {
    ulid_text(id.0) + ".json"@
}

/// The file of the request, or of the tab, with the given identifier. No other
/// has that file.
pub fn document_file(id: Ulid) -> (r: String)
    ensures
        r@ == file_of(id),
        forall|other: Ulid| #[trigger] file_of(other) == r@ ==> other == id,
{
    let mut out = id.text();
    push_text(&mut out, ".json");
    proof {
        assert forall|other: Ulid| #[trigger] file_of(other) == out@ implies other == id by {
            documents_have_files_of_their_own(other, id);
        }
    }
    out
}

/// No two identifiers have the same file.
pub proof fn documents_have_files_of_their_own(a: Ulid, b: Ulid)
    requires
        file_of(a) == file_of(b),
    ensures
        a == b,
{
    let x = ulid_text(a.0);
    let y = ulid_text(b.0);
    let n = ".json"@.len();
    assert(x =~= file_of(a).take(file_of(a).len() - n));
    assert(y =~= file_of(b).take(file_of(b).len() - n));
    crate::model::identifiers_have_texts_of_their_own(a.0, b.0);
}

/// Whether a file name is that of a document.
pub open spec fn names_document(name: Seq<char>) -> bool {
    occurs_at(name, ".json"@, name.len() - ".json"@.len())
}

/// Whether a file name is that of a document.
pub fn is_document(name: &str) -> (r: bool)
    ensures
        r == names_document(name@),
{
    let chars = chars_of(name);
    let suffix = chars_of(".json");
    let n = suffix.len();
    if chars.len() < n {
        return false;
    }
    let tail = string_of(chars.as_slice(), chars.len() - n, chars.len());
    proof {
        assert(tail@ =~= name@.subrange(name@.len() - n, name@.len() as int));
    }
    same_text(tail.as_str(), ".json")
}

/// The files of documents are found again, and a file that was set aside is not
/// taken for one.
pub proof fn documents_are_found_again(id: Ulid, stamp: nat)
    ensures
        names_document(file_of(id)),
        !names_document(file_of(id) + ".corrupt-"@ + decimal(stamp)),
{
    reveal_strlit(".json");
    assert(".json"@.len() == 5);
    let f = file_of(id);
    assert(f.subrange(f.len() - 5, f.len() as int) =~= ".json"@);
    let aside = f + ".corrupt-"@ + decimal(stamp);
    lemma_last_digit(stamp);
    assert(aside.last() == decimal(stamp).last());
    assert(".json"@[4] == 'n');
    if names_document(aside) {
        let tail = aside.subrange(aside.len() - 5, aside.len() as int);
        assert(tail[4] == aside.last());
    }
}

proof fn lemma_last_digit(n: nat)
    ensures
        decimal(n).len() > 0,
        '0' <= decimal(n).last() <= '9',
{
}

/// The name under which a damaged file is set aside, at the given time.
pub fn set_aside(name: &str, stamp: u64) -> (r: String)
    ensures
        r@ == name@ + ".corrupt-"@ + decimal(stamp as nat),
{
    let mut out = name.to_owned();
    push_text(&mut out, ".corrupt-");
    push_decimal(&mut out, stamp as u128);
    out
}

/// The data directory of a user, by the names that the system gives it: the home
/// directory, the directory for data, and the roaming directory.
pub open spec fn data_dir_of(
    os: Seq<char>,
    home: Option<Seq<char>>,
    data_home: Option<Seq<char>>,
    roaming: Option<Seq<char>>,
) -> Option<Seq<char>> {
    if os == "macos"@ {
        match home {
            Some(h) => Some(h + "/Library/Application Support/GetCat"@),
            None => None,
        }
    } else if os == "windows"@ {
        match roaming {
            Some(r) => Some(r + "\\GetCat\\data"@),
            None => None,
        }
    } else {
        match data_home {
            Some(d) => if d.len() > 0 {
                Some(d + "/getcat"@)
            } else {
                match home {
                    Some(h) => Some(h + "/.local/share/getcat"@),
                    None => None,
                }
            },
            None => match home {
                Some(h) => Some(h + "/.local/share/getcat"@),
                None => None,
            },
        }
    }
}

fn under(dir: Option<&str>, rest: &str) -> (r: Option<String>)
    ensures
        opt_text(r) == (match dir {
            Some(d) => Some(d@ + rest@),
            None => None,
        }),
{
    match dir {
        Some(d) => {
            let mut out = d.to_owned();
            push_text(&mut out, rest);
            Some(out)
        },
        None => None,
    }
}

/// The data directory of a user; `None` where it cannot be told.
pub fn data_dir(
    os: &str,
    home: Option<&str>,
    data_home: Option<&str>,
    roaming: Option<&str>,
) -> (r: Option<String>)
    ensures
        opt_text(r) == data_dir_of(
            os@,
            (match home {
                Some(t) => Some(t@),
                None => None,
            }),
            (match data_home {
                Some(t) => Some(t@),
                None => None,
            }),
            (match roaming {
                Some(t) => Some(t@),
                None => None,
            }),
        ),
{
    if same_text(os, "macos") {
        return under(home, "/Library/Application Support/GetCat");
    }
    if same_text(os, "windows") {
        return under(roaming, "\\GetCat\\data");
    }
    match data_home {
        Some(d) => if d.unicode_len() > 0 {
            under(data_home, "/getcat")
        } else {
            under(home, "/.local/share/getcat")
        },
        None => under(home, "/.local/share/getcat"),
    }
}

} // verus!
