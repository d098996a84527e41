//! What is known of a response once it has arrived, and where its body goes.
use crate::http::same_header;
use crate::model::{Duration, ResponseMeta};
use crate::strings::{
    decimal, decode_lossy, lossy_utf8, opt_text, padded, push_decimal, push_padded, push_text,
    texts_equal_ignoring_case,
};
use crate::url::pairs_view;
use vstd::prelude::*;

verus! {

/// Headers as they arrived: names, and values as bytes.
pub open spec fn raw_view(headers: Seq<(String, Vec<u8>)>) -> Seq<(Seq<char>, Seq<u8>)> {
    headers.map_values(|h: (String, Vec<u8>)| (h.0@, h.1@))
}

/// The headers as text.
pub open spec fn header_texts(headers: Seq<(Seq<char>, Seq<u8>)>) -> Seq<(Seq<char>, Seq<char>)> {
    headers.map_values(|h: (Seq<char>, Seq<u8>)| (h.0, lossy_utf8(h.1)))
}

/// Whether a header value reads as text: visible ASCII, blanks and tabs.
pub open spec fn is_plain(value: Seq<u8>) -> bool {
    forall|i: int| 0 <= i < value.len() ==> 32 <= #[trigger] value[i] < 127 || value[i] == 9
}

/// The content type that the first header of that name gives, where it reads as
/// text.
pub open spec fn content_type_in(headers: Seq<(Seq<char>, Seq<u8>)>) -> Option<Seq<char>>
    decreases headers.len(),
{
    if headers.len() == 0 {
        None
    } else if same_header(headers[0].0, "content-type"@) {
        if is_plain(headers[0].1) {
            Some(vstd::utf8::decode_utf8(headers[0].1))
        } else {
            None
        }
    } else {
        content_type_in(headers.skip(1))
    }
}

fn reads_as_text(value: &Vec<u8>) -> (r: bool)
    ensures
        r == is_plain(value@),
{
    let mut i: usize = 0;
    while i < value.len()
        invariant
            i <= value@.len(),
            forall|k: int| 0 <= k < i ==> 32 <= #[trigger] value@[k] < 127 || value@[k] == 9,
        decreases value@.len() - i,
    {
        let b = value[i];
        if !((32 <= b && b < 127) || b == 9) {
            return false;
        }
        i = i + 1;
    }
    true
}

fn find_content_type(headers: &Vec<(String, Vec<u8>)>) -> (r: Option<String>)
    ensures
        opt_text(r) == content_type_in(raw_view(headers@)),
{
    let ghost all = raw_view(headers@);
    let mut i: usize = 0;
    proof {
        assert(all.skip(0) =~= all);
    }
    while i < headers.len()
        invariant
            i <= headers@.len(),
            all == raw_view(headers@),
            content_type_in(all) == content_type_in(all.skip(i as int)),
        decreases headers@.len() - i,
    {
        proof {
            assert(all.skip(i as int)[0] == (headers@[i as int].0@, headers@[i as int].1@));
            assert(all.skip(i as int).skip(1) =~= all.skip(i + 1));
        }
        if texts_equal_ignoring_case(headers[i].0.as_str(), "content-type") {
            let value = &headers[i].1;
            if !reads_as_text(value) {
                return None;
            }
            proof {
                crate::body::text::lemma_ascii_is_valid(value@);
            }
            return Some(decode_lossy(value.as_slice()));
        }
        i = i + 1;
    }
    None
}

/// What is known of a response: its status, its headers as text, how long it took
/// and how long its body is.
pub fn meta_of(
    status: u16,
    reason: Option<&str>,
    headers: Vec<(String, Vec<u8>)>,
    duration: Duration,
    body_len: u64,
) -> (r: ResponseMeta)
    ensures
        r.status == status,
        r.status_text@ == match reason {
            Some(text) => text@,
            None => Seq::<char>::empty(),
        },
        pairs_view(r.headers@) == header_texts(raw_view(headers@)),
        r.duration == duration,
        r.body_len == body_len,
        opt_text(r.content_type) == content_type_in(raw_view(headers@)),
{
    let mut texts: Vec<(String, String)> = Vec::new();
    let mut i: usize = 0;
    while i < headers.len()
        invariant
            i <= headers@.len(),
            texts@.len() == i,
            forall|k: int|
                0 <= k < i ==> (#[trigger] texts@[k]).0@ == headers@[k].0@ && texts@[k].1@
                    == lossy_utf8(headers@[k].1@),
        decreases headers@.len() - i,
    {
        texts.push((headers[i].0.clone(), decode_lossy(headers[i].1.as_slice())));
        i = i + 1;
    }
    proof {
        assert(pairs_view(texts@) =~= header_texts(raw_view(headers@)));
    }
    let status_text = match reason {
        Some(text) => text.to_owned(),
        None => String::new(),
    };
    let content_type = find_content_type(&headers);
    ResponseMeta { status, status_text, headers: texts, duration, body_len, content_type }
}

/// The name of the directory that the process with the given number writes bodies
/// to.
pub fn session_dir_name(pid: u32) -> (r: String)
    ensures
        r@ == "getcat-"@ + decimal(pid as nat),
{
    let mut out = "getcat-".to_owned();
    push_decimal(&mut out, pid as u128);
    out
}

/// The name of the file that the `n`-th body on disk is written to.
pub open spec fn spill_name(n: nat) -> Seq<char> {
    padded(n, 6) + ".body"@
}

/// The name of the file that the `n`-th body on disk is written to.
pub fn spill_file_name(n: u64) -> (r: String)
    ensures
        r@ == spill_name(n as nat),
{
    let mut out = String::new();
    push_padded(&mut out, n as u128, 6);
    push_text(&mut out, ".body");
    proof {
        assert(out@ =~= spill_name(n as nat));
    }
    out
}

/// No two bodies are written to the same file.
pub proof fn spill_names_are_distinct(a: nat, b: nat)
    requires
        spill_name(a) == spill_name(b),
    ensures
        a == b,
{
    let k = padded(a, 6).len() as int;
    assert(spill_name(a).len() == padded(a, 6).len() + ".body"@.len());
    assert(spill_name(b).len() == padded(b, 6).len() + ".body"@.len());
    assert(spill_name(a).take(k) =~= padded(a, 6));
    assert(spill_name(b).take(k) =~= padded(b, 6));
    crate::strings::padded_numbers_are_distinct(a, b, 6);
}

} // verus!
