//! From a resolved call to the edit that puts the right hash in place.

use vstd::prelude::*;
use vstd::string::*;
use vstd::utf8::*;
use crate::model::{
    Failure, FetchAction, Fetcher, InsertInBetween, UpdateFetcher, UpdateFetcherError,
    UpdateFetcherInput,
};
use crate::resolve::strippable;
use crate::text::{is_text_range, lemma_boundary_after_ascii, slice_str, text_of};

verus! {

broadcast use encode_utf8_valid_utf8;

/// `call` delimits a hash value inside an argument block of `src`, and
/// the value's first and last byte can be stripped.
pub open spec fn valid_call(src: Seq<u8>, call: UpdateFetcherInput) -> bool {
    let h = call.old_hash_attr;
    let a = call.argument;
    &&& is_text_range(src, a.start as int, a.end as int)
    &&& is_text_range(src, h.start as int, h.end as int)
    &&& a.start <= h.start && h.end <= a.end
    &&& strippable(src, h)
}

/// The hash at `call`, without its quotes.
pub open spec fn old_hash_of(src: Seq<u8>, call: UpdateFetcherInput) -> Seq<char> {
    text_of(src, call.old_hash_attr.start + 1, call.old_hash_attr.end - 1)
}

/// The argument block with its hash value replaced by an empty string.
pub open spec fn probe_of(src: Seq<u8>, call: UpdateFetcherInput) -> Seq<char> {
    let h = call.old_hash_attr;
    let a = call.argument;
    if old_hash_of(src, call).len() == 0 {
        text_of(src, a.start as int, a.end as int)
    } else {
        text_of(src, a.start as int, h.start as int) + "\"\""@ + text_of(
            src,
            h.end as int,
            a.end as int,
        )
    }
}

/// The expression that has the build tool fetch with `fetcher` and report
/// the hash of what it got.
pub open spec fn fetch_expression(fetcher: Fetcher, probe: Seq<char>) -> Seq<char> {
    match fetcher {
        Fetcher::FetchFromGitHub => "with import <nixpkgs> {}; fetchFromGitHub "@ + probe,
    }
}

/// The bytes of `got:    `, which precede the hash in the build tool's report.
pub open spec fn hash_marker() -> Seq<u8> {
    seq![103u8, 111u8, 116u8, 58u8, 32u8, 32u8, 32u8, 32u8]
}

/// `needle` occurs in `hay` at `j`.
pub open spec fn occurs_at(hay: Seq<u8>, needle: Seq<u8>, j: int) -> bool {
    &&& 0 <= j
    &&& j + needle.len() <= hay.len()
    &&& hay.subrange(j, j + needle.len()) == needle
}

/// The first place, from `i` on, where `needle` occurs in `hay`.
pub open spec fn first_occurrence(hay: Seq<u8>, needle: Seq<u8>, i: int) -> Option<int>
    decreases hay.len() + 1 - i,
{
    if i < 0 || i + needle.len() > hay.len() {
        None
    } else if occurs_at(hay, needle, i) {
        Some(i)
    } else {
        first_occurrence(hay, needle, i + 1)
    }
}

/// The hash that the build tool's report `out` gives: the text after the
/// first marker, up to the next line break.
pub open spec fn hash_from_output(out: Seq<u8>) -> Option<Seq<char>> {
    match first_occurrence(out, hash_marker(), 0) {
        None => None,
        Some(s) => match first_occurrence(out, seq![10u8], s + 8) {
            None => None,
            Some(e) => Some(text_of(out, s + 8, e)),
        },
    }
}

/// The text of `src` with `edit` applied.
pub open spec fn apply_edit(src: Seq<u8>, edit: InsertInBetween) -> Seq<char> {
    text_of(src, 0, edit.prefix_offset as int) + edit.to_insert@ + text_of(
        src,
        edit.suffix_offset as int,
        src.len() as int,
    )
}

/// The update made at `call` once the build tool reported `new_hash`.
pub open spec fn update_made(
    src: Seq<u8>,
    call: UpdateFetcherInput,
    new_hash: Seq<char>,
    r: UpdateFetcher,
) -> bool {
    &&& r.modification.prefix_offset == call.old_hash_attr.start
    &&& r.modification.suffix_offset == call.old_hash_attr.end
    &&& r.modification.to_insert@ == new_hash
    &&& r.action.fetcher == call.fetcher
    &&& r.action.old_hash@ == old_hash_of(src, call)
    &&& r.action.new_hash@ == new_hash
}

impl InsertInBetween {
    /// The text of `original` with this edit applied.
    pub fn modify(&self, original: &str) -> (r: String)
        requires
            is_text_range(original.spec_bytes(), self.prefix_offset as int, self.suffix_offset as int),
        ensures
            r@ == apply_edit(original.spec_bytes(), *self),
    {
        proof {
            is_char_boundary_start_end_of_seq(original.spec_bytes());
        }
        let n = original.as_bytes().len();
        assert(n == original.spec_bytes().len());
        let mut r = String::from_str(slice_str(original, 0, self.prefix_offset));
        r.append(self.to_insert.as_str());
        r.append(slice_str(original, self.suffix_offset, n));
        r
    }
}

/// The hash at `call` in `source`, without its quotes.
pub fn old_hash(source: &str, call: UpdateFetcherInput) -> (r: String)
    requires
        valid_call(source.spec_bytes(), call),
    ensures
        r@ == old_hash_of(source.spec_bytes(), call),
{
    String::from_str(
        slice_str(source, call.old_hash_attr.start + 1, call.old_hash_attr.end - 1),
    )
}

/// The argument block at `call` with its hash value blanked, as handed to
/// the build tool.
pub fn probe_argument(source: &str, call: UpdateFetcherInput) -> (r: String)
    requires
        valid_call(source.spec_bytes(), call),
    ensures
        r@ == probe_of(source.spec_bytes(), call),
{
    let h = call.old_hash_attr;
    let a = call.argument;
    let old = slice_str(source, h.start + 1, h.end - 1);
    if old.is_empty() {
        String::from_str(slice_str(source, a.start, a.end))
    } else {
        let mut r = String::from_str(slice_str(source, a.start, h.start));
        r.append("\"\"");
        r.append(slice_str(source, h.end, a.end));
        r
    }
}

/// The expression that has the build tool fetch `probe` with `fetcher`.
pub fn fetcher_expression(fetcher: Fetcher, probe: &str) -> (r: String)
    ensures
        r@ == fetch_expression(fetcher, probe@),
{
    match fetcher {
        Fetcher::FetchFromGitHub => {
            let mut r = String::from_str("with import <nixpkgs> {}; fetchFromGitHub ");
            r.append(probe);
            r
        },
    }
}

fn find_from(hay: &[u8], needle: &[u8], from: usize) -> (r: Option<usize>)
    ensures
        match r {
            Some(j) => first_occurrence(hay@, needle@, from as int) == Some(j as int) && from <= j
                && occurs_at(hay@, needle@, j as int),
            None => first_occurrence(hay@, needle@, from as int) is None,
        },
{
    let mut i = from;
    let hn = hay.len();
    if needle.len() > hay.len() {
        return None;
    }
    while i <= hay.len() - needle.len()
        invariant
            from <= i,
            hn == hay@.len(),
            needle@.len() <= hay@.len(),
            first_occurrence(hay@, needle@, from as int) == first_occurrence(hay@, needle@, i as int),
        decreases hay@.len() - i,
    {
        let mut k: usize = 0;
        while k < needle.len() && hay[i + k] == needle[k]
            invariant
                hn == hay@.len(),
                i + needle@.len() <= hay@.len(),
                k <= needle@.len(),
                forall|m: int| 0 <= m < k ==> hay@[i + m] == needle@[m],
            decreases needle@.len() - k,
        {
            k = k + 1;
        }
        if k == needle.len() {
            assert(hay@.subrange(i as int, i + needle@.len()) =~= needle@);
            return Some(i);
        }
        assert(hay@[i + k] != needle@[k as int]);
        assert(hay@.subrange(i as int, i + needle@.len())[k as int] != needle@[k as int]);
        i = i + 1;
    }
    None
}

/// Where the marker occurs in valid UTF-8, the text after it starts on a
/// character boundary.
proof fn lemma_marker_ends_on_boundary(b: Seq<u8>, s: int)
    requires
        valid_utf8(b),
        occurs_at(b, hash_marker(), s),
    ensures
        is_char_boundary(b, s + 8),
{
    let m = hash_marker();
    assert forall|k: int| 0 <= k < 8 implies b[s + k] == #[trigger] m[k] by {
        assert(b.subrange(s, s + 8)[k] == b[s + k]);
    }
    assert(b[s] == 103u8 && b[s + 1] == 111u8 && b[s + 2] == 116u8 && b[s + 3] == 58u8);
    assert(b[s + 4] == 32u8 && b[s + 5] == 32u8 && b[s + 6] == 32u8 && b[s + 7] == 32u8);
    is_char_boundary_iff_not_is_continuation_byte(b, s);
    lemma_boundary_after_ascii(b, s);
    lemma_boundary_after_ascii(b, s + 1);
    lemma_boundary_after_ascii(b, s + 2);
    lemma_boundary_after_ascii(b, s + 3);
    lemma_boundary_after_ascii(b, s + 4);
    lemma_boundary_after_ascii(b, s + 5);
    lemma_boundary_after_ascii(b, s + 6);
    lemma_boundary_after_ascii(b, s + 7);
}

/// The hash that the build tool's report `out` gives, if it gives one.
pub fn hash_from_build_output(out: &str) -> (r: Option<String>)
    ensures
        match r {
            Some(h) => hash_from_output(out.spec_bytes()) == Some(h@),
            None => hash_from_output(out.spec_bytes()) is None,
        },
{
    let bytes = out.as_bytes();
    let bn = bytes.len();
    let marker: Vec<u8> = vec![103, 111, 116, 58, 32, 32, 32, 32];
    assert(marker@ =~= hash_marker());
    let needle = marker.as_slice();
    assert(needle@ == hash_marker());
    let start = match find_from(bytes, needle, 0) {
        None => {
            return None;
        },
        Some(s) => s,
    };
    assert(start + 8 <= bn);
    let newline: Vec<u8> = vec![10];
    assert(newline@ =~= seq![10u8]);
    let end = match find_from(bytes, newline.as_slice(), start + 8) {
        None => {
            return None;
        },
        Some(e) => e,
    };
    proof {
        lemma_marker_ends_on_boundary(out.spec_bytes(), start as int);
        let b = out.spec_bytes();
        assert(b.subrange(end as int, end + 1)[0] == 10u8);
        is_char_boundary_iff_not_is_continuation_byte(b, end as int);
    }
    Some(String::from_str(slice_str(out, start + 8, end)))
}

/// The update at `call` once the build tool reported `new_hash`.
pub fn finish_update(source: &str, call: UpdateFetcherInput, new_hash: String) -> (r: UpdateFetcher)
    requires
        valid_call(source.spec_bytes(), call),
    ensures
        update_made(source.spec_bytes(), call, new_hash@, r),
{
    let inserted = new_hash.clone();
    UpdateFetcher {
        modification: InsertInBetween {
            prefix_offset: call.old_hash_attr.start,
            to_insert: inserted,
            suffix_offset: call.old_hash_attr.end,
        },
        action: FetchAction { fetcher: call.fetcher, old_hash: old_hash(source, call), new_hash },
    }
}

/// The update at `call`, given the build tool's report (`None` where it
/// could not be run or its report was not text).
pub fn complete_update(source: &str, call: UpdateFetcherInput, build_output: Option<String>) -> (r:
    Result<UpdateFetcher, UpdateFetcherError>)
    requires
        valid_call(source.spec_bytes(), call),
    ensures
        match build_output {
            None => r matches Err(e) && e@ == Failure::CouldNotFetchGitHubHash,
            Some(out) => match hash_from_output(encode_utf8(out@)) {
                None => r matches Err(e) && e@ == Failure::CouldNotFetchGitHubHash,
                Some(h) => r matches Ok(u) && update_made(source.spec_bytes(), call, h, u),
            },
        },
{
    match build_output {
        None => Err(UpdateFetcherError::CouldNotFetchGitHubHash),
        Some(out) => match hash_from_build_output(out.as_str()) {
            None => Err(UpdateFetcherError::CouldNotFetchGitHubHash),
            Some(h) => Ok(finish_update(source, call, h)),
        },
    }
}

} // verus!
