//! The record store's pure logic: reading records out of the store's lines
//! (skipping lines that do not parse), the duplicate scan, and the decision
//! the add operation makes. The store file itself is read and appended
//! outside the library; success here means exactly one new line, and any
//! rejection means the store is left alone.

use crate::codec::{line_of, parse_line};
use crate::record::{has_ws, trim_spec, RecView, UrlType};
use vstd::prelude::*;

verus! {

/// Whether some record in `rs` has exactly the URL `u`.
pub open spec fn contains_url(rs: Seq<RecView>, u: Seq<char>) -> bool {
    exists|i: int| 0 <= i < rs.len() && rs[i].url == u
}

/// Whether any record in `urls` has exactly the URL `target_url`.
pub fn is_url_present(urls: &Vec<UrlType>, target_url: &str) -> (b: bool)
    ensures
        b == contains_url(urls.deep_view(), target_url@),
{
    let mut i: usize = 0;
    while i < urls.len()
        invariant
            0 <= i <= urls.len(),
            forall|k: int| 0 <= k < i ==> urls.deep_view()[k].url != target_url@,
        decreases urls.len() - i,
    {
        if str_eq(urls[i].url.as_str(), target_url) {
            proof {
                assert(urls.deep_view()[i as int].url == target_url@);
            }
            return true;
        }
        i = i + 1;
    }
    false
}

/// Character-for-character string equality.
fn str_eq(a: &str, b: &str) -> (r: bool)
    ensures
        r == (a@ == b@),
{
    let n = a.unicode_len();
    if n != b.unicode_len() {
        return false;
    }
    let mut i: usize = 0;
    while i < n
        invariant
            n == a@.len() == b@.len(),
            0 <= i <= n,
            forall|k: int| 0 <= k < i ==> a@[k] == b@[k],
        decreases n - i,
    {
        if a.get_char(i) != b.get_char(i) {
            return false;
        }
        i = i + 1;
    }
    proof {
        assert(a@ =~= b@);
    }
    true
}

/// What one call of the add operation decided.
pub enum AddOutcome {
    /// The record was accepted; the caller appends exactly this record.
    Added(UrlType),
    /// The URL was empty: nothing to do, and no error either.
    EmptyUrl,
    /// A record with this URL is already stored; nothing is written.
    DuplicateUrl,
    /// The tag contains whitespace; nothing is written.
    InvalidTag,
}

/// Mathematical view of an add decision.
#[verifier::ext_equal]
pub ghost enum AddView {
    Added(RecView),
    EmptyUrl,
    DuplicateUrl,
    InvalidTag,
}

impl View for AddOutcome {
    type V = AddView;

    open spec fn view(&self) -> AddView {
        match self {
            AddOutcome::Added(rec) => AddView::Added(rec@),
            AddOutcome::EmptyUrl => AddView::EmptyUrl,
            AddOutcome::DuplicateUrl => AddView::DuplicateUrl,
            AddOutcome::InvalidTag => AddView::InvalidTag,
        }
    }
}

/// What the add operation decides, given the stored records and the raw
/// input. An empty URL is silently a no-op; a URL already stored (compared
/// trimmed, the same form in which URLs are stored) is a duplicate; a tag
/// with whitespace in it is invalid; otherwise the trimmed URL, the trimmed
/// tag and the given date make the new record.
pub open spec fn add_spec(
    rs: Seq<RecView>,
    url: Seq<char>,
    tag: Option<Seq<char>>,
    date: Seq<char>,
) -> AddView {
    if url.len() == 0 {
        AddView::EmptyUrl
    } else if contains_url(rs, trim_spec(url)) {
        AddView::DuplicateUrl
    } else if tag matches Some(t) && has_ws(t) {
        AddView::InvalidTag
    } else {
        AddView::Added(
            RecView {
                url: trim_spec(url),
                tag: match tag {
                    Some(t) => Some(trim_spec(t)),
                    None => None,
                },
                date: date,
            },
        )
    }
}

/// The stored records after an add decision is carried out: one appended
/// record on success, the store unchanged on every other outcome.
pub open spec fn store_after(rs: Seq<RecView>, a: AddView) -> Seq<RecView> {
    match a {
        AddView::Added(rec) => rs.push(rec),
        _ => rs,
    }
}

/// Decide one add operation over the stored records `existing`: the raw
/// URL and tag from the user and the creation date for the new record.
pub fn add_urls(existing: &Vec<UrlType>, url: &str, tag: Option<&str>, date: &str) -> (r:
    AddOutcome)
    ensures
        r@ == add_spec(
            existing.deep_view(),
            url@,
            match tag {
                Some(t) => Some(t@),
                None => None,
            },
            date@,
        ),
{
    if url.unicode_len() == 0 {
        return AddOutcome::EmptyUrl;
    }
    let trimmed = crate::record::trim_str(url);
    if is_url_present(existing, trimmed.as_str()) {
        return AddOutcome::DuplicateUrl;
    }
    let tag_trimmed: Option<String> = match tag {
        Some(t) => {
            if has_ws_str(t) {
                return AddOutcome::InvalidTag;
            }
            Some(crate::record::trim_str(t))
        },
        None => None,
    };
    AddOutcome::Added(
        UrlType { url: trimmed, tag: tag_trimmed, date: String::from_str(date) },
    )
}

/// Whether `s` contains a whitespace character, executably.
pub fn has_ws_str(s: &str) -> (r: bool)
    ensures
        r == has_ws(s@),
{
    let n = s.unicode_len();
    let mut i: usize = 0;
    while i < n
        invariant
            n == s@.len(),
            0 <= i <= n,
            forall|k: int| 0 <= k < i ==> !crate::record::is_ws(s@[k]),
        decreases n - i,
    {
        if crate::record::is_ws_char(s.get_char(i)) {
            return true;
        }
        i = i + 1;
    }
    false
}

/// Read records out of the store's lines, in order: each line either
/// parses as one record or is skipped. The skipped lines are reported by
/// index, so a warning can be shown for each.
pub open spec fn records_of_lines(lines: Seq<Seq<char>>) -> Seq<RecView>
    decreases lines.len(),
{
    if lines.len() == 0 {
        Seq::empty()
    } else {
        let rest = records_of_lines(lines.drop_last());
        match parse_line(lines.last()) {
            Some(r) => rest.push(r),
            None => rest,
        }
    }
}

/// Parse the store's lines into records, skipping what does not parse.
/// Returns the records in file order, and the indices of skipped lines.
pub fn get_urls(lines: &Vec<String>) -> (r: (Vec<UrlType>, Vec<usize>))
    ensures
        r.0.deep_view() == records_of_lines(lines.deep_view()),
        forall|k: int|
            0 <= k < r.1@.len() ==> r.1@[k] < lines@.len() && parse_line(
                lines.deep_view()[r.1@[k] as int],
            ) is None,
        forall|i: int|
            0 <= i < lines@.len() ==> (parse_line(lines.deep_view()[i]) is None <==> r.1@.contains(
                i as usize,
            )),
{
    let mut records: Vec<UrlType> = Vec::new();
    let mut skipped: Vec<usize> = Vec::new();
    let mut i: usize = 0;
    while i < lines.len()
        invariant
            0 <= i <= lines.len(),
            records.deep_view() == records_of_lines(lines.deep_view().take(i as int)),
            forall|k: int|
                0 <= k < skipped@.len() ==> skipped@[k] < i && parse_line(
                    lines.deep_view()[skipped@[k] as int],
                ) is None,
            forall|j: int|
                0 <= j < i ==> (parse_line(lines.deep_view()[j]) is None <==> skipped@.contains(
                    j as usize,
                )),
        decreases lines.len() - i,
    {
        let ghost pre = lines.deep_view().take(i as int);
        let ghost post = lines.deep_view().take(i + 1);
        proof {
            assert(post.drop_last() =~= pre);
            assert(post.last() == lines.deep_view()[i as int]);
        }
        match crate::codec::parse_record(&lines[i]) {
            Some(rec) => {
                records.push(rec);
                proof {
                    assert(records.deep_view() =~= records_of_lines(post));
                    assert forall|j: int|
                        #![trigger lines.deep_view()[j]]
                        0 <= j < i + 1 implies (parse_line(lines.deep_view()[j]) is None
                        <==> skipped@.contains(j as usize)) by {
                        if j == i && skipped@.contains(i as usize) {
                            let k = choose|k: int|
                                0 <= k < skipped@.len() && skipped@[k] == i as usize;
                            assert(skipped@[k] < i);
                        }
                    }
                }
            },
            None => {
                let ghost pre_skipped = skipped@;
                skipped.push(i);
                proof {
                    assert(records.deep_view() =~= records_of_lines(post));
                    assert(skipped@ == pre_skipped.push(i as usize));
                    assert forall|j: int|
                        #![trigger lines.deep_view()[j]]
                        0 <= j < i + 1 implies (parse_line(lines.deep_view()[j]) is None
                        <==> skipped@.contains(j as usize)) by {
                        if j == i {
                            assert(skipped@[skipped@.len() - 1] == i as usize);
                            assert(skipped@.contains(i as usize));
                        } else {
                            if pre_skipped.contains(j as usize) {
                                let k = choose|k: int|
                                    0 <= k < pre_skipped.len() && pre_skipped[k] == j as usize;
                                assert(skipped@[k] == j as usize);
                                assert(skipped@.contains(j as usize));
                            }
                            if skipped@.contains(j as usize) {
                                let k = choose|k: int|
                                    0 <= k < skipped@.len() && skipped@[k] == j as usize;
                                if k < pre_skipped.len() {
                                    assert(pre_skipped[k] == j as usize);
                                    assert(pre_skipped.contains(j as usize));
                                } else {
                                    assert(skipped@[k] == i as usize);
                                }
                            }
                        }
                    }
                }
            },
        }
        i = i + 1;
    }
    proof {
        assert(lines.deep_view().take(lines@.len() as int) =~= lines.deep_view());
    }
    (records, skipped)
}

/// A rejected or empty add never changes the store, and a successful add
/// appends exactly one record: what `store_after` says, spelled out.
pub proof fn lemma_add_writes(rs: Seq<RecView>, url: Seq<char>, tag: Option<Seq<char>>, date: Seq<char>)
    ensures
        add_spec(rs, url, tag, date) matches AddView::Added(rec) ==> store_after(
            rs,
            add_spec(rs, url, tag, date),
        ) == rs.push(rec),
        !(add_spec(rs, url, tag, date) is Added) ==> store_after(rs, add_spec(rs, url, tag, date))
            == rs,
{
}

/// Adding the same URL a second time is rejected as a duplicate and leaves
/// the store with exactly the one record the first call added.
pub proof fn lemma_duplicate_add_idempotent(
    rs: Seq<RecView>,
    url: Seq<char>,
    tag1: Option<Seq<char>>,
    tag2: Option<Seq<char>>,
    date1: Seq<char>,
    date2: Seq<char>,
)
    requires
        add_spec(rs, url, tag1, date1) is Added,
    ensures
        ({
            let rs1 = store_after(rs, add_spec(rs, url, tag1, date1));
            &&& rs1.len() == rs.len() + 1
            &&& add_spec(rs1, url, tag2, date2) == AddView::DuplicateUrl
            &&& store_after(rs1, add_spec(rs1, url, tag2, date2)) == rs1
        }),
{
    let a1 = add_spec(rs, url, tag1, date1);
    let rs1 = store_after(rs, a1);
    let rec = a1->Added_0;
    assert(rs1[rs.len() as int].url == trim_spec(url));
    assert(contains_url(rs1, trim_spec(url)));
}

/// An add with a whitespace-carrying tag never changes the store.
pub proof fn lemma_invalid_tag_no_write(
    rs: Seq<RecView>,
    url: Seq<char>,
    tag: Seq<char>,
    date: Seq<char>,
)
    requires
        has_ws(tag),
    ensures
        store_after(rs, add_spec(rs, url, Some(tag), date)) == rs,
{
}

/// An add with an empty URL never changes the store, and signals no error.
pub proof fn lemma_empty_url_no_write(
    rs: Seq<RecView>,
    tag: Option<Seq<char>>,
    date: Seq<char>,
)
    ensures
        add_spec(rs, Seq::empty(), tag, date) == AddView::EmptyUrl,
        store_after(rs, add_spec(rs, Seq::empty(), tag, date)) == rs,
{
}

/// A line that does not parse never contributes a record: inserting it
/// anywhere among the store's lines leaves the parsed records unchanged.
pub proof fn lemma_bad_line_skipped(lines: Seq<Seq<char>>, k: int, bad: Seq<char>)
    requires
        0 <= k <= lines.len(),
        parse_line(bad) is None,
    ensures
        records_of_lines(lines.insert(k, bad)) == records_of_lines(lines),
    decreases lines.len(),
{
    let with = lines.insert(k, bad);
    if k == lines.len() {
        assert(with.drop_last() =~= lines);
        assert(with.last() == bad);
    } else {
        assert(with.last() == lines.last());
        assert(with.drop_last() =~= lines.drop_last().insert(k, bad));
        lemma_bad_line_skipped(lines.drop_last(), k, bad);
    }
}

/// Round trip through the store: when an add is accepted and its record's
/// line is appended to the store file, reading the store back yields the
/// old records followed by exactly the record that was added — the same
/// URL, tag and date.
pub proof fn lemma_add_round_trip(
    lines: Seq<Seq<char>>,
    url: Seq<char>,
    tag: Option<Seq<char>>,
    date: Seq<char>,
)
    requires
        add_spec(records_of_lines(lines), url, tag, date) is Added,
    ensures
        ({
            let rec = add_spec(records_of_lines(lines), url, tag, date)->Added_0;
            records_of_lines(lines.push(line_of(rec))) == records_of_lines(lines).push(rec)
        }),
{
    let rec = add_spec(records_of_lines(lines), url, tag, date)->Added_0;
    let with = lines.push(line_of(rec));
    assert(with.drop_last() =~= lines);
    assert(with.last() == line_of(rec));
    crate::codec::lemma_parse_serialized(rec);
}

/// The message each add outcome reports, if any: rejections explain
/// themselves, while success and the empty-URL no-op say nothing.
pub fn add_outcome_message(outcome: &AddOutcome) -> (r: Option<String>)
    ensures
        match outcome {
            AddOutcome::DuplicateUrl => r matches Some(m) && m@ == "url is already present"@,
            AddOutcome::InvalidTag => r matches Some(m) && m@ == "tag cannot contain space"@,
            _ => r is None,
        },
{
    match outcome {
        AddOutcome::DuplicateUrl => Some(String::from_str("url is already present")),
        AddOutcome::InvalidTag => Some(String::from_str("tag cannot contain space")),
        _ => None,
    }
}

} // verus!
