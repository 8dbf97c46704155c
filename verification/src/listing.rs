//! Human-readable presentation of the stored records: the exact text that
//! the list operation shows, record by record in file order, or the
//! no-records notice when the store is empty.

use crate::record::{RecView, UrlType};
use vstd::prelude::*;

verus! {

/// The block of text one record is shown as: its URL, its tag when it has
/// one, its date, and a separator line.
pub open spec fn record_block(r: RecView) -> Seq<char> {
    "URL: "@ + r.url + "\n"@ + (match r.tag {
        Some(t) => "Tag: "@ + t + "\n"@,
        None => Seq::empty(),
    }) + "Date: "@ + r.date + "\n"@ + "---\n"@
}

/// The text the whole (non-empty) store is shown as: every record's block,
/// in order.
pub open spec fn list_seq(rs: Seq<RecView>) -> Seq<char>
    decreases rs.len(),
{
    if rs.len() == 0 {
        Seq::empty()
    } else {
        list_seq(rs.drop_last()) + record_block(rs.last())
    }
}

/// Render the whole store for display: the no-records notice when it is
/// empty, otherwise every record's block in order.
pub fn format_url_list(urls: &Vec<UrlType>) -> (r: String)
    ensures
        urls@.len() == 0 ==> r@ == "No urls found\n"@,
        urls@.len() > 0 ==> r@ == list_seq(urls.deep_view()),
{
    if urls.len() == 0 {
        return String::from_str("No urls found\n");
    }
    let mut out = String::new();
    let mut i: usize = 0;
    while i < urls.len()
        invariant
            0 <= i <= urls@.len(),
            out@ == list_seq(urls.deep_view().take(i as int)),
        decreases urls@.len() - i,
    {
        let ghost pre = urls.deep_view().take(i as int);
        let ghost post = urls.deep_view().take(i + 1);
        out.append("URL: ");
        out.append(urls[i].url.as_str());
        out.append("\n");
        match &urls[i].tag {
            Some(t) => {
                out.append("Tag: ");
                out.append(t.as_str());
                out.append("\n");
            },
            None => {},
        }
        out.append("Date: ");
        out.append(urls[i].date.as_str());
        out.append("\n");
        out.append("---\n");
        proof {
            assert(post.drop_last() =~= pre);
            assert(post.last() == urls.deep_view()[i as int]);
            assert(out@ =~= list_seq(pre) + record_block(urls.deep_view()[i as int]));
            assert(out@ == list_seq(post));
        }
        i = i + 1;
    }
    proof {
        assert(urls.deep_view().take(urls@.len() as int) =~= urls.deep_view());
    }
    out
}

} // verus!
