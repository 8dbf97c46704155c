//! The reachability check's pure logic. The HTTP requests themselves
//! happen outside the library; here stand the plan (every stored URL is
//! checked, in order, none skipped) and the exact report line for each
//! outcome. Each line depends only on its own URL and outcome, so one
//! URL's failure cannot touch another's report.

use crate::dates::dec_rep;
use crate::record::UrlType;
use vstd::prelude::*;

verus! {

/// What one reachability check came back with: the response's status text
/// and the elapsed milliseconds, or the transport failure's description.
pub enum CheckOutcome {
    Success { status: String, millis: u64 },
    Failure { reason: String },
}

/// Mathematical view of one check's outcome.
#[verifier::ext_equal]
pub ghost enum CheckView {
    Success { status: Seq<char>, millis: u64 },
    Failure { reason: Seq<char> },
}

impl View for CheckOutcome {
    type V = CheckView;

    open spec fn view(&self) -> CheckView {
        match self {
            CheckOutcome::Success { status, millis } => CheckView::Success {
                status: status@,
                millis: *millis,
            },
            CheckOutcome::Failure { reason } => CheckView::Failure { reason: reason@ },
        }
    }
}

impl DeepView for CheckOutcome {
    type V = CheckView;

    open spec fn deep_view(&self) -> CheckView {
        self.view()
    }
}

/// A run of `n` spaces (empty when `n <= 0`).
pub open spec fn spaces(n: int) -> Seq<char>
    decreases n,
{
    if n <= 0 {
        Seq::empty()
    } else {
        spaces(n - 1) + seq![' ']
    }
}

/// A URL padded with spaces to the report's column width of 30.
pub open spec fn pad_url(u: Seq<char>) -> Seq<char> {
    u + spaces(30 - u.len())
}

/// The in-progress line shown while a URL is being checked.
pub open spec fn progress_of(u: Seq<char>) -> Seq<char> {
    "[…] "@ + pad_url(u) + " ⏳ Checking... "@
}

/// The report line for one URL's outcome.
pub open spec fn line_of_outcome(u: Seq<char>, o: CheckView) -> Seq<char> {
    match o {
        CheckView::Success { status, millis } => "\r[✓] "@ + pad_url(u) + " ✔ "@ + status
            + " in "@ + dec_rep(millis as nat) + "ms"@,
        CheckView::Failure { reason } => "\r[✗] "@ + pad_url(u) + " ✖ Failed: "@ + reason,
    }
}

/// The whole report: one line per URL, each from its own outcome alone.
pub open spec fn report_seq(urls: Seq<Seq<char>>, outs: Seq<CheckView>) -> Seq<Seq<char>> {
    Seq::new(urls.len(), |i: int| line_of_outcome(urls[i], outs[i]))
}

/// One URL's report line is untouched by every other URL's outcome: two
/// runs that agree on the `i`-th outcome report the same `i`-th line.
pub proof fn lemma_check_independent(
    urls: Seq<Seq<char>>,
    outs1: Seq<CheckView>,
    outs2: Seq<CheckView>,
    i: int,
)
    requires
        0 <= i < urls.len(),
        outs1[i] == outs2[i],
    ensures
        report_seq(urls, outs1)[i] == report_seq(urls, outs2)[i],
        report_seq(urls, outs1)[i] == line_of_outcome(urls[i], outs1[i]),
{
}

/// Append `u` padded to the report's column width.
fn append_padded(out: &mut String, u: &str)
    ensures
        final(out)@ == old(out)@ + pad_url(u@),
{
    out.append(u);
    let n = u.unicode_len();
    let mut k: usize = n;
    while k < 30
        invariant
            n == u@.len(),
            n <= k,
            k <= 30 || k == n,
            out@ == old(out)@ + u@ + spaces(k - n),
        decreases 30 - k,
    {
        out.append(" ");
        proof {
            assert(" "@ =~= seq![' ']) by {
                reveal_strlit(" ");
            }
            assert(spaces(k + 1 - n) =~= spaces(k - n) + seq![' ']);
            assert((old(out)@ + u@ + spaces(k - n)) + seq![' '] =~= old(out)@ + u@ + spaces(
                k + 1 - n,
            ));
        }
        k = k + 1;
    }
    proof {
        if n >= 30 {
            assert(k == n);
            assert(spaces(0) =~= Seq::<char>::empty());
        }
        assert(out@ =~= old(out)@ + pad_url(u@));
    }
}

/// The in-progress line for one URL.
pub fn format_check_progress(url: &str) -> (r: String)
    ensures
        r@ == progress_of(url@),
{
    let mut out = String::new();
    out.append("[…] ");
    append_padded(&mut out, url);
    out.append(" ⏳ Checking... ");
    proof {
        assert(out@ =~= progress_of(url@));
    }
    out
}

/// The report line for one URL and its outcome.
pub fn format_check_result(url: &str, outcome: &CheckOutcome) -> (r: String)
    ensures
        r@ == line_of_outcome(url@, outcome@),
{
    let mut out = String::new();
    match outcome {
        CheckOutcome::Success { status, millis } => {
            out.append("\r[✓] ");
            append_padded(&mut out, url);
            out.append(" ✔ ");
            out.append(status.as_str());
            out.append(" in ");
            let ms = crate::dates::u64_to_string(*millis);
            out.append(ms.as_str());
            out.append("ms");
        },
        CheckOutcome::Failure { reason } => {
            out.append("\r[✗] ");
            append_padded(&mut out, url);
            out.append(" ✖ Failed: ");
            out.append(reason.as_str());
        },
    }
    proof {
        assert(out@ =~= line_of_outcome(url@, outcome@));
    }
    out
}

/// The whole report, given every URL's outcome: line `i` comes from URL
/// `i` and outcome `i` alone, so no failure hides a later line.
pub fn check_report_lines(urls: &Vec<UrlType>, outcomes: &Vec<CheckOutcome>) -> (r: Vec<String>)
    requires
        urls@.len() == outcomes@.len(),
    ensures
        r.deep_view() == report_seq(
            Seq::new(urls.deep_view().len(), |i: int| urls.deep_view()[i].url),
            outcomes.deep_view(),
        ),
{
    let mut lines: Vec<String> = Vec::new();
    let mut i: usize = 0;
    let ghost us = Seq::new(urls.deep_view().len(), |k: int| urls.deep_view()[k].url);
    while i < urls.len()
        invariant
            0 <= i <= urls@.len(),
            urls@.len() == outcomes@.len(),
            us == Seq::new(urls.deep_view().len(), |k: int| urls.deep_view()[k].url),
            lines.deep_view() == report_seq(us, outcomes.deep_view()).take(i as int),
        decreases urls@.len() - i,
    {
        let line = format_check_result(urls[i].url.as_str(), &outcomes[i]);
        proof {
            assert(line@ == line_of_outcome(us[i as int], outcomes.deep_view()[i as int]));
        }
        let ghost pre_lines = lines.deep_view();
        lines.push(line);
        proof {
            let full = report_seq(us, outcomes.deep_view());
            assert(full.len() == urls@.len());
            assert(pre_lines.len() == i as int);
            assert(lines@.len() == i + 1);
            assert(lines.deep_view().len() == i + 1);
            assert forall|k: int| 0 <= k < i + 1 implies #[trigger] lines.deep_view()[k]
                == full.take(i + 1)[k] by {
                if k < i {
                    assert(lines.deep_view()[k] == pre_lines[k]);
                } else {
                    assert(lines.deep_view()[k] == line@);
                }
                assert(full.take(i + 1)[k] == full[k]);
            }
            assert(lines.deep_view() =~~= full.take(i + 1));
        }
        i = i + 1;
    }
    proof {
        assert(report_seq(us, outcomes.deep_view()).take(urls@.len() as int) =~~= report_seq(
            us,
            outcomes.deep_view(),
        ));
    }
    lines
}

/// What the check operation does with the store: nothing but the
/// no-records notice when it is empty, otherwise one check per stored URL,
/// in file order, none skipped.
pub fn check_plan(urls: &Vec<UrlType>) -> (r: Option<Vec<String>>)
    ensures
        r is None <==> urls@.len() == 0,
        r matches Some(us) ==> us@.len() == urls@.len() && forall|i: int|
            0 <= i < us@.len() ==> us.deep_view()[i] == urls.deep_view()[i].url,
{
    if urls.len() == 0 {
        return None;
    }
    let mut us: Vec<String> = Vec::new();
    let mut i: usize = 0;
    while i < urls.len()
        invariant
            0 <= i <= urls@.len(),
            us@.len() == i,
            forall|k: int| 0 <= k < i ==> us.deep_view()[k] == urls.deep_view()[k].url,
        decreases urls@.len() - i,
    {
        let u = urls[i].url.clone();
        let ghost pre_us = us.deep_view();
        us.push(u);
        proof {
            assert forall|k: int| 0 <= k < i + 1 implies #[trigger] us.deep_view()[k]
                == urls.deep_view()[k].url by {
                if k < i {
                    assert(us.deep_view()[k] == pre_us[k]);
                } else {
                    assert(us.deep_view()[k] == u@);
                }
            }
        }
        i = i + 1;
    }
    Some(us)
}

/// The notice the check operation shows for an empty store.
pub fn check_empty_message() -> (r: String)
    ensures
        r@ == "No urls found, add urls before checking"@,
{
    String::from_str("No urls found, add urls before checking")
}

} // verus!
