//! The URL record: the one datum this library stores, together with the
//! mathematical view of a record and the whitespace/trimming notions that
//! the add operation is specified with.

use vstd::prelude::*;

verus! {

/// Mathematical view of a stored record: the three fields as sequences of
/// characters, with the tag optional.
#[verifier::ext_equal]
pub ghost struct RecView {
    pub url: Seq<char>,
    pub tag: Option<Seq<char>>,
    pub date: Seq<char>,
}

/// One stored URL record. `url` is stored trimmed, `tag` (when present)
/// carries no whitespace, and `date` is the creation date as text.
pub struct UrlType {
    pub url: String,
    pub tag: Option<String>,
    pub date: String,
}

impl View for UrlType {
    type V = RecView;

    open spec fn view(&self) -> RecView {
        RecView {
            url: self.url@,
            tag: match self.tag {
                Some(t) => Some(t@),
                None => None,
            },
            date: self.date@,
        }
    }
}

impl DeepView for UrlType {
    type V = RecView;

    open spec fn deep_view(&self) -> RecView {
        self.view()
    }
}

/// The modes in which the on-disk store is opened: reading the whole file,
/// or appending one record line at the end.
pub enum FileMode {
    Read,
    Write,
}

/// The whitespace characters this library recognizes: the ASCII blank
/// characters (space, tab, line feed, vertical tab, form feed, carriage
/// return).
pub open spec fn is_ws(c: char) -> bool {
    c == ' ' || c == '\t' || c == '\n' || c == '\u{b}' || c == '\u{c}' || c == '\r'
}

/// Whether some character of `s` is whitespace.
pub open spec fn has_ws(s: Seq<char>) -> bool {
    exists|i: int| 0 <= i < s.len() && is_ws(s[i])
}

/// `s` with its leading whitespace removed.
pub open spec fn trim_front(s: Seq<char>) -> Seq<char>
    decreases s.len(),
{
    if s.len() > 0 && is_ws(s[0]) {
        trim_front(s.drop_first())
    } else {
        s
    }
}

/// `s` with its trailing whitespace removed.
pub open spec fn trim_back(s: Seq<char>) -> Seq<char>
    decreases s.len(),
{
    if s.len() > 0 && is_ws(s[s.len() - 1]) {
        trim_back(s.drop_last())
    } else {
        s
    }
}

/// `s` with leading and trailing whitespace removed.
pub open spec fn trim_spec(s: Seq<char>) -> Seq<char> {
    trim_back(trim_front(s))
}

/// Executable whitespace test, equal to `is_ws`.
pub fn is_ws_char(c: char) -> (r: bool)
    ensures
        r == is_ws(c),
{
    c == ' ' || c == '\t' || c == '\n' || c == '\u{b}' || c == '\u{c}' || c == '\r'
}

/// `trim_front` of a suffix is a suffix of the same sequence.
proof fn lemma_trim_front_skip(s: Seq<char>, k: int)
    requires
        0 <= k <= s.len(),
        forall|i: int| 0 <= i < k ==> is_ws(s[i]),
        k < s.len() ==> !is_ws(s[k]),
    ensures
        trim_front(s) =~= s.skip(k),
    decreases k,
{
    if k == 0 {
        if s.len() > 0 && is_ws(s[0]) {
            assert(false);
        }
        assert(trim_front(s) =~= s.skip(0));
    } else {
        assert(is_ws(s[0]));
        assert(s.drop_first() =~= s.skip(1));
        lemma_trim_front_skip(s.skip(1), k - 1);
        assert(s.skip(1).skip(k - 1) =~= s.skip(k));
    }
}

/// `trim_back` keeps exactly the first `k` characters when the rest is
/// whitespace and the `k`-th-from-front boundary character is not.
proof fn lemma_trim_back_take(s: Seq<char>, k: int)
    requires
        0 <= k <= s.len(),
        forall|i: int| k <= i < s.len() ==> is_ws(s[i]),
        k > 0 ==> !is_ws(s[k - 1]),
    ensures
        trim_back(s) =~= s.take(k),
    decreases s.len() - k,
{
    if k == s.len() {
        if s.len() > 0 && is_ws(s[s.len() - 1]) {
            assert(false);
        }
        assert(trim_back(s) =~= s.take(k));
    } else {
        assert(is_ws(s[s.len() - 1]));
        assert(s.drop_last() =~= s.take(s.len() - 1));
        lemma_trim_back_take(s.take(s.len() - 1), k);
    }
}

/// Trim `s`: the returned string's view is `trim_spec(s@)`.
pub fn trim_str(s: &str) -> (r: String)
    ensures
        r@ =~= trim_spec(s@),
{
    let n = s.unicode_len();
    let mut a: usize = 0;
    while a < n && is_ws_char(s.get_char(a))
        invariant
            n == s@.len(),
            0 <= a <= n,
            forall|i: int| 0 <= i < a ==> is_ws(s@[i]),
        decreases n - a,
    {
        a = a + 1;
    }
    let mut b: usize = n;
    while b > a && is_ws_char(s.get_char(b - 1))
        invariant
            n == s@.len(),
            a <= b <= n,
            forall|i: int| b <= i < n ==> is_ws(s@[i]),
        decreases b,
    {
        b = b - 1;
    }
    let sub = s.substring_char(a, b);
    proof {
        lemma_trim_front_skip(s@, a as int);
        let t = s@.skip(a as int);
        lemma_trim_back_take(t, b - a);
        assert(t.take(b - a) =~= s@.subrange(a as int, b as int));
    }
    String::from_str(sub)
}

} // verus!
