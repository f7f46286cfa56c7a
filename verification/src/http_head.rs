//! The head of an HTTP/1.1 request as both servers read it: the method and
//! target of the request line, then header lines up to the blank line, with
//! the body length taken from `content-length`.
use vstd::prelude::*;
use crate::query::QueryMap;
use crate::text::{
    chars_of, first_index_of, is_white_space, lemma_strip_end_skip, lemma_strip_start_skip,
    lower_ascii_seq, string_of_range, strip_end, strip_start, trim_seq, ws_pred,
};

verus! {

/// Length of the leading run of non-whitespace characters.
pub open spec fn word_end(s: Seq<char>) -> int
    decreases s.len(),
{
    if s.len() == 0 || is_white_space(s[0]) {
        0
    } else {
        1 + word_end(s.drop_first())
    }
}

/// The first whitespace-separated word, empty when there is none.
pub open spec fn first_word(s: Seq<char>) -> Seq<char> {
    let t = strip_start(s, ws_pred());
    t.subrange(0, word_end(t))
}

/// What follows the first word.
pub open spec fn after_first_word(s: Seq<char>) -> Seq<char> {
    let t = strip_start(s, ws_pred());
    t.subrange(word_end(t), t.len() as int)
}

/// The method of a request line: its first word, `GET` when it has none.
pub open spec fn method_of(line: Seq<char>) -> Seq<char> {
    if first_word(line).len() > 0 {
        first_word(line)
    } else {
        "GET"@
    }
}

/// The target of a request line: its second word, `/` when it has none.
pub open spec fn target_of(line: Seq<char>) -> Seq<char> {
    let w = first_word(after_first_word(line));
    if w.len() > 0 {
        w
    } else {
        "/"@
    }
}

proof fn lemma_word_end(s: Seq<char>, i: int)
    requires
        0 <= i <= s.len(),
        forall|k: int| 0 <= k < i ==> !is_white_space(#[trigger] s[k]),
        i == s.len() || is_white_space(s[i]),
    ensures
        word_end(s) == i,
    decreases i,
{
    if i > 0 {
        lemma_word_end(s.drop_first(), i - 1);
    }
}

/// Bounds of the first word of `v[from..]`, and where what follows it starts.
fn next_word(v: &Vec<char>, from: usize) -> (r: (usize, usize))
    requires
        from <= v@.len(),
    ensures
        from <= r.0 <= r.1 <= v@.len(),
        v@.subrange(r.0 as int, r.1 as int) == first_word(v@.subrange(from as int, v@.len() as int)),
        v@.subrange(r.1 as int, v@.len() as int) == after_first_word(v@.subrange(from as int, v@.len() as int)),
{
    let n = v.len();
    let ghost s = v@.subrange(from as int, n as int);
    let mut i: usize = from;
    while i < n && crate::text::is_whitespace_char(v[i])
        invariant
            from <= i <= n,
            n == v@.len(),
            forall|k: int| from <= k < i ==> ws_pred()(#[trigger] v@[k]),
        decreases n - i,
    {
        i = i + 1;
    }
    proof {
        assert forall|k: int| 0 <= k < i - from implies ws_pred()(#[trigger] s[k]) by {
            assert(s[k] == v@[k + from]);
        }
        lemma_strip_start_skip(s, ws_pred(), (i - from) as int);
        let t = s.subrange((i - from) as int, s.len() as int);
        assert(t =~= v@.subrange(i as int, n as int));
        if i < n {
            assert(t[0] == v@[i as int]);
        }
        assert(strip_start(t, ws_pred()) == t);
    }
    let mut j: usize = i;
    while j < n && !crate::text::is_whitespace_char(v[j])
        invariant
            i <= j <= n,
            n == v@.len(),
            forall|k: int| i <= k < j ==> !is_white_space(#[trigger] v@[k]),
        decreases n - j,
    {
        j = j + 1;
    }
    proof {
        let t = v@.subrange(i as int, n as int);
        assert forall|k: int| 0 <= k < j - i implies !is_white_space(#[trigger] t[k]) by {
            assert(t[k] == v@[k + i]);
        }
        if j < n {
            assert(t[j - i] == v@[j as int]);
        }
        lemma_word_end(t, (j - i) as int);
        assert(t.subrange(0, (j - i) as int) =~= v@.subrange(i as int, j as int));
        assert(t.subrange((j - i) as int, t.len() as int) =~= v@.subrange(j as int, n as int));
    }
    (i, j)
}

/// The method and target of a request line; a missing method reads as
/// `GET` and a missing target as `/`.
pub fn request_line_parts(line: &str) -> (r: (String, String))
    ensures
        r.0@ == method_of(line@),
        r.1@ == target_of(line@),
{
    let v = chars_of(line);
    assert(v@.subrange(0, v@.len() as int) =~= line@);
    let (a, b) = next_word(&v, 0);
    let method = if a < b {
        string_of_range(v.as_slice(), a, b)
    } else {
        crate::text::str_to_string("GET")
    };
    let (c, d) = next_word(&v, b);
    let target = if c < d {
        string_of_range(v.as_slice(), c, d)
    } else {
        crate::text::str_to_string("/")
    };
    (method, target)
}

/// Whether every character is an ASCII digit.
pub open spec fn all_digits(s: Seq<char>) -> bool {
    forall|i: int| 0 <= i < s.len() ==> '0' <= #[trigger] s[i] && s[i] <= '9'
}

/// The value of a string of decimal digits.
pub open spec fn digits_value(s: Seq<char>) -> int
    decreases s.len(),
{
    if s.len() == 0 {
        0
    } else {
        digits_value(s.drop_last()) * 10 + (s.last() as int - 48)
    }
}

/// What `str::parse::<usize>` reads: an optional `+`, then at least one
/// digit, with a value that fits.
pub open spec fn usize_text(s: Seq<char>) -> Option<int> {
    let d = if s.len() > 1 && s[0] == '+' {
        s.drop_first()
    } else {
        s
    };
    if d.len() > 0 && all_digits(d) && digits_value(d) <= usize::MAX {
        Some(digits_value(d))
    } else {
        None
    }
}

proof fn lemma_digits_value_monotone(s: Seq<char>, k: int)
    requires
        0 <= k <= s.len(),
        all_digits(s),
    ensures
        0 <= digits_value(s.subrange(0, k)) <= digits_value(s),
    decreases s.len() - k,
{
    if k < s.len() {
        lemma_digits_value_monotone(s, k + 1);
        let t = s.subrange(0, k + 1);
        assert(t.drop_last() =~= s.subrange(0, k));
        assert('0' <= s[k] && s[k] <= '9');
        lemma_digits_value_nonneg(s.subrange(0, k));
    } else {
        assert(s.subrange(0, k) =~= s);
        lemma_digits_value_nonneg(s);
    }
}

proof fn lemma_digits_value_nonneg(s: Seq<char>)
    requires
        all_digits(s),
    ensures
        0 <= digits_value(s),
    decreases s.len(),
{
    if s.len() > 0 {
        assert(all_digits(s.drop_last()));
        lemma_digits_value_nonneg(s.drop_last());
        assert('0' <= s[s.len() - 1]);
    }
}

/// The body length a `content-length` value gives: the number it holds,
/// 0 when it holds none.
pub fn content_length_value(value: &str) -> (r: usize)
    ensures
        r == match usize_text(value@) {
            Some(n) => n,
            None => 0,
        },
{
    let v = chars_of(value);
    let start: usize = if v.len() > 1 && v[0] == '+' { 1 } else { 0 };
    let ghost d = if value@.len() > 1 && value@[0] == '+' {
        value@.drop_first()
    } else {
        value@
    };
    assert(d =~= v@.subrange(start as int, v@.len() as int));
    if start == v.len() {
        return 0;
    }
    let mut total: usize = 0;
    let mut i: usize = start;
    while i < v.len()
        invariant
            start <= i <= v@.len(),
            start < v@.len(),
            v@ == value@,
            d == (if value@.len() > 1 && value@[0] == '+' {
                value@.drop_first()
            } else {
                value@
            }),
            d == v@.subrange(start as int, v@.len() as int),
            all_digits(v@.subrange(start as int, i as int)),
            total == digits_value(v@.subrange(start as int, i as int)),
        decreases v@.len() - i,
    {
        let c = v[i];
        assert(v@.subrange(start as int, i + 1).drop_last() =~= v@.subrange(start as int, i as int));
        assert(v@.subrange(start as int, i + 1).last() == c);
        if !('0' <= c && c <= '9') {
            proof {
                assert(d[i - start] == c);
                assert(!all_digits(d));
            }
            return 0;
        }
        let digit = (c as u32 - 48) as usize;
        if total > (usize::MAX - digit) / 10 {
            proof {
                let p = v@.subrange(start as int, i + 1);
                assert(all_digits(p));
                assert(digits_value(p) == total * 10 + digit) by (nonlinear_arith)
                    requires
                        digits_value(p) == digits_value(p.drop_last()) * 10 + (p.last() as int - 48),
                        digits_value(p.drop_last()) == total,
                        p.last() as int - 48 == digit,
                ;
                assert(total * 10 + digit > usize::MAX) by (nonlinear_arith)
                    requires
                        total > (usize::MAX - digit) / 10,
                        digit <= 9,
                ;
                if all_digits(d) {
                    assert(d.subrange(0, (i + 1 - start) as int) =~= p);
                    lemma_digits_value_monotone(d, (i + 1 - start) as int);
                }
            }
            return 0;
        }
        assert(total * 10 + digit <= usize::MAX) by (nonlinear_arith)
            requires
                total <= (usize::MAX - digit) / 10,
                digit <= 9,
        ;
        total = total * 10 + digit;
        i = i + 1;
    }
    assert(v@.subrange(start as int, v@.len() as int) == d);
    total
}

/// What a header line, as read with its line ending, holds.
#[derive(Debug, PartialEq, Eq)]
pub enum HeaderLine {
    /// The blank line that ends the head.
    End,
    /// A `name: value` field; the name lower-cased, both trimmed.
    Field { name: String, value: String },
    /// A line without a colon, skipped.
    Other,
}

pub enum HeaderLineView {
    End,
    Field { name: Seq<char>, value: Seq<char> },
    Other,
}

impl View for HeaderLine {
    type V = HeaderLineView;

    open spec fn view(&self) -> HeaderLineView {
        match self {
            HeaderLine::End => HeaderLineView::End,
            HeaderLine::Field { name, value } => HeaderLineView::Field { name: name@, value: value@ },
            HeaderLine::Other => HeaderLineView::Other,
        }
    }
}

pub open spec fn header_line_of(line: Seq<char>) -> HeaderLineView {
    let t = strip_end(line, ws_pred());
    let i = first_index_of(t, ':');
    if t.len() == 0 {
        HeaderLineView::End
    } else if i < t.len() {
        HeaderLineView::Field {
            name: lower_ascii_seq(trim_seq(t.subrange(0, i))),
            value: trim_seq(t.subrange(i + 1, t.len() as int)),
        }
    } else {
        HeaderLineView::Other
    }
}

pub fn parse_header_line(line: &str) -> (r: HeaderLine)
    ensures
        r@ == header_line_of(line@),
{
    let v = chars_of(line);
    let n = v.len();
    let mut j: usize = n;
    while j > 0 && crate::text::is_whitespace_char(v[j - 1])
        invariant
            j <= n,
            n == v@.len(),
            forall|k: int| j <= k < n ==> ws_pred()(#[trigger] v@[k]),
        decreases j,
    {
        j = j - 1;
    }
    proof {
        lemma_strip_end_skip(v@, ws_pred(), j as int);
        let u = v@.subrange(0, j as int);
        if j > 0 {
            assert(u.last() == v@[j - 1]);
        }
        assert(strip_end(u, ws_pred()) == u);
    }
    if j == 0 {
        return HeaderLine::End;
    }
    let t = string_of_range(v.as_slice(), 0, j);
    let tv = chars_of(t.as_str());
    let i = crate::text::index_of_char(tv.as_slice(), ':');
    if i >= tv.len() {
        return HeaderLine::Other;
    }
    let raw_name = string_of_range(tv.as_slice(), 0, i);
    let raw_value = string_of_range(tv.as_slice(), i + 1, tv.len());
    let name = crate::text::lower_ascii_str(crate::text::trim_str(raw_name.as_str()).as_str());
    let value = crate::text::trim_str(raw_value.as_str());
    HeaderLine::Field { name, value }
}

/// A request head as it is read: the request line's method and target,
/// the headers so far (a repeated name keeps its last value), and the body
/// length the last `content-length` gave.
#[derive(Debug)]
pub struct RequestHead {
    pub method: String,
    pub target: String,
    pub headers: QueryMap,
    pub content_length: usize,
}

impl RequestHead {
    /// The head after its request line.
    pub fn from_request_line(line: &str) -> (r: Self)
        ensures
            r.method@ == method_of(line@),
            r.target@ == target_of(line@),
            r.headers@ == Map::<Seq<char>, Seq<char>>::empty(),
            r.content_length == 0,
    {
        let (method, target) = request_line_parts(line);
        RequestHead { method, target, headers: QueryMap::new(), content_length: 0 }
    }

    /// Takes one header line; `true` at the blank line that ends the head.
    pub fn take_header_line(&mut self, line: &str) -> (done: bool)
        ensures
            final(self).method@ == old(self).method@,
            final(self).target@ == old(self).target@,
            match header_line_of(line@) {
                HeaderLineView::End => done && final(self).headers@ == old(self).headers@
                    && final(self).content_length == old(self).content_length,
                HeaderLineView::Other => !done && final(self).headers@ == old(self).headers@
                    && final(self).content_length == old(self).content_length,
                HeaderLineView::Field { name, value } => !done && final(self).headers@ == old(self).headers@.insert(
                    name,
                    value,
                ) && final(self).content_length == (if name == "content-length"@ {
                    match usize_text(value) {
                        Some(n) => n,
                        None => 0,
                    }
                } else {
                    old(self).content_length as int
                }),
            },
    {
        match parse_header_line(line) {
            HeaderLine::End => true,
            HeaderLine::Other => false,
            HeaderLine::Field { name, value } => {
                proof {
                    reveal_strlit("content-length");
                }
                if crate::text::str_eq(name.as_str(), "content-length") {
                    self.content_length = content_length_value(value.as_str());
                }
                self.headers.insert(name, value);
                false
            },
        }
    }
}

} // verus!
