//! Request targets: splitting the path from the query, decoding query pairs,
//! and cutting a path into segments.
use vstd::prelude::*;
use crate::text::{
    char_pred, chars_eq, chars_of, first_index_of, index_of_char, lemma_first_index_bounds,
    lemma_strip_end_skip, lemma_strip_start_skip, push_char, split_char, split_on, string_of,
    string_of_range, strip_end, strip_start, views_of,
};

verus! {

/// A string-keyed table in insertion order; a later insert of the same key
/// shadows the earlier one, as a `HashMap` overwrite does.
#[derive(Debug, Clone)]
pub struct QueryMap {
    pub entries: Vec<(String, String)>,
}

pub open spec fn pair_views(s: Seq<(String, String)>) -> Seq<(Seq<char>, Seq<char>)> {
    s.map_values(|e: (String, String)| (e.0@, e.1@))
}

/// The table a sequence of pairs denotes: later pairs win.
pub open spec fn pairs_map(s: Seq<(Seq<char>, Seq<char>)>) -> Map<Seq<char>, Seq<char>>
    decreases s.len(),
{
    if s.len() == 0 {
        Map::empty()
    } else {
        pairs_map(s.drop_last()).insert(s.last().0, s.last().1)
    }
}

impl View for QueryMap {
    type V = Map<Seq<char>, Seq<char>>;

    open spec fn view(&self) -> Map<Seq<char>, Seq<char>> {
        pairs_map(pair_views(self.entries@))
    }
}

pub proof fn lemma_pairs_map_tail(s: Seq<(Seq<char>, Seq<char>)>, j: int, k: Seq<char>)
    requires
        0 <= j <= s.len(),
        forall|i: int| j <= i < s.len() ==> (#[trigger] s[i]).0 != k,
    ensures
        pairs_map(s).contains_key(k) == pairs_map(s.subrange(0, j)).contains_key(k),
        pairs_map(s).contains_key(k) ==> pairs_map(s)[k] == pairs_map(s.subrange(0, j))[k],
    decreases s.len() - j,
{
    if j < s.len() {
        assert(s.drop_last().len() == s.len() - 1);
        assert forall|i: int| j <= i < s.drop_last().len() implies (#[trigger] s.drop_last()[i]).0
            != k by {
            assert(s.drop_last()[i] == s[i]);
        }
        lemma_pairs_map_tail(s.drop_last(), j, k);
        assert(s.drop_last().subrange(0, j) =~= s.subrange(0, j));
    } else {
        assert(s.subrange(0, j) =~= s);
    }
}

impl QueryMap {
    pub fn new() -> (m: Self)
        ensures
            m@ == Map::<Seq<char>, Seq<char>>::empty(),
            m.entries@.len() == 0,
    {
        QueryMap { entries: Vec::new() }
    }

    pub fn insert(&mut self, key: String, value: String)
        ensures
            final(self)@ == old(self)@.insert(key@, value@),
            final(self).entries@ == old(self).entries@.push((key, value)),
    {
        let ghost k = key@;
        let ghost v = value@;
        self.entries.push((key, value));
        proof {
            let s = pair_views(self.entries@);
            assert(s.drop_last() =~= pair_views(old(self).entries@));
            assert(s.last() == (k, v));
        }
    }

    /// The value stored under `key`.
    pub fn get(&self, key: &str) -> (r: Option<String>)
        ensures
            r is Some == self@.contains_key(key@),
            r is Some ==> r->0@ == self@[key@],
    {
        let ghost s = pair_views(self.entries@);
        let kv = chars_of(key);
        let mut j: usize = self.entries.len();
        while j > 0
            invariant
                j <= self.entries@.len(),
                s == pair_views(self.entries@),
                kv@ == key@,
                forall|i: int| j <= i < s.len() ==> (#[trigger] s[i]).0 != key@,
            decreases j,
        {
            let entry = &self.entries[j - 1];
            let ek = chars_of(entry.0.as_str());
            if chars_eq(ek.as_slice(), kv.as_slice()) {
                proof {
                    lemma_pairs_map_tail(s, j as int, key@);
                    let t = s.subrange(0, j as int);
                    assert(t.last() == s[j - 1]);
                    assert(pairs_map(t) == pairs_map(t.drop_last()).insert(t.last().0, t.last().1));
                }
                return Some(entry.1.clone());
            }
            j = j - 1;
        }
        proof {
            lemma_pairs_map_tail(s, 0, key@);
            assert(s.subrange(0, 0).len() == 0);
        }
        None
    }

    /// Whether a value is stored under `key`.
    pub fn contains_key(&self, key: &str) -> (r: bool)
        ensures
            r == self@.contains_key(key@),
    {
        self.get(key).is_some()
    }
}

/// The path and query halves of a request target: `split_target`.
pub open spec fn target_parts(t: Seq<char>) -> (Seq<char>, Seq<char>) {
    let i = first_index_of(t, '?');
    if i < t.len() {
        (t.subrange(0, i), t.subrange(i + 1, t.len() as int))
    } else {
        (t, Seq::empty())
    }
}

/// Splits `path?query` at the first `?`; without one the query is empty.
pub fn split_target(target: &str) -> (r: (String, String))
    ensures
        (r.0@, r.1@) == target_parts(target@),
{
    let v = chars_of(target);
    let i = index_of_char(v.as_slice(), '?');
    proof {
        lemma_first_index_bounds(v@, '?');
    }
    if i < v.len() {
        (string_of_range(v.as_slice(), 0, i), string_of_range(v.as_slice(), i + 1, v.len()))
    } else {
        assert(v@.subrange(0, v@.len() as int) =~= v@);
        (string_of_range(v.as_slice(), 0, v.len()), String::new())
    }
}

pub open spec fn plus_to_space(s: Seq<char>) -> Seq<char> {
    s.map_values(|c: char| if c == '+' { ' ' } else { c })
}

/// The key and value of one `key=value` part; a part without `=` is all key.
pub open spec fn query_pair(p: Seq<char>) -> (Seq<char>, Seq<char>) {
    let i = first_index_of(p, '=');
    if i < p.len() {
        (p.subrange(0, i), plus_to_space(p.subrange(i + 1, p.len() as int)))
    } else {
        (p, Seq::empty())
    }
}

/// The pairs of the non-empty parts, in order.
pub open spec fn query_pairs(parts: Seq<Seq<char>>) -> Seq<(Seq<char>, Seq<char>)>
    decreases parts.len(),
{
    if parts.len() == 0 {
        Seq::empty()
    } else if parts.last().len() == 0 {
        query_pairs(parts.drop_last())
    } else {
        query_pairs(parts.drop_last()).push(query_pair(parts.last()))
    }
}

/// The table `parse_query` builds from a query string.
pub open spec fn query_table(q: Seq<char>) -> Map<Seq<char>, Seq<char>> {
    pairs_map(query_pairs(split_on(q, '&')))
}

fn plus_to_space_string(v: &[char], from: usize, to: usize) -> (r: String)
    requires
        from <= to <= v@.len(),
    ensures
        r@ == plus_to_space(v@.subrange(from as int, to as int)),
{
    let mut r = String::new();
    let mut i: usize = from;
    while i < to
        invariant
            from <= i <= to <= v@.len(),
            r@ == plus_to_space(v@.subrange(from as int, i as int)),
        decreases to - i,
    {
        let c = if v[i] == '+' {
            ' '
        } else {
            v[i]
        };
        push_char(&mut r, c);
        i = i + 1;
        assert(r@ =~= plus_to_space(v@.subrange(from as int, i as int)));
    }
    r
}

fn query_pair_of(part: &str) -> (r: (String, String))
    ensures
        (r.0@, r.1@) == query_pair(part@),
{
    let v = chars_of(part);
    let i = index_of_char(v.as_slice(), '=');
    if i < v.len() {
        (string_of_range(v.as_slice(), 0, i), plus_to_space_string(v.as_slice(), i + 1, v.len()))
    } else {
        (string_of(v.as_slice()), String::new())
    }
}

/// Decodes `a=1&b=2`: empty parts are skipped, `+` in a value becomes a
/// space, and a later repeat of a key replaces the earlier value.
pub fn parse_query(query: &str) -> (r: QueryMap)
    ensures
        r@ == query_table(query@),
        pair_views(r.entries@) == query_pairs(split_on(query@, '&')),
{
    let parts = split_char(query, '&');
    let mut map = QueryMap::new();
    let mut i: usize = 0;
    while i < parts.len()
        invariant
            i <= parts@.len(),
            views_of(parts@) == split_on(query@, '&'),
            pair_views(map.entries@) == query_pairs(views_of(parts@).subrange(0, i as int)),
        decreases parts@.len() - i,
    {
        let ghost before = map.entries@;
        let part = &parts[i];
        let ghost ps = views_of(parts@).subrange(0, i + 1);
        proof {
            assert(ps.drop_last() =~= views_of(parts@).subrange(0, i as int));
            assert(ps.last() == part@);
        }
        let pv = chars_of(part.as_str());
        if pv.len() > 0 {
            let (k, val) = query_pair_of(part.as_str());
            map.insert(k, val);
            proof {
                assert(pair_views(map.entries@) =~= pair_views(before).push(query_pair(part@)));
            }
        }
        i = i + 1;
    }
    proof {
        assert(views_of(parts@).subrange(0, parts@.len() as int) =~= views_of(parts@));
    }
    map
}

/// The non-empty pieces, in order.
pub open spec fn non_empty(parts: Seq<Seq<char>>) -> Seq<Seq<char>>
    decreases parts.len(),
{
    if parts.len() == 0 {
        Seq::empty()
    } else if parts.last().len() == 0 {
        non_empty(parts.drop_last())
    } else {
        non_empty(parts.drop_last()).push(parts.last())
    }
}

/// The segments of a path: leading and trailing `/` removed, split on `/`,
/// empty pieces dropped.
pub open spec fn path_segments_of(p: Seq<char>) -> Seq<Seq<char>> {
    non_empty(split_on(strip_end(strip_start(p, char_pred('/')), char_pred('/')), '/'))
}

fn trim_slashes(s: &str) -> (r: String)
    ensures
        r@ == strip_end(strip_start(s@, char_pred('/')), char_pred('/')),
{
    let v = chars_of(s);
    let n = v.len();
    let mut i: usize = 0;
    while i < n && v[i] == '/'
        invariant
            i <= n,
            n == v@.len(),
            forall|k: int| 0 <= k < i ==> char_pred('/')(#[trigger] v@[k]),
        decreases n - i,
    {
        i = i + 1;
    }
    proof {
        lemma_strip_start_skip(v@, char_pred('/'), i as int);
        let t = v@.subrange(i as int, n as int);
        if i < n {
            assert(t[0] == v@[i as int]);
        }
        assert(strip_start(v@, char_pred('/')) == t);
    }
    let mut j: usize = n;
    while j > i && v[j - 1] == '/'
        invariant
            i <= j <= n,
            n == v@.len(),
            forall|k: int| j <= k < n ==> char_pred('/')(#[trigger] v@[k]),
        decreases j - i,
    {
        j = j - 1;
    }
    proof {
        let t = v@.subrange(i as int, n as int);
        assert forall|k: int| (j - i) <= k < t.len() implies char_pred('/')(#[trigger] t[k]) by {
            assert(t[k] == v@[k + i]);
        }
        lemma_strip_end_skip(t, char_pred('/'), (j - i) as int);
        let u = t.subrange(0, (j - i) as int);
        assert(u =~= v@.subrange(i as int, j as int));
        if j > i {
            assert(u.last() == v@[j - 1]);
        }
        assert(strip_end(u, char_pred('/')) == u);
    }
    string_of_range(v.as_slice(), i, j)
}

/// `path.trim_matches('/').split('/')` without the empty pieces.
pub fn path_segments(path: &str) -> (r: Vec<String>)
    ensures
        views_of(r@) == path_segments_of(path@),
{
    let trimmed = trim_slashes(path);
    let parts = split_char(trimmed.as_str(), '/');
    let mut out: Vec<String> = Vec::new();
    let mut i: usize = 0;
    while i < parts.len()
        invariant
            i <= parts@.len(),
            views_of(parts@) == split_on(trimmed@, '/'),
            views_of(out@) == non_empty(views_of(parts@).subrange(0, i as int)),
        decreases parts@.len() - i,
    {
        let ghost ps = views_of(parts@).subrange(0, i + 1);
        let ghost before = out@;
        proof {
            assert(ps.drop_last() =~= views_of(parts@).subrange(0, i as int));
            assert(ps.last() == parts@[i as int]@);
        }
        let pv = chars_of(parts[i].as_str());
        if pv.len() > 0 {
            out.push(parts[i].clone());
            proof {
                assert(views_of(out@) =~= views_of(before).push(parts@[i as int]@));
            }
        }
        i = i + 1;
    }
    proof {
        assert(views_of(parts@).subrange(0, parts@.len() as int) =~= views_of(parts@));
    }
    out
}

} // verus!
