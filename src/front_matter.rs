use vstd::prelude::*;

use crate::text::chars_of;

verus! {

broadcast use vstd::string::group_string_axioms;

/// Whether a delimiter line `---` starts at position `k` of `c`: the three dashes stand at the
/// start of a line and are followed by a line break or by the end of the text.
pub open spec fn delim_line_at(c: Seq<char>, k: int) -> bool {
    &&& 0 <= k
    &&& k + 3 <= c.len()
    &&& (k == 0 || c[k - 1] == '\n')
    &&& c[k] == '-'
    &&& c[k + 1] == '-'
    &&& c[k + 2] == '-'
    &&& (k + 3 == c.len() || c[k + 3] == '\n')
}

/// No line of `s` is a delimiter line.
pub open spec fn free_of_delim_lines(s: Seq<char>) -> bool {
    forall|k: int| 0 <= k < s.len() ==> !#[trigger] delim_line_at(s, k)
}

/// The first position at or after `k` where a delimiter line starts.
pub open spec fn closing_from(c: Seq<char>, k: int) -> Option<int>
    decreases c.len() - k,
{
    if k >= c.len() || k < 0 {
        None
    } else if delim_line_at(c, k) {
        Some(k)
    } else {
        closing_from(c, k + 1)
    }
}

/// The text after a delimiter line that starts at `p`, without the one line break that ends it.
pub open spec fn text_after(c: Seq<char>, p: int) -> Seq<char> {
    let after = c.skip(p + 3);
    if after.len() > 0 && after[0] == '\n' {
        after.skip(1)
    } else {
        after
    }
}

/// Splits a file's text into its metadata block and its body. The text must open with a
/// delimiter line; the block runs up to the next delimiter line, and the body is what follows.
pub open spec fn split_text(c: Seq<char>) -> Option<(Seq<char>, Seq<char>)> {
    if !delim_line_at(c, 0) {
        None
    } else {
        match closing_from(c, 1) {
            None => None,
            Some(p) => Some((c.subrange(4, p), text_after(c, p))),
        }
    }
}

/// The opening of a file: a delimiter line.
pub open spec fn opening() -> Seq<char> {
    seq!['-', '-', '-', '\n']
}

/// A metadata block and a body put together in the file format.
pub open spec fn joined_text(header: Seq<char>, body: Seq<char>) -> Seq<char> {
    opening() + header + opening() + body
}

fn is_delim_line_at(v: &Vec<char>, k: usize) -> (r: bool)
    ensures
        r == delim_line_at(v@, k as int),
{
    let n = v.len();
    k <= n && n - k >= 3 && (k == 0 || v[k - 1] == '\n') && v[k] == '-' && v[k + 1] == '-' && v[k
        + 2] == '-' && (n - k == 3 || v[k + 3] == '\n')
}

/// Splits `content` into its metadata block and its body; `None` where it does not open with a
/// delimiter line or has no closing one.
pub fn split_front_matter(content: &str) -> (r: Option<(String, String)>)
    ensures
        match r {
            Some((h, b)) => split_text(content@) == Some((h@, b@)),
            None => split_text(content@) is None,
        },
{
    let v = chars_of(content);
    let n = v.len();
    if !is_delim_line_at(&v, 0) {
        return None;
    }
    let mut k: usize = 1;
    while k < n && !is_delim_line_at(&v, k)
        invariant
            v@ == content@,
            n == v.len(),
            1 <= k <= n,
            closing_from(v@, k as int) == closing_from(v@, 1),
        decreases n - k,
    {
        k = k + 1;
    }
    if k == n {
        return None;
    }
    assert(k >= 4);
    let header = content.substring_char(4, k).to_owned();
    let body = if n - k > 3 {
        assert(content@.skip(k + 3).skip(1) =~= content@.subrange(k + 4, n as int));
        content.substring_char(k + 4, n).to_owned()
    } else {
        assert(content@.skip(k + 3) =~= Seq::<char>::empty());
        String::new()
    };
    Some((header, body))
}

/// Where a delimiter line opens `c` and the next one starts at `p`, no other one lying between,
/// the search from `k` finds `p`.
proof fn lemma_closing_found(c: Seq<char>, k: int, p: int)
    requires
        0 <= k <= p,
        delim_line_at(c, p),
        forall|j: int| k <= j < p ==> !#[trigger] delim_line_at(c, j),
    ensures
        closing_from(c, k) == Some(p),
    decreases p - k,
{
    if k < p {
        lemma_closing_found(c, k + 1, p);
    }
}

/// A metadata block that ends with a line break and holds no delimiter line comes back whole
/// from splitting the joined text, and so does the body, whatever it holds.
pub proof fn lemma_split_joined(header: Seq<char>, body: Seq<char>)
    requires
        header.len() > 0,
        header.last() == '\n',
        free_of_delim_lines(header),
    ensures
        split_text(joined_text(header, body)) == Some((header, body)),
{
    let c = joined_text(header, body);
    let p: int = 4 + header.len() as int;
    assert(c[0] == '-' && c[1] == '-' && c[2] == '-' && c[3] == '\n');
    assert forall|j: int| 0 <= j < header.len() implies c[4 + j] == header[j] by {}
    assert forall|i: int| 0 <= i < 4 implies c[p + i] == opening()[i] by {}
    assert(c[p - 1] == '\n');
    assert(delim_line_at(c, 0));
    assert(delim_line_at(c, p));
    assert forall|j: int| 1 <= j < p implies !#[trigger] delim_line_at(c, j) by {
        if j >= 4 && delim_line_at(c, j) {
            let i = j - 4;
            assert(c[p - 1] == header[header.len() - 1]);
            if i + 3 <= header.len() {
                if i + 3 < header.len() {
                    assert(c[j + 3] == header[i + 3]);
                }
                assert(c[j] == header[i]);
                assert(c[j + 1] == header[i + 1]);
                assert(c[j + 2] == header[i + 2]);
                if i > 0 {
                    assert(c[j - 1] == header[i - 1]);
                }
                assert(delim_line_at(header, i));
            }
        }
    }
    lemma_closing_found(c, 1, p);
    assert(c.subrange(4, p) =~= header);
    assert(c.skip(p + 3)[0] == '\n');
    assert(c.skip(p + 3).skip(1) =~= body);
}

/// Whether `k` is a plain key: one or more lowercase ASCII letters and underscores.
pub open spec fn is_plain_key(k: Seq<char>) -> bool {
    &&& k.len() > 0
    &&& forall|i: int| 0 <= i < k.len() ==> (('a' <= #[trigger] k[i] && k[i] <= 'z') || k[i] == '_')
}

/// The views of a list of string pairs.
pub open spec fn pair_views(s: Seq<(String, String)>) -> Seq<(Seq<char>, Seq<char>)> {
    s.map_values(|p: (String, String)| (p.0@, p.1@))
}

/// The map that a list of string pairs gives, a later pair winning over an earlier one.
pub open spec fn entries_map(s: Seq<(String, String)>) -> Map<Seq<char>, Seq<char>>
    decreases s.len(),
{
    if s.len() == 0 {
        Map::empty()
    } else {
        entries_map(s.drop_last()).insert(s.last().0@, s.last().1@)
    }
}

/// No key appears twice in a list of string pairs.
pub open spec fn keys_distinct(s: Seq<(String, String)>) -> bool {
    forall|i: int, j: int| 0 <= i < j < s.len() ==> (#[trigger] s[i]).0@ != (#[trigger] s[j]).0@
}

/// The text that serde_yaml writes for a mapping of these string pairs, in this order.
pub uninterp spec fn yaml_text(entries: Seq<(Seq<char>, Seq<char>)>) -> Seq<char>;

/// The mapping that serde_yaml reads from a text into a map of strings, each scalar key and
/// value taken as it is written; `None` where the text is no mapping of scalars.
pub uninterp spec fn yaml_string_map(text: Seq<char>) -> Option<Map<Seq<char>, Seq<char>>>;

/// Relies on `serde_yaml::to_string` of a `serde_yaml::Mapping` of strings: one line per plain
/// key, with no line folding, a string that spans lines written as an indented block, so that
/// no line is `---`, and a style for each value that reads back as the same string.
#[verifier::external_body]
pub(crate) fn encode_string_map(entries: &Vec<(String, String)>) -> (r: String)
    requires
        entries.len() > 0,
        keys_distinct(entries@),
        forall|i: int| 0 <= i < entries.len() ==> is_plain_key((#[trigger] entries@[i]).0@),
    ensures
        r@ == yaml_text(pair_views(entries@)),
        yaml_string_map(r@) == Some(entries_map(entries@)),
        r@.len() > 0,
        r@.last() == '\n',
        free_of_delim_lines(r@),
{
    let mut m = serde_yaml::Mapping::new();
    for (k, v) in entries.iter() {
        m.insert(k.as_str().into(), v.as_str().into());
    }
    serde_yaml::to_string(&m).unwrap_or_default()
}

/// Relies on `serde_yaml::from_str` into a `BTreeMap<String, String>`, whose entries come out
/// with distinct keys.
#[verifier::external_body]
pub(crate) fn decode_string_map(text: &str) -> (r: Option<Vec<(String, String)>>)
    ensures
        match r {
            Some(es) => keys_distinct(es@) && yaml_string_map(text@) == Some(entries_map(es@)),
            None => yaml_string_map(text@) is None,
        },
{
    let m: std::collections::BTreeMap<String, String> = serde_yaml::from_str(text).ok()?;
    Some(m.into_iter().collect())
}

/// With distinct keys, each pair stands in the map, and the map holds no other key.
pub proof fn lemma_entries_map(s: Seq<(String, String)>)
    requires
        keys_distinct(s),
    ensures
        forall|j: int|
            0 <= j < s.len() ==> entries_map(s).contains_key((#[trigger] s[j]).0@)
                && entries_map(s)[s[j].0@] == s[j].1@,
        forall|k: Seq<char>|
            #[trigger] entries_map(s).contains_key(k) ==> exists|j: int|
                0 <= j < s.len() && (#[trigger] s[j]).0@ == k,
    decreases s.len(),
{
    if s.len() > 0 {
        let t = s.drop_last();
        assert(keys_distinct(t)) by {
            assert forall|i: int, j: int| 0 <= i < j < t.len() implies (#[trigger] t[i]).0@
                != (#[trigger] t[j]).0@ by {
                assert(t[i] == s[i] && t[j] == s[j]);
            }
        }
        lemma_entries_map(t);
        assert forall|j: int| 0 <= j < s.len() implies entries_map(s).contains_key(
            (#[trigger] s[j]).0@,
        ) && entries_map(s)[s[j].0@] == s[j].1@ by {
            if j < s.len() - 1 {
                assert(t[j] == s[j]);
                assert(s[j].0@ != s[s.len() - 1].0@);
            }
        }
        assert forall|k: Seq<char>| #[trigger] entries_map(s).contains_key(k) implies exists|
            j: int,
        | 0 <= j < s.len() && (#[trigger] s[j]).0@ == k by {
            if k == s.last().0@ {
                assert(s[s.len() - 1].0@ == k);
            } else {
                assert(entries_map(t).contains_key(k));
                let j = choose|j: int| 0 <= j < t.len() && (#[trigger] t[j]).0@ == k;
                assert(s[j] == t[j]);
            }
        }
    }
}

/// The value under `key` in a list of string pairs with distinct keys.
pub fn lookup(entries: &Vec<(String, String)>, key: &String) -> (r: Option<String>)
    requires
        keys_distinct(entries@),
    ensures
        match r {
            Some(v) => entries_map(entries@).contains_key(key@) && entries_map(entries@)[key@]
                == v@,
            None => !entries_map(entries@).contains_key(key@),
        },
{
    let mut i: usize = 0;
    while i < entries.len()
        invariant
            i <= entries.len(),
            keys_distinct(entries@),
            forall|j: int| 0 <= j < i ==> (#[trigger] entries@[j]).0@ != key@,
        decreases entries.len() - i,
    {
        if entries[i].0 == *key {
            proof {
                lemma_entries_map(entries@);
                assert(entries@[i as int].0@ == key@);
            }
            return Some(entries[i].1.clone());
        }
        i = i + 1;
    }
    proof {
        lemma_entries_map(entries@);
        if entries_map(entries@).contains_key(key@) {
            let j = choose|j: int| 0 <= j < entries@.len() && (#[trigger] entries@[j]).0@ == key@;
        }
    }
    None
}

} // verus!
