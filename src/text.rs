use vstd::prelude::*;
use vstd::std_specs::iter::IteratorSpec;

verus! {

broadcast use vstd::string::group_string_axioms;

/// The characters of `s`, one element per Unicode scalar value.
pub fn chars_of(s: &str) -> (r: Vec<char>)
    ensures
        r@ == s@,
{
    let mut it = s.chars();
    let mut r: Vec<char> = Vec::new();
    loop
        invariant
            r@ + it.remaining() == s@,
            it.obeys_prophetic_iter_laws(),
            it.decrease() is Some,
        ensures
            r@ == s@,
        decreases it.decrease()->0,
    {
        match it.next() {
            Some(c) => {
                r.push(c);
            },
            None => {
                assert(r@ =~= r@ + it.remaining());
                break;
            },
        }
    }
    r
}

/// Whether `c` has the Unicode `White_Space` property, as `char::is_whitespace` decides it.
pub open spec fn is_white(c: char) -> bool {
    let u = c as u32;
    (0x09 <= u && u <= 0x0D) || u == 0x20 || u == 0x85 || u == 0xA0 || u == 0x1680 || (0x2000
        <= u && u <= 0x200A) || u == 0x2028 || u == 0x2029 || u == 0x202F || u == 0x205F || u
        == 0x3000
}

pub fn is_white_char(c: char) -> (r: bool)
    ensures
        r == is_white(c),
{
    let u = c as u32;
    (0x09 <= u && u <= 0x0D) || u == 0x20 || u == 0x85 || u == 0xA0 || u == 0x1680 || (0x2000
        <= u && u <= 0x200A) || u == 0x2028 || u == 0x2029 || u == 0x202F || u == 0x205F || u
        == 0x3000
}

/// `s` without its leading white space.
pub open spec fn trim_start(s: Seq<char>) -> Seq<char>
    decreases s.len(),
{
    if s.len() > 0 && is_white(s[0]) {
        trim_start(s.drop_first())
    } else {
        s
    }
}

/// `s` without its trailing white space.
pub open spec fn trim_end(s: Seq<char>) -> Seq<char>
    decreases s.len(),
{
    if s.len() > 0 && is_white(s.last()) {
        trim_end(s.drop_last())
    } else {
        s
    }
}

/// `s` without white space at either end.
pub open spec fn trim(s: Seq<char>) -> Seq<char> {
    trim_end(trim_start(s))
}

/// The bounds of `v[lo..hi]` once white space is taken off both ends.
pub fn trim_bounds(v: &Vec<char>, lo: usize, hi: usize) -> (r: (usize, usize))
    requires
        lo <= hi <= v.len(),
    ensures
        lo <= r.0 <= r.1 <= hi,
        v@.subrange(r.0 as int, r.1 as int) == trim(v@.subrange(lo as int, hi as int)),
{
    let mut a = lo;
    while a < hi && is_white_char(v[a])
        invariant
            lo <= a <= hi <= v.len(),
            trim_start(v@.subrange(a as int, hi as int)) == trim_start(
                v@.subrange(lo as int, hi as int),
            ),
        decreases hi - a,
    {
        assert(v@.subrange(a as int, hi as int).drop_first() =~= v@.subrange(a + 1, hi as int));
        a = a + 1;
    }
    let mut b = hi;
    while b > a && is_white_char(v[b - 1])
        invariant
            lo <= a <= b <= hi <= v.len(),
            trim_end(v@.subrange(a as int, b as int)) == trim_end(v@.subrange(a as int, hi as int)),
        decreases b - a,
    {
        assert(v@.subrange(a as int, b as int).drop_last() =~= v@.subrange(a as int, b - 1));
        b = b - 1;
    }
    (a, b)
}

/// The first line of `s` that holds more than white space, trimmed, scanning from position `i`
/// of the line that begins at `start`. Lines end at `'\n'`.
pub open spec fn first_text_line(s: Seq<char>, start: int, i: int) -> Option<Seq<char>>
    decreases s.len() - i,
{
    if i >= s.len() || s[i] == '\n' {
        let t = trim(s.subrange(start, i));
        if t.len() > 0 {
            Some(t)
        } else if i >= s.len() {
            None
        } else {
            first_text_line(s, i + 1, i + 1)
        }
    } else {
        first_text_line(s, start, i + 1)
    }
}

/// The longest a title taken from a plain line can be, in characters.
pub const TITLE_MAX_CHARS: usize = 50;

/// The title of a note whose body text is `body`.
pub open spec fn title_of(body: Seq<char>) -> Seq<char> {
    match first_text_line(body, 0, 0) {
        None => seq!['U', 'n', 't', 'i', 't', 'l', 'e', 'd'],
        Some(t) => if t.len() >= 2 && t[0] == '#' && t[1] == ' ' {
            trim(t.skip(2))
        } else if t.len() > TITLE_MAX_CHARS {
            t.take(TITLE_MAX_CHARS as int)
        } else {
            t
        },
    }
}

/// The display title of a note: the text of its first heading line (`# ...`), or the first
/// characters of its first line that holds text, or `Untitled` for a blank note.
pub fn extract_title(body: &str) -> (r: String)
    ensures
        r@ == title_of(body@),
{
    let v = chars_of(body);
    let n = v.len();
    let mut start: usize = 0;
    let mut i: usize = 0;
    loop
        invariant
            v@ == body@,
            n == v.len(),
            start <= i <= n,
            first_text_line(v@, start as int, i as int) == first_text_line(v@, 0, 0),
        decreases n - i,
    {
        if i == n || v[i] == '\n' {
            let (a, b) = trim_bounds(&v, start, i);
            if a < b {
                let ghost line = v@.subrange(a as int, b as int);
                if b - a >= 2 && v[a] == '#' && v[a + 1] == ' ' {
                    let (c, d) = trim_bounds(&v, a + 2, b);
                    assert(line.skip(2) =~= v@.subrange(a + 2, b as int));
                    return String::from_str(body.substring_char(c, d));
                } else if b - a > TITLE_MAX_CHARS {
                    assert(line.take(TITLE_MAX_CHARS as int) =~= v@.subrange(
                        a as int,
                        a + TITLE_MAX_CHARS,
                    ));
                    return String::from_str(body.substring_char(a, a + TITLE_MAX_CHARS));
                } else {
                    return String::from_str(body.substring_char(a, b));
                }
            }
            if i == n {
                let r = String::from_str("Untitled");
                proof {
                    reveal_strlit("Untitled");
                }
                assert(r@ =~= seq!['U', 'n', 't', 'i', 't', 'l', 'e', 'd']);
                return r;
            }
            i = i + 1;
            start = i;
        } else {
            i = i + 1;
        }
    }
}

} // verus!
