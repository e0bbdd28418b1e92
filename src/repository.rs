use vstd::prelude::*;

use crate::memo::{
    memo_of_text, meta_of_block, parse_memo_file_at, Memo, MemoMeta, MemoSummary, MemoView,
    SummaryView,
};
use crate::front_matter::{closing_from, delim_line_at, split_text};
use crate::text::{chars_of, extract_title, title_of};
use crate::timestamp::{current_time, Timestamp};

verus! {

broadcast use {vstd::string::group_string_axioms, vstd::seq_lib::group_to_multiset_ensures};

/// The listing entry of a note.
pub open spec fn summary_of(m: MemoView) -> SummaryView {
    SummaryView { id: m.id, title: title_of(m.body), created_at: m.created_at, updated_at: m.updated_at }
}

/// The views of a list of entries.
pub open spec fn summary_views(v: Seq<MemoSummary>) -> Seq<SummaryView> {
    v.map_values(|s: MemoSummary| s@)
}

/// The entries of the files that read as notes, in the order of `files`; each file is given by
/// its id, taken from its name, and its text.
pub open spec fn readable_summaries(files: Seq<(String, String)>, now: Timestamp) -> Seq<
    SummaryView,
>
    decreases files.len(),
{
    if files.len() == 0 {
        Seq::empty()
    } else {
        let earlier = readable_summaries(files.drop_last(), now);
        match memo_of_text(files.last().1@, files.last().0@, now) {
            Some(m) => earlier.push(summary_of(m)),
            None => earlier,
        }
    }
}

/// Each entry was updated no earlier than every entry after it.
pub open spec fn newest_first(s: Seq<SummaryView>) -> bool {
    forall|i: int, j: int| 0 <= i < j < s.len() ==> !#[trigger] s[i].updated_at.before(#[trigger] s[j].updated_at)
}

/// The listing entry of a note.
pub fn summarize(m: &Memo) -> (r: MemoSummary)
    ensures
        r@ == summary_of(m@),
{
    MemoSummary {
        id: m.meta.id.clone(),
        title: extract_title(m.body.as_str()),
        created_at: m.meta.created_at,
        updated_at: m.meta.updated_at,
    }
}

/// Puts `s` into `sorted` after every entry updated no earlier than it, keeping the list newest
/// first.
fn insert_by_update(sorted: &mut Vec<MemoSummary>, s: MemoSummary)
    requires
        newest_first(summary_views(old(sorted)@)),
    ensures
        newest_first(summary_views(final(sorted)@)),
        summary_views(final(sorted)@).to_multiset() == summary_views(old(sorted)@).to_multiset().insert(s@),
{
    let ghost before = summary_views(sorted@);
    let mut pos: usize = 0;
    while pos < sorted.len() && !sorted[pos].updated_at.is_before(&s.updated_at)
        invariant
            pos <= sorted.len(),
            summary_views(sorted@) == before,
            forall|i: int| 0 <= i < pos ==> !(#[trigger] sorted@[i]).updated_at.before(s.updated_at),
        decreases sorted.len() - pos,
    {
        pos = pos + 1;
    }
    let ghost sv = s@;
    sorted.insert(pos, s);
    proof {
        let after = summary_views(sorted@);
        assert(after =~= before.insert(pos as int, sv));
        assert forall|i: int, j: int| 0 <= i < j < after.len() implies !#[trigger] after[i].updated_at.before(#[trigger] after[j].updated_at) by {
            if j < pos {
                assert(after[i] == before[i]);
                assert(after[j] == before[j]);
            } else if i < pos && j == pos {
                assert(after[i] == before[i]);
            } else if i < pos && j > pos {
                assert(after[i] == before[i]);
                assert(after[j] == before[j - 1]);
            } else if i == pos {
                assert(after[j] == before[j - 1]);
                assert(before[pos as int].updated_at.before(sv.updated_at));
                if j - 1 > pos {
                    assert(!before[pos as int].updated_at.before(before[j - 1].updated_at));
                }
            } else {
                assert(after[i] == before[i - 1]);
                assert(after[j] == before[j - 1]);
            }
        }
    }
}

/// The listing of a directory's notes, newest first, from the id and text of each file in it;
/// a file whose text does not read as a note is left out. `now` stands for the current time
/// where a note's metadata block cannot be read.
pub fn list_memos_at(files: &Vec<(String, String)>, now: Timestamp) -> (r: Vec<MemoSummary>)
    ensures
        summary_views(r@).to_multiset() == readable_summaries(files@, now).to_multiset(),
        newest_first(summary_views(r@)),
{
    let mut r: Vec<MemoSummary> = Vec::new();
    let mut i: usize = 0;
    while i < files.len()
        invariant
            i <= files.len(),
            summary_views(r@).to_multiset() == readable_summaries(files@.take(i as int), now).to_multiset(),
            newest_first(summary_views(r@)),
        decreases files.len() - i,
    {
        let (id, content) = &files[i];
        assert(files@.take(i + 1).drop_last() =~= files@.take(i as int));
        match parse_memo_file_at(content.as_str(), id.as_str(), now) {
            Some(m) => {
                let s = summarize(&m);
                insert_by_update(&mut r, s);
            },
            None => {},
        }
        i = i + 1;
    }
    assert(files@.take(i as int) =~= files@);
    r
}

/// The listing of a directory's notes, newest first, from the id and text of each file in it;
/// a file whose text does not read as a note is left out.
pub fn list_memos(files: &Vec<(String, String)>) -> (r: Vec<MemoSummary>)
    ensures
        exists|now: Timestamp|
            now.wf() && summary_views(r@).to_multiset() == readable_summaries(files@, now).to_multiset(),
        newest_first(summary_views(r@)),
{
    let now = current_time();
    let r = list_memos_at(files, now);
    assert(now.wf() && summary_views(r@).to_multiset() == readable_summaries(files@, now).to_multiset());
    r
}

/// The name of the file that holds the note `id`.
pub open spec fn file_name_of(id: Seq<char>) -> Seq<char> {
    id + seq!['.', 'm', 'd']
}

/// The id of the note that a file of this name holds: the name without its `.md` extension,
/// where it has one and something stands before it.
pub open spec fn id_of_file_name(name: Seq<char>) -> Option<Seq<char>> {
    if name.len() > 3 && name.skip(name.len() - 3) == seq!['.', 'm', 'd'] {
        Some(name.take(name.len() - 3))
    } else {
        None
    }
}

/// The name of the file that holds the note `id`.
pub fn memo_file_name(id: &str) -> (r: String)
    ensures
        r@ == file_name_of(id@),
{
    let mut r = id.to_owned();
    r.append(".md");
    proof {
        reveal_strlit(".md");
    }
    assert(r@ =~= file_name_of(id@));
    r
}

/// The id of the note in the file `name`, or `None` where it is no note file.
pub fn memo_id_of_file_name(name: &str) -> (r: Option<String>)
    ensures
        match r {
            Some(id) => id_of_file_name(name@) == Some(id@),
            None => id_of_file_name(name@) is None,
        },
{
    let v = chars_of(name);
    let n = v.len();
    if n > 3 && v[n - 3] == '.' && v[n - 2] == 'm' && v[n - 1] == 'd' {
        assert(name@.skip(n - 3) =~= seq!['.', 'm', 'd']);
        Some(name.substring_char(0, n - 3).to_owned())
    } else {
        proof {
            if n > 3 {
                let tail = name@.skip(n - 3);
                if tail == seq!['.', 'm', 'd'] {
                    assert(tail[0] == v@[n - 3]);
                    assert(tail[1] == v@[n - 2]);
                    assert(tail[2] == v@[n - 1]);
                }
            }
        }
        None
    }
}

/// The message of a load whose file text does not read as a note.
pub open spec fn parse_failure_message() -> Seq<char> {
    seq!['F', 'a', 'i', 'l', 'e', 'd', ' ', 't', 'o', ' ', 'p', 'a', 'r', 's', 'e', ' ', 'm', 'e', 'm', 'o']
}

/// The note `id` from the text of its file; an error where the text does not read as a note.
pub fn load_memo(id: &str, content: &str) -> (r: Result<Memo, String>)
    ensures
        r is Err <==> split_text(content@) is None,
        match r {
            Ok(m) => exists|now: Timestamp| now.wf() && memo_of_text(content@, id@, now) == Some(m@),
            Err(e) => e@ == parse_failure_message(),
        },
{
    let now = current_time();
    match parse_memo_file_at(content, id, now) {
        Some(m) => {
            assert(now.wf() && memo_of_text(content@, id@, now) == Some(m@));
            Ok(m)
        },
        None => {
            let e = String::from_str("Failed to parse memo");
            proof {
                reveal_strlit("Failed to parse memo");
            }
            assert(e@ =~= parse_failure_message());
            Err(e)
        },
    }
}

/// The note that saving `body` under `id` at the instant `now` writes, given the text of the
/// note's file where there is one: a note read from that text keeps its id and creation time,
/// and a missing or unreadable file gives a new note.
pub open spec fn saved_memo(existing: Option<Seq<char>>, id: Seq<char>, body: Seq<char>, now: Timestamp) -> MemoView {
    let fresh = MemoView { id, created_at: now, updated_at: now, body };
    match existing {
        None => fresh,
        Some(c) => match memo_of_text(c, id, now) {
            Some(m) => MemoView { updated_at: now, body, ..m },
            None => fresh,
        },
    }
}

/// The view of optional text.
pub open spec fn text_view(s: Option<&str>) -> Option<Seq<char>> {
    match s {
        Some(t) => Some(t@),
        None => None,
    }
}

/// The note that saving `body` under `id` at the instant `now` writes; `existing` is the text of
/// the note's file where there is one.
pub fn save_memo_at(id: &str, body: String, existing: Option<&str>, now: Timestamp) -> (r: Memo)
    requires
        now.wf(),
    ensures
        r@ == saved_memo(text_view(existing), id@, body@, now),
        r.wf(),
{
    let fresh_meta = MemoMeta { id: id.to_owned(), created_at: now, updated_at: now };
    match existing {
        Some(content) => match parse_memo_file_at(content, id, now) {
            Some(m) => {
                let meta = MemoMeta { id: m.meta.id, created_at: m.meta.created_at, updated_at: now };
                Memo { meta, body }
            },
            None => Memo { meta: fresh_meta, body },
        },
        None => Memo { meta: fresh_meta, body },
    }
}

/// The note that saving `body` under `id` now writes; `existing` is the text of the note's file
/// where there is one.
pub fn save_memo(id: &str, body: String, existing: Option<&str>) -> (r: Memo)
    ensures
        exists|now: Timestamp| now.wf() && r@ == saved_memo(text_view(existing), id@, body@, now),
        r.wf(),
{
    let now = current_time();
    let ghost b = body@;
    let r = save_memo_at(id, body, existing, now);
    assert(now.wf() && r@ == saved_memo(text_view(existing), id@, b, now));
    r
}

/// A new, empty note with the id `id`, created at `now`.
pub fn create_memo_at(id: String, now: Timestamp) -> (r: Memo)
    requires
        now.wf(),
    ensures
        r@ == (MemoView { id: id@, created_at: now, updated_at: now, body: Seq::empty() }),
        r.wf(),
{
    Memo { meta: MemoMeta { id, created_at: now, updated_at: now }, body: String::new() }
}

/// Whether `c` is a lowercase hexadecimal digit.
pub open spec fn is_lower_hex(c: char) -> bool {
    ('0' <= c && c <= '9') || ('a' <= c && c <= 'f')
}

/// Whether `s` is a random (version 4) UUID in hyphenated form: 36 characters, hyphens at
/// positions 8, 13, 18 and 23, lowercase hexadecimal digits elsewhere, the version digit `4` at
/// position 14 and one of `8`, `9`, `a`, `b` at position 19.
pub open spec fn is_hyphenated_uuid(s: Seq<char>) -> bool {
    &&& s.len() == 36
    &&& s[14] == '4'
    &&& (s[19] == '8' || s[19] == '9' || s[19] == 'a' || s[19] == 'b')
    &&& forall|i: int|
        0 <= i < 36 ==> if i == 8 || i == 13 || i == 18 || i == 23 {
            #[trigger] s[i] == '-'
        } else {
            is_lower_hex(s[i])
        }
}

/// Relies on `uuid::Uuid::new_v4`, which sets the version and variant bits, and its
/// `to_string`, which writes the hyphenated lowercase form: a random id.
#[verifier::external_body]
fn new_memo_id() -> (r: String)
    ensures
        is_hyphenated_uuid(r@),
{
    uuid::Uuid::new_v4().to_string()
}

/// A new, empty note with a fresh random id, created now.
pub fn create_memo() -> (r: Memo)
    ensures
        is_hyphenated_uuid(r.meta.id@),
        r.body@.len() == 0,
        r.meta.created_at == r.meta.updated_at,
        r.wf(),
{
    let id = new_memo_id();
    let now = current_time();
    create_memo_at(id, now)
}

/// A text that does not start with the three dashes `---` reads as no note.
pub proof fn lemma_no_header_no_memo(content: Seq<char>, fallback_id: Seq<char>, now: Timestamp)
    requires
        !(content.len() >= 3 && content[0] == '-' && content[1] == '-' && content[2] == '-'),
    ensures
        memo_of_text(content, fallback_id, now) is None,
{
}

/// No delimiter line at or after `k`: the search from `k` finds nothing.
proof fn lemma_no_closing(c: Seq<char>, k: int)
    requires
        0 <= k,
        forall|j: int| k <= j < c.len() ==> !#[trigger] delim_line_at(c, j),
    ensures
        closing_from(c, k) is None,
    decreases c.len() - k,
{
    if k < c.len() {
        lemma_no_closing(c, k + 1);
    }
}

/// A text whose metadata block is never closed by a second delimiter line reads as no note.
pub proof fn lemma_unclosed_header_no_memo(content: Seq<char>, fallback_id: Seq<char>, now: Timestamp)
    requires
        forall|j: int| 1 <= j < content.len() ==> !#[trigger] delim_line_at(content, j),
    ensures
        memo_of_text(content, fallback_id, now) is None,
{
    lemma_no_closing(content, 1);
}

/// A text with both delimiter lines whose metadata block cannot be read still gives a note: its
/// body is the text after the closing delimiter line, its id is `fallback_id` and both its
/// timestamps are `now`.
pub proof fn lemma_unreadable_header_keeps_body(
    content: Seq<char>,
    block: Seq<char>,
    body: Seq<char>,
    fallback_id: Seq<char>,
    now: Timestamp,
)
    requires
        split_text(content) == Some((block, body)),
        meta_of_block(block) is None,
    ensures
        memo_of_text(content, fallback_id, now) == Some(
            MemoView { id: fallback_id, created_at: now, updated_at: now, body },
        ),
{
}

/// Saving new text over a note whose file has a readable metadata block keeps the note's id and
/// creation time as an earlier read of the file, at any clock reading, gave them, and sets its
/// update time to the save's own clock reading, which moves it forward where the clock reads
/// later than the note's last update.
pub proof fn lemma_save_keeps_identity(
    existing: Seq<char>,
    block: Seq<char>,
    old_body: Seq<char>,
    id: Seq<char>,
    body: Seq<char>,
    read_at: Timestamp,
    now: Timestamp,
    old_memo: MemoView,
)
    requires
        split_text(existing) == Some((block, old_body)),
        meta_of_block(block) is Some,
        memo_of_text(existing, id, read_at) == Some(old_memo),
    ensures
        ({
            let new_memo = saved_memo(Some(existing), id, body, now);
            &&& new_memo.id == old_memo.id
            &&& new_memo.created_at == old_memo.created_at
            &&& new_memo.updated_at == now
            &&& new_memo.body == body
            &&& old_memo.updated_at.before(now) ==> old_memo.updated_at.before(new_memo.updated_at)
        }),
{
}

/// A listing of one note's file and one file that does not read as a note holds the note's
/// entry alone.
pub proof fn lemma_unreadable_file_left_out(
    files: Seq<(String, String)>,
    now: Timestamp,
    listed: Seq<SummaryView>,
    m: MemoView,
)
    requires
        files.len() == 2,
        memo_of_text(files[0].1@, files[0].0@, now) == Some(m),
        memo_of_text(files[1].1@, files[1].0@, now) is None,
        listed.to_multiset() == readable_summaries(files, now).to_multiset(),
    ensures
        listed == seq![summary_of(m)],
{
    let s = summary_of(m);
    let f1 = files.drop_last();
    let f0 = f1.drop_last();
    assert(f0.len() == 0);
    assert(readable_summaries(f0, now) =~= Seq::<SummaryView>::empty());
    assert(f1.last() == files[0]);
    assert(readable_summaries(f1, now) == readable_summaries(f0, now).push(s));
    let all = readable_summaries(files, now);
    assert(all == readable_summaries(f1, now));
    assert(all =~= seq![s]);
    listed.to_multiset_ensures();
    all.to_multiset_ensures();
    assert(listed.len() == 1);
    assert(listed.contains(listed[0]));
    assert(listed.to_multiset().count(listed[0]) > 0);
    assert(all.to_multiset().count(listed[0]) > 0);
    assert(all.contains(listed[0]));
    assert(listed =~= seq![s]);
}

/// A listing of three notes whose update times strictly increase in the order of their files
/// shows them in the reverse order: newest, middle, oldest.
pub proof fn lemma_three_listed_newest_first(
    files: Seq<(String, String)>,
    now: Timestamp,
    listed: Seq<SummaryView>,
    m0: MemoView,
    m1: MemoView,
    m2: MemoView,
)
    requires
        files.len() == 3,
        memo_of_text(files[0].1@, files[0].0@, now) == Some(m0),
        memo_of_text(files[1].1@, files[1].0@, now) == Some(m1),
        memo_of_text(files[2].1@, files[2].0@, now) == Some(m2),
        m0.updated_at.before(m1.updated_at),
        m1.updated_at.before(m2.updated_at),
        listed.to_multiset() == readable_summaries(files, now).to_multiset(),
        newest_first(listed),
    ensures
        listed == seq![summary_of(m2), summary_of(m1), summary_of(m0)],
{
    let s0 = summary_of(m0);
    let s1 = summary_of(m1);
    let s2 = summary_of(m2);
    let f2 = files.drop_last();
    let f1 = f2.drop_last();
    let f0 = f1.drop_last();
    assert(f0.len() == 0);
    assert(readable_summaries(f0, now) =~= Seq::<SummaryView>::empty());
    assert(f1.last() == files[0]);
    assert(f2.last() == files[1]);
    assert(readable_summaries(f1, now) == readable_summaries(f0, now).push(s0));
    assert(readable_summaries(f2, now) == readable_summaries(f1, now).push(s1));
    let all = readable_summaries(files, now);
    assert(all == readable_summaries(f2, now).push(s2));
    assert(all =~= seq![s0, s1, s2]);
    assert(listed.len() == 3) by {
        listed.to_multiset_ensures();
        all.to_multiset_ensures();
    }
    assert forall|i: int| 0 <= i < 3 implies #[trigger] listed[i] == s0 || listed[i] == s1
        || listed[i] == s2 by {
        listed.to_multiset_ensures();
        all.to_multiset_ensures();
        assert(listed.contains(listed[i]));
        assert(listed.to_multiset().count(listed[i]) > 0);
        assert(all.to_multiset().count(listed[i]) > 0);
        assert(all.contains(listed[i]));
        let j = choose|j: int| 0 <= j < 3 && all[j] == listed[i];
        assert(all[j] == s0 || all[j] == s1 || all[j] == s2);
    }
    assert(listed.contains(s0) && listed.contains(s1) && listed.contains(s2)) by {
        listed.to_multiset_ensures();
        all.to_multiset_ensures();
        assert(all[0] == s0 && all[1] == s1 && all[2] == s2);
        assert(all.contains(s0) && all.contains(s1) && all.contains(s2));
        assert(all.to_multiset().count(s0) > 0);
        assert(all.to_multiset().count(s1) > 0);
        assert(all.to_multiset().count(s2) > 0);
        assert(listed.to_multiset().count(s0) > 0);
        assert(listed.to_multiset().count(s1) > 0);
        assert(listed.to_multiset().count(s2) > 0);
    }
    let i0 = choose|i: int| 0 <= i < 3 && listed[i] == s0;
    let i2 = choose|i: int| 0 <= i < 3 && listed[i] == s2;
    let i1 = choose|i: int| 0 <= i < 3 && listed[i] == s1;
    assert(listed[0] == listed[0]);
    assert(listed[1] == listed[1]);
    assert(listed[2] == listed[2]);
    if i2 != 0 {
        assert(!listed[0].updated_at.before(listed[i2].updated_at));
    }
    if i0 != 2 {
        assert(!listed[i0].updated_at.before(listed[2].updated_at));
    }
    assert(listed[0] == s2);
    assert(listed[2] == s0);
    assert(i1 == 1);
    assert(listed =~= seq![s2, s1, s0]);
}

} // verus!
