use vstd::prelude::*;

use crate::front_matter::{
    decode_string_map, encode_string_map, entries_map, is_plain_key, joined_text,
    keys_distinct, lemma_split_joined, lookup, split_front_matter, split_text, yaml_string_map,
    yaml_text,
};
use crate::timestamp::{
    current_time, format_rfc3339, read_timestamp, rfc3339_text, timestamp_of_text, Timestamp,
};

verus! {

broadcast use vstd::string::group_string_axioms;

/// The identity of a note and its two timestamps.
#[derive(Clone, Debug)]
pub struct MemoMeta {
    pub id: String,
    pub created_at: Timestamp,
    pub updated_at: Timestamp,
}

/// A note: its metadata and its body text.
#[derive(Clone, Debug)]
pub struct Memo {
    pub meta: MemoMeta,
    pub body: String,
}

/// What a listing shows of a note.
#[derive(Clone, Debug)]
pub struct MemoSummary {
    pub id: String,
    pub title: String,
    pub created_at: Timestamp,
    pub updated_at: Timestamp,
}

/// A note as a mathematical value.
pub struct MemoView {
    pub id: Seq<char>,
    pub created_at: Timestamp,
    pub updated_at: Timestamp,
    pub body: Seq<char>,
}

/// A listing entry as a mathematical value.
pub struct SummaryView {
    pub id: Seq<char>,
    pub title: Seq<char>,
    pub created_at: Timestamp,
    pub updated_at: Timestamp,
}

impl View for Memo {
    type V = MemoView;

    open spec fn view(&self) -> MemoView {
        MemoView {
            id: self.meta.id@,
            created_at: self.meta.created_at,
            updated_at: self.meta.updated_at,
            body: self.body@,
        }
    }
}

impl View for MemoSummary {
    type V = SummaryView;

    open spec fn view(&self) -> SummaryView {
        SummaryView {
            id: self.id@,
            title: self.title@,
            created_at: self.created_at,
            updated_at: self.updated_at,
        }
    }
}

impl MemoView {
    /// Both timestamps can be written to a file.
    pub open spec fn wf(self) -> bool {
        self.created_at.wf() && self.updated_at.wf()
    }
}

impl Memo {
    pub open spec fn wf(&self) -> bool {
        self@.wf()
    }
}

/// The view of an optional note.
pub open spec fn memo_view_of(r: Option<Memo>) -> Option<MemoView> {
    match r {
        Some(m) => Some(m@),
        None => None,
    }
}

/// The metadata key of a note's id.
pub open spec fn id_key() -> Seq<char> {
    seq!['i', 'd']
}

/// The metadata key of a note's creation time.
pub open spec fn created_key() -> Seq<char> {
    seq!['c', 'r', 'e', 'a', 't', 'e', 'd', '_', 'a', 't']
}

/// The metadata key of a note's last update time.
pub open spec fn updated_key() -> Seq<char> {
    seq!['u', 'p', 'd', 'a', 't', 'e', 'd', '_', 'a', 't']
}

/// The identity and timestamps that a map of metadata fields records: all three keys must be
/// there, and chrono must read both timestamps. Other keys are ignored.
pub open spec fn meta_of_map(m: Map<Seq<char>, Seq<char>>) -> Option<(Seq<char>, Timestamp, Timestamp)> {
    if m.contains_key(id_key()) && m.contains_key(created_key()) && m.contains_key(updated_key()) {
        match (timestamp_of_text(m[created_key()]), timestamp_of_text(m[updated_key()])) {
            (Some(tc), Some(tu)) => Some((m[id_key()], tc, tu)),
            _ => None,
        }
    } else {
        None
    }
}

/// The identity and timestamps that a metadata block records, where serde_yaml reads it as a
/// mapping of scalars.
pub open spec fn meta_of_block(block: Seq<char>) -> Option<(Seq<char>, Timestamp, Timestamp)> {
    match yaml_string_map(block) {
        Some(m) => meta_of_map(m),
        None => None,
    }
}

/// The three metadata keys.
fn meta_keys() -> (r: (String, String, String))
    ensures
        r.0@ == id_key(),
        r.1@ == created_key(),
        r.2@ == updated_key(),
{
    let r = (String::from_str("id"), String::from_str("created_at"), String::from_str("updated_at"));
    proof {
        reveal_strlit("id");
        reveal_strlit("created_at");
        reveal_strlit("updated_at");
    }
    assert(r.0@ =~= id_key());
    assert(r.1@ =~= created_key());
    assert(r.2@ =~= updated_key());
    r
}

/// The metadata that a list of fields with distinct keys records.
pub fn meta_of_entries(entries: &Vec<(String, String)>) -> (r: Option<MemoMeta>)
    requires
        keys_distinct(entries@),
    ensures
        match r {
            Some(meta) => meta_of_map(entries_map(entries@)) == Some(
                (meta.id@, meta.created_at, meta.updated_at),
            ),
            None => meta_of_map(entries_map(entries@)) is None,
        },
{
    let (id_k, created_k, updated_k) = meta_keys();
    let id = match lookup(entries, &id_k) {
        Some(v) => v,
        None => {
            return None;
        },
    };
    let created = match lookup(entries, &created_k) {
        Some(v) => v,
        None => {
            return None;
        },
    };
    let updated = match lookup(entries, &updated_k) {
        Some(v) => v,
        None => {
            return None;
        },
    };
    match (read_timestamp(created.as_str()), read_timestamp(updated.as_str())) {
        (Some(tc), Some(tu)) => Some(MemoMeta { id, created_at: tc, updated_at: tu }),
        _ => None,
    }
}

/// The note that a file's text holds. Where the metadata block cannot be read, the note takes
/// `fallback_id` and the instant `now` for both timestamps, and keeps its body.
pub open spec fn memo_of_text(content: Seq<char>, fallback_id: Seq<char>, now: Timestamp) -> Option<
    MemoView,
> {
    match split_text(content) {
        None => None,
        Some((block, body)) => Some(
            match meta_of_block(block) {
                Some((id, created_at, updated_at)) => MemoView {
                    id,
                    created_at,
                    updated_at,
                    body,
                },
                None => MemoView { id: fallback_id, created_at: now, updated_at: now, body },
            },
        ),
    }
}

/// The metadata block of the file that holds `m`.
pub open spec fn memo_block(m: MemoView) -> Seq<char> {
    yaml_text(
        seq![
            (id_key(), m.id),
            (created_key(), rfc3339_text(m.created_at.secs, m.created_at.nanos)),
            (updated_key(), rfc3339_text(m.updated_at.secs, m.updated_at.nanos)),
        ],
    )
}

/// The metadata fields written for `m`, its timestamps in the texts `c` and `u`, are the ones
/// that its metadata block names.
spec fn pair_views_of_meta(entries: Seq<(String, String)>, m: MemoView, c: Seq<char>, u: Seq<char>) -> bool {
    &&& c == rfc3339_text(m.created_at.secs, m.created_at.nanos)
    &&& u == rfc3339_text(m.updated_at.secs, m.updated_at.nanos)
    &&& crate::front_matter::pair_views(entries) == seq![(id_key(), m.id), (created_key(), c), (updated_key(), u)]
}

/// The three metadata keys are plain keys.
proof fn lemma_meta_keys_plain()
    ensures
        is_plain_key(id_key()),
        is_plain_key(created_key()),
        is_plain_key(updated_key()),
{
    assert forall|i: int| 0 <= i < 10 implies (('a' <= #[trigger] created_key()[i] && created_key()[i] <= 'z') || created_key()[i] == '_') by {
        if i == 0 {} else if i == 1 {} else if i == 2 {} else if i == 3 {} else if i == 4 {} else if i == 5 {} else if i == 6 {} else if i == 7 {} else if i == 8 {} else {}
    }
    assert forall|i: int| 0 <= i < 10 implies (('a' <= #[trigger] updated_key()[i] && updated_key()[i] <= 'z') || updated_key()[i] == '_') by {
        if i == 0 {} else if i == 1 {} else if i == 2 {} else if i == 3 {} else if i == 4 {} else if i == 5 {} else if i == 6 {} else if i == 7 {} else if i == 8 {} else {}
    }
    assert forall|i: int| 0 <= i < 2 implies (('a' <= #[trigger] id_key()[i] && id_key()[i] <= 'z') || id_key()[i] == '_') by {
        if i == 0 {} else {}
    }
}

/// The text of the file that holds `m`.
pub open spec fn text_of_memo(m: MemoView) -> Seq<char> {
    joined_text(memo_block(m), m.body)
}

/// Reads a note from a file's text, with `now` standing for the current time where the
/// metadata block cannot be read.
pub fn parse_memo_file_at(content: &str, id: &str, now: Timestamp) -> (r: Option<Memo>)
    ensures
        memo_view_of(r) == memo_of_text(content@, id@, now),
{
    let (block, body) = match split_front_matter(content) {
        Some(parts) => parts,
        None => {
            return None;
        },
    };
    let decoded = match decode_string_map(block.as_str()) {
        Some(entries) => meta_of_entries(&entries),
        None => None,
    };
    let meta = match decoded {
        Some(meta) => meta,
        None => MemoMeta { id: id.to_owned(), created_at: now, updated_at: now },
    };
    Some(Memo { meta, body })
}

/// Reads a note from a file's text. Where the metadata block cannot be read, the note takes
/// `id` and the current time for both timestamps.
pub fn parse_memo_file(content: &str, id: &str) -> (r: Option<Memo>)
    ensures
        exists|now: Timestamp| now.wf() && memo_view_of(r) == memo_of_text(content@, id@, now),
{
    let now = current_time();
    let r = parse_memo_file_at(content, id, now);
    assert(now.wf() && memo_view_of(r) == memo_of_text(content@, id@, now));
    r
}

/// Writes a note in the file format; reading the text back, under the note's own id, gives the
/// same note.
pub fn serialize_memo(memo: &Memo) -> (r: String)
    requires
        memo.wf(),
    ensures
        r@ == text_of_memo(memo@),
        memo_block(memo@).len() > 0,
        memo_block(memo@).last() == '\n',
        split_text(r@) == Some((memo_block(memo@), memo.body@)),
        forall|fallback_id: Seq<char>, now: Timestamp|
            #[trigger] memo_of_text(r@, fallback_id, now) == Some(memo@),
{
    let c = format_rfc3339(&memo.meta.created_at);
    let u = format_rfc3339(&memo.meta.updated_at);
    let (id_k, created_k, updated_k) = meta_keys();
    let ghost cv = c@;
    let ghost uv = u@;
    let entries = vec![(id_k, memo.meta.id.clone()), (created_k, c), (updated_k, u)];
    proof {
        lemma_meta_keys_plain();
        assert(keys_distinct(entries@)) by {
            assert(entries@[0].0@.len() != entries@[1].0@.len());
            assert(entries@[0].0@.len() != entries@[2].0@.len());
            assert(entries@[1].0@[0] != entries@[2].0@[0]);
        }
        assert(crate::front_matter::pair_views(entries@) =~= seq![(id_key(), memo@.id), (created_key(), cv), (updated_key(), uv)]);
        assert(pair_views_of_meta(entries@, memo@, cv, uv));
    }
    let block = encode_string_map(&entries);
    let mut r = String::from_str("---\n");
    r.append(block.as_str());
    r.append("---\n");
    r.append(memo.body.as_str());
    proof {
        reveal_strlit("---\n");
        assert("---\n"@ =~= crate::front_matter::opening());
        assert(r@ =~= joined_text(block@, memo.body@));
        lemma_split_joined(block@, memo.body@);
        let m = entries_map(entries@);
        crate::front_matter::lemma_entries_map(entries@);
        assert(entries@[0].0@ == id_key() && entries@[0].1@ == memo@.id);
        assert(entries@[1].0@ == created_key() && entries@[1].1@ == cv);
        assert(entries@[2].0@ == updated_key() && entries@[2].1@ == uv);
        assert(m.contains_key(id_key()) && m[id_key()] == memo@.id);
        assert(m.contains_key(created_key()) && m[created_key()] == cv);
        assert(m.contains_key(updated_key()) && m[updated_key()] == uv);
        assert(meta_of_block(block@) == Some((memo@.id, memo@.created_at, memo@.updated_at)));
        assert forall|fallback_id: Seq<char>, now: Timestamp|
            #[trigger] memo_of_text(r@, fallback_id, now) == Some(memo@) by {}
    }
    r
}

} // verus!
