pub mod front_matter;
pub mod memo;
pub mod repository;
pub mod text;
pub mod timestamp;

pub use memo::{parse_memo_file, serialize_memo, Memo, MemoMeta, MemoSummary};
pub use text::extract_title;
pub use timestamp::Timestamp;
