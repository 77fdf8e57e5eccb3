//! The classifier gate: it turns one raw clipboard observation into a
//! typed, hashed candidate, and suppresses a candidate whose hash equals
//! the last one emitted (the in-process deduplication; the store's unique
//! hash index is the durable one).

use vstd::prelude::*;
use vstd::utf8::encode_utf8;

use crate::hash::{hash_str, spec_hash_str};
use crate::pasteboard::{ContentType, PasteboardContent};
use crate::text::{is_blank, spec_is_blank};

verus! {

/// The ceiling, in UTF-8 bytes, above which a text capture is discarded.
pub const LARGE_SIZE: usize = 250000;

/// A text capture longer than the fixed ceiling.
pub open spec fn spec_is_large(t: Seq<char>) -> bool {
    encode_utf8(t).len() > LARGE_SIZE
}

/// Whether a text capture exceeds the size ceiling; such a capture never
/// reaches the store.
pub fn string_is_large(input: &String) -> (r: bool)
    ensures
        r == spec_is_large(input@),
{
    input.as_str().as_bytes().len() > LARGE_SIZE
}

/// Whether a text observation is emitted: within the ceiling, not
/// whitespace-only, and hashing differently from the retained value.
pub open spec fn spec_text_emits(last: Seq<char>, t: Seq<char>) -> bool {
    !spec_is_large(t) && !spec_is_blank(t) && spec_hash_str(t) != last
}

/// Law: the in-process gate suppresses immediate repeats. Once a text
/// capture has been emitted and the retained hash updated, the same text
/// observed again is not emitted until a distinct capture intervenes.
pub proof fn lemma_inprocess_dedup(last: Seq<char>, t: Seq<char>)
    ensures
        spec_text_emits(last, t) ==> !spec_text_emits(spec_hash_str(t), t),
{
}

/// The per-watcher classifier state: the hash of the last emitted
/// candidate (reset on restart, independent of the store) and the root
/// directory for saved image pixels.
pub struct ClipboardHandle {
    /// Lowercase-hex hash of the last emitted candidate; empty initially.
    pub last_hash: String,
    /// Root directory under which image captures are filed by date.
    pub files_path: String,
}

impl ClipboardHandle {
    /// A fresh gate: no capture has been emitted yet.
    pub fn new(files_path: String) -> (r: Self)
        ensures
            r.last_hash@ == Seq::<char>::empty(),
            r.files_path@ == files_path@,
    {
        ClipboardHandle { last_hash: String::new(), files_path }
    }

    pub(crate) fn check_hash(&self, hash: &String) -> (r: bool)
        ensures
            r == (self.last_hash@ == hash@),
    {
        self.last_hash == *hash
    }

    /// Classifies a text observation at capture time `now`: discarded when
    /// oversized, whitespace-only, or a back-to-back repeat of the last
    /// emitted capture; otherwise emitted as a Text candidate whose
    /// content is the raw text, whose path is empty, and whose hash is the
    /// content address of the text.
    pub fn new_text_content(&mut self, text_content: String, now: i64) -> (r: Option<
        PasteboardContent,
    >)
        ensures
            final(self).files_path == old(self).files_path,
            r is Some <==> spec_text_emits(old(self).last_hash@, text_content@),
            r matches Some(c) ==> {
                &&& c@.text_content == text_content@
                &&& c@.content_type == ContentType::Text
                &&& c@.hash == spec_hash_str(text_content@)
                &&& c@.path == Seq::<char>::empty()
                &&& c@.timestamp == now
                &&& final(self).last_hash@ == spec_hash_str(text_content@)
            },
            r is None ==> final(self).last_hash == old(self).last_hash,
    {
        if string_is_large(&text_content) || is_blank(text_content.as_str()) {
            return None;
        }
        let hash = hash_str(text_content.as_str());
        if self.check_hash(&hash) {
            return None;
        }
        self.last_hash = hash.clone();
        Some(PasteboardContent::new(text_content, ContentType::Text, hash, None, now))
    }
}

} // verus!
