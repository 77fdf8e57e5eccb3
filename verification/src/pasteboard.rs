//! The transient candidate record that the classifier gate emits and the
//! writer persists: a typed, hashed clipboard observation.

use vstd::prelude::*;
use vstd::string::StringExecFns;

use crate::clipboard::ClipboardHandle;
use crate::file::{size_annotation, spec_size_annotation, format_size, spec_format_size};
use crate::hash::{hash_str, hash_vec, spec_hash_str, spec_hash_vec};
use crate::numfmt::{dec_i64, dec_u64, dec_usize, spec_dec_digits, spec_dec_signed};
use crate::path::{extension_of, file_name_of, is_image_ext, spec_extension, spec_file_name,
    spec_is_image_ext};
use crate::pathlist::{encode_path_list, spec_path_list};
use crate::strutil::push_char;
use crate::time::CaptureMoment;

verus! {

/// The three kinds of clipboard capture, stored as 0, 1 and 2.
#[derive(Debug, Clone, Copy, PartialEq, Eq, Structural)]
pub enum ContentType {
    Text,
    Image,
    File,
}

impl ContentType {
    /// The integer the store's `type` column holds for this kind.
    pub open spec fn spec_to_i32(self) -> i32 {
        match self {
            ContentType::Text => 0,
            ContentType::Image => 1,
            ContentType::File => 2,
        }
    }

    /// Converts the kind to its column value.
    pub fn to_i32(&self) -> (r: i32)
        ensures
            r == self.spec_to_i32(),
    {
        match self {
            ContentType::Text => 0,
            ContentType::Image => 1,
            ContentType::File => 2,
        }
    }
}

/// A classified clipboard observation, not yet persisted.
#[derive(Debug)]
pub struct PasteboardContent {
    /// The display/index string (raw text, or a summary for images/files).
    pub text_content: String,
    /// The capture kind.
    pub content_type: ContentType,
    /// The content address (lowercase hex of the XXH3 digest).
    pub hash: String,
    /// Empty for text; a raw path or an encoded path list otherwise.
    pub path: String,
    /// Capture time in epoch seconds.
    pub timestamp: i64,
}

/// The mathematical value of a candidate.
pub struct PasteboardContentV {
    pub text_content: Seq<char>,
    pub content_type: ContentType,
    pub hash: Seq<char>,
    pub path: Seq<char>,
    pub timestamp: i64,
}

impl View for PasteboardContent {
    type V = PasteboardContentV;

    open spec fn view(&self) -> PasteboardContentV {
        PasteboardContentV {
            text_content: self.text_content@,
            content_type: self.content_type,
            hash: self.hash@,
            path: self.path@,
            timestamp: self.timestamp,
        }
    }
}

impl PasteboardContent {
    /// Builds a candidate; an absent path is stored as the empty string.
    pub fn new(
        text_content: String,
        content_type: ContentType,
        hash: String,
        path: Option<String>,
        timestamp: i64,
    ) -> (r: Self)
        ensures
            r@.text_content == text_content@,
            r@.content_type == content_type,
            r@.hash == hash@,
            r@.path == (match path {
                Some(p) => p@,
                None => Seq::<char>::empty(),
            }),
            r@.timestamp == timestamp,
    {
        let path_value = match path {
            Some(p) => p,
            None => String::new(),
        };
        PasteboardContent { text_content, content_type, hash, path: path_value, timestamp }
    }
}

/// The file names of the given paths, in order, skipping paths without a
/// final component.
pub open spec fn spec_name_list(paths: Seq<Seq<char>>) -> Seq<Seq<char>>
    decreases paths.len(),
{
    if paths.len() == 0 {
        Seq::empty()
    } else {
        let rest = spec_name_list(paths.drop_first());
        match spec_file_name(paths.first()) {
            Some(n) => seq![n] + rest,
            None => rest,
        }
    }
}

/// Names joined with ", ".
pub open spec fn spec_join_names(names: Seq<Seq<char>>) -> Seq<char>
    decreases names.len(),
{
    if names.len() == 0 {
        Seq::empty()
    } else if names.len() == 1 {
        names.first()
    } else {
        names.first() + seq![',', ' '] + spec_join_names(names.drop_first())
    }
}

/// Whether a single captured path names an image file, by its extension.
pub open spec fn spec_path_is_image(path: Seq<char>) -> bool {
    match spec_file_name(path) {
        Some(name) => match spec_extension(name) {
            Some(e) => spec_is_image_ext(e),
            None => false,
        },
        None => false,
    }
}

/// The content string, capture type and path field that a file-list
/// observation produces, or `None` when it is discarded: an empty list,
/// or a single path without a final component. A single image path is
/// stored raw; a single non-image path and every multi-path capture are
/// stored as an encoded path list.
pub open spec fn spec_file_fields(paths: Seq<Seq<char>>, first_size: nat) -> Option<
    (Seq<char>, ContentType, Seq<char>),
> {
    if paths.len() == 0 {
        None
    } else if paths.len() == 1 {
        match spec_file_name(paths.first()) {
            None => None,
            Some(name) => {
                if spec_path_is_image(paths.first()) {
                    Some(
                        (
                            "Img: "@ + name + spec_size_annotation(first_size),
                            ContentType::Image,
                            paths.first(),
                        ),
                    )
                } else {
                    Some(
                        (
                            "File: "@ + name + spec_size_annotation(first_size),
                            ContentType::File,
                            spec_path_list(paths),
                        ),
                    )
                }
            },
        }
    } else {
        Some(
            (
                spec_dec_digits(paths.len()) + " Files: "@ + spec_join_names(
                    spec_name_list(paths),
                ),
                ContentType::File,
                spec_path_list(paths),
            ),
        )
    }
}

/// The content summary of a raw-pixel image observation.
pub open spec fn spec_img_content(width: u32, height: u32, byte_len: nat) -> Seq<char> {
    "Img: "@ + spec_dec_digits(width as nat) + seq!['x'] + spec_dec_digits(height as nat) + seq![
        ' ',
        '(',
    ] + spec_format_size(byte_len) + seq![')']
}

/// Where a raw-pixel image capture is saved: a day-named directory under
/// the configured root, the capture's epoch seconds as the file stem.
pub open spec fn spec_img_path(root: Seq<char>, moment: CaptureMoment) -> Seq<char> {
    root + seq!['/'] + spec_dec_signed(moment.date.year as int) + spec_dec_digits(
        moment.date.month as nat,
    ) + spec_dec_digits(moment.date.day as nat) + seq!['/'] + spec_dec_signed(
        moment.timestamp as int,
    ) + seq!['.', 'p', 'n', 'g']
}

proof fn lemma_name_list_snoc(paths: Seq<Seq<char>>, p: Seq<char>)
    ensures
        spec_name_list(paths.push(p)) == (match spec_file_name(p) {
            Some(n) => spec_name_list(paths).push(n),
            None => spec_name_list(paths),
        }),
    decreases paths.len(),
{
    let all = paths.push(p);
    if paths.len() == 0 {
        assert(all.first() == p);
        assert(all.drop_first() =~= Seq::<Seq<char>>::empty());
        assert(spec_name_list(all.drop_first()) =~= Seq::<Seq<char>>::empty());
        match spec_file_name(p) {
            Some(n) => {
                assert(spec_name_list(all) =~= spec_name_list(paths).push(n));
            },
            None => {
                assert(spec_name_list(all) =~= spec_name_list(paths));
            },
        }
    } else {
        lemma_name_list_snoc(paths.drop_first(), p);
        assert(all.drop_first() =~= paths.drop_first().push(p));
        assert(all.first() == paths.first());
        match spec_file_name(p) {
            Some(n) => {
                match spec_file_name(paths.first()) {
                    Some(m) => {
                        assert(spec_name_list(all) =~= spec_name_list(paths).push(n));
                    },
                    None => {
                        assert(spec_name_list(all) =~= spec_name_list(paths).push(n));
                    },
                }
            },
            None => {
                assert(spec_name_list(all) =~= spec_name_list(paths));
            },
        }
    }
}

proof fn lemma_join_snoc(names: Seq<Seq<char>>, n: Seq<char>)
    ensures
        spec_join_names(names.push(n)) == if names.len() == 0 {
            n
        } else {
            spec_join_names(names) + seq![',', ' '] + n
        },
    decreases names.len(),
{
    let all = names.push(n);
    if names.len() == 0 {
        assert(all.len() == 1);
        assert(all.first() == n);
        assert(spec_join_names(all) =~= n);
    } else if names.len() == 1 {
        assert(all.len() == 2);
        assert(all.first() == names.first());
        assert(all.drop_first() =~= Seq::<Seq<char>>::empty().push(n));
        assert(all.drop_first().len() == 1);
        assert(all.drop_first().first() == n);
        assert(spec_join_names(all.drop_first()) == n);
        assert(spec_join_names(all) =~= spec_join_names(names) + seq![',', ' '] + n);
    } else {
        lemma_join_snoc(names.drop_first(), n);
        assert(all.drop_first() =~= names.drop_first().push(n));
        assert(all.first() == names.first());
        assert(spec_join_names(all) =~= spec_join_names(names) + seq![',', ' '] + n);
    }
}

impl ClipboardHandle {
    /// Classifies a file-list observation at capture time `now`.
    /// `first_size` is the byte size of the first file, read by the
    /// caller; it only appears in the single-path summary. The candidate
    /// is hashed over its path field, and suppressed when that hash
    /// repeats the last emitted one.
    pub fn new_file_content(
        &mut self,
        file_urls: Vec<String>,
        first_size: usize,
        now: i64,
    ) -> (r: Option<PasteboardContent>)
        ensures
            final(self).files_path == old(self).files_path,
            r is Some <==> (match spec_file_fields(file_urls.deep_view(), first_size as nat) {
                Some(f) => spec_hash_str(f.2) != old(self).last_hash@,
                None => false,
            }),
            r matches Some(c) ==> (match spec_file_fields(
                file_urls.deep_view(),
                first_size as nat,
            ) {
                Some(f) => {
                    &&& c@.text_content == f.0
                    &&& c@.content_type == f.1
                    &&& c@.path == f.2
                    &&& c@.hash == spec_hash_str(f.2)
                    &&& c@.timestamp == now
                    &&& final(self).last_hash@ == c@.hash
                },
                None => false,
            }),
            r is None ==> final(self).last_hash == old(self).last_hash,
    {
        let ghost dv = file_urls.deep_view();
        if file_urls.len() == 0 {
            return None;
        }
        let n = file_urls.len();
        let (text_content, content_type, path) = if n == 1 {
            let name = match file_name_of(file_urls[0].as_str()) {
                Some(m) => m,
                None => {
                    return None;
                },
            };
            let is_img = match extension_of(name.as_str()) {
                Some(e) => is_image_ext(e.as_str()),
                None => false,
            };
            let mut content = if is_img {
                String::from_str("Img: ")
            } else {
                String::from_str("File: ")
            };
            content.append(name.as_str());
            let ann = size_annotation(first_size);
            content.append(ann.as_str());
            proof {
                reveal_strlit("Img: ");
                reveal_strlit("File: ");
                assert(dv.first() == file_urls@[0]@);
            }
            if is_img {
                (content, ContentType::Image, file_urls[0].clone())
            } else {
                let encoded = encode_path_list(&file_urls);
                (content, ContentType::File, encoded)
            }
        } else {
            let mut names: Vec<String> = Vec::new();
            let mut i: usize = 0;
            proof {
                assert(dv.take(0) =~= Seq::<Seq<char>>::empty());
                assert(names.deep_view() =~= spec_name_list(dv.take(0)));
            }
            while i < n
                invariant
                    0 <= i <= n,
                    n == file_urls@.len(),
                    dv == file_urls.deep_view(),
                    dv.len() == n,
                    forall|k: int| 0 <= k < n ==> dv[k] == (#[trigger] file_urls@[k])@,
                    names.deep_view() == spec_name_list(dv.take(i as int)),
                decreases n - i,
            {
                proof {
                    lemma_name_list_snoc(dv.take(i as int), dv[i as int]);
                    assert(dv.take(i + 1).drop_last() =~= dv.take(i as int));
                    assert(dv.take(i + 1) =~= dv.take(i as int).push(dv[i as int]));
                }
                match file_name_of(file_urls[i].as_str()) {
                    Some(m) => {
                        names.push(m);
                        proof {
                            assert(names.deep_view() =~= spec_name_list(dv.take(i + 1)));
                        }
                    },
                    None => {
                        proof {
                            assert(names.deep_view() =~= spec_name_list(dv.take(i + 1)));
                        }
                    },
                }
                i = i + 1;
            }
            proof {
                assert(dv.take(n as int) =~= dv);
            }
            let ghost nv = names.deep_view();
            let mut joined = String::new();
            let mut k: usize = 0;
            let names_len = names.len();
            proof {
                assert(nv.take(0) =~= Seq::<Seq<char>>::empty());
                assert(joined@ =~= spec_join_names(nv.take(0)));
            }
            while k < names_len
                invariant
                    0 <= k <= names_len,
                    names_len == names@.len(),
                    nv == names.deep_view(),
                    nv.len() == names_len,
                    forall|j: int| 0 <= j < names_len ==> nv[j] == (#[trigger] names@[j])@,
                    joined@ == spec_join_names(nv.take(k as int)),
                decreases names_len - k,
            {
                if k > 0 {
                    joined.append(", ");
                    proof {
                        reveal_strlit(", ");
                    }
                }
                joined.append(names[k].as_str());
                proof {
                    lemma_join_snoc(nv.take(k as int), nv[k as int]);
                    assert(nv.take(k + 1) =~= nv.take(k as int).push(nv[k as int]));
                    assert(joined@ =~= spec_join_names(nv.take(k + 1)));
                }
                k = k + 1;
            }
            proof {
                assert(nv.take(names_len as int) =~= nv);
            }
            let mut content = dec_usize(n);
            content.append(" Files: ");
            content.append(joined.as_str());
            proof {
                reveal_strlit(" Files: ");
                assert(content@ =~= spec_dec_digits(dv.len()) + " Files: "@ + spec_join_names(
                    spec_name_list(dv),
                ));
            }
            let encoded = encode_path_list(&file_urls);
            (content, ContentType::File, encoded)
        };
        let hash = hash_str(path.as_str());
        if self.check_hash(&hash) {
            return None;
        }
        self.last_hash = hash.clone();
        Some(PasteboardContent::new(text_content, content_type, hash, Some(path), now))
    }

    /// Classifies a raw-pixel image observation captured at `moment`: the
    /// hash is taken over the pixel bytes, the summary names the
    /// dimensions and size, and the path points into the date-partitioned
    /// directory where the caller saves the pixels. Suppressed when the
    /// hash repeats the last emitted one.
    pub fn new_img_content(
        &mut self,
        width: u32,
        height: u32,
        bytes: &Vec<u8>,
        moment: CaptureMoment,
    ) -> (r: Option<PasteboardContent>)
        ensures
            final(self).files_path == old(self).files_path,
            r is Some <==> spec_hash_vec(bytes@) != old(self).last_hash@,
            r matches Some(c) ==> {
                &&& c@.text_content == spec_img_content(width, height, bytes@.len())
                &&& c@.content_type == ContentType::Image
                &&& c@.hash == spec_hash_vec(bytes@)
                &&& c@.path == spec_img_path(old(self).files_path@, moment)
                &&& c@.timestamp == moment.timestamp
                &&& final(self).last_hash@ == c@.hash
            },
            r is None ==> final(self).last_hash == old(self).last_hash,
    {
        let mut content = String::from_str("Img: ");
        let w = dec_u64(width as u64);
        content.append(w.as_str());
        push_char(&mut content, 'x');
        let h = dec_u64(height as u64);
        content.append(h.as_str());
        content.append(" (");
        let label = format_size(bytes.len());
        content.append(label.as_str());
        push_char(&mut content, ')');
        proof {
            reveal_strlit("Img: ");
            reveal_strlit(" (");
            assert(content@ =~= spec_img_content(width, height, bytes@.len()));
        }
        let hash = hash_vec(bytes.as_slice());
        let mut path = self.files_path.clone();
        push_char(&mut path, '/');
        let y = dec_i64(moment.date.year as i64);
        path.append(y.as_str());
        let mo = dec_u64(moment.date.month as u64);
        path.append(mo.as_str());
        let d = dec_u64(moment.date.day as u64);
        path.append(d.as_str());
        push_char(&mut path, '/');
        let ts = dec_i64(moment.timestamp);
        path.append(ts.as_str());
        path.append(".png");
        proof {
            reveal_strlit(".png");
            assert(path@ =~= spec_img_path(self.files_path@, moment));
        }
        if self.check_hash(&hash) {
            return None;
        }
        self.last_hash = hash.clone();
        Some(
            PasteboardContent::new(
                content,
                ContentType::Image,
                hash,
                Some(path),
                moment.timestamp,
            ),
        )
    }
}

} // verus!
