//! A character-level model of the path fields the classifier reads: the
//! final component of a slash-separated path and its extension.

use vstd::prelude::*;
use vstd::string::StrSliceExecFns;

use crate::text::{lower_ascii, spec_lower};

verus! {

/// `s` without its trailing slashes.
pub open spec fn spec_strip_trailing_slashes(s: Seq<char>) -> Seq<char>
    decreases s.len(),
{
    if s.len() > 0 && s.last() == '/' {
        spec_strip_trailing_slashes(s.drop_last())
    } else {
        s
    }
}

/// The suffix of `t` after its last slash (`t` itself when it has none).
pub open spec fn spec_after_last_slash(t: Seq<char>) -> Seq<char>
    decreases t.len(),
{
    if t.len() == 0 {
        t
    } else if t.last() == '/' {
        Seq::empty()
    } else {
        spec_after_last_slash(t.drop_last()).push(t.last())
    }
}

/// The final component of a slash-separated path, ignoring trailing
/// slashes; `None` for an empty result and for the special components
/// "." and "..".
pub open spec fn spec_file_name(s: Seq<char>) -> Option<Seq<char>> {
    let name = spec_after_last_slash(spec_strip_trailing_slashes(s));
    if name.len() == 0 || name == seq!['.'] || name == seq!['.', '.'] {
        None
    } else {
        Some(name)
    }
}

/// The index of the last '.' in `name`, or -1 when it has none.
pub open spec fn spec_last_dot(name: Seq<char>) -> int
    decreases name.len(),
{
    if name.len() == 0 {
        -1
    } else if name.last() == '.' {
        name.len() - 1
    } else {
        spec_last_dot(name.drop_last())
    }
}

/// The extension of a file name: what follows its last '.', provided that
/// dot is neither absent nor the leading character.
pub open spec fn spec_extension(name: Seq<char>) -> Option<Seq<char>> {
    let d = spec_last_dot(name);
    if d >= 1 {
        Some(name.subrange(d + 1, name.len() as int))
    } else {
        None
    }
}

/// The image-extension allowlist, compared case-insensitively.
pub open spec fn spec_is_image_ext(ext: Seq<char>) -> bool {
    let low = spec_lower(ext);
    low == "png"@ || low == "jpg"@ || low == "jpeg"@ || low == "bmp"@ || low == "gif"@ || low
        == "heic"@
}

proof fn lemma_strip_prefix(s: Seq<char>, end: int)
    requires
        0 <= end < s.len(),
        s[end] == '/',
        forall|k: int| end < k < s.len() ==> s[k] == '/',
    ensures
        spec_strip_trailing_slashes(s) == spec_strip_trailing_slashes(s.subrange(0, end)),
    decreases s.len(),
{
    if s.len() - 1 == end {
        assert(s.drop_last() =~= s.subrange(0, end));
    } else {
        lemma_strip_prefix(s.drop_last(), end);
        assert(s.drop_last().subrange(0, end) =~= s.subrange(0, end));
    }
}

proof fn lemma_after_last_slash_split(t: Seq<char>, start: int)
    requires
        0 <= start <= t.len(),
        forall|k: int| start <= k < t.len() ==> t[k] != '/',
        start == 0 || t[start - 1] == '/',
    ensures
        spec_after_last_slash(t) == t.subrange(start, t.len() as int),
    decreases t.len() - start,
{
    if start == t.len() {
        if t.len() == 0 {
            assert(spec_after_last_slash(t) =~= t.subrange(start, t.len() as int));
        } else {
            assert(t.last() == '/');
            assert(spec_after_last_slash(t) =~= t.subrange(start, t.len() as int));
        }
    } else {
        lemma_after_last_slash_chop(t, start);
    }
}

proof fn lemma_after_last_slash_chop(t: Seq<char>, start: int)
    requires
        0 <= start < t.len(),
        forall|k: int| start <= k < t.len() ==> t[k] != '/',
        start == 0 || t[start - 1] == '/',
    ensures
        spec_after_last_slash(t) == t.subrange(start, t.len() as int),
    decreases t.len() - start,
{
    if start == t.len() - 1 {
        if start == 0 {
            assert(t.drop_last().len() == 0);
            assert(spec_after_last_slash(t.drop_last()) =~= Seq::<char>::empty());
            assert(spec_after_last_slash(t) =~= t.subrange(start, t.len() as int));
        } else {
            assert(t.drop_last().last() == '/');
            assert(spec_after_last_slash(t.drop_last()) =~= Seq::<char>::empty());
            assert(spec_after_last_slash(t) =~= t.subrange(start, t.len() as int));
        }
    } else {
        lemma_after_last_slash_chop(t.drop_last(), start);
        assert(t.drop_last().subrange(start, t.len() - 1) =~= t.subrange(start, t.len() - 1));
        assert(spec_after_last_slash(t) =~= t.subrange(start, t.len() as int));
    }
}

/// The final component of a slash-separated path, as [`spec_file_name`]
/// defines it.
pub fn file_name_of(s: &str) -> (r: Option<String>)
    ensures
        r matches Some(name) ==> spec_file_name(s@) == Some(name@),
        r is None ==> spec_file_name(s@) is None,
{
    let n = s.unicode_len();
    let mut end: usize = n;
    proof {
        assert(s@.subrange(0, n as int) =~= s@);
    }
    while end > 0 && s.get_char(end - 1) == '/'
        invariant
            0 <= end <= n,
            n == s@.len(),
            spec_strip_trailing_slashes(s@) == spec_strip_trailing_slashes(
                s@.subrange(0, end as int),
            ),
        decreases end,
    {
        proof {
            lemma_strip_prefix(s@.subrange(0, end as int), end - 1);
            assert(s@.subrange(0, end as int).subrange(0, end - 1) =~= s@.subrange(0, end - 1));
        }
        end = end - 1;
    }
    let ghost t = s@.subrange(0, end as int);
    proof {
        if end > 0 {
            assert(t.last() != '/');
        }
        assert(spec_strip_trailing_slashes(t) == t);
    }
    let mut start: usize = end;
    while start > 0 && s.get_char(start - 1) != '/'
        invariant
            0 <= start <= end <= n,
            n == s@.len(),
            t == s@.subrange(0, end as int),
            forall|k: int| start <= k < end ==> s@[k] != '/',
        decreases start,
    {
        start = start - 1;
    }
    proof {
        assert(forall|k: int| start <= k < t.len() ==> t[k] == s@[k] && t[k] != '/');
        if start > 0 {
            assert(t[start - 1] == s@[start - 1]);
        }
        lemma_after_last_slash_split(t, start as int);
        assert(t.subrange(start as int, t.len() as int) =~= s@.subrange(start as int, end as int));
    }
    if start == end {
        return None;
    }
    if end - start == 1 && s.get_char(start) == '.' {
        proof {
            assert(s@.subrange(start as int, end as int) =~= seq!['.']);
        }
        return None;
    }
    if end - start == 2 && s.get_char(start) == '.' && s.get_char(start + 1) == '.' {
        proof {
            assert(s@.subrange(start as int, end as int) =~= seq!['.', '.']);
        }
        return None;
    }
    let name = s.substring_char(start, end).to_owned();
    proof {
        let nm = s@.subrange(start as int, end as int);
        assert(nm.len() > 0);
        if nm == seq!['.'] {
            assert(nm.len() == 1 && nm[0] == '.');
            assert(false);
        }
        if nm == seq!['.', '.'] {
            assert(nm.len() == 2 && nm[0] == '.' && nm[1] == '.');
            assert(false);
        }
    }
    Some(name)
}

proof fn lemma_last_dot_split(t: Seq<char>, start: int)
    requires
        0 <= start <= t.len(),
        forall|k: int| start <= k < t.len() ==> t[k] != '.',
        start == 0 || t[start - 1] == '.',
    ensures
        spec_last_dot(t) == start - 1,
    decreases t.len() - start,
{
    if start == t.len() {
        if t.len() == 0 {
        } else {
            assert(t.last() == '.');
        }
    } else if start == t.len() - 1 {
        if start == 0 {
            assert(t.drop_last().len() == 0);
            assert(spec_last_dot(t.drop_last()) == -1);
        } else {
            assert(t.drop_last().last() == '.');
            assert(spec_last_dot(t.drop_last()) == start - 1);
        }
    } else {
        lemma_last_dot_split(t.drop_last(), start);
    }
}

/// The extension of a file name, as [`spec_extension`] defines it.
pub fn extension_of(name: &str) -> (r: Option<String>)
    ensures
        r matches Some(e) ==> spec_extension(name@) == Some(e@),
        r is None ==> spec_extension(name@) is None,
{
    let n = name.unicode_len();
    let mut start: usize = n;
    while start > 0 && name.get_char(start - 1) != '.'
        invariant
            0 <= start <= n,
            n == name@.len(),
            forall|k: int| start <= k < n ==> name@[k] != '.',
        decreases start,
    {
        start = start - 1;
    }
    proof {
        lemma_last_dot_split(name@, start as int);
    }
    if start >= 2 {
        let e = name.substring_char(start, n).to_owned();
        Some(e)
    } else {
        None
    }
}

/// Whether `ext` is on the image-extension allowlist, compared
/// case-insensitively.
pub fn is_image_ext(ext: &str) -> (r: bool)
    ensures
        r == spec_is_image_ext(ext@),
{
    let low = lower_ascii(ext);
    low == String::from_str("png") || low == String::from_str("jpg") || low == String::from_str(
        "jpeg",
    ) || low == String::from_str("bmp") || low == String::from_str("gif") || low
        == String::from_str("heic")
}

} // verus!
