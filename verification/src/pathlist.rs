//! The store's encoding of file-path lists: a compact JSON array of
//! strings, written with the standard JSON escapes. Single image paths are
//! stored raw (never through this module); single non-image paths and
//! multi-file captures are stored in this encoding.

use vstd::prelude::*;
use vstd::string::StrSliceExecFns;
use vstd::string::StringExecFns;

use crate::numfmt::spec_digit_char;
use crate::strutil::push_char;

verus! {

/// The JSON escape of one character: quote and backslash are escaped,
/// control characters get their short escapes or a `\u00xx` form with
/// lowercase hex digits, and every other character stands for itself.
pub open spec fn spec_json_escape(c: char) -> Seq<char> {
    if c == '"' {
        seq!['\\', '"']
    } else if c == '\\' {
        seq!['\\', '\\']
    } else if c == '\u{8}' {
        seq!['\\', 'b']
    } else if c == '\t' {
        seq!['\\', 't']
    } else if c == '\n' {
        seq!['\\', 'n']
    } else if c == '\u{c}' {
        seq!['\\', 'f']
    } else if c == '\r' {
        seq!['\\', 'r']
    } else if (c as u32) < 32 {
        seq!['\\', 'u', '0', '0', spec_digit_char(((c as u32) / 16) as int), spec_digit_char(
            ((c as u32) % 16) as int,
        )]
    } else {
        seq![c]
    }
}

/// The escaped body of a JSON string.
pub open spec fn spec_json_string_body(s: Seq<char>) -> Seq<char>
    decreases s.len(),
{
    if s.len() == 0 {
        s
    } else {
        spec_json_escape(s.first()) + spec_json_string_body(s.drop_first())
    }
}

/// A JSON string: the escaped body between double quotes.
pub open spec fn spec_json_string(s: Seq<char>) -> Seq<char> {
    seq!['"'] + spec_json_string_body(s) + seq!['"']
}

/// The comma-separated items of a JSON array of strings.
pub open spec fn spec_json_items(items: Seq<Seq<char>>) -> Seq<char>
    decreases items.len(),
{
    if items.len() == 0 {
        Seq::empty()
    } else if items.len() == 1 {
        spec_json_string(items.first())
    } else {
        spec_json_string(items.first()) + seq![','] + spec_json_items(items.drop_first())
    }
}

/// A compact JSON array of strings, as the store's `path` column holds it.
pub open spec fn spec_path_list(items: Seq<Seq<char>>) -> Seq<char> {
    seq!['['] + spec_json_items(items) + seq![']']
}

fn hex_nibble(d: u32) -> (c: char)
    requires
        d < 16,
    ensures
        c == spec_digit_char(d as int),
{
    match d {
        0 => '0',
        1 => '1',
        2 => '2',
        3 => '3',
        4 => '4',
        5 => '5',
        6 => '6',
        7 => '7',
        8 => '8',
        9 => '9',
        10 => 'a',
        11 => 'b',
        12 => 'c',
        13 => 'd',
        14 => 'e',
        _ => 'f',
    }
}

/// Appends the JSON escape of `c` to `out`.
fn push_escaped(out: &mut String, c: char)
    ensures
        final(out)@ == old(out)@ + spec_json_escape(c),
{
    if c == '"' {
        push_char(out, '\\');
        push_char(out, '"');
    } else if c == '\\' {
        push_char(out, '\\');
        push_char(out, '\\');
    } else if c == '\u{8}' {
        push_char(out, '\\');
        push_char(out, 'b');
    } else if c == '\t' {
        push_char(out, '\\');
        push_char(out, 't');
    } else if c == '\n' {
        push_char(out, '\\');
        push_char(out, 'n');
    } else if c == '\u{c}' {
        push_char(out, '\\');
        push_char(out, 'f');
    } else if c == '\r' {
        push_char(out, '\\');
        push_char(out, 'r');
    } else if (c as u32) < 32 {
        push_char(out, '\\');
        push_char(out, 'u');
        push_char(out, '0');
        push_char(out, '0');
        push_char(out, hex_nibble((c as u32) / 16));
        push_char(out, hex_nibble((c as u32) % 16));
    } else {
        push_char(out, c);
    }
    proof {
        assert(out@ =~= old(out)@ + spec_json_escape(c));
    }
}

/// Appends the JSON string form of `s` (quotes and escaped body) to `out`.
fn push_json_string(out: &mut String, s: &str)
    ensures
        final(out)@ == old(out)@ + spec_json_string(s@),
{
    let n = s.unicode_len();
    push_char(out, '"');
    let mut i: usize = 0;
    while i < n
        invariant
            i <= n,
            n == s@.len(),
            out@ =~= old(out)@ + seq!['"'] + spec_json_string_body(s@.take(i as int)),
        decreases n - i,
    {
        let c = s.get_char(i);
        push_escaped(out, c);
        proof {
            lemma_json_body_snoc(s@.take(i + 1));
            assert(s@.take(i + 1).drop_last() =~= s@.take(i as int));
            assert(s@.take(i + 1).last() == c);
            assert(out@ =~= old(out)@ + seq!['"'] + spec_json_string_body(s@.take(i + 1)));
        }
        i = i + 1;
    }
    push_char(out, '"');
    proof {
        assert(s@.take(n as int) =~= s@);
        assert(out@ =~= old(out)@ + spec_json_string(s@));
    }
}

/// The body of a string splits at its last character.
proof fn lemma_json_body_snoc(s: Seq<char>)
    requires
        s.len() > 0,
    ensures
        spec_json_string_body(s) == spec_json_string_body(s.drop_last()) + spec_json_escape(
            s.last(),
        ),
    decreases s.len(),
{
    if s.len() == 1 {
        assert(s.drop_first().len() == 0);
        assert(s.drop_last().len() == 0);
        assert(spec_json_string_body(s.drop_first()) =~= Seq::<char>::empty());
        assert(spec_json_string_body(s.drop_last()) =~= Seq::<char>::empty());
        assert(spec_json_string_body(s) =~= spec_json_string_body(s.drop_last())
            + spec_json_escape(s.last()));
    } else {
        lemma_json_body_snoc(s.drop_first());
        assert(s.drop_first().drop_last() =~= s.drop_last().drop_first());
        assert(s.drop_last().first() == s.first());
        assert(s.drop_first().last() == s.last());
        assert(spec_json_string_body(s.drop_last()) == spec_json_escape(s.first())
            + spec_json_string_body(s.drop_last().drop_first()));
        assert(spec_json_string_body(s) =~= spec_json_string_body(s.drop_last())
            + spec_json_escape(s.last()));
    }
}

/// The items of a list split at the last item.
proof fn lemma_json_items_snoc(items: Seq<Seq<char>>)
    requires
        items.len() > 0,
    ensures
        spec_json_items(items) == if items.len() == 1 {
            spec_json_string(items.last())
        } else {
            spec_json_items(items.drop_last()) + seq![','] + spec_json_string(items.last())
        },
    decreases items.len(),
{
    if items.len() == 1 {
    } else if items.len() == 2 {
        assert(items.drop_first().len() == 1);
        assert(items.drop_last().len() == 1);
        assert(items.drop_first().first() == items.last());
        assert(items.drop_last().first() == items.first());
        assert(spec_json_items(items.drop_first()) == spec_json_string(items.last()));
        assert(spec_json_items(items.drop_last()) == spec_json_string(items.first()));
        assert(spec_json_items(items) =~= spec_json_items(items.drop_last()) + seq![',']
            + spec_json_string(items.last()));
    } else {
        lemma_json_items_snoc(items.drop_first());
        assert(items.drop_first().drop_last() =~= items.drop_last().drop_first());
        assert(items.drop_first().last() == items.last());
        assert(items.drop_last().first() == items.first());
        assert(spec_json_items(items) =~= spec_json_items(items.drop_last()) + seq![',']
            + spec_json_string(items.last()));
    }
}

/// The value of a hex digit, or -1 for any other character.
pub open spec fn spec_hex_val(c: char) -> int {
    if '0' <= c && c <= '9' {
        (c as u32) - 48
    } else if 'a' <= c && c <= 'f' {
        (c as u32) - 87
    } else if 'A' <= c && c <= 'F' {
        (c as u32) - 55
    } else {
        -1
    }
}

/// The character a `\u00xy` escape denotes.
pub open spec fn spec_hex_pair_char(a: int, b: int) -> char {
    (((a * 16 + b) as u8) as char)
}

/// The character a short escape `\x` denotes, if any.
pub open spec fn spec_short_escape(e: char) -> Option<char> {
    if e == '"' {
        Some('"')
    } else if e == '\\' {
        Some('\\')
    } else if e == '/' {
        Some('/')
    } else if e == 'b' {
        Some('\u{8}')
    } else if e == 't' {
        Some('\t')
    } else if e == 'n' {
        Some('\n')
    } else if e == 'f' {
        Some('\u{c}')
    } else if e == 'r' {
        Some('\r')
    } else {
        None
    }
}

/// Parses a JSON string body up to and including its closing quote:
/// the decoded characters and the count of input characters consumed.
/// Raw control characters and malformed escapes are rejected; of the
/// `\uXXXX` forms only `\u00xy` (a one-byte code point) is understood.
pub open spec fn spec_parse_body(s: Seq<char>) -> Option<(Seq<char>, int)>
    decreases s.len(),
{
    if s.len() == 0 {
        None
    } else if s.first() == '"' {
        Some((Seq::empty(), 1))
    } else if s.first() == '\\' {
        if s.len() < 2 {
            None
        } else if s[1] == 'u' {
            if s.len() < 6 {
                None
            } else if s[2] == '0' && s[3] == '0' && spec_hex_val(s[4]) >= 0 && spec_hex_val(s[5])
                >= 0 {
                match spec_parse_body(s.skip(6)) {
                    Some((d, k)) => Some(
                        (seq![spec_hex_pair_char(spec_hex_val(s[4]), spec_hex_val(s[5]))] + d, 6 + k),
                    ),
                    None => None,
                }
            } else {
                None
            }
        } else {
            match spec_short_escape(s[1]) {
                Some(c) => match spec_parse_body(s.skip(2)) {
                    Some((d, k)) => Some((seq![c] + d, 2 + k)),
                    None => None,
                },
                None => None,
            }
        }
    } else if (s.first() as u32) < 32 {
        None
    } else {
        match spec_parse_body(s.skip(1)) {
            Some((d, k)) => Some((seq![s.first()] + d, 1 + k)),
            None => None,
        }
    }
}

/// A successful body parse consumes at least the closing quote.
pub proof fn lemma_parse_body_consumes(s: Seq<char>)
    ensures
        spec_parse_body(s) matches Some(r) ==> 1 <= r.1 <= s.len(),
    decreases s.len(),
{
    if s.len() == 0 {
    } else if s.first() == '"' {
    } else if s.first() == '\\' {
        if s.len() >= 6 {
            lemma_parse_body_consumes(s.skip(6));
        }
        if s.len() >= 2 {
            lemma_parse_body_consumes(s.skip(2));
        }
    } else {
        lemma_parse_body_consumes(s.skip(1));
    }
}

/// Parses one or more comma-separated JSON strings: the decoded strings
/// and the count of input characters consumed.
pub open spec fn spec_parse_items(s: Seq<char>) -> Option<(Seq<Seq<char>>, int)>
    decreases s.len(),
    when true
    via spec_parse_items_decreases
{
    if s.len() == 0 || s.first() != '"' {
        None
    } else {
        match spec_parse_body(s.skip(1)) {
            None => None,
            Some((d, k)) => {
                if 1 + k < s.len() && s[1 + k] == ',' {
                    match spec_parse_items(s.skip(1 + k + 1)) {
                        Some((items, k2)) => Some((seq![d] + items, 1 + k + 1 + k2)),
                        None => None,
                    }
                } else {
                    Some((seq![d], 1 + k))
                }
            },
        }
    }
}

#[via_fn]
proof fn spec_parse_items_decreases(s: Seq<char>) {
    if s.len() > 0 && s.first() == '"' {
        lemma_parse_body_consumes(s.skip(1));
    }
}

/// Parses the store's path-list encoding: a JSON array of strings with no
/// surrounding or interior whitespace. `None` for anything else.
pub open spec fn spec_parse_path_list(s: Seq<char>) -> Option<Seq<Seq<char>>> {
    if s.len() < 2 || s.first() != '[' || s.last() != ']' {
        None
    } else if s.len() == 2 {
        Some(Seq::empty())
    } else {
        match spec_parse_items(s.skip(1)) {
            Some((items, k)) => {
                if k == s.len() - 2 {
                    Some(items)
                } else {
                    None
                }
            },
            None => None,
        }
    }
}

/// The parse state an already-consumed prefix contributes: `acc` decoded
/// characters over `consumed` input characters.
pub open spec fn body_step(
    res: Option<(Seq<char>, int)>,
    acc: Seq<char>,
    consumed: int,
) -> Option<(Seq<char>, int)> {
    match res {
        Some((d, k)) => Some((acc + d, consumed + k)),
        None => None,
    }
}

proof fn lemma_body_step_compose(
    res: Option<(Seq<char>, int)>,
    a1: Seq<char>,
    c1: int,
    a2: Seq<char>,
    c2: int,
)
    ensures
        body_step(body_step(res, a2, c2), a1, c1) == body_step(res, a1 + a2, c1 + c2),
{
    match res {
        Some((d, k)) => {
            assert(a1 + (a2 + d) =~= (a1 + a2) + d);
        },
        None => {},
    }
}

fn hex_val(c: char) -> (r: Option<u8>)
    ensures
        r matches Some(v) ==> spec_hex_val(c) == v as int && v < 16,
        r is None ==> spec_hex_val(c) < 0,
{
    if '0' <= c && c <= '9' {
        Some(((c as u32) - 48) as u8)
    } else if 'a' <= c && c <= 'f' {
        Some(((c as u32) - 87) as u8)
    } else if 'A' <= c && c <= 'F' {
        Some(((c as u32) - 55) as u8)
    } else {
        None
    }
}

/// Parses a JSON string body beginning at `start` (just past the opening
/// quote); on success, the decoded string and the position just past the
/// closing quote.
fn parse_body_at(s: &str, start: usize) -> (r: Option<(String, usize)>)
    requires
        start <= s@.len(),
    ensures
        r matches Some(p) ==> start < p.1 <= s@.len() && spec_parse_body(s@.skip(start as int))
            == Some((p.0@, p.1 - start)),
        r is None ==> spec_parse_body(s@.skip(start as int)) is None,
{
    let n = s.unicode_len();
    let mut pos: usize = start;
    let mut acc = String::new();
    proof {
        assert(acc@ + Seq::<char>::empty() =~= acc@);
    }
    loop
        invariant
            start <= pos <= n,
            n == s@.len(),
            spec_parse_body(s@.skip(start as int)) == body_step(
                spec_parse_body(s@.skip(pos as int)),
                acc@,
                pos - start,
            ),
        decreases n - pos,
    {
        let ghost whole = s@.skip(start as int);
        let ghost here = s@.skip(pos as int);
        if pos == n {
            proof {
                assert(here.len() == 0);
            }
            return None;
        }
        let c = s.get_char(pos);
        proof {
            assert(here.first() == s@[pos as int]);
        }
        if c == '"' {
            proof {
                assert(spec_parse_body(here) == Some((Seq::<char>::empty(), 1int)));
                assert(acc@ + Seq::<char>::empty() =~= acc@);
            }
            return Some((acc, pos + 1));
        }
        if c == '\\' {
            if pos + 1 >= n {
                proof {
                    assert(here.len() < 2);
                }
                return None;
            }
            let e = s.get_char(pos + 1);
            proof {
                assert(here[1] == s@[pos + 1]);
            }
            if e == 'u' {
                if n - pos < 6 {
                    proof {
                        assert(here.len() < 6);
                    }
                    return None;
                }
                proof {
                    assert(here[2] == s@[pos + 2]);
                    assert(here[3] == s@[pos + 3]);
                    assert(here[4] == s@[pos + 4]);
                    assert(here[5] == s@[pos + 5]);
                }
                if s.get_char(pos + 2) != '0' || s.get_char(pos + 3) != '0' {
                    return None;
                }
                let hi = match hex_val(s.get_char(pos + 4)) {
                    Some(v) => v,
                    None => {
                        return None;
                    },
                };
                let lo = match hex_val(s.get_char(pos + 5)) {
                    Some(v) => v,
                    None => {
                        return None;
                    },
                };
                let decoded = (hi * 16 + lo) as char;
                proof {
                    assert(decoded == spec_hex_pair_char(spec_hex_val(here[4]), spec_hex_val(here[5])));
                    assert(here.skip(6) =~= s@.skip(pos + 6));
                    assert(spec_parse_body(here) == body_step(
                        spec_parse_body(s@.skip(pos + 6)),
                        seq![decoded],
                        6,
                    ));
                    lemma_body_step_compose(
                        spec_parse_body(s@.skip(pos + 6)),
                        acc@,
                        pos - start,
                        seq![decoded],
                        6,
                    );
                    assert(acc@.push(decoded) =~= acc@ + seq![decoded]);
                }
                push_char(&mut acc, decoded);
                pos = pos + 6;
            } else {
                let decoded = if e == '"' {
                    '"'
                } else if e == '\\' {
                    '\\'
                } else if e == '/' {
                    '/'
                } else if e == 'b' {
                    '\u{8}'
                } else if e == 't' {
                    '\t'
                } else if e == 'n' {
                    '\n'
                } else if e == 'f' {
                    '\u{c}'
                } else if e == 'r' {
                    '\r'
                } else {
                    proof {
                        assert(spec_short_escape(here[1]) is None);
                    }
                    return None;
                };
                proof {
                    assert(spec_short_escape(here[1]) == Some(decoded));
                    assert(here.skip(2) =~= s@.skip(pos + 2));
                    assert(spec_parse_body(here) == body_step(
                        spec_parse_body(s@.skip(pos + 2)),
                        seq![decoded],
                        2,
                    ));
                    lemma_body_step_compose(
                        spec_parse_body(s@.skip(pos + 2)),
                        acc@,
                        pos - start,
                        seq![decoded],
                        2,
                    );
                    assert(acc@.push(decoded) =~= acc@ + seq![decoded]);
                }
                push_char(&mut acc, decoded);
                pos = pos + 2;
            }
        } else if (c as u32) < 32 {
            return None;
        } else {
            proof {
                assert(here.skip(1) =~= s@.skip(pos + 1));
                assert(spec_parse_body(here) == body_step(
                    spec_parse_body(s@.skip(pos + 1)),
                    seq![c],
                    1,
                ));
                lemma_body_step_compose(
                    spec_parse_body(s@.skip(pos + 1)),
                    acc@,
                    pos - start,
                    seq![c],
                    1,
                );
                assert(acc@.push(c) =~= acc@ + seq![c]);
            }
            push_char(&mut acc, c);
            pos = pos + 1;
        }
    }
}

/// Decodes the store's path-list encoding; `None` for any string that is
/// not a whitespace-free JSON array of strings.
pub fn decode_path_list(s: &str) -> (r: Option<Vec<String>>)
    ensures
        r matches Some(v) ==> spec_parse_path_list(s@) == Some(v.deep_view()),
        r is None ==> spec_parse_path_list(s@) is None,
{
    let n = s.unicode_len();
    if n < 2 {
        return None;
    }
    if s.get_char(0) != '[' || s.get_char(n - 1) != ']' {
        return None;
    }
    if n == 2 {
        let out: Vec<String> = Vec::new();
        proof {
            assert(out.deep_view() =~= Seq::<Seq<char>>::empty());
        }
        return Some(out);
    }
    let mut items: Vec<String> = Vec::new();
    let mut pos: usize = 1;
    proof {
        match spec_parse_items(s@.skip(1)) {
            Some(p) => {
                assert(items.deep_view() + p.0 =~= p.0);
            },
            None => {},
        }
    }
    loop
        invariant
            1 <= pos < n,
            n == s@.len(),
            s@.first() == '[',
            s@.last() == ']',
            n > 2,
            spec_parse_items(s@.skip(1)) == (match spec_parse_items(s@.skip(pos as int)) {
                Some(p) => Some((items.deep_view() + p.0, (pos - 1) + p.1)),
                None => None,
            }),
        decreases n - pos,
    {
        let ghost here = s@.skip(pos as int);
        proof {
            assert(here.first() == s@[pos as int]);
        }
        if s.get_char(pos) != '"' {
            return None;
        }
        proof {
            assert(here.skip(1) =~= s@.skip(pos + 1));
        }
        let parsed = match parse_body_at(s, pos + 1) {
            Some(p) => p,
            None => {
                return None;
            },
        };
        let decoded = parsed.0;
        let end = parsed.1;
        let ghost kb = end - (pos + 1);
        proof {
            assert(spec_parse_body(here.skip(1)) == Some((decoded@, kb)));
        }
        let ghost dv_old = items.deep_view();
        let ghost dval = decoded@;
        if end < n && s.get_char(end) == ',' {
            proof {
                assert(here[1 + kb] == s@[end as int]);
                assert(here.skip(1 + kb + 1) =~= s@.skip(end + 1));
                assert(spec_parse_items(here) == (match spec_parse_items(s@.skip(end + 1)) {
                    Some(p) => Some((seq![dval] + p.0, 1 + kb + 1 + p.1)),
                    None => None,
                }));
            }
            items.push(decoded);
            pos = end + 1;
            proof {
                assert(items.deep_view() =~= dv_old.push(dval));
                match spec_parse_items(s@.skip(pos as int)) {
                    Some(p2) => {
                        assert(dv_old + (seq![dval] + p2.0) =~= items.deep_view() + p2.0);
                    },
                    None => {},
                }
            }
            if pos >= n {
                return None;
            }
        } else {
            proof {
                if 1 + kb < here.len() {
                    assert(here[1 + kb] == s@[end as int]);
                }
                assert(spec_parse_items(here) == Some((seq![decoded@], 1 + kb)));
            }
            let ghost dval = decoded@;
            items.push(decoded);
            proof {
                assert(items.deep_view() =~= dv_old + seq![dval]);
            }
            if end == n - 1 {
                proof {
                    assert(spec_parse_items(s@.skip(1)) == Some((items.deep_view(), n - 2)));
                }
                return Some(items);
            }
            return None;
        }
    }
}

/// Encodes `paths` as a compact JSON array of strings.
pub fn encode_path_list(paths: &Vec<String>) -> (r: String)
    ensures
        r@ == spec_path_list(paths.deep_view()),
{
    let mut out = String::from_str("[");
    proof {
        reveal_strlit("[");
        assert(out@ =~= seq!['[']);
    }
    let n = paths.len();
    let mut i: usize = 0;
    while i < n
        invariant
            i <= n,
            n == paths@.len(),
            paths.deep_view().len() == n,
            forall|k: int| 0 <= k < n ==> paths.deep_view()[k] == paths@[k]@,
            out@ =~= seq!['['] + spec_json_items(paths.deep_view().take(i as int)),
        decreases n - i,
    {
        if i > 0 {
            push_char(&mut out, ',');
        }
        push_json_string(&mut out, paths[i].as_str());
        proof {
            let dv = paths.deep_view();
            lemma_json_items_snoc(dv.take(i + 1));
            assert(dv.take(i + 1).drop_last() =~= dv.take(i as int));
            assert(dv.take(i + 1).last() == dv[i as int]);
            assert(out@ =~= seq!['['] + spec_json_items(dv.take(i + 1)));
        }
        i = i + 1;
    }
    push_char(&mut out, ']');
    proof {
        assert(paths.deep_view().take(n as int) =~= paths.deep_view());
        assert(out@ =~= spec_path_list(paths.deep_view()));
    }
    out
}

proof fn lemma_hex_val_digit(d: int)
    requires
        0 <= d < 16,
    ensures
        spec_hex_val(spec_digit_char(d)) == d,
{
}

/// Parsing an escaped body (with its closing quote and anything after)
/// recovers the original characters and consumes exactly the body and the
/// quote.
proof fn lemma_parse_encoded_body(s: Seq<char>, suffix: Seq<char>)
    ensures
        spec_parse_body(spec_json_string_body(s) + seq!['"'] + suffix) == Some(
            (s, spec_json_string_body(s).len() as int + 1),
        ),
    decreases s.len(),
{
    let body = spec_json_string_body(s);
    let input = body + seq!['"'] + suffix;
    if s.len() == 0 {
        assert(input.first() == '"');
        assert(spec_parse_body(input) == Some((Seq::<char>::empty(), 1int)));
        assert(Seq::<char>::empty() =~= s);
    } else {
        let c = s.first();
        let e = spec_json_escape(c);
        let tail_body = spec_json_string_body(s.drop_first());
        assert(body == e + tail_body);
        let rest = tail_body + seq!['"'] + suffix;
        lemma_parse_encoded_body(s.drop_first(), suffix);
        assert(input =~= e + rest);
        assert(forall|j: int| 0 <= j < e.len() ==> input[j] == e[j]);
        if c == '"' || c == '\\' {
            assert(input[0] == '\\');
            assert(spec_short_escape(input[1]) == Some(c));
            assert(input.skip(2) =~= rest);
            assert(spec_parse_body(input) == Some(
                (seq![c] + s.drop_first(), 2 + tail_body.len() as int + 1),
            ));
            assert(seq![c] + s.drop_first() =~= s);
        } else if c == '\u{8}' || c == '\t' || c == '\n' || c == '\u{c}' || c == '\r' {
            assert(input[0] == '\\');
            assert(spec_short_escape(input[1]) == Some(c));
            assert(input.skip(2) =~= rest);
            assert(spec_parse_body(input) == Some(
                (seq![c] + s.drop_first(), 2 + tail_body.len() as int + 1),
            ));
            assert(seq![c] + s.drop_first() =~= s);
        } else if (c as u32) < 32 {
            let hi = (c as u32) / 16;
            let lo = (c as u32) % 16;
            assert(input[0] == '\\' && input[1] == 'u' && input[2] == '0' && input[3] == '0');
            assert(input[4] == spec_digit_char(hi as int));
            assert(input[5] == spec_digit_char(lo as int));
            lemma_hex_val_digit(hi as int);
            lemma_hex_val_digit(lo as int);
            assert(input.skip(6) =~= rest);
            assert(spec_hex_pair_char(hi as int, lo as int) == c) by {
                let x: u32 = c as u32;
                assert(hi * 16 + lo == x) by (nonlinear_arith)
                    requires
                        hi == x / 16,
                        lo == x % 16,
                        x < 32,
                ;
                vstd::utf8::char_u32_cast(c, x);
            }
            assert(spec_parse_body(input) == Some(
                (seq![c] + s.drop_first(), 6 + tail_body.len() as int + 1),
            ));
            assert(seq![c] + s.drop_first() =~= s);
        } else {
            assert(input[0] == c);
            assert(c != '"' && c != '\\' && (c as u32) >= 32);
            assert(input.skip(1) =~= rest);
            assert(spec_parse_body(input) == Some(
                (seq![c] + s.drop_first(), 1 + tail_body.len() as int + 1),
            ));
            assert(seq![c] + s.drop_first() =~= s);
        }
    }
}

/// Parsing encoded items (with the closing bracket after) recovers the
/// original strings and consumes exactly the items.
proof fn lemma_parse_encoded_items(items: Seq<Seq<char>>)
    requires
        items.len() > 0,
    ensures
        spec_parse_items(spec_json_items(items) + seq![']']) == Some(
            (items, spec_json_items(items).len() as int),
        ),
    decreases items.len(),
{
    let enc = spec_json_items(items);
    let input = enc + seq![']'];
    let first_body = spec_json_string_body(items.first());
    if items.len() == 1 {
        assert(enc == spec_json_string(items.first()));
        assert(input =~= seq!['"'] + (first_body + seq!['"'] + seq![']']));
        assert(input.first() == '"');
        assert(input.skip(1) =~= first_body + seq!['"'] + seq![']']);
        lemma_parse_encoded_body(items.first(), seq![']']);
        let k: int = first_body.len() as int + 1;
        assert(spec_parse_body(input.skip(1)) == Some((items.first(), k)));
        assert(1 + k < input.len() ==> input[1 + k] == ']');
        assert(spec_parse_items(input) == Some((seq![items.first()], 1 + k)));
        assert(seq![items.first()] =~= items);
        assert(1 + k == enc.len());
    } else {
        let rest_enc = spec_json_items(items.drop_first());
        assert(enc == spec_json_string(items.first()) + seq![','] + rest_enc);
        assert(input =~= seq!['"'] + (first_body + seq!['"'] + (seq![','] + rest_enc
            + seq![']'])));
        assert(input.first() == '"');
        assert(input.skip(1) =~= first_body + seq!['"'] + (seq![','] + rest_enc + seq![']']));
        lemma_parse_encoded_body(items.first(), seq![','] + rest_enc + seq![']']);
        let k: int = first_body.len() as int + 1;
        assert(spec_parse_body(input.skip(1)) == Some((items.first(), k)));
        assert(input[1 + k] == ',');
        assert(1 + k < input.len());
        lemma_parse_encoded_items(items.drop_first());
        assert(input.skip(1 + k + 1) =~= rest_enc + seq![']']);
        assert(spec_parse_items(input.skip(1 + k + 1)) == Some(
            (items.drop_first(), rest_enc.len() as int),
        ));
        assert(spec_parse_items(input) == Some(
            (seq![items.first()] + items.drop_first(), 1 + k + 1 + rest_enc.len() as int),
        ));
        assert(seq![items.first()] + items.drop_first() =~= items);
        assert(1 + k + 1 + rest_enc.len() == enc.len());
    }
}

/// Law: the path-list codec round-trips. Decoding an encoded path list
/// recovers exactly the paths that were encoded, whatever they hold.
pub proof fn lemma_path_list_round_trip(items: Seq<Seq<char>>)
    ensures
        spec_parse_path_list(spec_path_list(items)) == Some(items),
{
    let enc = spec_path_list(items);
    let body = spec_json_items(items);
    assert(enc.first() == '[');
    assert(enc.last() == ']');
    if items.len() == 0 {
        assert(body =~= Seq::<char>::empty());
        assert(enc.len() == 2);
        assert(Seq::<Seq<char>>::empty() =~= items);
    } else {
        assert(spec_json_string(items.first()).len() >= 2);
        assert(body.len() >= 2) by {
            if items.len() == 1 {
            } else {
            }
        }
        assert(enc.len() > 2);
        lemma_parse_encoded_items(items);
        assert(enc.skip(1) =~= body + seq![']']);
        assert(spec_parse_items(enc.skip(1)) == Some((items, body.len() as int)));
        assert(body.len() == enc.len() - 2);
    }
}

} // verus!
