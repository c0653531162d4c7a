use vstd::prelude::*;

use crate::text::{chars_of, find_char, first_index_of, lemma_first_index_of, push_char, string_of};
use crate::tui::app::EnvelopeData;

verus! {

/// Index of the first `a` directly followed by `b` in `s`, or the length of
/// `s` when there is none.
pub open spec fn first_pair_index(s: Seq<char>, a: char, b: char) -> nat
    decreases s.len(),
{
    if s.len() < 2 {
        s.len()
    } else if s[0] == a && s[1] == b {
        0
    } else {
        1 + first_pair_index(s.drop_first(), a, b)
    }
}

/// `s` split around its first `": "`, when it holds one.
pub open spec fn split_at_colon_space(s: Seq<char>) -> Option<(Seq<char>, Seq<char>)> {
    let i = first_pair_index(s, ':', ' ') as int;
    if i + 2 <= s.len() {
        Some((s.take(i), s.skip(i + 2)))
    } else {
        None
    }
}

/// `c` may stand in a header name: an ASCII letter or digit, or `-`.
pub open spec fn is_header_name_char(c: char) -> bool {
    ||| ('0' <= c && c <= '9')
    ||| ('a' <= c && c <= 'z')
    ||| ('A' <= c && c <= 'Z')
    ||| c == '-'
}

/// A line looks like an email header: a non-empty name of ASCII letters,
/// digits and hyphens, then `": "`.
pub open spec fn header_line(s: Seq<char>) -> bool {
    match split_at_colon_space(s) {
        Some((key, _)) => key.len() > 0 && forall|i: int|
            0 <= i < key.len() ==> is_header_name_char(#[trigger] key[i]),
        None => false,
    }
}

pub proof fn lemma_first_pair_index(s: Seq<char>, a: char, b: char)
    ensures
        first_pair_index(s, a, b) <= s.len(),
        first_pair_index(s, a, b) + 2 <= s.len() ==> s[first_pair_index(s, a, b) as int] == a
            && s[first_pair_index(s, a, b) + 1int] == b,
        first_pair_index(s, a, b) + 2 > s.len() ==> first_pair_index(s, a, b) == s.len(),
        forall|j: int|
            0 <= j < first_pair_index(s, a, b) && j + 1 < s.len() ==> !(#[trigger] s[j] == a && s[j + 1] == b),
    decreases s.len(),
{
    if s.len() >= 2 && !(s[0] == a && s[1] == b) {
        lemma_first_pair_index(s.drop_first(), a, b);
        assert forall|j: int|
            0 <= j < first_pair_index(s, a, b) && j + 1 < s.len() implies !(#[trigger] s[j] == a && s[j + 1]
            == b) by {
            if j > 0 {
                assert(s[j] == s.drop_first()[j - 1]);
                assert(s[j + 1] == s.drop_first()[j]);
            }
        }
    }
}

proof fn lemma_first_pair_index_at(s: Seq<char>, a: char, b: char, i: int)
    requires
        0 <= i <= s.len(),
        i + 2 <= s.len() ==> s[i] == a && s[i + 1] == b,
        i + 2 > s.len() ==> i == s.len(),
        forall|j: int| 0 <= j < i && j + 1 < s.len() ==> !(#[trigger] s[j] == a && s[j + 1] == b),
    ensures
        first_pair_index(s, a, b) == i,
    decreases s.len(),
{
    if s.len() >= 2 && !(s[0] == a && s[1] == b) {
        assert forall|j: int|
            0 <= j < i - 1 && j + 1 < s.drop_first().len() implies !(#[trigger] s.drop_first()[j] == a
            && s.drop_first()[j + 1] == b) by {
            assert(s.drop_first()[j] == s[j + 1]);
            assert(s.drop_first()[j + 1] == s[j + 2]);
        }
        lemma_first_pair_index_at(s.drop_first(), a, b, i - 1);
    }
}

/// Position of the first `": "` in `v`, or its length when there is none.
fn find_colon_space(v: &Vec<char>) -> (i: usize)
    ensures
        i == first_pair_index(v@, ':', ' '),
{
    let n = v.len();
    let mut k: usize = 0;
    while n - k > 1 && !(v[k] == ':' && v[k + 1] == ' ')
        invariant
            k <= n == v@.len(),
            forall|j: int| 0 <= j < k && j + 1 < n ==> !(#[trigger] v@[j] == ':' && v@[j + 1] == ' '),
        decreases n - k,
    {
        k = k + 1;
    }
    let r = if n - k > 1 { k } else { n };
    proof {
        lemma_first_pair_index_at(v@, ':', ' ', r as int);
    }
    r
}

/// Whether the characters `v[0..len]` are all header-name characters.
fn all_header_name_chars(v: &Vec<char>, len: usize) -> (b: bool)
    requires
        len <= v.len(),
    ensures
        b == forall|i: int| 0 <= i < len ==> is_header_name_char(#[trigger] v@[i]),
{
    let mut i: usize = 0;
    while i < len
        invariant
            i <= len <= v.len(),
            forall|j: int| 0 <= j < i ==> is_header_name_char(#[trigger] v@[j]),
        decreases len - i,
    {
        let c = v[i];
        if !(('0' <= c && c <= '9') || ('a' <= c && c <= 'z') || ('A' <= c && c <= 'Z') || c == '-') {
            return false;
        }
        i = i + 1;
    }
    true
}

/// Checks whether a line looks like an email header (e.g. `From: ...`).
pub fn is_header_line(line: &str) -> (b: bool)
    ensures
        b == header_line(line@),
{
    let v = chars_of(line);
    let i = find_colon_space(&v);
    proof {
        lemma_first_pair_index(v@, ':', ' ');
    }
    if v.len() - i < 2 {
        return false;
    }
    let b = i > 0 && all_header_name_chars(&v, i);
    proof {
        let key = v@.take(i as int);
        assert forall|j: int| 0 <= j < i implies key[j] == v@[j] by {}
        if b {
            assert forall|j: int| 0 <= j < key.len() implies is_header_name_char(#[trigger] key[j]) by {
                assert(key[j] == v@[j]);
            }
        }
        if i > 0 && !b {
            let w = choose|j: int| 0 <= j < i && !is_header_name_char(#[trigger] v@[j]);
            assert(key[w] == v@[w]);
        }
    }
    b
}

/// A line of a message as the message view shows it.
pub enum MessageLine {
    /// A header line: the header name, then the value after `": "`.
    Header { key: String, value: String },
    /// Any other line, shown as it is.
    Body(String),
}

/// The way a line is shown: while still among the headers (`in_headers`),
/// a header line is split into name and value; every other line is shown as
/// it is.
pub open spec fn message_line_of(s: Seq<char>, in_headers: bool, m: MessageLine) -> bool {
    if in_headers && header_line(s) {
        match split_at_colon_space(s) {
            Some((k, v)) => m matches MessageLine::Header { key, value } && key@ == k && value@ == v,
            None => false,
        }
    } else {
        m matches MessageLine::Body(text) && text@ == s
    }
}

/// Classifies one line of a message for display; `in_headers` tells whether
/// the line stands before the first blank line.
pub fn classify_line(line: &str, in_headers: bool) -> (m: MessageLine)
    ensures
        message_line_of(line@, in_headers, m),
{
    if in_headers && is_header_line(line) {
        let v = chars_of(line);
        let i = find_colon_space(&v);
        proof {
            lemma_first_pair_index(v@, ':', ' ');
            assert(v@.subrange(0, i as int) == v@.take(i as int));
            assert(v@.subrange(i + 2, v@.len() as int) == v@.skip(i + 2));
            assert(split_at_colon_space(line@) is Some);
            assert(i + 2 <= v@.len());
        }
        MessageLine::Header { key: string_of(&v, 0, i), value: string_of(&v, i + 2, v.len()) }
    } else {
        let v = chars_of(line);
        assert(v@.subrange(0, v@.len() as int) == v@);
        MessageLine::Body(string_of(&v, 0, v.len()))
    }
}

/// `t` without one trailing carriage return.
pub open spec fn without_trailing_cr(t: Seq<char>) -> Seq<char> {
    if t.len() > 0 && t.last() == '\r' {
        t.drop_last()
    } else {
        t
    }
}

/// The lines of a text: split at each line feed, a carriage return right
/// before a line feed dropped, no empty line after a final line feed.
pub open spec fn lines_of(s: Seq<char>) -> Seq<Seq<char>>
    decreases s.len(),
{
    if s.len() == 0 {
        Seq::empty()
    } else {
        let i = first_index_of(s, '\n') as int;
        if i < s.len() {
            seq![without_trailing_cr(s.take(i))] + lines_of(s.skip(i + 1))
        } else {
            seq![s]
        }
    }
}

/// Line `i` stands before the first empty line of `lines`: `i` is below the
/// index of the first empty line (or there is none up to `i`).
pub open spec fn before_first_blank(lines: Seq<Seq<char>>, i: int) -> bool {
    forall|j: int| 0 <= j <= i ==> (#[trigger] lines[j]).len() > 0
}

/// The lines of a message, each classified for display: headers appear only
/// before the first blank line, every later line is body text.
pub fn message_lines(content: &str) -> (r: Vec<MessageLine>)
    ensures
        r@.len() == lines_of(content@).len(),
        forall|i: int|
            0 <= i < r@.len() ==> message_line_of(
                lines_of(content@)[i],
                before_first_blank(lines_of(content@), i),
                #[trigger] r@[i],
            ),
        forall|i: int|
            0 <= i < r@.len() && !before_first_blank(lines_of(content@), i) ==> (#[trigger] r@[i]) is Body,
{
    let v = chars_of(content);
    let n = v.len();
    let mut r: Vec<MessageLine> = Vec::new();
    let ghost mut done: Seq<Seq<char>> = Seq::empty();
    let mut in_headers = true;
    let mut pos: usize = 0;
    assert(v@.skip(0) == v@);
    while pos < n
        invariant
            pos <= n == v@.len(),
            v@ == content@,
            lines_of(content@) == done + lines_of(v@.skip(pos as int)),
            r@.len() == done.len(),
            in_headers == (forall|j: int| 0 <= j < done.len() ==> (#[trigger] done[j]).len() > 0),
            forall|i: int| 0 <= i < r@.len() ==> message_line_of(done[i], before_first_blank(done, i), #[trigger] r@[i]),
        decreases n - pos,
    {
        let i = find_char(&v, pos, n, '\n');
        let ghost rest = v@.skip(pos as int);
        proof {
            assert(v@.subrange(pos as int, n as int) == rest);
            lemma_first_index_of(rest, '\n');
        }
        let end = pos + i;
        let line_end = if i < n - pos && end > pos && v[end - 1] == '\r' { end - 1 } else { end };
        let line = string_of(&v, pos, line_end);
        let blank = line.as_str().is_empty();
        let m = classify_line(line.as_str(), in_headers && !blank);
        let ghost piece = if (i as int) < rest.len() {
            without_trailing_cr(rest.take(i as int))
        } else {
            rest
        };
        proof {
            assert(rest.take(i as int) == v@.subrange(pos as int, end as int));
            if (i as int) < rest.len() {
                assert(rest.skip(i + 1) == v@.skip(end + 1));
                if end > pos && v@[end - 1] == '\r' {
                    assert(rest.take(i as int).drop_last() == v@.subrange(pos as int, end - 1));
                }
            } else {
                assert(rest == v@.subrange(pos as int, n as int));
            }
            assert(line@ == piece);
            assert(done.push(piece) + lines_of(v@.skip(if (i as int) < rest.len() { end + 1 } else { n as int })) == done + lines_of(rest)) by {
                if (i as int) < rest.len() {
                    assert(seq![piece] + lines_of(rest.skip(i + 1)) == lines_of(rest));
                } else {
                    assert(v@.skip(n as int) == Seq::<char>::empty());
                    assert(lines_of(rest) == seq![piece]);
                }
            }
        }
        r.push(m);
        let ghost old_done = done;
        let ghost was_in_headers = in_headers;
        proof {
            assert(blank == (piece.len() == 0));
            done = done.push(piece);
            assert forall|j: int| 0 <= j < old_done.len() implies done[j] == old_done[j] by {}
            assert(done[old_done.len() as int] == piece);
            assert(before_first_blank(done, old_done.len() as int) == (was_in_headers && !blank)) by {
                if was_in_headers && !blank {
                    assert forall|j: int| 0 <= j <= old_done.len() implies (#[trigger] done[j]).len() > 0 by {
                        if j < old_done.len() {
                            assert(done[j] == old_done[j]);
                        }
                    }
                } else if blank {
                    assert(done[old_done.len() as int].len() == 0);
                } else {
                    let w = choose|j: int| 0 <= j < old_done.len() && (#[trigger] old_done[j]).len() == 0;
                    assert(done[w] == old_done[w]);
                }
            }
            assert forall|k: int| 0 <= k < r@.len() implies message_line_of(done[k], before_first_blank(done, k), #[trigger] r@[k]) by {
                if k < old_done.len() {
                    assert(before_first_blank(done, k) == before_first_blank(old_done, k)) by {
                        assert forall|j: int| 0 <= j <= k implies done[j] == old_done[j] by {}
                    }
                }
            }
        }
        if blank {
            in_headers = false;
        }
        proof {
            assert(in_headers == (forall|j: int| 0 <= j < done.len() ==> (#[trigger] done[j]).len() > 0)) by {
                if !in_headers {
                    if blank {
                        assert(done[old_done.len() as int].len() == 0);
                    } else {
                        let w = choose|j: int| 0 <= j < old_done.len() && (#[trigger] old_done[j]).len() == 0;
                        assert(done[w] == old_done[w]);
                    }
                } else {
                    assert forall|j: int| 0 <= j < done.len() implies (#[trigger] done[j]).len() > 0 by {
                        if j < old_done.len() {
                            assert(done[j] == old_done[j]);
                        }
                    }
                }
            }
        }
        pos = if i < n - pos { end + 1 } else { n };
    }
    proof {
        assert(v@.skip(n as int) == Seq::<char>::empty());
        assert(done + Seq::<Seq<char>>::empty() == done);
    }
    r
}

/// Colours of the envelope list.
#[derive(Clone, Copy, Debug, PartialEq, Eq, Structural)]
pub enum Tint {
    DarkGray,
    Cyan,
    White,
    Yellow,
}

/// How one row of the envelope list looks.
#[derive(Clone, Copy, Debug, PartialEq, Eq, Structural)]
pub struct RowLook {
    /// Every cell in bold.
    pub bold: bool,
    /// Colour of the flags cell.
    pub flags_tint: Tint,
    /// Colour of the sender cell.
    pub from_tint: Tint,
    /// Colour of the date cell.
    pub date_tint: Tint,
}

/// The look of an envelope's row: unseen envelopes in bold with the sender
/// in white, flagged ones with their flags in yellow.
pub fn row_look(e: &EnvelopeData) -> (r: RowLook)
    ensures
        r.bold == e.unseen,
        r.flags_tint == (if e.flagged { Tint::Yellow } else { Tint::DarkGray }),
        r.from_tint == (if e.unseen { Tint::White } else { Tint::Cyan }),
        r.date_tint == Tint::DarkGray,
{
    RowLook {
        bold: e.unseen,
        flags_tint: if e.flagged { Tint::Yellow } else { Tint::DarkGray },
        from_tint: if e.unseen { Tint::White } else { Tint::Cyan },
        date_tint: Tint::DarkGray,
    }
}

/// The title of the envelope list: the folder name with a space on each side.
pub fn list_title(folder: &str) -> (r: String)
    ensures
        r@ == seq![' '] + folder@ + seq![' '],
{
    let mut r = String::new();
    push_char(&mut r, ' ');
    r.append(folder);
    push_char(&mut r, ' ');
    r
}

} // verus!
