use vstd::prelude::*;

verus! {

/// Unicode `White_Space` characters: the characters that `char::is_whitespace`
/// and `str::trim` treat as whitespace.
pub open spec fn is_white_space(c: char) -> bool {
    ||| ('\u{9}' <= c && c <= '\u{d}')
    ||| c == ' '
    ||| c == '\u{85}'
    ||| c == '\u{a0}'
    ||| c == '\u{1680}'
    ||| ('\u{2000}' <= c && c <= '\u{200a}')
    ||| c == '\u{2028}'
    ||| c == '\u{2029}'
    ||| c == '\u{202f}'
    ||| c == '\u{205f}'
    ||| c == '\u{3000}'
}

/// `s` without its leading and trailing whitespace.
pub open spec fn trim_spec(s: Seq<char>) -> Seq<char>
    decreases s.len(),
{
    if s.len() > 0 && is_white_space(s[0]) {
        trim_spec(s.drop_first())
    } else if s.len() > 0 && is_white_space(s.last()) {
        trim_spec(s.drop_last())
    } else {
        s
    }
}

/// Index of the first occurrence of `c` in `s`, or the length of `s` when
/// `c` does not occur.
pub open spec fn first_index_of(s: Seq<char>, c: char) -> nat
    decreases s.len(),
{
    if s.len() == 0 || s[0] == c {
        0
    } else {
        1 + first_index_of(s.drop_first(), c)
    }
}

/// `s` split around the first occurrence of `c`, when there is one.
pub open spec fn split_once_spec(s: Seq<char>, c: char) -> Option<(Seq<char>, Seq<char>)> {
    let i = first_index_of(s, c) as int;
    if i < s.len() {
        Some((s.take(i), s.skip(i + 1)))
    } else {
        None
    }
}

/// `first_index_of` lands on the first occurrence, or past the end when
/// there is none.
pub proof fn lemma_first_index_of(s: Seq<char>, c: char)
    ensures
        first_index_of(s, c) <= s.len(),
        first_index_of(s, c) < s.len() ==> s[first_index_of(s, c) as int] == c,
        forall|j: int| 0 <= j < first_index_of(s, c) ==> s[j] != c,
    decreases s.len(),
{
    if s.len() > 0 && s[0] != c {
        lemma_first_index_of(s.drop_first(), c);
        assert forall|j: int| 0 <= j < first_index_of(s, c) implies s[j] != c by {
            if j > 0 {
                assert(s[j] == s.drop_first()[j - 1]);
            }
        }
    }
}

/// A position with `c` before which `c` does not occur is `first_index_of`.
pub proof fn lemma_first_index_of_at(s: Seq<char>, c: char, i: int)
    requires
        0 <= i <= s.len(),
        i < s.len() ==> s[i] == c,
        forall|j: int| 0 <= j < i ==> s[j] != c,
    ensures
        first_index_of(s, c) == i,
    decreases s.len(),
{
    if s.len() > 0 && s[0] != c {
        assert forall|j: int| 0 <= j < i - 1 implies s.drop_first()[j] != c by {
            assert(s.drop_first()[j] == s[j + 1]);
        }
        lemma_first_index_of_at(s.drop_first(), c, i - 1);
    }
}

/// Appends `c` to `s`, with `String::push`.
///
/// Taken on trust: the string afterwards is the old one followed by `c`.
#[verifier::external_body]
pub(crate) fn push_char(s: &mut String, c: char)
    ensures
        final(s)@ == old(s)@.push(c),
{
    s.push(c);
}

/// Whether `c` is whitespace: one of the Unicode `White_Space` characters,
/// as `char::is_whitespace` and `str::trim` understand it.
pub fn is_whitespace(c: char) -> (b: bool)
    ensures
        b == is_white_space(c),
{
    ('\u{9}' <= c && c <= '\u{d}') || c == ' ' || c == '\u{85}' || c == '\u{a0}' || c == '\u{1680}'
        || ('\u{2000}' <= c && c <= '\u{200a}') || c == '\u{2028}' || c == '\u{2029}' || c
        == '\u{202f}' || c == '\u{205f}' || c == '\u{3000}'
}

/// The characters of `s`, in order.
pub fn chars_of(s: &str) -> (v: Vec<char>)
    ensures
        v@ == s@,
{
    let mut v: Vec<char> = Vec::new();
    for c in it: s.chars()
        invariant
            v@ == it.seq().take(it.index() as int),
    {
        v.push(c);
    }
    v
}

/// The string made of `v[lo..hi]`.
pub fn string_of(v: &Vec<char>, lo: usize, hi: usize) -> (s: String)
    requires
        lo <= hi <= v.len(),
    ensures
        s@ == v@.subrange(lo as int, hi as int),
{
    let mut s = String::new();
    let mut i = lo;
    while i < hi
        invariant
            lo <= i <= hi <= v.len(),
            s@ == v@.subrange(lo as int, i as int),
        decreases hi - i,
    {
        push_char(&mut s, v[i]);
        assert(v@.subrange(lo as int, i + 1) == v@.subrange(lo as int, i as int).push(v@[i as int]));
        i = i + 1;
    }
    s
}

/// Index of the first `c` in `v[lo..hi]`, as an offset from `lo`; the
/// length of the range when there is none.
pub fn find_char(v: &Vec<char>, lo: usize, hi: usize, c: char) -> (i: usize)
    requires
        lo <= hi <= v.len(),
    ensures
        i == first_index_of(v@.subrange(lo as int, hi as int), c),
        lo + i <= hi,
{
    let ghost s = v@.subrange(lo as int, hi as int);
    let mut k = lo;
    while k < hi && v[k] != c
        invariant
            lo <= k <= hi <= v.len(),
            s == v@.subrange(lo as int, hi as int),
            forall|j: int| 0 <= j < k - lo ==> s[j] != c,
        decreases hi - k,
    {
        k = k + 1;
    }
    proof {
        lemma_first_index_of_at(s, c, k - lo);
    }
    k - lo
}

/// The bounds of `v[lo..hi]` once its leading and trailing whitespace is
/// dropped.
pub fn trim_bounds(v: &Vec<char>, lo: usize, hi: usize) -> (r: (usize, usize))
    requires
        lo <= hi <= v.len(),
    ensures
        lo <= r.0 <= r.1 <= hi,
        v@.subrange(r.0 as int, r.1 as int) == trim_spec(v@.subrange(lo as int, hi as int)),
{
    let ghost whole = trim_spec(v@.subrange(lo as int, hi as int));
    let mut i = lo;
    while i < hi && is_whitespace(v[i])
        invariant
            lo <= i <= hi <= v.len(),
            trim_spec(v@.subrange(i as int, hi as int)) == whole,
        decreases hi - i,
    {
        assert(v@.subrange(i as int, hi as int).drop_first() == v@.subrange(i + 1, hi as int));
        i = i + 1;
    }
    if i == hi {
        return (i, i);
    }
    let mut j = hi;
    while j > i + 1 && is_whitespace(v[j - 1])
        invariant
            lo <= i < j <= hi <= v.len(),
            !is_white_space(v@[i as int]),
            trim_spec(v@.subrange(i as int, j as int)) == whole,
        decreases j,
    {
        assert(v@.subrange(i as int, j as int).drop_last() == v@.subrange(i as int, j - 1));
        j = j - 1;
    }
    (i, j)
}

} // verus!

verus! {

/// The strings of `parts` joined with `sep` between neighbours.
pub open spec fn join_spec(parts: Seq<Seq<char>>, sep: Seq<char>) -> Seq<char>
    decreases parts.len(),
{
    if parts.len() == 0 {
        Seq::empty()
    } else if parts.len() == 1 {
        parts[0]
    } else {
        join_spec(parts.drop_last(), sep) + sep + parts.last()
    }
}

/// The views of a list of strings.
pub open spec fn views_of(v: Seq<String>) -> Seq<Seq<char>> {
    v.map_values(|s: String| s@)
}

/// `s` with every occurrence of `c` removed.
pub open spec fn without_char(s: Seq<char>, c: char) -> Seq<char>
    decreases s.len(),
{
    if s.len() == 0 {
        Seq::empty()
    } else if s.last() == c {
        without_char(s.drop_last(), c)
    } else {
        without_char(s.drop_last(), c).push(s.last())
    }
}

/// `s` with every line feed turned into a carriage return and a line feed.
pub open spec fn lf_to_crlf(s: Seq<char>) -> Seq<char>
    decreases s.len(),
{
    if s.len() == 0 {
        Seq::empty()
    } else if s.last() == '\n' {
        lf_to_crlf(s.drop_last()).push('\r').push('\n')
    } else {
        lf_to_crlf(s.drop_last()).push(s.last())
    }
}

/// The characters of `parts` joined with single spaces.
pub fn join_with_spaces(parts: &Vec<String>) -> (v: Vec<char>)
    ensures
        v@ == join_spec(views_of(parts@), seq![' ']),
{
    let ghost views = views_of(parts@);
    let mut v: Vec<char> = Vec::new();
    let mut i: usize = 0;
    while i < parts.len()
        invariant
            i <= parts.len(),
            views == views_of(parts@),
            v@ == join_spec(views.take(i as int), seq![' ']),
        decreases parts.len() - i,
    {
        let ghost before = v@;
        if i > 0 {
            v.push(' ');
        }
        let part = chars_of(parts[i].as_str());
        let mut k: usize = 0;
        while k < part.len()
            invariant
                k <= part.len(),
                part@ == parts@[i as int]@,
                v@ == (if i > 0 { before.push(' ') } else { before }) + part@.take(k as int),
            decreases part.len() - k,
        {
            v.push(part[k]);
            assert(part@.take(k + 1) == part@.take(k as int).push(part@[k as int]));
            k = k + 1;
        }
        assert(part@.take(k as int) == part@);
        assert(views.take(i + 1).drop_last() == views.take(i as int));
        assert(views.take(i + 1).last() == views[i as int]);
        i = i + 1;
    }
    assert(views.take(parts.len() as int) == views);
    v
}

/// `s` with every occurrence of `c` removed.
pub fn remove_char(s: &Vec<char>, c: char) -> (v: Vec<char>)
    ensures
        v@ == without_char(s@, c),
{
    let mut v: Vec<char> = Vec::new();
    let mut i: usize = 0;
    while i < s.len()
        invariant
            i <= s.len(),
            v@ == without_char(s@.take(i as int), c),
        decreases s.len() - i,
    {
        assert(s@.take(i + 1).drop_last() == s@.take(i as int));
        if s[i] != c {
            v.push(s[i]);
        }
        i = i + 1;
    }
    assert(s@.take(s.len() as int) == s@);
    v
}

/// The string made of `s` with every line feed preceded by a carriage return.
pub fn crlf_string(s: &Vec<char>) -> (r: String)
    ensures
        r@ == lf_to_crlf(s@),
{
    let mut r = String::new();
    let mut i: usize = 0;
    while i < s.len()
        invariant
            i <= s.len(),
            r@ == lf_to_crlf(s@.take(i as int)),
        decreases s.len() - i,
    {
        assert(s@.take(i + 1).drop_last() == s@.take(i as int));
        if s[i] == '\n' {
            push_char(&mut r, '\r');
            push_char(&mut r, '\n');
        } else {
            push_char(&mut r, s[i]);
        }
        i = i + 1;
    }
    assert(s@.take(s.len() as int) == s@);
    r
}

} // verus!

verus! {

/// `c` is an ASCII decimal digit.
pub open spec fn is_ascii_digit(c: char) -> bool {
    '0' <= c && c <= '9'
}

/// The number that a sequence of decimal digits writes.
pub open spec fn decimal_value(d: Seq<char>) -> nat
    decreases d.len(),
{
    if d.len() == 0 {
        0
    } else {
        decimal_value(d.drop_last()) * 10 + ((d.last() as nat) - ('0' as nat)) as nat
    }
}

/// The digits of an unsigned number text: the text without one leading `+`.
pub open spec fn unsigned_digits(s: Seq<char>) -> Seq<char> {
    if s.len() > 0 && s[0] == '+' {
        s.drop_first()
    } else {
        s
    }
}

/// The `usize` that a text writes in decimal (an optional `+`, then one or
/// more ASCII digits, the value within range), if it writes one.
pub open spec fn usize_from_text(s: Seq<char>) -> Option<usize> {
    let d = unsigned_digits(s);
    if d.len() > 0 && (forall|i: int| 0 <= i < d.len() ==> is_ascii_digit(#[trigger] d[i]))
        && decimal_value(d) <= usize::MAX {
        Some(decimal_value(d) as usize)
    } else {
        None
    }
}

/// The first failure met when reading the digits `d` from left to right,
/// the value read so far being `acc`: a character that is no ASCII digit,
/// or a value past `usize::MAX`.
pub open spec fn digit_failure(d: Seq<char>, acc: nat) -> Option<Seq<char>>
    decreases d.len(),
{
    if d.len() == 0 {
        None
    } else if !is_ascii_digit(d[0]) {
        Some("invalid digit found in string"@)
    } else if acc * 10 + ((d[0] as nat) - ('0' as nat)) > usize::MAX {
        Some("number too large to fit in target type"@)
    } else {
        digit_failure(d.drop_first(), (acc * 10 + ((d[0] as nat) - ('0' as nat))) as nat)
    }
}

/// What `ParseIntError`'s `Display` writes when `usize::from_str` refuses a
/// text: the empty text is refused as empty; a lone sign as an invalid digit;
/// otherwise the digits after an optional `+` are read from left to right and
/// the first failure met decides.
pub open spec fn int_error_text(s: Seq<char>) -> Seq<char> {
    if s.len() == 0 {
        "cannot parse integer from empty string"@
    } else if s.len() == 1 && (s[0] == '+' || s[0] == '-') {
        "invalid digit found in string"@
    } else {
        match digit_failure(unsigned_digits(s), 0) {
            Some(t) => t,
            None => Seq::empty(),
        }
    }
}

/// `s.parse::<usize>()`, the error written out with `to_string`.
///
/// Taken on trust: the parse succeeds exactly on an optional `+` followed by
/// one or more ASCII digits whose value fits in a `usize`, and gives that
/// value; otherwise the error's text is the one `int_error_text` gives.
#[verifier::external_body]
pub(crate) fn parse_usize(s: &str) -> (r: Result<usize, String>)
    ensures
        match usize_from_text(s@) {
            Some(n) => r == Ok::<usize, String>(n),
            None => r matches Err(e) && e@ == int_error_text(s@),
        },
{
    match s.parse::<usize>() {
        Ok(n) => Ok(n),
        Err(e) => Err(e.to_string()),
    }
}

} // verus!

verus! {

/// `a` comes no later than `b` in lexicographic order of code points, the
/// order of `String`'s `Ord`.
pub open spec fn lex_le(a: Seq<char>, b: Seq<char>) -> bool
    decreases a.len(),
{
    if a.len() == 0 {
        true
    } else if b.len() == 0 {
        false
    } else if a[0] != b[0] {
        a[0] < b[0]
    } else {
        lex_le(a.drop_first(), b.drop_first())
    }
}

/// Any two texts are ordered one way or the other.
pub proof fn lemma_lex_total(a: Seq<char>, b: Seq<char>)
    ensures
        lex_le(a, b) || lex_le(b, a),
    decreases a.len(),
{
    if a.len() > 0 && b.len() > 0 && a[0] == b[0] {
        lemma_lex_total(a.drop_first(), b.drop_first());
    }
}

/// The order is transitive.
pub proof fn lemma_lex_transitive(a: Seq<char>, b: Seq<char>, c: Seq<char>)
    requires
        lex_le(a, b),
        lex_le(b, c),
    ensures
        lex_le(a, c),
    decreases a.len(),
{
    if a.len() > 0 && b.len() > 0 && c.len() > 0 && a[0] == b[0] && b[0] == c[0] {
        lemma_lex_transitive(a.drop_first(), b.drop_first(), c.drop_first());
    }
}

/// Whether `a` comes strictly before `b`.
pub fn lex_less(a: &str, b: &str) -> (r: bool)
    ensures
        r == !lex_le(b@, a@),
{
    let u = chars_of(a);
    let v = chars_of(b);
    let mut i: usize = 0;
    assert(u@.skip(0) == u@);
    assert(v@.skip(0) == v@);
    while i < u.len() && i < v.len() && u[i] == v[i]
        invariant
            i <= u@.len(),
            i <= v@.len(),
            u@ == a@,
            v@ == b@,
            lex_le(b@, a@) == lex_le(v@.skip(i as int), u@.skip(i as int)),
        decreases u@.len() - i,
    {
        assert(u@.skip(i as int).drop_first() == u@.skip(i + 1));
        assert(v@.skip(i as int).drop_first() == v@.skip(i + 1));
        i = i + 1;
    }
    proof {
        assert(u@.skip(i as int).len() > 0 ==> u@.skip(i as int)[0] == u@[i as int]);
        assert(v@.skip(i as int).len() > 0 ==> v@.skip(i as int)[0] == v@[i as int]);
    }
    if i == v.len() {
        false
    } else if i == u.len() {
        true
    } else {
        u[i] < v[i]
    }
}

/// `s` is in lexicographic order.
pub open spec fn lex_sorted(s: Seq<Seq<char>>) -> bool {
    forall|i: int, j: int| 0 <= i < j < s.len() ==> lex_le(#[trigger] s[i], #[trigger] s[j])
}

/// The names in lexicographic order (the order `Vec::<String>::sort` gives).
pub fn sorted_names(names: &Vec<String>) -> (r: Vec<String>)
    ensures
        lex_sorted(views_of(r@)),
        views_of(r@).to_multiset() == views_of(names@).to_multiset(),
{
    broadcast use vstd::seq_lib::group_to_multiset_ensures;

    let mut r: Vec<String> = Vec::new();
    let mut k: usize = 0;
    while k < names.len()
        invariant
            k <= names@.len(),
            lex_sorted(views_of(r@)),
            views_of(r@).to_multiset() == views_of(names@.take(k as int)).to_multiset(),
        decreases names@.len() - k,
    {
        let x = names[k].clone();
        let mut p: usize = 0;
        while p < r.len() && !lex_less(x.as_str(), r[p].as_str())
            invariant
                k < names@.len(),
                p <= r@.len(),
                x@ == names@[k as int]@,
                forall|i: int| 0 <= i < p ==> lex_le(#[trigger] views_of(r@)[i], x@),
            decreases r@.len() - p,
        {
            p = p + 1;
        }
        let ghost old_views = views_of(r@);
        proof {
            if p < r@.len() {
                assert(!lex_le(old_views[p as int], x@));
                lemma_lex_total(old_views[p as int], x@);
                assert forall|j: int| p <= j < old_views.len() implies lex_le(x@, #[trigger] old_views[j]) by {
                    if j > p {
                        lemma_lex_transitive(x@, old_views[p as int], old_views[j]);
                    }
                }
            }
        }
        r.insert(p, x);
        proof {
            let nv = views_of(r@);
            assert(nv == old_views.insert(p as int, x@));
            old_views.insert_ensures(p as int, x@);
            assert forall|i: int, j: int| 0 <= i < j < nv.len() implies lex_le(#[trigger] nv[i], #[trigger] nv[j]) by {
                if i < p && j == p {
                } else if i < p && j > p {
                    assert(nv[(j - 1) + 1] == old_views[j - 1]);
                } else if i == p {
                    assert(nv[(j - 1) + 1] == old_views[j - 1]);
                } else if j < p {
                } else {
                    assert(nv[(i - 1) + 1] == old_views[i - 1]);
                    assert(nv[(j - 1) + 1] == old_views[j - 1]);
                }
            }
            assert(views_of(names@.take(k + 1)) == views_of(names@.take(k as int)).push(x@));
            vstd::seq_lib::to_multiset_insert(old_views, p as int, x@);
            vstd::seq_lib::to_multiset_build(views_of(names@.take(k as int)), x@);
        }
        k = k + 1;
    }
    assert(names@.take(names@.len() as int) == names@);
    r
}

} // verus!
