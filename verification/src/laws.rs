use vstd::prelude::*;

use crate::message_arg::raw_message_text;
use crate::template_arg::raw_template_text;
use crate::text::{
    first_index_of, is_white_space, join_spec, lemma_first_index_of, lf_to_crlf, split_once_spec,
    trim_spec, without_char,
};
use crate::tui::app::{
    clamp_index, last_emptied, next_index, prev_index, section_after_removal, sections_after_removal,
    AccountSection, EnvelopeData,
};
use crate::flag_arg::{flags_of, ids_of, FlagName, FlagView, IdOrFlag};
use crate::text::usize_from_text;
use crate::tui::app::App;
use crate::tui::control::{
    change_command, cleared, dispatched, has_account, is_selected_target, removed_selected,
    selected_account, selected_envelope, Command, Target,
};
use crate::tui::event::Action;
use crate::tui::control::with_letter;
use crate::tui::envelope::{flag_letter, flag_letters, flag_views};
use crate::tui::flags::{flag_rank, ranked_below, sorted_flags, with_rank};
use crate::tui::load::{inboxes_assembled, total_before};
use crate::tui::ui::{first_pair_index, header_line, lemma_first_pair_index, split_at_colon_space};

verus! {

/// `t` has CRLF line endings only: every line feed follows a carriage
/// return, every carriage return precedes a line feed.
pub open spec fn crlf_only(t: Seq<char>) -> bool {
    forall|i: int|
        0 <= i < t.len() ==> (#[trigger] t[i] == '\n' ==> i > 0 && t[i - 1] == '\r') && (t[i] == '\r'
            ==> i + 1 < t.len() && t[i + 1] == '\n')
}

/// `t` holds no carriage return.
pub open spec fn no_cr(t: Seq<char>) -> bool {
    forall|i: int| 0 <= i < t.len() ==> #[trigger] t[i] != '\r'
}

proof fn lemma_without_char_absent(s: Seq<char>, c: char)
    ensures
        forall|i: int| 0 <= i < without_char(s, c).len() ==> #[trigger] without_char(s, c)[i] != c,
    decreases s.len(),
{
    if s.len() > 0 {
        lemma_without_char_absent(s.drop_last(), c);
        let x = without_char(s.drop_last(), c);
        if s.last() != c {
            assert forall|i: int| 0 <= i < x.push(s.last()).len() implies #[trigger] x.push(s.last())[i] != c by {
                if i < x.len() {
                    assert(x.push(s.last())[i] == x[i]);
                }
            }
        }
    }
}

proof fn lemma_crlf_of_no_cr(w: Seq<char>)
    requires
        no_cr(w),
    ensures
        crlf_only(lf_to_crlf(w)),
        lf_to_crlf(w).len() > 0 ==> lf_to_crlf(w).last() != '\r',
    decreases w.len(),
{
    if w.len() > 0 {
        let w1 = w.drop_last();
        assert(no_cr(w1)) by {
            assert forall|i: int| 0 <= i < w1.len() implies #[trigger] w1[i] != '\r' by {
                assert(w1[i] == w[i]);
            }
        }
        lemma_crlf_of_no_cr(w1);
        let t1 = lf_to_crlf(w1);
        let t = lf_to_crlf(w);
        assert(w.last() != '\r') by {
            assert(w[w.len() - 1] != '\r');
        }
        if w.last() == '\n' {
            assert(t == t1.push('\r').push('\n'));
            assert forall|i: int| 0 <= i < t.len() implies (#[trigger] t[i] == '\n' ==> i > 0 && t[i - 1]
                == '\r') && (t[i] == '\r' ==> i + 1 < t.len() && t[i + 1] == '\n') by {
                if i < t1.len() {
                    assert(t[i] == t1[i]);
                    if i + 1 < t1.len() {
                        assert(t[i + 1] == t1[i + 1]);
                    }
                    if i > 0 {
                        assert(t[i - 1] == t1[i - 1]);
                    }
                }
            }
        } else {
            assert(t == t1.push(w.last()));
            assert forall|i: int| 0 <= i < t.len() implies (#[trigger] t[i] == '\n' ==> i > 0 && t[i - 1]
                == '\r') && (t[i] == '\r' ==> i + 1 < t.len() && t[i + 1] == '\n') by {
                if i < t1.len() {
                    assert(t[i] == t1[i]);
                    if i + 1 < t1.len() {
                        assert(t[i + 1] == t1[i + 1]);
                    }
                    if i > 0 {
                        assert(t[i - 1] == t1[i - 1]);
                    }
                }
            }
        }
    }
}

proof fn lemma_strip_crlf(w: Seq<char>)
    requires
        no_cr(w),
    ensures
        without_char(lf_to_crlf(w), '\r') == w,
    decreases w.len(),
{
    if w.len() > 0 {
        let w1 = w.drop_last();
        assert(no_cr(w1)) by {
            assert forall|i: int| 0 <= i < w1.len() implies #[trigger] w1[i] != '\r' by {
                assert(w1[i] == w[i]);
            }
        }
        lemma_strip_crlf(w1);
        let t1 = lf_to_crlf(w1);
        assert(w.last() != '\r') by {
            assert(w[w.len() - 1] != '\r');
        }
        if w.last() == '\n' {
            let a = t1.push('\r');
            let b = a.push('\n');
            assert(b.drop_last() == a);
            assert(a.drop_last() == t1);
            assert(without_char(a, '\r') == without_char(t1, '\r'));
            assert(without_char(b, '\r') == without_char(a, '\r').push('\n'));
        } else {
            let a = t1.push(w.last());
            assert(a.drop_last() == t1);
            assert(without_char(a, '\r') == without_char(t1, '\r').push(w.last()));
        }
        assert(w1.push(w.last()) == w);
    }
}

/// A raw message or body comes out with CRLF line endings only: no bare
/// line feed and no stray carriage return, whatever the words given.
pub proof fn law_raw_message_is_crlf(words: Seq<Seq<char>>)
    ensures
        crlf_only(raw_message_text(words)),
{
    let s = join_spec(words, seq![' ']);
    lemma_without_char_absent(s, '\r');
    lemma_crlf_of_no_cr(without_char(s, '\r'));
}

/// Normalising a raw message twice gives what normalising once gives: a
/// message built from an earlier result comes out unchanged.
pub proof fn law_raw_message_idempotent(words: Seq<Seq<char>>)
    ensures
        raw_message_text(seq![raw_message_text(words)]) == raw_message_text(words),
{
    let s = join_spec(words, seq![' ']);
    let w = without_char(s, '\r');
    lemma_without_char_absent(s, '\r');
    lemma_strip_crlf(w);
    assert(join_spec(seq![raw_message_text(words)], seq![' ']) == raw_message_text(words));
}

/// A raw template comes out without any carriage return; its line feeds are
/// left as they are.
pub proof fn law_raw_template_has_no_cr(words: Seq<Seq<char>>)
    ensures
        no_cr(raw_template_text(words)),
{
    lemma_without_char_absent(join_spec(words, seq![' ']), '\r');
}

} // verus!

verus! {

/// A raw header splits at its first colon: the key and the value put back
/// around a colon give the header again, and the key holds no colon; a
/// header without a colon does not split.
pub proof fn law_header_splits_at_first_colon(s: Seq<char>)
    ensures
        match split_once_spec(s, ':') {
            Some((key, val)) => s == key + seq![':'] + val && !key.contains(':'),
            None => !s.contains(':'),
        },
{
    lemma_first_index_of(s, ':');
    let i = first_index_of(s, ':') as int;
    if i < s.len() {
        assert(s == s.take(i) + seq![':'] + s.skip(i + 1));
        assert forall|j: int| 0 <= j < s.take(i).len() implies #[trigger] s.take(i)[j] != ':' by {
            assert(s.take(i)[j] == s[j]);
        }
    }
}

/// Trimming leaves no whitespace at either end.
pub proof fn law_trim_leaves_no_edge_whitespace(s: Seq<char>)
    ensures
        trim_spec(s).len() > 0 ==> !is_white_space(trim_spec(s)[0]) && !is_white_space(trim_spec(s).last()),
    decreases s.len(),
{
    if s.len() > 0 && is_white_space(s[0]) {
        law_trim_leaves_no_edge_whitespace(s.drop_first());
    } else if s.len() > 0 && is_white_space(s.last()) {
        law_trim_leaves_no_edge_whitespace(s.drop_last());
    }
}

/// A header line is its name, `": "` and its value: the message view shows
/// all of the line.
pub proof fn law_header_line_reassembles(s: Seq<char>)
    requires
        header_line(s),
    ensures
        split_at_colon_space(s) matches Some((key, value)) && s == key + seq![':', ' '] + value
            && key.len() > 0,
{
    lemma_first_pair_index(s, ':', ' ');
    let i = first_pair_index(s, ':', ' ') as int;
    assert(s == s.take(i) + seq![':', ' '] + s.skip(i + 2));
}

} // verus!

verus! {

/// A selection is valid for a list of `len` items: an index into it, or zero
/// when the list is empty.
pub open spec fn selection_valid(selected: usize, len: nat) -> bool {
    if len == 0 {
        selected == 0
    } else {
        selected < len
    }
}

/// Moving the selection keeps it valid, and keeping it within a list makes
/// it valid for that list, whatever it was.
pub proof fn law_selection_stays_valid(selected: usize, len: nat)
    ensures
        selection_valid(selected, len) ==> selection_valid(next_index(selected, len), len),
        selection_valid(selected, len) ==> selection_valid(prev_index(selected), len),
        selection_valid(clamp_index(selected, len), len),
{
}

/// Moving down then up comes back where it started, unless the selection
/// was already on the last item.
pub proof fn law_select_down_then_up(selected: usize, len: nat)
    requires
        selected + 1 < len,
        len <= usize::MAX,
    ensures
        prev_index(next_index(selected, len)) == selected,
{
}

/// The number of envelopes covered by the first `k` sections.
pub open spec fn counts_before(secs: Seq<AccountSection>, k: int) -> nat
    decreases k,
{
    if k <= 0 {
        0
    } else {
        counts_before(secs, k - 1) + secs[k - 1].count as nat
    }
}

/// The sections cover a list of `len` envelopes one after the other: each
/// starts where the previous one ends, the first at zero, the last ending at
/// the end of the list.
pub open spec fn sections_cover(secs: Seq<AccountSection>, len: nat) -> bool {
    &&& forall|k: int| 0 <= k < secs.len() ==> #[trigger] secs[k].start == counts_before(secs, k)
    &&& counts_before(secs, secs.len() as int) == len
}

/// Section `s` holds position `index`.
pub open spec fn holds(s: AccountSection, index: usize) -> bool {
    s.start <= index && index < s.start + s.count
}

proof fn lemma_counts_monotone(secs: Seq<AccountSection>, a: int, b: int)
    requires
        0 <= a <= b <= secs.len(),
    ensures
        counts_before(secs, a) <= counts_before(secs, b),
        a < b ==> counts_before(secs, a) + secs[a].count <= counts_before(secs, b),
    decreases b - a,
{
    if a < b {
        lemma_counts_monotone(secs, a + 1, b);
    }
}

proof fn lemma_locate(secs: Seq<AccountSection>, index: usize, k: int) -> (m: int)
    requires
        0 <= k <= secs.len(),
        index < counts_before(secs, k),
    ensures
        0 <= m < k,
        counts_before(secs, m) <= index < counts_before(secs, m) + secs[m].count,
    decreases k,
{
    if index >= counts_before(secs, k - 1) {
        k - 1
    } else {
        lemma_locate(secs, index, k - 1)
    }
}

/// In covering sections, only the section located for `index` holds it.
proof fn lemma_only_holder(secs: Seq<AccountSection>, n: nat, index: usize, m: int, j: int)
    requires
        sections_cover(secs, n),
        0 <= m < secs.len(),
        0 <= j < secs.len(),
        j != m,
        counts_before(secs, m) <= index < counts_before(secs, m) + secs[m].count,
    ensures
        !holds(secs[j], index),
        j < m ==> secs[j].start <= index,
        j > m ==> secs[j].start > index,
{
    if j < m {
        lemma_counts_monotone(secs, j, m);
        lemma_counts_monotone(secs, j + 1, m);
    } else {
        lemma_counts_monotone(secs, m, j);
    }
}

proof fn lemma_updated_counts(secs: Seq<AccountSection>, n: nat, index: usize, m: int, k: int)
    requires
        sections_cover(secs, n),
        0 <= m < secs.len(),
        0 <= k <= secs.len(),
        counts_before(secs, m) <= index < counts_before(secs, m) + secs[m].count,
    ensures
        counts_before(secs.map_values(|s: AccountSection| section_after_removal(s, index)), k)
            == if k <= m {
            counts_before(secs, k) as int
        } else {
            counts_before(secs, k) - 1
        },
    decreases k,
{
    if k > 0 {
        lemma_updated_counts(secs, n, index, m, k - 1);
        let u = secs.map_values(|s: AccountSection| section_after_removal(s, index));
        assert(u[k - 1] == section_after_removal(secs[k - 1], index));
        if k - 1 != m {
            lemma_only_holder(secs, n, index, m, k - 1);
        }
    }
}

proof fn lemma_removed_counts(u: Seq<AccountSection>, m: int, k: int)
    requires
        0 <= m < u.len(),
        u[m].count == 0,
        0 <= k <= u.len() - 1,
    ensures
        counts_before(u.remove(m), k) == if k <= m {
            counts_before(u, k)
        } else {
            counts_before(u, k + 1)
        },
    decreases k,
{
    if k > 0 {
        lemma_removed_counts(u, m, k - 1);
        if k - 1 < m {
            assert(u.remove(m)[k - 1] == u[k - 1]);
        } else {
            assert(u.remove(m)[k - 1] == u[k]);
        }
    }
}

proof fn lemma_last_emptied_single(secs: Seq<AccountSection>, index: usize, m: int)
    requires
        0 <= m < secs.len(),
        forall|j: int| 0 <= j < secs.len() && j != m ==> !holds(#[trigger] secs[j], index),
        holds(secs[m], index),
    ensures
        last_emptied(secs, index) == if secs[m].count == 1 {
            Some(m)
        } else {
            None::<int>
        },
    decreases secs.len(),
{
    let l = secs.len() - 1;
    if l != m {
        assert(!holds(secs[l], index));
        let d = secs.drop_last();
        assert forall|j: int| 0 <= j < d.len() && j != m implies !holds(#[trigger] d[j], index) by {
            assert(d[j] == secs[j]);
        }
        lemma_last_emptied_single(d, index, m);
    } else {
        if secs[m].count != 1 {
            lemma_none_hold(secs.drop_last(), index);
        }
    }
}

proof fn lemma_none_hold(secs: Seq<AccountSection>, index: usize)
    requires
        forall|j: int| 0 <= j < secs.len() ==> !holds(#[trigger] secs[j], index),
    ensures
        last_emptied(secs, index) is None,
    decreases secs.len(),
{
    if secs.len() > 0 {
        let d = secs.drop_last();
        assert(!holds(secs[secs.len() - 1], index));
        assert forall|j: int| 0 <= j < d.len() implies !holds(#[trigger] d[j], index) by {
            assert(d[j] == secs[j]);
        }
        lemma_none_hold(d, index);
    }
}

/// Removing an envelope keeps the account sections covering the list one
/// after the other: the section that held it shrinks (and goes when it
/// empties), the sections after it move up.
pub proof fn law_remove_keeps_sections_covering(secs: Seq<AccountSection>, n: nat, index: usize)
    requires
        sections_cover(secs, n),
        index < n,
    ensures
        sections_cover(sections_after_removal(secs, index), (n - 1) as nat),
{
    let m = lemma_locate(secs, index, secs.len() as int);
    let u = secs.map_values(|s: AccountSection| section_after_removal(s, index));
    assert forall|j: int| 0 <= j < secs.len() && j != m implies !holds(#[trigger] secs[j], index) by {
        lemma_only_holder(secs, n, index, m, j);
    }
    lemma_last_emptied_single(secs, index, m);
    lemma_updated_counts(secs, n, index, m, secs.len() as int);
    assert forall|k: int| 0 <= k < u.len() implies #[trigger] u[k].start == counts_before(u, k) by {
        lemma_updated_counts(secs, n, index, m, k);
        assert(u[k] == section_after_removal(secs[k], index));
        if k != m {
            lemma_only_holder(secs, n, index, m, k);
        }
    }
    if secs[m].count == 1 {
        let r = u.remove(m);
        assert forall|k: int| 0 <= k < r.len() implies #[trigger] r[k].start == counts_before(r, k) by {
            lemma_removed_counts(u, m, k);
            if k < m {
                assert(r[k] == u[k]);
            } else {
                assert(r[k] == u[k + 1]);
                lemma_updated_counts(secs, n, index, m, k + 1);
                lemma_updated_counts(secs, n, index, m, k);
            }
        }
        lemma_removed_counts(u, m, r.len() as int);
    }
}

} // verus!

verus! {

proof fn lemma_counts_match_totals(
    loaded: Seq<(String, Vec<EnvelopeData>)>,
    sections: Seq<AccountSection>,
    k: int,
)
    requires
        sections.len() == loaded.len(),
        0 <= k <= loaded.len(),
        forall|q: int| 0 <= q < loaded.len() ==> (#[trigger] sections[q]).count == loaded[q].1@.len(),
    ensures
        counts_before(sections, k) == total_before(loaded, k),
    decreases k,
{
    if k > 0 {
        lemma_counts_match_totals(loaded, sections, k - 1);
    }
}

/// The sections built when the accounts are loaded cover the whole list of
/// envelopes, one account after the other.
pub proof fn law_loaded_sections_cover(
    loaded: Seq<(String, Vec<EnvelopeData>)>,
    all: Seq<EnvelopeData>,
    sections: Seq<AccountSection>,
)
    requires
        inboxes_assembled(loaded, all, sections),
    ensures
        sections_cover(sections, all.len()),
{
    assert forall|k: int| 0 <= k < sections.len() implies #[trigger] sections[k].start == counts_before(sections, k) by {
        lemma_counts_match_totals(loaded, sections, k);
    }
    lemma_counts_match_totals(loaded, sections, sections.len() as int);
}

} // verus!

verus! {

proof fn lemma_with_rank_ranks(s: Seq<char>, k: u8)
    ensures
        forall|i: int| 0 <= i < with_rank(s, k).len() ==> flag_rank(#[trigger] with_rank(s, k)[i]) == k,
    decreases s.len(),
{
    if s.len() > 0 {
        lemma_with_rank_ranks(s.drop_last(), k);
        let w = with_rank(s.drop_last(), k);
        if flag_rank(s.last()) == k {
            assert forall|i: int| 0 <= i < w.push(s.last()).len() implies flag_rank(#[trigger] w.push(s.last())[i]) == k by {
                if i < w.len() {
                    assert(w.push(s.last())[i] == w[i]);
                }
            }
        }
    }
}

proof fn lemma_ranked_below_ordered(s: Seq<char>, k: nat)
    requires
        k <= 6,
    ensures
        forall|i: int| 0 <= i < ranked_below(s, k).len() ==> flag_rank(#[trigger] ranked_below(s, k)[i]) < k,
        forall|i: int, j: int|
            0 <= i < j < ranked_below(s, k).len() ==> flag_rank(#[trigger] ranked_below(s, k)[i])
                <= flag_rank(#[trigger] ranked_below(s, k)[j]),
    decreases k,
{
    if k > 0 {
        lemma_ranked_below_ordered(s, (k - 1) as nat);
        lemma_with_rank_ranks(s, (k - 1) as u8);
        let a = ranked_below(s, (k - 1) as nat);
        let w = with_rank(s, (k - 1) as u8);
        let r = ranked_below(s, k);
        assert(r == a + w);
        assert forall|i: int| 0 <= i < r.len() implies flag_rank(#[trigger] r[i]) < k by {
            if i < a.len() {
                assert(r[i] == a[i]);
            } else {
                assert(r[i] == w[i - a.len()]);
            }
        }
        assert forall|i: int, j: int| 0 <= i < j < r.len() implies flag_rank(#[trigger] r[i]) <= flag_rank(
            #[trigger] r[j],
        ) by {
            if j < a.len() {
                assert(r[i] == a[i]);
                assert(r[j] == a[j]);
            } else if i < a.len() {
                assert(r[i] == a[i]);
                assert(r[j] == w[j - a.len()]);
            } else {
                assert(r[i] == w[i - a.len()]);
                assert(r[j] == w[j - a.len()]);
            }
        }
    }
}

proof fn lemma_ranked_below_empty(k: nat)
    ensures
        ranked_below(Seq::<char>::empty(), k) == Seq::<char>::empty(),
    decreases k,
{
    if k > 0 {
        lemma_ranked_below_empty((k - 1) as nat);
    }
}

proof fn lemma_ranked_below_push(s: Seq<char>, c: char, k: nat)
    requires
        k <= 6,
    ensures
        ranked_below(s.push(c), k).to_multiset() == if flag_rank(c) < k {
            ranked_below(s, k).to_multiset().insert(c)
        } else {
            ranked_below(s, k).to_multiset()
        },
    decreases k,
{
    broadcast use vstd::seq_lib::group_to_multiset_ensures;

    if k > 0 {
        lemma_ranked_below_push(s, c, (k - 1) as nat);
        let k1 = (k - 1) as nat;
        assert(s.push(c).drop_last() == s);
        vstd::seq_lib::lemma_multiset_commutative(ranked_below(s.push(c), k1), with_rank(s.push(c), k1 as u8));
        vstd::seq_lib::lemma_multiset_commutative(ranked_below(s, k1), with_rank(s, k1 as u8));
        if flag_rank(c) == k1 as u8 {
            vstd::seq_lib::to_multiset_build(with_rank(s, k1 as u8), c);
        }
        assert(ranked_below(s.push(c), k).to_multiset() =~= if flag_rank(c) < k {
            ranked_below(s, k).to_multiset().insert(c)
        } else {
            ranked_below(s, k).to_multiset()
        });
    }
}

/// Sorting flags only reorders them: every character stays, as many times.
pub proof fn law_sort_flags_permutes(s: Seq<char>)
    ensures
        sorted_flags(s).to_multiset() == s.to_multiset(),
    decreases s.len(),
{
    broadcast use vstd::seq_lib::group_to_multiset_ensures;

    if s.len() == 0 {
        lemma_ranked_below_empty(6);
        assert(s == Seq::<char>::empty());
    } else {
        assert(s.drop_last().push(s.last()) == s);
        law_sort_flags_permutes(s.drop_last());
        lemma_ranked_below_push(s.drop_last(), s.last(), 6);
        vstd::seq_lib::to_multiset_build(s.drop_last(), s.last());
        assert(flag_rank(s.last()) < 6);
    }
}

/// Sorted flags come in canonical order: Seen, Flagged, Answered, Deleted,
/// Draft, then the rest.
pub proof fn law_sort_flags_ordered(s: Seq<char>)
    ensures
        forall|i: int, j: int|
            0 <= i < j < sorted_flags(s).len() ==> flag_rank(#[trigger] sorted_flags(s)[i]) <= flag_rank(
                #[trigger] sorted_flags(s)[j],
            ),
{
    lemma_ranked_below_ordered(s, 6);
}

} // verus!

verus! {

/// The flag letter of rank `k`.
pub open spec fn letter_of_rank(k: u8) -> char {
    if k == 0 {
        'S'
    } else if k == 1 {
        'F'
    } else if k == 2 {
        'A'
    } else if k == 3 {
        'D'
    } else if k == 4 {
        'T'
    } else {
        '*'
    }
}

/// `t` holds only the letters the envelope list uses for flags.
pub open spec fn flag_letters_only(t: Seq<char>) -> bool {
    forall|i: int| 0 <= i < t.len() ==> letter_of_rank(flag_rank(#[trigger] t[i])) == t[i]
}

proof fn lemma_with_rank_counts(t: Seq<char>, k: u8)
    requires
        flag_letters_only(t),
        k < 6,
    ensures
        with_rank(t, k) == Seq::new(t.to_multiset().count(letter_of_rank(k)), |i: int| letter_of_rank(k)),
    decreases t.len(),
{
    broadcast use vstd::seq_lib::group_to_multiset_ensures;

    if t.len() == 0 {
        assert(with_rank(t, k) == Seq::new(0, |i: int| letter_of_rank(k)));
    } else {
        let t1 = t.drop_last();
        assert(flag_letters_only(t1)) by {
            assert forall|i: int| 0 <= i < t1.len() implies letter_of_rank(flag_rank(#[trigger] t1[i])) == t1[i] by {
                assert(t1[i] == t[i]);
            }
        }
        lemma_with_rank_counts(t1, k);
        assert(t1.push(t.last()) == t);
        vstd::seq_lib::to_multiset_build(t1, t.last());
        assert(letter_of_rank(flag_rank(t[t.len() - 1])) == t[t.len() - 1]);
        let n = t1.to_multiset().count(letter_of_rank(k));
        if flag_rank(t.last()) == k {
            assert(Seq::new(n, |i: int| letter_of_rank(k)).push(letter_of_rank(k)) == Seq::new(
                n + 1,
                |i: int| letter_of_rank(k),
            ));
        } else {
            assert(t.last() != letter_of_rank(k));
        }
    }
}

proof fn lemma_ranked_below_by_multiset(t1: Seq<char>, t2: Seq<char>, k: nat)
    requires
        flag_letters_only(t1),
        flag_letters_only(t2),
        t1.to_multiset() == t2.to_multiset(),
        k <= 6,
    ensures
        ranked_below(t1, k) == ranked_below(t2, k),
    decreases k,
{
    if k > 0 {
        lemma_ranked_below_by_multiset(t1, t2, (k - 1) as nat);
        lemma_with_rank_counts(t1, (k - 1) as u8);
        lemma_with_rank_counts(t2, (k - 1) as u8);
    }
}

proof fn lemma_letters_only(f: Seq<FlagName>)
    ensures
        flag_letters_only(flag_letters(f)),
{
    assert forall|i: int| 0 <= i < flag_letters(f).len() implies letter_of_rank(
        flag_rank(#[trigger] flag_letters(f)[i]),
    ) == flag_letters(f)[i] by {
        assert(flag_letters(f)[i] == flag_letter(f[i]@));
    }
}

proof fn lemma_letters_multiset(f1: Seq<FlagName>, f2: Seq<FlagName>)
    requires
        f1.to_multiset() == f2.to_multiset(),
    ensures
        flag_letters(f1).to_multiset() == flag_letters(f2).to_multiset(),
    decreases f1.len(),
{
    broadcast use vstd::seq_lib::group_to_multiset_ensures;

    if f1.len() == 0 {
        vstd::seq_lib::to_multiset_len(f1);
        vstd::seq_lib::to_multiset_len(f2);
        assert(f2.len() == 0);
        assert(flag_letters(f1) == Seq::<char>::empty());
        assert(flag_letters(f2) == Seq::<char>::empty());
    } else {
        let x = f1.last();
        let g1 = f1.drop_last();
        assert(g1.push(x) == f1);
        vstd::seq_lib::to_multiset_build(g1, x);
        assert(f2.to_multiset().count(x) > 0);
        assert(f2.contains(x));
        let i = choose|i: int| 0 <= i < f2.len() && f2[i] == x;
        let g2 = f2.remove(i);
        vstd::seq_lib::to_multiset_remove(f2, i);
        assert(g1.to_multiset() =~= g2.to_multiset());
        lemma_letters_multiset(g1, g2);
        assert(flag_letters(f1) == flag_letters(g1).push(flag_letter(x@)));
        vstd::seq_lib::to_multiset_build(flag_letters(g1), flag_letter(x@));
        assert(flag_letters(g2) == flag_letters(f2).remove(i));
        vstd::seq_lib::to_multiset_remove(flag_letters(f2), i);
        assert(flag_letters(f2)[i] == flag_letter(x@));
        assert(flag_letters(f2).to_multiset().count(flag_letter(x@)) > 0) by {
            assert(flag_letters(f2).contains(flag_letter(x@)));
        }
        assert(flag_letters(f1).to_multiset() =~= flag_letters(f2).to_multiset());
    }
}

proof fn lemma_views_contain(f1: Seq<FlagName>, f2: Seq<FlagName>, x: FlagName)
    requires
        f1.to_multiset() == f2.to_multiset(),
        x is Seen || x is Flagged,
    ensures
        flag_views(f1).contains(x@) == flag_views(f2).contains(x@),
{
    broadcast use vstd::seq_lib::group_to_multiset_ensures;

    assert(flag_views(f1).contains(x@) == f1.contains(x)) by {
        if flag_views(f1).contains(x@) {
            let i = choose|i: int| 0 <= i < flag_views(f1).len() && flag_views(f1)[i] == x@;
            assert(f1[i]@ == x@);
            assert(f1[i] == x);
        }
        if f1.contains(x) {
            let i = choose|i: int| 0 <= i < f1.len() && f1[i] == x;
            assert(flag_views(f1)[i] == x@);
        }
    }
    assert(flag_views(f2).contains(x@) == f2.contains(x)) by {
        if flag_views(f2).contains(x@) {
            let i = choose|i: int| 0 <= i < flag_views(f2).len() && flag_views(f2)[i] == x@;
            assert(f2[i]@ == x@);
            assert(f2[i] == x);
        }
        if f2.contains(x) {
            let i = choose|i: int| 0 <= i < f2.len() && f2[i] == x;
            assert(flag_views(f2)[i] == x@);
        }
    }
    vstd::seq_lib::to_multiset_contains(f1, x);
    vstd::seq_lib::to_multiset_contains(f2, x);
}

/// What the envelope list shows of an envelope's flags does not depend on
/// the order in which the backend hands them over: the same flags in any
/// order give the same flags text, unseen bit and flagged bit.
pub proof fn law_envelope_flags_order_free(f1: Seq<FlagName>, f2: Seq<FlagName>)
    requires
        f1.to_multiset() == f2.to_multiset(),
    ensures
        sorted_flags(flag_letters(f1)) == sorted_flags(flag_letters(f2)),
        flag_views(f1).contains(FlagView::Seen) == flag_views(f2).contains(FlagView::Seen),
        flag_views(f1).contains(FlagView::Flagged) == flag_views(f2).contains(FlagView::Flagged),
{
    lemma_letters_only(f1);
    lemma_letters_only(f2);
    lemma_letters_multiset(f1, f2);
    lemma_ranked_below_by_multiset(flag_letters(f1), flag_letters(f2), 6);
    lemma_views_contain(f1, f2, FlagName::Seen);
    lemma_views_contain(f1, f2, FlagName::Flagged);
}

} // verus!

verus! {

/// `t` is in canonical flag order.
pub open spec fn rank_sorted(t: Seq<char>) -> bool {
    forall|i: int, j: int| 0 <= i < j < t.len() ==> flag_rank(#[trigger] t[i]) <= flag_rank(#[trigger] t[j])
}

proof fn lemma_with_rank_none(t: Seq<char>, k: u8)
    requires
        forall|i: int| 0 <= i < t.len() ==> flag_rank(#[trigger] t[i]) != k,
    ensures
        with_rank(t, k) == Seq::<char>::empty(),
    decreases t.len(),
{
    if t.len() > 0 {
        let t1 = t.drop_last();
        assert forall|i: int| 0 <= i < t1.len() implies flag_rank(#[trigger] t1[i]) != k by {
            assert(t1[i] == t[i]);
        }
        lemma_with_rank_none(t1, k);
        assert(flag_rank(t[t.len() - 1]) != k);
    }
}

proof fn lemma_ranked_below_push_max(t1: Seq<char>, c: char, k: nat)
    requires
        k <= 6,
        forall|i: int| 0 <= i < t1.len() ==> flag_rank(#[trigger] t1[i]) <= flag_rank(c),
    ensures
        ranked_below(t1.push(c), k) == if flag_rank(c) < k {
            ranked_below(t1, k).push(c)
        } else {
            ranked_below(t1, k)
        },
    decreases k,
{
    if k > 0 {
        let k1 = (k - 1) as nat;
        lemma_ranked_below_push_max(t1, c, k1);
        let t = t1.push(c);
        assert(t.drop_last() == t1);
        if (k1 as int) > flag_rank(c) as int {
            lemma_with_rank_none(t1, k1 as u8);
        }
    }
}

proof fn lemma_sorted_is_fixed(t: Seq<char>)
    requires
        rank_sorted(t),
    ensures
        sorted_flags(t) == t,
    decreases t.len(),
{
    if t.len() == 0 {
        lemma_ranked_below_empty(6);
        assert(t == Seq::<char>::empty());
    } else {
        let t1 = t.drop_last();
        let c = t.last();
        assert(rank_sorted(t1)) by {
            assert forall|i: int, j: int| 0 <= i < j < t1.len() implies flag_rank(#[trigger] t1[i]) <= flag_rank(
                #[trigger] t1[j],
            ) by {
                assert(t1[i] == t[i]);
                assert(t1[j] == t[j]);
            }
        }
        assert forall|i: int| 0 <= i < t1.len() implies flag_rank(#[trigger] t1[i]) <= flag_rank(c) by {
            assert(t1[i] == t[i]);
            assert(c == t[t.len() - 1]);
        }
        lemma_sorted_is_fixed(t1);
        assert(t1.push(c) == t);
        lemma_ranked_below_push_max(t1, c, 6);
    }
}

/// Sorting flags that are already in canonical order changes nothing, so
/// sorting twice gives what sorting once gives.
pub proof fn law_sort_flags_idempotent(s: Seq<char>)
    ensures
        sorted_flags(sorted_flags(s)) == sorted_flags(s),
{
    lemma_ranked_below_ordered(s, 6);
    lemma_sorted_is_fixed(sorted_flags(s));
}

} // verus!

verus! {

/// Adding a flag letter leaves it among the flags, dropping it leaves it
/// out: once marked as read an envelope shows `S`, once marked as unread it
/// does not (and likewise `F` for flagged).
pub proof fn law_flag_letter_toggles(flags: Seq<char>, c: char)
    ensures
        with_letter(flags, c).contains(c),
        !without_char(flags, c).contains(c),
{
    broadcast use vstd::seq_lib::group_to_multiset_ensures;

    if !flags.contains(c) {
        let s = seq![c] + flags;
        law_sort_flags_permutes(s);
        assert(s[0] == c);
        assert(s.contains(c));
        vstd::seq_lib::to_multiset_contains(s, c);
        vstd::seq_lib::to_multiset_contains(sorted_flags(s), c);
    }
    lemma_without_char_absent(flags, c);
}

} // verus!

verus! {

/// Once the selected envelope was deleted or archived, exactly that
/// envelope has left the list: the envelopes before it keep their places,
/// those after it move up by one, and putting it back at its place gives
/// the old list.
pub proof fn law_leaving_list_drops_selected(app: App, text: Seq<char>, post: App)
    requires
        removed_selected(app, text, post),
        app.selected < app.envelopes@.len(),
    ensures
        post.envelopes@.len() + 1 == app.envelopes@.len(),
        forall|j: int| 0 <= j < app.selected ==> #[trigger] post.envelopes@[j] == app.envelopes@[j],
        forall|j: int|
            app.selected <= j < post.envelopes@.len() ==> #[trigger] post.envelopes@[j] == app.envelopes@[j + 1],
        post.envelopes@.insert(app.selected as int, app.envelopes@[app.selected as int]) == app.envelopes@,
{
    assert(post.envelopes@.insert(app.selected as int, app.envelopes@[app.selected as int]) =~= app.envelopes@);
}

/// Moving the selection down goes to the next envelope, or stays on the
/// last one; the list itself does not change.
pub proof fn law_select_next_moves_down(
    app: App,
    default_account: Seq<char>,
    accounts: Seq<String>,
    post: App,
    c: Command,
)
    requires
        dispatched(app, Action::SelectNext, default_account, accounts, post, c),
        app.envelopes@.len() <= usize::MAX,
    ensures
        c is Idle,
        post.envelopes == app.envelopes,
        app.selected + 1 < app.envelopes@.len() ==> post.selected == app.selected + 1,
        app.envelopes@.len() > 0 && app.selected + 1 >= app.envelopes@.len() ==> post.selected + 1
            == app.envelopes@.len(),
        app.envelopes@.len() == 0 ==> post.selected == app.selected,
{
    let a = cleared(app, Action::SelectNext);
    assert(a.selected == app.selected && a.envelopes == app.envelopes);
}

/// Moving the selection up goes to the previous envelope, or stays on the
/// first one; the list itself does not change.
pub proof fn law_select_prev_moves_up(
    app: App,
    default_account: Seq<char>,
    accounts: Seq<String>,
    post: App,
    c: Command,
)
    requires
        dispatched(app, Action::SelectPrev, default_account, accounts, post, c),
    ensures
        c is Idle,
        post.envelopes == app.envelopes,
        app.selected > 0 ==> post.selected + 1 == app.selected,
        app.selected == 0 ==> post.selected == 0,
{
    let a = cleared(app, Action::SelectPrev);
    assert(a.selected == app.selected && a.envelopes == app.envelopes);
}

/// Toggling the flag of the selected envelope asks the backend to add the
/// Flagged flag exactly when the envelope is not flagged, and to remove it
/// when it is; the command is sent whenever the envelope has a backend and a
/// numeric id.
pub proof fn law_toggle_flag_flips(
    app: App,
    default_account: Seq<char>,
    accounts: Seq<String>,
    post: App,
    c: Command,
)
    requires
        dispatched(app, Action::ToggleFlag, default_account, accounts, post, c),
    ensures
        c is Idle || c is SetFlagged,
        c matches Command::SetFlagged(t, add) ==> {
            &&& app.selected < app.envelopes@.len()
            &&& t.flagged == app.envelopes@[app.selected as int].flagged
            &&& add == !app.envelopes@[app.selected as int].flagged
            &&& Some(t.id) == usize_from_text(app.envelopes@[app.selected as int].id@)
        },
        app.selected < app.envelopes@.len() && has_account(accounts, selected_account(app, default_account))
            && usize_from_text(app.envelopes@[app.selected as int].id@) is Some ==> c is SetFlagged,
{
    let a = cleared(app, Action::ToggleFlag);
    assert(a.envelopes == app.envelopes && a.selected == app.selected);
    if let Some(env) = selected_envelope(a) {
        if has_account(accounts, selected_account(a, default_account)) {
            if let Some(id) = usize_from_text(env.id@) {
                let t = choose|t: Target| #[trigger]
                    is_selected_target(a, default_account, id, t) && change_command(Action::ToggleFlag, t, c);
                assert(c == Command::SetFlagged(t, !t.flagged));
            }
        }
    }
}

/// Toggling the read state of the selected envelope asks the backend to add
/// the Seen flag exactly when the envelope is unseen, and to remove it when
/// it was read.
pub proof fn law_toggle_read_flips(
    app: App,
    default_account: Seq<char>,
    accounts: Seq<String>,
    post: App,
    c: Command,
)
    requires
        dispatched(app, Action::ToggleRead, default_account, accounts, post, c),
    ensures
        c is Idle || c is SetSeen,
        c matches Command::SetSeen(t, add) ==> {
            &&& app.selected < app.envelopes@.len()
            &&& t.unseen == app.envelopes@[app.selected as int].unseen
            &&& add == app.envelopes@[app.selected as int].unseen
            &&& Some(t.id) == usize_from_text(app.envelopes@[app.selected as int].id@)
        },
        app.selected < app.envelopes@.len() && has_account(accounts, selected_account(app, default_account))
            && usize_from_text(app.envelopes@[app.selected as int].id@) is Some ==> c is SetSeen,
{
    let a = cleared(app, Action::ToggleRead);
    assert(a.envelopes == app.envelopes && a.selected == app.selected);
    if let Some(env) = selected_envelope(a) {
        if has_account(accounts, selected_account(a, default_account)) {
            if let Some(id) = usize_from_text(env.id@) {
                let t = choose|t: Target| #[trigger]
                    is_selected_target(a, default_account, id, t) && change_command(Action::ToggleRead, t, c);
                assert(c == Command::SetSeen(t, t.unseen));
            }
        }
    }
}

proof fn lemma_sorted_contains(s: Seq<char>, c: char)
    ensures
        sorted_flags(s).contains(c) == s.contains(c),
{
    broadcast use vstd::seq_lib::group_to_multiset_ensures;

    law_sort_flags_permutes(s);
    assert(sorted_flags(s).to_multiset().count(c) == s.to_multiset().count(c));
}

proof fn lemma_letters_contain(flags: Seq<FlagName>, c: char, v: FlagView)
    requires
        forall|w: FlagView| flag_letter(w) == c <==> w == v,
    ensures
        flag_letters(flags).contains(c) == flag_views(flags).contains(v),
{
    if flag_letters(flags).contains(c) {
        let i = choose|i: int| 0 <= i < flag_letters(flags).len() && flag_letters(flags)[i] == c;
        assert(flag_views(flags)[i] == v);
    }
    if flag_views(flags).contains(v) {
        let i = choose|i: int| 0 <= i < flag_views(flags).len() && flag_views(flags)[i] == v;
        assert(flag_letters(flags)[i] == c);
    }
}

/// In the envelope list each flag shows as its own letter of the legend
/// `S F A D T`: the flags text of an envelope holds `S` exactly when it is
/// Seen, `F` when Flagged, `A` when Answered, `D` when Deleted, `T` when a
/// Draft, and `*` when it has a custom flag.
pub proof fn law_flag_letters_name_their_flags(flags: Seq<FlagName>)
    ensures
        sorted_flags(flag_letters(flags)).contains('S') == flag_views(flags).contains(FlagView::Seen),
        sorted_flags(flag_letters(flags)).contains('F') == flag_views(flags).contains(FlagView::Flagged),
        sorted_flags(flag_letters(flags)).contains('A') == flag_views(flags).contains(FlagView::Answered),
        sorted_flags(flag_letters(flags)).contains('D') == flag_views(flags).contains(FlagView::Deleted),
        sorted_flags(flag_letters(flags)).contains('T') == flag_views(flags).contains(FlagView::Draft),
        sorted_flags(flag_letters(flags)).contains('*') == (exists|i: int|
            0 <= i < flags.len() && (#[trigger] flags[i]) is Custom),
{
    let l = flag_letters(flags);
    lemma_sorted_contains(l, 'S');
    lemma_sorted_contains(l, 'F');
    lemma_sorted_contains(l, 'A');
    lemma_sorted_contains(l, 'D');
    lemma_sorted_contains(l, 'T');
    lemma_sorted_contains(l, '*');
    lemma_letters_contain(flags, 'S', FlagView::Seen);
    lemma_letters_contain(flags, 'F', FlagView::Flagged);
    lemma_letters_contain(flags, 'A', FlagView::Answered);
    lemma_letters_contain(flags, 'D', FlagView::Deleted);
    lemma_letters_contain(flags, 'T', FlagView::Draft);
    if l.contains('*') {
        let i = choose|i: int| 0 <= i < l.len() && l[i] == '*';
        assert(flags[i] is Custom);
    }
    if exists|i: int| 0 <= i < flags.len() && (#[trigger] flags[i]) is Custom {
        let i = choose|i: int| 0 <= i < flags.len() && (#[trigger] flags[i]) is Custom;
        assert(l[i] == '*');
    }
}

/// Splitting the arguments keeps every flag among them, custom flags too,
/// and nothing else; every id among them is kept, and nothing else.
pub proof fn law_ids_and_flags_split(args: Seq<IdOrFlag>)
    ensures
        forall|v: FlagView|
            flags_of(args).contains(v) <==> exists|i: int|
                0 <= i < args.len() && (#[trigger] args[i]) is Flag && args[i]->Flag_0@ == v,
        forall|n: usize|
            ids_of(args).contains(n) <==> exists|i: int| 0 <= i < args.len() && #[trigger] args[i] == IdOrFlag::Id(n),
        ids_of(args).len() <= args.len(),
    decreases args.len(),
{
    if args.len() > 0 {
        let rest = args.drop_last();
        law_ids_and_flags_split(rest);
        assert forall|i: int| 0 <= i < rest.len() implies #[trigger] rest[i] == args[i] by {}
        let last = args.last();
        assert(args[args.len() - 1] == last);
        assert(last is Flag ==> flags_of(args) == flags_of(rest).insert(last->Flag_0@) && ids_of(args)
            == ids_of(rest));
        assert(last is Id ==> flags_of(args) == flags_of(rest) && ids_of(args) == ids_of(rest).push(
            last->Id_0,
        ));
        assert forall|v: FlagView|
            flags_of(args).contains(v) <==> exists|i: int|
                0 <= i < args.len() && (#[trigger] args[i]) is Flag && args[i]->Flag_0@ == v by {
            if flags_of(args).contains(v) {
                if flags_of(rest).contains(v) {
                    let i = choose|i: int|
                        0 <= i < rest.len() && (#[trigger] rest[i]) is Flag && rest[i]->Flag_0@ == v;
                    assert(args[i] == rest[i]);
                } else {
                    assert(args[args.len() - 1] == last);
                }
            }
            if exists|i: int| 0 <= i < args.len() && (#[trigger] args[i]) is Flag && args[i]->Flag_0@ == v {
                let i = choose|i: int|
                    0 <= i < args.len() && (#[trigger] args[i]) is Flag && args[i]->Flag_0@ == v;
                if i < rest.len() {
                    assert(rest[i] == args[i]);
                }
            }
        }
        assert forall|n: usize|
            ids_of(args).contains(n) <==> exists|i: int| 0 <= i < args.len() && #[trigger] args[i] == IdOrFlag::Id(n) by {
            if ids_of(args).contains(n) {
                if ids_of(rest).contains(n) {
                    let i = choose|i: int| 0 <= i < rest.len() && #[trigger] rest[i] == IdOrFlag::Id(n);
                    assert(args[i] == rest[i]);
                } else {
                    let k = choose|k: int| 0 <= k < ids_of(args).len() && ids_of(args)[k] == n;
                    assert(args[args.len() - 1] == last);
                    assert(k == ids_of(rest).len());
                }
            }
            if exists|i: int| 0 <= i < args.len() && #[trigger] args[i] == IdOrFlag::Id(n) {
                let i = choose|i: int| 0 <= i < args.len() && #[trigger] args[i] == IdOrFlag::Id(n);
                if i < rest.len() {
                    assert(rest[i] == IdOrFlag::Id(n));
                    assert(ids_of(rest).contains(n));
                    let k = choose|k: int| 0 <= k < ids_of(rest).len() && ids_of(rest)[k] == n;
                    assert(ids_of(args)[k] == n);
                } else {
                    assert(i == args.len() - 1);
                    assert(ids_of(args) == ids_of(rest).push(n));
                    assert(ids_of(args)[ids_of(rest).len() as int] == n);
                }
            }
        }
    }
}

} // verus!
