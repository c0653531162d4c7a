use vstd::prelude::*;

verus! {

/// Rank of a flag character in the canonical order: Seen, Flagged,
/// Answered, Deleted, Draft, then everything else.
pub open spec fn flag_rank(c: char) -> u8 {
    if c == 'S' {
        0
    } else if c == 'F' {
        1
    } else if c == 'A' {
        2
    } else if c == 'D' {
        3
    } else if c == 'T' {
        4
    } else {
        5
    }
}

/// Sort key of a flag character.
pub fn flag_sort_key(c: &char) -> (k: u8)
    ensures
        k == flag_rank(*c),
{
    match *c {
        'S' => 0,
        'F' => 1,
        'A' => 2,
        'D' => 3,
        'T' => 4,
        _ => 5,
    }
}

} // verus!

verus! {

/// The characters of `s` whose rank is `k`, in order.
pub open spec fn with_rank(s: Seq<char>, k: u8) -> Seq<char>
    decreases s.len(),
{
    if s.len() == 0 {
        Seq::empty()
    } else if flag_rank(s.last()) == k {
        with_rank(s.drop_last(), k).push(s.last())
    } else {
        with_rank(s.drop_last(), k)
    }
}

/// The characters of `s` of rank below `k`, grouped by rank in increasing
/// order, each group in the order of `s`.
pub open spec fn ranked_below(s: Seq<char>, k: nat) -> Seq<char>
    decreases k,
{
    if k == 0 {
        Seq::empty()
    } else {
        ranked_below(s, (k - 1) as nat) + with_rank(s, (k - 1) as u8)
    }
}

/// `s` stably sorted by flag rank: Seen, Flagged, Answered, Deleted, Draft,
/// then all other characters in the order they come in `s`.
pub open spec fn sorted_flags(s: Seq<char>) -> Seq<char> {
    ranked_below(s, 6)
}

/// Sorts a flags string into canonical SFADT order.
pub fn sort_flags(flags: &str) -> (r: String)
    ensures
        r@ == sorted_flags(flags@),
{
    let v = crate::text::chars_of(flags);
    let mut r = String::new();
    let mut k: u8 = 0;
    while k < 6
        invariant
            k <= 6,
            v@ == flags@,
            r@ == ranked_below(v@, k as nat),
        decreases 6 - k,
    {
        let ghost start = r@;
        let mut i: usize = 0;
        while i < v.len()
            invariant
                i <= v.len(),
                k < 6,
                r@ == start + with_rank(v@.take(i as int), k),
            decreases v.len() - i,
        {
            assert(v@.take(i + 1).drop_last() == v@.take(i as int));
            if flag_sort_key(&v[i]) == k {
                crate::text::push_char(&mut r, v[i]);
            }
            i = i + 1;
        }
        assert(v@.take(v.len() as int) == v@);
        k = k + 1;
    }
    r
}

} // verus!
