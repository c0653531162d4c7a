use vstd::prelude::*;

use crate::flag_arg::{FlagName, FlagView};
use crate::tui::app::EnvelopeData;
use crate::tui::flags::{sort_flags, sorted_flags};

verus! {

/// A mailbox: an optional display name and an address.
pub struct Mailbox {
    pub name: Option<String>,
    pub addr: String,
}

/// An envelope as the backend lists it. Its flags come from a set: no flag
/// occurs twice.
pub struct Envelope {
    pub id: String,
    pub flags: Vec<FlagName>,
    pub subject: String,
    pub from: Mailbox,
    pub to: Mailbox,
    pub date: String,
    pub has_attachment: bool,
}

/// The letter that stands for a flag in the envelope list.
pub open spec fn flag_letter(f: FlagView) -> char {
    match f {
        FlagView::Seen => 'S',
        FlagView::Answered => 'A',
        FlagView::Flagged => 'F',
        FlagView::Deleted => 'D',
        FlagView::Draft => 'T',
        FlagView::Custom(_) => '*',
    }
}

/// The letters of a list of flags, in order.
pub open spec fn flag_letters(flags: Seq<FlagName>) -> Seq<char> {
    flags.map_values(|f: FlagName| flag_letter(f@))
}

/// The values of a list of flags.
pub open spec fn flag_views(flags: Seq<FlagName>) -> Seq<FlagView> {
    flags.map_values(|f: FlagName| f@)
}

/// The name shown for a mailbox: its display name, else its address.
pub open spec fn shown_name(m: Mailbox) -> Seq<char> {
    match m.name {
        Some(n) => n@,
        None => m.addr@,
    }
}

/// The letter of one flag.
fn letter_of(f: &FlagName) -> (c: char)
    ensures
        c == flag_letter(f@),
{
    match f {
        FlagName::Seen => 'S',
        FlagName::Answered => 'A',
        FlagName::Flagged => 'F',
        FlagName::Deleted => 'D',
        FlagName::Draft => 'T',
        FlagName::Custom(_) => '*',
    }
}

impl EnvelopeData {
    /// The list entry of an envelope: sender shown by name when it has one,
    /// flags as letters in canonical order, unseen unless flagged Seen.
    pub fn from(env: &Envelope) -> (d: EnvelopeData)
        requires
            env.flags@.no_duplicates(),
        ensures
            d.id@ == env.id@,
            d.subject@ == env.subject@,
            d.from@ == shown_name(env.from),
            d.date@ == env.date@,
            d.flags@ == sorted_flags(flag_letters(env.flags@)),
            d.unseen == !flag_views(env.flags@).contains(FlagView::Seen),
            d.flagged == flag_views(env.flags@).contains(FlagView::Flagged),
            d.account@ == Seq::<char>::empty(),
            d.flags@.contains('S') == flag_views(env.flags@).contains(FlagView::Seen),
            d.flags@.contains('F') == flag_views(env.flags@).contains(FlagView::Flagged),
            d.flags@.contains('A') == flag_views(env.flags@).contains(FlagView::Answered),
            d.flags@.contains('D') == flag_views(env.flags@).contains(FlagView::Deleted),
            d.flags@.contains('T') == flag_views(env.flags@).contains(FlagView::Draft),
    {
        proof {
            crate::laws::law_flag_letters_name_their_flags(env.flags@);
        }
        let from = match &env.from.name {
            Some(n) => n.clone(),
            None => env.from.addr.clone(),
        };
        let mut letters = String::new();
        let mut seen = false;
        let mut flagged = false;
        let mut i: usize = 0;
        while i < env.flags.len()
            invariant
                i <= env.flags@.len(),
                letters@ == flag_letters(env.flags@.take(i as int)),
                seen == flag_views(env.flags@.take(i as int)).contains(FlagView::Seen),
                flagged == flag_views(env.flags@.take(i as int)).contains(FlagView::Flagged),
            decreases env.flags@.len() - i,
        {
            let ghost prefix = env.flags@.take(i as int);
            assert(env.flags@.take(i + 1) == prefix.push(env.flags@[i as int]));
            assert(flag_views(prefix.push(env.flags@[i as int])) == flag_views(prefix).push(env.flags@[i as int]@));
            assert(flag_letters(prefix.push(env.flags@[i as int])) == flag_letters(prefix).push(flag_letter(env.flags@[i as int]@)));
            proof {
                vstd::seq_lib::lemma_seq_contains_after_push(flag_views(prefix), env.flags@[i as int]@, FlagView::Seen);
                vstd::seq_lib::lemma_seq_contains_after_push(flag_views(prefix), env.flags@[i as int]@, FlagView::Flagged);
            }
            match &env.flags[i] {
                FlagName::Seen => {
                    seen = true;
                },
                FlagName::Flagged => {
                    flagged = true;
                },
                _ => {},
            }
            crate::text::push_char(&mut letters, letter_of(&env.flags[i]));
            i = i + 1;
        }
        assert(env.flags@.take(env.flags@.len() as int) == env.flags@);
        EnvelopeData {
            id: env.id.clone(),
            subject: env.subject.clone(),
            from,
            date: env.date.clone(),
            flags: sort_flags(letters.as_str()),
            unseen: !seen,
            flagged,
            account: String::new(),
        }
    }
}

} // verus!
