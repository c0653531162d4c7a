use vstd::prelude::*;

use crate::text::{parse_usize, trim_spec, usize_from_text};

verus! {

/// An envelope flag, as the email library knows them.
#[derive(Clone, Debug, PartialEq, Eq, PartialOrd, Ord)]
pub enum FlagName {
    Seen,
    Answered,
    Flagged,
    Deleted,
    Draft,
    Custom(String),
}

/// The mathematical value of a flag.
pub enum FlagView {
    Seen,
    Answered,
    Flagged,
    Deleted,
    Draft,
    Custom(Seq<char>),
}

impl View for FlagName {
    type V = FlagView;

    open spec fn view(&self) -> FlagView {
        match self {
            FlagName::Seen => FlagView::Seen,
            FlagName::Answered => FlagView::Answered,
            FlagName::Flagged => FlagView::Flagged,
            FlagName::Deleted => FlagView::Deleted,
            FlagName::Draft => FlagView::Draft,
            FlagName::Custom(s) => FlagView::Custom(s@),
        }
    }
}

/// `c` with an ASCII upper-case letter turned into lower case.
pub open spec fn ascii_lower(c: char) -> char {
    if 'A' <= c && c <= 'Z' {
        ((c as u32) + 32) as char
    } else {
        c
    }
}

/// `a` and `b` are equal up to ASCII case.
pub open spec fn eq_ignore_ascii_case(a: Seq<char>, b: Seq<char>) -> bool {
    &&& a.len() == b.len()
    &&& forall|i: int| 0 <= i < a.len() ==> ascii_lower(#[trigger] a[i]) == ascii_lower(b[i])
}

/// The flag a text names: trimmed, then matched against the flag names up
/// to ASCII case; any other text is a custom flag.
pub open spec fn flag_from_text(s: Seq<char>) -> FlagView {
    let t = trim_spec(s);
    if eq_ignore_ascii_case(t, "seen"@) {
        FlagView::Seen
    } else if eq_ignore_ascii_case(t, "answered"@) || eq_ignore_ascii_case(t, "replied"@) {
        FlagView::Answered
    } else if eq_ignore_ascii_case(t, "flagged"@) {
        FlagView::Flagged
    } else if eq_ignore_ascii_case(t, "deleted"@) || eq_ignore_ascii_case(t, "trashed"@) {
        FlagView::Deleted
    } else if eq_ignore_ascii_case(t, "draft"@) {
        FlagView::Draft
    } else {
        FlagView::Custom(t)
    }
}

/// The flag that a text names, from `email::flag::Flag::from(&str)`.
///
/// Taken on trust from the email library: the text is trimmed of Unicode
/// whitespace, then compared, ignoring ASCII case, with `seen`, `answered` or
/// `replied`, `flagged`, `deleted` or `trashed`, and `draft`; any other text
/// is a custom flag holding the trimmed text.
#[verifier::external_body]
fn flag_of_text(s: &str) -> (f: FlagName)
    ensures
        f@ == flag_from_text(s@),
{
    match email::flag::Flag::from(s) {
        email::flag::Flag::Seen => FlagName::Seen,
        email::flag::Flag::Answered => FlagName::Answered,
        email::flag::Flag::Flagged => FlagName::Flagged,
        email::flag::Flag::Deleted => FlagName::Deleted,
        email::flag::Flag::Draft => FlagName::Draft,
        email::flag::Flag::Custom(c) => FlagName::Custom(c),
    }
}

/// The email library's flag type, carried through as an opaque value.
#[verifier::external_type_specification]
#[verifier::external_body]
pub struct ExFlag(email::flag::Flag);

/// The email library's set of flags, whose contents `flags_contents` names.
#[verifier::external_type_specification]
#[verifier::external_body]
pub struct ExFlags(email::flag::Flags);

/// The flags that an `email::flag::Flags` set holds.
pub uninterp spec fn flags_contents(flags: email::flag::Flags) -> Set<FlagView>;

/// A new flag set, from `email::flag::Flags::default()`.
///
/// Taken on trust: the set holds no flag.
#[verifier::external_body]
fn no_flags() -> (f: email::flag::Flags)
    ensures
        flags_contents(f) == Set::<FlagView>::empty(),
{
    email::flag::Flags::default()
}

/// Adds a flag to a set: `BTreeSet::insert` reached through the `DerefMut`
/// of `email::flag::Flags`, given the email library's flag of the same
/// variant (a custom flag with the same text).
///
/// Taken on trust: afterwards the set holds what it held and that flag;
/// nothing is said of the order the set keeps.
#[verifier::external_body]
fn add_flag(flags: &mut email::flag::Flags, flag: &FlagName)
    ensures
        flags_contents(*final(flags)) == flags_contents(*old(flags)).insert(flag@),
{
    flags.insert(match flag {
        FlagName::Seen => email::flag::Flag::Seen,
        FlagName::Answered => email::flag::Flag::Answered,
        FlagName::Flagged => email::flag::Flag::Flagged,
        FlagName::Deleted => email::flag::Flag::Deleted,
        FlagName::Draft => email::flag::Flag::Draft,
        FlagName::Custom(c) => email::flag::Flag::Custom(c.clone()),
    });
}

} // verus!

verus! {

/// An argument that is either an envelope id or a flag.
#[derive(Clone, Debug, PartialEq, Eq, PartialOrd, Ord)]
pub enum IdOrFlag {
    Id(usize),
    Flag(FlagName),
}

/// The ids and/or flags arguments parser.
pub struct IdsAndFlagsArgs {
    /// The list of ids and/or flags.
    pub ids_and_flags: Vec<IdOrFlag>,
}

/// What an argument text stands for: an id when it reads as a `usize`,
/// otherwise the flag it names.
pub open spec fn id_or_flag_from_text(s: Seq<char>, r: IdOrFlag) -> bool {
    match usize_from_text(s) {
        Some(n) => r == IdOrFlag::Id(n),
        None => r matches IdOrFlag::Flag(f) && f@ == flag_from_text(s),
    }
}

impl IdOrFlag {
    /// Every argument that can be parsed as an integer is an id, otherwise
    /// it is a flag.
    pub fn from(value: &str) -> (r: IdOrFlag)
        ensures
            id_or_flag_from_text(value@, r),
    {
        match parse_usize(value) {
            Ok(n) => IdOrFlag::Id(n),
            Err(_) => IdOrFlag::Flag(flag_of_text(value)),
        }
    }
}

/// The ids among `args`, in order.
pub open spec fn ids_of(args: Seq<IdOrFlag>) -> Seq<usize>
    decreases args.len(),
{
    if args.len() == 0 {
        Seq::empty()
    } else {
        match args.last() {
            IdOrFlag::Id(n) => ids_of(args.drop_last()).push(n),
            IdOrFlag::Flag(_) => ids_of(args.drop_last()),
        }
    }
}

/// The flags among `args`.
pub open spec fn flags_of(args: Seq<IdOrFlag>) -> Set<FlagView>
    decreases args.len(),
{
    if args.len() == 0 {
        Set::empty()
    } else {
        match args.last() {
            IdOrFlag::Id(_) => flags_of(args.drop_last()),
            IdOrFlag::Flag(f) => flags_of(args.drop_last()).insert(f@),
        }
    }
}

/// Splits the arguments into the ids, in order, and the set of flags.
pub fn into_tuple(ids_and_flags: &[IdOrFlag]) -> (r: (Vec<usize>, email::flag::Flags))
    ensures
        r.0@ == ids_of(ids_and_flags@),
        flags_contents(r.1) == flags_of(ids_and_flags@),
        forall|i: int|
            0 <= i < ids_and_flags@.len() && (#[trigger] ids_and_flags@[i]) is Flag ==> flags_contents(
                r.1,
            ).contains(ids_and_flags@[i]->Flag_0@),
        forall|v: FlagView|
            #[trigger] flags_contents(r.1).contains(v) ==> exists|i: int|
                0 <= i < ids_and_flags@.len() && (#[trigger] ids_and_flags@[i]) is Flag
                    && ids_and_flags@[i]->Flag_0@ == v,
{
    proof {
        crate::laws::law_ids_and_flags_split(ids_and_flags@);
    }
    let mut ids: Vec<usize> = Vec::new();
    let mut flags = no_flags();
    let mut i: usize = 0;
    while i < ids_and_flags.len()
        invariant
            i <= ids_and_flags@.len(),
            ids@ == ids_of(ids_and_flags@.take(i as int)),
            flags_contents(flags) == flags_of(ids_and_flags@.take(i as int)),
        decreases ids_and_flags@.len() - i,
    {
        assert(ids_and_flags@.take(i + 1).drop_last() == ids_and_flags@.take(i as int));
        match &ids_and_flags[i] {
            IdOrFlag::Id(id) => {
                ids.push(*id);
            },
            IdOrFlag::Flag(flag) => {
                add_flag(&mut flags, flag);
            },
        }
        i = i + 1;
    }
    assert(ids_and_flags@.take(ids_and_flags@.len() as int) == ids_and_flags@);
    (ids, flags)
}

} // verus!
