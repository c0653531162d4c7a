use vstd::prelude::*;
use vstd::view::View as _;

verus! {

/// Owned envelope data, as the envelope list shows it.
pub struct EnvelopeData {
    pub id: String,
    pub subject: String,
    pub from: String,
    pub date: String,
    pub flags: String,
    pub unseen: bool,
    pub flagged: bool,
    pub account: String,
}

/// Tracks a contiguous range of envelopes belonging to one account.
pub struct AccountSection {
    pub name: String,
    pub start: usize,
    pub count: usize,
}

/// A folder of some account.
pub struct FolderEntry {
    pub name: String,
    pub account: String,
}

/// Tracks a contiguous range of folders belonging to one account.
pub struct FolderSection {
    pub name: String,
    pub start: usize,
    pub count: usize,
}

/// The folder picker.
pub struct FolderListState {
    pub folders: Vec<FolderEntry>,
    pub sections: Vec<FolderSection>,
    pub selected: usize,
    pub saved_envelope_selected: usize,
}

/// The envelopes of one folder, opened from the folder picker.
pub struct FolderEnvelopeState {
    pub envelopes: Vec<EnvelopeData>,
    pub selected: usize,
    pub folder_name: String,
    pub account_key: String,
    pub parent: FolderListState,
}

/// What the terminal shows.
pub enum View {
    EnvelopeList,
    MessageRead { content: String, scroll: u16, folder_context: Option<Box<FolderEnvelopeState>> },
    FolderList(FolderListState),
    FolderEnvelopeList(FolderEnvelopeState),
}

/// A transient status line.
pub enum Status {
    Working(String),
    Error(String),
    Info(String),
}

/// The state of the terminal interface.
pub struct App {
    pub envelopes: Vec<EnvelopeData>,
    pub sections: Vec<AccountSection>,
    pub selected: usize,
    pub view: View,
    pub folder: String,
    pub should_quit: bool,
    pub status: Option<Status>,
}

/// The selection one step further down a list of `len` items, stopping at
/// the last one; unchanged on an empty list.
pub open spec fn next_index(selected: usize, len: nat) -> usize {
    if len == 0 {
        selected
    } else if selected + 1 <= len - 1 {
        (selected + 1) as usize
    } else {
        (len - 1) as usize
    }
}

/// The selection one step up, stopping at zero.
pub open spec fn prev_index(selected: usize) -> usize {
    if selected == 0 {
        0
    } else {
        (selected - 1) as usize
    }
}

/// The selection kept within a list of `len` items: at most the last index,
/// zero when the list is empty.
pub open spec fn clamp_index(selected: usize, len: nat) -> usize {
    if len == 0 {
        0
    } else if selected <= len - 1 {
        selected
    } else {
        (len - 1) as usize
    }
}

/// The next selection in a list of `len` items.
pub fn step_down(selected: usize, len: usize) -> (r: usize)
    ensures
        r == next_index(selected, len as nat),
{
    if len == 0 {
        selected
    } else if selected >= len - 1 {
        len - 1
    } else {
        selected + 1
    }
}

/// The selection kept within a list of `len` items.
pub fn clamp_selection(selected: usize, len: usize) -> (r: usize)
    ensures
        r == clamp_index(selected, len as nat),
{
    if len == 0 {
        0
    } else if selected <= len - 1 {
        selected
    } else {
        len - 1
    }
}

/// Section `s` once the envelope at `index` is gone: the section holding it
/// shrinks by one, the sections after it move up by one.
pub open spec fn section_after_removal(s: AccountSection, index: usize) -> AccountSection {
    if s.start <= index && index < s.start + s.count {
        AccountSection { count: (s.count - 1) as usize, ..s }
    } else if s.start > index {
        AccountSection { start: (s.start - 1) as usize, ..s }
    } else {
        s
    }
}

/// The last section that held the envelope at `index` as its only one.
pub open spec fn last_emptied(secs: Seq<AccountSection>, index: usize) -> Option<int>
    decreases secs.len(),
{
    if secs.len() == 0 {
        None
    } else if secs.last().start <= index && index < secs.last().start + secs.last().count
        && secs.last().count == 1 {
        Some(secs.len() - 1)
    } else {
        last_emptied(secs.drop_last(), index)
    }
}

/// The sections once the envelope at `index` is gone: each updated by
/// `section_after_removal`, then the last one that became empty dropped.
pub open spec fn sections_after_removal(secs: Seq<AccountSection>, index: usize) -> Seq<AccountSection> {
    let updated = secs.map_values(|s: AccountSection| section_after_removal(s, index));
    match last_emptied(secs, index) {
        Some(si) => updated.remove(si),
        None => updated,
    }
}

proof fn lemma_last_emptied_bound(secs: Seq<AccountSection>, index: usize)
    ensures
        last_emptied(secs, index) matches Some(si) ==> 0 <= si < secs.len(),
    decreases secs.len(),
{
    if secs.len() > 0 {
        lemma_last_emptied_bound(secs.drop_last(), index);
    }
}

impl FolderEnvelopeState {
    /// Removes the envelope at `index`, keeping the selection within the list.
    pub fn remove_envelope(&mut self, index: usize) -> (r: Option<EnvelopeData>)
        ensures
            index < old(self).envelopes.len() ==> {
                &&& r == Some(old(self).envelopes@[index as int])
                &&& final(self).envelopes@ == old(self).envelopes@.remove(index as int)
                &&& final(self).selected == clamp_index(
                    old(self).selected,
                    final(self).envelopes@.len(),
                )
            },
            index >= old(self).envelopes.len() ==> r is None && final(self).envelopes@ == old(self).envelopes@
                && final(self).selected == old(self).selected,
            final(self).folder_name == old(self).folder_name,
            final(self).account_key == old(self).account_key,
            final(self).parent == old(self).parent,
    {
        if index >= self.envelopes.len() {
            return None;
        }
        let removed = self.envelopes.remove(index);
        self.selected = clamp_selection(self.selected, self.envelopes.len());
        Some(removed)
    }
}

impl App {
    /// A new interface on the envelope list of `folder`.
    pub fn new(envelopes: Vec<EnvelopeData>, folder: String) -> (app: App)
        ensures
            app.envelopes == envelopes,
            app.sections@ == Seq::<AccountSection>::empty(),
            app.selected == 0,
            app.view is EnvelopeList,
            app.folder == folder,
            !app.should_quit,
            app.status is None,
    {
        App {
            envelopes,
            sections: Vec::new(),
            selected: 0,
            view: View::EnvelopeList,
            folder,
            should_quit: false,
            status: None,
        }
    }

    /// The same interface with the given account sections.
    pub fn with_sections(self, sections: Vec<AccountSection>) -> (app: App)
        ensures
            app == (App { sections, ..self }),
    {
        let mut app = self;
        app.sections = sections;
        app
    }

    /// Moves the selection down one envelope, stopping at the last.
    pub fn select_next(&mut self)
        ensures
            *final(self) == (App {
                selected: next_index(old(self).selected, old(self).envelopes@.len()),
                ..*old(self)
            }),
            old(self).selected + 1 < old(self).envelopes@.len() ==> final(self).selected == old(self).selected + 1,
    {
        self.selected = step_down(self.selected, self.envelopes.len());
    }

    /// Moves the selection up one envelope, stopping at the first.
    pub fn select_prev(&mut self)
        ensures
            *final(self) == (App { selected: prev_index(old(self).selected), ..*old(self) }),
    {
        self.selected = self.selected.saturating_sub(1);
    }

    /// Moves the folder picker's selection down one folder; nothing outside
    /// the folder picker.
    pub fn folder_select_next(&mut self)
        ensures
            match old(self).view {
                View::FolderList(state) => *final(self) == (App {
                    view: View::FolderList(
                        FolderListState {
                            selected: next_index(state.selected, state.folders@.len()),
                            ..state
                        },
                    ),
                    ..*old(self)
                }),
                _ => *final(self) == *old(self),
            },
    {
        if let View::FolderList(state) = &mut self.view {
            state.selected = step_down(state.selected, state.folders.len());
        }
    }

    /// Moves the folder picker's selection up one folder; nothing outside the
    /// folder picker.
    pub fn folder_select_prev(&mut self)
        ensures
            match old(self).view {
                View::FolderList(state) => *final(self) == (App {
                    view: View::FolderList(
                        FolderListState { selected: prev_index(state.selected), ..state },
                    ),
                    ..*old(self)
                }),
                _ => *final(self) == *old(self),
            },
    {
        if let View::FolderList(state) = &mut self.view {
            state.selected = state.selected.saturating_sub(1);
        }
    }

    /// Removes the envelope at `index`, updating the sections and keeping the
    /// selection within the list; `None` when the index is out of bounds.
    pub fn remove_envelope(&mut self, index: usize) -> (r: Option<EnvelopeData>)
        ensures
            index < old(self).envelopes.len() ==> {
                &&& r == Some(old(self).envelopes@[index as int])
                &&& final(self).envelopes@ == old(self).envelopes@.remove(index as int)
                &&& final(self).sections@ == sections_after_removal(old(self).sections@, index)
                &&& final(self).selected == clamp_index(
                    old(self).selected,
                    final(self).envelopes@.len(),
                )
                &&& final(self).view == old(self).view
                &&& final(self).folder == old(self).folder
                &&& final(self).should_quit == old(self).should_quit
                &&& final(self).status == old(self).status
            },
            index >= old(self).envelopes.len() ==> r is None && *final(self) == *old(self),
    {
        if index >= self.envelopes.len() {
            return None;
        }
        let removed = self.envelopes.remove(index);
        let ghost secs = self.sections@;
        let mut section_to_remove: Option<usize> = None;
        let mut si: usize = 0;
        while si < self.sections.len()
            invariant
                si <= self.sections@.len(),
                self.sections@.len() == secs.len(),
                index < old(self).envelopes@.len(),
                removed == old(self).envelopes@[index as int],
                self.envelopes@ == old(self).envelopes@.remove(index as int),
                secs == old(self).sections@,
                self.selected == old(self).selected,
                self.view == old(self).view,
                self.folder == old(self).folder,
                self.should_quit == old(self).should_quit,
                self.status == old(self).status,
                forall|j: int| 0 <= j < si ==> #[trigger] self.sections@[j] == section_after_removal(secs[j], index),
                forall|j: int| si <= j < secs.len() ==> #[trigger] self.sections@[j] == secs[j],
                match section_to_remove {
                    Some(k) => last_emptied(secs.take(si as int), index) == Some(k as int),
                    None => last_emptied(secs.take(si as int), index) is None,
                },
            decreases secs.len() - si,
        {
            assert(secs.take(si + 1).drop_last() == secs.take(si as int));
            let start = self.sections[si].start;
            let count = self.sections[si].count;
            if index >= start && index - start < count {
                self.sections[si].count = count - 1;
                if count - 1 == 0 {
                    section_to_remove = Some(si);
                }
            } else if start > index {
                self.sections[si].start = start - 1;
            }
            si = si + 1;
        }
        proof {
            assert(secs.take(secs.len() as int) == secs);
            lemma_last_emptied_bound(secs, index);
            assert(self.sections@ == secs.map_values(|s: AccountSection| section_after_removal(s, index)));
        }
        if let Some(k) = section_to_remove {
            self.sections.remove(k);
        }
        self.selected = clamp_selection(self.selected, self.envelopes.len());
        Some(removed)
    }
}

} // verus!
