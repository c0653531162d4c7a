use vstd::prelude::*;
use vstd::view::View as _;

use crate::text::{
    chars_of, find_char, lemma_first_index_of, parse_usize, push_char, remove_char, string_of,
    int_error_text, usize_from_text, without_char,
};
use crate::tui::app::{
    clamp_index, next_index, prev_index, sections_after_removal, App, EnvelopeData, Status, View,
};
use crate::tui::event::Action;
use crate::tui::flags::{sort_flags, sorted_flags};

verus! {

/// The envelope under the selection, if the selection is within the list.
pub open spec fn selected_envelope(app: App) -> Option<EnvelopeData> {
    if app.selected < app.envelopes@.len() {
        Some(app.envelopes@[app.selected as int])
    } else {
        None
    }
}

/// The account the selected envelope belongs to: its own account when it
/// names one, else the default account.
pub open spec fn selected_account(app: App, default_account: Seq<char>) -> Seq<char> {
    match selected_envelope(app) {
        Some(env) => if env.account@.len() > 0 {
            env.account@
        } else {
            default_account
        },
        None => default_account,
    }
}

/// Resolves the account key for the currently selected envelope.
pub fn account_key_for(app: &App, default_account: &str) -> (r: String)
    ensures
        r@ == selected_account(*app, default_account@),
{
    if app.selected < app.envelopes.len() {
        let env = &app.envelopes[app.selected];
        if env.account.as_str().is_empty() {
            String::from_str(default_account)
        } else {
            env.account.clone()
        }
    } else {
        String::from_str(default_account)
    }
}

/// Envelope identity and context needed by the action handlers.
pub struct EnvelopeContext {
    pub id: String,
    pub unseen: bool,
    pub flagged: bool,
    pub account_key: String,
    pub folder: String,
}

/// `ctx` describes the selected envelope: its id and state, its account, and
/// the folder shown.
pub open spec fn is_active_context(app: App, default_account: Seq<char>, ctx: EnvelopeContext) -> bool {
    match selected_envelope(app) {
        Some(env) => {
            &&& ctx.id@ == env.id@
            &&& ctx.unseen == env.unseen
            &&& ctx.flagged == env.flagged
            &&& ctx.account_key@ == selected_account(app, default_account)
            &&& ctx.folder@ == app.folder@
        },
        None => false,
    }
}

/// Extracts the context of the selected envelope; `None` when nothing is
/// selected.
pub fn active_envelope_context(app: &App, default_account: &str) -> (r: Option<EnvelopeContext>)
    ensures
        r is Some <==> selected_envelope(*app) is Some,
        r matches Some(ctx) ==> is_active_context(*app, default_account@, ctx),
{
    if app.selected < app.envelopes.len() {
        let env = &app.envelopes[app.selected];
        Some(
            EnvelopeContext {
                id: env.id.clone(),
                unseen: env.unseen,
                flagged: env.flagged,
                account_key: account_key_for(app, default_account),
                folder: app.folder.clone(),
            },
        )
    } else {
        None
    }
}

/// The flags string with letter `c` added: unchanged when it holds `c`
/// already, else `c` put in front and the whole sorted into canonical order.
pub open spec fn with_letter(flags: Seq<char>, c: char) -> Seq<char> {
    if flags.contains(c) {
        flags
    } else {
        sorted_flags(seq![c] + flags)
    }
}

/// Adds flag letter `c` to a flags string.
pub fn add_letter(flags: &String, c: char) -> (r: String)
    ensures
        r@ == with_letter(flags@, c),
{
    let v = chars_of(flags.as_str());
    let i = find_char(&v, 0, v.len(), c);
    proof {
        assert(v@.subrange(0, v@.len() as int) == v@);
        lemma_first_index_of(v@, c);
    }
    if i < v.len() {
        string_of(&v, 0, v.len())
    } else {
        let mut s = String::new();
        push_char(&mut s, c);
        s.append(flags.as_str());
        sort_flags(s.as_str())
    }
}

/// Drops every flag letter `c` from a flags string.
pub fn drop_letter(flags: &String, c: char) -> (r: String)
    ensures
        r@ == without_char(flags@, c),
{
    let v = chars_of(flags.as_str());
    let w = remove_char(&v, c);
    string_of(&w, 0, w.len())
}

} // verus!

verus! {

/// An envelope that a backend call is about: account, folder and numeric id,
/// with its state when the call was decided.
pub struct Target {
    pub account_key: String,
    pub folder: String,
    pub id: usize,
    pub unseen: bool,
    pub flagged: bool,
}

/// The backend work an action asks for.
pub enum Command {
    /// Nothing to do on any backend.
    Idle,
    /// Fetch the message, then hand its text to `App::finish_read`.
    FetchMessage(Target),
    /// Mark the message as seen on its backend; the outcome changes nothing.
    MarkSeen(Target),
    /// Delete the message, then hand the outcome to `App::finish_delete`.
    Delete(Target),
    /// Move the message to the account's archive folder, then hand the
    /// outcome to `App::finish_archive`.
    Archive(Target),
    /// Add (`true`) or remove (`false`) the Seen flag, then hand the outcome
    /// to `App::finish_toggle_read`.
    SetSeen(Target, bool),
    /// Add (`true`) or remove (`false`) the Flagged flag, then hand the
    /// outcome to `App::finish_toggle_flag`.
    SetFlagged(Target, bool),
}

/// `t` is the selected envelope as context `ctx` describes it, with numeric
/// id `id`.
pub open spec fn is_target_of(ctx: EnvelopeContext, id: usize, t: Target) -> bool {
    &&& t.account_key@ == ctx.account_key@
    &&& t.folder@ == ctx.folder@
    &&& t.id == id
    &&& t.unseen == ctx.unseen
    &&& t.flagged == ctx.flagged
}

/// Some account among `accounts` has key `key`.
pub open spec fn has_account(accounts: Seq<String>, key: Seq<char>) -> bool {
    exists|i: int| 0 <= i < accounts.len() && #[trigger] accounts[i]@ == key
}

/// Whether some account among `accounts` has key `key`.
pub fn find_account(accounts: &Vec<String>, key: &String) -> (b: bool)
    ensures
        b == has_account(accounts@, key@),
{
    let mut i: usize = 0;
    while i < accounts.len()
        invariant
            i <= accounts@.len(),
            forall|j: int| 0 <= j < i ==> #[trigger] accounts@[j]@ != key@,
        decreases accounts@.len() - i,
    {
        if accounts[i] == *key {
            return true;
        }
        i = i + 1;
    }
    false
}

/// The target built from a context and a numeric id.
fn target_from(ctx: &EnvelopeContext, id: usize) -> (t: Target)
    ensures
        is_target_of(*ctx, id, t),
{
    Target {
        account_key: ctx.account_key.clone(),
        folder: ctx.folder.clone(),
        id,
        unseen: ctx.unseen,
        flagged: ctx.flagged,
    }
}

/// A text made of a fixed prefix and a variable part.
pub fn prefixed(prefix: &str, rest: &str) -> (r: String)
    ensures
        r@ == prefix@ + rest@,
{
    let mut r = String::from_str(prefix);
    r.append(rest);
    r
}

} // verus!

verus! {

/// `after` is `before` with the envelope at `i` marked as seen: no longer
/// unseen, and `S` added to its flags; every other envelope unchanged.
pub open spec fn marked_seen(before: Seq<EnvelopeData>, after: Seq<EnvelopeData>, i: int) -> bool {
    &&& after.len() == before.len()
    &&& forall|j: int| 0 <= j < before.len() && j != i ==> #[trigger] after[j] == before[j]
    &&& 0 <= i < before.len() ==> {
        &&& after[i] == (EnvelopeData { unseen: false, flags: after[i].flags, ..before[i] })
        &&& after[i].flags@ == with_letter(before[i].flags@, 'S')
    }
}

/// `post` is `app` showing a message with text `content`: the selected
/// envelope marked as seen when it was unseen, the status cleared, the
/// message view open at its top; sections, selection and folder unchanged.
pub open spec fn shows_message(app: App, unseen: bool, content: Seq<char>, post: App) -> bool {
    &&& if unseen {
        marked_seen(app.envelopes@, post.envelopes@, app.selected as int)
    } else {
        post.envelopes@ == app.envelopes@
    }
    &&& post.status is None
    &&& post.view matches View::MessageRead { content: text, scroll, folder_context } && text@
        == content && scroll == 0 && folder_context is None
    &&& post.sections == app.sections
    &&& post.selected == app.selected
    &&& post.folder == app.folder
    &&& post.should_quit == app.should_quit
}

/// `t` is the selected envelope of `app` with numeric id `id`.
pub open spec fn is_selected_target(app: App, default_account: Seq<char>, id: usize, t: Target) -> bool {
    match selected_envelope(app) {
        Some(env) => {
            &&& t.account_key@ == selected_account(app, default_account)
            &&& t.folder@ == app.folder@
            &&& t.id == id
            &&& t.unseen == env.unseen
            &&& t.flagged == env.flagged
        },
        None => false,
    }
}

/// `post` is `app` with only its status changed, to `Working(text)`.
pub open spec fn working(app: App, text: Seq<char>, post: App) -> bool {
    &&& post == (App { status: post.status, ..app })
    &&& post.status matches Some(Status::Working(t)) && t@ == text
}

/// `post` is `app` with only its status changed, to `Error(text)`.
pub open spec fn failed(app: App, text: Seq<char>, post: App) -> bool {
    &&& post == (App { status: post.status, ..app })
    &&& post.status matches Some(Status::Error(t)) && t@ == text
}

/// `post` is `app` with only its status changed, to `Info(text)`.
pub open spec fn informed(app: App, text: Seq<char>, post: App) -> bool {
    &&& post == (App { status: post.status, ..app })
    &&& post.status matches Some(Status::Info(t)) && t@ == text
}

/// Opening the selected message: nothing without a selection; without a
/// backend for its account, or with an id that is no number, the message
/// view opens on an explanation; otherwise the status says it is loading and
/// the message is to be fetched.
pub open spec fn read_started(
    app: App,
    default_account: Seq<char>,
    accounts: Seq<String>,
    post: App,
    c: Command,
) -> bool {
    match selected_envelope(app) {
        None => post == app && c is Idle,
        Some(env) => {
            let key = selected_account(app, default_account);
            if has_account(accounts, key) {
                match usize_from_text(env.id@) {
                    Some(id) => working(app, "Loading…"@, post) && (c matches Command::FetchMessage(t)
                        && is_selected_target(app, default_account, id, t)),
                    None => shows_message(app, env.unseen, "Invalid envelope ID: "@ + env.id@, post)
                        && c is Idle,
                }
            } else {
                shows_message(app, env.unseen, "No backend for account: "@ + key, post) && c is Idle
            }
        },
    }
}

impl App {
    /// Shows a message: marks the selected envelope as seen when `unseen`,
    /// clears the status and opens the message view.
    fn open_message(&mut self, unseen: bool, content: String)
        ensures
            shows_message(*old(self), unseen, content@, *final(self)),
    {
        if unseen && self.selected < self.envelopes.len() {
            let i = self.selected;
            let flags = add_letter(&self.envelopes[i].flags, 'S');
            self.envelopes[i].unseen = false;
            self.envelopes[i].flags = flags;
        }
        self.status = None;
        self.view = View::MessageRead { content, scroll: 0, folder_context: None };
    }

    /// Starts reading the selected message.
    fn begin_read(&mut self, default_account: &str, accounts: &Vec<String>) -> (c: Command)
        ensures
            read_started(*old(self), default_account@, accounts@, *final(self), c),
    {
        match active_envelope_context(self, default_account) {
            None => Command::Idle,
            Some(ctx) => {
                if find_account(accounts, &ctx.account_key) {
                    match parse_usize(ctx.id.as_str()) {
                        Ok(id) => {
                            self.status = Some(Status::Working(String::from_str("Loading…")));
                            Command::FetchMessage(target_from(&ctx, id))
                        },
                        Err(_) => {
                            let content = prefixed("Invalid envelope ID: ", ctx.id.as_str());
                            self.open_message(ctx.unseen, content);
                            Command::Idle
                        },
                    }
                } else {
                    let content = prefixed("No backend for account: ", ctx.account_key.as_str());
                    self.open_message(ctx.unseen, content);
                    Command::Idle
                }
            },
        }
    }

    /// Shows the fetched message `content` of `target`; asks to mark it as
    /// seen on its backend when it was unseen.
    pub fn finish_read(&mut self, target: Target, content: String) -> (c: Command)
        ensures
            shows_message(*old(self), target.unseen, content@, *final(self)),
            c == (if target.unseen { Command::MarkSeen(target) } else { Command::Idle }),
    {
        self.open_message(target.unseen, content);
        if target.unseen {
            Command::MarkSeen(target)
        } else {
            Command::Idle
        }
    }
}

} // verus!

verus! {

/// The text of a fetched message, put together from the outcome of turning
/// each of its parts into a readable template: each template as it is, each
/// failure as an error line.
pub open spec fn read_text(parts: Seq<Result<String, String>>) -> Seq<char>
    decreases parts.len(),
{
    if parts.len() == 0 {
        Seq::empty()
    } else {
        read_text(parts.drop_last()) + match parts.last() {
            Ok(t) => t@,
            Err(e) => "Error reading message: "@ + e@,
        }
    }
}

/// What the message view shows once a message was asked for: the text of
/// its parts when the fetch succeeded, else the fetch error.
pub open spec fn fetched_text(outcome: Result<Vec<Result<String, String>>, String>) -> Seq<char> {
    match outcome {
        Ok(parts) => read_text(parts@),
        Err(e) => "Error fetching message: "@ + e@,
    }
}

/// Puts together the text of a fetched message from the outcome of the
/// fetch and of reading each of its parts.
pub fn fetched_content(outcome: &Result<Vec<Result<String, String>>, String>) -> (r: String)
    ensures
        r@ == fetched_text(*outcome),
{
    match outcome {
        Ok(parts) => {
            let mut body = String::new();
            let mut i: usize = 0;
            while i < parts.len()
                invariant
                    i <= parts@.len(),
                    body@ == read_text(parts@.take(i as int)),
                decreases parts@.len() - i,
            {
                assert(parts@.take(i + 1).drop_last() == parts@.take(i as int));
                match &parts[i] {
                    Ok(t) => body.append(t.as_str()),
                    Err(e) => {
                        body.append("Error reading message: ");
                        body.append(e.as_str());
                    },
                }
                i = i + 1;
            }
            assert(parts@.take(parts@.len() as int) == parts@);
            body
        },
        Err(e) => prefixed("Error fetching message: ", e.as_str()),
    }
}

} // verus!

verus! {

/// The status text while the backend works on an action, when it shows one.
pub open spec fn working_text(action: Action) -> Option<Seq<char>> {
    match action {
        Action::DeleteMessage => Some("Deleting…"@),
        Action::ArchiveMessage => Some("Archiving…"@),
        _ => None,
    }
}

/// The start of the error text of a failed action.
pub open spec fn failure_text(action: Action) -> Seq<char> {
    match action {
        Action::DeleteMessage => "Delete failed: "@,
        Action::ArchiveMessage => "Archive failed: "@,
        Action::ToggleRead => "Toggle read failed: "@,
        _ => "Toggle flag failed: "@,
    }
}

/// The backend command of a change action on target `t`.
pub open spec fn change_command(action: Action, t: Target, c: Command) -> bool {
    match action {
        Action::DeleteMessage => c == Command::Delete(t),
        Action::ArchiveMessage => c == Command::Archive(t),
        Action::ToggleRead => c == Command::SetSeen(t, t.unseen),
        _ => c == Command::SetFlagged(t, !t.flagged),
    }
}

/// Starting a change (delete, archive, toggle read, toggle flag) of the
/// selected envelope: nothing without a selection or without a backend for
/// its account; an id that is no number sets an error status; otherwise the
/// backend is asked, under a working status for delete and archive.
pub open spec fn change_started(
    app: App,
    action: Action,
    default_account: Seq<char>,
    accounts: Seq<String>,
    post: App,
    c: Command,
) -> bool {
    match selected_envelope(app) {
        None => post == app && c is Idle,
        Some(env) => {
            if has_account(accounts, selected_account(app, default_account)) {
                match usize_from_text(env.id@) {
                    Some(id) => {
                        &&& match working_text(action) {
                            Some(text) => working(app, text, post),
                            None => post == app,
                        }
                        &&& exists|t: Target| #[trigger]
                            is_selected_target(app, default_account, id, t) && change_command(
                                action,
                                t,
                                c,
                            )
                    },
                    None => failed(app, failure_text(action) + int_error_text(env.id@), post)
                        && c is Idle,
                }
            } else {
                post == app && c is Idle
            }
        },
    }
}

impl App {
    /// Starts a change of the selected envelope.
    fn begin_change(&mut self, action: Action, default_account: &str, accounts: &Vec<String>) -> (c: Command)
        requires
            action == Action::DeleteMessage || action == Action::ArchiveMessage || action
                == Action::ToggleRead || action == Action::ToggleFlag,
        ensures
            change_started(*old(self), action, default_account@, accounts@, *final(self), c),
    {
        match active_envelope_context(self, default_account) {
            None => Command::Idle,
            Some(ctx) => {
                if !find_account(accounts, &ctx.account_key) {
                    return Command::Idle;
                }
                match parse_usize(ctx.id.as_str()) {
                    Ok(id) => {
                        let t = target_from(&ctx, id);
                        assert(is_selected_target(*old(self), default_account@, id, t));
                        match action {
                            Action::DeleteMessage => {
                                self.status = Some(Status::Working(String::from_str("Deleting…")));
                                Command::Delete(t)
                            },
                            Action::ArchiveMessage => {
                                self.status = Some(Status::Working(String::from_str("Archiving…")));
                                Command::Archive(t)
                            },
                            Action::ToggleRead => {
                                let add = t.unseen;
                                Command::SetSeen(t, add)
                            },
                            _ => {
                                let add = !t.flagged;
                                Command::SetFlagged(t, add)
                            },
                        }
                    },
                    Err(e) => {
                        let prefix = match action {
                            Action::DeleteMessage => "Delete failed: ",
                            Action::ArchiveMessage => "Archive failed: ",
                            Action::ToggleRead => "Toggle read failed: ",
                            _ => "Toggle flag failed: ",
                        };
                        self.status = Some(Status::Error(prefixed(prefix, e.as_str())));
                        Command::Idle
                    },
                }
            },
        }
    }
}

} // verus!

verus! {

/// `after` is `before` with at most the envelope at `i` changed.
pub open spec fn only_changed_at(before: Seq<EnvelopeData>, after: Seq<EnvelopeData>, i: int) -> bool {
    &&& after.len() == before.len()
    &&& forall|j: int| 0 <= j < before.len() && j != i ==> #[trigger] after[j] == before[j]
}

/// `post` is `app` once the selected envelope left the list (deleted or
/// archived): it is removed as `remove_envelope` removes it, the envelope
/// list is shown, and the status says `text`.
pub open spec fn removed_selected(app: App, text: Seq<char>, post: App) -> bool {
    let i = app.selected;
    &&& if i < app.envelopes@.len() {
        &&& post.envelopes@ == app.envelopes@.remove(i as int)
        &&& post.sections@ == sections_after_removal(app.sections@, i)
        &&& post.selected == clamp_index(i, post.envelopes@.len())
    } else {
        &&& post.envelopes == app.envelopes
        &&& post.sections == app.sections
        &&& post.selected == app.selected
    }
    &&& post.view is EnvelopeList
    &&& post.folder == app.folder
    &&& post.should_quit == app.should_quit
    &&& post.status matches Some(Status::Info(t)) && t@ == text
}

/// `post` is `app` with the scroll of the message view moved one line down
/// (stopping at the largest offset) or up (stopping at zero); unchanged
/// outside the message view.
pub open spec fn scrolled(app: App, down: bool, post: App) -> bool {
    match app.view {
        View::MessageRead { content, scroll, folder_context } => post == (App {
            view: View::MessageRead {
                content,
                scroll: if down {
                    if scroll < u16::MAX {
                        (scroll + 1) as u16
                    } else {
                        scroll
                    }
                } else if scroll > 0 {
                    (scroll - 1) as u16
                } else {
                    0
                },
                folder_context,
            },
            ..app
        }),
        _ => post == app,
    }
}

/// The interface once a key press has been turned into an action: the
/// status cleared by any action but `Nothing`.
pub open spec fn cleared(app: App, action: Action) -> App {
    if action != Action::Nothing && app.status is Some {
        App { status: None, ..app }
    } else {
        app
    }
}

/// What handling `action` does to `app` and which backend command it asks
/// for.
pub open spec fn dispatched(
    app: App,
    action: Action,
    default_account: Seq<char>,
    accounts: Seq<String>,
    post: App,
    c: Command,
) -> bool {
    let a = cleared(app, action);
    match action {
        Action::Nothing => post == app && c is Idle,
        Action::Quit => post == (App { should_quit: true, ..a }) && c is Idle,
        Action::SelectNext => post == (App {
            selected: next_index(a.selected, a.envelopes@.len()),
            ..a
        }) && c is Idle,
        Action::SelectPrev => post == (App { selected: prev_index(a.selected), ..a }) && c is Idle,
        Action::ReadMessage => read_started(a, default_account, accounts, post, c),
        Action::NextMessage => if a.view is MessageRead {
            let moved = App { selected: next_index(a.selected, a.envelopes@.len()), ..a };
            if moved.selected == a.selected {
                informed(a, "No more messages"@, post) && c is Idle
            } else {
                read_started(moved, default_account, accounts, post, c)
            }
        } else {
            post == a && c is Idle
        },
        Action::BackToList => post == (App { view: View::EnvelopeList, ..a }) && c is Idle,
        Action::ScrollDown => scrolled(a, true, post) && c is Idle,
        Action::ScrollUp => scrolled(a, false, post) && c is Idle,
        _ => change_started(a, action, default_account, accounts, post, c),
    }
}

impl App {
    /// Handles one action of the event loop and tells which backend command,
    /// if any, is to run.
    pub fn dispatch(&mut self, action: Action, default_account: &str, accounts: &Vec<String>) -> (c: Command)
        ensures
            dispatched(*old(self), action, default_account@, accounts@, *final(self), c),
            action == Action::SelectNext && old(self).selected + 1 < old(self).envelopes@.len()
                ==> final(self).selected == old(self).selected + 1,
            action == Action::SelectPrev && old(self).selected > 0
                ==> final(self).selected + 1 == old(self).selected,
            action == Action::SelectNext || action == Action::SelectPrev
                ==> final(self).envelopes == old(self).envelopes,
            c matches Command::SetFlagged(t, add) ==> action == Action::ToggleFlag && add != t.flagged,
            c matches Command::SetSeen(t, add) ==> action == Action::ToggleRead && add == t.unseen,
    {
        if action != Action::Nothing && self.status.is_some() {
            self.status = None;
        }
        match action {
            Action::Nothing => Command::Idle,
            Action::Quit => {
                self.should_quit = true;
                Command::Idle
            },
            Action::SelectNext => {
                self.select_next();
                Command::Idle
            },
            Action::SelectPrev => {
                self.select_prev();
                Command::Idle
            },
            Action::ReadMessage => self.begin_read(default_account, accounts),
            Action::NextMessage => {
                if let View::MessageRead { .. } = &self.view {
                    let prev = self.selected;
                    self.select_next();
                    if self.selected == prev {
                        self.status = Some(Status::Info(String::from_str("No more messages")));
                        Command::Idle
                    } else {
                        self.begin_read(default_account, accounts)
                    }
                } else {
                    Command::Idle
                }
            },
            Action::BackToList => {
                self.view = View::EnvelopeList;
                Command::Idle
            },
            Action::ScrollDown => {
                if let View::MessageRead { scroll, .. } = &mut self.view {
                    *scroll = scroll.saturating_add(1);
                }
                Command::Idle
            },
            Action::ScrollUp => {
                if let View::MessageRead { scroll, .. } = &mut self.view {
                    *scroll = scroll.saturating_sub(1);
                }
                Command::Idle
            },
            _ => self.begin_change(action, default_account, accounts),
        }
    }

    /// Applies the outcome of deleting the selected message: on success it
    /// leaves the list; on failure the status tells why.
    pub fn finish_delete(&mut self, outcome: Result<(), String>)
        ensures
            match outcome {
                Ok(_) => removed_selected(*old(self), "Deleted"@, *final(self)),
                Err(e) => failed(*old(self), "Delete failed: "@ + e@, *final(self)),
            },
            outcome is Ok && old(self).selected < old(self).envelopes@.len() ==> final(self).envelopes@
                == old(self).envelopes@.remove(old(self).selected as int),
    {
        match outcome {
            Ok(_) => {
                self.remove_envelope(self.selected);
                self.view = View::EnvelopeList;
                self.status = Some(Status::Info(String::from_str("Deleted")));
            },
            Err(e) => {
                self.status = Some(Status::Error(prefixed("Delete failed: ", e.as_str())));
            },
        }
    }

    /// Applies the outcome of moving the selected message to
    /// `archive_folder`: on success it leaves the list; on failure the status
    /// tells why.
    pub fn finish_archive(&mut self, archive_folder: &str, outcome: Result<(), String>)
        ensures
            match outcome {
                Ok(_) => removed_selected(*old(self), "Archived to "@ + archive_folder@, *final(self)),
                Err(e) => failed(*old(self), "Archive failed: "@ + e@, *final(self)),
            },
            outcome is Ok && old(self).selected < old(self).envelopes@.len() ==> final(self).envelopes@
                == old(self).envelopes@.remove(old(self).selected as int),
    {
        match outcome {
            Ok(_) => {
                self.remove_envelope(self.selected);
                self.view = View::EnvelopeList;
                self.status = Some(Status::Info(prefixed("Archived to ", archive_folder)));
            },
            Err(e) => {
                self.status = Some(Status::Error(prefixed("Archive failed: ", e.as_str())));
            },
        }
    }

    /// Applies the outcome of toggling the Seen flag of `target`, the
    /// selected envelope: on success its unseen bit flips and `S` is added
    /// to or dropped from its flags.
    pub fn finish_toggle_read(&mut self, target: &Target, outcome: Result<(), String>)
        requires
            outcome is Ok ==> old(self).selected < old(self).envelopes@.len(),
        ensures
            match outcome {
                Ok(_) => {
                    let i = old(self).selected as int;
                    let before = old(self).envelopes@[i];
                    let after = final(self).envelopes@[i];
                    &&& only_changed_at(old(self).envelopes@, final(self).envelopes@, i)
                    &&& after == (EnvelopeData { unseen: !target.unseen, flags: after.flags, ..before })
                    &&& after.flags@ == (if target.unseen {
                        with_letter(before.flags@, 'S')
                    } else {
                        without_char(before.flags@, 'S')
                    })
                    &&& informed(
                        App { envelopes: final(self).envelopes, ..*old(self) },
                        if target.unseen { "Marked as read"@ } else { "Marked as unread"@ },
                        *final(self),
                    )
                },
                Err(e) => failed(*old(self), "Toggle read failed: "@ + e@, *final(self)),
            },
    {
        match outcome {
            Ok(_) => {
                let i = self.selected;
                let flags = if target.unseen {
                    add_letter(&self.envelopes[i].flags, 'S')
                } else {
                    drop_letter(&self.envelopes[i].flags, 'S')
                };
                self.envelopes[i].unseen = !target.unseen;
                self.envelopes[i].flags = flags;
                if target.unseen {
                    self.status = Some(Status::Info(String::from_str("Marked as read")));
                } else {
                    self.status = Some(Status::Info(String::from_str("Marked as unread")));
                }
            },
            Err(e) => {
                self.status = Some(Status::Error(prefixed("Toggle read failed: ", e.as_str())));
            },
        }
    }

    /// Applies the outcome of toggling the Flagged flag of `target`, the
    /// selected envelope: on success its flagged bit flips and `F` is added
    /// to or dropped from its flags.
    pub fn finish_toggle_flag(&mut self, target: &Target, outcome: Result<(), String>)
        requires
            outcome is Ok ==> old(self).selected < old(self).envelopes@.len(),
        ensures
            match outcome {
                Ok(_) => {
                    let i = old(self).selected as int;
                    let before = old(self).envelopes@[i];
                    let after = final(self).envelopes@[i];
                    &&& only_changed_at(old(self).envelopes@, final(self).envelopes@, i)
                    &&& after == (EnvelopeData { flagged: !target.flagged, flags: after.flags, ..before })
                    &&& after.flags@ == (if target.flagged {
                        without_char(before.flags@, 'F')
                    } else {
                        with_letter(before.flags@, 'F')
                    })
                    &&& informed(
                        App { envelopes: final(self).envelopes, ..*old(self) },
                        if target.flagged { "Unflagged"@ } else { "Flagged"@ },
                        *final(self),
                    )
                },
                Err(e) => failed(*old(self), "Toggle flag failed: "@ + e@, *final(self)),
            },
    {
        match outcome {
            Ok(_) => {
                let i = self.selected;
                let flags = if target.flagged {
                    drop_letter(&self.envelopes[i].flags, 'F')
                } else {
                    add_letter(&self.envelopes[i].flags, 'F')
                };
                self.envelopes[i].flagged = !target.flagged;
                self.envelopes[i].flags = flags;
                if target.flagged {
                    self.status = Some(Status::Info(String::from_str("Unflagged")));
                } else {
                    self.status = Some(Status::Info(String::from_str("Flagged")));
                }
            },
            Err(e) => {
                self.status = Some(Status::Error(prefixed("Toggle flag failed: ", e.as_str())));
            },
        }
    }
}

} // verus!
