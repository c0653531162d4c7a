use vstd::prelude::*;
use vstd::view::View as _;

use crate::text::{lex_sorted, sorted_names, views_of};
use crate::tui::app::{
    clamp_index, clamp_selection, AccountSection, App, EnvelopeData, FolderEntry, FolderSection, Status,
};

verus! {

/// The account to open when none is given on the command line: the first
/// account (in the order given) marked as default, else the first account,
/// else the empty name.
pub open spec fn chosen_account(explicit: Option<String>, accounts: Seq<(String, Option<bool>)>) -> Seq<char> {
    match explicit {
        Some(name) => name@,
        None => match first_default(accounts) {
            Some(i) => accounts[i].0@,
            None => if accounts.len() > 0 {
                accounts[0].0@
            } else {
                Seq::empty()
            },
        },
    }
}

/// Index of the first account marked as default.
pub open spec fn first_default(accounts: Seq<(String, Option<bool>)>) -> Option<int>
    decreases accounts.len(),
{
    if accounts.len() == 0 {
        None
    } else if accounts[0].1 == Some(true) {
        Some(0)
    } else {
        match first_default(accounts.drop_first()) {
            Some(i) => Some(i + 1),
            None => None,
        }
    }
}

proof fn lemma_first_default(accounts: Seq<(String, Option<bool>)>, k: int)
    requires
        0 <= k <= accounts.len(),
        forall|j: int| 0 <= j < k ==> #[trigger] accounts[j].1 != Some(true),
    ensures
        k < accounts.len() && accounts[k].1 == Some(true) ==> first_default(accounts) == Some(k),
        k == accounts.len() ==> first_default(accounts) is None,
    decreases k,
{
    if k > 0 {
        assert forall|j: int| 0 <= j < k - 1 implies #[trigger] accounts.drop_first()[j].1 != Some(true) by {
            assert(accounts.drop_first()[j] == accounts[j + 1]);
        }
        lemma_first_default(accounts.drop_first(), k - 1);
    }
}

/// Picks the name of the account to open: the one given, else the first
/// marked as default, else the first one, else the empty name.
pub fn pick_account_name(explicit: Option<String>, accounts: &Vec<(String, Option<bool>)>) -> (r: String)
    ensures
        r@ == chosen_account(explicit, accounts@),
{
    match explicit {
        Some(name) => name,
        None => {
            let mut k: usize = 0;
            while k < accounts.len()
                invariant
                    explicit is None,
                    k <= accounts@.len(),
                    forall|j: int| 0 <= j < k ==> #[trigger] accounts@[j].1 != Some(true),
                decreases accounts@.len() - k,
            {
                let marked = match accounts[k].1 {
                    Some(d) => d,
                    None => false,
                };
                if marked {
                    proof {
                        lemma_first_default(accounts@, k as int);
                    }
                    let r = accounts[k].0.clone();
                    return r;
                }
                k = k + 1;
            }
            proof {
                lemma_first_default(accounts@, k as int);
            }
            if accounts.len() > 0 {
                accounts[0].0.clone()
            } else {
                String::new()
            }
        },
    }
}

/// `e` is `src` tagged with account `name`.
pub open spec fn tagged_with(src: EnvelopeData, name: Seq<char>, e: EnvelopeData) -> bool {
    &&& e == (EnvelopeData { account: e.account, ..src })
    &&& e.account@ == name
}

/// A copy of `env` tagged with account `name`.
fn tagged(env: &EnvelopeData, name: &String) -> (e: EnvelopeData)
    ensures
        tagged_with(*env, name@, e),
{
    EnvelopeData {
        id: env.id.clone(),
        subject: env.subject.clone(),
        from: env.from.clone(),
        date: env.date.clone(),
        flags: env.flags.clone(),
        unseen: env.unseen,
        flagged: env.flagged,
        account: name.clone(),
    }
}

/// Total number of envelopes of the first `k` accounts.
pub open spec fn total_before(loaded: Seq<(String, Vec<EnvelopeData>)>, k: int) -> nat
    decreases k,
{
    if k <= 0 {
        0
    } else {
        total_before(loaded, k - 1) + loaded[k - 1].1@.len()
    }
}

/// `all` and `sections` hold the envelopes of every account of `loaded`, in
/// order, each tagged with its account; section `k` covers the envelopes of
/// account `k`.
pub open spec fn inboxes_assembled(
    loaded: Seq<(String, Vec<EnvelopeData>)>,
    all: Seq<EnvelopeData>,
    sections: Seq<AccountSection>,
) -> bool {
    &&& sections.len() == loaded.len()
    &&& all.len() == total_before(loaded, loaded.len() as int)
    &&& forall|k: int| 0 <= k < loaded.len() ==> {
        &&& (#[trigger] sections[k]).name@ == loaded[k].0@
        &&& sections[k].start == total_before(loaded, k)
        &&& sections[k].count == loaded[k].1@.len()
    }
    &&& forall|k: int, j: int|
        0 <= k < loaded.len() && 0 <= j < loaded[k].1@.len() ==> tagged_with(
            loaded[k].1@[j],
            loaded[k].0@,
            #[trigger] all[total_before(loaded, k) + j],
        )
}

proof fn lemma_total_before_monotone(loaded: Seq<(String, Vec<EnvelopeData>)>, a: int, b: int)
    requires
        0 <= a <= b <= loaded.len(),
    ensures
        total_before(loaded, a) <= total_before(loaded, b),
        a < b ==> total_before(loaded, a) + loaded[a].1@.len() <= total_before(loaded, b),
    decreases b - a,
{
    if a < b {
        lemma_total_before_monotone(loaded, a, b - 1);
        if a < b - 1 {
            lemma_total_before_monotone(loaded, a + 1, b);
        }
    }
}

/// Gathers the envelopes of several accounts into one list, each tagged
/// with its account, with one section per account.
pub fn assemble_inboxes(loaded: &Vec<(String, Vec<EnvelopeData>)>) -> (r: (Vec<EnvelopeData>, Vec<AccountSection>))
    ensures
        inboxes_assembled(loaded@, r.0@, r.1@),
{
    let mut all: Vec<EnvelopeData> = Vec::new();
    let mut sections: Vec<AccountSection> = Vec::new();
    let mut k: usize = 0;
    while k < loaded.len()
        invariant
            k <= loaded@.len(),
            sections@.len() == k,
            all@.len() == total_before(loaded@, k as int),
            forall|q: int| 0 <= q < k ==> {
                &&& (#[trigger] sections@[q]).name@ == loaded@[q].0@
                &&& sections@[q].start == total_before(loaded@, q)
                &&& sections@[q].count == loaded@[q].1@.len()
            },
            forall|q: int, j: int|
                0 <= q < k && 0 <= j < loaded@[q].1@.len() ==> tagged_with(
                    loaded@[q].1@[j],
                    loaded@[q].0@,
                    #[trigger] all@[total_before(loaded@, q) + j],
                ),
        decreases loaded@.len() - k,
    {
        let name = &loaded[k].0;
        let envs = &loaded[k].1;
        let start = all.len();
        let ghost before = all@;
        let mut j: usize = 0;
        while j < envs.len()
            invariant
                k < loaded@.len(),
                name == loaded@[k as int].0,
                envs == loaded@[k as int].1,
                j <= envs@.len(),
                start == before.len(),
                all@.len() == start + j,
                forall|i: int| 0 <= i < start ==> #[trigger] all@[i] == before[i],
                forall|i: int| 0 <= i < j ==> tagged_with(envs@[i], name@, #[trigger] all@[start + i]),
            decreases envs@.len() - j,
        {
            all.push(tagged(&envs[j], name));
            j = j + 1;
        }
        sections.push(AccountSection { name: name.clone(), start, count: envs.len() });
        proof {
            assert forall|q: int, i: int|
                0 <= q < k + 1 && 0 <= i < loaded@[q].1@.len() implies tagged_with(
                loaded@[q].1@[i],
                loaded@[q].0@,
                #[trigger] all@[total_before(loaded@, q) + i],
            ) by {
                if q < k {
                    lemma_total_before_monotone(loaded@, q, k as int);
                    assert(all@[total_before(loaded@, q) + i] == before[total_before(loaded@, q) + i]);
                } else {
                    assert(all@[start + i] == all@[total_before(loaded@, q) + i]);
                }
            }
        }
        k = k + 1;
    }
    (all, sections)
}

} // verus!

verus! {

/// Total number of folders of the first `k` accounts.
pub open spec fn folders_before(loaded: Seq<(String, Vec<String>)>, k: int) -> nat
    decreases k,
{
    if k <= 0 {
        0
    } else {
        folders_before(loaded, k - 1) + loaded[k - 1].1@.len()
    }
}

/// The sections of the first `k` accounts that have folders: account key,
/// start and count.
pub open spec fn folder_sections_spec(loaded: Seq<(String, Vec<String>)>, k: int) -> Seq<(Seq<char>, nat, nat)>
    decreases k,
{
    if k <= 0 {
        Seq::empty()
    } else if loaded[k - 1].1@.len() > 0 {
        folder_sections_spec(loaded, k - 1).push(
            (loaded[k - 1].0@, folders_before(loaded, k - 1), loaded[k - 1].1@.len()),
        )
    } else {
        folder_sections_spec(loaded, k - 1)
    }
}

/// `folders` and `sections` list the folders of every account of `loaded`,
/// in order, with one section per account that has folders.
pub open spec fn folders_assembled(
    loaded: Seq<(String, Vec<String>)>,
    folders: Seq<FolderEntry>,
    sections: Seq<FolderSection>,
) -> bool {
    let spec_sections = folder_sections_spec(loaded, loaded.len() as int);
    &&& folders.len() == folders_before(loaded, loaded.len() as int)
    &&& forall|k: int, j: int|
        0 <= k < loaded.len() && 0 <= j < loaded[k].1@.len() ==> {
            &&& (#[trigger] folders[folders_before(loaded, k) + j]).name@ == loaded[k].1@[j]@
            &&& folders[folders_before(loaded, k) + j].account@ == loaded[k].0@
        }
    &&& sections.len() == spec_sections.len()
    &&& forall|i: int| 0 <= i < sections.len() ==> {
        &&& (#[trigger] sections[i]).name@ == spec_sections[i].0
        &&& sections[i].start == spec_sections[i].1
        &&& sections[i].count == spec_sections[i].2
    }
}

proof fn lemma_folders_before_monotone(loaded: Seq<(String, Vec<String>)>, a: int, b: int)
    requires
        0 <= a <= b <= loaded.len(),
    ensures
        a < b ==> folders_before(loaded, a) + loaded[a].1@.len() <= folders_before(loaded, b),
    decreases b - a,
{
    if a < b - 1 {
        lemma_folders_before_monotone(loaded, a + 1, b);
    }
}

/// Gathers the folders of several accounts into one list, with one section
/// per account that has folders.
pub fn assemble_folders(loaded: &Vec<(String, Vec<String>)>) -> (r: (Vec<FolderEntry>, Vec<FolderSection>))
    ensures
        folders_assembled(loaded@, r.0@, r.1@),
{
    let mut folders: Vec<FolderEntry> = Vec::new();
    let mut sections: Vec<FolderSection> = Vec::new();
    let mut k: usize = 0;
    while k < loaded.len()
        invariant
            k <= loaded@.len(),
            folders@.len() == folders_before(loaded@, k as int),
            forall|q: int, j: int|
                0 <= q < k && 0 <= j < loaded@[q].1@.len() ==> {
                    &&& (#[trigger] folders@[folders_before(loaded@, q) + j]).name@ == loaded@[q].1@[j]@
                    &&& folders@[folders_before(loaded@, q) + j].account@ == loaded@[q].0@
                },
            sections@.len() == folder_sections_spec(loaded@, k as int).len(),
            forall|i: int| 0 <= i < sections@.len() ==> {
                &&& (#[trigger] sections@[i]).name@ == folder_sections_spec(loaded@, k as int)[i].0
                &&& sections@[i].start == folder_sections_spec(loaded@, k as int)[i].1
                &&& sections@[i].count == folder_sections_spec(loaded@, k as int)[i].2
            },
        decreases loaded@.len() - k,
    {
        let key = &loaded[k].0;
        let names = &loaded[k].1;
        let start = folders.len();
        let ghost before = folders@;
        let mut j: usize = 0;
        while j < names.len()
            invariant
                k < loaded@.len(),
                key == loaded@[k as int].0,
                names == loaded@[k as int].1,
                j <= names@.len(),
                start == before.len(),
                folders@.len() == start + j,
                forall|i: int| 0 <= i < start ==> #[trigger] folders@[i] == before[i],
                forall|i: int| 0 <= i < j ==> {
                    &&& (#[trigger] folders@[start + i]).name@ == names@[i]@
                    &&& folders@[start + i].account@ == key@
                },
            decreases names@.len() - j,
        {
            folders.push(FolderEntry { name: names[j].clone(), account: key.clone() });
            j = j + 1;
        }
        if names.len() > 0 {
            sections.push(FolderSection { name: key.clone(), start, count: names.len() });
        }
        proof {
            assert forall|q: int, i: int|
                0 <= q < k + 1 && 0 <= i < loaded@[q].1@.len() implies {
                &&& (#[trigger] folders@[folders_before(loaded@, q) + i]).name@ == loaded@[q].1@[i]@
                &&& folders@[folders_before(loaded@, q) + i].account@ == loaded@[q].0@
            } by {
                if q < k {
                    lemma_folders_before_monotone(loaded@, q, k as int);
                    assert(folders@[folders_before(loaded@, q) + i] == before[folders_before(loaded@, q) + i]);
                }
            }
        }
        k = k + 1;
    }
    (folders, sections)
}

/// Account `k` is the first whose folders could not be listed.
pub open spec fn listing_failed_at(outcomes: Seq<(String, Result<Vec<String>, String>)>, k: int) -> bool {
    &&& 0 <= k < outcomes.len()
    &&& outcomes[k].1 is Err
    &&& forall|j: int| 0 <= j < k ==> (#[trigger] outcomes[j]).1 is Ok
}

/// The folder names listed for each account, once every listing succeeded.
pub open spec fn listed_folders(outcomes: Seq<(String, Result<Vec<String>, String>)>) -> Seq<(String, Vec<String>)> {
    outcomes.map_values(|o: (String, Result<Vec<String>, String>)| (o.0, o.1->Ok_0))
}

/// The text shown when the folders of account `key` could not be listed.
pub open spec fn folder_error_text(key: Seq<char>, error: Seq<char>) -> Seq<char> {
    "Error loading folders for "@ + key + ": "@ + error
}

/// Turns the outcome of listing the folders of each account, in order, into
/// the folder view: the first failure stops the listing and is reported with
/// its account; when every listing succeeded the folders are gathered as
/// `assemble_folders` gathers them.
pub fn folder_listing(outcomes: Vec<(String, Result<Vec<String>, String>)>) -> (r: Result<
    (Vec<FolderEntry>, Vec<FolderSection>),
    String,
>)
    ensures
        forall|k: int|
            listing_failed_at(outcomes@, k) ==> (r matches Err(e) && e@ == folder_error_text(
                outcomes@[k].0@,
                (#[trigger] outcomes@[k]).1->Err_0@,
            )),
        (forall|k: int| 0 <= k < outcomes@.len() ==> (#[trigger] outcomes@[k]).1 is Ok) ==> (r matches Ok(
            (folders, sections),
        ) && folders_assembled(listed_folders(outcomes@), folders@, sections@)),
{
    let ghost all = outcomes@;
    let mut rest = outcomes;
    let mut loaded: Vec<(String, Vec<String>)> = Vec::new();
    let n = rest.len();
    let mut k: usize = 0;
    while k < n
        invariant
            all == outcomes@,
            n == all.len(),
            k <= n,
            rest@ == all.skip(k as int),
            loaded@ == listed_folders(all.take(k as int)),
            forall|j: int| 0 <= j < k ==> (#[trigger] all[j]).1 is Ok,
        decreases n - k,
    {
        assert(rest@[0] == all[k as int]);
        let (key, outcome) = rest.remove(0);
        assert(rest@ == all.skip(k + 1));
        match outcome {
            Ok(names) => {
                loaded.push((key, names));
                assert(loaded@ == listed_folders(all.take(k + 1)));
            },
            Err(e) => {
                let mut t = String::from_str("Error loading folders for ");
                t.append(key.as_str());
                t.append(": ");
                t.append(e.as_str());
                proof {
                    assert forall|q: int| listing_failed_at(all, q) implies q == k by {
                        if q < k {
                            assert(all[q].1 is Ok);
                        }
                        if q > k {
                            assert(all[k as int].1 is Ok);
                        }
                    }
                }
                return Err(t);
            },
        }
        k = k + 1;
    }
    assert(all.take(n as int) == all);
    Ok(assemble_folders(&loaded))
}

/// The envelope list to open the interface with: refused when no account
/// loaded, else the inboxes gathered as `assemble_inboxes` gathers them.
pub fn inboxes_to_open(loaded: &Vec<(String, Vec<EnvelopeData>)>) -> (r: Result<
    (Vec<EnvelopeData>, Vec<AccountSection>),
    String,
>)
    ensures
        loaded@.len() == 0 ==> (r matches Err(e) && e@ == "no accounts loaded successfully; cannot start TUI"@),
        loaded@.len() > 0 ==> (r matches Ok((all, sections)) && inboxes_assembled(loaded@, all@, sections@)),
{
    if loaded.len() == 0 {
        Err(String::from_str("no accounts loaded successfully; cannot start TUI"))
    } else {
        Ok(assemble_inboxes(loaded))
    }
}

impl App {
    /// Marks the start of a refresh of the envelope list.
    pub fn begin_refresh(&mut self)
        ensures
            *final(self) == (App { status: final(self).status, ..*old(self) }),
            final(self).status matches Some(Status::Working(t)) && t@ == "Refreshing…"@,
    {
        self.status = Some(Status::Working(String::from_str("Refreshing…")));
    }

    /// Records a failed refresh; the list stays as it was.
    pub fn refresh_failed(&mut self, error: &str)
        ensures
            *final(self) == (App { status: final(self).status, ..*old(self) }),
            final(self).status matches Some(Status::Error(t)) && t@ == "Refresh failed: "@ + error@,
    {
        self.status = Some(Status::Error(crate::tui::control::prefixed("Refresh failed: ", error)));
    }

    /// Puts a refreshed envelope list in place, keeps the selection within
    /// it and clears the status.
    pub fn apply_refresh(&mut self, envelopes: Vec<EnvelopeData>, sections: Vec<AccountSection>)
        ensures
            *final(self) == (App {
                envelopes,
                sections,
                selected: clamp_index(old(self).selected, envelopes@.len()),
                status: None,
                ..*old(self)
            }),
    {
        self.envelopes = envelopes;
        self.sections = sections;
        self.selected = clamp_selection(self.selected, self.envelopes.len());
        self.status = None;
    }
}

} // verus!

verus! {

/// The accounts whose folders are listed: the one asked for, else every
/// account with a backend, sorted by name.
pub fn folder_list_accounts(account_filter: Option<&str>, backend_keys: &Vec<String>) -> (r: Vec<String>)
    ensures
        match account_filter {
            Some(key) => r@.len() == 1 && r@[0]@ == key@,
            None => lex_sorted(views_of(r@)) && views_of(r@).to_multiset() == views_of(
                backend_keys@,
            ).to_multiset(),
        },
{
    match account_filter {
        Some(key) => {
            let mut r: Vec<String> = Vec::new();
            r.push(String::from_str(key));
            r
        },
        None => sorted_names(backend_keys),
    }
}

} // verus!
