use vstd::prelude::*;

verus! {

/// The account name argument parser.
pub struct AccountNameArg {
    /// The name of the account: an entry in the table at the root level of
    /// the TOML configuration file.
    pub name: String,
}

/// The optional account name argument parser.
pub struct OptionalAccountNameArg {
    /// The name of the account; when omitted, the account marked as default
    /// is used.
    pub name: Option<String>,
}

/// Container for the account name, filled from the global `--account` flag
/// before a command runs.
#[derive(Clone, Debug)]
pub struct AccountNameFlag {
    pub name: Option<String>,
}

impl Default for AccountNameFlag {
    fn default() -> (r: AccountNameFlag)
        ensures
            r.name is None,
    {
        AccountNameFlag { name: None }
    }
}

} // verus!
