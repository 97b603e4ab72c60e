//! The account an instance is launched for.

use vstd::prelude::*;
use vstd::string::*;
use crate::launch::LaunchOption;
use crate::text::texts;

verus! {

/// How an account authenticates.
#[derive(Clone, Copy, Debug, PartialEq, Eq, Structural)]
pub enum UserType {
    MSA,
}

impl UserType {
    /// The name of the account type as the game expects it.
    pub fn to_string(&self) -> (name: String)
        ensures
            name@ == "msa"@,
    {
        match self {
            UserType::MSA => "msa".to_owned(),
        }
    }
}

/// An account.
#[derive(Clone, Debug, PartialEq, Eq)]
pub struct User {
    pub name: String,
    pub uuid: String,
    pub token: String,
    pub user_type: UserType,
}

/// The game flags that identify an account with the given name, uuid and
/// access token.
pub open spec fn user_flags(name: Seq<char>, uuid: Seq<char>, token: Seq<char>) -> Seq<Seq<char>> {
    seq![
        "--username"@,
        name,
        "--uuid"@,
        uuid,
        "--accessToken"@,
        token,
        "--userType"@,
        "msa"@,
    ]
}

impl LaunchOption for User {
    /// The game flags that identify this account.
    fn game_flags(&self) -> (flags: Vec<String>)
        ensures
            texts(flags@) == user_flags(self.name@, self.uuid@, self.token@),
    {
        let mut flags: Vec<String> = Vec::new();
        flags.push("--username".to_owned());
        flags.push(self.name.clone());
        flags.push("--uuid".to_owned());
        flags.push(self.uuid.clone());
        flags.push("--accessToken".to_owned());
        flags.push(self.token.clone());
        flags.push("--userType".to_owned());
        flags.push(self.user_type.to_string());
        proof {
            assert(texts(flags@) =~= user_flags(self.name@, self.uuid@, self.token@));
        }
        flags
    }
}

} // verus!
