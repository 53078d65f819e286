//! The owner column of a listing: the user's name, or the numeric user ID
//! when the system knows no user by it.
use vstd::prelude::*;
use crate::text::{decimal, pad_left, push_padded_decimal};

verus! {

/// A numeric user ID.
pub struct User(pub u32);

/// The name of the user with ID `uid` in the system's user database, read
/// by `users::get_user_by_uid` (which calls `getpwuid_r`), and converted to
/// text with invalid UTF-8 replaced, as `OsStr::to_string_lossy` does.
/// `None` when the database holds no such user or cannot be read.
/// Nothing is stated of the result: it depends on the database of the
/// machine at the time of the call, not on `uid` alone.
#[verifier::external_body]
pub(crate) fn user_name(uid: u32) -> (name: Option<String>) {
    match users::get_user_by_uid(uid) {
        Some(user) => Some(user.name().to_string_lossy().into_owned()),
        None => None,
    }
}

/// What the owner column shows for `uid`: the name found for it, else the
/// ID in decimal, zero-padded to three digits.
pub open spec fn user_text(uid: nat, name: Option<Seq<char>>) -> Seq<char> {
    match name {
        Some(n) => n,
        None => pad_left(decimal(uid), 3, '0'),
    }
}

/// The owner column for `uid`, given the name that the user database gave
/// for it (`None` when it gave none).
pub fn user_label(uid: u32, name: Option<String>) -> (s: String)
    ensures
        s@ == user_text(
            uid as nat,
            match name {
                Some(n) => Some(n@),
                None => None,
            },
        ),
{
    match name {
        Some(n) => n,
        None => {
            proof {
                reveal_strlit("0");
            }
            let mut s = String::new();
            push_padded_decimal(&mut s, uid as u64, 3, "0");
            assert(s@ =~= pad_left(decimal(uid as nat), 3, '0'));
            s
        },
    }
}

impl User {
    /// The owner column: the user's name as the user database gives it
    /// now, else the ID zero-padded to three digits.
    pub fn to_string(&self) -> (s: String)
        ensures
            exists|name: Option<Seq<char>>| s@ == user_text(self.0 as nat, name),
    {
        let name = user_name(self.0);
        let s = user_label(self.0, name);
        s
    }
}

} // verus!
