//! Struct walkthrough: a field-based user record with a builder, tuple-like
//! records told apart only by name, and a field-less marker record.

use vstd::prelude::*;

verus! {

/// A user account record.
#[derive(Debug)]
pub struct User {
    pub active: bool,
    pub username: String,
    pub email: String,
    pub sign_in_count: u64,
}

/// Builds an active user with a single sign-in from the two given fields.
pub fn build_user(email: String, username: String) -> (user: User)
    ensures
        user.active == true,
        user.username == username,
        user.email == email,
        user.sign_in_count == 1,
{
    User { active: true, username, email, sign_in_count: 1 }
}

/// A colour, by components.
#[derive(Debug)]
pub struct Color(pub i32, pub i32, pub i32);

/// A point in space — the same shape as a colour, a different type.
#[derive(Debug)]
pub struct Point(pub i32, pub i32, pub i32);

/// A field-less marker record: a future attachment point for behaviour, not
/// data.
#[derive(Debug)]
pub struct AlwaysEqual;

/// Field-less records are instantiated without any data.
pub fn unit_like_structs() -> AlwaysEqual {
    let subject = AlwaysEqual;
    subject
}

/// A record may store borrowed text instead of owning it; its validity is
/// then tied to the borrowed text's.
pub fn ownership_of_struct_data() {
}

} // verus!
