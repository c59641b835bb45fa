use vstd::prelude::*;

verus! {

/// A login identity's role. Roles are not totally ordered; whether a role may
/// perform an action is decided by the compatibility table in
/// [`role_satisfies`].
#[derive(Clone, Copy, PartialEq, Eq, Structural, Debug)]
pub enum Role {
    Admin,
    Manager,
    User,
}

/// The permission table: `Admin` satisfies every requirement, `Manager`
/// satisfies `Manager` and `User` requirements, and `User` satisfies only
/// `User` requirements. No other pair satisfies.
pub open spec fn role_satisfies(actual: Role, required: Role) -> bool {
    match (actual, required) {
        (Role::Admin, _) => true,
        (Role::Manager, Role::Admin) => false,
        (Role::Manager, _) => true,
        (Role::User, Role::User) => true,
        (Role::User, _) => false,
    }
}

impl Role {
    /// Decides whether an actor with role `self` may perform an action that
    /// requires `required`. Pure; no state is read.
    pub fn satisfies(self, required: Role) -> (r: bool)
        ensures
            r == role_satisfies(self, required),
    {
        match (self, required) {
            (Role::Admin, _) => true,
            (Role::Manager, Role::User) => true,
            (Role::Manager, Role::Manager) => true,
            (Role::User, Role::User) => true,
            _ => false,
        }
    }

    /// The display label of the role.
    pub fn to_string(&self) -> (r: &'static str)
        ensures
            *self == Role::Admin ==> r@ == "Admin"@,
            *self == Role::Manager ==> r@ == "Manager"@,
            *self == Role::User ==> r@ == "User"@,
    {
        match self {
            Role::Admin => "Admin",
            Role::Manager => "Manager",
            Role::User => "User",
        }
    }
}

} // verus!
