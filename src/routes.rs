use vstd::prelude::*;
use vstd::string::*;

use crate::text::{
    contains_text, decimal, decimal_text, has_text, replace_text, replaced, same_text,
};

verus! {

/// The age from which a visitor is welcomed as an adult.
pub const ADULT_AGE: i32 = 18;

/// An age old enough for the adult pages.
pub struct Age {
    value: i32,
}

impl Age {
    pub closed spec fn spec_value(&self) -> int {
        self.value as int
    }

    /// Accepts an age of at least `ADULT_AGE`; `None` for a younger one.
    pub fn from_value(value: i32) -> (r: Option<Age>)
        ensures
            r is Some <==> value >= ADULT_AGE,
            r matches Some(a) ==> a.spec_value() == value,
    {
        if value >= ADULT_AGE {
            Some(Age { value })
        } else {
            None
        }
    }

    pub fn value(&self) -> (r: i32)
        ensures
            r == self.spec_value(),
    {
        self.value
    }
}

/// A visitor who sent an `Authorization` header.
pub struct User {
    pub token: String,
}

/// What the `Authorization` header holds once every `"Bearer "` is taken out.
pub open spec fn token_of(authorization: Seq<char>) -> Seq<char> {
    replaced(authorization, "Bearer "@, ""@)
}

impl User {
    /// The user whose token is the header with every `"Bearer "` removed.
    pub fn from_authorization(authorization: &str) -> (r: User)
        ensures
            r.token@ == token_of(authorization@),
    {
        proof {
            reveal_strlit("Bearer ");
        }
        User { token: replace_text(authorization, "Bearer ", "") }
    }

    /// An administrator is a user whose token contains `"admin"`.
    pub fn is_admin(&self) -> (r: bool)
        ensures
            r == contains_text(self.token@, "admin"@),
    {
        has_text(self.token.as_str(), "admin")
    }
}

/// A user who is an administrator.
pub struct Admin {
    pub user: User,
}

impl Admin {
    /// Admits the user as an administrator, or gives `None`.
    pub fn from_user(user: User) -> (r: Option<Admin>)
        ensures
            r is Some <==> contains_text(user.token@, "admin"@),
            r matches Some(a) ==> a.user.token@ == user.token@,
    {
        if user.is_admin() {
            Some(Admin { user })
        } else {
            None
        }
    }
}

/// The root page.
pub fn hello() -> (r: &'static str)
    ensures
        r@ == "Hello world!"@,
{
    "Hello world!"
}

/// Greets a person by name and age.
pub fn person(name: String, age: i32) -> (r: String)
    ensures
        r@ == "Hello, "@ + decimal(age as int) + " year old named "@ + name@ + "!"@,
{
    let mut r = String::from_str("Hello, ");
    let a = decimal_text(age);
    r.append(a.as_str());
    r.append(" year old named ");
    r.append(name.as_str());
    r.append("!");
    r
}

/// Welcomes an adult.
pub fn adult(age: Age) -> (r: String)
    ensures
        r@ == "At "@ + decimal(age.spec_value()) + ", you are old enough: welcome!"@,
{
    let mut r = String::from_str("At ");
    let a = decimal_text(age.value());
    r.append(a.as_str());
    r.append(", you are old enough: welcome!");
    r
}

/// Turns away someone too young.
pub fn child(age: i32) -> (r: String)
    ensures
        r@ == "Sorry, "@ + decimal(age as int)
            + " is too young to enter, come back in a few years."@,
{
    let mut r = String::from_str("Sorry, ");
    let a = decimal_text(age);
    r.append(a.as_str());
    r.append(" is too young to enter, come back in a few years.");
    r
}

/// The page for an age: the adult's welcome from `ADULT_AGE` on, the
/// refusal below it.
pub fn greet_age(age: i32) -> (r: String)
    ensures
        age >= ADULT_AGE ==> r@ == "At "@ + decimal(age as int)
            + ", you are old enough: welcome!"@,
        age < ADULT_AGE ==> r@ == "Sorry, "@ + decimal(age as int)
            + " is too young to enter, come back in a few years."@,
{
    match Age::from_value(age) {
        Some(a) => adult(a),
        None => child(age),
    }
}

/// The administrator's dashboard.
pub fn admin_dashboard(_admin: Admin) -> (r: String)
    ensures
        r@ == "Welcome, administrator!"@,
{
    String::from_str("Welcome, administrator!")
}

/// The dashboard of a user who is not an administrator.
pub fn user_dashboard(_user: User) -> (r: String)
    ensures
        r@ == "Welcome, simple user!"@,
{
    String::from_str("Welcome, simple user!")
}

/// The dashboard for a request with the given `Authorization` header: the
/// administrator's where the token contains `"admin"`, the simple user's
/// otherwise, and `None` (send to the login page) without a header.
pub fn dashboard(authorization: Option<&str>) -> (r: Option<String>)
    ensures
        authorization is None ==> r is None,
        authorization matches Some(h) ==> r is Some && (contains_text(token_of(h@), "admin"@)
            ==> r->Some_0@ == "Welcome, administrator!"@) && (!contains_text(
            token_of(h@),
            "admin"@,
        ) ==> r->Some_0@ == "Welcome, simple user!"@),
{
    match authorization {
        None => None,
        Some(h) => {
            let user = User::from_authorization(h);
            if user.is_admin() {
                match Admin::from_user(user) {
                    Some(admin) => Some(admin_dashboard(admin)),
                    None => None,
                }
            } else {
                Some(user_dashboard(user))
            }
        },
    }
}

/// The token that a login hands out: `"admin"` for the password
/// `"admin"`, `"hugo"` for any other.
pub fn login_token(password: &str) -> (r: String)
    ensures
        password@ == "admin"@ ==> r@ == "admin"@,
        password@ != "admin"@ ==> r@ == "hugo"@,
{
    if same_text(password, "admin") {
        String::from_str("admin")
    } else {
        String::from_str("hugo")
    }
}

/// The body of an error response.
pub struct ApiError {
    pub code: usize,
    pub name: String,
    pub message: String,
}

/// The error body for a missing resource.
pub fn not_found() -> (r: ApiError)
    ensures
        r.code == 404,
        r.name@ == "Not Found"@,
        r.message@ == "Four, oh four!"@,
{
    ApiError {
        code: 404,
        name: String::from_str("Not Found"),
        message: String::from_str("Four, oh four!"),
    }
}

/// The error body for a request that was understood but cannot be followed.
pub fn unprocessable_entity() -> (r: ApiError)
    ensures
        r.code == 422,
        r.name@ == "Unprocessable Entity"@,
        r.message@
            == "The request was well-formed but was unable to be followed due to semantic errors."@,
{
    ApiError {
        code: 422,
        name: String::from_str("Unprocessable Entity"),
        message: String::from_str(
            "The request was well-formed but was unable to be followed due to semantic errors.",
        ),
    }
}

} // verus!
